//! Observation points of the engine. The library itself records nothing: these
//! are the hooks of a build without a tracing sink, and a host that wants logs
//! emits them around its calls.
use vstd::prelude::*;

verus! {

/// Sets up observation; with no sink there is nothing to set up, so it succeeds.
pub fn init_observability() -> (r: Result<(), &'static str>)
    ensures
        r is Ok,
{
    Ok(())
}

/// Marks the validation of a blueprint text of `content_len` bytes in `format`.
pub fn log_blueprint_validation(content_len: usize, format: &str) {
}

/// Marks the start of a selection for a project under a seed.
pub fn log_selection_start(project_name: &str, seed: u64) {
}

/// Marks an error in a context.
pub fn log_error(context: &str, error: &str) {
}

} // verus!
