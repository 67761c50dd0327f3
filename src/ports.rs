//! The services that a host provides to the tools around the engine.
use vstd::prelude::*;

verus! {

/// An environment lookup that failed.
#[derive(Clone, Debug, PartialEq, Eq)]
pub enum EnvError {
    NotFound(String),
    InvalidValue(String, String),
}

impl EnvError {
    /// The error's message.
    pub fn message(&self) -> (r: String)
        ensures
            r@ == match self {
                EnvError::NotFound(v) => "Environment variable not found: "@ + v@,
                EnvError::InvalidValue(v, x) => "Invalid value for environment variable "@ + v@ + ": "@
                    + x@,
            },
    {
        match self {
            EnvError::NotFound(v) => String::from_str("Environment variable not found: ").concat(v.as_str()),
            EnvError::InvalidValue(v, x) => String::from_str("Invalid value for environment variable ").concat(
                v.as_str(),
            ).concat(": ").concat(x.as_str()),
        }
    }
}

/// Access to the process environment, implemented by the host.
pub trait EnvironmentPort {
    fn get_var(&self, key: &str) -> Result<String, EnvError>;

    fn set_var(&self, key: &str, value: &str);

    fn remove_var(&self, key: &str);

    fn current_dir(&self) -> Result<String, EnvError>;

    fn args(&self) -> Vec<String>;
}

/// A file or network operation that failed.
#[derive(Clone, Debug, PartialEq, Eq)]
pub enum IoError {
    NotFound(String),
    PermissionDenied(String),
    OperationFailed(String),
}

impl IoError {
    /// The error's message.
    pub fn message(&self) -> (r: String)
        ensures
            r@ == match self {
                IoError::NotFound(p) => "File not found: "@ + p@,
                IoError::PermissionDenied(p) => "Permission denied: "@ + p@,
                IoError::OperationFailed(m) => "IO operation failed: "@ + m@,
            },
    {
        match self {
            IoError::NotFound(p) => String::from_str("File not found: ").concat(p.as_str()),
            IoError::PermissionDenied(p) => String::from_str("Permission denied: ").concat(p.as_str()),
            IoError::OperationFailed(m) => String::from_str("IO operation failed: ").concat(m.as_str()),
        }
    }
}

} // verus!
