//! Blueprints (what a project needs) and stack plans (what the engine recommends).
use vstd::prelude::*;

verus! {

/// The declarative description of a project.
#[derive(Clone, Debug)]
pub struct Blueprint {
    pub project_name: String,
    pub goals: Vec<String>,
    pub constraints: Constraints,
    pub traffic_profile: TrafficProfile,
    pub prefs: Option<Preferences>,
    pub single_language_mode: Option<LanguageMode>,
}

#[derive(Clone, Debug)]
pub struct Constraints {
    /// Budget cap in fixed-point dollars.
    pub monthly_cost_usd_max: Option<u64>,
    pub persistence: Option<PersistenceType>,
    pub region_allow: Option<Vec<String>>,
    pub compliance: Option<Vec<ComplianceType>>,
}

#[derive(Clone, Copy, Debug, PartialEq, Eq, Structural)]
pub enum PersistenceType {
    Kv,
    Sql,
    Both,
}

#[derive(Clone, Copy, Debug, PartialEq, Eq, Structural)]
pub enum ComplianceType {
    AuditLog,
    Sbom,
    Pci,
    Sox,
    Hipaa,
}

#[derive(Clone, Copy, Debug)]
pub struct TrafficProfile {
    /// Peak requests per second in fixed-point steps.
    pub rps_peak: u64,
    pub global: bool,
    pub latency_sensitive: bool,
}

#[derive(Clone, Debug)]
pub struct Preferences {
    pub frontend: Option<Vec<String>>,
    pub backend: Option<Vec<String>>,
    pub database: Option<Vec<String>>,
    pub ai: Option<Vec<String>>,
}

#[derive(Clone, Copy, Debug, PartialEq, Eq, Structural)]
pub enum LanguageMode {
    Rust,
    Go,
    Ts,
}

/// The persistence tag that a database candidate must carry for a request.
pub open spec fn persistence_tag(p: PersistenceType) -> Seq<char> {
    match p {
        PersistenceType::Kv => "kv"@,
        PersistenceType::Sql => "sql"@,
        PersistenceType::Both => "both"@,
    }
}

/// The language candidate that a single-language restriction keeps.
pub open spec fn language_mode_name(m: LanguageMode) -> Seq<char> {
    match m {
        LanguageMode::Rust => "Rust"@,
        LanguageMode::Go => "Go"@,
        LanguageMode::Ts => "TypeScript"@,
    }
}

impl PersistenceType {
    pub fn tag(&self) -> (r: String)
        ensures
            r@ == persistence_tag(*self),
    {
        match self {
            PersistenceType::Kv => String::from_str("kv"),
            PersistenceType::Sql => String::from_str("sql"),
            PersistenceType::Both => String::from_str("both"),
        }
    }
}

impl LanguageMode {
    pub fn language_name(&self) -> (r: String)
        ensures
            r@ == language_mode_name(*self),
    {
        match self {
            LanguageMode::Rust => String::from_str("Rust"),
            LanguageMode::Go => String::from_str("Go"),
            LanguageMode::Ts => String::from_str("TypeScript"),
        }
    }
}

/// The engine's outcome for one category.
#[derive(Clone, Debug)]
pub struct Decision {
    pub topic: String,
    pub choice: String,
    pub reasons: Vec<String>,
    pub alternatives: Vec<String>,
    /// The score's numerator over `SCORE_DENOM`.
    pub score: u64,
}

#[derive(Clone, Debug)]
pub struct Stack {
    pub language: String,
    pub services: Option<Vec<Service>>,
    pub frontend: String,
    pub backend: String,
    pub database: String,
    pub cache: String,
    pub queue: String,
    pub ai: Vec<String>,
    pub infra: String,
    pub ci_cd: String,
}

#[derive(Clone, Debug)]
pub struct Service {
    pub name: String,
    pub kind: String,
    pub language: String,
    pub framework: String,
    pub runtime: String,
    pub build: String,
    pub tests: String,
}

#[derive(Clone, Debug)]
pub struct Estimated {
    /// Total monthly cost in fixed-point dollars.
    pub monthly_cost_usd: u64,
    /// Expected egress in fixed-point gigabytes, where known.
    pub egress_gb: Option<u64>,
    pub notes: Option<Vec<String>>,
}

#[derive(Clone, Debug)]
pub struct Meta {
    pub seed: u64,
    pub blueprint_hash: String,
    pub plan_hash: String,
}

#[derive(Clone, Debug)]
pub struct StackPlan {
    pub decisions: Vec<Decision>,
    pub stack: Stack,
    pub estimated: Estimated,
    pub meta: Meta,
}

pub struct DecisionView {
    pub topic: Seq<char>,
    pub choice: Seq<char>,
    pub reasons: Seq<Seq<char>>,
    pub alternatives: Seq<Seq<char>>,
    pub score: u64,
}

pub struct StackView {
    pub language: Seq<char>,
    pub frontend: Seq<char>,
    pub backend: Seq<char>,
    pub database: Seq<char>,
    pub cache: Seq<char>,
    pub queue: Seq<char>,
    pub ai: Seq<Seq<char>>,
    pub infra: Seq<char>,
    pub ci_cd: Seq<char>,
}

pub struct PlanView {
    pub decisions: Seq<DecisionView>,
    pub stack: StackView,
    pub monthly_cost: u64,
    pub seed: u64,
    pub blueprint_hash: Seq<char>,
    pub plan_hash: Seq<char>,
}

/// The texts of a vector of strings.
pub open spec fn texts(v: Seq<String>) -> Seq<Seq<char>> {
    v.map_values(|s: String| s@)
}

impl View for Decision {
    type V = DecisionView;

    open spec fn view(&self) -> DecisionView {
        DecisionView {
            topic: self.topic@,
            choice: self.choice@,
            reasons: texts(self.reasons@),
            alternatives: texts(self.alternatives@),
            score: self.score,
        }
    }
}

impl View for Stack {
    type V = StackView;

    open spec fn view(&self) -> StackView {
        StackView {
            language: self.language@,
            frontend: self.frontend@,
            backend: self.backend@,
            database: self.database@,
            cache: self.cache@,
            queue: self.queue@,
            ai: texts(self.ai@),
            infra: self.infra@,
            ci_cd: self.ci_cd@,
        }
    }
}

impl View for StackPlan {
    type V = PlanView;

    open spec fn view(&self) -> PlanView {
        PlanView {
            decisions: self.decisions@.map_values(|d: Decision| d@),
            stack: self.stack@,
            monthly_cost: self.estimated.monthly_cost_usd,
            seed: self.meta.seed,
            blueprint_hash: self.meta.blueprint_hash@,
            plan_hash: self.meta.plan_hash@,
        }
    }
}

/// Semantic checks on a blueprint: a project name and at least one goal. (Rates
/// and caps are unsigned, so they are never negative here.)
pub fn validate_blueprint(blueprint: Blueprint) -> (r: Result<Blueprint, String>)
    ensures
        match r {
            Ok(b) => b == blueprint && blueprint.project_name@.len() > 0 && blueprint.goals@.len() > 0,
            Err(m) => if blueprint.project_name@.len() == 0 {
                m@ == "project_name cannot be empty"@
            } else {
                blueprint.goals@.len() == 0 && m@ == "goals cannot be empty"@
            },
        },
{
    if blueprint.project_name.as_str().unicode_len() == 0 {
        return Err(String::from_str("project_name cannot be empty"));
    }
    if blueprint.goals.len() == 0 {
        return Err(String::from_str("goals cannot be empty"));
    }
    Ok(blueprint)
}

/// Semantic checks on a plan: every decision's score lies in [0, 1], that is, its
/// numerator is at most `SCORE_DENOM`. Reports the first decision out of range.
pub fn validate_stack_plan(plan: &StackPlan) -> (r: Result<(), String>)
    ensures
        r is Ok <==> forall|i: int| 0 <= i < plan.decisions@.len() ==> #[trigger] plan.decisions@[i].score
            <= crate::selector::SCORE_DENOM,
        r matches Err(m) ==> exists|i: int|
            0 <= i < plan.decisions@.len() && plan.decisions@[i].score > crate::selector::SCORE_DENOM
                && (forall|k: int| 0 <= k < i ==> #[trigger] plan.decisions@[k].score
                <= crate::selector::SCORE_DENOM)
                && m@ == "Score for "@ + plan.decisions@[i].topic@ + " must be between 0 and 1"@,
{
    let mut i: usize = 0;
    while i < plan.decisions.len()
        invariant
            i <= plan.decisions@.len(),
            forall|k: int| 0 <= k < i ==> #[trigger] plan.decisions@[k].score <= crate::selector::SCORE_DENOM,
        decreases plan.decisions@.len() - i,
    {
        let d = &plan.decisions[i];
        if d.score > crate::selector::SCORE_DENOM {
            return Err(String::from_str("Score for ").concat(d.topic.as_str()).concat(" must be between 0 and 1"));
        }
        i += 1;
    }
    Ok(())
}

} // verus!
