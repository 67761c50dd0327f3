//! The rules catalog: scoring weights and the candidates of each category.
use vstd::prelude::*;

verus! {

/// Largest metric or weight accepted in a catalog, in fixed-point steps (1000 units).
pub const MAX_FACTOR: u64 = 1_000_000_000;

/// Largest base monthly cost accepted in a catalog, in fixed-point steps (one billion dollars).
pub const MAX_COST: u64 = 1_000_000_000_000_000;

/// The closed set of categories, in the order in which they are resolved.
#[derive(Clone, Copy, Debug, PartialEq, Eq, Structural)]
pub enum Category {
    Language,
    Backend,
    Frontend,
    Database,
    Cache,
    Queue,
    Ai,
    Infra,
    CiCd,
}

/// The name of a category as it appears in documents and decisions.
pub open spec fn category_name(c: Category) -> Seq<char> {
    match c {
        Category::Language => "language"@,
        Category::Backend => "backend"@,
        Category::Frontend => "frontend"@,
        Category::Database => "database"@,
        Category::Cache => "cache"@,
        Category::Queue => "queue"@,
        Category::Ai => "ai"@,
        Category::Infra => "infra"@,
        Category::CiCd => "ci_cd"@,
    }
}

impl Category {
    /// The category's name.
    pub fn name(&self) -> (r: String)
        ensures
            r@ == category_name(*self),
    {
        match self {
            Category::Language => String::from_str("language"),
            Category::Backend => String::from_str("backend"),
            Category::Frontend => String::from_str("frontend"),
            Category::Database => String::from_str("database"),
            Category::Cache => String::from_str("cache"),
            Category::Queue => String::from_str("queue"),
            Category::Ai => String::from_str("ai"),
            Category::Infra => String::from_str("infra"),
            Category::CiCd => String::from_str("ci_cd"),
        }
    }
}

/// Scoring weights, in fixed-point steps.
#[derive(Clone, Copy, Debug)]
pub struct Weights {
    pub quality: u64,
    pub slo: u64,
    pub cost: u64,
    pub security: u64,
    pub ops: u64,
}

/// A candidate's metrics, in fixed-point steps (one unit is the top of the intended range).
#[derive(Clone, Copy, Debug)]
pub struct Metrics {
    pub quality: u64,
    pub slo: u64,
    pub cost: u64,
    pub security: u64,
    pub ops: u64,
}

#[derive(Clone, Debug)]
pub struct Requirements {
    pub language: Option<String>,
}

/// One technology option of a category.
#[derive(Clone, Debug)]
pub struct Candidate {
    pub name: String,
    pub requires: Option<Requirements>,
    pub persistence: Option<String>,
    pub metrics: Metrics,
    pub regions: Vec<String>,
    /// Base monthly cost in fixed-point dollars.
    pub monthly_cost_base: u64,
    pub notes: Vec<String>,
}

#[derive(Clone, Debug)]
pub struct CandidateCategories {
    pub language: Vec<Candidate>,
    pub backend: Vec<Candidate>,
    pub frontend: Vec<Candidate>,
    pub database: Vec<Candidate>,
    pub cache: Vec<Candidate>,
    pub queue: Vec<Candidate>,
    pub ai: Vec<Candidate>,
    pub infra: Vec<Candidate>,
    pub ci_cd: Vec<Candidate>,
}

#[derive(Clone, Debug)]
pub struct ComplianceRequirement {
    pub required_features: Vec<String>,
}

/// A rules document: weights, candidates and named compliance requirements.
#[derive(Clone, Debug)]
pub struct Rules {
    pub version: i32,
    pub weights: Weights,
    pub candidates: CandidateCategories,
    pub compliance_requirements: Vec<(String, ComplianceRequirement)>,
}

impl CandidateCategories {
    pub open spec fn spec_of(&self, c: Category) -> Seq<Candidate> {
        match c {
            Category::Language => self.language@,
            Category::Backend => self.backend@,
            Category::Frontend => self.frontend@,
            Category::Database => self.database@,
            Category::Cache => self.cache@,
            Category::Queue => self.queue@,
            Category::Ai => self.ai@,
            Category::Infra => self.infra@,
            Category::CiCd => self.ci_cd@,
        }
    }

    /// The candidates of a category, in catalog order.
    pub fn of(&self, c: Category) -> (r: &Vec<Candidate>)
        ensures
            r@ == self.spec_of(c),
    {
        match c {
            Category::Language => &self.language,
            Category::Backend => &self.backend,
            Category::Frontend => &self.frontend,
            Category::Database => &self.database,
            Category::Cache => &self.cache,
            Category::Queue => &self.queue,
            Category::Ai => &self.ai,
            Category::Infra => &self.infra,
            Category::CiCd => &self.ci_cd,
        }
    }
}

pub open spec fn metrics_bounded(m: Metrics) -> bool {
    &&& m.quality <= MAX_FACTOR
    &&& m.slo <= MAX_FACTOR
    &&& m.cost <= MAX_FACTOR
    &&& m.security <= MAX_FACTOR
    &&& m.ops <= MAX_FACTOR
}

pub open spec fn weights_bounded(w: Weights) -> bool {
    &&& w.quality <= MAX_FACTOR
    &&& w.slo <= MAX_FACTOR
    &&& w.cost <= MAX_FACTOR
    &&& w.security <= MAX_FACTOR
    &&& w.ops <= MAX_FACTOR
}

pub open spec fn candidate_bounded(c: Candidate) -> bool {
    metrics_bounded(c.metrics) && c.monthly_cost_base <= MAX_COST
}

impl Rules {
    /// Every number of the catalog lies within the fixed-point bounds.
    pub open spec fn within_bounds(&self) -> bool {
        &&& weights_bounded(self.weights)
        &&& forall|c: Category, i: int|
            0 <= i < self.candidates.spec_of(c).len() ==> candidate_bounded(
                #[trigger] self.candidates.spec_of(c)[i],
            )
    }

    /// No two compliance requirements share a name.
    pub open spec fn compliance_keys_unique(&self) -> bool {
        forall|i: int, j: int|
            0 <= i < j < self.compliance_requirements@.len() ==> (#[trigger] self.compliance_requirements@[i]).0@
                != (#[trigger] self.compliance_requirements@[j]).0@
    }

    /// A catalog the engine accepts: its numbers within bounds, its compliance
    /// requirement names unique.
    pub open spec fn wf(&self) -> bool {
        self.within_bounds() && self.compliance_keys_unique()
    }

    /// Whether no two compliance requirements share a name.
    pub fn compliance_names_unique(&self) -> (r: bool)
        ensures
            r == self.compliance_keys_unique(),
    {
        let reqs = &self.compliance_requirements;
        let mut i: usize = 0;
        while i < reqs.len()
            invariant
                i <= reqs@.len(),
                reqs@ == self.compliance_requirements@,
                forall|a: int, b: int| 0 <= a < b < i ==> (#[trigger] reqs@[a]).0@ != (#[trigger] reqs@[b]).0@,
            decreases reqs@.len() - i,
        {
            let mut j: usize = 0;
            while j < i
                invariant
                    j <= i < reqs@.len(),
                    reqs@ == self.compliance_requirements@,
                    forall|a: int| 0 <= a < j ==> (#[trigger] reqs@[a]).0@ != reqs@[i as int].0@,
                decreases i - j,
            {
                if reqs[j].0 == reqs[i].0 {
                    assert(self.compliance_requirements@[j as int].0@ == self.compliance_requirements@[i as int].0@);
                    assert(!self.compliance_keys_unique());
                    return false;
                }
                j += 1;
            }
            i += 1;
        }
        true
    }

    /// The base cost of the first candidate of `category` named `name`, or zero.
    pub fn base_cost(&self, category: Category, name: &String) -> (r: u64)
        ensures
            r == first_cost(self.candidates.spec_of(category), name@),
    {
        let list = self.candidates.of(category);
        let mut i: usize = 0;
        while i < list.len()
            invariant
                list@ == self.candidates.spec_of(category),
                i <= list@.len(),
                forall|k: int| 0 <= k < i ==> list@[k].name@ != name@,
            decreases list@.len() - i,
        {
            if list[i].name == *name {
                proof {
                    lemma_first_cost_at(list@, name@, i as int);
                }
                return list[i].monthly_cost_base;
            }
            i += 1;
        }
        proof {
            lemma_first_cost_at(list@, name@, i as int);
        }
        0
    }
}

/// The cost of the first candidate named `name`, zero where none is.
pub open spec fn first_cost(s: Seq<Candidate>, name: Seq<char>) -> u64
    decreases s.len(),
{
    if s.len() == 0 {
        0
    } else if s[0].name@ == name {
        s[0].monthly_cost_base
    } else {
        first_cost(s.drop_first(), name)
    }
}

proof fn lemma_first_cost_at(s: Seq<Candidate>, name: Seq<char>, i: int)
    requires
        0 <= i <= s.len(),
        forall|k: int| 0 <= k < i ==> s[k].name@ != name,
        i < s.len() ==> s[i].name@ == name,
    ensures
        first_cost(s, name) == (if i < s.len() { s[i].monthly_cost_base } else { 0 }),
    decreases i,
{
    if i > 0 {
        assert(s[0].name@ != name);
        lemma_first_cost_at(s.drop_first(), name, i - 1);
    }
}

} // verus!
