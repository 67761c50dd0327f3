use runeforge::observability::{init_observability, log_blueprint_validation, log_error, log_selection_start};
use runeforge::ports::{EnvError, IoError};
use runeforge::rules::{Candidate, CandidateCategories, Category, ComplianceRequirement, Metrics, Requirements, Rules, Weights, MAX_FACTOR};
use runeforge::schema::{
    validate_blueprint, validate_stack_plan, Blueprint, ComplianceType, Constraints, Decision, LanguageMode,
    PersistenceType, Preferences, TrafficProfile,
};
use runeforge::selector::{calculate_score, check_constraints, SelectionError, Selector, SCORE_DENOM};
use runeforge::SCALE;

fn m(q: u64, s: u64, c: u64, sec: u64, o: u64) -> Metrics {
    Metrics { quality: q, slo: s, cost: c, security: sec, ops: o }
}

/// A metric or weight given in hundredths.
fn pct(x: u64) -> u64 {
    x * SCALE / 100
}

fn cand(name: &str, metrics: Metrics, cost_usd: u64) -> Candidate {
    Candidate {
        name: name.to_string(),
        requires: None,
        persistence: None,
        metrics,
        regions: vec!["*".to_string()],
        monthly_cost_base: cost_usd * SCALE,
        notes: vec![],
    }
}

fn flat(name: &str, cost_usd: u64) -> Candidate {
    cand(name, m(pct(50), pct(50), pct(50), pct(50), pct(50)), cost_usd)
}

fn weights() -> Weights {
    Weights { quality: pct(30), slo: pct(25), cost: pct(20), security: pct(15), ops: pct(10) }
}

/// One language, one Rust backend, and one candidate in each other category.
fn small_catalog(other_cost: u64) -> Rules {
    let mut actix = flat("Actix", 100);
    actix.requires = Some(Requirements { language: Some("Rust".to_string()) });
    Rules {
        version: 1,
        weights: weights(),
        candidates: CandidateCategories {
            language: vec![flat("Rust", 0)],
            backend: vec![actix],
            frontend: vec![flat("SvelteKit", other_cost)],
            database: vec![flat("PostgreSQL", other_cost)],
            cache: vec![flat("Redis", other_cost)],
            queue: vec![flat("NATS", other_cost)],
            ai: vec![flat("RuneSage", other_cost)],
            infra: vec![flat("Terraform", other_cost)],
            ci_cd: vec![flat("GitHub Actions", other_cost)],
        },
        compliance_requirements: vec![],
    }
}

fn blueprint(cap_usd: Option<u64>) -> Blueprint {
    Blueprint {
        project_name: "demo".to_string(),
        goals: vec!["ship".to_string()],
        constraints: Constraints {
            monthly_cost_usd_max: cap_usd.map(|c| c * SCALE),
            persistence: None,
            region_allow: None,
            compliance: None,
        },
        traffic_profile: TrafficProfile { rps_peak: 100 * SCALE, global: false, latency_sensitive: false },
        prefs: None,
        single_language_mode: None,
    }
}

#[test]
fn scenario_rust_backend_within_budget() {
    let selector = Selector::new(small_catalog(0), 42).unwrap();
    let plan = selector.select(&blueprint(Some(1000))).unwrap();
    assert_eq!(plan.stack.language, "Rust");
    assert_eq!(plan.stack.backend, "Actix");
    assert_eq!(plan.estimated.monthly_cost_usd, 100 * SCALE);
    let backend = plan.decisions.iter().find(|d| d.topic == "backend").unwrap();
    assert_eq!(backend.reasons[0], "Compatible with Rust language");
}

#[test]
fn scenario_budget_too_small() {
    // Every candidate fits the cap on its own, but together they cost 5 + 7 * 5.
    let mut rules = small_catalog(5);
    rules.candidates.backend[0].monthly_cost_base = 5 * SCALE;
    let selector = Selector::new(rules, 42).unwrap();
    let err = selector.select(&blueprint(Some(10))).unwrap_err();
    assert_eq!(err, SelectionError::BudgetExceeded { cap: 10 * SCALE, total: 40 * SCALE });
    assert_eq!(err.message(), "No stack found within cost constraint of $10 (total $40)");

    // Where single candidates exceed the cap, the filter leaves a category empty.
    let selector = Selector::new(small_catalog(50), 42).unwrap();
    let err = selector.select(&blueprint(Some(10))).unwrap_err();
    assert_eq!(err, SelectionError::NoCandidate(Category::Backend));
}

fn tied_backends(seed: u64) -> String {
    let mut rules = small_catalog(0);
    let mut list = vec![];
    for name in ["B1", "B2", "B3"] {
        let mut c = flat(name, 10);
        c.requires = Some(Requirements { language: Some("Rust".to_string()) });
        list.push(c);
    }
    rules.candidates.backend = list;
    let selector = Selector::new(rules, seed).unwrap();
    selector.select(&blueprint(None)).unwrap().stack.backend
}

#[test]
fn scenario_ties_resolved_by_seed() {
    let first = tied_backends(42);
    for _ in 0..5 {
        assert_eq!(tied_backends(42), first);
    }
    let other = tied_backends(99);
    assert!(["B1", "B2", "B3"].contains(&other.as_str()));
    assert!(["B1", "B2", "B3"].contains(&first.as_str()));
}

#[test]
fn scenario_exact_persistence_tag() {
    let mut rules = small_catalog(0);
    let mut dbs = vec![];
    for (name, tag) in [("Pg", "sql"), ("Kv", "kv"), ("Dynamo", "both")] {
        let mut c = flat(name, 0);
        c.persistence = Some(tag.to_string());
        dbs.push(c);
    }
    rules.candidates.database = dbs;
    let mut bp = blueprint(None);
    bp.constraints.persistence = Some(PersistenceType::Kv);
    let plan = Selector::new(rules.clone(), 42).unwrap().select(&bp).unwrap();
    assert_eq!(plan.stack.database, "Kv");
    let db = plan.decisions.iter().find(|d| d.topic == "database").unwrap();
    assert!(db.alternatives.is_empty());

    rules.candidates.database.remove(1);
    let err = Selector::new(rules, 42).unwrap().select(&bp).unwrap_err();
    assert_eq!(err, SelectionError::NoCandidate(Category::Database));
    assert_eq!(err.message(), "No suitable database candidates found");
}

#[test]
fn same_inputs_same_fingerprints() {
    let a = Selector::new(small_catalog(1), 7).unwrap().select(&blueprint(None)).unwrap();
    let b = Selector::new(small_catalog(1), 7).unwrap().select(&blueprint(None)).unwrap();
    assert_eq!(a.meta.plan_hash, b.meta.plan_hash);
    assert_eq!(a.meta.blueprint_hash, b.meta.blueprint_hash);
    assert_eq!(a.meta.plan_hash.len(), 7 + 64);
    let c = Selector::new(small_catalog(2), 7).unwrap().select(&blueprint(None)).unwrap();
    assert_ne!(a.meta.plan_hash, c.meta.plan_hash);
}

#[test]
fn seed_changes_only_what_is_tied() {
    let a = Selector::new(small_catalog(1), 1).unwrap().select(&blueprint(None)).unwrap();
    let b = Selector::new(small_catalog(1), 2).unwrap().select(&blueprint(None)).unwrap();
    assert_eq!(a.meta.blueprint_hash, b.meta.blueprint_hash);
    assert_eq!(a.stack.backend, b.stack.backend);
    assert_eq!(a.stack.language, b.stack.language);
    assert_ne!(a.meta.plan_hash, b.meta.plan_hash);
    assert_eq!(a.meta.seed, 1);
}

#[test]
fn plan_cost_within_cap_and_sum_of_choices() {
    let plan = Selector::new(small_catalog(3), 42).unwrap().select(&blueprint(Some(121))).unwrap();
    // language 0, backend 100, six others at 3, AI has one pick at 3.
    assert_eq!(plan.estimated.monthly_cost_usd, 121 * SCALE);
    let err = Selector::new(small_catalog(3), 42).unwrap().select(&blueprint(Some(120))).unwrap_err();
    assert_eq!(err, SelectionError::BudgetExceeded { cap: 120 * SCALE, total: 121 * SCALE });
}

#[test]
fn scores_in_unit_range_and_sorted() {
    let mut rules = small_catalog(0);
    rules.candidates.frontend[0].metrics = m(SCALE, SCALE, SCALE, SCALE, SCALE);
    rules.candidates.cache[0].metrics = m(0, 0, 0, 0, 0);
    let mut bp = blueprint(None);
    bp.traffic_profile.global = true;
    bp.traffic_profile.latency_sensitive = true;
    let plan = Selector::new(rules, 42).unwrap().select(&bp).unwrap();
    assert_eq!(plan.decisions.len(), 9);
    for d in &plan.decisions {
        assert!(d.score <= SCORE_DENOM);
    }
    for i in 1..plan.decisions.len() {
        assert!(plan.decisions[i - 1].score >= plan.decisions[i].score);
    }
    assert_eq!(plan.decisions[0].topic, "frontend");
    assert_eq!(plan.decisions[0].score, SCORE_DENOM);
    assert_eq!(plan.decisions[8].topic, "cache");
    assert_eq!(plan.decisions[8].score, 0);
}

#[test]
fn region_filter_excludes_foreign_candidates() {
    let mut rules = small_catalog(0);
    let mut eu = flat("EuOnly", 0);
    eu.metrics = m(SCALE, SCALE, SCALE, SCALE, SCALE);
    eu.regions = vec!["eu-west-1".to_string()];
    let mut us = flat("UsEast", 0);
    us.regions = vec!["us-east-1".to_string()];
    let mut glob = flat("Global", 0);
    glob.regions = vec!["global".to_string()];
    rules.candidates.frontend = vec![eu, us, glob];
    let mut bp = blueprint(None);
    bp.constraints.region_allow = Some(vec!["us-east-1".to_string()]);
    let plan = Selector::new(rules.clone(), 42).unwrap().select(&bp).unwrap();
    assert_ne!(plan.stack.frontend, "EuOnly");
    let fe = plan.decisions.iter().find(|d| d.topic == "frontend").unwrap();
    assert!(!fe.alternatives.contains(&"EuOnly".to_string()));
    // Without the allow-list the best one wins.
    let plan = Selector::new(rules, 42).unwrap().select(&blueprint(None)).unwrap();
    assert_eq!(plan.stack.frontend, "EuOnly");
}

#[test]
fn score_formula_exact() {
    let t = TrafficProfile { rps_peak: 0, global: true, latency_sensitive: false };
    let rust = m(pct(90), pct(95), pct(80), pct(95), pct(85));
    assert_eq!(calculate_score(&weights(), &rust, &t), 937_500_000_000);
    let t2 = TrafficProfile { rps_peak: 0, global: false, latency_sensitive: true };
    assert_eq!(calculate_score(&weights(), &rust, &t2), 990_000_000_000);
    let t3 = TrafficProfile { rps_peak: 0, global: false, latency_sensitive: false };
    assert_eq!(calculate_score(&weights(), &rust, &t3), 895_000_000_000);
}

#[test]
fn constraint_filter_rules() {
    let mut bp = blueprint(Some(50));
    bp.constraints.region_allow = Some(vec!["us-east-1".to_string()]);
    let mut c = flat("X", 50);
    c.regions = vec!["us-east-1".to_string()];
    assert!(check_constraints(&c, &bp, None));
    c.monthly_cost_base = 50 * SCALE + 1;
    assert!(!check_constraints(&c, &bp, None));
    c.monthly_cost_base = 0;
    c.regions = vec!["eu-west-1".to_string()];
    assert!(!check_constraints(&c, &bp, None));
    c.regions = vec!["eu-west-1".to_string(), "*".to_string()];
    assert!(check_constraints(&c, &bp, None));
    c.requires = Some(Requirements { language: Some("Go".to_string()) });
    let rust = "Rust".to_string();
    let go = "Go".to_string();
    assert!(!check_constraints(&c, &bp, Some(&rust)));
    assert!(check_constraints(&c, &bp, Some(&go)));
    assert!(check_constraints(&c, &bp, None));
}

#[test]
fn preferences_narrow_but_never_fail() {
    let mut rules = small_catalog(0);
    let mut best = flat("Best", 0);
    best.metrics = m(SCALE, SCALE, SCALE, SCALE, SCALE);
    rules.candidates.frontend = vec![best, flat("Liked", 0)];
    let mut bp = blueprint(None);
    bp.prefs = Some(Preferences {
        frontend: Some(vec!["Liked".to_string()]),
        backend: None,
        database: Some(vec!["Unknown".to_string()]),
        ai: None,
    });
    let plan = Selector::new(rules, 42).unwrap().select(&bp).unwrap();
    assert_eq!(plan.stack.frontend, "Liked");
    assert_eq!(plan.stack.database, "PostgreSQL");
}

#[test]
fn language_mode_restricts_language() {
    let mut rules = small_catalog(0);
    rules.candidates.language.push(flat("Go", 0));
    let mut bp = blueprint(None);
    bp.single_language_mode = Some(LanguageMode::Go);
    let err = Selector::new(rules, 42).unwrap().select(&bp).unwrap_err();
    assert_eq!(err, SelectionError::NoCandidate(Category::Backend));
}

#[test]
fn reasons_and_alternatives() {
    let mut rules = small_catalog(0);
    let mut strong = flat("Strong", 0);
    strong.metrics = m(SCALE, SCALE, SCALE, SCALE, SCALE);
    strong.notes = vec!["Battle tested".to_string(), "second".to_string()];
    rules.candidates.cache = vec![flat("C1", 0), strong, flat("C2", 0), flat("C3", 0), flat("C4", 0)];
    let mut bp = blueprint(None);
    bp.traffic_profile.latency_sensitive = true;
    bp.constraints.compliance = Some(vec![ComplianceType::Hipaa, ComplianceType::Sox]);
    let plan = Selector::new(rules, 5).unwrap().select(&bp).unwrap();
    let cache = plan.decisions.iter().find(|d| d.topic == "cache").unwrap();
    assert_eq!(cache.choice, "Strong");
    assert_eq!(
        cache.reasons,
        vec![
            "High overall score across all metrics",
            "Excellent performance for latency-sensitive workload",
            "Strong security features for compliance requirements",
            "HIPAA-compliant infrastructure support",
            "SOX compliance with audit trail capabilities",
            "Battle tested",
        ]
    );
    assert_eq!(cache.alternatives.len(), 3);
    assert!(!cache.alternatives.contains(&"Strong".to_string()));
    let queue = plan.decisions.iter().find(|d| d.topic == "queue").unwrap();
    assert_eq!(queue.reasons, vec!["HIPAA-compliant infrastructure support", "SOX compliance with audit trail capabilities"]);
    let plan = Selector::new(small_catalog(0), 5).unwrap().select(&blueprint(None)).unwrap();
    let queue = plan.decisions.iter().find(|d| d.topic == "queue").unwrap();
    assert_eq!(queue.reasons, vec!["Selected based on optimal queue score"]);
}

#[test]
fn ai_takes_two_best_and_sums_their_cost() {
    let mut rules = small_catalog(0);
    let mut a = flat("A", 10);
    a.metrics = m(pct(90), pct(90), pct(90), pct(90), pct(90));
    let mut b = flat("B", 20);
    b.metrics = m(pct(80), pct(80), pct(80), pct(80), pct(80));
    rules.candidates.ai = vec![flat("C", 1000), b, a, flat("D", 0), flat("E", 0)];
    let plan = Selector::new(rules, 42).unwrap().select(&blueprint(None)).unwrap();
    assert_eq!(plan.stack.ai, vec!["A".to_string(), "B".to_string()]);
    let ai = plan.decisions.iter().find(|d| d.topic == "ai").unwrap();
    assert_eq!(ai.choice, "A, B");
    assert_eq!(ai.alternatives, vec!["C".to_string(), "D".to_string()]);
    assert_eq!(plan.estimated.monthly_cost_usd, (100 + 30) * SCALE);
}

#[test]
fn out_of_range_catalog_is_refused() {
    let mut rules = small_catalog(0);
    rules.candidates.queue[0].metrics.ops = MAX_FACTOR + 1;
    assert!(Selector::new(rules, 1).is_err());
    let mut rules = small_catalog(0);
    rules.weights.slo = MAX_FACTOR + 1;
    assert!(Selector::new(rules, 1).is_err());
    let s = Selector::new(small_catalog(0), 3).unwrap();
    assert_eq!(s.seed(), 3);
    assert_eq!(s.rules().base_cost(Category::Backend, &"Actix".to_string()), 100 * SCALE);
    assert_eq!(s.rules().base_cost(Category::Backend, &"Nope".to_string()), 0);
}

#[test]
fn canonical_text_of_a_blueprint() {
    let bp = Blueprint {
        project_name: "p".to_string(),
        goals: vec!["g".to_string()],
        constraints: Constraints { monthly_cost_usd_max: None, persistence: None, region_allow: None, compliance: None },
        traffic_profile: TrafficProfile { rps_peak: 0, global: false, latency_sensitive: false },
        prefs: None,
        single_language_mode: None,
    };
    assert_eq!(bp.canonical_text(), "blueprint1:p[1:g]----0;FF--");
    let mut restricted = bp.clone();
    restricted.constraints.monthly_cost_usd_max = Some(12);
    restricted.constraints.persistence = Some(PersistenceType::Sql);
    restricted.single_language_mode = Some(LanguageMode::Ts);
    assert_eq!(restricted.canonical_text(), "blueprint1:p[1:g]+12;+3:sql--0;FF-+10:TypeScript");
}

#[test]
fn blueprint_and_plan_validation() {
    let mut bp = blueprint(None);
    assert!(validate_blueprint(bp.clone()).is_ok());
    bp.goals.clear();
    assert_eq!(validate_blueprint(bp.clone()).unwrap_err(), "goals cannot be empty");
    bp.project_name.clear();
    assert_eq!(validate_blueprint(bp).unwrap_err(), "project_name cannot be empty");

    let mut plan = Selector::new(small_catalog(0), 42).unwrap().select(&blueprint(None)).unwrap();
    assert!(validate_stack_plan(&plan).is_ok());
    plan.decisions.push(Decision {
        topic: "language".to_string(),
        choice: "Rust".to_string(),
        reasons: vec!["High performance".to_string()],
        alternatives: vec![],
        score: SCORE_DENOM + 1,
    });
    assert_eq!(validate_stack_plan(&plan).unwrap_err(), "Score for language must be between 0 and 1");
}

#[test]
fn error_messages() {
    assert_eq!(
        SelectionError::BudgetExceeded { cap: 1_500_000, total: 2_000_001 }.message(),
        "No stack found within cost constraint of $1.500000 (total $2.000001)"
    );
    assert_eq!(SelectionError::NoCandidate(Category::CiCd).message(), "No suitable ci_cd candidates found");
    assert_eq!(SelectionError::NoCandidate(Category::Ai).message(), "No suitable AI candidates found");
    assert_eq!(EnvError::NotFound("HOME".to_string()).message(), "Environment variable not found: HOME");
    assert_eq!(
        EnvError::InvalidValue("N".to_string(), "x".to_string()).message(),
        "Invalid value for environment variable N: x"
    );
    assert_eq!(IoError::NotFound("a".to_string()).message(), "File not found: a");
    assert_eq!(IoError::PermissionDenied("b".to_string()).message(), "Permission denied: b");
    assert_eq!(IoError::OperationFailed("c".to_string()).message(), "IO operation failed: c");
}

#[test]
fn observation_hooks() {
    assert!(init_observability().is_ok());
    log_blueprint_validation(10, "yaml");
    log_selection_start("demo", 42);
    log_error("selection", "none");
}

#[test]
fn no_ai_candidate_is_reported_as_ai() {
    let mut rules = small_catalog(0);
    rules.candidates.ai[0].regions = vec!["eu-west-1".to_string()];
    let mut bp = blueprint(None);
    bp.constraints.region_allow = Some(vec!["us-east-1".to_string()]);
    let err = Selector::new(rules, 42).unwrap().select(&bp).unwrap_err();
    assert_eq!(err, SelectionError::NoCandidate(Category::Ai));
    assert_eq!(err.message(), "No suitable AI candidates found");
}

#[test]
fn plan_validation_reports_first_bad_score() {
    let mut plan = Selector::new(small_catalog(0), 42).unwrap().select(&blueprint(None)).unwrap();
    plan.decisions[2].score = SCORE_DENOM + 1;
    plan.decisions[5].score = SCORE_DENOM + 2;
    let first = plan.decisions[2].topic.clone();
    assert_eq!(validate_stack_plan(&plan).unwrap_err(), format!("Score for {first} must be between 0 and 1"));
}

#[test]
fn duplicate_compliance_names_are_refused() {
    let req = |n: &str| (n.to_string(), ComplianceRequirement { required_features: vec!["audit_log".to_string()] });
    let mut rules = small_catalog(0);
    rules.compliance_requirements = vec![req("hipaa"), req("sox")];
    assert!(rules.compliance_names_unique());
    assert!(Selector::new(rules.clone(), 1).is_ok());
    rules.compliance_requirements.push(req("hipaa"));
    assert!(!rules.compliance_names_unique());
    assert_eq!(
        Selector::new(rules, 1).err().unwrap(),
        "Failed to load rules: two compliance requirements share a name"
    );
}
