use runeforge::schema::{
    validate_blueprint, validate_stack_plan, Blueprint, ComplianceType, Constraints, Decision, Estimated,
    LanguageMode, Meta, PersistenceType, Preferences, Stack, StackPlan, TrafficProfile,
};
use runeforge::selector::SCORE_DENOM;
use runeforge::SCALE;

fn strings(v: &[&str]) -> Vec<String> {
    v.iter().map(|s| s.to_string()).collect()
}

fn simple_blueprint(name: &str, goals: &[&str], cap: Option<u64>, rps: u64) -> Blueprint {
    Blueprint {
        project_name: name.to_string(),
        goals: strings(goals),
        constraints: Constraints { monthly_cost_usd_max: cap, persistence: None, region_allow: None, compliance: None },
        traffic_profile: TrafficProfile { rps_peak: rps, global: true, latency_sensitive: false },
        prefs: None,
        single_language_mode: None,
    }
}

/// A score given in hundredths, as a numerator over `SCORE_DENOM`.
fn score(hundredths: u64) -> u64 {
    SCORE_DENOM / 100 * hundredths
}

fn sample_plan(score_value: u64) -> StackPlan {
    StackPlan {
        decisions: vec![Decision {
            topic: "language".to_string(),
            choice: "Rust".to_string(),
            reasons: vec!["High performance".to_string()],
            alternatives: vec!["Go".to_string()],
            score: score_value,
        }],
        stack: Stack {
            language: "Rust".to_string(),
            services: None,
            frontend: "SvelteKit".to_string(),
            backend: "Actix Web".to_string(),
            database: "PostgreSQL".to_string(),
            cache: "Redis".to_string(),
            queue: "NATS".to_string(),
            ai: vec!["RuneSage".to_string()],
            infra: "Terraform".to_string(),
            ci_cd: "GitHub Actions".to_string(),
        },
        estimated: Estimated { monthly_cost_usd: 500 * SCALE, egress_gb: None, notes: None },
        meta: Meta {
            seed: 42,
            blueprint_hash: "sha256:abc123".to_string(),
            plan_hash: "sha256:def456".to_string(),
        },
    }
}

#[test]
fn test_valid_blueprint() {
    let result = validate_blueprint(simple_blueprint("test-project", &["Build a web app"], Some(500 * SCALE), 1000 * SCALE));
    assert!(result.is_ok());
}

#[test]
fn test_blueprint_with_all_fields() {
    let bp = Blueprint {
        project_name: "full-project".to_string(),
        goals: strings(&["Build a scalable API", "Support real-time features"]),
        constraints: Constraints {
            monthly_cost_usd_max: Some(1000 * SCALE),
            persistence: Some(PersistenceType::Sql),
            region_allow: Some(strings(&["us-east-1", "eu-west-1"])),
            compliance: Some(vec![ComplianceType::AuditLog, ComplianceType::Sbom, ComplianceType::Hipaa]),
        },
        traffic_profile: TrafficProfile { rps_peak: 5000 * SCALE, global: true, latency_sensitive: true },
        prefs: Some(Preferences {
            frontend: Some(strings(&["SvelteKit", "Next.js"])),
            backend: Some(strings(&["Actix Web", "Axum"])),
            database: Some(strings(&["PostgreSQL"])),
            ai: Some(strings(&["RuneSage"])),
        }),
        single_language_mode: Some(LanguageMode::Rust),
    };

    let result = validate_blueprint(bp);
    assert!(result.is_ok());
    let blueprint = result.unwrap();
    assert_eq!(blueprint.project_name, "full-project");
    assert_eq!(blueprint.goals.len(), 2);
    assert_eq!(blueprint.constraints.monthly_cost_usd_max, Some(1000 * SCALE));
    assert!(matches!(blueprint.constraints.persistence, Some(PersistenceType::Sql)));
    assert!(matches!(blueprint.single_language_mode, Some(LanguageMode::Rust)));
}

#[test]
fn test_invalid_blueprint_empty_project_name() {
    let result = validate_blueprint(simple_blueprint("", &["Build a web app"], None, 1000 * SCALE));
    assert!(result.is_err());
    assert!(result.unwrap_err().contains("project_name cannot be empty"));
}

#[test]
fn test_invalid_blueprint_empty_goals() {
    let result = validate_blueprint(simple_blueprint("test-project", &[], None, 1000 * SCALE));
    assert!(result.is_err());
    assert!(result.unwrap_err().contains("goals cannot be empty"));
}

#[test]
fn test_zero_cost_and_rps() {
    let result = validate_blueprint(simple_blueprint("test-project", &["Build a web app"], Some(0), 0));
    assert!(result.is_ok());
    let bp = result.unwrap();
    assert_eq!(bp.constraints.monthly_cost_usd_max, Some(0));
    assert_eq!(bp.traffic_profile.rps_peak, 0);
}

#[test]
fn test_valid_stack_plan() {
    let plan = sample_plan(score(90));
    let result = validate_stack_plan(&plan);
    assert!(result.is_ok());
}

#[test]
fn test_invalid_stack_plan_invalid_score() {
    let plan = sample_plan(score(150));
    let result = validate_stack_plan(&plan);
    assert!(result.is_err());
    assert!(result.unwrap_err().contains("Score for language must be between 0 and 1"));
}

#[test]
fn score_at_the_bounds_is_valid() {
    assert!(validate_stack_plan(&sample_plan(0)).is_ok());
    assert!(validate_stack_plan(&sample_plan(SCORE_DENOM)).is_ok());
    assert!(validate_stack_plan(&sample_plan(SCORE_DENOM + 1)).is_err());
}
