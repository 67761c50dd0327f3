//! The canonical text of blueprints and plans, from which fingerprints are taken.
//!
//! Every string is written as its length in characters, a colon, then the
//! string itself; numbers end with a semicolon; absent optional parts are `-`
//! and present ones start with `+`. Fields come in a fixed order, so equal
//! values give the same text. A blueprint's text covers every field, so
//! different blueprints give different texts. A plan's text covers its
//! decisions, its stack choices, its cost, its seed and its blueprint
//! fingerprint; it leaves out the optional services, egress and notes, which
//! the engine never fills in.
use vstd::prelude::*;
use crate::schema::{
    language_mode_name, persistence_tag, texts, Blueprint, ComplianceType, Decision, DecisionView,
    PlanView, Stack, StackPlan, StackView,
};
use crate::text::{dec_text, push_decimal};

verus! {

pub open spec fn str_text(s: Seq<char>) -> Seq<char> {
    dec_text(s.len()) + ":"@ + s
}

pub open spec fn strs_text(v: Seq<Seq<char>>) -> Seq<char>
    decreases v.len(),
{
    if v.len() == 0 {
        Seq::empty()
    } else {
        strs_text(v.drop_last()) + str_text(v.last())
    }
}

pub open spec fn list_text(v: Seq<Seq<char>>) -> Seq<char> {
    "["@ + strs_text(v) + "]"@
}

pub open spec fn num_text(n: nat) -> Seq<char> {
    dec_text(n) + ";"@
}

pub open spec fn flag_text(b: bool) -> Seq<char> {
    if b {
        "T"@
    } else {
        "F"@
    }
}

pub open spec fn opt_list_text(o: Option<Vec<String>>) -> Seq<char> {
    match o {
        None => "-"@,
        Some(v) => "+"@ + list_text(texts(v@)),
    }
}

pub open spec fn compliance_name(c: ComplianceType) -> Seq<char> {
    match c {
        ComplianceType::AuditLog => "audit-log"@,
        ComplianceType::Sbom => "sbom"@,
        ComplianceType::Pci => "pci"@,
        ComplianceType::Sox => "sox"@,
        ComplianceType::Hipaa => "hipaa"@,
    }
}

pub open spec fn compliance_names(v: Seq<ComplianceType>) -> Seq<Seq<char>> {
    v.map_values(|c: ComplianceType| compliance_name(c))
}

pub open spec fn cap_text(bp: Blueprint) -> Seq<char> {
    match bp.constraints.monthly_cost_usd_max {
        None => "-"@,
        Some(cap) => "+"@ + num_text(cap as nat),
    }
}

pub open spec fn persistence_text(bp: Blueprint) -> Seq<char> {
    match bp.constraints.persistence {
        None => "-"@,
        Some(p) => "+"@ + str_text(persistence_tag(p)),
    }
}

pub open spec fn compliance_text(bp: Blueprint) -> Seq<char> {
    match bp.constraints.compliance {
        None => "-"@,
        Some(v) => "+"@ + list_text(compliance_names(v@)),
    }
}

pub open spec fn constraints_text(bp: Blueprint) -> Seq<char> {
    cap_text(bp) + persistence_text(bp) + opt_list_text(bp.constraints.region_allow)
        + compliance_text(bp)
}

pub open spec fn traffic_text(bp: Blueprint) -> Seq<char> {
    num_text(bp.traffic_profile.rps_peak as nat) + flag_text(bp.traffic_profile.global) + flag_text(
        bp.traffic_profile.latency_sensitive,
    )
}

pub open spec fn prefs_text(bp: Blueprint) -> Seq<char> {
    match bp.prefs {
        None => "-"@,
        Some(p) => "+"@ + opt_list_text(p.frontend) + opt_list_text(p.backend) + opt_list_text(
            p.database,
        ) + opt_list_text(p.ai),
    }
}

pub open spec fn mode_text(bp: Blueprint) -> Seq<char> {
    match bp.single_language_mode {
        None => "-"@,
        Some(m) => "+"@ + str_text(language_mode_name(m)),
    }
}

pub open spec fn profile_text(bp: Blueprint) -> Seq<char> {
    traffic_text(bp) + prefs_text(bp) + mode_text(bp)
}

/// The canonical text of a blueprint.
pub open spec fn blueprint_text(bp: Blueprint) -> Seq<char> {
    "blueprint"@ + str_text(bp.project_name@) + list_text(texts(bp.goals@)) + constraints_text(bp)
        + profile_text(bp)
}

pub open spec fn decision_text(d: DecisionView) -> Seq<char> {
    "{"@ + str_text(d.topic) + str_text(d.choice) + list_text(d.reasons) + list_text(d.alternatives)
        + num_text(d.score as nat) + "}"@
}

pub open spec fn decisions_text(ds: Seq<DecisionView>) -> Seq<char>
    decreases ds.len(),
{
    if ds.len() == 0 {
        Seq::empty()
    } else {
        decisions_text(ds.drop_last()) + decision_text(ds.last())
    }
}

pub open spec fn stack_text(s: StackView) -> Seq<char> {
    "{"@ + str_text(s.language) + str_text(s.frontend) + str_text(s.backend) + str_text(s.database)
        + str_text(s.cache) + str_text(s.queue) + list_text(s.ai) + str_text(s.infra) + str_text(
        s.ci_cd,
    ) + "}"@
}

/// The canonical text of a plan, with its own fingerprint left blank.
pub open spec fn plan_text(p: PlanView) -> Seq<char> {
    "plan"@ + "["@ + decisions_text(p.decisions) + "]"@ + stack_text(p.stack) + num_text(
        p.monthly_cost as nat,
    ) + num_text(p.seed as nat) + str_text(p.blueprint_hash) + str_text(Seq::empty())
}

fn put_str(out: &mut String, s: &str)
    ensures
        final(out)@ == old(out)@ + str_text(s@),
{
    let n = s.unicode_len();
    push_decimal(out, n as u64);
    out.append(":");
    out.append(s);
    assert(final(out)@ =~= old(out)@ + str_text(s@));
}

fn put_num(out: &mut String, n: u64)
    ensures
        final(out)@ == old(out)@ + num_text(n as nat),
{
    push_decimal(out, n);
    out.append(";");
    assert(final(out)@ =~= old(out)@ + num_text(n as nat));
}

fn put_flag(out: &mut String, b: bool)
    ensures
        final(out)@ == old(out)@ + flag_text(b),
{
    if b {
        out.append("T");
    } else {
        out.append("F");
    }
}

fn put_list(out: &mut String, v: &Vec<String>)
    ensures
        final(out)@ == old(out)@ + list_text(texts(v@)),
{
    out.append("[");
    let ghost start = out@;
    let mut i: usize = 0;
    while i < v.len()
        invariant
            i <= v@.len(),
            out@ == start + strs_text(texts(v@.take(i as int))),
        decreases v@.len() - i,
    {
        put_str(out, v[i].as_str());
        i += 1;
        assert(texts(v@.take(i as int)).drop_last() =~= texts(v@.take(i - 1)));
        assert(out@ =~= start + strs_text(texts(v@.take(i as int))));
    }
    assert(v@.take(i as int) =~= v@);
    out.append("]");
    assert(final(out)@ =~= old(out)@ + list_text(texts(v@)));
}

fn put_opt_list(out: &mut String, o: &Option<Vec<String>>)
    ensures
        final(out)@ == old(out)@ + opt_list_text(*o),
{
    match o {
        None => out.append("-"),
        Some(v) => {
            out.append("+");
            put_list(out, v);
            assert(final(out)@ =~= old(out)@ + opt_list_text(*o));
        },
    }
}

fn compliance_str(c: ComplianceType) -> (r: &'static str)
    ensures
        r@ == compliance_name(c),
{
    match c {
        ComplianceType::AuditLog => "audit-log",
        ComplianceType::Sbom => "sbom",
        ComplianceType::Pci => "pci",
        ComplianceType::Sox => "sox",
        ComplianceType::Hipaa => "hipaa",
    }
}

fn put_compliance(out: &mut String, v: &Vec<ComplianceType>)
    ensures
        final(out)@ == old(out)@ + list_text(compliance_names(v@)),
{
    out.append("[");
    let ghost start = out@;
    let mut i: usize = 0;
    while i < v.len()
        invariant
            i <= v@.len(),
            out@ == start + strs_text(compliance_names(v@.take(i as int))),
        decreases v@.len() - i,
    {
        put_str(out, compliance_str(v[i]));
        i += 1;
        assert(compliance_names(v@.take(i as int)).drop_last() =~= compliance_names(v@.take(i - 1)));
        assert(out@ =~= start + strs_text(compliance_names(v@.take(i as int))));
    }
    assert(v@.take(i as int) =~= v@);
    out.append("]");
    assert(final(out)@ =~= old(out)@ + list_text(compliance_names(v@)));
}

fn put_cap(out: &mut String, bp: &Blueprint)
    ensures
        final(out)@ == old(out)@ + cap_text(*bp),
{
    match bp.constraints.monthly_cost_usd_max {
        None => out.append("-"),
        Some(cap) => {
            out.append("+");
            put_num(out, cap);
        },
    }
    assert(final(out)@ =~= old(out)@ + cap_text(*bp));
}

fn put_persistence(out: &mut String, bp: &Blueprint)
    ensures
        final(out)@ == old(out)@ + persistence_text(*bp),
{
    match &bp.constraints.persistence {
        None => out.append("-"),
        Some(p) => {
            out.append("+");
            let tag = p.tag();
            put_str(out, tag.as_str());
        },
    }
    assert(final(out)@ =~= old(out)@ + persistence_text(*bp));
}

fn put_compliance_opt(out: &mut String, bp: &Blueprint)
    ensures
        final(out)@ == old(out)@ + compliance_text(*bp),
{
    match &bp.constraints.compliance {
        None => out.append("-"),
        Some(v) => {
            out.append("+");
            put_compliance(out, v);
        },
    }
    assert(final(out)@ =~= old(out)@ + compliance_text(*bp));
}

fn put_constraints(out: &mut String, bp: &Blueprint)
    ensures
        final(out)@ == old(out)@ + constraints_text(*bp),
{
    put_cap(out, bp);
    put_persistence(out, bp);
    put_opt_list(out, &bp.constraints.region_allow);
    put_compliance_opt(out, bp);
    assert(final(out)@ =~= old(out)@ + constraints_text(*bp));
}

fn put_traffic(out: &mut String, bp: &Blueprint)
    ensures
        final(out)@ == old(out)@ + traffic_text(*bp),
{
    put_num(out, bp.traffic_profile.rps_peak);
    put_flag(out, bp.traffic_profile.global);
    put_flag(out, bp.traffic_profile.latency_sensitive);
    assert(final(out)@ =~= old(out)@ + traffic_text(*bp));
}

fn put_prefs(out: &mut String, bp: &Blueprint)
    ensures
        final(out)@ == old(out)@ + prefs_text(*bp),
{
    match &bp.prefs {
        None => out.append("-"),
        Some(p) => {
            out.append("+");
            put_opt_list(out, &p.frontend);
            put_opt_list(out, &p.backend);
            put_opt_list(out, &p.database);
            put_opt_list(out, &p.ai);
        },
    }
    assert(final(out)@ =~= old(out)@ + prefs_text(*bp));
}

fn put_mode(out: &mut String, bp: &Blueprint)
    ensures
        final(out)@ == old(out)@ + mode_text(*bp),
{
    match &bp.single_language_mode {
        None => out.append("-"),
        Some(m) => {
            out.append("+");
            let name = m.language_name();
            put_str(out, name.as_str());
        },
    }
    assert(final(out)@ =~= old(out)@ + mode_text(*bp));
}

fn put_profile(out: &mut String, bp: &Blueprint)
    ensures
        final(out)@ == old(out)@ + profile_text(*bp),
{
    put_traffic(out, bp);
    put_prefs(out, bp);
    put_mode(out, bp);
    assert(final(out)@ =~= old(out)@ + profile_text(*bp));
}

impl Blueprint {
    /// The blueprint's canonical text.
    pub fn canonical_text(&self) -> (r: String)
        ensures
            r@ == blueprint_text(*self),
    {
        let mut out = String::from_str("blueprint");
        put_str(&mut out, self.project_name.as_str());
        put_list(&mut out, &self.goals);
        put_constraints(&mut out, self);
        put_profile(&mut out, self);
        assert(out@ =~= blueprint_text(*self));
        out
    }
}

fn put_decision(out: &mut String, d: &Decision)
    ensures
        final(out)@ == old(out)@ + decision_text(d@),
{
    out.append("{");
    put_str(out, d.topic.as_str());
    put_str(out, d.choice.as_str());
    put_list(out, &d.reasons);
    put_list(out, &d.alternatives);
    put_num(out, d.score);
    out.append("}");
    assert(final(out)@ =~= old(out)@ + decision_text(d@));
}

fn put_stack(out: &mut String, s: &Stack)
    ensures
        final(out)@ == old(out)@ + stack_text(s@),
{
    out.append("{");
    put_str(out, s.language.as_str());
    put_str(out, s.frontend.as_str());
    put_str(out, s.backend.as_str());
    put_str(out, s.database.as_str());
    put_str(out, s.cache.as_str());
    put_str(out, s.queue.as_str());
    put_list(out, &s.ai);
    put_str(out, s.infra.as_str());
    put_str(out, s.ci_cd.as_str());
    out.append("}");
    assert(final(out)@ =~= old(out)@ + stack_text(s@));
}

impl StackPlan {
    /// The plan's canonical text; the plan's own fingerprint is written blank, and
    /// the optional services, egress and notes are not part of it.
    pub fn canonical_text(&self) -> (r: String)
        ensures
            r@ == plan_text(self@),
    {
        let mut out = String::from_str("plan");
        out.append("[");
        let ghost start = out@;
        let ghost ds = self.decisions@.map_values(|d: Decision| d@);
        let mut i: usize = 0;
        while i < self.decisions.len()
            invariant
                i <= self.decisions@.len(),
                ds == self.decisions@.map_values(|d: Decision| d@),
                out@ == start + decisions_text(ds.take(i as int)),
            decreases self.decisions@.len() - i,
        {
            put_decision(&mut out, &self.decisions[i]);
            i += 1;
            assert(ds.take(i as int).drop_last() =~= ds.take(i - 1));
            assert(out@ =~= start + decisions_text(ds.take(i as int)));
        }
        assert(ds.take(i as int) =~= ds);
        out.append("]");
        let ghost mid = out@;
        put_stack(&mut out, &self.stack);
        put_num(&mut out, self.estimated.monthly_cost_usd);
        put_num(&mut out, self.meta.seed);
        put_str(&mut out, self.meta.blueprint_hash.as_str());
        put_str(&mut out, "");
        proof {
            reveal_strlit("");
        }
        assert(""@ =~= Seq::<char>::empty());
        assert(out@ =~= plan_text(self@));
        out
    }
}

} // verus!
