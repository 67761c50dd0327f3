//! What holds of every selection.
use vstd::prelude::*;
use crate::rules::{category_name, Candidate, Category, Metrics, Rules, Weights, MAX_COST, candidate_bounded};
use crate::schema::{persistence_tag, Blueprint, PlanView};
use crate::selector::{
    insert_desc, lemma_insert_desc, near,
    admissible, ai_picks, category_at, chosen_entry, chosen_of, context_of, cost_of, decision_for,
    decision_keys, eligible, eligible_upto, first_empty, lemma_eligible_upto, lemma_mul_le,
    lemma_sort_desc, lemma_tied_with_members, pool, preferred, ranked, ranking_of, raw_score, region_ok,
    scored, selection, sort_desc, sorted_desc, tied_with, total_cost, within_cap, SelectionError,
    GLOBAL_BONUS, LATENCY_BONUS, SCORE_DENOM,
};
use crate::SCALE;

verus! {

/// Identical catalogs, seeds and blueprints give identical plans, and so
/// identical plan fingerprints.
pub proof fn lemma_determinism(rules: Rules, seed: u64, bp: Blueprint, first: PlanView, second: PlanView)
    requires
        selection(rules, seed, bp) == Ok::<PlanView, SelectionError>(first),
        selection(rules, seed, bp) == Ok::<PlanView, SelectionError>(second),
    ensures
        first.plan_hash == second.plan_hash,
        first == second,
{
}

/// Whether the top of a category's ranking is tied.
pub open spec fn has_tie(rules: Rules, seed: u64, bp: Blueprint, cat: Category) -> bool {
    let r = ranking_of(rules, seed, bp, cat);
    tied_with(r, r[0].1).len() > 1
}

/// The seed never changes the blueprint's fingerprint.
pub proof fn lemma_seed_keeps_blueprint_fingerprint(
    rules: Rules,
    seed1: u64,
    seed2: u64,
    bp: Blueprint,
    first: PlanView,
    second: PlanView,
)
    requires
        selection(rules, seed1, bp) == Ok::<PlanView, SelectionError>(first),
        selection(rules, seed2, bp) == Ok::<PlanView, SelectionError>(second),
    ensures
        first.blueprint_hash == second.blueprint_hash,
{
}

/// Changing the seed changes a category's choice only where the category's top
/// is tied, given that the language, which the other categories depend on, is
/// not tied either.
pub proof fn lemma_seed_matters_only_on_ties(
    rules: Rules,
    seed1: u64,
    seed2: u64,
    bp: Blueprint,
    cat: Category,
)
    requires
        !has_tie(rules, seed1, bp, Category::Language),
        !has_tie(rules, seed1, bp, cat),
    ensures
        chosen_of(rules, seed1, bp, cat) == chosen_of(rules, seed2, bp, cat),
        ranking_of(rules, seed1, bp, cat) == ranking_of(rules, seed2, bp, cat),
{
    assert(context_of(rules, seed1, bp, cat) == context_of(rules, seed2, bp, cat));
}

pub proof fn lemma_preferred_members(cands: Seq<Candidate>, s: Seq<usize>, prefs: Seq<String>)
    ensures
        forall|j: int| 0 <= j < preferred(cands, s, prefs).len() ==> s.contains(#[trigger] preferred(cands, s, prefs)[j]),
    decreases s.len(),
{
    if s.len() > 0 {
        let init = s.drop_last();
        lemma_preferred_members(cands, init, prefs);
        let q = preferred(cands, s, prefs);
        let qi = preferred(cands, init, prefs);
        assert forall|j: int| 0 <= j < q.len() implies s.contains(#[trigger] q[j]) by {
            if j < qi.len() {
                assert(q[j] == qi[j]);
                assert(init.contains(qi[j]));
                let m = choose|m: int| 0 <= m < init.len() && init[m] == qi[j];
                assert(s[m] == q[j]);
            } else {
                assert(s[s.len() - 1] == q[j]);
            }
        }
    }
}

/// Every position in a pool names a candidate that passed the filters.
pub proof fn lemma_pool_members(cands: Seq<Candidate>, cat: Category, bp: Blueprint, lang: Option<Seq<char>>)
    requires
        cands.len() <= usize::MAX,
    ensures
        forall|j: int|
            0 <= j < pool(cands, cat, bp, lang).len() ==> {
                let i = #[trigger] pool(cands, cat, bp, lang)[j];
                i < cands.len() && eligible(cands, cat, bp, lang, i as int)
            },
{
    let base = eligible_upto(cands, cat, bp, lang, cands.len() as int);
    lemma_eligible_upto(cands, cat, bp, lang, cands.len() as int);
    let p = pool(cands, cat, bp, lang);
    assert forall|j: int| 0 <= j < p.len() implies p[j] < cands.len() && eligible(cands, cat, bp, lang, p[j] as int) by {
        if p != base {
            let prefs = crate::selector::pref_list(cat, bp)->Some_0;
            lemma_preferred_members(cands, base, prefs);
            assert(p == preferred(cands, base, prefs));
            assert(base.contains(p[j]));
            let m = choose|m: int| 0 <= m < base.len() && base[m] == p[j];
            assert(base[m] == eligible_upto(cands, cat, bp, lang, cands.len() as int)[m]);
        } else {
            assert(base[j] == eligible_upto(cands, cat, bp, lang, cands.len() as int)[j]);
        }
    }
}

/// Every entry of a ranking is a candidate that passed the filters, paired with its score.
pub proof fn lemma_ranked_entries(rules: Rules, cat: Category, bp: Blueprint, lang: Option<Seq<char>>)
    requires
        rules.candidates.spec_of(cat).len() <= usize::MAX,
    ensures
        forall|j: int|
            0 <= j < ranked(rules, cat, bp, lang).len() ==> {
                let e = #[trigger] ranked(rules, cat, bp, lang)[j];
                let cands = rules.candidates.spec_of(cat);
                &&& e.0 < cands.len()
                &&& eligible(cands, cat, bp, lang, e.0 as int)
                &&& e.1 == raw_score(rules.weights, cands[e.0 as int].metrics, bp.traffic_profile) as u64
            },
{
    let cands = rules.candidates.spec_of(cat);
    let p = pool(cands, cat, bp, lang);
    let sc = scored(cands, p, rules.weights, bp.traffic_profile);
    lemma_pool_members(cands, cat, bp, lang);
    lemma_sort_desc(sc);
    let r = ranked(rules, cat, bp, lang);
    assert forall|j: int| 0 <= j < r.len() implies {
        let e = #[trigger] r[j];
        &&& e.0 < cands.len()
        &&& eligible(cands, cat, bp, lang, e.0 as int)
        &&& e.1 == raw_score(rules.weights, cands[e.0 as int].metrics, bp.traffic_profile) as u64
    } by {
        assert(sort_desc(sc)[j] == r[j]);
        assert(sort_desc(sc).contains(r[j]));
        assert(sc.contains(r[j]));
        let m = choose|m: int| 0 <= m < sc.len() && sc[m] == r[j];
        assert(p[m] == pool(cands, cat, bp, lang)[m]);
    }
}

/// The chosen entry of a non-empty ranking is one of its entries.
pub proof fn lemma_chosen_member(r: Seq<(usize, u64)>, topic: Seq<char>, seed: u64)
    requires
        r.len() > 0,
    ensures
        r.contains(chosen_entry(r, topic, seed)),
{
    lemma_tied_with_members(r, r[0].1);
    let tied = tied_with(r, r[0].1);
    if tied.len() > 1 {
        let k = crate::util::tie_pick(topic, seed, tied.len());
        assert(k < tied.len());
        assert(r.contains(tied[k as int]));
    }
}

proof fn lemma_all_ranked(rules: Rules, seed: u64, bp: Blueprint, cat: Category)
    requires
        first_empty(rules, seed, bp, 0) is None,
    ensures
        ranking_of(rules, seed, bp, cat).len() > 0,
{
    reveal_with_fuel(first_empty, 10);
    assert(category_at(0) == Category::Language);
    assert(category_at(8) == Category::CiCd);
}

/// A chosen candidate passed the constraint filter, the region rule among it: with
/// a region allow-list set, no candidate outside it (and not global) is chosen.
pub proof fn lemma_region_filter(rules: Rules, seed: u64, bp: Blueprint, p: PlanView, cat: Category)
    requires
        selection(rules, seed, bp) == Ok::<PlanView, SelectionError>(p),
        rules.candidates.spec_of(cat).len() <= usize::MAX,
    ensures
        cat != Category::Ai ==> region_ok(chosen_of(rules, seed, bp, cat), bp),
        cat != Category::Ai ==> admissible(chosen_of(rules, seed, bp, cat), bp, context_of(rules, seed, bp, cat)),
        cat == Category::Ai ==> forall|j: int|
            0 <= j < ai_picks(ranking_of(rules, seed, bp, cat)).len() ==> region_ok(
                rules.candidates.spec_of(cat)[#[trigger] ai_picks(ranking_of(rules, seed, bp, cat))[j].0 as int],
                bp,
            ),
{
    lemma_all_ranked(rules, seed, bp, cat);
    let lang = context_of(rules, seed, bp, cat);
    let r = ranking_of(rules, seed, bp, cat);
    lemma_ranked_entries(rules, cat, bp, lang);
    if cat != Category::Ai {
        let e = chosen_entry(r, category_name(cat), seed);
        lemma_chosen_member(r, category_name(cat), seed);
        let m = choose|m: int| 0 <= m < r.len() && r[m] == e;
        assert(r[m] == ranked(rules, cat, bp, lang)[m]);
    } else {
        assert forall|j: int| 0 <= j < ai_picks(r).len() implies region_ok(
            rules.candidates.spec_of(cat)[#[trigger] ai_picks(r)[j].0 as int],
            bp,
        ) by {
            assert(ai_picks(r)[j] == r[j]);
            assert(r[j] == ranked(rules, cat, bp, lang)[j]);
        }
    }
}

/// Every metric of the catalog lies in [0, 1].
pub open spec fn unit_metrics(rules: Rules) -> bool {
    forall|c: Category, i: int|
        0 <= i < rules.candidates.spec_of(c).len() ==> {
            let m = (#[trigger] rules.candidates.spec_of(c)[i]).metrics;
            m.quality <= SCALE && m.slo <= SCALE && m.cost <= SCALE && m.security <= SCALE && m.ops <= SCALE
        }
}

/// The weights sum to at most 1.
pub open spec fn unit_weights(w: Weights) -> bool {
    w.quality + w.slo + w.cost + w.security + w.ops <= SCALE
}

/// With metrics in [0, 1] and weights summing to at most 1, a score is in [0, 1].
pub proof fn lemma_raw_score_unit(w: Weights, m: Metrics, t: crate::schema::TrafficProfile)
    requires
        m.quality <= SCALE && m.slo <= SCALE && m.cost <= SCALE && m.security <= SCALE && m.ops <= SCALE,
        unit_weights(w),
    ensures
        0 <= raw_score(w, m, t) <= SCORE_DENOM,
{
    let s = SCALE as int;
    lemma_mul_le(w.quality as int, m.quality as int, w.quality as int, s);
    lemma_mul_le(w.slo as int, m.slo as int, w.slo as int, s);
    lemma_mul_le(w.cost as int, m.cost as int, w.cost as int, s);
    lemma_mul_le(w.security as int, m.security as int, w.security as int, s);
    lemma_mul_le(w.ops as int, m.ops as int, w.ops as int, s);
    lemma_mul_le(LATENCY_BONUS as int, m.slo as int, LATENCY_BONUS as int, s);
    lemma_mul_le(GLOBAL_BONUS as int, m.ops as int, GLOBAL_BONUS as int, s);
    let sw = w.quality + w.slo + w.cost + w.security + w.ops;
    let (a, b, c, d, e) = (w.quality as int, w.slo as int, w.cost as int, w.security as int, w.ops as int);
    assert(a * s + b * s + c * s + d * s + e * s == (a + b + c + d + e) * s) by (nonlinear_arith);
    lemma_mul_le(sw, s, s, s);
}

/// Score bounds: given metrics in [0, 1] and weights summing to at most 1, every
/// decision's score lies in [0, 1].
pub proof fn lemma_score_bounds(rules: Rules, seed: u64, bp: Blueprint, p: PlanView)
    requires
        selection(rules, seed, bp) == Ok::<PlanView, SelectionError>(p),
        unit_metrics(rules),
        unit_weights(rules.weights),
        forall|c: Category| rules.candidates.spec_of(c).len() <= usize::MAX,
    ensures
        forall|i: int| 0 <= i < p.decisions.len() ==> #[trigger] p.decisions[i].score <= SCORE_DENOM,
{
    assert forall|c: Category| decision_for(rules, seed, bp, c).score <= SCORE_DENOM by {
        lemma_all_ranked(rules, seed, bp, c);
        let lang = context_of(rules, seed, bp, c);
        let r = ranking_of(rules, seed, bp, c);
        lemma_ranked_entries(rules, c, bp, lang);
        let cands = rules.candidates.spec_of(c);
        let e = if c == Category::Ai {
            r[0]
        } else {
            chosen_entry(r, category_name(c), seed)
        };
        if c != Category::Ai {
            lemma_chosen_member(r, category_name(c), seed);
        }
        assert(r.contains(e));
        let m = choose|m: int| 0 <= m < r.len() && r[m] == e;
        assert(r[m] == ranked(rules, c, bp, lang)[m]);
        let cand = cands[e.0 as int];
        assert(cand == rules.candidates.spec_of(c)[e.0 as int]);
        lemma_raw_score_unit(rules.weights, cand.metrics, bp.traffic_profile);
    }
    assert forall|i: int| 0 <= i < p.decisions.len() implies #[trigger] p.decisions[i].score <= SCORE_DENOM by {
        let e = sort_desc(decision_keys(rules, seed, bp))[i];
        assert(p.decisions[i] == decision_for(rules, seed, bp, category_at(e.0 as int)));
    }
}

/// Ordering: the decisions come sorted by score, highest first.
pub proof fn lemma_decisions_sorted(rules: Rules, seed: u64, bp: Blueprint, p: PlanView)
    requires
        selection(rules, seed, bp) == Ok::<PlanView, SelectionError>(p),
    ensures
        forall|i: int, j: int| 0 <= i < j < p.decisions.len() ==> p.decisions[i].score >= p.decisions[j].score,
{
    let keys = decision_keys(rules, seed, bp);
    let s = sort_desc(keys);
    lemma_sort_desc(keys);
    assert forall|i: int| 0 <= i < s.len() implies (#[trigger] s[i]).1 == decision_for(rules, seed, bp, category_at(s[i].0 as int)).score by {
        assert(s.contains(s[i]));
        assert(keys.contains(s[i]));
        let m = choose|m: int| 0 <= m < keys.len() && keys[m] == s[i];
    }
    assert forall|i: int, j: int| 0 <= i < j < p.decisions.len() implies p.decisions[i].score >= p.decisions[j].score by {
        assert(p.decisions[i] == decision_for(rules, seed, bp, category_at(s[i].0 as int)));
        assert(p.decisions[j] == decision_for(rules, seed, bp, category_at(s[j].0 as int)));
        assert(s[i].1 >= s[j].1);
    }
}

proof fn lemma_cost_of_bounded(rules: Rules, seed: u64, bp: Blueprint, cat: Category)
    requires
        rules.within_bounds(),
        first_empty(rules, seed, bp, 0) is None,
        rules.candidates.spec_of(cat).len() <= usize::MAX,
    ensures
        0 <= cost_of(rules, seed, bp, cat) <= 2 * MAX_COST,
{
    lemma_all_ranked(rules, seed, bp, cat);
    let lang = context_of(rules, seed, bp, cat);
    let r = ranking_of(rules, seed, bp, cat);
    lemma_ranked_entries(rules, cat, bp, lang);
    let cands = rules.candidates.spec_of(cat);
    if cat == Category::Ai {
        assert(r[0] == ranked(rules, cat, bp, lang)[0]);
        assert(candidate_bounded(cands[r[0].0 as int]));
        if r.len() >= 2 {
            assert(r[1] == ranked(rules, cat, bp, lang)[1]);
            assert(candidate_bounded(cands[r[1].0 as int]));
        }
    } else {
        let e = chosen_entry(r, category_name(cat), seed);
        lemma_chosen_member(r, category_name(cat), seed);
        let m = choose|m: int| 0 <= m < r.len() && r[m] == e;
        assert(r[m] == ranked(rules, cat, bp, lang)[m]);
        assert(candidate_bounded(cands[e.0 as int]));
    }
}

/// Budget enforcement: a selection whose chosen candidates cost more than the cap
/// fails with the budget error and yields no plan; a plan's cost is that sum and
/// stays within the cap.
pub proof fn lemma_budget(rules: Rules, seed: u64, bp: Blueprint)
    requires
        rules.within_bounds(),
        forall|c: Category| rules.candidates.spec_of(c).len() <= usize::MAX,
    ensures
        first_empty(rules, seed, bp, 0) is None && !within_cap(bp, total_cost(rules, seed, bp)) ==> selection(
            rules,
            seed,
            bp,
        ) == Err::<PlanView, SelectionError>(
            SelectionError::BudgetExceeded {
                cap: bp.constraints.monthly_cost_usd_max->Some_0,
                total: total_cost(rules, seed, bp) as u64,
            },
        ),
        selection(rules, seed, bp) is Ok ==> within_cap(bp, total_cost(rules, seed, bp))
            && selection(rules, seed, bp)->Ok_0.monthly_cost == total_cost(rules, seed, bp),
{
    if first_empty(rules, seed, bp, 0) is None {
        assert forall|k: int| 0 <= k < 9 implies 0 <= #[trigger] cost_of(rules, seed, bp, category_at(k)) <= 2 * MAX_COST by {
            lemma_cost_of_bounded(rules, seed, bp, category_at(k));
        }
        assert(0 <= cost_of(rules, seed, bp, category_at(0)) <= 2 * MAX_COST);
        assert(0 <= cost_of(rules, seed, bp, category_at(8)) <= 2 * MAX_COST);
        assert(0 <= total_cost(rules, seed, bp) <= 18 * MAX_COST);
    }
}

/// Sorted by score, highest first, and by position where scores are equal.
pub open spec fn lex_sorted(r: Seq<(usize, u64)>) -> bool {
    forall|i: int, j: int|
        0 <= i < j < r.len() ==> r[i].1 > r[j].1 || (r[i].1 == r[j].1 && r[i].0 < r[j].0)
}

proof fn lemma_insert_lex(s: Seq<(usize, u64)>, x: (usize, u64))
    requires
        lex_sorted(s),
        forall|k: int| 0 <= k < s.len() ==> s[k].0 < x.0,
    ensures
        lex_sorted(insert_desc(s, x)),
    decreases s.len(),
{
    let r = insert_desc(s, x);
    if s.len() == 0 {
    } else if s[0].1 < x.1 {
        assert forall|i: int, j: int| 0 <= i < j < r.len() implies r[i].1 > r[j].1 || (r[i].1
            == r[j].1 && r[i].0 < r[j].0) by {
            if i > 0 {
                assert(r[i] == s[i - 1] && r[j] == s[j - 1]);
            } else {
                assert(r[j] == s[j - 1]);
                if j - 1 > 0 {
                    assert(s[0].1 >= s[j - 1].1);
                }
            }
        }
    } else {
        let rest = s.drop_first();
        assert forall|i: int, j: int| 0 <= i < j < rest.len() implies rest[i].1 > rest[j].1 || (
        rest[i].1 == rest[j].1 && rest[i].0 < rest[j].0) by {
            assert(rest[i] == s[i + 1] && rest[j] == s[j + 1]);
        }
        lemma_insert_lex(rest, x);
        lemma_insert_desc(rest, x);
        let t = insert_desc(rest, x);
        assert forall|i: int, j: int| 0 <= i < j < r.len() implies r[i].1 > r[j].1 || (r[i].1
            == r[j].1 && r[i].0 < r[j].0) by {
            if i > 0 {
                assert(r[i] == t[i - 1] && r[j] == t[j - 1]);
            } else {
                let y = t[j - 1];
                assert(r[j] == y);
                assert(t.contains(y));
                if rest.contains(y) {
                    let m = choose|m: int| 0 <= m < rest.len() && rest[m] == y;
                    assert(s[m + 1] == y);
                } else {
                    assert(y == x);
                }
            }
        }
    }
}

/// Sorting entries whose positions increase keeps equal scores in that order.
pub proof fn lemma_sort_desc_stable(s: Seq<(usize, u64)>)
    requires
        forall|a: int, b: int| 0 <= a < b < s.len() ==> s[a].0 < s[b].0,
    ensures
        lex_sorted(sort_desc(s)),
    decreases s.len(),
{
    if s.len() > 0 {
        let init = s.drop_last();
        lemma_sort_desc_stable(init);
        lemma_sort_desc(init);
        let si = sort_desc(init);
        assert forall|k: int| 0 <= k < si.len() implies si[k].0 < s.last().0 by {
            assert(si.contains(si[k]));
            assert(init.contains(si[k]));
            let m = choose|m: int| 0 <= m < init.len() && init[m] == si[k];
            assert(s[m] == si[k]);
        }
        lemma_insert_lex(si, s.last());
    }
}

/// The category positions of the plan's decisions, in plan order.
pub open spec fn decision_order(rules: Rules, seed: u64, bp: Blueprint) -> Seq<int> {
    sort_desc(decision_keys(rules, seed, bp)).map_values(|e: (usize, u64)| e.0 as int)
}

/// Ordering, with ties: the decisions come sorted by score, highest first, and
/// decisions with equal scores keep the resolution order of their categories.
pub proof fn lemma_decisions_stable(rules: Rules, seed: u64, bp: Blueprint, p: PlanView)
    requires
        selection(rules, seed, bp) == Ok::<PlanView, SelectionError>(p),
    ensures
        p.decisions.len() == 9,
        forall|i: int|
            0 <= i < p.decisions.len() ==> 0 <= #[trigger] decision_order(rules, seed, bp)[i] < 9
                && p.decisions[i] == decision_for(rules, seed, bp, category_at(decision_order(rules, seed, bp)[i])),
        forall|i: int, j: int|
            0 <= i < j < p.decisions.len() ==> p.decisions[i].score > p.decisions[j].score || (
            p.decisions[i].score == p.decisions[j].score && decision_order(rules, seed, bp)[i]
                < decision_order(rules, seed, bp)[j]),
{
    let keys = decision_keys(rules, seed, bp);
    let s = sort_desc(keys);
    let order = decision_order(rules, seed, bp);
    lemma_sort_desc(keys);
    lemma_sort_desc_stable(keys);
    assert forall|i: int| 0 <= i < s.len() implies (#[trigger] s[i]).1 == decision_for(rules, seed, bp, category_at(s[i].0 as int)).score
        && s[i].0 < 9 by {
        assert(s.contains(s[i]));
        assert(keys.contains(s[i]));
        let m = choose|m: int| 0 <= m < keys.len() && keys[m] == s[i];
    }
    assert forall|i: int| 0 <= i < p.decisions.len() implies 0 <= #[trigger] order[i] < 9
        && p.decisions[i] == decision_for(rules, seed, bp, category_at(order[i])) by {
        assert(order[i] == s[i].0 as int);
    }
    assert forall|i: int, j: int| 0 <= i < j < p.decisions.len() implies p.decisions[i].score > p.decisions[j].score || (
        p.decisions[i].score == p.decisions[j].score && order[i] < order[j]) by {
        assert(order[i] == s[i].0 as int && order[j] == s[j].0 as int);
        assert(p.decisions[i].score == s[i].1 && p.decisions[j].score == s[j].1);
    }
}

proof fn lemma_tied_with_near(s: Seq<(usize, u64)>, top: u64)
    ensures
        forall|j: int| 0 <= j < tied_with(s, top).len() ==> near(#[trigger] tied_with(s, top)[j].1, top),
        s.len() > 0 && near(s[0].1, top) ==> tied_with(s, top).len() > 0 && tied_with(s, top)[0] == s[0],
    decreases s.len(),
{
    if s.len() > 0 {
        let init = s.drop_last();
        lemma_tied_with_near(init, top);
        let t = tied_with(s, top);
        let ti = tied_with(init, top);
        assert forall|j: int| 0 <= j < t.len() implies near(#[trigger] t[j].1, top) by {
            if j < ti.len() {
                assert(t[j] == ti[j]);
            }
        }
        if s.len() > 1 && near(s[0].1, top) {
            assert(init[0] == s[0]);
            assert(t[0] == ti[0]);
        }
    }
}

/// Ties: the choice of a category lies within the tie window of the top score,
/// which is the highest of the ranking; where nothing else is that close the top
/// candidate is taken; and another seed, given the same language, can only move
/// the choice within that tied group.
pub proof fn lemma_choice_within_ties(rules: Rules, seed1: u64, seed2: u64, bp: Blueprint, cat: Category)
    requires
        cat != Category::Ai,
        ranking_of(rules, seed1, bp, cat).len() > 0,
        context_of(rules, seed1, bp, cat) == context_of(rules, seed2, bp, cat),
    ensures
        ({
            let r = ranking_of(rules, seed1, bp, cat);
            let e1 = chosen_entry(r, category_name(cat), seed1);
            let e2 = chosen_entry(r, category_name(cat), seed2);
            &&& forall|j: int| 0 <= j < r.len() ==> r[0].1 >= #[trigger] r[j].1
            &&& r.contains(e1) && near(e1.1, r[0].1)
            &&& tied_with(r, r[0].1).len() <= 1 ==> e1 == r[0] && e2 == r[0]
            &&& ranking_of(rules, seed2, bp, cat) == r
            &&& tied_with(r, r[0].1).contains(e1) && tied_with(r, r[0].1).contains(e2)
        }),
{
    let r = ranking_of(rules, seed1, bp, cat);
    let top = r[0].1;
    let tied = tied_with(r, top);
    let cands = rules.candidates.spec_of(cat);
    let lang = context_of(rules, seed1, bp, cat);
    lemma_sort_desc(scored(cands, pool(cands, cat, bp, lang), rules.weights, bp.traffic_profile));
    assert forall|j: int| 0 <= j < r.len() implies r[0].1 >= #[trigger] r[j].1 by {
        if j > 0 {
            assert(sorted_desc(r));
        }
    }
    lemma_tied_with_near(r, top);
    lemma_chosen_member(r, category_name(cat), seed1);
    assert(near(top, top));
    assert(tied.len() > 0 && tied[0] == r[0]);
    assert(tied.contains(r[0]));
    if tied.len() > 1 {
        let k1 = crate::util::tie_pick(category_name(cat), seed1, tied.len());
        let k2 = crate::util::tie_pick(category_name(cat), seed2, tied.len());
        assert(tied.contains(tied[k1 as int]));
        assert(tied.contains(tied[k2 as int]));
        assert(near(tied[k1 as int].1, top));
    }
}

/// Exact persistence: where a blueprint asks for a persistence tag, the chosen
/// database carries exactly that tag, and the database category fails exactly
/// when no candidate with that tag passes the constraint filter.
pub proof fn lemma_persistence_exact(rules: Rules, seed: u64, bp: Blueprint)
    requires
        bp.constraints.persistence is Some,
        rules.candidates.spec_of(Category::Database).len() <= usize::MAX,
    ensures
        ({
            let cands = rules.candidates.spec_of(Category::Database);
            let tag = persistence_tag(bp.constraints.persistence->Some_0);
            let lang = context_of(rules, seed, bp, Category::Database);
            &&& ranking_of(rules, seed, bp, Category::Database).len() > 0 ==> {
                let c = chosen_of(rules, seed, bp, Category::Database);
                c.persistence is Some && c.persistence->Some_0@ == tag && admissible(c, bp, lang)
            }
            &&& ranking_of(rules, seed, bp, Category::Database).len() == 0 <==> forall|i: int|
                0 <= i < cands.len() ==> !(#[trigger] cands[i].persistence is Some
                    && cands[i].persistence->Some_0@ == tag && admissible(cands[i], bp, lang))
        }),
{
    let cat = Category::Database;
    let cands = rules.candidates.spec_of(cat);
    let lang = context_of(rules, seed, bp, cat);
    let r = ranking_of(rules, seed, bp, cat);
    lemma_ranked_entries(rules, cat, bp, lang);
    let base = eligible_upto(cands, cat, bp, lang, cands.len() as int);
    let sc = scored(cands, pool(cands, cat, bp, lang), rules.weights, bp.traffic_profile);
    lemma_sort_desc(sc);
    if r.len() > 0 {
        let e = chosen_entry(r, category_name(cat), seed);
        lemma_chosen_member(r, category_name(cat), seed);
        let m = choose|m: int| 0 <= m < r.len() && r[m] == e;
        assert(r[m] == ranked(rules, cat, bp, lang)[m]);
    }
    let tag = persistence_tag(bp.constraints.persistence->Some_0);
    assert(r.len() == sc.len());
    assert(sc.len() == pool(cands, cat, bp, lang).len());
    lemma_eligible_upto_empty(cands, cat, bp, lang, cands.len() as int);
    assert forall|i: int| 0 <= i < cands.len() implies eligible(cands, cat, bp, lang, i) == (
    #[trigger] cands[i].persistence is Some && cands[i].persistence->Some_0@ == tag && admissible(
        cands[i],
        bp,
        lang,
    )) by {}
    if base.len() > 0 {
        lemma_pool_nonempty(cands, cat, bp, lang);
        let i = choose|i: int| 0 <= i < cands.len() && eligible(cands, cat, bp, lang, i);
        assert(cands[i].persistence is Some && cands[i].persistence->Some_0@ == tag && admissible(cands[i], bp, lang));
    } else {
        assert(pool(cands, cat, bp, lang).len() == 0);
    }
    if r.len() > 0 {
        let e = chosen_entry(r, category_name(cat), seed);
        let m = choose|m: int| 0 <= m < r.len() && r[m] == e;
        assert(eligible(cands, cat, bp, lang, e.0 as int));
        assert(chosen_of(rules, seed, bp, cat) == cands[e.0 as int]);
    }
}

proof fn lemma_pool_nonempty(cands: Seq<Candidate>, cat: Category, bp: Blueprint, lang: Option<Seq<char>>)
    requires
        eligible_upto(cands, cat, bp, lang, cands.len() as int).len() > 0,
    ensures
        pool(cands, cat, bp, lang).len() > 0,
{
}

proof fn lemma_eligible_upto_empty(
    cands: Seq<Candidate>,
    cat: Category,
    bp: Blueprint,
    lang: Option<Seq<char>>,
    n: int,
)
    requires
        0 <= n <= cands.len(),
    ensures
        eligible_upto(cands, cat, bp, lang, n).len() == 0 <==> forall|i: int|
            0 <= i < n ==> !eligible(cands, cat, bp, lang, i),
    decreases n,
{
    if n > 0 {
        lemma_eligible_upto_empty(cands, cat, bp, lang, n - 1);
    }
}

} // verus!
