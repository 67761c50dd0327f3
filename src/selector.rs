//! The selection engine: filtering, scoring, ranking and tie-breaking per
//! category, then cost aggregation and the assembled plan.
use vstd::prelude::*;
use crate::rules::{
    candidate_bounded, metrics_bounded, weights_bounded, Candidate, Category, Metrics, Rules,
    Weights, MAX_COST, MAX_FACTOR,
};
use crate::schema::{
    language_mode_name, persistence_tag, texts, Blueprint, ComplianceType, Decision, DecisionView,
    Estimated, Meta, PlanView, Stack, StackPlan, StackView, TrafficProfile,
};
use crate::canonical::{blueprint_text, plan_text};
use crate::util::{fingerprint, fingerprint_of};
use vstd::utf8::encode_utf8;
use crate::rules::category_name;
use crate::text::{amount_text, push_amount};
use crate::util::{tie_index, tie_pick};

verus! {

/// Scores are exact fractions with this denominator: 1.15 times the square of the scale.
pub const SCORE_DENOM: u64 = 1_150_000_000_000;

/// Two scores closer than 0.001 are tied.
pub const TIE_WINDOW: u64 = 1_150_000_000;

/// A score above 0.8 counts as high.
pub const HIGH_SCORE: u64 = 920_000_000_000;

/// A metric above 0.85 counts as strong.
pub const STRONG_METRIC: u64 = 850_000;

/// Bonus factor 0.10 on the SLO metric for latency-sensitive traffic.
pub const LATENCY_BONUS: u64 = 100_000;

/// Bonus factor 0.05 on the ops metric for global traffic.
pub const GLOBAL_BONUS: u64 = 50_000;

/// The score's numerator: the weighted sum of the metrics plus the traffic bonuses.
/// The score itself is this over `SCORE_DENOM`.
pub open spec fn raw_score(w: Weights, m: Metrics, t: TrafficProfile) -> int {
    w.quality * m.quality + w.slo * m.slo + w.cost * m.cost + w.security * m.security
        + w.ops * m.ops + (if t.latency_sensitive {
        LATENCY_BONUS * m.slo
    } else {
        0
    }) + (if t.global {
        GLOBAL_BONUS * m.ops
    } else {
        0
    })
}

pub open spec fn contains_text(v: Seq<String>, t: Seq<char>) -> bool {
    exists|j: int| 0 <= j < v.len() && v[j]@ == t
}

/// Region rule: a wildcard or global region, no allow-list, or a shared region.
pub open spec fn region_ok(c: Candidate, bp: Blueprint) -> bool {
    match bp.constraints.region_allow {
        None => true,
        Some(allow) => exists|i: int|
            0 <= i < c.regions@.len() && (c.regions@[i]@ == "*"@ || c.regions@[i]@ == "global"@
                || contains_text(allow@, c.regions@[i]@)),
    }
}

/// Cost rule: the candidate's own base cost stays within the cap.
pub open spec fn cost_ok(c: Candidate, bp: Blueprint) -> bool {
    match bp.constraints.monthly_cost_usd_max {
        None => true,
        Some(cap) => c.monthly_cost_base <= cap,
    }
}

/// Language rule: a declared language requirement names the chosen language.
pub open spec fn language_ok(c: Candidate, lang: Option<Seq<char>>) -> bool {
    match lang {
        None => true,
        Some(l) => match c.requires {
            None => true,
            Some(req) => match req.language {
                None => true,
                Some(x) => x@ == l,
            },
        },
    }
}

/// The constraint filter.
pub open spec fn admissible(c: Candidate, bp: Blueprint, lang: Option<Seq<char>>) -> bool {
    region_ok(c, bp) && cost_ok(c, bp) && language_ok(c, lang)
}

/// The category's own pre-filter: the single-language restriction for languages,
/// the exact persistence tag for databases.
pub open spec fn category_ok(cat: Category, c: Candidate, bp: Blueprint) -> bool {
    match cat {
        Category::Language => match bp.single_language_mode {
            None => true,
            Some(m) => c.name@ == language_mode_name(m),
        },
        Category::Database => match bp.constraints.persistence {
            None => true,
            Some(p) => match c.persistence {
                None => false,
                Some(t) => t@ == persistence_tag(p),
            },
        },
        _ => true,
    }
}

pub open spec fn eligible(
    cands: Seq<Candidate>,
    cat: Category,
    bp: Blueprint,
    lang: Option<Seq<char>>,
    i: int,
) -> bool {
    category_ok(cat, cands[i], bp) && admissible(cands[i], bp, lang)
}

/// The positions below `n` of the candidates that pass both filters, in catalog order.
pub open spec fn eligible_upto(
    cands: Seq<Candidate>,
    cat: Category,
    bp: Blueprint,
    lang: Option<Seq<char>>,
    n: int,
) -> Seq<usize>
    decreases n,
{
    if n <= 0 {
        Seq::empty()
    } else {
        let s = eligible_upto(cands, cat, bp, lang, n - 1);
        if eligible(cands, cat, bp, lang, n - 1) {
            s.push((n - 1) as usize)
        } else {
            s
        }
    }
}

pub proof fn lemma_eligible_upto(
    cands: Seq<Candidate>,
    cat: Category,
    bp: Blueprint,
    lang: Option<Seq<char>>,
    n: int,
)
    requires
        n <= cands.len(),
        cands.len() <= usize::MAX,
    ensures
        forall|j: int|
            0 <= j < eligible_upto(cands, cat, bp, lang, n).len() ==> {
                let i = #[trigger] eligible_upto(cands, cat, bp, lang, n)[j];
                i < n && eligible(cands, cat, bp, lang, i as int)
            },
    decreases n,
{
    if n > 0 {
        lemma_eligible_upto(cands, cat, bp, lang, n - 1);
        let s = eligible_upto(cands, cat, bp, lang, n - 1);
        let r = eligible_upto(cands, cat, bp, lang, n);
        assert forall|j: int| 0 <= j < r.len() implies r[j] < n && eligible(
            cands,
            cat,
            bp,
            lang,
            r[j] as int,
        ) by {
            if j < s.len() {
                assert(r[j] == s[j]);
            }
        }
    }
}

/// The blueprint's preference list for a category, where it has one.
pub open spec fn pref_list(cat: Category, bp: Blueprint) -> Option<Seq<String>> {
    match bp.prefs {
        None => None,
        Some(p) => {
            let l = match cat {
                Category::Frontend => p.frontend,
                Category::Backend => p.backend,
                Category::Database => p.database,
                _ => None,
            };
            match l {
                None => None,
                Some(v) => Some(v@),
            }
        },
    }
}

/// The positions of `s` whose candidate is named in `prefs`.
pub open spec fn preferred(cands: Seq<Candidate>, s: Seq<usize>, prefs: Seq<String>) -> Seq<usize>
    decreases s.len(),
{
    if s.len() == 0 {
        s
    } else {
        let r = preferred(cands, s.drop_last(), prefs);
        if contains_text(prefs, cands[s.last() as int].name@) {
            r.push(s.last())
        } else {
            r
        }
    }
}

/// The candidates left for scoring: the admissible ones, narrowed to the
/// preferred ones where that leaves any.
pub open spec fn pool(
    cands: Seq<Candidate>,
    cat: Category,
    bp: Blueprint,
    lang: Option<Seq<char>>,
) -> Seq<usize> {
    let base = eligible_upto(cands, cat, bp, lang, cands.len() as int);
    match pref_list(cat, bp) {
        None => base,
        Some(p) => {
            let q = preferred(cands, base, p);
            if q.len() > 0 {
                q
            } else {
                base
            }
        },
    }
}

/// Each position paired with its candidate's score.
pub open spec fn scored(cands: Seq<Candidate>, s: Seq<usize>, w: Weights, t: TrafficProfile) -> Seq<
    (usize, u64),
> {
    s.map_values(|i: usize| (i, raw_score(w, cands[i as int].metrics, t) as u64))
}

/// Inserts `x` after every entry that scores at least as much.
pub open spec fn insert_desc(s: Seq<(usize, u64)>, x: (usize, u64)) -> Seq<(usize, u64)>
    decreases s.len(),
{
    if s.len() == 0 {
        seq![x]
    } else if s[0].1 < x.1 {
        seq![x] + s
    } else {
        seq![s[0]] + insert_desc(s.drop_first(), x)
    }
}

/// Stable sort by score, highest first.
pub open spec fn sort_desc(s: Seq<(usize, u64)>) -> Seq<(usize, u64)>
    decreases s.len(),
{
    if s.len() == 0 {
        s
    } else {
        insert_desc(sort_desc(s.drop_last()), s.last())
    }
}

/// The ranking of a category: its pool, scored and sorted.
pub open spec fn ranked(
    rules: Rules,
    cat: Category,
    bp: Blueprint,
    lang: Option<Seq<char>>,
) -> Seq<(usize, u64)> {
    let cands = rules.candidates.spec_of(cat);
    sort_desc(scored(cands, pool(cands, cat, bp, lang), rules.weights, bp.traffic_profile))
}

pub open spec fn near(a: u64, b: u64) -> bool {
    if a >= b {
        a - b < TIE_WINDOW
    } else {
        b - a < TIE_WINDOW
    }
}

/// The entries whose score is within the tie window of `top`, in order.
pub open spec fn tied_with(s: Seq<(usize, u64)>, top: u64) -> Seq<(usize, u64)>
    decreases s.len(),
{
    if s.len() == 0 {
        s
    } else {
        let r = tied_with(s.drop_last(), top);
        if near(s.last().1, top) {
            r.push(s.last())
        } else {
            r
        }
    }
}

/// The chosen entry of a non-empty ranking: the top one, or the tie-breaker's
/// pick among those tied with it.
pub open spec fn chosen_entry(r: Seq<(usize, u64)>, topic: Seq<char>, seed: u64) -> (usize, u64) {
    let tied = tied_with(r, r[0].1);
    if tied.len() > 1 {
        tied[tie_pick(topic, seed, tied.len()) as int]
    } else {
        r[0]
    }
}

/// Up to `limit` names of the ranking, in order, other than `chosen`.
pub open spec fn alternatives_of(
    cands: Seq<Candidate>,
    r: Seq<(usize, u64)>,
    chosen: Seq<char>,
    limit: nat,
) -> Seq<Seq<char>>
    decreases r.len(),
{
    if r.len() == 0 || limit == 0 {
        Seq::empty()
    } else {
        let name = cands[r[0].0 as int].name@;
        if name != chosen {
            seq![name] + alternatives_of(cands, r.drop_first(), chosen, (limit - 1) as nat)
        } else {
            alternatives_of(cands, r.drop_first(), chosen, limit)
        }
    }
}

pub proof fn lemma_mul_le(a: int, b: int, c: int, d: int)
    requires
        0 <= a <= c,
        0 <= b <= d,
    ensures
        a * b <= c * d,
{
    assert(a * b <= c * d) by (nonlinear_arith)
        requires
            0 <= a <= c,
            0 <= b <= d,
    ;
}

/// For bounded inputs each product of the score is at most 10^18, and the score's
/// numerator at most 5 * 10^18 + 1.5 * 10^14.
pub proof fn lemma_raw_score_fits(w: Weights, m: Metrics, t: TrafficProfile)
    requires
        weights_bounded(w),
        metrics_bounded(m),
    ensures
        w.quality * m.quality <= 1_000_000_000_000_000_000,
        w.slo * m.slo <= 1_000_000_000_000_000_000,
        w.cost * m.cost <= 1_000_000_000_000_000_000,
        w.security * m.security <= 1_000_000_000_000_000_000,
        w.ops * m.ops <= 1_000_000_000_000_000_000,
        LATENCY_BONUS * m.slo <= 100_000_000_000_000,
        GLOBAL_BONUS * m.ops <= 50_000_000_000_000,
        0 <= raw_score(w, m, t) <= 5_000_150_000_000_000_000,
{
    let f = MAX_FACTOR as int;
    lemma_mul_le(w.quality as int, m.quality as int, f, f);
    lemma_mul_le(w.slo as int, m.slo as int, f, f);
    lemma_mul_le(w.cost as int, m.cost as int, f, f);
    lemma_mul_le(w.security as int, m.security as int, f, f);
    lemma_mul_le(w.ops as int, m.ops as int, f, f);
    lemma_mul_le(LATENCY_BONUS as int, m.slo as int, LATENCY_BONUS as int, f);
    lemma_mul_le(GLOBAL_BONUS as int, m.ops as int, GLOBAL_BONUS as int, f);
}

/// The score's numerator for one candidate's metrics.
pub fn calculate_score(weights: &Weights, metrics: &Metrics, traffic: &TrafficProfile) -> (r: u64)
    requires
        weights_bounded(*weights),
        metrics_bounded(*metrics),
    ensures
        r == raw_score(*weights, *metrics, *traffic),
{
    proof {
        lemma_raw_score_fits(*weights, *metrics, *traffic);
    }
    let mut s: u64 = weights.quality * metrics.quality;
    s = s + weights.slo * metrics.slo;
    s = s + weights.cost * metrics.cost;
    s = s + weights.security * metrics.security;
    s = s + weights.ops * metrics.ops;
    if traffic.latency_sensitive {
        s = s + LATENCY_BONUS * metrics.slo;
    }
    if traffic.global {
        s = s + GLOBAL_BONUS * metrics.ops;
    }
    s
}

fn same_text(a: &String, b: &String) -> (r: bool)
    ensures
        r == (a@ == b@),
{
    *a == *b
}

fn text_in(v: &Vec<String>, t: &String) -> (r: bool)
    ensures
        r == contains_text(v@, t@),
{
    let mut j: usize = 0;
    while j < v.len()
        invariant
            j <= v@.len(),
            forall|k: int| 0 <= k < j ==> v@[k]@ != t@,
        decreases v@.len() - j,
    {
        if same_text(&v[j], t) {
            return true;
        }
        j += 1;
    }
    false
}

fn region_passes(c: &Candidate, bp: &Blueprint) -> (r: bool)
    ensures
        r == region_ok(*c, *bp),
{
    match &bp.constraints.region_allow {
        None => true,
        Some(allow) => {
            let star = String::from_str("*");
            let global = String::from_str("global");
            proof {
                reveal_strlit("*");
                reveal_strlit("global");
            }
            let mut i: usize = 0;
            while i < c.regions.len()
                invariant
                    i <= c.regions@.len(),
                    star@ == "*"@,
                    global@ == "global"@,
                    bp.constraints.region_allow == Some(*allow),
                    forall|k: int|
                        0 <= k < i ==> !(c.regions@[k]@ == "*"@ || c.regions@[k]@ == "global"@
                            || contains_text(allow@, c.regions@[k]@)),
                decreases c.regions@.len() - i,
            {
                let reg = &c.regions[i];
                if same_text(reg, &star) || same_text(reg, &global) || text_in(allow, reg) {
                    return true;
                }
                i += 1;
            }
            false
        },
    }
}

fn language_passes(c: &Candidate, lang: Option<&String>) -> (r: bool)
    ensures
        r == language_ok(*c, opt_text(lang)),
{
    match lang {
        None => true,
        Some(l) => match &c.requires {
            None => true,
            Some(req) => match &req.language {
                None => true,
                Some(x) => same_text(x, l),
            },
        },
    }
}

pub open spec fn opt_text(o: Option<&String>) -> Option<Seq<char>> {
    match o {
        None => None,
        Some(s) => Some(s@),
    }
}

/// Whether a candidate passes the constraint filter for a blueprint, given the
/// chosen language (none while the language itself is being chosen).
pub fn check_constraints(candidate: &Candidate, blueprint: &Blueprint, language: Option<&String>) -> (r: bool)
    ensures
        r == admissible(*candidate, *blueprint, opt_text(language)),
{
    if !region_passes(candidate, blueprint) {
        return false;
    }
    match blueprint.constraints.monthly_cost_usd_max {
        Some(cap) => {
            if candidate.monthly_cost_base > cap {
                return false;
            }
        },
        None => {},
    }
    language_passes(candidate, language)
}

fn category_passes(cat: Category, c: &Candidate, bp: &Blueprint) -> (r: bool)
    ensures
        r == category_ok(cat, *c, *bp),
{
    match cat {
        Category::Language => match &bp.single_language_mode {
            None => true,
            Some(m) => {
                let want = m.language_name();
                same_text(&c.name, &want)
            },
        },
        Category::Database => match &bp.constraints.persistence {
            None => true,
            Some(p) => match &c.persistence {
                None => false,
                Some(t) => {
                    let want = p.tag();
                    same_text(t, &want)
                },
            },
        },
        _ => true,
    }
}

fn pref_names(cat: Category, bp: &Blueprint) -> (r: Option<&Vec<String>>)
    ensures
        match r {
            None => pref_list(cat, *bp) is None,
            Some(v) => pref_list(cat, *bp) == Some(v@),
        },
{
    match &bp.prefs {
        None => None,
        Some(p) => match cat {
            Category::Frontend => p.frontend.as_ref(),
            Category::Backend => p.backend.as_ref(),
            Category::Database => p.database.as_ref(),
            _ => None,
        },
    }
}

/// The positions of the candidates left for scoring.
fn pool_of(cands: &Vec<Candidate>, cat: Category, bp: &Blueprint, lang: Option<&String>) -> (r: Vec<usize>)
    ensures
        r@ == pool(cands@, cat, *bp, opt_text(lang)),
        forall|j: int| 0 <= j < r@.len() ==> r@[j] < cands@.len(),
{
    let mut base: Vec<usize> = Vec::new();
    let mut i: usize = 0;
    while i < cands.len()
        invariant
            i <= cands@.len(),
            base@ == eligible_upto(cands@, cat, *bp, opt_text(lang), i as int),
        decreases cands@.len() - i,
    {
        if category_passes(cat, &cands[i], bp) && check_constraints(&cands[i], bp, lang) {
            base.push(i);
        }
        i += 1;
    }
    proof {
        lemma_eligible_upto(cands@, cat, *bp, opt_text(lang), cands@.len() as int);
        assert forall|j: int| 0 <= j < base@.len() implies base@[j] < cands@.len() by {
            assert(eligible_upto(cands@, cat, *bp, opt_text(lang), cands@.len() as int)[j] == base@[j]);
        }
    }
    match pref_names(cat, bp) {
        None => base,
        Some(prefs) => {
            let mut q: Vec<usize> = Vec::new();
            let mut k: usize = 0;
            while k < base.len()
                invariant
                    k <= base@.len(),
                    base@ == eligible_upto(cands@, cat, *bp, opt_text(lang), cands@.len() as int),
                    forall|j: int| 0 <= j < base@.len() ==> base@[j] < cands@.len(),
                    q@ == preferred(cands@, base@.take(k as int), prefs@),
                    forall|j: int| 0 <= j < q@.len() ==> q@[j] < cands@.len(),
                decreases base@.len() - k,
            {
                assert(base@.take(k + 1).drop_last() =~= base@.take(k as int));
                if text_in(prefs, &cands[base[k]].name) {
                    q.push(base[k]);
                }
                k += 1;
            }
            assert(base@.take(base@.len() as int) =~= base@);
            if q.len() > 0 {
                q
            } else {
                base
            }
        },
    }
}


/// Scores in non-increasing order.
pub open spec fn sorted_desc(s: Seq<(usize, u64)>) -> bool {
    forall|i: int, j: int| 0 <= i < j < s.len() ==> s[i].1 >= s[j].1
}

proof fn lemma_insert_desc_at(s: Seq<(usize, u64)>, x: (usize, u64), k: int)
    requires
        0 <= k <= s.len(),
        forall|j: int| 0 <= j < k ==> !(s[j].1 < x.1),
        k < s.len() ==> s[k].1 < x.1,
    ensures
        insert_desc(s, x) =~= s.take(k) + seq![x] + s.skip(k),
    decreases k,
{
    if k > 0 {
        lemma_insert_desc_at(s.drop_first(), x, k - 1);
        assert(s.drop_first().take(k - 1) + seq![x] + s.drop_first().skip(k - 1) =~= (s.take(k) + seq![x] + s.skip(k)).drop_first());
    }
}

/// Inserting keeps the entries, adds `x`, and keeps the order sorted.
pub proof fn lemma_insert_desc(s: Seq<(usize, u64)>, x: (usize, u64))
    ensures
        insert_desc(s, x).len() == s.len() + 1,
        forall|y: (usize, u64)| insert_desc(s, x).contains(y) <==> (s.contains(y) || y == x),
        sorted_desc(s) ==> sorted_desc(insert_desc(s, x)),
    decreases s.len(),
{
    let r = insert_desc(s, x);
    if s.len() == 0 {
        assert forall|y: (usize, u64)| r.contains(y) <==> (s.contains(y) || y == x) by {
            if r.contains(y) {
                let j = choose|j: int| 0 <= j < r.len() && r[j] == y;
                assert(j == 0);
            }
            if y == x {
                assert(r[0] == x);
            }
        }
    } else if s[0].1 < x.1 {
        assert forall|y: (usize, u64)| r.contains(y) <==> (s.contains(y) || y == x) by {
            if r.contains(y) {
                let j = choose|j: int| 0 <= j < r.len() && r[j] == y;
                if j > 0 {
                    assert(s[j - 1] == y);
                }
            }
            if s.contains(y) {
                let j = choose|j: int| 0 <= j < s.len() && s[j] == y;
                assert(r[j + 1] == y);
            }
            if y == x {
                assert(r[0] == x);
            }
        }
        if sorted_desc(s) {
            assert forall|i: int, j: int| 0 <= i < j < r.len() implies r[i].1 >= r[j].1 by {
                if i > 0 {
                    assert(r[i] == s[i - 1] && r[j] == s[j - 1]);
                } else {
                    assert(r[j] == s[j - 1]);
                    assert(s[0].1 >= s[j - 1].1 || j - 1 == 0);
                }
            }
        }
    } else {
        let rest = s.drop_first();
        lemma_insert_desc(rest, x);
        let t = insert_desc(rest, x);
        assert(r == seq![s[0]] + t);
        assert forall|y: (usize, u64)| r.contains(y) <==> (s.contains(y) || y == x) by {
            if r.contains(y) {
                let j = choose|j: int| 0 <= j < r.len() && r[j] == y;
                if j > 0 {
                    assert(t[j - 1] == y);
                    assert(t.contains(y));
                    if rest.contains(y) {
                        let m = choose|m: int| 0 <= m < rest.len() && rest[m] == y;
                        assert(s[m + 1] == y);
                    }
                } else {
                    assert(s[0] == y);
                }
            }
            if s.contains(y) {
                let j = choose|j: int| 0 <= j < s.len() && s[j] == y;
                if j > 0 {
                    assert(rest[j - 1] == y);
                    assert(rest.contains(y));
                    let m = choose|m: int| 0 <= m < t.len() && t[m] == y;
                    assert(r[m + 1] == y);
                } else {
                    assert(r[0] == y);
                }
            }
            if y == x {
                assert(t.contains(x));
                let m = choose|m: int| 0 <= m < t.len() && t[m] == x;
                assert(r[m + 1] == x);
            }
        }
        if sorted_desc(s) {
            assert(sorted_desc(rest)) by {
                assert forall|i: int, j: int| 0 <= i < j < rest.len() implies rest[i].1 >= rest[j].1 by {
                    assert(rest[i] == s[i + 1] && rest[j] == s[j + 1]);
                }
            }
            assert forall|i: int, j: int| 0 <= i < j < r.len() implies r[i].1 >= r[j].1 by {
                if i > 0 {
                    assert(r[i] == t[i - 1] && r[j] == t[j - 1]);
                } else {
                    assert(r[j] == t[j - 1]);
                    assert(t.contains(t[j - 1]));
                    if rest.contains(t[j - 1]) {
                        let m = choose|m: int| 0 <= m < rest.len() && rest[m] == t[j - 1];
                        assert(s[m + 1] == t[j - 1]);
                    }
                }
            }
        }
    }
}

/// Sorting keeps the entries and leaves them in non-increasing order of score.
pub proof fn lemma_sort_desc(s: Seq<(usize, u64)>)
    ensures
        sort_desc(s).len() == s.len(),
        forall|y: (usize, u64)| sort_desc(s).contains(y) <==> s.contains(y),
        sorted_desc(sort_desc(s)),
    decreases s.len(),
{
    if s.len() > 0 {
        let init = s.drop_last();
        lemma_sort_desc(init);
        lemma_insert_desc(sort_desc(init), s.last());
        assert forall|y: (usize, u64)| sort_desc(s).contains(y) <==> s.contains(y) by {
            if init.contains(y) {
                let j = choose|j: int| 0 <= j < init.len() && init[j] == y;
                assert(s[j] == y);
            }
            if s.contains(y) {
                let j = choose|j: int| 0 <= j < s.len() && s[j] == y;
                if j < s.len() - 1 {
                    assert(init[j] == y);
                }
            }
        }
    }
}

fn insert_sorted(v: &mut Vec<(usize, u64)>, x: (usize, u64))
    ensures
        final(v)@ == insert_desc(old(v)@, x),
{
    let mut k: usize = 0;
    while k < v.len() && !(v[k].1 < x.1)
        invariant
            k <= v@.len(),
            v@ == old(v)@,
            forall|j: int| 0 <= j < k ==> !(v@[j].1 < x.1),
        decreases v@.len() - k,
    {
        k += 1;
    }
    proof {
        lemma_insert_desc_at(v@, x, k as int);
    }
    v.insert(k, x);
    assert(v@ =~= old(v)@.take(k as int) + seq![x] + old(v)@.skip(k as int));
}

/// Stable sort of scored entries, highest score first.
fn sort_scored(v: &Vec<(usize, u64)>) -> (r: Vec<(usize, u64)>)
    ensures
        r@ == sort_desc(v@),
{
    let mut out: Vec<(usize, u64)> = Vec::new();
    let mut i: usize = 0;
    while i < v.len()
        invariant
            i <= v@.len(),
            out@ == sort_desc(v@.take(i as int)),
        decreases v@.len() - i,
    {
        assert(v@.take(i + 1).drop_last() =~= v@.take(i as int));
        insert_sorted(&mut out, v[i]);
        i += 1;
    }
    assert(v@.take(v@.len() as int) =~= v@);
    out
}

/// The ranking of one category: positions and score numerators, best first.
fn rank(rules: &Rules, cat: Category, bp: &Blueprint, lang: Option<&String>) -> (r: Vec<(usize, u64)>)
    requires
        rules.within_bounds(),
    ensures
        r@ == ranked(*rules, cat, *bp, opt_text(lang)),
        forall|j: int| 0 <= j < r@.len() ==> r@[j].0 < rules.candidates.spec_of(cat).len(),
{
    let cands = rules.candidates.of(cat);
    let pool = pool_of(cands, cat, bp, lang);
    let ghost spool = pool@;
    let mut entries: Vec<(usize, u64)> = Vec::new();
    let mut k: usize = 0;
    while k < pool.len()
        invariant
            k <= pool@.len(),
            pool@ == spool,
            cands@ == rules.candidates.spec_of(cat),
            rules.within_bounds(),
            forall|j: int| 0 <= j < pool@.len() ==> pool@[j] < cands@.len(),
            entries@ == scored(cands@, pool@.take(k as int), rules.weights, bp.traffic_profile),
            forall|j: int| 0 <= j < entries@.len() ==> entries@[j].0 < cands@.len(),
        decreases pool@.len() - k,
    {
        let idx = pool[k];
        assert(crate::rules::candidate_bounded(rules.candidates.spec_of(cat)[idx as int]));
        let sc = calculate_score(&rules.weights, &cands[idx].metrics, &bp.traffic_profile);
        entries.push((idx, sc));
        k += 1;
        assert(entries@ =~= scored(cands@, pool@.take(k as int), rules.weights, bp.traffic_profile));
    }
    assert(pool@.take(pool@.len() as int) =~= pool@);
    let r = sort_scored(&entries);
    proof {
        lemma_sort_desc(entries@);
        assert forall|j: int| 0 <= j < r@.len() implies r@[j].0 < cands@.len() by {
            assert(sort_desc(entries@)[j] == r@[j]);
            assert(sort_desc(entries@).contains(r@[j]));
            assert(entries@.contains(r@[j]));
            let m = choose|m: int| 0 <= m < entries@.len() && entries@[m] == r@[j];
        }
    }
    r
}

/// The entries tied with the top one.
fn tie_group(r: &Vec<(usize, u64)>) -> (t: Vec<(usize, u64)>)
    requires
        r@.len() > 0,
    ensures
        t@ == tied_with(r@, r@[0].1),
{
    let top = r[0].1;
    let mut t: Vec<(usize, u64)> = Vec::new();
    let mut i: usize = 0;
    while i < r.len()
        invariant
            i <= r@.len(),
            top == r@[0].1,
            t@ == tied_with(r@.take(i as int), top),
        decreases r@.len() - i,
    {
        assert(r@.take(i + 1).drop_last() =~= r@.take(i as int));
        let e = r[i];
        let close = if e.1 >= top {
            e.1 - top < TIE_WINDOW
        } else {
            top - e.1 < TIE_WINDOW
        };
        if close {
            t.push(e);
        }
        i += 1;
    }
    assert(r@.take(r@.len() as int) =~= r@);
    t
}

/// The chosen entry of a non-empty ranking.
fn choose_entry(r: &Vec<(usize, u64)>, topic: &str, seed: u64) -> (c: (usize, u64))
    requires
        r@.len() > 0,
    ensures
        c == chosen_entry(r@, topic@, seed),
        r@.contains(c),
{
    let tied = tie_group(r);
    proof {
        lemma_tied_with_members(r@, r@[0].1);
    }
    if tied.len() > 1 {
        let k = tie_index(topic, seed, tied.len());
        assert(r@.contains(tied@[k as int]));
        tied[k]
    } else {
        assert(r@.contains(r@[0]));
        r[0]
    }
}

/// Up to `limit` names of the ranking other than `chosen`, best first.
fn alternatives_list(cands: &Vec<Candidate>, r: &Vec<(usize, u64)>, chosen: &String, limit: usize) -> (out: Vec<String>)
    requires
        forall|j: int| 0 <= j < r@.len() ==> r@[j].0 < cands@.len(),
    ensures
        crate::schema::texts(out@) == alternatives_of(cands@, r@, chosen@, limit as nat),
{
    let mut out: Vec<String> = Vec::new();
    let mut i: usize = 0;
    assert(crate::schema::texts(out@) =~= Seq::<Seq<char>>::empty());
    assert(r@.skip(0) =~= r@);
    assert(Seq::<Seq<char>>::empty() + alternatives_of(cands@, r@, chosen@, limit as nat) =~= alternatives_of(cands@, r@, chosen@, limit as nat));
    while i < r.len() && out.len() < limit
        invariant
            i <= r@.len(),
            out@.len() <= limit,
            forall|j: int| 0 <= j < r@.len() ==> r@[j].0 < cands@.len(),
            crate::schema::texts(out@) + alternatives_of(cands@, r@.skip(i as int), chosen@, (limit - out@.len()) as nat)
                == alternatives_of(cands@, r@, chosen@, limit as nat),
        decreases r@.len() - i,
    {
        let ghost rest = r@.skip(i as int);
        assert(rest.drop_first() =~= r@.skip(i + 1));
        assert(rest[0] == r@[i as int]);
        let name = &cands[r[i].0].name;
        if !same_text(name, chosen) {
            let ghost before = crate::schema::texts(out@);
            out.push(name.clone());
            assert(crate::schema::texts(out@) =~= before.push(name@));
            assert(before.push(name@) + alternatives_of(cands@, r@.skip(i + 1), chosen@, (limit - out@.len()) as nat)
                =~= before + (seq![name@] + alternatives_of(cands@, r@.skip(i + 1), chosen@, (limit - out@.len()) as nat)));
        }
        i += 1;
    }
    assert(alternatives_of(cands@, r@.skip(i as int), chosen@, (limit - out@.len()) as nat) =~= Seq::empty());
    assert(crate::schema::texts(out@) + Seq::<Seq<char>>::empty() =~= crate::schema::texts(out@));
    out
}


/// Why a selection failed.
#[derive(Clone, Copy, Debug, PartialEq, Eq, Structural)]
pub enum SelectionError {
    /// No candidate of the category survived the filters.
    NoCandidate(Category),
    /// The chosen candidates together cost more than the cap (fixed-point dollars).
    BudgetExceeded { cap: u64, total: u64 },
}

/// How an error message names a category: "AI" for the AI providers, the
/// category's own name otherwise.
pub open spec fn category_label(c: Category) -> Seq<char> {
    if c == Category::Ai {
        "AI"@
    } else {
        category_name(c)
    }
}

pub open spec fn error_text(e: SelectionError) -> Seq<char> {
    match e {
        SelectionError::NoCandidate(c) => "No suitable "@ + category_label(c) + " candidates found"@,
        SelectionError::BudgetExceeded { cap, total } => "No stack found within cost constraint of $"@
            + amount_text(cap as nat) + " (total $"@ + amount_text(total as nat) + ")"@,
    }
}

impl SelectionError {
    /// The error's message.
    pub fn message(&self) -> (r: String)
        ensures
            r@ == error_text(*self),
    {
        match self {
            SelectionError::NoCandidate(c) => {
                let name = if *c == Category::Ai {
                    String::from_str("AI")
                } else {
                    c.name()
                };
                String::from_str("No suitable ").concat(name.as_str()).concat(" candidates found")
            },
            SelectionError::BudgetExceeded { cap, total } => {
                let mut m = String::from_str("No stack found within cost constraint of $");
                push_amount(&mut m, *cap);
                m.append(" (total $");
                push_amount(&mut m, *total);
                m.append(")");
                m
            },
        }
    }
}

/// One note where `b` holds, none otherwise.
pub open spec fn note_if(b: bool, s: Seq<char>) -> Seq<Seq<char>> {
    if b {
        seq![s]
    } else {
        Seq::empty()
    }
}

/// The compliance notes for a chosen candidate.
pub open spec fn compliance_reasons(bp: Blueprint, c: Candidate) -> Seq<Seq<char>> {
    match bp.constraints.compliance {
        None => Seq::empty(),
        Some(v) => if v@.len() == 0 {
            Seq::empty()
        } else {
            note_if(c.metrics.security > STRONG_METRIC, "Strong security features for compliance requirements"@)
                + note_if(v@.contains(ComplianceType::Hipaa), "HIPAA-compliant infrastructure support"@)
                + note_if(v@.contains(ComplianceType::Sox), "SOX compliance with audit trail capabilities"@)
        },
    }
}

/// The note on language compatibility, for the category that depends on the language.
pub open spec fn language_note(cat: Category, lang: Option<Seq<char>>) -> Seq<Seq<char>> {
    match lang {
        Some(l) => note_if(cat == Category::Backend, "Compatible with "@ + l + " language"@),
        None => Seq::empty(),
    }
}

/// The notes that apply to a chosen candidate, in priority order.
pub open spec fn applicable_reasons(
    cat: Category,
    lang: Option<Seq<char>>,
    c: Candidate,
    score: u64,
    bp: Blueprint,
) -> Seq<Seq<char>> {
    language_note(cat, lang) + note_if(score > HIGH_SCORE, "High overall score across all metrics"@)
        + note_if(
        bp.traffic_profile.latency_sensitive && c.metrics.slo > STRONG_METRIC,
        "Excellent performance for latency-sensitive workload"@,
    ) + compliance_reasons(bp, c) + (if c.notes@.len() > 0 {
        seq![c.notes@[0]@]
    } else {
        Seq::empty()
    })
}

/// The reasons of a decision: the applicable notes, or a generic one where none applies.
pub open spec fn reasons_for(
    cat: Category,
    lang: Option<Seq<char>>,
    c: Candidate,
    score: u64,
    bp: Blueprint,
) -> Seq<Seq<char>> {
    let all = applicable_reasons(cat, lang, c, score, bp);
    if all.len() == 0 {
        seq!["Selected based on optimal "@ + category_name(cat) + " score"@]
    } else {
        all
    }
}

/// The decision for a category whose ranking is not empty.
pub open spec fn decision_of(
    rules: Rules,
    seed: u64,
    cat: Category,
    bp: Blueprint,
    lang: Option<Seq<char>>,
) -> DecisionView {
    let cands = rules.candidates.spec_of(cat);
    let r = ranked(rules, cat, bp, lang);
    let e = chosen_entry(r, category_name(cat), seed);
    let c = cands[e.0 as int];
    DecisionView {
        topic: category_name(cat),
        choice: c.name@,
        reasons: reasons_for(cat, lang, c, e.1, bp),
        alternatives: alternatives_of(cands, r, c.name@, 3),
        score: e.1,
    }
}

fn push_text(v: &mut Vec<String>, s: String)
    ensures
        texts(final(v)@) == texts(old(v)@).push(s@),
{
    v.push(s);
    assert(texts(final(v)@) =~= texts(old(v)@).push(s@));
}

fn push_note_if(v: &mut Vec<String>, b: bool, s: &str)
    ensures
        texts(final(v)@) == texts(old(v)@) + note_if(b, s@),
{
    if b {
        push_text(v, String::from_str(s));
    }
    assert(texts(final(v)@) =~= texts(old(v)@) + note_if(b, s@));
}

fn has_compliance(v: &Vec<ComplianceType>, k: ComplianceType) -> (r: bool)
    ensures
        r == v@.contains(k),
{
    let mut i: usize = 0;
    while i < v.len()
        invariant
            i <= v@.len(),
            forall|j: int| 0 <= j < i ==> v@[j] != k,
        decreases v@.len() - i,
    {
        if v[i] == k {
            return true;
        }
        i += 1;
    }
    false
}

fn push_compliance(r: &mut Vec<String>, c: &Candidate, bp: &Blueprint)
    ensures
        texts(final(r)@) == texts(old(r)@) + compliance_reasons(*bp, *c),
{
    match &bp.constraints.compliance {
        None => {},
        Some(v) => {
            if v.len() > 0 {
                let ghost q0 = texts(r@);
                push_note_if(r, c.metrics.security > STRONG_METRIC, "Strong security features for compliance requirements");
                let ghost q1 = texts(r@);
                let hipaa = has_compliance(v, ComplianceType::Hipaa);
                push_note_if(r, hipaa, "HIPAA-compliant infrastructure support");
                let ghost q2 = texts(r@);
                let sox = has_compliance(v, ComplianceType::Sox);
                push_note_if(r, sox, "SOX compliance with audit trail capabilities");
                assert(texts(r@) =~= q0 + compliance_reasons(*bp, *c));
            }
        },
    }
    assert(texts(r@) =~= texts(old(r)@) + compliance_reasons(*bp, *c));
}

fn push_language_note(r: &mut Vec<String>, cat: Category, lang: Option<&String>)
    ensures
        texts(final(r)@) == texts(old(r)@) + language_note(cat, opt_text(lang)),
{
    match lang {
        Some(name) => {
            let note = String::from_str("Compatible with ").concat(name.as_str()).concat(" language");
            if cat == Category::Backend {
                push_text(r, note);
            }
        },
        None => {},
    }
    assert(texts(r@) =~= texts(old(r)@) + language_note(cat, opt_text(lang)));
}

fn build_reasons(cat: Category, lang: Option<&String>, c: &Candidate, score: u64, bp: &Blueprint) -> (r: Vec<String>)
    ensures
        texts(r@) == reasons_for(cat, opt_text(lang), *c, score, *bp),
{
    let mut r: Vec<String> = Vec::new();
    assert(texts(r@) =~= Seq::<Seq<char>>::empty());
    push_language_note(&mut r, cat, lang);
    push_note_if(&mut r, score > HIGH_SCORE, "High overall score across all metrics");
    push_note_if(
        &mut r,
        bp.traffic_profile.latency_sensitive && c.metrics.slo > STRONG_METRIC,
        "Excellent performance for latency-sensitive workload",
    );
    push_compliance(&mut r, c, bp);
    let ghost before = texts(r@);
    if c.notes.len() > 0 {
        push_text(&mut r, c.notes[0].clone());
    }
    assert(texts(r@) =~= before + (if c.notes@.len() > 0 {
        seq![c.notes@[0]@]
    } else {
        Seq::empty()
    }));
    assert(texts(r@) =~= applicable_reasons(cat, opt_text(lang), *c, score, *bp));
    if r.len() == 0 {
        let name = cat.name();
        push_text(&mut r, String::from_str("Selected based on optimal ").concat(name.as_str()).concat(" score"));
        assert(texts(r@) =~= seq!["Selected based on optimal "@ + category_name(cat) + " score"@]);
    }
    r
}

/// Selects one candidate of a category: filter, prefer, score, rank, break ties,
/// and explain. Also returns the chosen candidate's position in the catalog.
fn select_best(rules: &Rules, seed: u64, cat: Category, bp: &Blueprint, lang: Option<&String>) -> (r: Result<(Decision, usize), SelectionError>)
    requires
        rules.within_bounds(),
    ensures
        match r {
            Ok((d, i)) => {
                &&& ranked(*rules, cat, *bp, opt_text(lang)).len() > 0
                &&& d@ == decision_of(*rules, seed, cat, *bp, opt_text(lang))
                &&& i == chosen_entry(ranked(*rules, cat, *bp, opt_text(lang)), category_name(cat), seed).0
                &&& i < rules.candidates.spec_of(cat).len()
            },
            Err(e) => ranked(*rules, cat, *bp, opt_text(lang)).len() == 0 && e == SelectionError::NoCandidate(cat),
        },
{
    let ranking = rank(rules, cat, bp, lang);
    if ranking.len() == 0 {
        return Err(SelectionError::NoCandidate(cat));
    }
    let topic = cat.name();
    let entry = choose_entry(&ranking, topic.as_str(), seed);
    let cands = rules.candidates.of(cat);
    let chosen = &cands[entry.0];
    let alternatives = alternatives_list(cands, &ranking, &chosen.name, 3);
    let reasons = build_reasons(cat, lang, chosen, entry.1, bp);
    let d = Decision {
        topic,
        choice: chosen.name.clone(),
        reasons,
        alternatives,
        score: entry.1,
    };
    Ok((d, entry.0))
}

pub proof fn lemma_tied_with_members(s: Seq<(usize, u64)>, top: u64)
    ensures
        forall|j: int| 0 <= j < tied_with(s, top).len() ==> s.contains(#[trigger] tied_with(s, top)[j]),
    decreases s.len(),
{
    if s.len() > 0 {
        let init = s.drop_last();
        lemma_tied_with_members(init, top);
        let t = tied_with(s, top);
        assert forall|j: int| 0 <= j < t.len() implies s.contains(#[trigger] t[j]) by {
            let ti = tied_with(init, top);
            if j < ti.len() {
                assert(t[j] == ti[j]);
                assert(init.contains(ti[j]));
                let m = choose|m: int| 0 <= m < init.len() && init[m] == ti[j];
                assert(s[m] == t[j]);
            } else {
                assert(t[j] == s.last());
                assert(s[s.len() - 1] == t[j]);
            }
        }
    }
}


/// The two best entries of the AI ranking (fewer where fewer exist).
pub open spec fn ai_picks(r: Seq<(usize, u64)>) -> Seq<(usize, u64)> {
    if r.len() < 2 {
        r
    } else {
        r.take(2)
    }
}

/// The next two entries of the AI ranking after the picks.
pub open spec fn ai_alternatives(r: Seq<(usize, u64)>) -> Seq<(usize, u64)> {
    if r.len() <= 2 {
        Seq::empty()
    } else if r.len() < 4 {
        r.skip(2)
    } else {
        r.subrange(2, 4)
    }
}

pub open spec fn names_of(cands: Seq<Candidate>, s: Seq<(usize, u64)>) -> Seq<Seq<char>> {
    s.map_values(|e: (usize, u64)| cands[e.0 as int].name@)
}

/// One or two names, joined by a comma and a space.
pub open spec fn joined(names: Seq<Seq<char>>) -> Seq<char> {
    if names.len() == 0 {
        Seq::empty()
    } else if names.len() == 1 {
        names[0]
    } else {
        names[0] + ", "@ + names[1]
    }
}

/// The AI decision for a non-empty ranking: two picks, two alternatives, the top score.
pub open spec fn ai_decision_of(rules: Rules, bp: Blueprint, lang: Option<Seq<char>>) -> DecisionView {
    let cands = rules.candidates.spec_of(Category::Ai);
    let r = ranked(rules, Category::Ai, bp, lang);
    DecisionView {
        topic: category_name(Category::Ai),
        choice: joined(names_of(cands, ai_picks(r))),
        reasons: seq![
            "Selected based on quality and cost balance"@,
            "Multiple AI providers for redundancy"@,
        ],
        alternatives: names_of(cands, ai_alternatives(r)),
        score: r[0].1,
    }
}

/// The combined base cost of the AI picks.
pub open spec fn ai_cost(cands: Seq<Candidate>, r: Seq<(usize, u64)>) -> int {
    let p = ai_picks(r);
    if p.len() == 0 {
        0
    } else if p.len() == 1 {
        cands[p[0].0 as int].monthly_cost_base as int
    } else {
        cands[p[0].0 as int].monthly_cost_base + cands[p[1].0 as int].monthly_cost_base
    }
}

fn names_list(cands: &Vec<Candidate>, r: &Vec<(usize, u64)>, from: usize, to: usize) -> (out: Vec<String>)
    requires
        from <= to <= r@.len(),
        forall|j: int| 0 <= j < r@.len() ==> r@[j].0 < cands@.len(),
    ensures
        texts(out@) == names_of(cands@, r@.subrange(from as int, to as int)),
{
    let mut out: Vec<String> = Vec::new();
    let mut i: usize = from;
    while i < to
        invariant
            from <= i <= to,
            to <= r@.len(),
            forall|j: int| 0 <= j < r@.len() ==> r@[j].0 < cands@.len(),
            texts(out@) == names_of(cands@, r@.subrange(from as int, i as int)),
        decreases to - i,
    {
        push_text(&mut out, cands[r[i].0].name.clone());
        i += 1;
        assert(names_of(cands@, r@.subrange(from as int, i as int)) =~= names_of(cands@, r@.subrange(from as int, i - 1)).push(cands@[r@[i - 1].0 as int].name@));
    }
    out
}

/// Selects the AI providers: the two best admissible candidates. Returns the
/// decision, the chosen names and their combined base cost.
fn select_ai(rules: &Rules, bp: &Blueprint, lang: Option<&String>) -> (r: Result<(Decision, Vec<String>, u64), SelectionError>)
    requires
        rules.within_bounds(),
    ensures
        match r {
            Ok((d, names, cost)) => {
                let rk = ranked(*rules, Category::Ai, *bp, opt_text(lang));
                &&& rk.len() > 0
                &&& d@ == ai_decision_of(*rules, *bp, opt_text(lang))
                &&& texts(names@) == names_of(rules.candidates.spec_of(Category::Ai), ai_picks(rk))
                &&& cost == ai_cost(rules.candidates.spec_of(Category::Ai), rk)
                &&& cost <= 2 * MAX_COST
            },
            Err(e) => ranked(*rules, Category::Ai, *bp, opt_text(lang)).len() == 0 && e
                == SelectionError::NoCandidate(Category::Ai),
        },
{
    let ranking = rank(rules, Category::Ai, bp, lang);
    if ranking.len() == 0 {
        return Err(SelectionError::NoCandidate(Category::Ai));
    }
    let cands = rules.candidates.of(Category::Ai);
    let n = ranking.len();
    let picks_end: usize = if n < 2 { n } else { 2 };
    let alt_end: usize = if n < 4 { n } else { 4 };
    let alt_start: usize = if n < 2 { n } else { 2 };
    let names = names_list(cands, &ranking, 0, picks_end);
    let alternatives = names_list(cands, &ranking, alt_start, alt_end);
    assert(texts(names@).len() == names@.len());
    assert(names@.len() == picks_end);
    proof {
        assert(ranking@.subrange(0, picks_end as int) =~= ai_picks(ranking@));
        assert(ranking@.subrange(alt_start as int, alt_end as int) =~= ai_alternatives(ranking@));
    }
    let choice = if names.len() == 1 {
        names[0].clone()
    } else {
        names[0].clone().concat(", ").concat(names[1].as_str())
    };
    let mut reasons: Vec<String> = Vec::new();
    push_text(&mut reasons, String::from_str("Selected based on quality and cost balance"));
    push_text(&mut reasons, String::from_str("Multiple AI providers for redundancy"));
    proof {
        assert(texts(reasons@) =~= seq![
            "Selected based on quality and cost balance"@,
            "Multiple AI providers for redundancy"@,
        ]);
    }
    assert(candidate_bounded(rules.candidates.spec_of(Category::Ai)[ranking@[0].0 as int]));
    let mut cost: u64 = cands[ranking[0].0].monthly_cost_base;
    if n >= 2 {
        assert(crate::rules::candidate_bounded(rules.candidates.spec_of(Category::Ai)[ranking@[1].0 as int]));
        cost = cost + cands[ranking[1].0].monthly_cost_base;
    }
    let d = Decision {
        topic: Category::Ai.name(),
        choice,
        reasons,
        alternatives,
        score: ranking[0].1,
    };
    Ok((d, names, cost))
}


/// The categories in the order in which they are resolved.
pub open spec fn category_at(k: int) -> Category {
    if k == 0 {
        Category::Language
    } else if k == 1 {
        Category::Backend
    } else if k == 2 {
        Category::Frontend
    } else if k == 3 {
        Category::Database
    } else if k == 4 {
        Category::Cache
    } else if k == 5 {
        Category::Queue
    } else if k == 6 {
        Category::Ai
    } else if k == 7 {
        Category::Infra
    } else {
        Category::CiCd
    }
}

/// The name of the chosen language.
pub open spec fn language_choice(rules: Rules, seed: u64, bp: Blueprint) -> Seq<char> {
    let e = chosen_entry(
        ranked(rules, Category::Language, bp, None),
        category_name(Category::Language),
        seed,
    );
    rules.candidates.spec_of(Category::Language)[e.0 as int].name@
}

/// The language that a category is filtered against: none for the language itself.
pub open spec fn context_of(rules: Rules, seed: u64, bp: Blueprint, cat: Category) -> Option<Seq<char>> {
    if cat == Category::Language {
        None
    } else {
        Some(language_choice(rules, seed, bp))
    }
}

/// A category's ranking within a whole selection.
pub open spec fn ranking_of(rules: Rules, seed: u64, bp: Blueprint, cat: Category) -> Seq<(usize, u64)> {
    ranked(rules, cat, bp, context_of(rules, seed, bp, cat))
}

/// The first category, from position `k` on, that has no candidate left.
pub open spec fn first_empty(rules: Rules, seed: u64, bp: Blueprint, k: int) -> Option<Category>
    decreases 9 - k,
{
    if k >= 9 {
        None
    } else if ranking_of(rules, seed, bp, category_at(k)).len() == 0 {
        Some(category_at(k))
    } else {
        first_empty(rules, seed, bp, k + 1)
    }
}

/// The chosen candidate of a single-choice category.
pub open spec fn chosen_of(rules: Rules, seed: u64, bp: Blueprint, cat: Category) -> Candidate {
    let e = chosen_entry(ranking_of(rules, seed, bp, cat), category_name(cat), seed);
    rules.candidates.spec_of(cat)[e.0 as int]
}

/// The base cost that a category adds: its chosen candidate's, or both AI picks'.
pub open spec fn cost_of(rules: Rules, seed: u64, bp: Blueprint, cat: Category) -> int {
    if cat == Category::Ai {
        ai_cost(rules.candidates.spec_of(Category::Ai), ranking_of(rules, seed, bp, Category::Ai))
    } else {
        chosen_of(rules, seed, bp, cat).monthly_cost_base as int
    }
}

/// The base cost of every chosen candidate, summed.
pub open spec fn total_cost(rules: Rules, seed: u64, bp: Blueprint) -> int {
    cost_of(rules, seed, bp, category_at(0)) + cost_of(rules, seed, bp, category_at(1)) + cost_of(
        rules,
        seed,
        bp,
        category_at(2),
    ) + cost_of(rules, seed, bp, category_at(3)) + cost_of(rules, seed, bp, category_at(4))
        + cost_of(rules, seed, bp, category_at(5)) + cost_of(rules, seed, bp, category_at(6))
        + cost_of(rules, seed, bp, category_at(7)) + cost_of(rules, seed, bp, category_at(8))
}

/// Whether a total respects the blueprint's cap.
pub open spec fn within_cap(bp: Blueprint, total: int) -> bool {
    match bp.constraints.monthly_cost_usd_max {
        None => true,
        Some(cap) => total <= cap,
    }
}

/// The decision of a category within a whole selection.
pub open spec fn decision_for(rules: Rules, seed: u64, bp: Blueprint, cat: Category) -> DecisionView {
    if cat == Category::Ai {
        ai_decision_of(rules, bp, context_of(rules, seed, bp, cat))
    } else {
        decision_of(rules, seed, cat, bp, context_of(rules, seed, bp, cat))
    }
}

/// Each category's position in resolution order, with its decision's score.
pub open spec fn decision_keys(rules: Rules, seed: u64, bp: Blueprint) -> Seq<(usize, u64)> {
    Seq::new(9, |k: int| (k as usize, decision_for(rules, seed, bp, category_at(k)).score))
}

/// The decisions, sorted by score, highest first, ties in resolution order.
pub open spec fn plan_decisions(rules: Rules, seed: u64, bp: Blueprint) -> Seq<DecisionView> {
    sort_desc(decision_keys(rules, seed, bp)).map_values(
        |e: (usize, u64)| decision_for(rules, seed, bp, category_at(e.0 as int)),
    )
}

/// The resolved stack.
pub open spec fn stack_of(rules: Rules, seed: u64, bp: Blueprint) -> StackView {
    StackView {
        language: chosen_of(rules, seed, bp, Category::Language).name@,
        frontend: chosen_of(rules, seed, bp, Category::Frontend).name@,
        backend: chosen_of(rules, seed, bp, Category::Backend).name@,
        database: chosen_of(rules, seed, bp, Category::Database).name@,
        cache: chosen_of(rules, seed, bp, Category::Cache).name@,
        queue: chosen_of(rules, seed, bp, Category::Queue).name@,
        ai: names_of(
            rules.candidates.spec_of(Category::Ai),
            ai_picks(ranking_of(rules, seed, bp, Category::Ai)),
        ),
        infra: chosen_of(rules, seed, bp, Category::Infra).name@,
        ci_cd: chosen_of(rules, seed, bp, Category::CiCd).name@,
    }
}

/// The plan with its own fingerprint still blank.
pub open spec fn draft_plan(rules: Rules, seed: u64, bp: Blueprint) -> PlanView {
    PlanView {
        decisions: plan_decisions(rules, seed, bp),
        stack: stack_of(rules, seed, bp),
        monthly_cost: total_cost(rules, seed, bp) as u64,
        seed,
        blueprint_hash: fingerprint_of(encode_utf8(blueprint_text(bp))),
        plan_hash: Seq::empty(),
    }
}

/// The plan of a successful selection: the draft, with the fingerprint of its text.
pub open spec fn plan_of(rules: Rules, seed: u64, bp: Blueprint) -> PlanView {
    let d = draft_plan(rules, seed, bp);
    PlanView { plan_hash: fingerprint_of(encode_utf8(plan_text(d))), ..d }
}

/// The outcome of a selection: the first category left without candidates, the
/// budget, or the plan.
pub open spec fn selection(rules: Rules, seed: u64, bp: Blueprint) -> Result<PlanView, SelectionError> {
    match first_empty(rules, seed, bp, 0) {
        Some(c) => Err(SelectionError::NoCandidate(c)),
        None => if within_cap(bp, total_cost(rules, seed, bp)) {
            Ok(plan_of(rules, seed, bp))
        } else {
            Err(
                SelectionError::BudgetExceeded {
                    cap: bp.constraints.monthly_cost_usd_max->Some_0,
                    total: total_cost(rules, seed, bp) as u64,
                },
            )
        },
    }
}

fn copy_texts(v: &Vec<String>) -> (r: Vec<String>)
    ensures
        texts(r@) == texts(v@),
{
    let mut r: Vec<String> = Vec::new();
    let mut i: usize = 0;
    while i < v.len()
        invariant
            i <= v@.len(),
            texts(r@) == texts(v@.take(i as int)),
        decreases v@.len() - i,
    {
        push_text(&mut r, v[i].clone());
        i += 1;
        assert(texts(v@.take(i as int)) =~= texts(v@.take(i - 1)).push(v@[i - 1]@));
    }
    assert(v@.take(i as int) =~= v@);
    r
}

fn copy_decision(d: &Decision) -> (r: Decision)
    ensures
        r@ == d@,
{
    Decision {
        topic: d.topic.clone(),
        choice: d.choice.clone(),
        reasons: copy_texts(&d.reasons),
        alternatives: copy_texts(&d.alternatives),
        score: d.score,
    }
}

fn list_within_bounds(list: &Vec<Candidate>) -> (r: bool)
    ensures
        r == (forall|i: int| 0 <= i < list@.len() ==> candidate_bounded(#[trigger] list@[i])),
{
    let mut i: usize = 0;
    while i < list.len()
        invariant
            i <= list@.len(),
            forall|k: int| 0 <= k < i ==> candidate_bounded(#[trigger] list@[k]),
        decreases list@.len() - i,
    {
        let m = &list[i].metrics;
        if m.quality > MAX_FACTOR || m.slo > MAX_FACTOR || m.cost > MAX_FACTOR || m.security > MAX_FACTOR
            || m.ops > MAX_FACTOR || list[i].monthly_cost_base > MAX_COST {
            return false;
        }
        i += 1;
    }
    true
}

proof fn lemma_out_of_bounds(rules: Rules, cat: Category, i: int)
    requires
        0 <= i < rules.candidates.spec_of(cat).len(),
        !candidate_bounded(rules.candidates.spec_of(cat)[i]),
    ensures
        !rules.within_bounds(),
{
}

fn category_within_bounds(rules: &Rules, cat: Category) -> (r: bool)
    ensures
        r == (forall|i: int|
            0 <= i < rules.candidates.spec_of(cat).len() ==> candidate_bounded(
                #[trigger] rules.candidates.spec_of(cat)[i],
            )),
{
    let list = rules.candidates.of(cat);
    let ok = list_within_bounds(list);
    proof {
        if !ok {
            let i = choose|i: int| 0 <= i < list@.len() && !candidate_bounded(#[trigger] list@[i]);
            assert(rules.candidates.spec_of(cat)[i] == list@[i]);
        }
    }
    ok
}

fn rules_within_bounds(rules: &Rules) -> (r: bool)
    ensures
        r == rules.within_bounds(),
{
    let w = &rules.weights;
    if w.quality > MAX_FACTOR || w.slo > MAX_FACTOR || w.cost > MAX_FACTOR || w.security > MAX_FACTOR
        || w.ops > MAX_FACTOR {
        return false;
    }
    let cats = [
        Category::Language,
        Category::Backend,
        Category::Frontend,
        Category::Database,
        Category::Cache,
        Category::Queue,
        Category::Ai,
        Category::Infra,
        Category::CiCd,
    ];
    let mut k: usize = 0;
    while k < 9
        invariant
            k <= 9,
            cats@ == seq![
                Category::Language,
                Category::Backend,
                Category::Frontend,
                Category::Database,
                Category::Cache,
                Category::Queue,
                Category::Ai,
                Category::Infra,
                Category::CiCd,
            ],
            forall|j: int, i: int|
                0 <= j < k && 0 <= i < rules.candidates.spec_of(cats@[j]).len() ==> candidate_bounded(
                    #[trigger] rules.candidates.spec_of(cats@[j])[i],
                ),
        decreases 9 - k,
    {
        if !category_within_bounds(rules, cats[k]) {
            proof {
                let cat = cats@[k as int];
                let i = choose|i: int|
                    0 <= i < rules.candidates.spec_of(cat).len() && !candidate_bounded(
                        #[trigger] rules.candidates.spec_of(cat)[i],
                    );
                lemma_out_of_bounds(*rules, cat, i);
            }
            return false;
        }
        k += 1;
    }
    proof {
        assert forall|cat: Category, i: int|
            0 <= i < rules.candidates.spec_of(cat).len() implies candidate_bounded(
            #[trigger] rules.candidates.spec_of(cat)[i],
        ) by {
            let j: int = match cat {
                Category::Language => 0,
                Category::Backend => 1,
                Category::Frontend => 2,
                Category::Database => 3,
                Category::Cache => 4,
                Category::Queue => 5,
                Category::Ai => 6,
                Category::Infra => 7,
                Category::CiCd => 8,
            };
            assert(cats@[j] == cat);
        }
    }
    true
}

/// The cost that a chosen single candidate adds, read from the catalog.
fn chosen_cost(rules: &Rules, cat: Category, i: usize) -> (r: u64)
    requires
        rules.within_bounds(),
        i < rules.candidates.spec_of(cat).len(),
    ensures
        r == rules.candidates.spec_of(cat)[i as int].monthly_cost_base,
        r <= MAX_COST,
{
    assert(candidate_bounded(rules.candidates.spec_of(cat)[i as int]));
    rules.candidates.of(cat)[i].monthly_cost_base
}

/// Resolves every category in order: the decisions in resolution order, the
/// stack and the summed base cost.
#[verifier::rlimit(60)]
fn resolve(rules: &Rules, seed: u64, bp: &Blueprint) -> (r: Result<(Vec<Decision>, Stack, u64), SelectionError>)
    requires
        rules.within_bounds(),
    ensures
        match r {
            Ok((ds, st, total)) => {
                &&& first_empty(*rules, seed, *bp, 0) is None
                &&& ds@.len() == 9
                &&& forall|k: int| 0 <= k < 9 ==> (#[trigger] ds@[k])@ == decision_for(*rules, seed, *bp, category_at(k))
                &&& st@ == stack_of(*rules, seed, *bp)
                &&& st.services is None
                &&& total == total_cost(*rules, seed, *bp)
            },
            Err(e) => first_empty(*rules, seed, *bp, 0) == Some(e->NoCandidate_0) && e is NoCandidate,
        },
{
    proof {
        reveal_with_fuel(first_empty, 10);
    }
    let ghost g = *rules;
    let ghost b = *bp;
    let (language, li) = match select_best(rules, seed, Category::Language, bp, None) {
        Ok(x) => x,
        Err(e) => return Err(e),
    };
    let lang = language.choice.clone();
    assert(lang@ == language_choice(g, seed, b));
    let (backend, bi) = match select_best(rules, seed, Category::Backend, bp, Some(&lang)) {
        Ok(x) => x,
        Err(e) => return Err(e),
    };
    let (frontend, fi) = match select_best(rules, seed, Category::Frontend, bp, Some(&lang)) {
        Ok(x) => x,
        Err(e) => return Err(e),
    };
    let (database, di) = match select_best(rules, seed, Category::Database, bp, Some(&lang)) {
        Ok(x) => x,
        Err(e) => return Err(e),
    };
    let (cache, ci) = match select_best(rules, seed, Category::Cache, bp, Some(&lang)) {
        Ok(x) => x,
        Err(e) => return Err(e),
    };
    let (queue, qi) = match select_best(rules, seed, Category::Queue, bp, Some(&lang)) {
        Ok(x) => x,
        Err(e) => return Err(e),
    };
    let (ai, ai_names, ai_total) = match select_ai(rules, bp, Some(&lang)) {
        Ok(x) => x,
        Err(e) => return Err(e),
    };
    let (infra, ii) = match select_best(rules, seed, Category::Infra, bp, Some(&lang)) {
        Ok(x) => x,
        Err(e) => return Err(e),
    };
    let (ci_cd, ki) = match select_best(rules, seed, Category::CiCd, bp, Some(&lang)) {
        Ok(x) => x,
        Err(e) => return Err(e),
    };
    let total = chosen_cost(rules, Category::Language, li) + chosen_cost(rules, Category::Backend, bi)
        + chosen_cost(rules, Category::Frontend, fi) + chosen_cost(rules, Category::Database, di)
        + chosen_cost(rules, Category::Cache, ci) + chosen_cost(rules, Category::Queue, qi) + ai_total
        + chosen_cost(rules, Category::Infra, ii) + chosen_cost(rules, Category::CiCd, ki);
    let stack = Stack {
        language: lang,
        services: None,
        frontend: frontend.choice.clone(),
        backend: backend.choice.clone(),
        database: database.choice.clone(),
        cache: cache.choice.clone(),
        queue: queue.choice.clone(),
        ai: ai_names,
        infra: infra.choice.clone(),
        ci_cd: ci_cd.choice.clone(),
    };
    let mut ds: Vec<Decision> = Vec::new();
    ds.push(language);
    ds.push(backend);
    ds.push(frontend);
    ds.push(database);
    ds.push(cache);
    ds.push(queue);
    ds.push(ai);
    ds.push(infra);
    ds.push(ci_cd);
    proof {
        assert forall|k: int| 0 <= k < 9 implies (#[trigger] ds@[k])@ == decision_for(g, seed, b, category_at(k)) by {
        }
    }
    Ok((ds, stack, total))
}

/// The selection engine: a catalog whose numbers lie within bounds, and a run seed.
pub struct Selector {
    rules: Rules,
    seed: u64,
}

impl Selector {
    #[verifier::type_invariant]
    spec fn bounded(&self) -> bool {
        self.rules.wf()
    }

    pub closed spec fn spec_rules(&self) -> Rules {
        self.rules
    }

    pub closed spec fn spec_seed(&self) -> u64 {
        self.seed
    }

    /// An engine over a catalog; refused where a number of the catalog is out of
    /// bounds or two compliance requirements share a name.
    ///
    /// The weights are taken as given: they are not required to sum to 1, and
    /// scores are always divided by the fixed 1.15 (see `SCORE_DENOM`). Where the
    /// weights sum to more than 1 a score may exceed 1; the bound on scores is
    /// stated for weights summing to at most 1.
    pub fn new(rules: Rules, seed: u64) -> (r: Result<Selector, String>)
        ensures
            match r {
                Ok(s) => s.spec_rules() == rules && s.spec_seed() == seed,
                Err(_) => !rules.wf(),
            },
            r is Ok <==> rules.wf(),
    {
        if !rules_within_bounds(&rules) {
            Err(String::from_str("Failed to load rules: a metric, weight or cost is out of range"))
        } else if !rules.compliance_names_unique() {
            Err(String::from_str("Failed to load rules: two compliance requirements share a name"))
        } else {
            Ok(Selector { rules, seed })
        }
    }

    /// Selects a stack for a blueprint: every category in order, the budget, the
    /// decisions ranked by score and the two fingerprints. The outcome is fixed by
    /// the catalog, the seed and the blueprint.
    pub fn select(&self, blueprint: &Blueprint) -> (r: Result<StackPlan, SelectionError>)
        ensures
            match r {
                Ok(p) => selection(self.spec_rules(), self.spec_seed(), *blueprint) == Ok::<
                    PlanView,
                    SelectionError,
                >(p@),
                Err(e) => selection(self.spec_rules(), self.spec_seed(), *blueprint) == Err::<
                    PlanView,
                    SelectionError,
                >(e),
            },
            r matches Ok(p) ==> p.estimated.egress_gb is None && p.estimated.notes is None
                && p.stack.services is None,
    {
        proof {
            use_type_invariant(self);
        }
        let ghost g = self.rules;
        let ghost b = *blueprint;
        let seed = self.seed;
        let (ds, stack, total) = match resolve(&self.rules, seed, blueprint) {
            Ok(x) => x,
            Err(e) => return Err(e),
        };
        match blueprint.constraints.monthly_cost_usd_max {
            Some(cap) => {
                if total > cap {
                    return Err(SelectionError::BudgetExceeded { cap, total });
                }
            },
            None => {},
        }
        let mut keys: Vec<(usize, u64)> = Vec::new();
        let mut k: usize = 0;
        while k < 9
            invariant
                k <= 9,
                ds@.len() == 9,
                forall|j: int| 0 <= j < 9 ==> (#[trigger] ds@[j])@ == decision_for(g, seed, b, category_at(j)),
                keys@ == decision_keys(g, seed, b).take(k as int),
            decreases 9 - k,
        {
            keys.push((k, ds[k].score));
            k += 1;
            assert(keys@ =~= decision_keys(g, seed, b).take(k as int));
        }
        assert(decision_keys(g, seed, b).take(9) =~= decision_keys(g, seed, b));
        let order = sort_scored(&keys);
        proof {
            lemma_sort_desc(keys@);
        }
        let ghost want = plan_decisions(g, seed, b);
        assert(want.len() == 9);
        let mut decisions: Vec<Decision> = Vec::new();
        let mut i: usize = 0;
        while i < order.len()
            invariant
                i <= order@.len(),
                order@ == sort_desc(decision_keys(g, seed, b)),
                order@.len() == 9,
                want == plan_decisions(g, seed, b),
                want.len() == 9,
                ds@.len() == 9,
                keys@ == decision_keys(g, seed, b),
                forall|y: (usize, u64)| order@.contains(y) <==> keys@.contains(y),
                forall|j: int| 0 <= j < 9 ==> (#[trigger] ds@[j])@ == decision_for(g, seed, b, category_at(j)),
                decisions@.map_values(|d: Decision| d@) == want.take(i as int),
            decreases order@.len() - i,
        {
            let e = order[i];
            assert(order@[i as int] == e);
            assert(order@.contains(e));
            assert(keys@.contains(e));
            let ghost m = choose|m: int| 0 <= m < keys@.len() && keys@[m] == e;
            assert(e.0 < 9);
            assert(want[i as int] == decision_for(g, seed, b, category_at(e.0 as int)));
            assert(ds@[e.0 as int]@ == decision_for(g, seed, b, category_at(e.0 as int)));
            let ghost before = decisions@.map_values(|d: Decision| d@);
            decisions.push(copy_decision(&ds[e.0]));
            assert(decisions@.map_values(|d: Decision| d@) =~= before.push(want[i as int]));
            i += 1;
            assert(decisions@.map_values(|d: Decision| d@) =~= want.take(i as int));
        }
        assert(want.take(9) =~= want);
        let bp_text = blueprint.canonical_text();
        let blueprint_hash = fingerprint(bp_text.as_str().as_bytes());
        let mut plan = StackPlan {
            decisions,
            stack,
            estimated: Estimated { monthly_cost_usd: total, egress_gb: None, notes: None },
            meta: Meta { seed, blueprint_hash, plan_hash: String::new() },
        };
        assert(plan@.decisions == want);
        assert(plan@ == draft_plan(g, seed, b));
        let text = plan.canonical_text();
        let plan_hash = fingerprint(text.as_str().as_bytes());
        plan.meta.plan_hash = plan_hash;
        assert(plan@ == plan_of(g, seed, b));
        Ok(plan)
    }

    /// The run seed.
    pub fn seed(&self) -> (r: u64)
        ensures
            r == self.spec_seed(),
    {
        self.seed
    }

    /// The engine's catalog.
    pub fn rules(&self) -> (r: &Rules)
        ensures
            *r == self.spec_rules(),
            r.wf(),
    {
        proof {
            use_type_invariant(self);
        }
        &self.rules
    }
}

} // verus!
