//! Removing tokens from argument values, and spreading a token budget over the
//! arguments that may be shortened.

use crate::args::{
    drop_empty, is_empty_scalar, lemma_array_view, lemma_position_of_unique, position_of, views, ArgModel, ArgValue,
    TemplateArgs,
};
use crate::context::{truncate_at, truncated, ArrayTrimPriority, ContextOptions, OverflowKeep};
use crate::encoding::{spans_fit, Encoding, TextTokenizer};
use crate::error::Error;
use vstd::prelude::*;

verus! {

/// The token encodings of every string inside an argument value, in the value's shape.
pub enum Measure {
    Scalar(Encoding),
    Array(Vec<Measure>),
    Other,
}

/// Whether `m` holds an encoding of each string of `v`, in `v`'s shape.
pub open spec fn measures(v: ArgModel, m: Measure) -> bool
    decreases m,
{
    match v {
        ArgModel::Scalar(s) => match m {
            Measure::Scalar(e) => spans_fit(e.spans(), s),
            _ => false,
        },
        ArgModel::Array(vs) => match m {
            Measure::Array(ms) => vs.len() == ms@.len() && forall|i: int|
                0 <= i < vs.len() ==> measures(#[trigger] vs[i], ms@[i]),
            _ => false,
        },
        ArgModel::Other(_) => m is Other,
    }
}

/// The larger of `a - b` and zero.
pub open spec fn minus(a: nat, b: nat) -> nat {
    if a <= b {
        0
    } else {
        (a - b) as nat
    }
}

/// `a + b`, held at the largest `usize`.
pub open spec fn sat_add(a: nat, b: nat) -> nat {
    if a + b > usize::MAX {
        usize::MAX as nat
    } else {
        a + b
    }
}

/// Removing `to_trim` tokens from a string with the token spans `spans`: where it
/// has more tokens, what remains when `len - to_trim` of them stay, and
/// `to_trim`; otherwise the empty string and the number of tokens it had.
pub open spec fn trim_scalar_spec(
    to_trim: nat,
    keep: OverflowKeep,
    s: Seq<char>,
    spans: Seq<(usize, usize)>,
) -> (Seq<char>, nat) {
    if spans.len() > to_trim {
        (truncated((spans.len() - to_trim) as nat, keep, s, spans), to_trim)
    } else {
        (Seq::empty(), spans.len())
    }
}

/// The tokens of a measured string; nothing for any other value.
pub open spec fn scalar_tokens(m: Measure) -> nat {
    match m {
        Measure::Scalar(e) => e.spans().len(),
        _ => 0,
    }
}

/// The tokens of the strings among the first `n` measures.
pub open spec fn sum_scalar_tokens(ms: Seq<Measure>, n: nat) -> nat
    decreases n,
{
    if n == 0 || n > ms.len() {
        0
    } else {
        sum_scalar_tokens(ms, (n - 1) as nat) + scalar_tokens(ms[n - 1])
    }
}

/// `tokens * to_trim / total`, rounded to the nearest integer, halves up.
pub open spec fn share(tokens: nat, to_trim: nat, total: nat) -> nat {
    if total == 0 {
        0
    } else {
        (tokens * to_trim) / total + if 2 * ((tokens * to_trim) % total) >= total {
            1nat
        } else {
            0nat
        }
    }
}

/// Removing `to_trim` tokens from an argument value measured by `m`, under the
/// given policies: the value that remains and the number of tokens removed.
/// A string loses tokens from the side that `keep` does not keep, or goes
/// whole. A list walks its elements from the back (`First`) or the front
/// (`Last`) until the budget is spent, or takes from each string element its
/// rounded share of the budget (`Equal`); then its empty strings are dropped.
/// Any other value is left alone.
pub open spec fn trim_value_spec(
    to_trim: nat,
    keep: OverflowKeep,
    prio: ArrayTrimPriority,
    v: ArgModel,
    m: Measure,
) -> (ArgModel, nat)
    decreases m, 0nat, 0nat,
{
    if to_trim == 0 {
        (v, 0)
    } else {
        match v {
            ArgModel::Scalar(s) => match m {
                Measure::Scalar(e) => {
                    let (ns, r) = trim_scalar_spec(to_trim, keep, s, e.spans());
                    (ArgModel::Scalar(ns), r)
                },
                _ => (v, 0),
            },
            ArgModel::Array(vs) => match m {
                Measure::Array(ms) => {
                    if vs.len() == ms@.len() {
                        let (nvs, r) = match prio {
                            ArrayTrimPriority::First => walk_back(
                                to_trim,
                                0,
                                keep,
                                prio,
                                vs,
                                ms@,
                                vs.len(),
                            ),
                            ArrayTrimPriority::Last => walk_front(
                                to_trim,
                                0,
                                keep,
                                prio,
                                vs,
                                ms@,
                                0,
                            ),
                            ArrayTrimPriority::Equal => walk_equal(
                                to_trim,
                                sum_scalar_tokens(ms@, ms@.len()),
                                0,
                                keep,
                                vs,
                                ms@,
                                0,
                            ),
                        };
                        (ArgModel::Array(drop_empty(nvs)), r)
                    } else {
                        (v, 0)
                    }
                },
                _ => (v, 0),
            },
            ArgModel::Other(_) => (v, 0),
        }
    }
}

/// The elements before `i` are walked from the back while `remaining` is
/// positive; `removed` counts what went so far.
pub open spec fn walk_back(
    remaining: nat,
    removed: nat,
    keep: OverflowKeep,
    prio: ArrayTrimPriority,
    vs: Seq<ArgModel>,
    ms: Seq<Measure>,
    i: nat,
) -> (Seq<ArgModel>, nat)
    decreases ms, i, 0nat,
{
    if i == 0 || i > ms.len() || remaining == 0 {
        (vs, removed)
    } else {
        let (nv, t) = trim_value_spec(remaining, keep, prio, vs[i - 1], ms[i - 1]);
        walk_back(
            minus(remaining, t),
            sat_add(removed, t),
            keep,
            prio,
            vs.update(i - 1, nv),
            ms,
            (i - 1) as nat,
        )
    }
}

/// The elements from `i` on are walked from the front while `remaining` is
/// positive; `removed` counts what went so far.
pub open spec fn walk_front(
    remaining: nat,
    removed: nat,
    keep: OverflowKeep,
    prio: ArrayTrimPriority,
    vs: Seq<ArgModel>,
    ms: Seq<Measure>,
    i: nat,
) -> (Seq<ArgModel>, nat)
    decreases ms, ms.len() - i, 0nat,
{
    if i >= ms.len() || remaining == 0 {
        (vs, removed)
    } else {
        let (nv, t) = trim_value_spec(remaining, keep, prio, vs[i as int], ms[i as int]);
        walk_front(
            minus(remaining, t),
            sat_add(removed, t),
            keep,
            prio,
            vs.update(i as int, nv),
            ms,
            i + 1,
        )
    }
}

/// One element under the `Equal` policy: a string loses its share of `to_trim`.
pub open spec fn equal_step(
    to_trim: nat,
    total: nat,
    keep: OverflowKeep,
    v: ArgModel,
    m: Measure,
) -> (ArgModel, nat) {
    let this = share(scalar_tokens(m), to_trim, total);
    if this > 0 {
        match (v, m) {
            (ArgModel::Scalar(s), Measure::Scalar(e)) => {
                let (ns, r) = trim_scalar_spec(this, keep, s, e.spans());
                (ArgModel::Scalar(ns), r)
            },
            _ => (v, 0),
        }
    } else {
        (v, 0)
    }
}

/// The elements from `i` on, each losing its share of `to_trim` out of `total`.
pub open spec fn walk_equal(
    to_trim: nat,
    total: nat,
    removed: nat,
    keep: OverflowKeep,
    vs: Seq<ArgModel>,
    ms: Seq<Measure>,
    i: nat,
) -> (Seq<ArgModel>, nat)
    decreases ms.len() - i,
{
    if i >= ms.len() {
        (vs, removed)
    } else {
        let (nv, t) = equal_step(to_trim, total, keep, vs[i as int], ms[i as int]);
        walk_equal(to_trim, total, sat_add(removed, t), keep, vs.update(i as int, nv), ms, i + 1)
    }
}

/// A value without tokens has no share of the budget.
proof fn lemma_share_of_nothing(to_trim: nat, total: nat)
    ensures
        share(0, to_trim, total) == 0,
{
    if total > 0 {
        assert(0 * to_trim == 0) by (nonlinear_arith);
        assert(0nat / total == 0) by (nonlinear_arith)
            requires
                total > 0,
        ;
        assert(0nat % total == 0) by (nonlinear_arith)
            requires
                total > 0,
        ;
    }
}

/// Remove `to_trim` tokens from the string `s`, whose encoding is `e`.
pub fn trim_scalar(to_trim: usize, keep: OverflowKeep, s: String, e: &Encoding) -> (r: (String, usize))
    requires
        spans_fit(e.spans(), s@),
    ensures
        (r.0@, r.1 as nat) == trim_scalar_spec(to_trim as nat, keep, s@, e.spans()),
{
    let n = e.len();
    if n > to_trim {
        let kept = truncate_at(n - to_trim, keep, s.as_str(), e);
        (kept.to_owned(), to_trim)
    } else {
        (String::new(), n)
    }
}

/// The elements of `vs` that are not empty strings, in order.
fn drop_empty_vec(vs: Vec<ArgValue>) -> (r: Vec<ArgValue>)
    ensures
        views(r@) == drop_empty(views(vs@)),
{
    let ghost orig = views(vs@);
    let mut vs = vs;
    let mut out: Vec<ArgValue> = Vec::new();
    assert(views(out@) + drop_empty(views(vs@)) =~= drop_empty(orig));
    while vs.len() > 0
        invariant
            views(out@) + drop_empty(views(vs@)) == drop_empty(orig),
        decreases vs.len(),
    {
        let ghost before = vs@;
        let x = vs.remove(0);
        proof {
            assert(views(before)[0] == x@);
            assert(views(before).drop_first() =~= views(vs@));
        }
        let ghost out_before = out@;
        if !x.is_empty_scalar() {
            out.push(x);
            assert(views(out@) =~= views(out_before) + seq![x@]);
            assert(seq![x@] + drop_empty(views(vs@)) == drop_empty(views(before)));
            assert(views(out@) + drop_empty(views(vs@)) =~= views(out_before) + (seq![x@]
                + drop_empty(views(vs@))));
        }
    }
    assert(views(out@) + drop_empty(views(vs@)) =~= views(out@));
    out
}

/// `a + b`, held at the largest `usize`.
fn add_saturating(a: usize, b: usize) -> (r: usize)
    ensures
        r == sat_add(a as nat, b as nat),
{
    if a > usize::MAX - b {
        usize::MAX
    } else {
        a + b
    }
}

/// `tokens * to_trim / total`, rounded to the nearest integer, halves up, and
/// held at `tokens`.
fn share_upto(tokens: usize, to_trim: usize, total: u128) -> (r: usize)
    ensures
        r as nat == (if share(tokens as nat, to_trim as nat, total as nat) < tokens {
            share(tokens as nat, to_trim as nat, total as nat)
        } else {
            tokens as nat
        }),
{
    if total == 0 {
        return 0;
    }
    let m: u128 = 0xffff_ffff_ffff_ffff;
    assert(tokens as u128 * to_trim as u128 <= m * m) by (nonlinear_arith)
        requires
            tokens <= m,
            to_trim <= m,
    ;
    let prod: u128 = tokens as u128 * to_trim as u128;
    let q = prod / total;
    let rem = prod % total;
    let this: u128 = if rem >= total - rem {
        if q >= tokens as u128 {
            q
        } else {
            q + 1
        }
    } else {
        q
    };
    if this < tokens as u128 {
        this as usize
    } else {
        tokens
    }
}

/// Remove `to_trim` tokens from `value`, measured by `m`: the value that remains
/// and the number of tokens removed.
pub fn trim_measured(
    to_trim: usize,
    keep: OverflowKeep,
    prio: ArrayTrimPriority,
    value: ArgValue,
    m: &Measure,
) -> (r: (ArgValue, usize))
    requires
        measures(value@, *m),
    ensures
        (r.0@, r.1 as nat) == trim_value_spec(to_trim as nat, keep, prio, value@, *m),
    decreases m,
{
    if to_trim == 0 {
        return (value, 0);
    }
    match value {
        ArgValue::Scalar(s) => match m {
            Measure::Scalar(e) => {
                let (ns, t) = trim_scalar(to_trim, keep, s, e);
                (ArgValue::Scalar(ns), t)
            },
            _ => (ArgValue::Scalar(s), 0),
        },
        ArgValue::Other(s) => (ArgValue::Other(s), 0),
        ArgValue::Array(vs) => match m {
            Measure::Array(ms) => {
                proof {
                    lemma_array_view(vs);
                }
                let ghost vs0 = views(vs@);
                assert(vs0.len() == ms@.len());
                assert(forall|j: int| 0 <= j < vs@.len() ==> #[trigger] vs0[j] == vs@[j]@);
                assert(measures(ArgModel::Array(vs0), *m));
                assert forall|j: int| 0 <= j < vs@.len() implies measures(#[trigger] vs@[j]@, ms@[j]) by {
                    assert(vs0[j] == vs@[j]@);
                }
                let mut vs = vs;
                let n = vs.len();
                let mut removed: usize = 0;
                match prio {
                    ArrayTrimPriority::First => {
                        let ghost target = walk_back(to_trim as nat, 0, keep, prio, vs0, ms@, n as nat);
                        let mut remaining = to_trim;
                        let mut i = n;
                        while i > 0 && remaining > 0
                            invariant
                                vs.len() == ms.len() == n,
                                i <= n,
                                forall|j: int| 0 <= j < i ==> measures(#[trigger] vs@[j]@, ms@[j]),
                                walk_back(remaining as nat, removed as nat, keep, prio, views(vs@), ms@, i as nat) == target,
                                *m == Measure::Array(*ms),
                            decreases i,
                        {
                            let ghost before = vs@;
                            let e = vs.remove(i - 1);
                            assert(e@ == views(before)[i - 1]);
                            proof {
                                vstd::std_specs::vec::axiom_vec_index_decreases(*ms, i - 1);
                                assert(decreases_to!(*m => (*m)->Array_0));
                            }
                            let (ne, t) = trim_measured(remaining, keep, prio, e, &ms[i - 1]);
                            vs.insert(i - 1, ne);
                            assert(views(vs@) =~= views(before).update(i - 1, ne@));
                            assert(forall|j: int| 0 <= j < i - 1 ==> vs@[j] == before[j]);
                            remaining = if t >= remaining { 0 } else { remaining - t };
                            removed = add_saturating(removed, t);
                            i = i - 1;
                        }
                        let out = drop_empty_vec(vs);
                        proof {
                            lemma_array_view(out);
                        }
                        (ArgValue::Array(out), removed)
                    },
                    ArrayTrimPriority::Last => {
                        let ghost target = walk_front(to_trim as nat, 0, keep, prio, vs0, ms@, 0);
                        let mut remaining = to_trim;
                        let mut i: usize = 0;
                        while i < n && remaining > 0
                            invariant
                                vs.len() == ms.len() == n,
                                i <= n,
                                forall|j: int| i <= j < n ==> measures(#[trigger] vs@[j]@, ms@[j]),
                                walk_front(remaining as nat, removed as nat, keep, prio, views(vs@), ms@, i as nat) == target,
                                *m == Measure::Array(*ms),
                            decreases n - i,
                        {
                            let ghost before = vs@;
                            let e = vs.remove(i);
                            assert(e@ == views(before)[i as int]);
                            proof {
                                vstd::std_specs::vec::axiom_vec_index_decreases(*ms, i as int);
                                assert(decreases_to!(*m => (*m)->Array_0));
                            }
                            let (ne, t) = trim_measured(remaining, keep, prio, e, &ms[i]);
                            vs.insert(i, ne);
                            assert(views(vs@) =~= views(before).update(i as int, ne@));
                            assert(forall|j: int| i < j < n ==> vs@[j] == before[j]);
                            remaining = if t >= remaining { 0 } else { remaining - t };
                            removed = add_saturating(removed, t);
                            i = i + 1;
                        }
                        let out = drop_empty_vec(vs);
                        proof {
                            lemma_array_view(out);
                        }
                        (ArgValue::Array(out), removed)
                    },
                    ArrayTrimPriority::Equal => {
                        let big: u128 = 0xffff_ffff_ffff_ffff;
                        let mut total: u128 = 0;
                        let mut k: usize = 0;
                        while k < n
                            invariant
                                ms.len() == n,
                                k <= n,
                                total as nat == sum_scalar_tokens(ms@, k as nat),
                                total <= k * big,
                                big == 0xffff_ffff_ffff_ffffu128,
                            decreases n - k,
                        {
                            let c: usize = match &ms[k] {
                                Measure::Scalar(e) => e.len(),
                                _ => 0,
                            };
                            assert(c as int <= big as int);
                            assert(k + 1 <= big);
                            assert(total + c <= (k + 1) * big) by (nonlinear_arith)
                                requires
                                    total <= k * big,
                                    c <= big,
                            ;
                            assert((k + 1) * big <= big * big) by (nonlinear_arith)
                                requires
                                    k + 1 <= big,
                            ;
                            total = total + c as u128;
                            k = k + 1;
                        }
                        let ghost target = walk_equal(to_trim as nat, total as nat, 0, keep, vs0, ms@, 0);
                        let mut i: usize = 0;
                        while i < n
                            invariant
                                vs.len() == ms.len() == n,
                                i <= n,
                                forall|j: int| i <= j < n ==> measures(#[trigger] vs@[j]@, ms@[j]),
                                walk_equal(to_trim as nat, total as nat, removed as nat, keep, views(vs@), ms@, i as nat) == target,
                            decreases n - i,
                        {
                            let ghost before = vs@;
                            assert(views(before)[i as int] == before[i as int]@);
                            assert(measures(before[i as int]@, ms@[i as int]));
                            assert(views(before).update(i as int, views(before)[i as int]) =~= views(before));
                            match &ms[i] {
                                Measure::Scalar(enc) => {
                                    let this = share_upto(enc.len(), to_trim, total);
                                    let ghost sh = share(enc.spans().len(), to_trim as nat, total as nat);
                                    if this > 0 {
                                        assert(sh > 0);
                                        let e = vs.remove(i);
                                        match e {
                                            ArgValue::Scalar(s) => {
                                                let (ns, t) = trim_scalar(this, keep, s, enc);
                                                vs.insert(i, ArgValue::Scalar(ns));
                                                assert(equal_step(to_trim as nat, total as nat, keep, views(before)[i as int], ms@[i as int])
                                                    == (ArgModel::Scalar(ns@), t as nat));
                                                assert(views(vs@) =~= views(before).update(i as int, ArgModel::Scalar(ns@)));
                                                removed = add_saturating(removed, t);
                                            },
                                            other => {
                                                vs.insert(i, other);
                                                assert(vs@ =~= before);
                                                assert(equal_step(to_trim as nat, total as nat, keep, views(before)[i as int], ms@[i as int])
                                                    == (views(before)[i as int], 0nat));
                                            },
                                        }
                                    } else {
                                        assert(sh == 0) by {
                                            if enc.spans().len() == 0 {
                                                lemma_share_of_nothing(to_trim as nat, total as nat);
                                            }
                                        }
                                        assert(equal_step(to_trim as nat, total as nat, keep, views(before)[i as int], ms@[i as int])
                                            == (views(before)[i as int], 0nat));
                                    }
                                },
                                _ => {
                                    assert(equal_step(to_trim as nat, total as nat, keep, views(before)[i as int], ms@[i as int])
                                        == (views(before)[i as int], 0nat));
                                },
                            }
                            assert(forall|j: int| i < j < n ==> vs@[j] == before[j]);
                            i = i + 1;
                        }
                        let out = drop_empty_vec(vs);
                        proof {
                            lemma_array_view(out);
                        }
                        (ArgValue::Array(out), removed)
                    },
                }
            },
            _ => (ArgValue::Array(vs), 0),
        },
    }
}

/// Whether every element is a string.
pub open spec fn all_scalars(vs: Seq<ArgModel>) -> bool {
    forall|j: int| 0 <= j < vs.len() ==> #[trigger] vs[j] is Scalar
}

proof fn lemma_walk_back_exact(
    remaining: nat,
    removed: nat,
    keep: OverflowKeep,
    prio: ArrayTrimPriority,
    vs: Seq<ArgModel>,
    ms: Seq<Measure>,
    i: nat,
)
    requires
        i <= ms.len() == vs.len(),
        forall|j: int| 0 <= j < i ==> measures(#[trigger] vs[j], ms[j]),
        forall|j: int| 0 <= j < i ==> #[trigger] vs[j] is Scalar,
        remaining <= sum_scalar_tokens(ms, i),
        removed + remaining <= usize::MAX,
    ensures
        walk_back(remaining, removed, keep, prio, vs, ms, i).1 == removed + remaining,
    decreases i,
{
    if i > 0 && remaining > 0 {
        let (nv, t) = trim_value_spec(remaining, keep, prio, vs[i - 1], ms[i - 1]);
        assert(t <= remaining);
        assert(remaining - t <= sum_scalar_tokens(ms, (i - 1) as nat));
        let nvs = vs.update(i - 1, nv);
        assert forall|j: int| 0 <= j < i - 1 implies measures(#[trigger] nvs[j], ms[j]) && nvs[j] is Scalar by {
            assert(nvs[j] == vs[j]);
        }
        lemma_walk_back_exact(
            minus(remaining, t),
            sat_add(removed, t),
            keep,
            prio,
            nvs,
            ms,
            (i - 1) as nat,
        );
    }
}

proof fn lemma_walk_front_exact(
    remaining: nat,
    removed: nat,
    keep: OverflowKeep,
    prio: ArrayTrimPriority,
    vs: Seq<ArgModel>,
    ms: Seq<Measure>,
    i: nat,
)
    requires
        i <= ms.len() == vs.len(),
        forall|j: int| i <= j < ms.len() ==> measures(#[trigger] vs[j], ms[j]),
        forall|j: int| i <= j < ms.len() ==> #[trigger] vs[j] is Scalar,
        remaining + sum_scalar_tokens(ms, i) <= sum_scalar_tokens(ms, ms.len()),
        removed + remaining <= usize::MAX,
    ensures
        walk_front(remaining, removed, keep, prio, vs, ms, i).1 == removed + remaining,
    decreases ms.len() - i,
{
    if i < ms.len() && remaining > 0 {
        let (nv, t) = trim_value_spec(remaining, keep, prio, vs[i as int], ms[i as int]);
        assert(t <= remaining);
        lemma_sum_step(ms, i);
        lemma_sum_monotone(ms, i + 1, ms.len());
        let nvs = vs.update(i as int, nv);
        assert forall|j: int| i + 1 <= j < ms.len() implies measures(#[trigger] nvs[j], ms[j]) && nvs[j] is Scalar by {
            assert(nvs[j] == vs[j]);
        }
        lemma_walk_front_exact(
            minus(remaining, t),
            sat_add(removed, t),
            keep,
            prio,
            nvs,
            ms,
            i + 1,
        );
    } else if i >= ms.len() {
        assert(remaining == 0);
    }
}

proof fn lemma_sum_monotone(ms: Seq<Measure>, i: nat, n: nat)
    requires
        i <= n <= ms.len(),
    ensures
        sum_scalar_tokens(ms, i) <= sum_scalar_tokens(ms, n),
    decreases n - i,
{
    if i < n {
        lemma_sum_monotone(ms, i, (n - 1) as nat);
    }
}

proof fn lemma_sum_step(ms: Seq<Measure>, i: nat)
    requires
        i < ms.len(),
    ensures
        sum_scalar_tokens(ms, i + 1) == sum_scalar_tokens(ms, i) + scalar_tokens(ms[i as int]),
{
}

/// Under the `First` and `Last` policies, a list of strings that has at least
/// `to_trim` tokens loses exactly `to_trim` of them.
pub proof fn lemma_list_trim_exact(
    to_trim: nat,
    keep: OverflowKeep,
    prio: ArrayTrimPriority,
    vs: Seq<ArgModel>,
    ms: Vec<Measure>,
)
    requires
        prio != ArrayTrimPriority::Equal,
        0 < to_trim <= usize::MAX,
        measures(ArgModel::Array(vs), Measure::Array(ms)),
        all_scalars(vs),
        to_trim <= sum_scalar_tokens(ms@, ms@.len()),
    ensures
        trim_value_spec(to_trim, keep, prio, ArgModel::Array(vs), Measure::Array(ms)).1 == to_trim,
{
    if prio == ArrayTrimPriority::First {
        lemma_walk_back_exact(to_trim, 0, keep, prio, vs, ms@, vs.len());
    } else {
        lemma_walk_front_exact(to_trim, 0, keep, prio, vs, ms@, 0);
    }
}

proof fn lemma_walk_back_keeps_front(
    remaining: nat,
    removed: nat,
    keep: OverflowKeep,
    prio: ArrayTrimPriority,
    vs: Seq<ArgModel>,
    ms: Seq<Measure>,
    i: nat,
    k: nat,
)
    requires
        k <= i <= ms.len() == vs.len(),
        forall|j: int| 0 <= j < i ==> measures(#[trigger] vs[j], ms[j]),
        forall|j: int| 0 <= j < i ==> #[trigger] vs[j] is Scalar,
        remaining + sum_scalar_tokens(ms, k) <= sum_scalar_tokens(ms, i),
    ensures
        walk_back(remaining, removed, keep, prio, vs, ms, i).0.len() == vs.len(),
        walk_back(remaining, removed, keep, prio, vs, ms, i).0.subrange(0, k as int) == vs.subrange(
            0,
            k as int,
        ),
    decreases i,
{
    if i > 0 && remaining > 0 {
        if i == k {
            assert(false);
        }
        let (nv, t) = trim_value_spec(remaining, keep, prio, vs[i - 1], ms[i - 1]);
        assert(t <= remaining);
        lemma_sum_monotone(ms, k, (i - 1) as nat);
        let nvs = vs.update(i - 1, nv);
        assert forall|j: int| 0 <= j < i - 1 implies measures(#[trigger] nvs[j], ms[j]) && nvs[j] is Scalar by {
            assert(nvs[j] == vs[j]);
        }
        lemma_walk_back_keeps_front(
            minus(remaining, t),
            sat_add(removed, t),
            keep,
            prio,
            nvs,
            ms,
            (i - 1) as nat,
            k,
        );
        assert(nvs.subrange(0, k as int) =~= vs.subrange(0, k as int));
    }
}

proof fn lemma_walk_front_keeps_back(
    remaining: nat,
    removed: nat,
    keep: OverflowKeep,
    prio: ArrayTrimPriority,
    vs: Seq<ArgModel>,
    ms: Seq<Measure>,
    i: nat,
    k: nat,
)
    requires
        i <= k <= ms.len() == vs.len(),
        forall|j: int| i <= j < ms.len() ==> measures(#[trigger] vs[j], ms[j]),
        forall|j: int| i <= j < ms.len() ==> #[trigger] vs[j] is Scalar,
        remaining + sum_scalar_tokens(ms, i) <= sum_scalar_tokens(ms, k),
    ensures
        walk_front(remaining, removed, keep, prio, vs, ms, i).0.len() == vs.len(),
        walk_front(remaining, removed, keep, prio, vs, ms, i).0.subrange(k as int, vs.len() as int)
            == vs.subrange(k as int, vs.len() as int),
    decreases ms.len() - i,
{
    if i < ms.len() && remaining > 0 {
        if i == k {
            assert(false);
        }
        let (nv, t) = trim_value_spec(remaining, keep, prio, vs[i as int], ms[i as int]);
        assert(t <= remaining);
        lemma_sum_step(ms, i);
        lemma_sum_monotone(ms, i + 1, k);
        let nvs = vs.update(i as int, nv);
        assert forall|j: int| i + 1 <= j < ms.len() implies measures(#[trigger] nvs[j], ms[j]) && nvs[j] is Scalar by {
            assert(nvs[j] == vs[j]);
        }
        lemma_walk_front_keeps_back(
            minus(remaining, t),
            sat_add(removed, t),
            keep,
            prio,
            nvs,
            ms,
            i + 1,
            k,
        );
        assert(nvs.subrange(k as int, vs.len() as int) =~= vs.subrange(k as int, vs.len() as int));
    }
}

proof fn lemma_drop_empty_concat(a: Seq<ArgModel>, b: Seq<ArgModel>)
    ensures
        drop_empty(a + b) == drop_empty(a) + drop_empty(b),
    decreases a.len(),
{
    if a.len() == 0 {
        assert(a + b =~= b);
        assert(drop_empty(a) + drop_empty(b) =~= drop_empty(b));
    } else {
        assert((a + b).drop_first() =~= a.drop_first() + b);
        assert((a + b)[0] == a[0]);
        lemma_drop_empty_concat(a.drop_first(), b);
        if is_empty_scalar(a[0]) {
        } else {
            assert(seq![a[0]] + (drop_empty(a.drop_first()) + drop_empty(b)) =~= (seq![a[0]]
                + drop_empty(a.drop_first())) + drop_empty(b));
        }
    }
}

/// Under the `First` policy, where the elements from `k` on hold at least
/// `to_trim` tokens, the strings before `k` come through whole, at the front.
pub proof fn lemma_first_keeps_front(
    to_trim: nat,
    keep: OverflowKeep,
    vs: Seq<ArgModel>,
    ms: Vec<Measure>,
    k: nat,
)
    requires
        0 < to_trim,
        k <= vs.len(),
        measures(ArgModel::Array(vs), Measure::Array(ms)),
        all_scalars(vs),
        to_trim + sum_scalar_tokens(ms@, k) <= sum_scalar_tokens(ms@, ms@.len()),
    ensures
        ({
            let r = trim_value_spec(to_trim, keep, ArrayTrimPriority::First, ArgModel::Array(vs), Measure::Array(ms)).0;
            let front = drop_empty(vs.subrange(0, k as int));
            r is Array && r->Array_0.len() >= front.len() && r->Array_0.subrange(0, front.len() as int)
                == front
        }),
{
    let n = vs.len();
    lemma_walk_back_keeps_front(to_trim, 0, keep, ArrayTrimPriority::First, vs, ms@, n, k);
    let w = walk_back(to_trim, 0, keep, ArrayTrimPriority::First, vs, ms@, n).0;
    assert(w =~= w.subrange(0, k as int) + w.subrange(k as int, n as int));
    lemma_drop_empty_concat(w.subrange(0, k as int), w.subrange(k as int, n as int));
    let front = drop_empty(vs.subrange(0, k as int));
    assert((front + drop_empty(w.subrange(k as int, n as int))).subrange(0, front.len() as int) =~= front);
}

/// Under the `Last` policy, where the elements before `k` hold at least
/// `to_trim` tokens, the strings from `k` on come through whole, at the back.
pub proof fn lemma_last_keeps_back(
    to_trim: nat,
    keep: OverflowKeep,
    vs: Seq<ArgModel>,
    ms: Vec<Measure>,
    k: nat,
)
    requires
        0 < to_trim,
        k <= vs.len(),
        measures(ArgModel::Array(vs), Measure::Array(ms)),
        all_scalars(vs),
        to_trim <= sum_scalar_tokens(ms@, k),
    ensures
        ({
            let r = trim_value_spec(to_trim, keep, ArrayTrimPriority::Last, ArgModel::Array(vs), Measure::Array(ms)).0;
            let back = drop_empty(vs.subrange(k as int, vs.len() as int));
            r is Array && r->Array_0.len() >= back.len() && r->Array_0.subrange(
                r->Array_0.len() - back.len(),
                r->Array_0.len() as int,
            ) == back
        }),
{
    let n = vs.len();
    lemma_walk_front_keeps_back(to_trim, 0, keep, ArrayTrimPriority::Last, vs, ms@, 0, k);
    let w = walk_front(to_trim, 0, keep, ArrayTrimPriority::Last, vs, ms@, 0).0;
    assert(w =~= w.subrange(0, k as int) + w.subrange(k as int, n as int));
    lemma_drop_empty_concat(w.subrange(0, k as int), w.subrange(k as int, n as int));
    let back = drop_empty(vs.subrange(k as int, n as int));
    let all = drop_empty(w.subrange(0, k as int)) + back;
    assert(all.subrange(all.len() - back.len(), all.len() as int) =~= back);
}

/// The rounded shares of `to_trim` out of `total` of the elements from `i` on.
pub open spec fn shares_from(ms: Seq<Measure>, i: nat, to_trim: nat, total: nat) -> nat
    decreases ms.len() - i,
{
    if i >= ms.len() {
        0
    } else {
        share(scalar_tokens(ms[i as int]), to_trim, total) + shares_from(ms, i + 1, to_trim, total)
    }
}

proof fn lemma_walk_equal_shares(
    to_trim: nat,
    total: nat,
    removed: nat,
    keep: OverflowKeep,
    vs: Seq<ArgModel>,
    ms: Seq<Measure>,
    i: nat,
)
    requires
        i <= ms.len() == vs.len(),
        forall|j: int| i <= j < ms.len() ==> measures(#[trigger] vs[j], ms[j]),
        forall|j: int| i <= j < ms.len() ==> #[trigger] vs[j] is Scalar,
        forall|j: int|
            i <= j < ms.len() ==> share(scalar_tokens(#[trigger] ms[j]), to_trim, total)
                <= scalar_tokens(ms[j]),
        removed + shares_from(ms, i, to_trim, total) <= usize::MAX,
    ensures
        walk_equal(to_trim, total, removed, keep, vs, ms, i).1 == removed + shares_from(
            ms,
            i,
            to_trim,
            total,
        ),
    decreases ms.len() - i,
{
    if i < ms.len() {
        let (nv, t) = equal_step(to_trim, total, keep, vs[i as int], ms[i as int]);
        assert(t == share(scalar_tokens(ms[i as int]), to_trim, total));
        let nvs = vs.update(i as int, nv);
        assert forall|j: int| i + 1 <= j < ms.len() implies measures(#[trigger] nvs[j], ms[j]) && nvs[j] is Scalar by {
            assert(nvs[j] == vs[j]);
        }
        lemma_walk_equal_shares(to_trim, total, sat_add(removed, t), keep, nvs, ms, i + 1);
    }
}

/// Under the `Equal` policy, a list of strings loses the sum of its elements'
/// rounded shares of `to_trim`, where no share is more than its element has;
/// so exactly `to_trim` where the rounded shares add up to it.
pub proof fn lemma_equal_removes_shares(to_trim: nat, keep: OverflowKeep, vs: Seq<ArgModel>, ms: Vec<Measure>)
    requires
        0 < to_trim,
        measures(ArgModel::Array(vs), Measure::Array(ms)),
        all_scalars(vs),
        forall|j: int|
            0 <= j < ms@.len() ==> share(
                scalar_tokens(#[trigger] ms@[j]),
                to_trim,
                sum_scalar_tokens(ms@, ms@.len()),
            ) <= scalar_tokens(ms@[j]),
        shares_from(ms@, 0, to_trim, sum_scalar_tokens(ms@, ms@.len())) <= usize::MAX,
    ensures
        trim_value_spec(to_trim, keep, ArrayTrimPriority::Equal, ArgModel::Array(vs), Measure::Array(ms)).1
            == shares_from(ms@, 0, to_trim, sum_scalar_tokens(ms@, ms@.len())),
{
    lemma_walk_equal_shares(to_trim, sum_scalar_tokens(ms@, ms@.len()), 0, keep, vs, ms@, 0);
}

/// Whether every element is a string with something in it.
pub open spec fn all_nonempty_scalars(vs: Seq<ArgModel>) -> bool {
    forall|j: int| 0 <= j < vs.len() ==> #[trigger] vs[j] is Scalar && !is_empty_scalar(vs[j])
}

proof fn lemma_drop_empty_keeps_nonempty(vs: Seq<ArgModel>)
    requires
        forall|j: int| 0 <= j < vs.len() ==> !is_empty_scalar(#[trigger] vs[j]),
    ensures
        drop_empty(vs) == vs,
    decreases vs.len(),
{
    if vs.len() > 0 {
        assert forall|j: int| 0 <= j < vs.drop_first().len() implies !is_empty_scalar(
            #[trigger] vs.drop_first()[j],
        ) by {
            assert(vs.drop_first()[j] == vs[j + 1]);
        }
        lemma_drop_empty_keeps_nonempty(vs.drop_first());
        assert(seq![vs[0]] + vs.drop_first() =~= vs);
    }
}

proof fn lemma_drop_empty_of_empties(vs: Seq<ArgModel>)
    requires
        forall|j: int| 0 <= j < vs.len() ==> is_empty_scalar(#[trigger] vs[j]),
    ensures
        drop_empty(vs) == Seq::<ArgModel>::empty(),
    decreases vs.len(),
{
    if vs.len() > 0 {
        assert forall|j: int| 0 <= j < vs.drop_first().len() implies is_empty_scalar(
            #[trigger] vs.drop_first()[j],
        ) by {
            assert(vs.drop_first()[j] == vs[j + 1]);
        }
        lemma_drop_empty_of_empties(vs.drop_first());
    }
}

/// Whether `v` is what keeping `l` of the tokens of the string `s`, measured
/// by `m`, leaves of it, for some `l` between one and all but one.
pub open spec fn shortened_from(v: ArgModel, s: ArgModel, m: Measure, keep: OverflowKeep) -> bool {
    match (s, m) {
        (ArgModel::Scalar(t), Measure::Scalar(e)) => exists|l: nat|
            0 < l < e.spans().len() && v == ArgModel::Scalar(#[trigger] truncated(l, keep, t, e.spans())),
        _ => false,
    }
}

proof fn lemma_walk_back_shape(
    remaining: nat,
    removed: nat,
    keep: OverflowKeep,
    vs: Seq<ArgModel>,
    ms: Seq<Measure>,
    i: nat,
) -> (j: int)
    requires
        i <= ms.len() == vs.len(),
        forall|k: int| 0 <= k < i ==> measures(#[trigger] vs[k], ms[k]),
        forall|k: int| 0 <= k < i ==> #[trigger] vs[k] is Scalar,
        forall|k: int| i <= k < vs.len() ==> is_empty_scalar(#[trigger] vs[k]),
    ensures
        ({
            let w = walk_back(remaining, removed, keep, ArrayTrimPriority::First, vs, ms, i).0;
            &&& 0 <= j <= i
            &&& w.len() == vs.len()
            &&& w.subrange(0, j) == vs.subrange(0, j)
            &&& forall|k: int| j < k < w.len() ==> is_empty_scalar(#[trigger] w[k])
            &&& j < w.len() ==> is_empty_scalar(w[j]) || shortened_from(w[j], vs[j], ms[j], keep)
            &&& forall|k: int| i <= k < w.len() ==> #[trigger] w[k] == vs[k]
        }),
    decreases i,
{
    let prio = ArrayTrimPriority::First;
    if i == 0 || remaining == 0 {
        i as int
    } else {
        let (nv, t) = trim_value_spec(remaining, keep, prio, vs[i - 1], ms[i - 1]);
        let nvs = vs.update(i - 1, nv);
        let e = ms[i - 1]->Scalar_0;
        if e.spans().len() > remaining {
            let l = (e.spans().len() - remaining) as nat;
            assert(shortened_from(nv, vs[i - 1], ms[i - 1], keep)) by {
                assert(nv == ArgModel::Scalar(truncated(l, keep, vs[i - 1]->Scalar_0, e.spans())));
            }
            assert(minus(remaining, t) == 0);
            assert(nvs.subrange(0, i - 1) =~= vs.subrange(0, i - 1));
            let w = walk_back(remaining, removed, keep, prio, vs, ms, i).0;
            assert(walk_back(0, sat_add(removed, t), keep, prio, nvs, ms, (i - 1) as nat).0 == nvs);
            assert(w == nvs);
            assert forall|k: int| i <= k < w.len() implies #[trigger] w[k] == vs[k] by {
                assert(nvs[k] == vs[k]);
            }
            (i - 1) as int
        } else {
            assert(is_empty_scalar(nv));
            assert forall|k: int| 0 <= k < i - 1 implies measures(#[trigger] nvs[k], ms[k]) && nvs[k] is Scalar by {
                assert(nvs[k] == vs[k]);
            }
            let j = lemma_walk_back_shape(
                minus(remaining, t),
                sat_add(removed, t),
                keep,
                nvs,
                ms,
                (i - 1) as nat,
            );
            let w = walk_back(remaining, removed, keep, prio, vs, ms, i).0;
            assert(w.subrange(0, j) =~= vs.subrange(0, j)) by {
                assert(w.subrange(0, j) == nvs.subrange(0, j));
                assert(nvs.subrange(0, j) =~= vs.subrange(0, j));
            }
            if j < i - 1 {
                assert(nvs[j] == vs[j]);
            } else if j == i - 1 {
                assert(w[j] == nvs[j]);
            }
            assert forall|k: int| i <= k < w.len() implies #[trigger] w[k] == vs[k] by {
                assert(w[k] == nvs[k]);
                assert(nvs[k] == vs[k]);
            }
            j
        }
    }
}

/// Under the `First` policy, a list of strings keeps a prefix of its
/// elements whole and drops the rest but for at most one, which it shortens:
/// the result is the first `j` elements, then possibly what is left of the
/// element at `j`.
pub proof fn lemma_first_prefix_shape(to_trim: nat, keep: OverflowKeep, vs: Seq<ArgModel>, ms: Vec<Measure>)
    requires
        0 < to_trim,
        measures(ArgModel::Array(vs), Measure::Array(ms)),
        all_nonempty_scalars(vs),
    ensures
        ({
            let r = trim_value_spec(to_trim, keep, ArrayTrimPriority::First, ArgModel::Array(vs), Measure::Array(ms)).0;
            &&& r is Array
            &&& exists|j: int|
                #![trigger vs.subrange(0, j)]
                0 <= j <= vs.len() && (r->Array_0 == vs.subrange(0, j) || (j < vs.len()
                    && exists|e: ArgModel|
                    r->Array_0 == vs.subrange(0, j) + seq![e] && #[trigger] shortened_from(e, vs[j], ms@[j], keep)))
        }),
{
    let n = vs.len();
    let j = lemma_walk_back_shape(to_trim, 0, keep, vs, ms@, n);
    let w = walk_back(to_trim, 0, keep, ArrayTrimPriority::First, vs, ms@, n).0;
    let head = w.subrange(0, j);
    let rest = w.subrange(j, n as int);
    assert(w =~= head + rest);
    lemma_drop_empty_concat(head, rest);
    assert forall|k: int| 0 <= k < head.len() implies !is_empty_scalar(#[trigger] head[k]) by {
        assert(head[k] == vs[k]);
    }
    lemma_drop_empty_keeps_nonempty(head);
    if j < n {
        let tail = w.subrange(j + 1, n as int);
        assert(rest =~= seq![w[j]] + tail);
        lemma_drop_empty_concat(seq![w[j]], tail);
        assert forall|k: int| 0 <= k < tail.len() implies is_empty_scalar(#[trigger] tail[k]) by {
            assert(tail[k] == w[j + 1 + k]);
        }
        lemma_drop_empty_of_empties(tail);
        assert(seq![w[j]].drop_first() =~= Seq::<ArgModel>::empty());
        assert(drop_empty(Seq::<ArgModel>::empty()) == Seq::<ArgModel>::empty());
        assert(drop_empty(w) == drop_empty(head) + drop_empty(rest));
        if is_empty_scalar(w[j]) {
            assert(drop_empty(seq![w[j]]) == Seq::<ArgModel>::empty());
            assert(drop_empty(w) =~= vs.subrange(0, j));
        } else {
            assert(drop_empty(seq![w[j]]) =~= seq![w[j]]);
            assert(drop_empty(w) =~= vs.subrange(0, j) + seq![w[j]]);
            assert(shortened_from(w[j], vs[j], ms@[j], keep));
        }
    } else {
        assert(rest =~= Seq::<ArgModel>::empty());
        assert(drop_empty(w) =~= vs.subrange(0, j));
    }
}

proof fn lemma_walk_front_shape(
    remaining: nat,
    removed: nat,
    keep: OverflowKeep,
    vs: Seq<ArgModel>,
    ms: Seq<Measure>,
    i: nat,
) -> (j: int)
    requires
        i <= ms.len() == vs.len(),
        forall|k: int| i <= k < vs.len() ==> measures(#[trigger] vs[k], ms[k]),
        forall|k: int| i <= k < vs.len() ==> #[trigger] vs[k] is Scalar,
        forall|k: int| 0 <= k < i ==> is_empty_scalar(#[trigger] vs[k]),
    ensures
        ({
            let w = walk_front(remaining, removed, keep, ArrayTrimPriority::Last, vs, ms, i).0;
            &&& i <= j <= vs.len()
            &&& w.len() == vs.len()
            &&& w.subrange(j, w.len() as int) == vs.subrange(j, vs.len() as int)
            &&& forall|k: int| 0 <= k < j - 1 ==> is_empty_scalar(#[trigger] w[k])
            &&& j > 0 ==> is_empty_scalar(w[j - 1]) || shortened_from(w[j - 1], vs[j - 1], ms[j - 1], keep)
            &&& forall|k: int| 0 <= k < i ==> #[trigger] w[k] == vs[k]
        }),
    decreases vs.len() - i,
{
    let prio = ArrayTrimPriority::Last;
    if i >= vs.len() || remaining == 0 {
        i as int
    } else {
        let (nv, t) = trim_value_spec(remaining, keep, prio, vs[i as int], ms[i as int]);
        let nvs = vs.update(i as int, nv);
        let e = ms[i as int]->Scalar_0;
        if e.spans().len() > remaining {
            let l = (e.spans().len() - remaining) as nat;
            assert(shortened_from(nv, vs[i as int], ms[i as int], keep)) by {
                assert(nv == ArgModel::Scalar(truncated(l, keep, vs[i as int]->Scalar_0, e.spans())));
            }
            assert(minus(remaining, t) == 0);
            let w = walk_front(remaining, removed, keep, prio, vs, ms, i).0;
            assert(walk_front(0, sat_add(removed, t), keep, prio, nvs, ms, i + 1).0 == nvs);
            assert(w == nvs);
            assert(nvs.subrange((i + 1) as int, vs.len() as int) =~= vs.subrange((i + 1) as int, vs.len() as int));
            assert forall|k: int| 0 <= k < i implies #[trigger] w[k] == vs[k] by {
                assert(nvs[k] == vs[k]);
            }
            (i + 1) as int
        } else {
            assert(is_empty_scalar(nv));
            assert forall|k: int| i + 1 <= k < vs.len() implies measures(#[trigger] nvs[k], ms[k]) && nvs[k] is Scalar by {
                assert(nvs[k] == vs[k]);
            }
            assert forall|k: int| 0 <= k < i + 1 implies is_empty_scalar(#[trigger] nvs[k]) by {
                if k < i {
                    assert(nvs[k] == vs[k]);
                }
            }
            let j = lemma_walk_front_shape(
                minus(remaining, t),
                sat_add(removed, t),
                keep,
                nvs,
                ms,
                i + 1,
            );
            let w = walk_front(remaining, removed, keep, prio, vs, ms, i).0;
            assert(w.subrange(j, w.len() as int) =~= vs.subrange(j, vs.len() as int)) by {
                assert(nvs.subrange(j, vs.len() as int) =~= vs.subrange(j, vs.len() as int));
            }
            if j - 1 > i {
                assert(nvs[j - 1] == vs[j - 1]);
            } else if j - 1 == i {
                assert(w[j - 1] == nvs[j - 1]);
            }
            assert forall|k: int| 0 <= k < i implies #[trigger] w[k] == vs[k] by {
                assert(w[k] == nvs[k]);
                assert(nvs[k] == vs[k]);
            }
            j
        }
    }
}

/// Under the `Last` policy, a list of strings keeps a suffix of its elements
/// whole and drops the rest but for at most one, which it shortens: the result
/// is possibly what is left of the element before `j`, then the elements from `j` on.
pub proof fn lemma_last_suffix_shape(to_trim: nat, keep: OverflowKeep, vs: Seq<ArgModel>, ms: Vec<Measure>)
    requires
        0 < to_trim,
        measures(ArgModel::Array(vs), Measure::Array(ms)),
        all_nonempty_scalars(vs),
    ensures
        ({
            let r = trim_value_spec(to_trim, keep, ArrayTrimPriority::Last, ArgModel::Array(vs), Measure::Array(ms)).0;
            &&& r is Array
            &&& exists|j: int|
                #![trigger vs.subrange(j, vs.len() as int)]
                0 <= j <= vs.len() && (r->Array_0 == vs.subrange(j, vs.len() as int) || (0 < j
                    && exists|e: ArgModel|
                    r->Array_0 == seq![e] + vs.subrange(j, vs.len() as int) && #[trigger] shortened_from(
                        e,
                        vs[j - 1],
                        ms@[j - 1],
                        keep,
                    )))
        }),
{
    let n = vs.len();
    let j = lemma_walk_front_shape(to_trim, 0, keep, vs, ms@, 0);
    let w = walk_front(to_trim, 0, keep, ArrayTrimPriority::Last, vs, ms@, 0).0;
    let back = w.subrange(j, n as int);
    assert forall|k: int| 0 <= k < back.len() implies !is_empty_scalar(#[trigger] back[k]) by {
        assert(back[k] == vs[j + k]);
    }
    lemma_drop_empty_keeps_nonempty(back);
    assert(drop_empty(Seq::<ArgModel>::empty()) == Seq::<ArgModel>::empty());
    if j == 0 {
        assert(w =~= back);
    } else {
        let front = w.subrange(0, j - 1);
        assert(w =~= front + (seq![w[j - 1]] + back));
        lemma_drop_empty_concat(front, seq![w[j - 1]] + back);
        lemma_drop_empty_concat(seq![w[j - 1]], back);
        assert forall|k: int| 0 <= k < front.len() implies is_empty_scalar(#[trigger] front[k]) by {
            assert(front[k] == w[k]);
        }
        lemma_drop_empty_of_empties(front);
        assert(seq![w[j - 1]].drop_first() =~= Seq::<ArgModel>::empty());
        if is_empty_scalar(w[j - 1]) {
            assert(drop_empty(seq![w[j - 1]]) == Seq::<ArgModel>::empty());
            assert(drop_empty(w) =~= vs.subrange(j, n as int));
        } else {
            assert(drop_empty(seq![w[j - 1]]) =~= seq![w[j - 1]]);
            assert(drop_empty(w) =~= seq![w[j - 1]] + vs.subrange(j, n as int));
            assert(shortened_from(w[j - 1], vs[j - 1], ms@[j - 1], keep));
        }
    }
}

/// Encode every string inside `v`.
pub fn measure(tokenizer: &TextTokenizer, v: &ArgValue) -> (r: Result<Measure, Error>)
    ensures
        match r {
            Ok(m) => measures(v@, m),
            Err(e) => e is Tokenizer,
        },
        v@ is Other ==> r == Ok::<Measure, Error>(Measure::Other),
    decreases v,
{
    match v {
        ArgValue::Scalar(s) => match tokenizer.encode(s.as_str()) {
            Ok(e) => Ok(Measure::Scalar(e)),
            Err(e) => Err(e),
        },
        ArgValue::Other(_) => Ok(Measure::Other),
        ArgValue::Array(vs) => {
            proof {
                lemma_array_view(*vs);
            }
            let mut ms: Vec<Measure> = Vec::new();
            let mut i: usize = 0;
            while i < vs.len()
                invariant
                    i <= vs.len(),
                    ms.len() == i,
                    *v == ArgValue::Array(*vs),
                    forall|j: int| 0 <= j < i ==> measures(#[trigger] vs@[j]@, ms@[j]),
                decreases vs.len() - i,
            {
                proof {
                    vstd::std_specs::vec::axiom_vec_index_decreases(*vs, i as int);
                    assert(decreases_to!(*v => (*v)->Array_0));
                }
                match measure(tokenizer, &vs[i]) {
                    Ok(m) => ms.push(m),
                    Err(e) => return Err(e),
                }
                i = i + 1;
            }
            let r = Measure::Array(ms);
            assert forall|j: int| 0 <= j < views(vs@).len() implies measures(
                #[trigger] views(vs@)[j],
                ms@[j],
            ) by {
                assert(views(vs@)[j] == vs@[j]@);
            }
            Ok(r)
        },
    }
}

/// Remove `to_trim` tokens from `value`, encoding its strings with `tokenizer`:
/// the number of tokens removed. Whatever the tokenizer gives, the result is
/// that of `trim_measured` on some encoding of the value's strings. Where the
/// tokenizer fails, the value is left as it was.
pub fn trim_arg(
    tokenizer: &TextTokenizer,
    to_trim: usize,
    options: &ContextOptions,
    value: &mut ArgValue,
) -> (r: Result<usize, Error>)
    ensures
        match r {
            Ok(t) => to_trim > 0 ==> exists|m: Measure|
                measures(old(value)@, m) && (final(value)@, t as nat) == trim_value_spec(
                    to_trim as nat,
                    options.keep,
                    options.array_priority,
                    old(value)@,
                    m,
                ),
            Err(e) => e is Tokenizer && final(value)@ == old(value)@,
        },
        to_trim == 0 || old(value)@ is Other ==> r == Ok::<usize, Error>(0) && final(value)@ == old(
            value,
        )@,
{
    if to_trim == 0 {
        return Ok(0);
    }
    if let ArgValue::Other(_) = value {
        assert(measures(value@, Measure::Other));
        return Ok(0);
    }
    let m = match measure(tokenizer, value) {
        Ok(m) => m,
        Err(e) => return Err(e),
    };
    let mut taken = ArgValue::Other(String::new());
    std::mem::swap(value, &mut taken);
    let (nv, t) = trim_measured(to_trim, options.keep, options.array_priority, taken, &m);
    *value = nv;
    Ok(t)
}

/// The arguments, and the tokens still to remove, after the first `k` names of
/// `names` were visited with the budget `to_trim`, where the value trimmed at
/// step `j` was measured by `ms[j]`. A name that no argument has is passed over;
/// once the budget is spent nothing changes.
pub open spec fn distribute_state(
    to_trim: nat,
    keep: OverflowKeep,
    prio: ArrayTrimPriority,
    names: Seq<Seq<char>>,
    es: Seq<(Seq<char>, ArgModel)>,
    ms: Seq<Measure>,
    k: nat,
) -> (Seq<(Seq<char>, ArgModel)>, nat)
    decreases k,
{
    if k == 0 {
        (es, to_trim)
    } else {
        let (cur, remaining) = distribute_state(to_trim, keep, prio, names, es, ms, (k - 1) as nat);
        if remaining == 0 {
            (cur, remaining)
        } else {
            match position_of(cur, names[k - 1]) {
                None => (cur, remaining),
                Some(i) => {
                    let (nv, t) = trim_value_spec(remaining, keep, prio, cur[i].1, ms[k - 1]);
                    (cur.update(i, (cur[i].0, nv)), minus(remaining, t))
                },
            }
        }
    }
}

/// Whether each value trimmed in the first `k` steps was measured by its entry of `ms`.
pub open spec fn distribute_measured(
    to_trim: nat,
    keep: OverflowKeep,
    prio: ArrayTrimPriority,
    names: Seq<Seq<char>>,
    es: Seq<(Seq<char>, ArgModel)>,
    ms: Seq<Measure>,
    k: nat,
) -> bool
    decreases k,
{
    if k == 0 {
        true
    } else {
        let (cur, remaining) = distribute_state(to_trim, keep, prio, names, es, ms, (k - 1) as nat);
        &&& distribute_measured(to_trim, keep, prio, names, es, ms, (k - 1) as nat)
        &&& (remaining > 0 ==> match position_of(cur, names[k - 1]) {
            None => true,
            Some(i) => measures(cur[i].1, ms[k - 1]),
        })
    }
}

/// Whether visiting `names` with the budget `to_trim`, measuring the trimmed
/// values by `ms`, turns the arguments `es` into `result`: the visit ends when the
/// names or the budget run out, and each measurement fits its value.
pub open spec fn distributes_to(
    to_trim: nat,
    keep: OverflowKeep,
    prio: ArrayTrimPriority,
    names: Seq<Seq<char>>,
    es: Seq<(Seq<char>, ArgModel)>,
    ms: Seq<Measure>,
    result: Seq<(Seq<char>, ArgModel)>,
) -> bool {
    let (cur, remaining) = distribute_state(to_trim, keep, prio, names, es, ms, ms.len());
    &&& ms.len() <= names.len()
    &&& cur == result
    &&& (ms.len() == names.len() || remaining == 0)
    &&& distribute_measured(to_trim, keep, prio, names, es, ms, ms.len())
}

/// The names of a list of strings.
pub open spec fn names_of(v: Seq<String>) -> Seq<Seq<char>> {
    Seq::new(v.len(), |i: int| v[i]@)
}

/// Remove `current_tokens - context_limit` tokens from the arguments named in
/// `options.trim_args`, in that order, until none remain to remove. Whatever the
/// tokenizer gives, each argument keeps its name and place, an argument that is
/// not named keeps its value, and the result is that of `distribute_state` for
/// some valid measurements.
pub fn trim_context_from_args(
    tokenizer: &TextTokenizer,
    context_limit: usize,
    current_tokens: usize,
    options: &ContextOptions,
    args: &mut TemplateArgs,
) -> (r: Result<(), Error>)
    requires
        old(args).wf(),
        context_limit <= current_tokens,
    ensures
        final(args).wf(),
        final(args)@.len() == old(args)@.len(),
        forall|i: int|
            0 <= i < old(args)@.len() ==> #[trigger] final(args)@[i].0 == old(args)@[i].0,
        forall|i: int|
            0 <= i < old(args)@.len() && !names_of(options.trim_args@).contains(old(args)@[i].0)
                ==> #[trigger] final(args)@[i] == old(args)@[i],
        r is Err ==> r->Err_0 is Tokenizer,
        current_tokens == context_limit || (forall|k: int|
            0 <= k < options.trim_args@.len() ==> #[trigger] position_of(
                old(args)@,
                names_of(options.trim_args@)[k],
            ) is None) ==> r is Ok && final(args)@ == old(args)@,
        r is Ok ==> exists|ms: Seq<Measure>|
            #[trigger] distributes_to(
                (current_tokens - context_limit) as nat,
                options.keep,
                options.array_priority,
                names_of(options.trim_args@),
                old(args)@,
                ms,
                final(args)@,
            ),
{
    let ghost es0 = args@;
    let ghost names = names_of(options.trim_args@);
    let ghost t0 = (current_tokens - context_limit) as nat;
    if current_tokens == context_limit {
        assert(distributes_to(t0, options.keep, options.array_priority, names, es0, Seq::empty(), es0));
        return Ok(());
    }
    let keep = options.keep;
    let prio = options.array_priority;
    let mut to_trim: usize = current_tokens - context_limit;
    let ghost mut ms: Seq<Measure> = Seq::empty();
    let mut k: usize = 0;
    while k < options.trim_args.len() && to_trim > 0
        invariant
            k <= options.trim_args.len(),
            es0 == old(args)@,
            t0 == (current_tokens - context_limit) as nat,
            context_limit < current_tokens,
            names == names_of(options.trim_args@),
            ms.len() == k,
            args.wf(),
            args@.len() == es0.len(),
            forall|i: int| 0 <= i < es0.len() ==> #[trigger] args@[i].0 == es0[i].0,
            forall|i: int|
                0 <= i < es0.len() && !names.contains(es0[i].0) ==> #[trigger] args@[i] == es0[i],
            distribute_state(t0, keep, prio, names, es0, ms, k as nat) == (args@, to_trim as nat),
            distribute_measured(t0, keep, prio, names, es0, ms, k as nat),
            keep == options.keep,
            prio == options.array_priority,
            (forall|j: int|
                0 <= j < options.trim_args@.len() ==> #[trigger] position_of(es0, names[j]) is None)
                ==> args@ == es0,
        decreases options.trim_args.len() - k,
    {
        let ghost before = args@;
        let name = options.trim_args[k].as_str();
        assert(names[k as int] == name@);
        match args.find(name) {
            Some(i) => {
                proof {
                    lemma_position_of_unique(before, name@, i as int);
                }
                let m = match measure(tokenizer, args.value_at(i)) {
                    Ok(m) => m,
                    Err(e) => {
                        proof {
                            if forall|j: int|
                                0 <= j < options.trim_args@.len() ==> #[trigger] position_of(es0, names[j])
                                    is None {
                                assert(before == es0);
                                assert(position_of(es0, names[k as int]) is None);
                                assert(position_of(before, name@) == Some(i as int));
                                assert(false);
                            }
                        }
                        return Err(e);
                    },
                };
                let ghost rem0 = to_trim as nat;
                let ghost old_ms = ms;
                let v = args.take_at(i);
                let (nv, t) = trim_measured(to_trim, keep, prio, v, &m);
                args.put_at(i, nv);
                to_trim = if t >= to_trim { 0 } else { to_trim - t };
                proof {
                    ms = ms.push(m);
                    assert(args@ =~= before.update(i as int, (before[i as int].0, nv@)));
                    assert(names.contains(es0[i as int].0)) by {
                        assert(names[k as int] == es0[i as int].0);
                    }
                    assert forall|j: int| 0 <= j < old_ms.len() implies #[trigger] old_ms[j] == ms[j] by {}
                    lemma_distribute_prefix(t0, keep, prio, names, es0, old_ms, ms, k as nat);
                    assert(ms[k as int] == m);
                    assert(distribute_state(t0, keep, prio, names, es0, ms, k as nat) == (before, rem0));
                    assert(distribute_state(t0, keep, prio, names, es0, ms, (k + 1) as nat) == (args@, to_trim as nat));
                }
            },
            None => {
                proof {
                    assert(position_of(before, name@) is None);
                    let old_ms = ms;
                    ms = ms.push(Measure::Other);
                    assert forall|j: int| 0 <= j < old_ms.len() implies #[trigger] old_ms[j] == ms[j] by {}
                    lemma_distribute_prefix(t0, keep, prio, names, es0, old_ms, ms, k as nat);
                }
            },
        }
        k = k + 1;
    }
    assert(distributes_to(t0, keep, prio, names, es0, ms, args@));
    Ok(())
}

/// The first `k` steps depend on the first `k` measurements only.
proof fn lemma_distribute_prefix(
    to_trim: nat,
    keep: OverflowKeep,
    prio: ArrayTrimPriority,
    names: Seq<Seq<char>>,
    es: Seq<(Seq<char>, ArgModel)>,
    ms: Seq<Measure>,
    longer: Seq<Measure>,
    k: nat,
)
    requires
        k <= ms.len() <= longer.len(),
        forall|j: int| 0 <= j < ms.len() ==> #[trigger] ms[j] == longer[j],
    ensures
        distribute_state(to_trim, keep, prio, names, es, ms, k) == distribute_state(
            to_trim,
            keep,
            prio,
            names,
            es,
            longer,
            k,
        ),
        distribute_measured(to_trim, keep, prio, names, es, ms, k) == distribute_measured(
            to_trim,
            keep,
            prio,
            names,
            es,
            longer,
            k,
        ),
    decreases k,
{
    if k > 0 {
        lemma_distribute_prefix(to_trim, keep, prio, names, es, ms, longer, (k - 1) as nat);
        assert(ms[k - 1] == longer[k - 1]);
    }
}

} // verus!
