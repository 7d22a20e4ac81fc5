//! Aggregation of pairwise scores into a probability distribution over
//! collections.
//!
//! Every candidate is scored against the query; scores above the score
//! cutoff are summed into a bucket keyed by the candidate's collection,
//! in first-qualification order.  The highest score seen across all
//! candidates (at least the no-match baseline 1) is added into the
//! reserved bucket with key 0, and every bucket is divided by the sum
//! of all buckets.  The result is a sequence of `(collection, value)`
//! entries with pairwise distinct keys, values in `[0, 1]`, summing to
//! exactly 1.

use vstd::prelude::*;
use crate::rat::{
    lemma_add_nonneg, lemma_add_wf, lemma_div_add, lemma_div_self, lemma_eqv_add_congr,
    lemma_eqv_trans, lemma_le_add_left, lemma_le_add_right, lemma_le_trans, lemma_nonneg_mul_nonneg,
    fits_i64, lemma_pos_mul_pos, rat_add, rat_div, rat_eqv, rat_le, rat_lt, rat_one, rat_wf,
    rat_zero, try_add, try_div, try_mul, Rat, RatModel,
};
use crate::data::{NameData, Overflow, Params};
use crate::score::{author_factor, get_score, lemma_spec_score_pos, spec_score, try_mul_opt, try_pow, year_gap};

verus! {

/// The values of the entries, viewed as mathematical rationals.
pub open spec fn view_entries(entries: Seq<(i32, Rat)>) -> Seq<(i32, RatModel)> {
    entries.map_values(|e: (i32, Rat)| (e.0, e.1@))
}

/// The index of the first entry with the given key, or `-1`.
pub open spec fn find_key(entries: Seq<(i32, RatModel)>, key: i32) -> int
    decreases entries.len(),
{
    if entries.len() == 0 {
        -1
    } else if entries[0].0 == key {
        0
    } else {
        let r = find_key(entries.drop_first(), key);
        if r < 0 {
            -1
        } else {
            r + 1
        }
    }
}

proof fn lemma_find_key(entries: Seq<(i32, RatModel)>, key: i32)
    ensures
        -1 <= find_key(entries, key) < entries.len(),
        find_key(entries, key) == -1 ==> forall|i: int|
            0 <= i < entries.len() ==> (#[trigger] entries[i]).0 != key,
        find_key(entries, key) >= 0 ==> entries[find_key(entries, key)].0 == key,
        find_key(entries, key) >= 0 ==> forall|i: int|
            0 <= i < find_key(entries, key) ==> (#[trigger] entries[i]).0 != key,
    decreases entries.len(),
{
    if entries.len() > 0 && entries[0].0 != key {
        let rest = entries.drop_first();
        lemma_find_key(rest, key);
        let r = find_key(rest, key);
        if r < 0 {
            assert forall|i: int| 0 <= i < entries.len() implies (#[trigger] entries[i]).0
                != key by {
                if i > 0 {
                    assert(rest[i - 1] == entries[i]);
                    assert(rest[i - 1].0 != key);
                }
            }
        } else {
            assert(rest[r] == entries[r + 1]);
            assert forall|i: int| 0 <= i < r + 1 implies (#[trigger] entries[i]).0 != key by {
                if i > 0 {
                    assert(rest[i - 1] == entries[i]);
                    assert(rest[i - 1].0 != key);
                }
            }
        }
    }
}

/// Adds `v` into the first entry keyed `key`, or appends a new entry;
/// `None` if the addition leaves the `i64` range.
pub open spec fn try_bump(entries: Seq<(i32, RatModel)>, key: i32, v: RatModel) -> Option<
    Seq<(i32, RatModel)>,
> {
    let j = find_key(entries, key);
    if j == -1 {
        Some(entries.push((key, v)))
    } else {
        match try_add(entries[j].1, v) {
            Some(s) => Some(entries.update(j, (key, s))),
            None => None,
        }
    }
}

/// Keys pairwise distinct; every value well-formed and nonnegative.
pub open spec fn entries_ok(entries: Seq<(i32, RatModel)>) -> bool {
    &&& forall|i: int, j: int|
        0 <= i < j < entries.len() ==> (#[trigger] entries[i]).0 != (#[trigger] entries[j]).0
    &&& forall|i: int|
        0 <= i < entries.len() ==> rat_wf((#[trigger] entries[i]).1) && entries[i].1.n >= 0
}

proof fn lemma_bump_ok(entries: Seq<(i32, RatModel)>, key: i32, v: RatModel)
    requires
        entries_ok(entries),
        rat_wf(v),
        v.n >= 0,
        try_bump(entries, key, v) is Some,
    ensures
        entries_ok(try_bump(entries, key, v)->0),
        exists|i: int|
            0 <= i < try_bump(entries, key, v)->0.len()
                && (#[trigger] try_bump(entries, key, v)->0[i]).0 == key
                && rat_le(v, try_bump(entries, key, v)->0[i].1),
{
    lemma_find_key(entries, key);
    let j = find_key(entries, key);
    let out = try_bump(entries, key, v)->0;
    if j == -1 {
        assert(out[entries.len() as int].0 == key);
        assert(rat_le(v, v));
    } else {
        let s = rat_add(entries[j].1, v);
        lemma_add_wf(entries[j].1, v);
        lemma_add_nonneg(entries[j].1, v);
        lemma_le_add_left(entries[j].1, v);
        assert(out[j].0 == key && rat_le(v, out[j].1));
    }
}

/// Running aggregation state: one bucket per qualifying collection, in
/// first-qualification order, and the highest score seen so far.
pub ghost struct AggState {
    pub entries: Seq<(i32, RatModel)>,
    pub highest: RatModel,
}

/// The aggregation state after the first `n` candidates, or `None` as
/// soon as a score or a bucket sum leaves the `i64` range.
pub open spec fn spec_agg(q: NameData, cands: Seq<NameData>, p: Params, n: int) -> Option<AggState>
    decreases n,
{
    if n <= 0 {
        Some(AggState { entries: Seq::empty(), highest: rat_one() })
    } else {
        match spec_agg(q, cands, p, n - 1) {
            None => None,
            Some(st) => match spec_score(q, cands[n - 1], p) {
                None => None,
                Some(s) => {
                    let e1 = if rat_lt(p.score_cutoff@, s) {
                        try_bump(st.entries, cands[n - 1].collection, s)
                    } else {
                        Some(st.entries)
                    };
                    match e1 {
                        None => None,
                        Some(entries) => Some(
                            AggState {
                                entries,
                                highest: if rat_lt(st.highest, s) {
                                    s
                                } else {
                                    st.highest
                                },
                            },
                        ),
                    }
                },
            },
        }
    }
}

proof fn lemma_agg_none(q: NameData, cands: Seq<NameData>, p: Params, j: int, n: int)
    requires
        0 <= j <= n,
        spec_agg(q, cands, p, j) is None,
    ensures
        spec_agg(q, cands, p, n) is None,
    decreases n,
{
    if n > j {
        lemma_agg_none(q, cands, p, j, n - 1);
    }
}

proof fn lemma_agg_ok(q: NameData, cands: Seq<NameData>, p: Params, n: int)
    requires
        0 <= n <= cands.len(),
        q.wf(),
        p.valid(),
        forall|i: int| 0 <= i < cands.len() ==> (#[trigger] cands[i]).wf(),
        spec_agg(q, cands, p, n) is Some,
    ensures
        entries_ok(spec_agg(q, cands, p, n)->0.entries),
        rat_wf(spec_agg(q, cands, p, n)->0.highest),
        rat_le(rat_one(), spec_agg(q, cands, p, n)->0.highest),
    decreases n,
{
    if n > 0 {
        lemma_agg_ok(q, cands, p, n - 1);
        let st = spec_agg(q, cands, p, n - 1)->0;
        let s = spec_score(q, cands[n - 1], p)->0;
        lemma_spec_score_pos(q, cands[n - 1], p);
        if rat_lt(p.score_cutoff@, s) {
            lemma_bump_ok(st.entries, cands[n - 1].collection, s);
        }
        if rat_lt(st.highest, s) {
            lemma_le_trans(rat_one(), st.highest, s);
        }
    }
}

/// The exact (unchecked) sum of the entry values.
pub open spec fn rat_sum(entries: Seq<(i32, RatModel)>) -> RatModel
    decreases entries.len(),
{
    if entries.len() == 0 {
        rat_zero()
    } else {
        rat_add(rat_sum(entries.drop_last()), entries.last().1)
    }
}

/// The checked sum of the entry values, `None` on leaving `i64` range.
pub open spec fn try_sum(entries: Seq<(i32, RatModel)>) -> Option<RatModel>
    decreases entries.len(),
{
    if entries.len() == 0 {
        Some(rat_zero())
    } else {
        match try_sum(entries.drop_last()) {
            None => None,
            Some(t) => try_add(t, entries.last().1),
        }
    }
}

proof fn lemma_sum_ok(entries: Seq<(i32, RatModel)>)
    requires
        forall|i: int|
            0 <= i < entries.len() ==> rat_wf((#[trigger] entries[i]).1) && entries[i].1.n >= 0,
        try_sum(entries) is Some,
    ensures
        try_sum(entries)->0 == rat_sum(entries),
        rat_wf(rat_sum(entries)),
        rat_sum(entries).n >= 0,
        forall|i: int| 0 <= i < entries.len() ==> rat_le((#[trigger] entries[i]).1, rat_sum(entries)),
    decreases entries.len(),
{
    if entries.len() > 0 {
        let prefix = entries.drop_last();
        assert(forall|i: int| 0 <= i < prefix.len() ==> prefix[i] == entries[i]);
        lemma_sum_ok(prefix);
        let t = rat_sum(prefix);
        let last = entries.last().1;
        lemma_add_wf(t, last);
        lemma_add_nonneg(t, last);
        lemma_le_add_left(t, last);
        lemma_le_add_right(t, last);
        assert forall|i: int| 0 <= i < entries.len() implies rat_le(
            (#[trigger] entries[i]).1,
            rat_sum(entries),
        ) by {
            if i < entries.len() - 1 {
                lemma_le_trans(entries[i].1, t, rat_sum(entries));
            }
        }
    }
}

proof fn lemma_rat_sum_wf(entries: Seq<(i32, RatModel)>)
    requires
        forall|i: int|
            0 <= i < entries.len() ==> rat_wf((#[trigger] entries[i]).1) && entries[i].1.n >= 0,
    ensures
        rat_wf(rat_sum(entries)),
        rat_sum(entries).n >= 0,
    decreases entries.len(),
{
    if entries.len() > 0 {
        let prefix = entries.drop_last();
        assert(forall|i: int| 0 <= i < prefix.len() ==> prefix[i] == entries[i]);
        lemma_rat_sum_wf(prefix);
        assert(entries.last() == entries[entries.len() - 1]);
        lemma_add_wf(rat_sum(prefix), entries.last().1);
        lemma_add_nonneg(rat_sum(prefix), entries.last().1);
    }
}

/// Every entry value divided by `total`, `None` on leaving `i64` range.
pub open spec fn try_norm(entries: Seq<(i32, RatModel)>, total: RatModel) -> Option<
    Seq<(i32, RatModel)>,
>
    decreases entries.len(),
{
    if entries.len() == 0 {
        Some(Seq::empty())
    } else {
        match try_norm(entries.drop_last(), total) {
            None => None,
            Some(rest) => match try_div(entries.last().1, total) {
                None => None,
                Some(v) => Some(rest.push((entries.last().0, v))),
            },
        }
    }
}

proof fn lemma_norm_ok(entries: Seq<(i32, RatModel)>, total: RatModel)
    requires
        forall|i: int|
            0 <= i < entries.len() ==> rat_wf((#[trigger] entries[i]).1) && entries[i].1.n >= 0,
        forall|i: int| 0 <= i < entries.len() ==> rat_le((#[trigger] entries[i]).1, total),
        rat_wf(total),
        total.n > 0,
        try_norm(entries, total) is Some,
    ensures
        try_norm(entries, total)->0.len() == entries.len(),
        forall|i: int|
            0 <= i < entries.len() ==> (#[trigger] try_norm(entries, total)->0[i]) == (
            entries[i].0,
            rat_div(entries[i].1, total),
            ),
        forall|i: int|
            0 <= i < entries.len() ==> rat_wf((#[trigger] try_norm(entries, total)->0[i]).1)
                && rat_le(rat_zero(), try_norm(entries, total)->0[i].1)
                && rat_le(try_norm(entries, total)->0[i].1, rat_one()),
        rat_wf(rat_sum(try_norm(entries, total)->0)),
        rat_eqv(rat_sum(try_norm(entries, total)->0), rat_div(rat_sum(entries), total)),
    decreases entries.len(),
{
    if entries.len() == 0 {
        assert(rat_eqv(rat_sum(try_norm(entries, total)->0), rat_div(rat_sum(entries), total)))
            by (nonlinear_arith)
            requires
                rat_sum(try_norm(entries, total)->0) == rat_zero(),
                rat_sum(entries) == rat_zero(),
                rat_wf(total),
                total.n > 0,
        ;
    } else {
        let prefix = entries.drop_last();
        assert(forall|i: int| 0 <= i < prefix.len() ==> prefix[i] == entries[i]);
        lemma_norm_ok(prefix, total);
        let rest = try_norm(prefix, total)->0;
        assert(entries.last() == entries[entries.len() - 1]);
        let last = entries.last().1;
        assert(rat_wf(last) && last.n >= 0 && rat_le(last, total));
        let dv = rat_div(last, total);
        assert(rat_wf(dv) && dv.n >= 0) by {
            lemma_nonneg_mul_nonneg(last.n, total.d);
            lemma_pos_mul_pos(last.d, total.n);
        }
        assert(rat_le(dv, rat_one())) by {
            assert(last.n * total.d <= total.n * last.d);
            assert(total.n * last.d == last.d * total.n) by (nonlinear_arith);
        }
        let out = try_norm(entries, total)->0;
        assert(out =~= rest.push((entries.last().0, dv)));
        assert(out.drop_last() =~= rest);
        assert(rat_sum(out) == rat_add(rat_sum(rest), dv));
        lemma_add_wf(rat_sum(rest), dv);
        lemma_rat_sum_wf(prefix);
        assert(rat_wf(rat_div(rat_sum(prefix), total))) by {
            lemma_pos_mul_pos(rat_sum(prefix).d, total.n);
        }
        assert(rat_wf(rat_div(rat_add(rat_sum(prefix), last), total))) by {
            lemma_add_wf(rat_sum(prefix), last);
            lemma_pos_mul_pos(rat_add(rat_sum(prefix), last).d, total.n);
        }
        lemma_eqv_add_congr(rat_sum(rest), rat_div(rat_sum(prefix), total), dv);
        lemma_div_add(rat_sum(prefix), last, total);
        lemma_add_wf(rat_div(rat_sum(prefix), total), dv);
        lemma_eqv_trans(
            rat_sum(out),
            rat_add(rat_div(rat_sum(prefix), total), dv),
            rat_div(rat_add(rat_sum(prefix), last), total),
        );
        assert(rat_sum(entries) == rat_add(rat_sum(prefix), last));
        assert(rat_le(rat_zero(), dv)) by {
            assert(0 * dv.d == 0) by (nonlinear_arith);
        }
        assert forall|i: int| 0 <= i < entries.len() implies rat_wf((#[trigger] out[i]).1)
            && rat_le(rat_zero(), out[i].1) && rat_le(out[i].1, rat_one()) by {
            if i < entries.len() - 1 {
                assert(out[i] == rest[i]);
                assert(rat_wf(rest[i].1));
                assert(rat_le(rat_zero(), rest[i].1));
                assert(rat_le(rest[i].1, rat_one()));
            } else {
                assert(out[i] == (entries.last().0, dv));
            }
        }
    }
}

proof fn lemma_try_sum_none(entries: Seq<(i32, RatModel)>, j: int, n: int)
    requires
        0 <= j <= n <= entries.len(),
        try_sum(entries.take(j)) is None,
    ensures
        try_sum(entries.take(n)) is None,
    decreases n,
{
    if n > j {
        lemma_try_sum_none(entries, j, n - 1);
        assert(entries.take(n).drop_last() =~= entries.take(n - 1));
    }
}

proof fn lemma_try_norm_none(entries: Seq<(i32, RatModel)>, total: RatModel, j: int, n: int)
    requires
        0 <= j <= n <= entries.len(),
        try_norm(entries.take(j), total) is None,
    ensures
        try_norm(entries.take(n), total) is None,
    decreases n,
{
    if n > j {
        lemma_try_norm_none(entries, total, j, n - 1);
        assert(entries.take(n).drop_last() =~= entries.take(n - 1));
    }
}

/// The normalized probability distribution for `q` against `cands`:
/// the buckets of `spec_agg`, the highest score added into the
/// reserved bucket keyed 0, each divided by the sum of all buckets.
/// `None` exactly where the exact arithmetic leaves the `i64` range.
pub open spec fn spec_probs(q: NameData, cands: Seq<NameData>, p: Params) -> Option<
    Seq<(i32, RatModel)>,
> {
    match spec_agg(q, cands, p, cands.len() as int) {
        None => None,
        Some(st) => match try_bump(st.entries, 0, st.highest) {
            None => None,
            Some(entries) => match try_sum(entries) {
                None => None,
                Some(total) => try_norm(entries, total),
            },
        },
    }
}

/// A score the scorer actually produced has components in `i64` range.
proof fn lemma_spec_score_fits(n1: NameData, n2: NameData, p: Params)
    requires
        spec_score(n1, n2, p) is Some,
    ensures
        fits_i64(spec_score(n1, n2, p)->0.n),
        fits_i64(spec_score(n1, n2, p)->0.d),
{
    if n1.name_id != n2.name_id {
        assert(spec_score(n1, n2, p)->0 == try_mul(
            rat_div(
                author_factor(
                    if n1.citation_group == n2.citation_group {
                        try_mul_opt(
                            if n1.tl_country == n2.tl_country {
                                try_mul(rat_one(), p.country_boost@)
                            } else {
                                Some(rat_one())
                            },
                            p.cg_boost@,
                        )
                    } else {
                        if n1.tl_country == n2.tl_country {
                            try_mul(rat_one(), p.country_boost@)
                        } else {
                            Some(rat_one())
                        }
                    },
                    n1.authors@,
                    n2.authors@,
                    p.author_boost@,
                )->0,
                try_pow(p.year_factor@, year_gap(n1.year as int, n2.year as int))->0,
            ),
            p.year_boost@,
        )->0);
    }
}

/// When every candidate scores at or below the score cutoff, no
/// collection bucket forms: the aggregation state holds no entries.
proof fn lemma_agg_empty(q: NameData, cands: Seq<NameData>, p: Params, n: int)
    requires
        0 <= n <= cands.len(),
        forall|i: int|
            0 <= i < cands.len() ==> spec_score(q, #[trigger] cands[i], p) is Some && !rat_lt(
                p.score_cutoff@,
                spec_score(q, cands[i], p)->0,
            ),
    ensures
        spec_agg(q, cands, p, n) is Some,
        spec_agg(q, cands, p, n)->0.entries == Seq::<(i32, RatModel)>::empty(),
        fits_i64(spec_agg(q, cands, p, n)->0.highest.n),
        fits_i64(spec_agg(q, cands, p, n)->0.highest.d),
    decreases n,
{
    if n > 0 {
        lemma_agg_empty(q, cands, p, n - 1);
        lemma_spec_score_fits(q, cands[n - 1], p);
    }
}

/// When every candidate scores at or below the score cutoff, the
/// reserved bucket 0 is the only entry of the distribution, and it
/// carries all the mass: its normalized value is exactly 1.  With no
/// candidates at all the distribution is always defined, and is the
/// single entry `(0, 1)`.
pub proof fn lemma_all_below_cutoff(q: NameData, cands: Seq<NameData>, p: Params)
    requires
        q.wf(),
        p.valid(),
        forall|i: int| 0 <= i < cands.len() ==> (#[trigger] cands[i]).wf(),
        forall|i: int|
            0 <= i < cands.len() ==> spec_score(q, #[trigger] cands[i], p) is Some && !rat_lt(
                p.score_cutoff@,
                spec_score(q, cands[i], p)->0,
            ),
    ensures
        cands.len() == 0 ==> spec_probs(q, cands, p) is Some,
        spec_probs(q, cands, p) is Some ==> spec_probs(q, cands, p)->0.len() == 1,
        spec_probs(q, cands, p) is Some ==> spec_probs(q, cands, p)->0[0].0 == 0,
        spec_probs(q, cands, p) is Some ==> rat_eqv(spec_probs(q, cands, p)->0[0].1, rat_one()),
{
    let n = cands.len() as int;
    lemma_agg_empty(q, cands, p, n);
    lemma_agg_ok(q, cands, p, n);
    let st = spec_agg(q, cands, p, n)->0;
    let h = st.highest;
    assert(h.n >= h.d && h.d > 0);
    let empty = Seq::<(i32, RatModel)>::empty();
    assert(find_key(empty, 0) == -1);
    let bumped = empty.push((0, h));
    assert(try_bump(st.entries, 0, h) == Some(bumped));
    assert(bumped.drop_last() =~= empty);
    assert(bumped.last() == (0i32, h));
    assert(rat_add(rat_zero(), h).n == h.n) by (nonlinear_arith);
    assert(rat_add(rat_zero(), h).d == h.d) by (nonlinear_arith);
    assert(rat_add(rat_zero(), h) == h);
    assert(try_add(rat_zero(), h) == Some(h));
    assert(bumped.drop_last() == empty);
    assert(try_sum(empty) == Some(rat_zero()));
    assert(try_sum(bumped) == Some(h));
    assert(spec_probs(q, cands, p) == try_norm(bumped, h));
    lemma_div_self(h);
    if cands.len() == 0 {
        assert(h == rat_one());
        assert(fits_i64(rat_div(h, h).n) && fits_i64(rat_div(h, h).d));
    }
    if try_norm(bumped, h) is Some {
        let res = try_norm(bumped, h)->0;
        assert(try_norm(empty, h) == Some(Seq::<(i32, RatModel)>::empty()));
        assert(try_norm(bumped.drop_last(), h) == Some(Seq::<(i32, RatModel)>::empty()));
        assert(res == Seq::<(i32, RatModel)>::empty().push((0i32, rat_div(h, h))));
        assert(res[0] == (0i32, rat_div(h, h)));
    }
}

/// Adds `v` into the bucket keyed `key`, appending a new bucket when
/// the key is absent.  Returns `false` (entries left untouched) when
/// the addition leaves the `i64` range.
fn bump_entry(entries: &mut Vec<(i32, Rat)>, key: i32, v: &Rat) -> (ok: bool)
    requires
        forall|i: int| 0 <= i < old(entries)@.len() ==> (#[trigger] old(entries)@[i]).1.wf(),
        v.wf(),
    ensures
        ok <==> try_bump(view_entries(old(entries)@), key, v@) is Some,
        !ok ==> final(entries)@ == old(entries)@,
        ok ==> view_entries(final(entries)@) == try_bump(view_entries(old(entries)@), key, v@)->0,
        ok ==> forall|i: int| 0 <= i < final(entries)@.len() ==> (#[trigger] final(entries)@[i]).1.wf(),
{
    let ghost ve = view_entries(entries@);
    proof {
        lemma_find_key(ve, key);
    }
    let mut j: usize = 0;
    while j < entries.len()
        invariant
            entries@ == old(entries)@,
            ve == view_entries(entries@),
            j <= entries@.len(),
            forall|i: int| 0 <= i < j ==> (#[trigger] ve[i]).0 != key,
            forall|i: int| 0 <= i < entries@.len() ==> (#[trigger] entries@[i]).1.wf(),
            v.wf(),
        decreases entries@.len() - j,
    {
        if entries[j].0 == key {
            proof {
                lemma_find_key(ve, key);
                let jf = find_key(ve, key);
                assert(ve[j as int].0 == key);
                if jf == -1 {
                    assert(ve[j as int].0 != key);
                }
                if 0 <= jf < j {
                    assert(ve[jf].0 != key);
                }
                if jf > j {
                    assert(ve[j as int].0 != key);
                }
                assert(jf == j);
            }
            let newv = match entries[j].1.checked_add(v) {
                Some(nv) => nv,
                None => {
                    return false;
                },
            };
            entries[j] = (key, newv);
            proof {
                assert(view_entries(entries@) =~= ve.update(j as int, (key, newv@)));
            }
            return true;
        }
        j = j + 1;
    }
    proof {
        lemma_find_key(ve, key);
        let jf = find_key(ve, key);
        if jf >= 0 {
            assert(ve[jf].0 != key);
        }
        assert(jf == -1);
    }
    entries.push((key, *v));
    proof {
        assert(view_entries(entries@) =~= ve.push((key, v@)));
    }
    true
}

/// Probability distribution over collections for a query against a
/// training set.
///
/// Returns entries `(collection, probability)` with pairwise distinct
/// keys, in first-qualification order with the reserved key 0 present;
/// the values are exact rationals in `[0, 1]` summing to exactly 1.
/// `Err(Overflow)` exactly when the exact arithmetic leaves the `i64`
/// range.
pub fn get_probs(data: &NameData, train_data: &Vec<NameData>, params: &Params) -> (r: Result<
    Vec<(i32, Rat)>,
    Overflow,
>)
    requires
        data.wf(),
        forall|i: int| 0 <= i < train_data@.len() ==> (#[trigger] train_data@[i]).wf(),
        params.valid(),
    ensures
        r is Ok <==> spec_probs(*data, train_data@, *params) is Some,
        r is Ok ==> view_entries(r->Ok_0@) == spec_probs(*data, train_data@, *params)->0,
        r is Ok ==> (exists|i: int|
            0 <= i < r->Ok_0@.len() && (#[trigger] view_entries(r->Ok_0@)[i]).0 == 0 && rat_lt(
                rat_zero(),
                view_entries(r->Ok_0@)[i].1,
            )),
        r is Ok ==> rat_eqv(rat_sum(view_entries(r->Ok_0@)), rat_one()),
        r is Ok ==> forall|i: int|
            0 <= i < r->Ok_0@.len() ==> (#[trigger] r->Ok_0@[i]).1.wf() && rat_le(
                rat_zero(),
                r->Ok_0@[i].1@,
            ) && rat_le(r->Ok_0@[i].1@, rat_one()),
        r is Ok ==> forall|i: int, j: int|
            0 <= i < j < r->Ok_0@.len() ==> (#[trigger] r->Ok_0@[i]).0 != (
            #[trigger] r->Ok_0@[j]).0,
{
    let ghost q = *data;
    let ghost cands = train_data@;
    let ghost p = *params;
    let mut entries: Vec<(i32, Rat)> = Vec::new();
    let mut highest = Rat::one();
    let mut idx: usize = 0;
    proof {
        assert(view_entries(entries@) =~= spec_agg(q, cands, p, 0)->0.entries);
    }
    while idx < train_data.len()
        invariant
            *data == q,
            train_data@ == cands,
            *params == p,
            data.wf(),
            params.valid(),
            forall|i: int| 0 <= i < cands.len() ==> (#[trigger] cands[i]).wf(),
            idx <= cands.len(),
            spec_agg(q, cands, p, idx as int) is Some,
            view_entries(entries@) == spec_agg(q, cands, p, idx as int)->0.entries,
            highest@ == spec_agg(q, cands, p, idx as int)->0.highest,
            highest.wf(),
            forall|i: int| 0 <= i < entries@.len() ==> (#[trigger] entries@[i]).1.wf(),
        decreases cands.len() - idx,
    {
        let ghost st = spec_agg(q, cands, p, idx as int)->0;
        let score = match get_score(data, &train_data[idx], params) {
            Ok(s) => s,
            Err(e) => {
                proof {
                    assert(spec_agg(q, cands, p, idx + 1) is None);
                    lemma_agg_none(q, cands, p, idx + 1, cands.len() as int);
                }
                return Err(e);
            },
        };
        if params.score_cutoff.lt(&score) {
            let key = train_data[idx].collection;
            let ok = bump_entry(&mut entries, key, &score);
            if !ok {
                proof {
                    assert(spec_agg(q, cands, p, idx + 1) is None);
                    lemma_agg_none(q, cands, p, idx + 1, cands.len() as int);
                }
                return Err(Overflow);
            }
        }
        if highest.lt(&score) {
            highest = score;
        }
        idx = idx + 1;
    }
    let ghost aggst = spec_agg(q, cands, p, cands.len() as int)->0;
    proof {
        lemma_agg_ok(q, cands, p, cands.len() as int);
        assert(highest@.n >= highest@.d);
        assert(highest@.n > 0);
    }
    let ok = bump_entry(&mut entries, 0, &highest);
    if !ok {
        return Err(Overflow);
    }
    let ghost m_entries = view_entries(entries@);
    proof {
        lemma_bump_ok(aggst.entries, 0, aggst.highest);
        assert(entries_ok(m_entries));
    }
    let ghost w_at = choose|i0: int|
        0 <= i0 < m_entries.len() && (#[trigger] m_entries[i0]).0 == 0 && rat_le(
            aggst.highest,
            m_entries[i0].1,
        );
    proof {
        assert(0 <= w_at < m_entries.len() && m_entries[w_at].0 == 0 && rat_le(
            aggst.highest,
            m_entries[w_at].1,
        ));
        lemma_le_trans(rat_one(), aggst.highest, m_entries[w_at].1);
    }
    let mut total = Rat::zero();
    let mut i: usize = 0;
    proof {
        assert(m_entries.take(0) =~= Seq::<(i32, RatModel)>::empty());
    }
    while i < entries.len()
        invariant
            *data == q,
            train_data@ == cands,
            *params == p,
            spec_agg(q, cands, p, cands.len() as int) == Some(aggst),
            try_bump(aggst.entries, 0, aggst.highest) == Some(m_entries),
            i <= entries@.len(),
            m_entries == view_entries(entries@),
            try_sum(m_entries.take(i as int)) is Some,
            total@ == try_sum(m_entries.take(i as int))->0,
            total.wf(),
            forall|k: int| 0 <= k < entries@.len() ==> (#[trigger] entries@[k]).1.wf(),
        decreases entries@.len() - i,
    {
        proof {
            assert(m_entries.take((i + 1) as int).drop_last() =~= m_entries.take(i as int));
            assert(m_entries.take((i + 1) as int).last() == m_entries[i as int]);
        }
        total = match total.checked_add(&entries[i].1) {
            Some(t) => t,
            None => {
                proof {
                    assert(try_sum(m_entries.take((i + 1) as int)) is None);
                    lemma_try_sum_none(m_entries, i + 1, m_entries.len() as int);
                    assert(m_entries.take(m_entries.len() as int) =~= m_entries);
                }
                return Err(Overflow);
            },
        };
        i = i + 1;
    }
    proof {
        assert(m_entries.take(m_entries.len() as int) =~= m_entries);
        assert(try_sum(m_entries) is Some && try_sum(m_entries)->0 == total@);
        lemma_sum_ok(m_entries);
        assert(rat_le(m_entries[w_at].1, total@));
        lemma_le_trans(rat_one(), m_entries[w_at].1, total@);
        assert(total@.n >= total@.d);
        assert(total@.n > 0);
    }
    let mut result: Vec<(i32, Rat)> = Vec::new();
    let mut k: usize = 0;
    proof {
        assert(m_entries.take(0) =~= Seq::<(i32, RatModel)>::empty());
        assert(view_entries(result@) =~= try_norm(m_entries.take(0), total@)->0);
    }
    while k < entries.len()
        invariant
            *data == q,
            train_data@ == cands,
            *params == p,
            spec_agg(q, cands, p, cands.len() as int) == Some(aggst),
            try_bump(aggst.entries, 0, aggst.highest) == Some(m_entries),
            try_sum(m_entries) == Some(total@),
            k <= entries@.len(),
            m_entries == view_entries(entries@),
            try_norm(m_entries.take(k as int), total@) is Some,
            view_entries(result@) == try_norm(m_entries.take(k as int), total@)->0,
            total.wf(),
            total@.n > 0,
            forall|t: int| 0 <= t < entries@.len() ==> (#[trigger] entries@[t]).1.wf(),
        decreases entries@.len() - k,
    {
        proof {
            assert(m_entries.take((k + 1) as int).drop_last() =~= m_entries.take(k as int));
            assert(m_entries.take((k + 1) as int).last() == m_entries[k as int]);
        }
        let v = match entries[k].1.checked_div(&total) {
            Some(v) => v,
            None => {
                proof {
                    assert(try_norm(m_entries.take((k + 1) as int), total@) is None);
                    lemma_try_norm_none(m_entries, total@, k + 1, m_entries.len() as int);
                    assert(m_entries.take(m_entries.len() as int) =~= m_entries);
                }
                return Err(Overflow);
            },
        };
        result.push((entries[k].0, v));
        proof {
            assert(view_entries(result@) =~= try_norm(m_entries.take((k + 1) as int), total@)->0);
        }
        k = k + 1;
    }
    proof {
        assert(m_entries.take(m_entries.len() as int) =~= m_entries);
        let res = try_norm(m_entries, total@)->0;
        assert(view_entries(result@) == res);
        lemma_norm_ok(m_entries, total@);
        assert(res[w_at].0 == 0);
        assert(res[w_at].1 == rat_div(m_entries[w_at].1, total@));
        assert(m_entries[w_at].1.n > 0) by {
            assert(rat_le(rat_one(), m_entries[w_at].1));
        }
        assert(res[w_at].1.n > 0) by {
            lemma_pos_mul_pos(m_entries[w_at].1.n, total@.d);
        }
        assert(rat_lt(rat_zero(), res[w_at].1)) by {
            assert(0 * res[w_at].1.d == 0) by (nonlinear_arith);
        }
        lemma_div_self(total@);
        assert(rat_sum(m_entries) == total@);
        lemma_eqv_trans(rat_sum(res), rat_div(total@, total@), rat_one());
        assert forall|a: int, b: int| 0 <= a < b < res.len() implies (#[trigger] res[a]).0 != (
        #[trigger] res[b]).0 by {
            assert(res[a].0 == m_entries[a].0 && res[b].0 == m_entries[b].0);
            assert(m_entries[a].0 != m_entries[b].0);
        }
        assert forall|t: int| 0 <= t < result@.len() implies (#[trigger] result@[t]).1.wf()
            && rat_le(rat_zero(), result@[t].1@) && rat_le(result@[t].1@, rat_one()) by {
            assert(result@[t].1@ == res[t].1);
        }
        assert forall|a: int, b: int| 0 <= a < b < result@.len() implies (
        #[trigger] result@[a]).0 != (#[trigger] result@[b]).0 by {
            assert(result@[a].0 == res[a].0 && result@[b].0 == res[b].0);
            assert(res[a].0 != res[b].0);
        }
    }
    Ok(result)
}

} // verus!
