//! Pairwise similarity between two name records.
//!
//! The score starts at 1 and is multiplied by the configured boosts for
//! matching country, citation group and authors, then by the power-law
//! year decay `(1 / year_factor ^ gap) * year_boost`.  A record never
//! matches itself: equal ids short-circuit to 0.

use vstd::prelude::*;
use crate::rat::{
    lemma_pos_mul_pos, rat_div, rat_mul, rat_one, rat_wf, rat_zero, try_div, try_mul, Rat,
    RatModel,
};
use crate::data::{NameData, Overflow, Params};

verus! {

/// How many of the first `n` entries of `a` occur in `b`.
pub open spec fn shared_upto(a: Seq<i32>, b: Seq<i32>, n: int) -> int
    decreases n,
{
    if n <= 0 {
        0
    } else {
        shared_upto(a, b, n - 1) + if b.contains(a[n - 1]) {
            1int
        } else {
            0int
        }
    }
}

/// How many entries of `a` occur in `b` (entries counted with their
/// multiplicity in `a`).
pub open spec fn shared_authors(a: Seq<i32>, b: Seq<i32>) -> int {
    shared_upto(a, b, a.len() as int)
}

proof fn lemma_shared_upto_bounds(a: Seq<i32>, b: Seq<i32>, n: int)
    requires
        0 <= n <= a.len(),
    ensures
        0 <= shared_upto(a, b, n) <= n,
        b.len() == 0 ==> shared_upto(a, b, n) == 0,
    decreases n,
{
    if n > 0 {
        lemma_shared_upto_bounds(a, b, n - 1);
        if b.len() == 0 {
            assert(!b.contains(a[n - 1]));
        }
    }
}

/// Checked product lifted over an optional left operand.
pub open spec fn try_mul_opt(a: Option<RatModel>, b: RatModel) -> Option<RatModel> {
    match a {
        Some(x) => try_mul(x, b),
        None => None,
    }
}

/// Checked quotient lifted over an optional dividend.
pub open spec fn try_div_opt(a: Option<RatModel>, b: RatModel) -> Option<RatModel> {
    match a {
        Some(x) => try_div(x, b),
        None => None,
    }
}

/// Checked `f ^ k` by repeated multiplication; `None` as soon as a
/// partial product leaves the `i64` range.
pub open spec fn try_pow(f: RatModel, k: nat) -> Option<RatModel>
    decreases k,
{
    if k == 0 {
        Some(rat_one())
    } else {
        try_mul_opt(try_pow(f, (k - 1) as nat), f)
    }
}

proof fn lemma_try_pow_none(f: RatModel, j: nat, k: nat)
    requires
        j <= k,
        try_pow(f, j) is None,
    ensures
        try_pow(f, k) is None,
    decreases k,
{
    if k > j {
        lemma_try_pow_none(f, j, (k - 1) as nat);
    }
}

/// A power of a positive rational is positive and well-formed.
proof fn lemma_try_pow_pos(f: RatModel, k: nat)
    requires
        rat_wf(f),
        f.n > 0,
    ensures
        try_pow(f, k) is Some ==> (try_pow(f, k)->0).n > 0 && rat_wf(try_pow(f, k)->0),
    decreases k,
{
    if k > 0 {
        lemma_try_pow_pos(f, (k - 1) as nat);
        if try_pow(f, k) is Some {
            let prev = try_pow(f, (k - 1) as nat)->0;
            lemma_pos_mul_pos(prev.n, f.n);
            lemma_pos_mul_pos(prev.d, f.d);
        }
    }
}

/// The author term of the score: `author_boost` for equal author lists,
/// `(shared / total) * author_boost` for a partial overlap, and no
/// factor at all when nothing is shared.
pub open spec fn author_factor(
    s: Option<RatModel>,
    a: Seq<i32>,
    b: Seq<i32>,
    boost: RatModel,
) -> Option<RatModel> {
    if a == b {
        try_mul_opt(s, boost)
    } else {
        let sh = shared_authors(a, b);
        let tot = a.len() + b.len() - sh;
        if sh > 0 {
            match try_mul(RatModel { n: sh, d: tot }, boost) {
                Some(f) => try_mul_opt(s, f),
                None => None,
            }
        } else {
            s
        }
    }
}

/// The absolute difference of two years.
pub open spec fn year_gap(a: int, b: int) -> nat {
    if a >= b {
        (a - b) as nat
    } else {
        (b - a) as nat
    }
}

/// The full pairwise score, or `None` where the exact arithmetic would
/// leave the `i64` range.
pub open spec fn spec_score(n1: NameData, n2: NameData, p: Params) -> Option<RatModel> {
    if n1.name_id == n2.name_id {
        Some(rat_zero())
    } else {
        let s1 = if n1.tl_country == n2.tl_country {
            try_mul(rat_one(), p.country_boost@)
        } else {
            Some(rat_one())
        };
        let s2 = if n1.citation_group == n2.citation_group {
            try_mul_opt(s1, p.cg_boost@)
        } else {
            s1
        };
        let s3 = author_factor(s2, n1.authors@, n2.authors@, p.author_boost@);
        match try_pow(p.year_factor@, year_gap(n1.year as int, n2.year as int)) {
            None => None,
            Some(pw) => try_mul_opt(try_div_opt(s3, pw), p.year_boost@),
        }
    }
}

/// Under a valid configuration every score is nonnegative and
/// well-formed, and a score between records with different ids is
/// strictly positive; equal ids score exactly zero.
pub proof fn lemma_spec_score_pos(n1: NameData, n2: NameData, p: Params)
    requires
        n1.wf(),
        n2.wf(),
        p.valid(),
        spec_score(n1, n2, p) is Some,
    ensures
        rat_wf(spec_score(n1, n2, p)->0),
        spec_score(n1, n2, p)->0.n >= 0,
        n1.name_id != n2.name_id ==> spec_score(n1, n2, p)->0.n > 0,
        n1.name_id == n2.name_id ==> spec_score(n1, n2, p)->0 == rat_zero(),
{
    if n1.name_id != n2.name_id {
        let cb = p.country_boost@;
        let gb = p.cg_boost@;
        let ab = p.author_boost@;
        let s1o = if n1.tl_country == n2.tl_country {
            try_mul(rat_one(), cb)
        } else {
            Some(rat_one())
        };
        let s2o = if n1.citation_group == n2.citation_group {
            try_mul_opt(s1o, gb)
        } else {
            s1o
        };
        let s3o = author_factor(s2o, n1.authors@, n2.authors@, ab);
        assert(s3o is Some && s2o is Some && s1o is Some);
        let s1 = s1o->0;
        assert(rat_wf(s1) && s1.n > 0) by {
            if n1.tl_country == n2.tl_country {
                lemma_pos_mul_pos(1, cb.n);
                lemma_pos_mul_pos(1, cb.d);
            }
        }
        let s2 = s2o->0;
        assert(rat_wf(s2) && s2.n > 0) by {
            if n1.citation_group == n2.citation_group {
                lemma_pos_mul_pos(s1.n, gb.n);
                lemma_pos_mul_pos(s1.d, gb.d);
            }
        }
        let s3 = s3o->0;
        assert(rat_wf(s3) && s3.n > 0) by {
            let a = n1.authors@;
            let b = n2.authors@;
            if a == b {
                lemma_pos_mul_pos(s2.n, ab.n);
                lemma_pos_mul_pos(s2.d, ab.d);
            } else {
                let sh = shared_authors(a, b);
                let tot = a.len() + b.len() - sh;
                if sh > 0 {
                    lemma_shared_upto_bounds(a, b, a.len() as int);
                    assert(b.len() > 0);
                    assert(tot > 0);
                    let ov = RatModel { n: sh, d: tot };
                    let f = rat_mul(ov, ab);
                    lemma_pos_mul_pos(ov.n, ab.n);
                    lemma_pos_mul_pos(ov.d, ab.d);
                    lemma_pos_mul_pos(s2.n, f.n);
                    lemma_pos_mul_pos(s2.d, f.d);
                }
            }
        }
        let k = year_gap(n1.year as int, n2.year as int);
        let pwo = try_pow(p.year_factor@, k);
        assert(pwo is Some);
        let pw = pwo->0;
        lemma_try_pow_pos(p.year_factor@, k);
        let q = rat_div(s3, pw);
        assert(rat_wf(q) && q.n > 0) by {
            lemma_pos_mul_pos(s3.n, pw.d);
            lemma_pos_mul_pos(s3.d, pw.n);
        }
        let yb = p.year_boost@;
        lemma_pos_mul_pos(q.n, yb.n);
        lemma_pos_mul_pos(q.d, yb.d);
    }
}

/// Whether `v` holds `x`.
pub fn contains_val(v: &Vec<i32>, x: i32) -> (r: bool)
    ensures
        r == v@.contains(x),
{
    let mut i: usize = 0;
    while i < v.len()
        invariant
            i <= v@.len(),
            forall|j: int| 0 <= j < i ==> v@[j] != x,
        decreases v@.len() - i,
    {
        if v[i] == x {
            assert(v@[i as int] == x);
            return true;
        }
        i = i + 1;
    }
    false
}

/// Whether the two vectors hold the same entries in the same order.
pub fn vecs_equal(a: &Vec<i32>, b: &Vec<i32>) -> (r: bool)
    ensures
        r == (a@ == b@),
{
    if a.len() != b.len() {
        return false;
    }
    let mut i: usize = 0;
    while i < a.len()
        invariant
            a@.len() == b@.len(),
            i <= a@.len(),
            forall|j: int| 0 <= j < i ==> a@[j] == b@[j],
        decreases a@.len() - i,
    {
        if a[i] != b[i] {
            return false;
        }
        i = i + 1;
    }
    proof {
        assert(a@ =~= b@);
    }
    true
}

/// How many entries of `a` occur in `b`.
pub fn count_shared(a: &Vec<i32>, b: &Vec<i32>) -> (r: usize)
    ensures
        r == shared_authors(a@, b@),
        r <= a@.len(),
{
    let mut shared: usize = 0;
    let mut i: usize = 0;
    while i < a.len()
        invariant
            i <= a@.len(),
            shared == shared_upto(a@, b@, i as int),
            shared <= i,
        decreases a@.len() - i,
    {
        if contains_val(b, a[i]) {
            shared = shared + 1;
        }
        i = i + 1;
    }
    shared
}

/// Pairwise similarity of two records under the given configuration.
///
/// Equal ids score exactly 0; otherwise the score is the exact product
/// of the matching boosts and the year decay.  `Err(Overflow)` exactly
/// when that exact arithmetic leaves the `i64` range.
pub fn get_score(nam1: &NameData, nam2: &NameData, params: &Params) -> (r: Result<Rat, Overflow>)
    requires
        nam1.wf(),
        nam2.wf(),
        params.valid(),
    ensures
        r is Ok <==> spec_score(*nam1, *nam2, *params) is Some,
        r is Ok ==> r->Ok_0@ == spec_score(*nam1, *nam2, *params)->0 && r->Ok_0.wf(),
        nam1.name_id == nam2.name_id ==> r == Ok::<Rat, Overflow>(Rat { num: 0, den: 1 }),
{
    if nam1.name_id == nam2.name_id {
        return Ok(Rat::zero());
    }
    let mut score = Rat::one();
    if nam1.tl_country == nam2.tl_country {
        score = match score.checked_mul(&params.country_boost) {
            Some(s) => s,
            None => {
                return Err(Overflow);
            },
        };
    }
    if nam1.citation_group == nam2.citation_group {
        score = match score.checked_mul(&params.cg_boost) {
            Some(s) => s,
            None => {
                return Err(Overflow);
            },
        };
    }
    if vecs_equal(&nam1.authors, &nam2.authors) {
        score = match score.checked_mul(&params.author_boost) {
            Some(s) => s,
            None => {
                return Err(Overflow);
            },
        };
    } else {
        let shared = count_shared(&nam1.authors, &nam2.authors);
        proof {
            lemma_shared_upto_bounds(nam1.authors@, nam2.authors@, nam1.authors@.len() as int);
        }
        if shared > 0 {
            let total = nam1.authors.len() + nam2.authors.len() - shared;
            let overlap = Rat::new(shared as i64, total as i64);
            let factor = match overlap.checked_mul(&params.author_boost) {
                Some(f) => f,
                None => {
                    return Err(Overflow);
                },
            };
            score = match score.checked_mul(&factor) {
                Some(s) => s,
                None => {
                    return Err(Overflow);
                },
            };
        }
    }
    let y1 = nam1.year as i64;
    let y2 = nam2.year as i64;
    let gap: i64 = if y1 >= y2 {
        y1 - y2
    } else {
        y2 - y1
    };
    proof {
        lemma_try_pow_pos(params.year_factor@, gap as nat);
    }
    let pw = match rat_pow(&params.year_factor, gap as u64) {
        Some(p) => p,
        None => {
            return Err(Overflow);
        },
    };
    score = match score.checked_div(&pw) {
        Some(s) => s,
        None => {
            return Err(Overflow);
        },
    };
    score = match score.checked_mul(&params.year_boost) {
        Some(s) => s,
        None => {
            return Err(Overflow);
        },
    };
    Ok(score)
}

/// Checked `f ^ k` by repeated multiplication.
pub fn rat_pow(f: &Rat, k: u64) -> (r: Option<Rat>)
    requires
        f.wf(),
    ensures
        r is Some <==> try_pow(f@, k as nat) is Some,
        r is Some ==> r->0@ == try_pow(f@, k as nat)->0 && r->0.wf(),
{
    let mut acc = Rat::one();
    let mut i: u64 = 0;
    while i < k
        invariant
            f.wf(),
            i <= k,
            try_pow(f@, i as nat) is Some,
            acc@ == try_pow(f@, i as nat)->0,
            acc.wf(),
        decreases k - i,
    {
        match acc.checked_mul(f) {
            Some(a2) => {
                acc = a2;
                i = i + 1;
            },
            None => {
                proof {
                    assert(try_pow(f@, (i + 1) as nat) is None);
                    lemma_try_pow_none(f@, (i + 1) as nat, k as nat);
                }
                return None;
            },
        }
    }
    Some(acc)
}

} // verus!
