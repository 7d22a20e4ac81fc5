//! Selection of the best collection from the probability distribution.

use vstd::prelude::*;
use crate::rat::{lemma_le_lt_trans, rat_le, rat_lt, rat_wf, Rat, RatModel};
use crate::data::{NameData, Overflow, Params};
use crate::probs::{get_probs, spec_probs, view_entries};

verus! {

/// The scan state after the first `n` entries: the best key so far
/// (`-1` while nothing has exceeded the running threshold) and the
/// running threshold itself, which starts at the cutoff and rises to
/// each strictly larger probability.
pub open spec fn spec_top(entries: Seq<(i32, RatModel)>, cutoff: RatModel, n: int) -> (
    i32,
    RatModel,
)
    decreases n,
{
    if n <= 0 {
        (-1i32, cutoff)
    } else {
        let prev = spec_top(entries, cutoff, n - 1);
        if rat_lt(prev.1, entries[n - 1].1) {
            (entries[n - 1].0, entries[n - 1].1)
        } else {
            prev
        }
    }
}

/// The scan keeps the threshold at least the cutoff, dominates every
/// scanned probability, and lands either on the initial state or on an
/// actual entry strictly above the cutoff.
pub proof fn lemma_spec_top(entries: Seq<(i32, RatModel)>, cutoff: RatModel, n: int)
    requires
        0 <= n <= entries.len(),
        rat_wf(cutoff),
        forall|i: int| 0 <= i < entries.len() ==> rat_wf((#[trigger] entries[i]).1),
    ensures
        ({
            let t = spec_top(entries, cutoff, n);
            &&& rat_wf(t.1)
            &&& rat_le(cutoff, t.1)
            &&& (forall|i: int| 0 <= i < n ==> rat_le((#[trigger] entries[i]).1, t.1))
            &&& ((t.0 == -1 && t.1 == cutoff) || (exists|i: int|
                0 <= i < n && (#[trigger] entries[i]) == t && rat_lt(cutoff, t.1)))
        }),
    decreases n,
{
    if n > 0 {
        lemma_spec_top(entries, cutoff, n - 1);
        let prev = spec_top(entries, cutoff, n - 1);
        let cur = entries[n - 1];
        let t = spec_top(entries, cutoff, n);
        if rat_lt(prev.1, cur.1) {
            lemma_le_lt_trans(cutoff, prev.1, cur.1);
            assert forall|i: int| 0 <= i < n implies rat_le((#[trigger] entries[i]).1, t.1) by {
                if i < n - 1 {
                    lemma_le_lt_trans(entries[i].1, prev.1, cur.1);
                }
            }
            assert(entries[n - 1] == t);
        }
    }
}

/// The entry with the highest probability, scanned in entry order with
/// the running threshold started at `probability_cutoff`: nothing at
/// or below the cutoff can be chosen, and a tie keeps the earliest
/// entry.  `Ok(None)` when no probability exceeds the cutoff.
pub fn get_top_choice(data: &NameData, train_data: &Vec<NameData>, params: &Params) -> (r: Result<
    Option<(i32, Rat)>,
    Overflow,
>)
    requires
        data.wf(),
        forall|i: int| 0 <= i < train_data@.len() ==> (#[trigger] train_data@[i]).wf(),
        params.valid(),
    ensures
        r is Ok <==> spec_probs(*data, train_data@, *params) is Some,
        r is Ok ==> ({
            let m = spec_probs(*data, train_data@, *params)->0;
            let t = spec_top(m, params.probability_cutoff@, m.len() as int);
            &&& (r->Ok_0 is Some <==> t.0 != -1)
            &&& (r->Ok_0 is Some ==> (r->Ok_0->0).0 == t.0 && (r->Ok_0->0).1@ == t.1
                && (r->Ok_0->0).1.wf())
        }),
        r is Ok && r->Ok_0 is Some ==> rat_lt(params.probability_cutoff@, (r->Ok_0->0).1@),
        r is Ok && r->Ok_0 is Some ==> forall|i: int|
            0 <= i < spec_probs(*data, train_data@, *params)->0.len() ==> rat_le(
                (#[trigger] spec_probs(*data, train_data@, *params)->0[i]).1,
                (r->Ok_0->0).1@,
            ),
{
    let probs = match get_probs(data, train_data, params) {
        Ok(m) => m,
        Err(e) => {
            return Err(e);
        },
    };
    let ghost m = view_entries(probs@);
    let mut top_choice: i32 = -1;
    let mut top_score: Rat = params.probability_cutoff;
    let mut i: usize = 0;
    while i < probs.len()
        invariant
            i <= probs@.len(),
            m == view_entries(probs@),
            params.probability_cutoff.wf(),
            forall|k: int| 0 <= k < probs@.len() ==> (#[trigger] probs@[k]).1.wf(),
            (top_choice, top_score@) == spec_top(m, params.probability_cutoff@, i as int),
            top_score.wf(),
        decreases probs@.len() - i,
    {
        if top_score.lt(&probs[i].1) {
            top_choice = probs[i].0;
            top_score = probs[i].1;
        }
        i = i + 1;
    }
    proof {
        lemma_spec_top(m, params.probability_cutoff@, m.len() as int);
    }
    if top_choice == -1 {
        Ok(None)
    } else {
        Ok(Some((top_choice, top_score)))
    }
}

} // verus!
