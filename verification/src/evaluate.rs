//! Accuracy of the classifier over a labeled test set.
//!
//! Every test record is classified against the training set.  A
//! decision is correct when the chosen collection equals the record's
//! own collection; the aggregate score charges each incorrect decision
//! ten times what a correct one earns, and records without a decision
//! count separately.

use vstd::prelude::*;
use crate::data::{NameData, Overflow, Params, ScoreInfo};
use crate::choice::{get_top_choice, spec_top};
use crate::probs::spec_probs;

verus! {

/// What one incorrect decision costs, in units of one correct decision.
pub const FALSE_POSITIVE_COST: i64 = 10;

/// `(correct, incorrect, no_value)` after the first `n` test records,
/// or `None` as soon as a distribution leaves the `i64` range.
pub open spec fn spec_eval(
    train: Seq<NameData>,
    test: Seq<NameData>,
    p: Params,
    n: int,
) -> Option<(int, int, int)>
    decreases n,
{
    if n <= 0 {
        Some((0, 0, 0))
    } else {
        match spec_eval(train, test, p, n - 1) {
            None => None,
            Some(acc) => match spec_probs(test[n - 1], train, p) {
                None => None,
                Some(m) => {
                    let t = spec_top(m, p.probability_cutoff@, m.len() as int);
                    if t.0 == -1 {
                        Some((acc.0, acc.1, acc.2 + 1))
                    } else if t.0 == test[n - 1].collection {
                        Some((acc.0 + 1, acc.1, acc.2))
                    } else {
                        Some((acc.0, acc.1 + 1, acc.2))
                    }
                },
            },
        }
    }
}

pub proof fn lemma_eval_none(train: Seq<NameData>, test: Seq<NameData>, p: Params, j: int, n: int)
    requires
        0 <= j <= n,
        spec_eval(train, test, p, j) is None,
    ensures
        spec_eval(train, test, p, n) is None,
    decreases n,
{
    if n > j {
        lemma_eval_none(train, test, p, j, n - 1);
    }
}

/// Runs the classifier over every test record against the training
/// set.  The counts satisfy `correct + incorrect + no_value == |test|`
/// and the score is exactly `correct - incorrect * FALSE_POSITIVE_COST`.
/// `Err(Overflow)` exactly when some distribution leaves the `i64`
/// range.
pub fn evaluate_model(
    train_data: &Vec<NameData>,
    test_data: &Vec<NameData>,
    params: &Params,
) -> (r: Result<ScoreInfo, Overflow>)
    requires
        forall|i: int| 0 <= i < train_data@.len() ==> (#[trigger] train_data@[i]).wf(),
        forall|i: int| 0 <= i < test_data@.len() ==> (#[trigger] test_data@[i]).wf(),
        params.valid(),
        test_data@.len() <= 0x7fff_ffff,
    ensures
        r is Ok <==> spec_eval(train_data@, test_data@, *params, test_data@.len() as int) is Some,
        r is Ok ==> ({
            let acc = spec_eval(train_data@, test_data@, *params, test_data@.len() as int)->0;
            &&& r->Ok_0.correct == acc.0
            &&& r->Ok_0.incorrect == acc.1
            &&& r->Ok_0.no_value == acc.2
        }),
        r is Ok ==> r->Ok_0.score == r->Ok_0.correct - r->Ok_0.incorrect * FALSE_POSITIVE_COST,
        r is Ok ==> r->Ok_0.correct + r->Ok_0.incorrect + r->Ok_0.no_value == test_data@.len(),
        r is Ok ==> r->Ok_0.correct >= 0 && r->Ok_0.incorrect >= 0 && r->Ok_0.no_value >= 0,
{
    let ghost train = train_data@;
    let ghost test = test_data@;
    let ghost p = *params;
    let mut correct: i64 = 0;
    let mut incorrect: i64 = 0;
    let mut no_value: i64 = 0;
    let mut idx: usize = 0;
    while idx < test_data.len()
        invariant
            train_data@ == train,
            test_data@ == test,
            *params == p,
            forall|i: int| 0 <= i < train.len() ==> (#[trigger] train[i]).wf(),
            forall|i: int| 0 <= i < test.len() ==> (#[trigger] test[i]).wf(),
            params.valid(),
            test.len() <= 0x7fff_ffff,
            idx <= test.len(),
            spec_eval(train, test, p, idx as int) == Some(
                (correct as int, incorrect as int, no_value as int),
            ),
            correct >= 0,
            incorrect >= 0,
            no_value >= 0,
            correct + incorrect + no_value == idx,
        decreases test.len() - idx,
    {
        let tc = match get_top_choice(&test_data[idx], train_data, params) {
            Ok(c) => c,
            Err(e) => {
                proof {
                    assert(spec_eval(train, test, p, idx + 1) is None);
                    lemma_eval_none(train, test, p, idx + 1, test.len() as int);
                }
                return Err(e);
            },
        };
        match tc {
            None => {
                no_value = no_value + 1;
            },
            Some((c, _prob)) => {
                if c == test_data[idx].collection {
                    correct = correct + 1;
                } else {
                    incorrect = incorrect + 1;
                }
            },
        }
        idx = idx + 1;
    }
    let score = correct - incorrect * FALSE_POSITIVE_COST;
    Ok(ScoreInfo { score, correct, incorrect, no_value })
}

} // verus!
