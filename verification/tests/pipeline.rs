use typeinfer::{evaluate_model, get_probs, get_score, get_top_choice, NameData, Params, Rat};

fn rec(collection: i32, country: i32, year: i32, authors: Vec<i32>, cg: i32, id: i32) -> NameData {
    NameData::new(collection, country, year, authors, cg, id)
}

fn params(
    country_boost: (i64, i64),
    cg_boost: (i64, i64),
    author_boost: (i64, i64),
    year_factor: (i64, i64),
    year_boost: (i64, i64),
    score_cutoff: (i64, i64),
    probability_cutoff: (i64, i64),
) -> Params {
    Params::new(
        Rat::new(country_boost.0, country_boost.1),
        Rat::new(cg_boost.0, cg_boost.1),
        Rat::new(author_boost.0, author_boost.1),
        Rat::new(year_factor.0, year_factor.1),
        Rat::new(year_boost.0, year_boost.1),
        Rat::new(score_cutoff.0, score_cutoff.1),
        Rat::new(probability_cutoff.0, probability_cutoff.1),
    )
}

fn default_params() -> Params {
    params((2, 1), (2, 1), (3, 1), (2, 1), (1, 1), (2, 1), (1, 3))
}

#[test]
fn self_match_scores_zero() {
    let p = default_params();
    let a = rec(1, 10, 2000, vec![1, 2], 5, 7);
    let b = rec(2, 11, 1990, vec![3], 6, 7);
    let s = get_score(&a, &a, &p).unwrap();
    assert!(s.equiv(&Rat::zero()));
    // Different fields everywhere, but the same id still short-circuits.
    let s2 = get_score(&a, &b, &p).unwrap();
    assert!(s2.equiv(&Rat::zero()));
}

#[test]
fn score_composes_boosts_and_year_decay() {
    // Identical country, citation group and author sets, one year
    // apart: 2 * 2 * 3 * (1 / 2^1) * 1 == 6.
    let p = default_params();
    let a = rec(1, 10, 2000, vec![1, 2], 5, 1);
    let b = rec(1, 10, 2001, vec![1, 2], 5, 2);
    let s = get_score(&a, &b, &p).unwrap();
    assert!(s.equiv(&Rat::from_int(6)));
}

#[test]
fn score_year_boost_scales_result() {
    // Same setup, year_boost = 5/2: 12 * (1/2) * (5/2) == 15.
    let p = params((2, 1), (2, 1), (3, 1), (2, 1), (5, 2), (2, 1), (1, 3));
    let a = rec(1, 10, 2000, vec![1, 2], 5, 1);
    let b = rec(1, 10, 2001, vec![1, 2], 5, 2);
    let s = get_score(&a, &b, &p).unwrap();
    assert!(s.equiv(&Rat::from_int(15)));
}

#[test]
fn score_partial_author_overlap() {
    // Authors [1,2] vs [2,3]: 1 shared of 3 total, proportion 1/3;
    // no other attribute matches, same year: (1/3)*3 == 1.
    let p = default_params();
    let a = rec(1, 10, 2000, vec![1, 2], 5, 1);
    let b = rec(2, 11, 2000, vec![2, 3], 6, 2);
    let s = get_score(&a, &b, &p).unwrap();
    assert!(s.equiv(&Rat::one()));
}

#[test]
fn score_disjoint_authors_skip_author_term() {
    // No shared author: the author term multiplies nothing, it does
    // not zero the score.  Same country only: 2 * (1/2^0) == 2.
    let p = default_params();
    let a = rec(1, 10, 2000, vec![1], 5, 1);
    let b = rec(2, 10, 2000, vec![9], 6, 2);
    let s = get_score(&a, &b, &p).unwrap();
    assert!(s.equiv(&Rat::from_int(2)));
}

#[test]
fn score_empty_author_sets_use_equality() {
    // Two empty author lists are equal: the boost applies and no
    // division happens.  Nothing else matches, same year: 3.
    let p = default_params();
    let a = rec(1, 10, 2000, vec![], 5, 1);
    let b = rec(2, 11, 2000, vec![], 6, 2);
    let s = get_score(&a, &b, &p).unwrap();
    assert!(s.equiv(&Rat::from_int(3)));
}

#[test]
fn score_year_gap_power_decay() {
    // Gap of 3 years, factor 2: country match only: 2 / 8 == 1/4.
    let p = default_params();
    let a = rec(1, 10, 2000, vec![1], 5, 1);
    let b = rec(2, 10, 2003, vec![9], 6, 2);
    let s = get_score(&a, &b, &p).unwrap();
    assert!(s.equiv(&Rat::new(1, 4)));
}

#[test]
fn score_overflow_reported() {
    let p = params(
        (i64::MAX, 1),
        (i64::MAX, 1),
        (3, 1),
        (2, 1),
        (1, 1),
        (2, 1),
        (1, 3),
    );
    let a = rec(1, 10, 2000, vec![1], 5, 1);
    let b = rec(2, 10, 2000, vec![9], 5, 2);
    // country and citation group both match: MAX * MAX overflows.
    assert!(get_score(&a, &b, &p).is_err());
}

fn lookup(m: &Vec<(i32, Rat)>, key: i32) -> Option<Rat> {
    for e in m {
        if e.0 == key {
            return Some(e.1);
        }
    }
    None
}

#[test]
fn probabilities_sum_to_one_and_hold_reserved_bucket() {
    let p = default_params();
    let q = rec(0, 10, 2000, vec![1, 2], 5, 100);
    let train = vec![
        rec(1, 10, 2000, vec![1, 2], 5, 1),
        rec(2, 11, 1990, vec![7], 6, 2),
        rec(1, 10, 2001, vec![1, 2], 5, 3),
    ];
    let m = get_probs(&q, &train, &p).unwrap();
    let mut total = Rat::zero();
    for e in &m {
        total = total.checked_add(&e.1).unwrap();
    }
    assert!(total.equiv(&Rat::one()));
    let reserved = lookup(&m, 0).unwrap();
    assert!(reserved.is_positive());
    // Collection 1 accumulates both qualifying scores, 12 and 6; the
    // reserved bucket takes the highest, 12; the total is 30.
    let matched = lookup(&m, 1).unwrap();
    assert!(matched.equiv(&Rat::new(3, 5)));
    assert!(reserved.equiv(&Rat::new(2, 5)));
    let (c, prob) = get_top_choice(&q, &train, &p).unwrap().unwrap();
    assert_eq!(c, 1);
    assert!(prob.equiv(&Rat::new(3, 5)));
}

#[test]
fn probabilities_all_below_cutoff_leave_only_reserved_bucket() {
    // Nothing matches and the cutoff is 2, so no score (all exactly 1)
    // qualifies: the reserved bucket keeps everything.
    let p = default_params();
    let q = rec(0, 10, 2000, vec![1], 5, 100);
    let train = vec![
        rec(1, 11, 2000, vec![7], 6, 1),
        rec(2, 12, 2000, vec![8], 7, 2),
    ];
    let m = get_probs(&q, &train, &p).unwrap();
    assert_eq!(m.len(), 1);
    assert_eq!(m[0].0, 0);
    assert!(m[0].1.equiv(&Rat::one()));
}

#[test]
fn probabilities_empty_training_set() {
    let p = default_params();
    let q = rec(0, 10, 2000, vec![1], 5, 100);
    let train: Vec<NameData> = vec![];
    let m = get_probs(&q, &train, &p).unwrap();
    assert_eq!(m.len(), 1);
    assert_eq!(m[0].0, 0);
    assert!(m[0].1.equiv(&Rat::one()));
}

#[test]
fn top_choice_empty_training_set_boundary() {
    let q = rec(0, 10, 2000, vec![1], 5, 100);
    let train: Vec<NameData> = vec![];
    // Cutoff 1: the single probability 1 does not strictly exceed it.
    let p_high = params((2, 1), (2, 1), (3, 1), (2, 1), (1, 1), (2, 1), (1, 1));
    assert!(get_top_choice(&q, &train, &p_high).unwrap().is_none());
    // Cutoff 1/2: the reserved bucket itself is chosen.
    let p_low = params((2, 1), (2, 1), (3, 1), (2, 1), (1, 1), (2, 1), (1, 2));
    let (c, prob) = get_top_choice(&q, &train, &p_low).unwrap().unwrap();
    assert_eq!(c, 0);
    assert!(prob.equiv(&Rat::one()));
}

#[test]
fn single_strong_match_drives_decision() {
    // Three training records in three collections; the query clears
    // the cutoff against exactly one.  That match's score is also the
    // highest seen, so the reserved bucket holds the same mass: both
    // end at probability 1/2, and the matching collection, scanned
    // first, wins the tie once the cutoff is below 1/2.
    let p = default_params();
    let q = rec(0, 10, 2000, vec![1, 2], 5, 100);
    let train = vec![
        rec(1, 10, 2000, vec![1, 2], 5, 1),
        rec(2, 11, 1990, vec![7], 6, 2),
        rec(3, 12, 1980, vec![8], 7, 3),
    ];
    let m = get_probs(&q, &train, &p).unwrap();
    assert_eq!(m.len(), 2);
    let matched = lookup(&m, 1).unwrap();
    let reserved = lookup(&m, 0).unwrap();
    assert!(matched.equiv(&Rat::new(1, 2)));
    assert!(reserved.equiv(&Rat::new(1, 2)));
    let (c, prob) = get_top_choice(&q, &train, &p).unwrap().unwrap();
    assert_eq!(c, 1);
    assert!(prob.equiv(&Rat::new(1, 2)));
}

#[test]
fn top_choice_none_when_cutoff_not_exceeded() {
    // Probabilities are 1/2 each; a cutoff of 1/2 is not strictly
    // exceeded by either entry.
    let p = params((2, 1), (2, 1), (3, 1), (2, 1), (1, 1), (2, 1), (1, 2));
    let q = rec(0, 10, 2000, vec![1, 2], 5, 100);
    let train = vec![
        rec(1, 10, 2000, vec![1, 2], 5, 1),
        rec(2, 11, 1990, vec![7], 6, 2),
    ];
    assert!(get_top_choice(&q, &train, &p).unwrap().is_none());
}

#[test]
fn evaluate_counts_and_score() {
    let p = default_params();
    let train = vec![
        rec(1, 10, 2000, vec![1, 2], 5, 1),
        rec(2, 20, 1990, vec![7, 8], 6, 2),
    ];
    let test = vec![
        // Matches the collection-1 record strongly and carries
        // collection 1 itself: a correct decision.
        rec(1, 10, 2000, vec![1, 2], 5, 100),
        // Matches the collection-1 record strongly but carries
        // collection 2: an incorrect decision.
        rec(2, 10, 2000, vec![1, 2], 5, 101),
        // Matches nothing: no score qualifies, so the reserved
        // bucket alone holds probability 1, which exceeds the cutoff
        // 1/3: the decision is collection 0, incorrect for this
        // record.
        rec(3, 30, 1995, vec![9], 9, 102),
    ];
    let si = evaluate_model(&train, &test, &p).unwrap();
    assert_eq!(si.correct, 1);
    assert_eq!(si.incorrect, 2);
    assert_eq!(si.no_value, 0);
    assert_eq!(si.score, 1 - 2 * 10);
    assert_eq!(si.correct + si.incorrect + si.no_value, test.len() as i64);
}

#[test]
fn evaluate_counts_no_decision() {
    // Cutoff 1 can never be strictly exceeded: every record counts as
    // no-decision and the score is 0.
    let p = params((2, 1), (2, 1), (3, 1), (2, 1), (1, 1), (2, 1), (1, 1));
    let train = vec![rec(1, 10, 2000, vec![1, 2], 5, 1)];
    let test = vec![
        rec(1, 10, 2000, vec![1, 2], 5, 100),
        rec(2, 20, 1990, vec![7], 6, 101),
    ];
    let si = evaluate_model(&train, &test, &p).unwrap();
    assert_eq!(si.correct, 0);
    assert_eq!(si.incorrect, 0);
    assert_eq!(si.no_value, 2);
    assert_eq!(si.score, 0);
}

#[test]
fn evaluate_overflow_reported() {
    let p = params(
        (i64::MAX, 1),
        (i64::MAX, 1),
        (3, 1),
        (2, 1),
        (1, 1),
        (2, 1),
        (1, 3),
    );
    let train = vec![rec(1, 10, 2000, vec![1], 5, 1)];
    let test = vec![rec(1, 10, 2000, vec![2], 5, 100)];
    assert!(evaluate_model(&train, &test, &p).is_err());
}

#[test]
fn rational_comparisons() {
    let half = Rat::new(1, 2);
    let two_quarters = Rat::new(2, 4);
    assert!(half.equiv(&two_quarters));
    assert!(half.lt(&Rat::one()));
    assert!(half.le(&two_quarters));
    assert!(!Rat::one().lt(&half));
    assert!(half.is_positive());
    assert!(!Rat::zero().is_positive());
    assert!(!Rat::new(-1, 2).is_positive());
}

#[test]
fn rational_checked_arithmetic() {
    let a = Rat::new(1, 2);
    let b = Rat::new(1, 3);
    let sum = a.checked_add(&b).unwrap();
    assert!(sum.equiv(&Rat::new(5, 6)));
    let prod = a.checked_mul(&b).unwrap();
    assert!(prod.equiv(&Rat::new(1, 6)));
    let quot = a.checked_div(&b).unwrap();
    assert!(quot.equiv(&Rat::new(3, 2)));
    let big = Rat::new(i64::MAX, 1);
    assert!(big.checked_mul(&big).is_none());
    assert!(big.checked_add(&Rat::new(1, 3)).is_none());
}

#[test]
fn params_validity_check() {
    let good = default_params();
    assert!(good.is_valid());
    let bad = params((2, 1), (2, 1), (3, 1), (0, 1), (1, 1), (2, 1), (1, 3));
    assert!(!bad.is_valid());
}

#[test]
fn debug_rendering_lists_fields() {
    let a = rec(1, 10, 2000, vec![1, 2], 5, 7);
    let shown = format!("{:?}", a);
    assert!(shown.contains("collection"));
    assert!(shown.contains("name_id"));
    let p = default_params();
    let shown_p = format!("{:?}", p);
    assert!(shown_p.contains("country_boost"));
    let si = evaluate_model(&vec![], &vec![], &p).unwrap();
    let shown_si = format!("{:?}", si);
    assert!(shown_si.contains("score"));
}
