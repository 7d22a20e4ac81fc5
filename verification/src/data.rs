//! Value types of the pipeline: name records, scoring configuration,
//! the evaluation summary, and the overflow error.

use vstd::prelude::*;
use crate::rat::Rat;

verus! {

/// Raised when an exact rational computation leaves the `i64` range.
#[derive(Debug, Clone, Copy, PartialEq, Eq)]
pub struct Overflow;

/// One name attribution: the record being matched or classified.
///
/// All fields are set at construction and never mutated.  `name_id`
/// uniquely identifies the record within its dataset; two records with
/// the same id are treated as the same record and never match each
/// other.
#[derive(Debug)]
pub struct NameData {
    /// The group this record belongs to; the classification target.
    pub collection: i32,
    /// Territorial/linguistic attribute code.
    pub tl_country: i32,
    /// Publication/event year.
    pub year: i32,
    /// Author identifiers; compared first for exact equality, then by
    /// overlap proportion.
    pub authors: Vec<i32>,
    /// Secondary citation-cluster attribute, independent of collection.
    pub citation_group: i32,
    /// Unique record identifier.
    pub name_id: i32,
}

impl NameData {
    /// The author list is short enough that counts over two lists stay
    /// well inside `i64`.
    pub open spec fn wf(&self) -> bool {
        self.authors@.len() <= 0x7fff_ffff
    }

    pub fn new(
        collection: i32,
        tl_country: i32,
        year: i32,
        authors: Vec<i32>,
        citation_group: i32,
        name_id: i32,
    ) -> (r: NameData)
        requires
            authors@.len() <= 0x7fff_ffff,
        ensures
            r.collection == collection,
            r.tl_country == tl_country,
            r.year == year,
            r.authors@ == authors@,
            r.citation_group == citation_group,
            r.name_id == name_id,
            r.wf(),
    {
        NameData { collection, tl_country, year, authors, citation_group, name_id }
    }
}

/// Scoring configuration: multiplicative boosts and decision cutoffs.
#[derive(Debug, Clone, Copy)]
pub struct Params {
    /// Applied when the two countries are equal.
    pub country_boost: Rat,
    /// Applied when the two citation groups are equal.
    pub cg_boost: Rat,
    /// Applied to the author term when author sets are equal or overlap.
    pub author_boost: Rat,
    /// Base of the power-law year decay; similarity falls off as
    /// `1 / year_factor ^ gap`.
    pub year_factor: Rat,
    /// Constant factor applied together with the year decay.
    pub year_boost: Rat,
    /// Minimum raw pairwise score counted toward a collection bucket.
    pub score_cutoff: Rat,
    /// Minimum normalized probability needed to commit to a decision.
    pub probability_cutoff: Rat,
}

impl Params {
    /// Every field is a well-formed rational.
    pub open spec fn wf(&self) -> bool {
        &&& self.country_boost.wf()
        &&& self.cg_boost.wf()
        &&& self.author_boost.wf()
        &&& self.year_factor.wf()
        &&& self.year_boost.wf()
        &&& self.score_cutoff.wf()
        &&& self.probability_cutoff.wf()
    }

    /// A valid configuration: every boost and the decay factor strictly
    /// positive.  A non-positive boost or factor is malformed
    /// configuration, the only kind of input the pipeline rejects by
    /// precondition.
    pub open spec fn valid(&self) -> bool {
        &&& self.wf()
        &&& self.country_boost@.n > 0
        &&& self.cg_boost@.n > 0
        &&& self.author_boost@.n > 0
        &&& self.year_factor@.n > 0
        &&& self.year_boost@.n > 0
    }

    pub fn new(
        country_boost: Rat,
        cg_boost: Rat,
        author_boost: Rat,
        year_factor: Rat,
        year_boost: Rat,
        score_cutoff: Rat,
        probability_cutoff: Rat,
    ) -> (r: Params)
        ensures
            r.country_boost == country_boost,
            r.cg_boost == cg_boost,
            r.author_boost == author_boost,
            r.year_factor == year_factor,
            r.year_boost == year_boost,
            r.score_cutoff == score_cutoff,
            r.probability_cutoff == probability_cutoff,
    {
        Params {
            country_boost,
            cg_boost,
            author_boost,
            year_factor,
            year_boost,
            score_cutoff,
            probability_cutoff,
        }
    }

    /// Runtime check of `valid`, for callers outside verified code.
    pub fn is_valid(&self) -> (r: bool)
        ensures
            r == self.valid(),
    {
        self.country_boost.den > 0 && self.cg_boost.den > 0 && self.author_boost.den > 0
            && self.year_factor.den > 0 && self.year_boost.den > 0 && self.score_cutoff.den > 0
            && self.probability_cutoff.den > 0 && self.country_boost.num > 0
            && self.cg_boost.num > 0 && self.author_boost.num > 0 && self.year_factor.num > 0
            && self.year_boost.num > 0
    }
}

/// Aggregate accuracy of the classifier over a labeled test set.
#[derive(Debug, Clone, Copy, PartialEq, Eq, Structural)]
pub struct ScoreInfo {
    /// `correct - incorrect * FALSE_POSITIVE_COST`.
    pub score: i64,
    /// Decisions equal to the test record's own collection.
    pub correct: i64,
    /// Decisions different from the test record's own collection.
    pub incorrect: i64,
    /// Test records on which no decision cleared the cutoff.
    pub no_value: i64,
}

} // verus!
