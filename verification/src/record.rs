//! The decoded remote record and the acceptance filter.
//!
//! A `Movie` is the part of a fetched payload that the filter reads: two
//! numeric measures and three collections of sub-entities, each sub-entity
//! reduced to its identifier. The filter is a pure predicate: a record is
//! accepted exactly when its budget strictly exceeds a minimum, its revenue
//! reaches a minimum, and its genre, cast and crew collections are all
//! non-empty. The thresholds travel in an explicit `FilterConfig` rather
//! than being baked into the predicate.

use vstd::prelude::*;

verus! {

/// A sub-entity (genre, cast member, crew member) reduced to its identifier.
#[derive(Clone, Copy, Debug, PartialEq, Eq, Structural)]
pub struct IdObject {
    pub id: usize,
}

/// The people attached to a record: cast and crew.
#[derive(Debug)]
pub struct Credits {
    pub cast: Vec<IdObject>,
    pub crew: Vec<IdObject>,
}

/// The fields of a fetched record that the filter reads. The cast doubles
/// as the record's collection of secondary identifiers.
#[derive(Debug)]
pub struct Movie {
    pub budget: usize,
    pub revenue: usize,
    pub genres: Vec<IdObject>,
    pub credits: Credits,
}

/// The mathematical shape of a `Movie`: plain measures and the identifier
/// sequences of its three collections.
pub ghost struct MovieView {
    pub budget: usize,
    pub revenue: usize,
    pub genres: Seq<usize>,
    pub cast: Seq<usize>,
    pub crew: Seq<usize>,
}

impl View for Movie {
    type V = MovieView;

    open spec fn view(&self) -> MovieView {
        MovieView {
            budget: self.budget,
            revenue: self.revenue,
            genres: self.genres@.map_values(|g: IdObject| g.id),
            cast: self.credits.cast@.map_values(|g: IdObject| g.id),
            crew: self.credits.crew@.map_values(|g: IdObject| g.id),
        }
    }
}

/// Minimum budget a record must strictly exceed under the standard thresholds.
pub const MIN_BUDGET: usize = 1000;

/// Minimum revenue a record must reach under the standard thresholds.
pub const MIN_REVENUE: usize = 10000000;

/// The filter's thresholds, passed in explicitly so they can be varied.
#[derive(Clone, Copy, Debug, PartialEq, Eq, Structural)]
pub struct FilterConfig {
    pub min_budget: usize,
    pub min_revenue: usize,
}

/// The standard thresholds used when no other configuration is given.
pub open spec fn standard_config() -> FilterConfig {
    FilterConfig { min_budget: MIN_BUDGET, min_revenue: MIN_REVENUE }
}

impl Default for FilterConfig {
    /// The standard thresholds.
    fn default() -> (cfg: FilterConfig)
        ensures
            cfg == standard_config(),
    {
        FilterConfig { min_budget: MIN_BUDGET, min_revenue: MIN_REVENUE }
    }
}

/// Acceptance, stated over the record's mathematical shape: the budget is
/// strictly above the minimum, the revenue at least the minimum, and the
/// genre, cast and crew collections are all non-empty.
pub open spec fn spec_accepts(cfg: FilterConfig, m: MovieView) -> bool {
    &&& m.budget > cfg.min_budget
    &&& m.revenue >= cfg.min_revenue
    &&& m.genres.len() > 0
    &&& m.cast.len() > 0
    &&& m.crew.len() > 0
}

/// Decide acceptance of one record under the given thresholds. Pure: the
/// verdict is exactly `spec_accepts` of the record's shape, with no side
/// effect and no mutation of the record.
pub fn filter_movie_with(cfg: &FilterConfig, movie: &Movie) -> (accepted: bool)
    ensures
        accepted == spec_accepts(*cfg, movie@),
{
    movie.budget > cfg.min_budget && movie.revenue >= cfg.min_revenue
        && movie.genres.len() > 0 && movie.credits.cast.len() > 0
        && movie.credits.crew.len() > 0
}

/// Decide acceptance of one record under the standard thresholds.
pub fn filter_movie(movie: &Movie) -> (accepted: bool)
    ensures
        accepted == spec_accepts(standard_config(), movie@),
{
    let cfg = FilterConfig::default();
    filter_movie_with(&cfg, movie)
}

/// Law: the filter is referentially transparent. Its verdict is a function
/// of the configuration and the record alone, so invoking it twice on the
/// same record yields the same boolean.
pub proof fn lemma_filter_referentially_transparent(cfg: FilterConfig, a: MovieView, b: MovieView)
    requires
        a == b,
    ensures
        spec_accepts(cfg, a) == spec_accepts(cfg, b),
{
}

} // verus!
