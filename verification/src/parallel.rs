//! The cluster search with the first cluster's buildings handed out to a
//! pool of threads.
//!
//! Each building of the first cluster is held against the whole second
//! cluster on some thread, and the results are combined pairwise in an order
//! that the pool chooses. That the outcome is the one of the sequential
//! search is proved here for every such order.

use vstd::prelude::*;
use rayon::iter::{IntoParallelRefIterator, ParallelIterator};
use crate::distance::{lemma_least_laws, Separation};
use crate::model::{Building, ClusterPosition};
use crate::search::{
    least_between,
    least_to,
    nearest_in_cluster,
    place_cluster,
    search_result,
};
use crate::transform::{Placement, PlacementError};

verus! {

/// One way of combining a row of separations pairwise: which neighbours are
/// joined first, and where the identity is slipped in.
pub enum Reduction {
    /// The identity, standing for no item.
    Identity,
    /// One item of the row.
    Item(Separation),
    /// Two neighbouring parts, combined.
    Join(Box<Reduction>, Box<Reduction>),
}

impl Reduction {
    /// The items of the row, from left to right.
    pub open spec fn items(self) -> Seq<Separation>
        decreases self,
    {
        match self {
            Reduction::Identity => Seq::empty(),
            Reduction::Item(s) => seq![s],
            Reduction::Join(left, right) => left.items() + right.items(),
        }
    }

    /// What the combination comes to.
    pub open spec fn value(self) -> Separation
        decreases self,
    {
        match self {
            Reduction::Identity => Separation::Unbounded,
            Reduction::Item(s) => s,
            Reduction::Join(left, right) => left.value().least(right.value()),
        }
    }
}

/// Whether some pairwise combination of `row` comes to `outcome`.
pub open spec fn reduces_to(row: Seq<Separation>, outcome: Separation) -> bool {
    exists|t: Reduction| t.items() == row && t.value() == outcome
}

/// The least of a row of separations, taken from left to right.
pub open spec fn least_of(row: Seq<Separation>) -> Separation
    decreases row.len(),
{
    if row.len() == 0 {
        Separation::Unbounded
    } else {
        least_of(row.drop_last()).least(row.last())
    }
}

/// For each building of `first`, its least separation from `second`.
pub open spec fn row_minima(first: Seq<Building>, second: Seq<Building>) -> Seq<Separation> {
    Seq::new(first.len(), |i: int| least_to(first[i], second))
}

/// The least of two rows laid end to end is the smaller of their leasts.
pub proof fn lemma_least_of_concat(left: Seq<Separation>, right: Seq<Separation>)
    ensures
        least_of(left + right) == least_of(left).least(least_of(right)),
    decreases right.len(),
{
    if right.len() == 0 {
        assert(left + right == left);
        lemma_least_laws(least_of(left), Separation::Unbounded, Separation::Unbounded);
    } else {
        assert((left + right).drop_last() == left + right.drop_last());
        assert((left + right).last() == right.last());
        lemma_least_of_concat(left, right.drop_last());
        lemma_least_laws(least_of(left), least_of(right.drop_last()), right.last());
    }
}

/// However a row is combined pairwise, the outcome is its least from left
/// to right.
pub proof fn lemma_reduction_value(t: Reduction)
    ensures
        t.value() == least_of(t.items()),
    decreases t,
{
    match t {
        Reduction::Identity => {},
        Reduction::Item(s) => {
            assert(seq![s].drop_last() == Seq::<Separation>::empty());
            assert(least_of(Seq::<Separation>::empty()) == Separation::Unbounded);
            lemma_least_laws(s, s, s);
        },
        Reduction::Join(left, right) => {
            lemma_reduction_value(*left);
            lemma_reduction_value(*right);
            lemma_least_of_concat(left.items(), right.items());
        },
    }
}

/// The least separation between two clusters is the least of the row of
/// the first cluster's per-building minima.
pub proof fn lemma_least_between_by_rows(first: Seq<Building>, second: Seq<Building>)
    ensures
        least_between(first, second) == least_of(row_minima(first, second)),
    decreases first.len(),
{
    if first.len() > 0 {
        lemma_least_between_by_rows(first.drop_last(), second);
        assert(row_minima(first, second).drop_last() == row_minima(first.drop_last(), second));
    }
}

/// The parallel search finds what the sequential search finds: however the
/// per-building minima of the first cluster are combined pairwise, the
/// outcome is the least separation between the two clusters.
pub proof fn lemma_any_reduction_is_least_between(
    first: Seq<Building>,
    second: Seq<Building>,
    outcome: Separation,
)
    requires
        reduces_to(row_minima(first, second), outcome),
    ensures
        outcome == least_between(first, second),
{
    let t = choose|t: Reduction| t.items() == row_minima(first, second) && t.value() == outcome;
    lemma_reduction_value(t);
    lemma_least_between_by_rows(first, second);
}

/// Hands the buildings of `first` out to rayon's thread pool: `par_iter`
/// over the cluster, `map` with [`nearest_in_cluster`] against `second`, and
/// `reduce` with [`Separation::min`] and [`Separation::unbounded`] as the
/// identity.
///
/// Believed of rayon, not proved: what comes back is the outcome of
/// combining the mapped items pairwise with the given operation, in their
/// order but grouped as the pool sees fit, with the identity slipped in
/// wherever it likes.
#[verifier::external_body]
fn reduce_rows_in_parallel(first: &Vec<Building>, second: &Vec<Building>) -> (r: Separation)
    ensures
        reduces_to(row_minima(first@, second@), r),
{
    first.par_iter().map(|b| nearest_in_cluster(b, second)).reduce(
        || Separation::unbounded(),
        |a, b| a.min(b),
    )
}

/// The least separation between two clusters that stand in the shared
/// frame, with the buildings of the first handed out to a pool of threads.
pub fn least_separation_parallel(first: &Vec<Building>, second: &Vec<Building>) -> (r: Separation)
    ensures
        r == least_between(first@, second@),
{
    let r: Separation = reduce_rows_in_parallel(first, second);
    proof {
        lemma_any_reduction_is_least_between(first@, second@, r);
    }
    r
}

/// The least separation between the buildings of two clusters, each under
/// its own placement, with the pairwise work spread over a pool of threads.
/// The outcome is that of [`crate::search::min_distance_between_clusters`].
pub fn min_distance_between_clusters_parallel(
    cluster_a: &Vec<Building>,
    cluster_b: &Vec<Building>,
    placement_a: Placement,
    placement_b: Placement,
) -> (r: Result<Separation, PlacementError>)
    ensures
        r == search_result(cluster_a@, cluster_b@, placement_a, placement_b),
{
    let first: Vec<Building> = match place_cluster(cluster_a, placement_a) {
        Ok(v) => v,
        Err(e) => {
            return Err(e);
        },
    };
    let second: Vec<Building> = match place_cluster(cluster_b, placement_b) {
        Ok(v) => v,
        Err(e) => {
            return Err(e);
        },
    };
    Ok(least_separation_parallel(&first, &second))
}

/// The least separation between the buildings of two clusters that are
/// shifted into the shared frame, with the pairwise work spread over a pool
/// of threads. The outcome is that of
/// [`crate::search::calculate_distance_between_two_clusters`].
pub fn calculate_distance_between_two_clusters_parallel(
    first_cluster_buildings: Vec<Building>,
    second_cluster_buildings: Vec<Building>,
    first_cluster_position: ClusterPosition,
    second_cluster_position: ClusterPosition,
) -> (r: Result<Separation, PlacementError>)
    ensures
        r == search_result(
            first_cluster_buildings@,
            second_cluster_buildings@,
            Placement::Shift(first_cluster_position),
            Placement::Shift(second_cluster_position),
        ),
{
    min_distance_between_clusters_parallel(
        &first_cluster_buildings,
        &second_cluster_buildings,
        Placement::Shift(first_cluster_position),
        Placement::Shift(second_cluster_position),
    )
}

} // verus!
