//! Sampling the Lagrange basis for a figure: one curve per node, each over
//! the same stations, and the name under which the figure of a grid is kept.
//!
//! The value of a basis polynomial at a station is the caller's to compute;
//! it is given as a function `basis(p, x)` that may fail. The sampler
//! decides the order of the calls and stops at the first failure.

use vstd::prelude::*;
use crate::constraints::rows_of;
use crate::grid::{GridSpec, GridType};

verus! {

/// Whether `curve` holds, station by station, values that `basis` returned
/// for node `p`.
pub open spec fn is_sampled_curve<T, E, B: Fn(usize, T) -> Result<T, E>>(
    basis: B,
    p: int,
    stations: Seq<T>,
    curve: Seq<T>,
) -> bool {
    &&& curve.len() == stations.len()
    &&& forall|s: int|
        0 <= s < curve.len() ==> call_ensures(
            basis,
            (p as usize, stations[s]),
            Ok::<T, E>(#[trigger] curve[s]),
        )
}

/// Whether `basis` failed with `e` for node `p` at station `s`.
pub open spec fn fails_at<T, E, B: Fn(usize, T) -> Result<T, E>>(
    basis: B,
    p: int,
    s: int,
    stations: Seq<T>,
    e: E,
) -> bool {
    0 <= s < stations.len() && call_ensures(basis, (p as usize, stations[s]), Err::<T, E>(e))
}

/// Whether `basis` returned a value for node `q` at station `t`.
pub open spec fn succeeds_at<T, E, B: Fn(usize, T) -> Result<T, E>>(
    basis: B,
    q: int,
    t: int,
    stations: Seq<T>,
) -> bool {
    exists|value: T| call_ensures(basis, (q as usize, stations[t]), Ok::<T, E>(value))
}

/// Whether `basis` returned a value at every place that comes before
/// station `s` of node `p`: at all stations of the nodes before `p`, and at
/// the stations before `s` of node `p` itself.
pub open spec fn succeeds_before<T, E, B: Fn(usize, T) -> Result<T, E>>(
    basis: B,
    p: int,
    s: int,
    stations: Seq<T>,
) -> bool {
    forall|q: int, t: int|
        0 <= q <= p && 0 <= t < stations.len() && (q < p || t < s) ==> #[trigger] succeeds_at::<
            T,
            E,
            B,
        >(basis, q, t, stations)
}

/// Samples every basis polynomial of the grid at every station: curve `p`
/// of the result holds the values of `basis(p, x)` for the stations `x` in
/// their order. The calls are made node by node and, for each node, station
/// by station; the first failure ends the sampling and is returned.
pub fn sample_basis<T: Copy, E, B: Fn(usize, T) -> Result<T, E>>(
    grid: &GridSpec,
    stations: &Vec<T>,
    basis: B,
) -> (made: Result<Vec<Vec<T>>, E>)
    requires
        forall|q: usize, x: T| call_requires(basis, (q, x)),
    ensures
        made matches Ok(curves) ==> curves.len() == grid.spec_node_count() && forall|p: int|
            0 <= p < curves.len() ==> is_sampled_curve(
                basis,
                p,
                stations@,
                #[trigger] rows_of(curves@)[p],
            ),
        made matches Err(e) ==> exists|p: int, s: int|
            0 <= p < grid.spec_node_count() && fails_at(basis, p, s, stations@, e)
                && succeeds_before(basis, p, s, stations@),
        stations.len() == 0 ==> made is Ok,
{
    let count = grid.node_count();
    let mut curves: Vec<Vec<T>> = Vec::new();
    let mut p: usize = 0;
    while p < count
        invariant
            p <= count,
            count == grid.spec_node_count(),
            curves.len() == p,
            forall|q: usize, x: T| call_requires(basis, (q, x)),
            forall|q: int|
                0 <= q < p ==> is_sampled_curve(
                    basis,
                    q,
                    stations@,
                    #[trigger] rows_of(curves@)[q],
                ),
        decreases count - p,
    {
        let mut curve: Vec<T> = Vec::new();
        let mut s: usize = 0;
        while s < stations.len()
            invariant
                p < count,
                count == grid.spec_node_count(),
                curves.len() == p,
                s <= stations.len(),
                curve.len() == s,
                forall|q: usize, x: T| call_requires(basis, (q, x)),
                forall|q: int|
                    0 <= q < p ==> is_sampled_curve(
                        basis,
                        q,
                        stations@,
                        #[trigger] rows_of(curves@)[q],
                    ),
                forall|t: int|
                    0 <= t < s ==> call_ensures(
                        basis,
                        (p, stations[t]),
                        Ok::<T, E>(#[trigger] curve[t]),
                    ),
            decreases stations.len() - s,
        {
            match basis(p, stations[s]) {
                Ok(value) => {
                    curve.push(value);
                },
                Err(e) => {
                    proof {
                        assert forall|q: int, t: int|
                            0 <= q <= p && 0 <= t < stations.len() && (q < p || t < s) implies
                            #[trigger] succeeds_at::<T, E, B>(basis, q, t, stations@) by {
                            if q < p {
                                let earlier = rows_of(curves@)[q];
                                assert(is_sampled_curve(basis, q, stations@, earlier));
                                assert(call_ensures(
                                    basis,
                                    (q as usize, stations@[t]),
                                    Ok::<T, E>(earlier[t]),
                                ));
                            } else {
                                assert(call_ensures(
                                    basis,
                                    (q as usize, stations@[t]),
                                    Ok::<T, E>(curve[t]),
                                ));
                            }
                        }
                        assert(succeeds_before(basis, p as int, s as int, stations@));
                        assert(fails_at(basis, p as int, s as int, stations@, e));
                    }
                    return Err(e);
                },
            }
            s += 1;
        }
        let ghost sampled = rows_of(curves@);
        curves.push(curve);
        assert forall|q: int| 0 <= q < p + 1 implies is_sampled_curve(
            basis,
            q,
            stations@,
            #[trigger] rows_of(curves@)[q],
        ) by {
            if q < p {
                assert(rows_of(curves@)[q] == sampled[q]);
            }
        }
        p += 1;
    }
    Ok(curves)
}

/// The lower-case name of each node distribution, as `figure_stem` gives it.
pub open spec fn figure_stem_text(kind: GridType) -> Seq<char> {
    match kind {
        GridType::Uniform => "uniform"@,
        GridType::ChebyshevGauss => "chebyshevgauss"@,
        GridType::ChebyshevGaussLobatto => "chebyshevgausslobatto"@,
    }
}

/// The part of a figure's file name that tells the node distribution: its
/// name in lower case.
pub fn figure_stem(kind: GridType) -> (stem: &'static str)
    ensures
        stem@ == figure_stem_text(kind),
{
    match kind {
        GridType::Uniform => "uniform",
        GridType::ChebyshevGauss => "chebyshevgauss",
        GridType::ChebyshevGaussLobatto => "chebyshevgausslobatto",
    }
}

} // verus!
