//! Joining entities with their enrichment records by position.
//!
//! The enrichment of a list of entities is requested with the entities' own
//! identifiers, in order, and the answer keeps that order; record `i` belongs
//! to entity `i`. A count that differs means that the answer lost its
//! alignment, and the join fails rather than pair records with the wrong
//! entities.

use crate::failure::Failure;
use vstd::prelude::*;

verus! {

/// An entity together with its enrichment record.
#[derive(Debug, Clone, PartialEq, Eq)]
pub struct Combined<E, R> {
    pub entity: E,
    pub enrichment: R,
}

/// Pairs entity `i` with record `i`, for every position.
///
/// Fails with `LengthMismatch`, and pairs nothing, when the two lists differ
/// in length.
pub fn merge<E, R>(primary: Vec<E>, secondary: Vec<R>) -> (r: Result<Vec<Combined<E, R>>, Failure>)
    ensures
        r is Err <==> primary@.len() != secondary@.len(),
        r is Err ==> r->Err_0 == Failure::LengthMismatch,
        r is Ok ==> {
            &&& r->Ok_0@.len() == primary@.len()
            &&& forall|i: int|
                0 <= i < primary@.len() ==> #[trigger] r->Ok_0@[i] == (Combined {
                    entity: primary@[i],
                    enrichment: secondary@[i],
                })
        },
{
    if primary.len() != secondary.len() {
        return Err(Failure::LengthMismatch);
    }
    let n: usize = primary.len();
    let mut entities = primary;
    let mut records = secondary;
    // Taken from the back, the pairs come out last first.
    let mut reversed: Vec<Combined<E, R>> = Vec::new();
    while entities.len() > 0
        invariant
            n == primary@.len(),
            n == secondary@.len(),
            entities@.len() == records@.len(),
            entities@ == primary@.take(entities@.len() as int),
            records@ == secondary@.take(records@.len() as int),
            reversed@.len() == n - entities@.len(),
            forall|j: int|
                0 <= j < reversed@.len() ==> #[trigger] reversed@[j] == (Combined {
                    entity: primary@[n - 1 - j],
                    enrichment: secondary@[n - 1 - j],
                }),
        decreases entities@.len(),
    {
        let ghost k = entities@.len() - 1;
        let entity = entities.pop().unwrap();
        let enrichment = records.pop().unwrap();
        assert(entities@ =~= primary@.take(k));
        assert(records@ =~= secondary@.take(k));
        reversed.push(Combined { entity, enrichment });
    }
    let mut out: Vec<Combined<E, R>> = Vec::new();
    while reversed.len() > 0
        invariant
            n == primary@.len(),
            n == secondary@.len(),
            out@.len() + reversed@.len() == n,
            forall|j: int|
                0 <= j < reversed@.len() ==> #[trigger] reversed@[j] == (Combined {
                    entity: primary@[n - 1 - j],
                    enrichment: secondary@[n - 1 - j],
                }),
            forall|i: int|
                0 <= i < out@.len() ==> #[trigger] out@[i] == (Combined {
                    entity: primary@[i],
                    enrichment: secondary@[i],
                }),
        decreases reversed@.len(),
    {
        let pair = reversed.pop().unwrap();
        out.push(pair);
    }
    Ok(out)
}

/// Pairs a single entity with the first record answered for it.
///
/// Fails with `NotFound` when no record came back, or the first one is an
/// empty placeholder: for one requested entity that is an error, not an
/// empty result.
pub fn merge_single<E, R>(entity: E, records: Vec<Option<R>>) -> (r: Result<Combined<E, R>, Failure>)
    ensures
        r is Ok <==> records@.len() > 0 && records@[0] is Some,
        r is Ok ==> r->Ok_0 == (Combined { entity: entity, enrichment: records@[0]->Some_0 }),
        r is Err ==> r->Err_0 == Failure::NotFound,
{
    let mut records = records;
    if records.len() == 0 {
        return Err(Failure::NotFound);
    }
    match records.swap_remove(0) {
        Some(enrichment) => Ok(Combined { entity, enrichment }),
        None => Err(Failure::NotFound),
    }
}

} // verus!
