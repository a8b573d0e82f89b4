//! Looking up many keys through an endpoint that takes a bounded number of
//! keys per request.

use crate::failure::Failure;
use vstd::prelude::*;

verus! {

/// The largest number of identifiers that one enrichment request may carry.
pub const MAX_IDS_PER_REQUEST: usize = 100;

/// `keys` cut into consecutive chunks of `size` keys; the last chunk holds
/// what is left and may be shorter. No keys, no chunks.
pub open spec fn chunks<K>(keys: Seq<K>, size: nat) -> Seq<Seq<K>>
    decreases keys.len(),
{
    if keys.len() == 0 || size == 0 {
        Seq::empty()
    } else if keys.len() <= size {
        seq![keys]
    } else {
        seq![keys.take(size as int)] + chunks(keys.skip(size as int), size)
    }
}

/// The sequences of `parts`, one after the other.
pub open spec fn concat_all<R>(parts: Seq<Seq<R>>) -> Seq<R>
    decreases parts.len(),
{
    if parts.len() == 0 {
        Seq::empty()
    } else {
        concat_all(parts.drop_last()) + parts.last()
    }
}

/// The records that `fetch_chunk` may answer to a chunk of keys.
pub open spec fn chunk_answers<K, R, F: Fn(&[K]) -> Result<Vec<R>, Failure>>(
    fetch_chunk: F,
) -> spec_fn(Seq<K>, Seq<R>) -> bool {
    |chunk: Seq<K>, out: Seq<R>|
        exists|c: &[K], v: Vec<R>|
            c@ == chunk && v@ == out && #[trigger] call_ensures(fetch_chunk, (c,), Ok(v))
}

/// The failures that `fetch_chunk` may answer to a chunk of keys.
pub open spec fn chunk_failures<K, R, F: Fn(&[K]) -> Result<Vec<R>, Failure>>(
    fetch_chunk: F,
) -> spec_fn(Seq<K>, Failure) -> bool {
    |chunk: Seq<K>, e: Failure|
        exists|c: &[K]| c@ == chunk && #[trigger] call_ensures(fetch_chunk, (c,), Err(e))
}

/// Each of `parts` answers the chunk at its position, in order.
pub open spec fn answered_in_order<K, R>(
    answers: spec_fn(Seq<K>, Seq<R>) -> bool,
    asked: Seq<Seq<K>>,
    parts: Seq<Seq<R>>,
) -> bool {
    &&& parts.len() <= asked.len()
    &&& forall|j: int| #![trigger parts[j]] 0 <= j < parts.len() ==> answers(asked[j], parts[j])
}

/// Every chunk of `asked` was answered, and `out` is the answers in order.
pub open spec fn batch_completed<K, R>(
    answers: spec_fn(Seq<K>, Seq<R>) -> bool,
    asked: Seq<Seq<K>>,
    parts: Seq<Seq<R>>,
    out: Seq<R>,
) -> bool {
    &&& answered_in_order(answers, asked, parts)
    &&& parts.len() == asked.len()
    &&& out == concat_all(parts)
}

/// The chunks before position `parts.len()` were answered, and the request
/// for the chunk there failed with `e`.
pub open spec fn batch_failed<K, R>(
    answers: spec_fn(Seq<K>, Seq<R>) -> bool,
    fails: spec_fn(Seq<K>, Failure) -> bool,
    asked: Seq<Seq<K>>,
    parts: Seq<Seq<R>>,
    e: Failure,
) -> bool {
    &&& answered_in_order(answers, asked, parts)
    &&& parts.len() < asked.len()
    &&& fails(asked[parts.len() as int], e)
}

/// What a batched lookup of `keys` in chunks of `size` may end in: one
/// request per chunk, in order, and the concatenated answers; or the failure
/// of the first request that failed, and no records.
pub open spec fn batch_outcome<K, R>(
    answers: spec_fn(Seq<K>, Seq<R>) -> bool,
    fails: spec_fn(Seq<K>, Failure) -> bool,
    keys: Seq<K>,
    size: nat,
    r: Result<Vec<R>, Failure>,
) -> bool {
    match r {
        Ok(out) => exists|parts: Seq<Seq<R>>|
            #[trigger] batch_completed(answers, chunks(keys, size), parts, out@),
        Err(e) => exists|parts: Seq<Seq<R>>|
            #[trigger] batch_failed(answers, fails, chunks(keys, size), parts, e),
    }
}

proof fn lemma_concat_all_push<R>(parts: Seq<Seq<R>>, part: Seq<R>)
    ensures
        concat_all(parts.push(part)) == concat_all(parts) + part,
{
    assert(parts.push(part).drop_last() =~= parts);
}

/// Looks `keys` up chunk by chunk and returns the records in key order.
///
/// The keys are cut into consecutive chunks of `chunk_size` (the last may be
/// shorter); `fetch_chunk` is called once per chunk, in order, and the
/// records are concatenated in chunk order. Keys are neither reordered nor
/// deduplicated. No keys means no request and no records. The first failed
/// request ends the lookup with its failure and no records.
pub fn batch_fetch<K, R, F>(keys: &[K], chunk_size: usize, fetch_chunk: F) -> (r: Result<
    Vec<R>,
    Failure,
>) where F: Fn(&[K]) -> Result<Vec<R>, Failure>
    requires
        chunk_size > 0,
        forall|c: &[K]| call_requires(fetch_chunk, (c,)),
    ensures
        batch_outcome(
            chunk_answers(fetch_chunk),
            chunk_failures(fetch_chunk),
            keys@,
            chunk_size as nat,
            r,
        ),
        keys@.len() == 0 ==> r is Ok && r->Ok_0@.len() == 0,
{
    let ghost answers = chunk_answers(fetch_chunk);
    let ghost fails = chunk_failures(fetch_chunk);
    let ghost size = chunk_size as nat;
    let ghost all = chunks(keys@, size);
    let ghost mut asked: Seq<Seq<K>> = Seq::empty();
    let ghost mut parts: Seq<Seq<R>> = Seq::empty();
    let mut out: Vec<R> = Vec::new();
    let mut start: usize = 0;
    assert(keys@.skip(0) =~= keys@);
    assert(all =~= asked + chunks(keys@.skip(0), size));
    while start < keys.len()
        invariant
            chunk_size > 0,
            size == chunk_size as nat,
            forall|c: &[K]| call_requires(fetch_chunk, (c,)),
            answers == chunk_answers(fetch_chunk),
            fails == chunk_failures(fetch_chunk),
            all == chunks(keys@, size),
            start <= keys@.len(),
            all == asked + chunks(keys@.skip(start as int), size),
            parts.len() == asked.len(),
            answered_in_order(answers, all, parts),
            out@ == concat_all(parts),
        decreases keys@.len() - start,
    {
        let ghost rest = keys@.skip(start as int);
        let end: usize = if keys.len() - start <= chunk_size {
            keys.len()
        } else {
            start + chunk_size
        };
        let chunk = &keys[start..end];
        proof {
            if keys.len() - start <= chunk_size {
                assert(chunk@ =~= rest);
                assert(chunks(rest, size) == seq![rest]);
                assert(keys@.skip(end as int) =~= Seq::<K>::empty());
            } else {
                assert(chunk@ =~= rest.take(size as int));
                assert(rest.skip(size as int) =~= keys@.skip(end as int));
            }
            assert(chunks(rest, size) =~= seq![chunk@] + chunks(keys@.skip(end as int), size));
            assert(all =~= asked.push(chunk@) + chunks(keys@.skip(end as int), size));
            assert(all[asked.len() as int] == chunk@);
        }
        match fetch_chunk(chunk) {
            Err(e) => {
                assert(fails(chunk@, e));
                assert(batch_failed(answers, fails, all, parts, e));
                return Err(e);
            },
            Ok(records) => {
                let mut records = records;
                proof {
                    assert(answers(chunk@, records@));
                    lemma_concat_all_push(parts, records@);
                    parts = parts.push(records@);
                    asked = asked.push(chunk@);
                    assert(answered_in_order(answers, all, parts)) by {
                        assert forall|j: int| #![trigger parts[j]] 0 <= j < parts.len() implies answers(
                            all[j],
                            parts[j],
                        ) by {
                            if j < parts.len() - 1 {
                                assert(parts[j] == parts.drop_last()[j]);
                            }
                        }
                    }
                }
                out.append(&mut records);
                start = end;
            },
        }
    }
    proof {
        assert(keys@.skip(start as int) =~= Seq::<K>::empty());
        assert(all =~= asked);
        assert(batch_completed(answers, all, parts, out@));
    }
    let r: Result<Vec<R>, Failure> = Ok(out);
    assert(r->Ok_0@ == out@);
    r
}

proof fn lemma_concat_all_prepend<R>(part: Seq<R>, rest: Seq<Seq<R>>)
    ensures
        concat_all(seq![part] + rest) == part + concat_all(rest),
    decreases rest.len(),
{
    let all = seq![part] + rest;
    if rest.len() == 0 {
        assert(all =~= seq![part]);
        assert(all.drop_last() =~= Seq::<Seq<R>>::empty());
        assert(concat_all(all.drop_last()) == Seq::<R>::empty());
        assert(part + Seq::<R>::empty() =~= part);
        assert(concat_all(rest) == Seq::<R>::empty());
    } else {
        assert(all.drop_last() =~= seq![part] + rest.drop_last());
        lemma_concat_all_prepend(part, rest.drop_last());
        assert(all.last() == rest.last());
        assert(part + concat_all(rest.drop_last()) + rest.last() =~= part + (concat_all(
            rest.drop_last(),
        ) + rest.last()));
    }
}

/// Chunking partitions the keys: the chunks, in order, are the keys again;
/// every chunk but the last holds exactly `size` keys, the last between one
/// and `size`; and there are as many chunks as `size` goes into the number
/// of keys, rounded up.
pub proof fn lemma_chunks_partition<K>(keys: Seq<K>, size: nat)
    requires
        size > 0,
    ensures
        concat_all(chunks(keys, size)) == keys,
        forall|j: int|
            0 <= j < chunks(keys, size).len() - 1 ==> (#[trigger] chunks(keys, size)[j]).len()
                == size,
        chunks(keys, size).len() > 0 ==> 0 < chunks(keys, size).last().len() <= size,
        chunks(keys, size).len() == (keys.len() + size - 1) / (size as int),
    decreases keys.len(),
{
    let cs = chunks(keys, size);
    if keys.len() == 0 {
        assert(concat_all(cs) == Seq::<K>::empty());
        assert(keys =~= Seq::<K>::empty());
        let z = size as int;
        assert((z - 1) / z == 0) by (nonlinear_arith)
            requires
                z > 0,
        ;
    } else if keys.len() <= size {
        assert(cs == seq![keys]);
        lemma_concat_all_prepend(keys, Seq::<Seq<K>>::empty());
        assert(seq![keys] + Seq::<Seq<K>>::empty() =~= seq![keys]);
        assert(keys + Seq::<K>::empty() =~= keys);
        let n = keys.len() as int;
        let z = size as int;
        assert((n + z - 1) / z == 1) by (nonlinear_arith)
            requires
                0 < n <= z,
        ;
    } else {
        let head = keys.take(size as int);
        let tail = keys.skip(size as int);
        let rest = chunks(tail, size);
        lemma_chunks_partition(tail, size);
        assert(cs == seq![head] + rest);
        lemma_concat_all_prepend(head, rest);
        assert(head + tail =~= keys);
        assert forall|j: int| 0 <= j < cs.len() - 1 implies (#[trigger] cs[j]).len() == size by {
            if j > 0 {
                assert(cs[j] == rest[j - 1]);
            }
        }
        if rest.len() > 0 {
            assert(cs.last() == rest.last());
        }
        let m = tail.len() as int;
        let z = size as int;
        assert(keys.len() == m + z);
        assert((m + z + z - 1) / z == (m + z - 1) / z + 1) by (nonlinear_arith)
            requires
                z > 0,
        ;
    }
}

proof fn lemma_concat_all_map<K, R>(asked: Seq<Seq<K>>, parts: Seq<Seq<R>>, g: spec_fn(K) -> R)
    requires
        parts.len() == asked.len(),
        forall|j: int| 0 <= j < parts.len() ==> #[trigger] parts[j] == asked[j].map_values(g),
    ensures
        concat_all(parts) == concat_all(asked).map_values(g),
    decreases parts.len(),
{
    if parts.len() == 0 {
        assert(concat_all(asked).map_values(g) =~= Seq::<R>::empty());
    } else {
        let pf = parts.drop_last();
        let af = asked.drop_last();
        assert forall|j: int| 0 <= j < pf.len() implies #[trigger] pf[j] == af[j].map_values(g) by {
            assert(pf[j] == parts[j]);
        }
        lemma_concat_all_map(af, pf, g);
        assert(parts.last() == parts[parts.len() - 1]);
        assert((concat_all(af) + asked.last()).map_values(g) =~= concat_all(af).map_values(g)
            + asked.last().map_values(g));
    }
}

/// Batching keeps key order: when each chunk is answered with one record per
/// key, computed from the key alone, and no request fails, the lookup
/// returns the record of every key, in key order.
pub proof fn lemma_batch_keeps_key_order<K, R>(
    answers: spec_fn(Seq<K>, Seq<R>) -> bool,
    fails: spec_fn(Seq<K>, Failure) -> bool,
    keys: Seq<K>,
    size: nat,
    record_of: spec_fn(K) -> R,
    r: Result<Vec<R>, Failure>,
)
    requires
        size > 0,
        forall|chunk: Seq<K>, out: Seq<R>| #[trigger] answers(chunk, out) ==> out == chunk.map_values(record_of),
        forall|chunk: Seq<K>, e: Failure| !#[trigger] fails(chunk, e),
        batch_outcome(answers, fails, keys, size, r),
    ensures
        r is Ok,
        r->Ok_0@ == keys.map_values(record_of),
{
    let cs = chunks(keys, size);
    lemma_chunks_partition(keys, size);
    if let Ok(out) = r {
        let parts = choose|parts: Seq<Seq<R>>| #[trigger] batch_completed(answers, cs, parts, out@);
        assert forall|j: int| 0 <= j < parts.len() implies #[trigger] parts[j] == cs[j].map_values(record_of) by {
            assert(answers(cs[j], parts[j]));
        }
        lemma_concat_all_map(cs, parts, record_of);
    } else {
        let e = r->Err_0;
        let parts = choose|parts: Seq<Seq<R>>| #[trigger] batch_failed(answers, fails, cs, parts, e);
        assert(fails(cs[parts.len() as int], e));
    }
}

} // verus!
