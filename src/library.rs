//! Reading a user's whole library: a listing of playlists or albums, and
//! for each listed entry, in listing order, its tracks.

use crate::failure::Failure;
use crate::paginate::{
    completed_with, cursor_after, cursor_at, failed_after, fetch_answers, fetch_failures,
    is_collection, is_complete_run, is_run, items_of, lemma_complete_run_is_collection,
    lemma_served_walk_does_not_fail, paginate, pagination_outcome, serves,
};
use crate::response::{CollectionResponse, PlaylistTrack, SavedTrack, Track, UserPlaylist};
use vstd::prelude::*;

verus! {

/// The pages that `fetch_tracks` may answer for a listed entry and a cursor.
pub open spec fn entry_answers<L, T, F: Fn(&L, Option<String>) -> Result<CollectionResponse<T>, Failure>>(
    fetch_tracks: F,
) -> spec_fn(L, Option<String>, CollectionResponse<T>) -> bool {
    |l: L, c: Option<String>, p: CollectionResponse<T>| call_ensures(fetch_tracks, (&l, c), Ok(p))
}

/// The failures that `fetch_tracks` may answer for a listed entry and a cursor.
pub open spec fn entry_failures<L, T, F: Fn(&L, Option<String>) -> Result<CollectionResponse<T>, Failure>>(
    fetch_tracks: F,
) -> spec_fn(L, Option<String>, Failure) -> bool {
    |l: L, c: Option<String>, e: Failure| call_ensures(fetch_tracks, (&l, c), Err(e))
}

/// The answers for the track pages of one listed entry.
pub open spec fn answers_for<L, T>(
    entry: spec_fn(L, Option<String>, CollectionResponse<T>) -> bool,
    l: L,
) -> spec_fn(Option<String>, CollectionResponse<T>) -> bool {
    |c: Option<String>, p: CollectionResponse<T>| entry(l, c, p)
}

/// The failures that may end the walk over the track pages of one listed
/// entry.
pub open spec fn fails_for<L>(
    entry_fails: spec_fn(L, Option<String>, Failure) -> bool,
    l: L,
) -> spec_fn(Option<String>, Failure) -> bool {
    |c: Option<String>, e: Failure| entry_fails(l, c, e)
}

/// The items of each run, run after run.
pub open spec fn items_of_runs<T>(runs: Seq<Seq<CollectionResponse<T>>>) -> Seq<T>
    decreases runs.len(),
{
    if runs.len() == 0 {
        Seq::empty()
    } else {
        items_of_runs(runs.drop_last()) + items_of(runs.last())
    }
}

/// The first `runs.len()` listed entries had their tracks read to the end,
/// each within `max_pages` requests.
pub open spec fn entries_read<L, T>(
    entry: spec_fn(L, Option<String>, CollectionResponse<T>) -> bool,
    max_pages: nat,
    listed: Seq<L>,
    runs: Seq<Seq<CollectionResponse<T>>>,
) -> bool {
    &&& runs.len() <= listed.len()
    &&& forall|k: int|
        #![trigger runs[k]]
        0 <= k < runs.len() ==> {
            &&& is_complete_run(answers_for(entry, listed[k]), runs[k])
            &&& runs[k].len() <= max_pages
        }
}

/// The listing was read to the end as `listing`, then the tracks of every
/// listed entry as `runs`, and `tracks` are all of them in listing order.
pub open spec fn library_completed<L, T>(
    listing_answers: spec_fn(Option<String>, CollectionResponse<L>) -> bool,
    entry: spec_fn(L, Option<String>, CollectionResponse<T>) -> bool,
    max_pages: nat,
    listing: Seq<CollectionResponse<L>>,
    runs: Seq<Seq<CollectionResponse<T>>>,
    tracks: Seq<T>,
) -> bool {
    &&& completed_with(listing_answers, max_pages, listing, items_of(listing))
    &&& entries_read(entry, max_pages, items_of(listing), runs)
    &&& runs.len() == items_of(listing).len()
    &&& tracks == items_of_runs(runs)
}

/// Reading a library failed with `e`: the listing walk failed after
/// `listing`; or the listing was read to the end as `listing`, the tracks of
/// the first `runs.len()` entries as `runs`, and the walk over the tracks of
/// the next entry failed after `pages`.
pub open spec fn library_failed<L, T>(
    listing_answers: spec_fn(Option<String>, CollectionResponse<L>) -> bool,
    listing_fails: spec_fn(Option<String>, Failure) -> bool,
    entry: spec_fn(L, Option<String>, CollectionResponse<T>) -> bool,
    entry_fails: spec_fn(L, Option<String>, Failure) -> bool,
    max_pages: nat,
    listing: Seq<CollectionResponse<L>>,
    runs: Seq<Seq<CollectionResponse<T>>>,
    pages: Seq<CollectionResponse<T>>,
    e: Failure,
) -> bool {
    ||| failed_after(listing_answers, listing_fails, max_pages, listing, e)
    ||| {
        let listed = items_of(listing);
        &&& completed_with(listing_answers, max_pages, listing, listed)
        &&& entries_read(entry, max_pages, listed, runs)
        &&& runs.len() < listed.len()
        &&& failed_after(
            answers_for(entry, listed[runs.len() as int]),
            fails_for(entry_fails, listed[runs.len() as int]),
            max_pages,
            pages,
            e,
        )
    }
}

/// What reading a library may end in: every track, in listing order and
/// then page order; or the failure that ended the first walk that failed.
/// A failure leaves no tracks at all.
pub open spec fn library_outcome<L, T>(
    listing_answers: spec_fn(Option<String>, CollectionResponse<L>) -> bool,
    listing_fails: spec_fn(Option<String>, Failure) -> bool,
    entry: spec_fn(L, Option<String>, CollectionResponse<T>) -> bool,
    entry_fails: spec_fn(L, Option<String>, Failure) -> bool,
    max_pages: nat,
    r: Result<Seq<T>, Failure>,
) -> bool {
    match r {
        Ok(tracks) => exists|listing: Seq<CollectionResponse<L>>, runs: Seq<Seq<CollectionResponse<T>>>|
            #[trigger] library_completed(listing_answers, entry, max_pages, listing, runs, tracks),
        Err(e) => exists|
            listing: Seq<CollectionResponse<L>>,
            runs: Seq<Seq<CollectionResponse<T>>>,
            pages: Seq<CollectionResponse<T>>,
        |
            #[trigger] library_failed(
                listing_answers,
                listing_fails,
                entry,
                entry_fails,
                max_pages,
                listing,
                runs,
                pages,
                e,
            ),
    }
}

/// A result with its records seen as a sequence.
pub open spec fn viewed<T>(r: Result<Vec<T>, Failure>) -> Result<Seq<T>, Failure> {
    match r {
        Ok(v) => Ok(v@),
        Err(e) => Err(e),
    }
}

proof fn lemma_run_weaken<T>(
    narrow: spec_fn(Option<String>, CollectionResponse<T>) -> bool,
    wide: spec_fn(Option<String>, CollectionResponse<T>) -> bool,
    pages: Seq<CollectionResponse<T>>,
)
    requires
        forall|c: Option<String>, p: CollectionResponse<T>| #[trigger] narrow(c, p) ==> wide(c, p),
        is_run(narrow, pages),
    ensures
        is_run(wide, pages),
{
    assert forall|i: int| #![trigger pages[i]] 0 <= i < pages.len() implies {
        &&& wide(cursor_at(pages, i), pages[i])
        &&& (i + 1 < pages.len() ==> pages[i].next is Some)
    } by {
        assert(narrow(cursor_at(pages, i), pages[i]));
    }
}

proof fn lemma_failed_weaken<T>(
    narrow: spec_fn(Option<String>, CollectionResponse<T>) -> bool,
    narrow_fails: spec_fn(Option<String>, Failure) -> bool,
    wide: spec_fn(Option<String>, CollectionResponse<T>) -> bool,
    wide_fails: spec_fn(Option<String>, Failure) -> bool,
    max_pages: nat,
    pages: Seq<CollectionResponse<T>>,
    e: Failure,
)
    requires
        forall|c: Option<String>, p: CollectionResponse<T>| #[trigger] narrow(c, p) ==> wide(c, p),
        forall|c: Option<String>, f: Failure| #[trigger] narrow_fails(c, f) ==> wide_fails(c, f),
        failed_after(narrow, narrow_fails, max_pages, pages, e),
    ensures
        failed_after(wide, wide_fails, max_pages, pages, e),
{
    lemma_run_weaken(narrow, wide, pages);
    if pages.len() < max_pages && narrow_fails(cursor_after(pages), e) {
        assert(wide_fails(cursor_after(pages), e));
    }
}

proof fn lemma_items_of_runs_push<T>(runs: Seq<Seq<CollectionResponse<T>>>, run: Seq<CollectionResponse<T>>)
    ensures
        items_of_runs(runs.push(run)) == items_of_runs(runs) + items_of(run),
{
    assert(runs.push(run).drop_last() =~= runs);
}

/// Reads the listing with `fetch_listing`, then, for each listed entry in
/// listing order, its tracks with `fetch_tracks`, and returns all tracks:
/// entry after entry, and within an entry in page order.
///
/// Every walk is bounded by `max_pages` requests. Any failure, of the
/// listing or of any entry's tracks, ends the whole reading with that
/// failure and returns no tracks.
pub fn collect_library<L, T, FL, FT>(fetch_listing: FL, fetch_tracks: FT, max_pages: usize) -> (r:
    Result<Vec<T>, Failure>) where
    FL: Fn(Option<String>) -> Result<CollectionResponse<L>, Failure>,
    FT: Fn(&L, Option<String>) -> Result<CollectionResponse<T>, Failure>,

    requires
        forall|c: Option<String>| call_requires(fetch_listing, (c,)),
        forall|l: &L, c: Option<String>| call_requires(fetch_tracks, (l, c)),
    ensures
        library_outcome(
            fetch_answers(fetch_listing),
            fetch_failures(fetch_listing),
            entry_answers(fetch_tracks),
            entry_failures(fetch_tracks),
            max_pages as nat,
            viewed(r),
        ),
{
    let ghost la = fetch_answers(fetch_listing);
    let ghost lf = fetch_failures(fetch_listing);
    let ghost ea = entry_answers(fetch_tracks);
    let ghost ef = entry_failures(fetch_tracks);
    let ghost max = max_pages as nat;
    let listed = match paginate(fetch_listing, max_pages) {
        Ok(listed) => listed,
        Err(e) => {
            proof {
                let pages = choose|pages: Seq<CollectionResponse<L>>|
                    #[trigger] failed_after(la, lf, max, pages, e);
                assert(library_failed(la, lf, ea, ef, max, pages, Seq::empty(), Seq::empty(), e));
            }
            let r: Result<Vec<T>, Failure> = Err(e);
            assert(viewed(r)->Err_0 == e);
            return r;
        },
    };
    let ghost listing = choose|pages: Seq<CollectionResponse<L>>|
        #[trigger] completed_with(la, max, pages, listed@);
    let ghost mut runs: Seq<Seq<CollectionResponse<T>>> = Seq::empty();
    let mut tracks: Vec<T> = Vec::new();
    let mut i: usize = 0;
    while i < listed.len()
        invariant
            forall|l: &L, c: Option<String>| call_requires(fetch_tracks, (l, c)),
            la == fetch_answers(fetch_listing),
            lf == fetch_failures(fetch_listing),
            ea == entry_answers(fetch_tracks),
            ef == entry_failures(fetch_tracks),
            max == max_pages as nat,
            completed_with(la, max, listing, listed@),
            i <= listed@.len(),
            runs.len() == i,
            entries_read(ea, max, listed@, runs),
            tracks@ == items_of_runs(runs),
        decreases listed@.len() - i,
    {
        let entry = &listed[i];
        let fetch = &fetch_tracks;
        let fetch_entry = |c: Option<String>| -> (p: Result<CollectionResponse<T>, Failure>)
            requires
                call_requires(fetch, (entry, c)),
            ensures
                call_ensures(fetch, (entry, c), p),
            { fetch(entry, c) };
        let ghost fa = fetch_answers(fetch_entry);
        let ghost ff = fetch_failures(fetch_entry);
        match paginate(fetch_entry, max_pages) {
            Err(e) => {
                proof {
                    let pages = choose|pages: Seq<CollectionResponse<T>>|
                        #[trigger] failed_after(fa, ff, max, pages, e);
                    let l = listed@[i as int];
                    assert forall|c: Option<String>, p: CollectionResponse<T>| #[trigger] fa(c, p) implies answers_for(ea, l)(c, p) by {
                        assert(call_ensures(fetch_entry, (c,), Ok(p)));
                    }
                    assert forall|c: Option<String>, f: Failure| #[trigger] ff(c, f) implies fails_for(ef, l)(c, f) by {
                        assert(call_ensures(fetch_entry, (c,), Err(f)));
                    }
                    lemma_failed_weaken(fa, ff, answers_for(ea, l), fails_for(ef, l), max, pages, e);
                    assert(library_failed(la, lf, ea, ef, max, listing, runs, pages, e));
                }
                let r: Result<Vec<T>, Failure> = Err(e);
                assert(viewed(r)->Err_0 == e);
                return r;
            },
            Ok(entry_tracks) => {
                let mut entry_tracks = entry_tracks;
                proof {
                    let run = choose|pages: Seq<CollectionResponse<T>>|
                        #[trigger] completed_with(fa, max, pages, entry_tracks@);
                    let wide = answers_for(ea, listed@[i as int]);
                    assert forall|c: Option<String>, p: CollectionResponse<T>| #[trigger] fa(c, p) implies wide(c, p) by {
                        assert(call_ensures(fetch_entry, (c,), Ok(p)));
                    }
                    lemma_run_weaken(fa, wide, run);
                    lemma_items_of_runs_push(runs, run);
                    runs = runs.push(run);
                    assert(entries_read(ea, max, listed@, runs)) by {
                        assert forall|k: int| #![trigger runs[k]] 0 <= k < runs.len() implies {
                            &&& is_complete_run(answers_for(ea, listed@[k]), runs[k])
                            &&& runs[k].len() <= max
                        } by {
                            if k < runs.len() - 1 {
                                assert(runs[k] == runs.drop_last()[k]);
                            }
                        }
                    }
                }
                tracks.append(&mut entry_tracks);
            },
        }
        i = i + 1;
    }
    assert(library_completed(la, ea, max, listing, runs, tracks@));
    let r: Result<Vec<T>, Failure> = Ok(tracks);
    assert(viewed(r) == Ok::<Seq<T>, Failure>(tracks@));
    assert(viewed(r)->Ok_0 == tracks@);
    r
}

/// The tracks of playlist entries, in order.
pub fn playlist_entry_tracks(entries: Vec<PlaylistTrack>) -> (r: Vec<Track>)
    ensures
        r@ == entries@.map_values(|e: PlaylistTrack| e.track),
{
    let mut r: Vec<Track> = Vec::new();
    for entry in it: entries.into_iter()
        invariant
            it.seq() == entries@,
            r@ == it.seq().take(it.index() as int).map_values(|e: PlaylistTrack| e.track),
    {
        proof {
            assert(it.seq().take(it.index() as int + 1) =~= it.seq().take(it.index() as int).push(entry));
        }
        r.push(entry.track);
    }
    assert(entries@.take(entries@.len() as int) =~= entries@);
    r
}

/// The tracks of saved-track entries, in order.
pub fn saved_entry_tracks(entries: Vec<SavedTrack>) -> (r: Vec<Track>)
    ensures
        r@ == entries@.map_values(|e: SavedTrack| e.track),
{
    let mut r: Vec<Track> = Vec::new();
    for entry in it: entries.into_iter()
        invariant
            it.seq() == entries@,
            r@ == it.seq().take(it.index() as int).map_values(|e: SavedTrack| e.track),
    {
        proof {
            assert(it.seq().take(it.index() as int + 1) =~= it.seq().take(it.index() as int).push(entry));
        }
        r.push(entry.track);
    }
    assert(entries@.take(entries@.len() as int) =~= entries@);
    r
}

/// Reads the tracks of every playlist of a user: the playlist listing with
/// `fetch_playlists`, then each playlist's entries with
/// `fetch_playlist_tracks`, in listing order, and returns the tracks of the
/// entries. Fails as `collect_library` does.
pub fn collect_playlist_tracks<FL, FT>(
    fetch_playlists: FL,
    fetch_playlist_tracks: FT,
    max_pages: usize,
) -> (r: Result<Vec<Track>, Failure>) where
    FL: Fn(Option<String>) -> Result<CollectionResponse<UserPlaylist>, Failure>,
    FT: Fn(&UserPlaylist, Option<String>) -> Result<CollectionResponse<PlaylistTrack>, Failure>,

    requires
        forall|c: Option<String>| call_requires(fetch_playlists, (c,)),
        forall|l: &UserPlaylist, c: Option<String>| call_requires(fetch_playlist_tracks, (l, c)),
    ensures
        match viewed(r) {
            Ok(tracks) => exists|entries: Seq<PlaylistTrack>|
                #[trigger] library_outcome(
                    fetch_answers(fetch_playlists),
                    fetch_failures(fetch_playlists),
                    entry_answers(fetch_playlist_tracks),
                    entry_failures(fetch_playlist_tracks),
                    max_pages as nat,
                    Ok(entries),
                ) && tracks == entries.map_values(|e: PlaylistTrack| e.track),
            Err(e) => library_outcome(
                fetch_answers(fetch_playlists),
                fetch_failures(fetch_playlists),
                entry_answers(fetch_playlist_tracks),
                entry_failures(fetch_playlist_tracks),
                max_pages as nat,
                Err(e),
            ),
        },
{
    match collect_library(fetch_playlists, fetch_playlist_tracks, max_pages) {
        Ok(entries) => {
            let tracks = playlist_entry_tracks(entries);
            let r: Result<Vec<Track>, Failure> = Ok(tracks);
            assert(viewed(r)->Ok_0 == tracks@);
            r
        },
        Err(e) => Err(e),
    }
}

/// Reads the tracks that a user saved, page after page with `fetch_saved`,
/// and returns them in page order. Fails as `paginate` does.
pub fn collect_liked_tracks<F>(fetch_saved: F, max_pages: usize) -> (r: Result<Vec<Track>, Failure>) where
    F: Fn(Option<String>) -> Result<CollectionResponse<SavedTrack>, Failure>,

    requires
        forall|c: Option<String>| call_requires(fetch_saved, (c,)),
    ensures
        match r {
            Ok(tracks) => exists|entries: Vec<SavedTrack>|
                #[trigger] pagination_outcome(
                    fetch_answers(fetch_saved),
                    fetch_failures(fetch_saved),
                    max_pages as nat,
                    Ok(entries),
                ) && tracks@ == entries@.map_values(|e: SavedTrack| e.track),
            Err(e) => pagination_outcome(
                fetch_answers(fetch_saved),
                fetch_failures(fetch_saved),
                max_pages as nat,
                Err(e),
            ),
        },
{
    match paginate(fetch_saved, max_pages) {
        Ok(entries) => {
            let ghost saved = entries;
            let tracks = saved_entry_tracks(entries);
            assert(pagination_outcome(
                fetch_answers(fetch_saved),
                fetch_failures(fetch_saved),
                max_pages as nat,
                Ok(saved),
            ));
            Ok(tracks)
        },
        Err(e) => Err(e),
    }
}

/// The listing `src` is served exactly to `answers`, never fails, and fits
/// under the page ceiling.
pub open spec fn listing_served<L>(
    answers: spec_fn(Option<String>, CollectionResponse<L>) -> bool,
    fails: spec_fn(Option<String>, Failure) -> bool,
    max_pages: nat,
    src: Seq<CollectionResponse<L>>,
) -> bool {
    &&& is_collection(src)
    &&& serves(answers, src)
    &&& forall|i: int, e: Failure| 0 <= i < src.len() ==> !#[trigger] fails(cursor_at(src, i), e)
    &&& src.len() <= max_pages
}

/// The track pages `src` of the listed entry `l` are served exactly, never
/// fail, and fit under the page ceiling.
pub open spec fn entry_served<L, T>(
    entry: spec_fn(L, Option<String>, CollectionResponse<T>) -> bool,
    entry_fails: spec_fn(L, Option<String>, Failure) -> bool,
    max_pages: nat,
    l: L,
    src: Seq<CollectionResponse<T>>,
) -> bool {
    &&& is_collection(src)
    &&& serves(answers_for(entry, l), src)
    &&& forall|i: int, e: Failure| 0 <= i < src.len() ==> !#[trigger] entry_fails(l, cursor_at(src, i), e)
    &&& src.len() <= max_pages
}

proof fn lemma_entry_walk_does_not_fail<L, T>(
    entry: spec_fn(L, Option<String>, CollectionResponse<T>) -> bool,
    entry_fails: spec_fn(L, Option<String>, Failure) -> bool,
    max_pages: nat,
    l: L,
    src: Seq<CollectionResponse<T>>,
    pages: Seq<CollectionResponse<T>>,
    e: Failure,
)
    requires
        entry_served(entry, entry_fails, max_pages, l, src),
    ensures
        !failed_after(answers_for(entry, l), fails_for(entry_fails, l), max_pages, pages, e),
{
    let fails = fails_for(entry_fails, l);
    assert forall|i: int, f: Failure| 0 <= i < src.len() implies !#[trigger] fails(cursor_at(src, i), f) by {
        assert(!entry_fails(l, cursor_at(src, i), f));
    }
    lemma_served_walk_does_not_fail(answers_for(entry, l), fails, src, max_pages, pages, e);
}

/// The library is flattened in order: when the listing and the track pages
/// of every listed entry are served exactly, never fail, and fit under the
/// page ceiling, reading the library yields the tracks of the first entry,
/// then those of the second, and so on, each in page order.
pub proof fn lemma_library_flattening<L, T>(
    listing_answers: spec_fn(Option<String>, CollectionResponse<L>) -> bool,
    listing_fails: spec_fn(Option<String>, Failure) -> bool,
    entry: spec_fn(L, Option<String>, CollectionResponse<T>) -> bool,
    entry_fails: spec_fn(L, Option<String>, Failure) -> bool,
    max_pages: nat,
    listing_src: Seq<CollectionResponse<L>>,
    track_srcs: Seq<Seq<CollectionResponse<T>>>,
    r: Result<Seq<T>, Failure>,
)
    requires
        listing_served(listing_answers, listing_fails, max_pages, listing_src),
        track_srcs.len() == items_of(listing_src).len(),
        forall|k: int|
            0 <= k < track_srcs.len() ==> entry_served(
                entry,
                entry_fails,
                max_pages,
                items_of(listing_src)[k],
                #[trigger] track_srcs[k],
            ),
        library_outcome(listing_answers, listing_fails, entry, entry_fails, max_pages, r),
    ensures
        r == Ok::<Seq<T>, Failure>(items_of_runs(track_srcs)),
{
    let listed = items_of(listing_src);
    match r {
        Ok(tracks) => {
            let (listing, runs) = choose|
                listing: Seq<CollectionResponse<L>>,
                runs: Seq<Seq<CollectionResponse<T>>>,
            | #[trigger] library_completed(listing_answers, entry, max_pages, listing, runs, tracks);
            lemma_complete_run_is_collection(listing_answers, listing_src, listing);
            assert forall|k: int| 0 <= k < runs.len() implies #[trigger] runs[k] == track_srcs[k] by {
                assert(entry_served(entry, entry_fails, max_pages, listed[k], track_srcs[k]));
                lemma_complete_run_is_collection(answers_for(entry, listed[k]), track_srcs[k], runs[k]);
            }
            assert(runs =~= track_srcs);
        },
        Err(e) => {
            let (listing, runs, pages) = choose|
                listing: Seq<CollectionResponse<L>>,
                runs: Seq<Seq<CollectionResponse<T>>>,
                pages: Seq<CollectionResponse<T>>,
            |
                #[trigger] library_failed(
                    listing_answers,
                    listing_fails,
                    entry,
                    entry_fails,
                    max_pages,
                    listing,
                    runs,
                    pages,
                    e,
                );
            lemma_served_walk_does_not_fail(listing_answers, listing_fails, listing_src, max_pages, listing, e);
            if completed_with(listing_answers, max_pages, listing, items_of(listing)) {
                lemma_complete_run_is_collection(listing_answers, listing_src, listing);
                let k = runs.len() as int;
                if k < listed.len() {
                    assert(entry_served(entry, entry_fails, max_pages, listed[k], track_srcs[k]));
                    lemma_entry_walk_does_not_fail(entry, entry_fails, max_pages, listed[k], track_srcs[k], pages, e);
                }
            }
        },
    }
}

/// Reading a library fails fast: when the listing and the entries before
/// entry `k` are served in full, but every request for the tracks of entry
/// `k` fails with `FetchFailure`, reading the library fails with
/// `FetchFailure` and returns no tracks, not even those of earlier entries.
pub proof fn lemma_library_fails_fast<L, T>(
    listing_answers: spec_fn(Option<String>, CollectionResponse<L>) -> bool,
    listing_fails: spec_fn(Option<String>, Failure) -> bool,
    entry: spec_fn(L, Option<String>, CollectionResponse<T>) -> bool,
    entry_fails: spec_fn(L, Option<String>, Failure) -> bool,
    max_pages: nat,
    listing_src: Seq<CollectionResponse<L>>,
    track_srcs: Seq<Seq<CollectionResponse<T>>>,
    r: Result<Seq<T>, Failure>,
)
    requires
        listing_served(listing_answers, listing_fails, max_pages, listing_src),
        track_srcs.len() < items_of(listing_src).len(),
        forall|j: int|
            0 <= j < track_srcs.len() ==> entry_served(
                entry,
                entry_fails,
                max_pages,
                items_of(listing_src)[j],
                #[trigger] track_srcs[j],
            ),
        forall|c: Option<String>, p: CollectionResponse<T>|
            !#[trigger] entry(items_of(listing_src)[track_srcs.len() as int], c, p),
        forall|c: Option<String>, e: Failure|
            #[trigger] entry_fails(items_of(listing_src)[track_srcs.len() as int], c, e) ==> e
                == Failure::FetchFailure,
        max_pages > 0,
        library_outcome(listing_answers, listing_fails, entry, entry_fails, max_pages, r),
    ensures
        r == Err::<Seq<T>, Failure>(Failure::FetchFailure),
{
    let listed = items_of(listing_src);
    let k = track_srcs.len() as int;
    match r {
        Ok(tracks) => {
            let (listing, runs) = choose|
                listing: Seq<CollectionResponse<L>>,
                runs: Seq<Seq<CollectionResponse<T>>>,
            | #[trigger] library_completed(listing_answers, entry, max_pages, listing, runs, tracks);
            lemma_complete_run_is_collection(listing_answers, listing_src, listing);
            assert(entry(listed[k], cursor_at(runs[k], 0), runs[k][0]));
        },
        Err(e) => {
            let (listing, runs, pages) = choose|
                listing: Seq<CollectionResponse<L>>,
                runs: Seq<Seq<CollectionResponse<T>>>,
                pages: Seq<CollectionResponse<T>>,
            |
                #[trigger] library_failed(
                    listing_answers,
                    listing_fails,
                    entry,
                    entry_fails,
                    max_pages,
                    listing,
                    runs,
                    pages,
                    e,
                );
            lemma_served_walk_does_not_fail(listing_answers, listing_fails, listing_src, max_pages, listing, e);
            lemma_complete_run_is_collection(listing_answers, listing_src, listing);
            let j = runs.len() as int;
            if j < k {
                assert(entry_served(entry, entry_fails, max_pages, listed[j], track_srcs[j]));
                lemma_entry_walk_does_not_fail(entry, entry_fails, max_pages, listed[j], track_srcs[j], pages, e);
            } else if j > k {
                assert(entry(listed[k], cursor_at(runs[k], 0), runs[k][0]));
            } else {
                if pages.len() > 0 {
                    assert(entry(listed[k], cursor_at(pages, 0), pages[0]));
                }
                assert(entry_fails(listed[k], cursor_after(pages), e));
            }
        },
    }
}

} // verus!
