use rspotify_sdk::library::{
    collect_library, collect_liked_tracks, collect_playlist_tracks, playlist_entry_tracks,
    saved_entry_tracks,
};
use rspotify_sdk::response::{PlaylistTrack, SavedTrack, Track, UserPlaylist};
use rspotify_sdk::{CollectionResponse, Failure};
use std::cell::RefCell;

fn library_track(id: &str) -> Track {
    Track {
        album: None,
        artists: Vec::new(),
        available_markets: Vec::new(),
        disc_number: 1,
        duration_ms: 180000,
        explicit: false,
        href: format!("https://api.example.test/tracks/{}", id),
        id: String::from(id),
        name: format!("Track {}", id),
        popularity: None,
        preview_url: None,
        track_number: 1,
        kind: String::from("track"),
        uri: format!("spotify:track:{}", id),
    }
}

fn library_playlist(id: &str) -> UserPlaylist {
    UserPlaylist {
        collaborative: false,
        description: None,
        href: format!("https://api.example.test/playlists/{}", id),
        id: String::from(id),
        name: format!("Playlist {}", id),
        public: true,
        snapshot_id: String::from("snap"),
        uri: format!("spotify:playlist:{}", id),
    }
}

fn library_entry(id: &str) -> PlaylistTrack {
    PlaylistTrack { added_at: None, is_local: false, track: library_track(id) }
}

fn library_page<T>(items: Vec<T>, next: Option<&str>) -> CollectionResponse<T> {
    CollectionResponse {
        href: String::from("https://api.example.test/page"),
        items,
        limit: 2,
        next: next.map(String::from),
        previous: None,
        offset: 0,
        total: 0,
    }
}

fn two_playlists(_cursor: Option<String>) -> Result<CollectionResponse<UserPlaylist>, Failure> {
    Ok(library_page(vec![library_playlist("mix"), library_playlist("road")], None))
}

fn playlist_pages(
    playlist: &UserPlaylist,
    cursor: Option<String>,
) -> Result<CollectionResponse<PlaylistTrack>, Failure> {
    match (playlist.id.as_str(), cursor.as_deref()) {
        ("mix", None) => Ok(library_page(vec![library_entry("mix-1"), library_entry("mix-2")], None)),
        ("road", None) => Ok(library_page(
            vec![library_entry("road-1"), library_entry("road-2")],
            Some("road-page-2"),
        )),
        ("road", Some("road-page-2")) => Ok(library_page(vec![library_entry("road-3")], None)),
        _ => Err(Failure::FetchFailure),
    }
}

fn track_ids_of(tracks: &[Track]) -> Vec<String> {
    tracks.iter().map(|t| t.id.clone()).collect()
}

#[test]
fn library_flattens_playlists_in_listing_order() {
    let tracks = collect_playlist_tracks(two_playlists, playlist_pages, 100).unwrap();
    assert_eq!(track_ids_of(&tracks), vec!["mix-1", "mix-2", "road-1", "road-2", "road-3"]);
}

#[test]
fn library_inner_failure_returns_no_tracks() {
    let calls: RefCell<Vec<String>> = RefCell::new(Vec::new());
    let result = collect_playlist_tracks(
        two_playlists,
        |playlist: &UserPlaylist, cursor: Option<String>| {
            calls.borrow_mut().push(playlist.id.clone());
            if playlist.id == "road" {
                Err(Failure::FetchFailure)
            } else {
                playlist_pages(playlist, cursor)
            }
        },
        100,
    );
    assert_eq!(result, Err(Failure::FetchFailure));
    assert_eq!(calls.into_inner(), vec!["mix", "road"]);
}

#[test]
fn library_listing_failure_reads_no_playlist() {
    let calls = RefCell::new(0u32);
    let result = collect_playlist_tracks(
        |_cursor: Option<String>| Err(Failure::FetchFailure),
        |playlist: &UserPlaylist, cursor: Option<String>| {
            *calls.borrow_mut() += 1;
            playlist_pages(playlist, cursor)
        },
        100,
    );
    assert_eq!(result, Err(Failure::FetchFailure));
    assert_eq!(calls.into_inner(), 0);
}

#[test]
fn library_paginated_listing_is_read_to_the_end() {
    let result = collect_library(
        |cursor: Option<String>| match cursor.as_deref() {
            None => Ok(library_page(vec![1u32, 2], Some("more"))),
            Some("more") => Ok(library_page(vec![3u32], None)),
            Some(_) => Err(Failure::FetchFailure),
        },
        |listed: &u32, _cursor: Option<String>| {
            Ok(library_page(vec![listed * 10, listed * 10 + 1], None))
        },
        100,
    );
    assert_eq!(result, Ok(vec![10, 11, 20, 21, 30, 31]));
}

#[test]
fn library_inner_page_ceiling_applies_per_entry() {
    let result = collect_library(
        |_cursor: Option<String>| Ok(library_page(vec![1u32], None)),
        |_listed: &u32, _cursor: Option<String>| Ok(library_page(vec![0u32], Some("again"))),
        4,
    );
    assert_eq!(result, Err(Failure::PageLimitExceeded));
}

#[test]
fn library_empty_listing_has_no_tracks() {
    let result = collect_playlist_tracks(
        |_cursor: Option<String>| Ok(library_page(Vec::<UserPlaylist>::new(), None)),
        playlist_pages,
        100,
    );
    assert_eq!(result, Ok(Vec::new()));
}

#[test]
fn liked_tracks_are_read_across_pages() {
    let result = collect_liked_tracks(
        |cursor: Option<String>| match cursor {
            None => Ok(library_page(
                vec![SavedTrack { added_at: None, track: library_track("s1") }],
                Some("next"),
            )),
            Some(_) => Ok(library_page(
                vec![SavedTrack { added_at: Some(String::from("2020-01-01")), track: library_track("s2") }],
                None,
            )),
        },
        100,
    );
    assert_eq!(track_ids_of(&result.unwrap()), vec!["s1", "s2"]);
}

#[test]
fn playlist_entries_project_to_tracks() {
    let tracks = playlist_entry_tracks(vec![library_entry("a"), library_entry("b")]);
    assert_eq!(tracks, vec![library_track("a"), library_track("b")]);
}

#[test]
fn saved_entries_project_to_tracks() {
    let tracks = saved_entry_tracks(vec![SavedTrack { added_at: None, track: library_track("z") }]);
    assert_eq!(tracks, vec![library_track("z")]);
}
