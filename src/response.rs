//! Records decoded from the API's answers.

use vstd::prelude::*;

verus! {

/// One page of a cursor-paginated collection.
///
/// `next` is the locator of the following page; it is absent exactly on the
/// last page of the collection.
#[derive(Debug, Clone, PartialEq, Eq)]
pub struct CollectionResponse<T> {
    pub href: String,
    pub items: Vec<T>,
    pub limit: u32,
    pub next: Option<String>,
    pub previous: Option<String>,
    pub offset: u32,
    pub total: u32,
}

/// A cover image of an album.
#[derive(Debug, Clone, PartialEq, Eq)]
pub struct AlbumCover {
    pub height: u32,
    pub url: String,
    pub width: u32,
}

#[derive(Debug, Clone, PartialEq, Eq)]
pub struct Album {
    pub album_type: String,
    pub available_markets: Vec<String>,
    pub href: String,
    pub id: String,
    pub images: Vec<AlbumCover>,
    pub name: String,
    pub release_date: String,
    pub release_date_precision: String,
    pub total_tracks: u32,
    pub kind: String,
    pub uri: String,
}

#[derive(Debug, Clone, PartialEq, Eq)]
pub struct Artist {
    pub href: String,
    pub id: String,
    pub name: String,
    pub kind: String,
    pub uri: String,
}

#[derive(Debug, Clone, PartialEq, Eq)]
pub struct Track {
    pub album: Option<Album>,
    pub artists: Vec<Artist>,
    pub available_markets: Vec<String>,
    pub disc_number: u32,
    pub duration_ms: u32,
    pub explicit: bool,
    pub href: String,
    pub id: String,
    pub name: String,
    pub popularity: Option<u32>,
    pub preview_url: Option<String>,
    pub track_number: u32,
    pub kind: String,
    pub uri: String,
}

/// A track as listed in a playlist.
#[derive(Debug, Clone, PartialEq, Eq)]
pub struct PlaylistTrack {
    pub added_at: Option<String>,
    pub is_local: bool,
    pub track: Track,
}

/// A playlist as listed among a user's playlists.
#[derive(Debug, Clone, PartialEq, Eq)]
pub struct UserPlaylist {
    pub collaborative: bool,
    pub description: Option<String>,
    pub href: String,
    pub id: String,
    pub name: String,
    pub public: bool,
    pub snapshot_id: String,
    pub uri: String,
}

/// An album saved in a user's library.
#[derive(Debug, Clone, PartialEq, Eq)]
pub struct UserAlbum {
    pub added_at: String,
    pub album: Album,
}

/// A track saved in a user's library.
#[derive(Debug, Clone, PartialEq, Eq)]
pub struct SavedTrack {
    pub added_at: Option<String>,
    pub track: Track,
}

/// The tracks found by a search.
#[derive(Debug, Clone, PartialEq, Eq)]
pub struct TrackResponse {
    pub href: String,
    pub items: Vec<Track>,
}

/// The answer to a track search.
#[derive(Debug, Clone, PartialEq, Eq)]
pub struct SearchTrackResponse {
    pub tracks: TrackResponse,
}

/// The answer to an app-only token exchange.
#[derive(Debug, Clone, PartialEq, Eq)]
pub struct ClientAuthorizeResponse {
    pub access_token: String,
    pub token_type: String,
    pub expires_in: u32,
}

/// The answer to a user-delegated token exchange.
#[derive(Debug, Clone, PartialEq, Eq)]
pub struct UserAuthorizeResponse {
    pub access_token: String,
    pub token_type: String,
    pub scope: String,
    pub expires_in: u32,
    pub refresh_token: Option<String>,
}

/// The credentials of the application, as read from the environment.
#[derive(Debug, Clone, PartialEq, Eq)]
pub struct Config {
    pub client_id: String,
    pub client_secret: String,
}

/// The first track that a search found, if any.
pub fn first_track(response: SearchTrackResponse) -> (r: Option<Track>)
    ensures
        response.tracks.items@.len() == 0 ==> r is None,
        response.tracks.items@.len() > 0 ==> r == Some(response.tracks.items@[0]),
{
    let mut items = response.tracks.items;
    if items.len() == 0 {
        None
    } else {
        Some(items.swap_remove(0))
    }
}

/// The identifiers of the given tracks, in order.
pub fn track_ids(tracks: &Vec<Track>) -> (r: Vec<String>)
    ensures
        r@.len() == tracks@.len(),
        forall|i: int| 0 <= i < tracks@.len() ==> #[trigger] r@[i] == tracks@[i].id,
{
    let mut r: Vec<String> = Vec::new();
    let mut i: usize = 0;
    while i < tracks.len()
        invariant
            i <= tracks@.len(),
            r@.len() == i,
            forall|j: int| 0 <= j < i ==> #[trigger] r@[j] == tracks@[j].id,
        decreases tracks@.len() - i,
    {
        r.push(tracks[i].id.clone());
        i = i + 1;
    }
    r
}

} // verus!
