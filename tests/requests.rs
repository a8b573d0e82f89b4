use rspotify_sdk::auth::{
    authorization_code_url, authorize_page_url, basic_authorization, client_credentials_url,
    refresh_token_url, RSpotify,
};
use rspotify_sdk::request::{RaxiosClient, SpotifyRequest};
use rspotify_sdk::response::{first_track, track_ids, SearchTrackResponse, Track, TrackResponse};
use rspotify_sdk::Failure;

fn request_track(id: &str) -> Track {
    Track {
        album: None,
        artists: Vec::new(),
        available_markets: vec![String::from("SE")],
        disc_number: 1,
        duration_ms: 1000,
        explicit: true,
        href: String::new(),
        id: String::from(id),
        name: String::from(id),
        popularity: Some(50),
        preview_url: None,
        track_number: 2,
        kind: String::from("track"),
        uri: String::new(),
    }
}

#[test]
fn raxios_client_starts_without_token() {
    let client = RaxiosClient::new();
    assert_eq!(client.token(), None);
}

#[test]
fn raxios_client_set_token() {
    let mut client = RaxiosClient::new();
    client.set_token("abc");
    assert_eq!(client.token(), Some(&String::from("abc")));
    client.set_token("def");
    assert_eq!(client.token(), Some(&String::from("def")));
}

#[test]
fn spotify_request_carries_its_token() {
    let request = SpotifyRequest::new("tok");
    assert_eq!(request.token(), Some(&String::from("tok")));
}

#[test]
fn first_page_urls() {
    let request = SpotifyRequest::new("tok");
    assert_eq!(
        request.playlist_url("pl1", None),
        "https://api.spotify.com/v1/playlists/pl1/tracks"
    );
    assert_eq!(request.album_url("al1", None), "https://api.spotify.com/v1/albums/al1/tracks");
    assert_eq!(request.user_playlist_url(None), "https://api.spotify.com/v1/me/playlists");
    assert_eq!(request.user_album_url(None), "https://api.spotify.com/v1/me/albums");
    assert_eq!(request.user_saved_song_url(None), "https://api.spotify.com/v1/me/tracks");
}

#[test]
fn cursor_urls_are_used_as_given() {
    let request = SpotifyRequest::new("tok");
    let link = String::from("https://api.spotify.com/v1/me/tracks?offset=20&limit=20");
    assert_eq!(request.user_saved_song_url(Some(link.clone())), link);
    assert_eq!(request.playlist_url("pl1", Some(link.clone())), link);
    assert_eq!(request.album_url("al1", Some(link.clone())), link);
}

#[test]
fn search_url_names_title_and_artist() {
    let request = SpotifyRequest::new("tok");
    assert_eq!(
        request.search_url("Song", "Band"),
        "https://api.spotify.com/v1/search?type=track&q=track:Song artist:Band"
    );
}

#[test]
fn audio_features_url_joins_ids() {
    let request = SpotifyRequest::new("tok");
    let ids = vec![String::from("a"), String::from("b"), String::from("c")];
    assert_eq!(
        request.audio_features_url(&ids),
        "https://api.spotify.com/v1/audio-features?ids=a,b,c"
    );
    assert_eq!(
        request.audio_features_url(&ids[..1]),
        "https://api.spotify.com/v1/audio-features?ids=a"
    );
    assert_eq!(request.audio_features_url(&[]), "https://api.spotify.com/v1/audio-features?ids=");
}

#[test]
fn basic_authorization_encodes_credentials() {
    assert_eq!(basic_authorization("id", "secret"), "Basic aWQ6c2VjcmV0");
    assert_eq!(basic_authorization("my-client", "s3cr\u{e9}t"), "Basic bXktY2xpZW50OnMzY3LDqXQ=");
}

#[test]
fn rspotify_authorization_header() {
    let client = RSpotify::new(String::from("id"), String::from("secret"));
    assert_eq!(client.authorization_header(), Ok(String::from("Basic aWQ6c2VjcmV0")));
}

#[test]
fn rspotify_is_authorized_once_given_a_token() {
    let client = RSpotify::new(String::from("id"), String::from("secret"));
    assert!(client.request().is_none());
    let client = client.authorized("access");
    assert_eq!(client.request().unwrap().token(), Some(&String::from("access")));
}

#[test]
fn token_exchange_urls() {
    assert_eq!(
        client_credentials_url(),
        "https://accounts.spotify.com/api/token?grant_type=client_credentials"
    );
    assert_eq!(
        refresh_token_url("rt"),
        "https://accounts.spotify.com/api/token?grant_type=refresh_token&refresh_token=rt&redirect_uri=http://localhost:8008/callback"
    );
    assert_eq!(
        authorization_code_url("c0de"),
        "https://accounts.spotify.com/api/token?grant_type=authorization_code&code=c0de&redirect_uri=http://localhost:8008/callback"
    );
}

#[test]
fn authorize_page_url_lists_scope() {
    assert_eq!(
        authorize_page_url("cid", "user-library-read", false),
        "https://accounts.spotify.com/authorize?client_id=cid&response_type=code&redirect_uri=http://localhost:8008/callback&scope=user-library-read&show_dialog=false"
    );
    let client = RSpotify::new(String::from("cid"), String::from("s"));
    assert_eq!(
        client.authorize_page_url("", true),
        "https://accounts.spotify.com/authorize?client_id=cid&response_type=code&redirect_uri=http://localhost:8008/callback&scope=&show_dialog=true"
    );
}

#[test]
fn first_track_of_search() {
    let found = SearchTrackResponse {
        tracks: TrackResponse {
            href: String::new(),
            items: vec![request_track("x"), request_track("y")],
        },
    };
    assert_eq!(first_track(found), Some(request_track("x")));
    let empty = SearchTrackResponse { tracks: TrackResponse { href: String::new(), items: Vec::new() } };
    assert_eq!(first_track(empty), None);
}

#[test]
fn track_ids_in_order() {
    let tracks = vec![request_track("x"), request_track("y")];
    assert_eq!(track_ids(&tracks), vec![String::from("x"), String::from("y")]);
}

#[test]
fn failure_messages_are_distinct() {
    let all = [
        Failure::AuthFailure,
        Failure::FetchFailure,
        Failure::NotFound,
        Failure::CacheWriteFailure,
        Failure::PageLimitExceeded,
        Failure::LengthMismatch,
    ];
    for (i, a) in all.iter().enumerate() {
        for b in all.iter().skip(i + 1) {
            assert_ne!(a.message(), b.message());
        }
    }
    assert_eq!(Failure::NotFound.message(), "not found");
}
