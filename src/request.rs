//! Where the API's resources live, and the bearer token that requests carry.

use vstd::prelude::*;
use vstd::string::StringExecFns;

verus! {

/// The root of the API.
pub const SPOTIFY_URL: &'static str = "https://api.spotify.com/v1";

/// The root of the API, as characters.
pub open spec fn api_root() -> Seq<char> {
    "https://api.spotify.com/v1"@
}

/// The identifiers joined by commas.
pub open spec fn comma_joined(ids: Seq<Seq<char>>) -> Seq<char>
    decreases ids.len(),
{
    if ids.len() == 0 {
        Seq::empty()
    } else if ids.len() == 1 {
        ids[0]
    } else {
        comma_joined(ids.drop_last()) + ","@ + ids.last()
    }
}

/// The location asked for: the cursor when there is one, else `first`.
pub open spec fn located(link: Option<String>, first: Seq<char>) -> Seq<char> {
    match link {
        Some(l) => l@,
        None => first,
    }
}

/// A client that carries an optional bearer token on its requests.
pub struct RaxiosClient {
    token: Option<String>,
}

impl View for RaxiosClient {
    type V = Option<Seq<char>>;

    /// The bearer token, if one was set.
    closed spec fn view(&self) -> Option<Seq<char>> {
        match self.token {
            Some(t) => Some(t@),
            None => None,
        }
    }
}

impl RaxiosClient {
    /// A client without a token.
    pub fn new() -> (r: Self)
        ensures
            r@ is None,
    {
        RaxiosClient { token: None }
    }

    /// Makes later requests carry `token`.
    pub fn set_token(&mut self, token: &str)
        ensures
            final(self)@ == Some(token@),
    {
        self.token = Some(token.to_owned());
    }

    /// The bearer token, if one was set.
    pub fn token(&self) -> (r: Option<&String>)
        ensures
            match r {
                Some(t) => self@ == Some(t@),
                None => self@ is None,
            },
    {
        self.token.as_ref()
    }
}

/// Builds the requests of the API for one bearer token.
pub struct SpotifyRequest {
    raxios: RaxiosClient,
}

impl View for SpotifyRequest {
    type V = Option<Seq<char>>;

    /// The bearer token that the requests carry.
    closed spec fn view(&self) -> Option<Seq<char>> {
        self.raxios@
    }
}

fn api_location(path: &str) -> (r: String)
    ensures
        r@ == api_root() + path@,
{
    proof {
        reveal_strlit("https://api.spotify.com/v1");
    }
    let mut url = String::from_str(SPOTIFY_URL);
    url.append(path);
    url
}

impl SpotifyRequest {
    /// Requests that carry `token`.
    pub fn new(token: &str) -> (r: Self)
        ensures
            r@ == Some(token@),
    {
        let mut raxios = RaxiosClient::new();
        raxios.set_token(token);
        SpotifyRequest { raxios }
    }

    /// The bearer token that the requests carry.
    pub fn token(&self) -> (r: Option<&String>)
        ensures
            match r {
                Some(t) => self@ == Some(t@),
                None => self@ is None,
            },
    {
        self.raxios.token()
    }

    /// The search for tracks named `title` by `artist`.
    pub fn search_url(&self, title: &str, artist: &str) -> (r: String)
        ensures
            r@ == api_root() + "/search?type=track&q=track:"@ + title@ + " artist:"@ + artist@,
    {
        let mut url = api_location("/search?type=track&q=track:");
        url.append(title);
        url.append(" artist:");
        url.append(artist);
        url
    }

    /// The page of a playlist's tracks at `link`, or its first page.
    pub fn playlist_url(&self, playlist_id: &str, link: Option<String>) -> (r: String)
        ensures
            r@ == located(link, api_root() + "/playlists/"@ + playlist_id@ + "/tracks"@),
    {
        match link {
            Some(link) => link,
            None => {
                let mut url = api_location("/playlists/");
                url.append(playlist_id);
                url.append("/tracks");
                url
            },
        }
    }

    /// The page of an album's tracks at `link`, or its first page.
    pub fn album_url(&self, album_id: &str, link: Option<String>) -> (r: String)
        ensures
            r@ == located(link, api_root() + "/albums/"@ + album_id@ + "/tracks"@),
    {
        match link {
            Some(link) => link,
            None => {
                let mut url = api_location("/albums/");
                url.append(album_id);
                url.append("/tracks");
                url
            },
        }
    }

    /// The enrichment records of the tracks `track_ids`, in their order.
    pub fn audio_features_url(&self, track_ids: &[String]) -> (r: String)
        ensures
            r@ == api_root() + "/audio-features?ids="@ + comma_joined(
                track_ids@.map_values(|t: String| t@),
            ),
    {
        let ghost ids = track_ids@.map_values(|t: String| t@);
        let mut url = api_location("/audio-features?ids=");
        let mut i: usize = 0;
        while i < track_ids.len()
            invariant
                ids == track_ids@.map_values(|t: String| t@),
                i <= track_ids@.len(),
                url@ == api_root() + "/audio-features?ids="@ + comma_joined(ids.take(i as int)),
            decreases track_ids@.len() - i,
        {
            proof {
                assert(ids.take(i as int + 1).drop_last() =~= ids.take(i as int));
                if i == 0 {
                    assert(ids.take(1) =~= seq![ids[0]]);
                    assert(comma_joined(ids.take(0)) =~= Seq::<char>::empty());
                }
            }
            if i > 0 {
                url.append(",");
            }
            url.append(track_ids[i].as_str());
            proof {
                if i == 0 {
                    assert(api_root() + "/audio-features?ids="@ + Seq::<char>::empty() + ids[0]
                        =~= api_root() + "/audio-features?ids="@ + ids[0]);
                } else {
                    assert(api_root() + "/audio-features?ids="@ + comma_joined(ids.take(i as int))
                        + ","@ + ids[i as int] =~= api_root() + "/audio-features?ids="@ + (
                    comma_joined(ids.take(i as int)) + ","@ + ids[i as int]));
                }
            }
            i = i + 1;
        }
        assert(ids.take(track_ids@.len() as int) =~= ids);
        url
    }

    /// The page of the user's playlists at `link`, or the first page.
    pub fn user_playlist_url(&self, link: Option<String>) -> (r: String)
        ensures
            r@ == located(link, api_root() + "/me/playlists"@),
    {
        match link {
            Some(link) => link,
            None => api_location("/me/playlists"),
        }
    }

    /// The page of the user's saved albums at `link`, or the first page.
    pub fn user_album_url(&self, link: Option<String>) -> (r: String)
        ensures
            r@ == located(link, api_root() + "/me/albums"@),
    {
        match link {
            Some(link) => link,
            None => api_location("/me/albums"),
        }
    }

    /// The page of the user's saved tracks at `link`, or the first page.
    pub fn user_saved_song_url(&self, link: Option<String>) -> (r: String)
        ensures
            r@ == located(link, api_root() + "/me/tracks"@),
    {
        match link {
            Some(link) => link,
            None => api_location("/me/tracks"),
        }
    }
}

} // verus!
