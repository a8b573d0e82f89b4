//! Credentials, the token exchange's locations, and the client that holds
//! the bearer token once it was obtained.

use crate::failure::Failure;
use crate::request::SpotifyRequest;
use vstd::prelude::*;
use vstd::slice::slice_to_vec;
use vstd::string::{StringExecFns, StringSliceAdditionalSpecFns};
use vstd::utf8::encode_utf8;

verus! {

/// Where tokens are exchanged.
pub const SPOTIFY_AUTH_URL: &'static str = "https://accounts.spotify.com/api/token";

/// Where a user grants the application access.
pub const SPOTIFY_AUTHORIZATION_URL: &'static str = "https://accounts.spotify.com/authorize";

/// Where tokens are exchanged, as characters.
pub open spec fn token_root() -> Seq<char> {
    "https://accounts.spotify.com/api/token"@
}

/// Where a user grants access, as characters.
pub open spec fn authorization_root() -> Seq<char> {
    "https://accounts.spotify.com/authorize"@
}

/// The local address that the grant is sent back to.
pub open spec fn redirect_uri() -> Seq<char> {
    "http://localhost:8008/callback"@
}

/// The Base64 encoding (standard alphabet, padded) of `bytes`.
pub uninterp spec fn base64_of(bytes: Seq<u8>) -> Seq<char>;

/// Relies on `base64::encode`, which encodes with the standard alphabet and
/// padding, so that its result depends on the bytes alone. It panics only
/// when the encoded length overflows `usize`, which the bound rules out.
#[verifier::external_body]
fn base64_encode(bytes: &[u8]) -> (r: String)
    requires
        bytes@.len() <= usize::MAX / 2,
    ensures
        r@ == base64_of(bytes@),
{
    base64::encode(bytes)
}

/// The credentials `client_id:client_secret`, as UTF-8 bytes.
pub open spec fn credentials_of(client_id: Seq<char>, client_secret: Seq<char>) -> Seq<u8> {
    encode_utf8(client_id) + seq![58u8] + encode_utf8(client_secret)
}

/// The value of the `Authorization` header that presents the credentials:
/// `Basic ` and the Base64 encoding of `client_id:client_secret`.
pub fn basic_authorization(client_id: &str, client_secret: &str) -> (r: String)
    requires
        client_id.spec_bytes().len() + client_secret.spec_bytes().len() < usize::MAX / 2,
    ensures
        r@ == "Basic "@ + base64_of(credentials_of(client_id@, client_secret@)),
{
    proof {
        reveal_strlit("Basic ");
    }
    let mut bytes = slice_to_vec(client_id.as_bytes());
    bytes.push(58u8);
    let mut secret = slice_to_vec(client_secret.as_bytes());
    bytes.append(&mut secret);
    assert(bytes@ =~= credentials_of(client_id@, client_secret@));
    let encoded = base64_encode(bytes.as_slice());
    let mut header = String::from_str("Basic ");
    header.append(encoded.as_str());
    header
}

fn token_location(query: &str) -> (r: String)
    ensures
        r@ == token_root() + query@,
{
    proof {
        reveal_strlit("https://accounts.spotify.com/api/token");
    }
    let mut url = String::from_str(SPOTIFY_AUTH_URL);
    url.append(query);
    url
}

/// The exchange of the application's own credentials for a token.
pub fn client_credentials_url() -> (r: String)
    ensures
        r@ == token_root() + "?grant_type=client_credentials"@,
{
    token_location("?grant_type=client_credentials")
}

/// The exchange of a cached refresh token for a new token.
pub fn refresh_token_url(refresh_token: &str) -> (r: String)
    ensures
        r@ == token_root() + "?grant_type=refresh_token&refresh_token="@ + refresh_token@
            + "&redirect_uri="@ + redirect_uri(),
{
    let mut url = token_location("?grant_type=refresh_token&refresh_token=");
    url.append(refresh_token);
    url.append("&redirect_uri=");
    url.append("http://localhost:8008/callback");
    url
}

/// The exchange of an authorization code, granted by the user, for a token.
pub fn authorization_code_url(code: &str) -> (r: String)
    ensures
        r@ == token_root() + "?grant_type=authorization_code&code="@ + code@ + "&redirect_uri="@
            + redirect_uri(),
{
    let mut url = token_location("?grant_type=authorization_code&code=");
    url.append(code);
    url.append("&redirect_uri=");
    url.append("http://localhost:8008/callback");
    url
}

/// The page on which a user grants the application access to `scope`.
pub fn authorize_page_url(client_id: &str, scope: &str, show_dialog: bool) -> (r: String)
    ensures
        r@ == authorization_root() + "?client_id="@ + client_id@
            + "&response_type=code&redirect_uri="@ + redirect_uri() + "&scope="@ + scope@
            + "&show_dialog="@ + (if show_dialog {
            "true"@
        } else {
            "false"@
        }),
{
    proof {
        reveal_strlit("https://accounts.spotify.com/authorize");
    }
    let mut url = String::from_str(SPOTIFY_AUTHORIZATION_URL);
    url.append("?client_id=");
    url.append(client_id);
    url.append("&response_type=code&redirect_uri=");
    url.append("http://localhost:8008/callback");
    url.append("&scope=");
    url.append(scope);
    url.append("&show_dialog=");
    if show_dialog {
        url.append("true");
    } else {
        url.append("false");
    }
    url
}

/// The application's credentials and, once authorized, the requests that
/// carry its bearer token.
pub struct RSpotify {
    client_id: String,
    client_secret: String,
    request: Option<SpotifyRequest>,
}

impl View for RSpotify {
    /// The client id, the client secret, and the bearer token if any.
    type V = (Seq<char>, Seq<char>, Option<Seq<char>>);

    closed spec fn view(&self) -> (Seq<char>, Seq<char>, Option<Seq<char>>) {
        (
            self.client_id@,
            self.client_secret@,
            match self.request {
                Some(q) => q@,
                None => None,
            },
        )
    }
}

impl RSpotify {
    /// A client for the given credentials, not yet authorized.
    pub fn new(client_id: String, client_secret: String) -> (r: Self)
        ensures
            r@ == (client_id@, client_secret@, None::<Seq<char>>),
    {
        RSpotify { client_id, client_secret, request: None }
    }

    /// The same client, authorized with `access_token`.
    pub fn authorized(self, access_token: &str) -> (r: Self)
        ensures
            r@ == (self@.0, self@.1, Some(access_token@)),
    {
        RSpotify {
            client_id: self.client_id,
            client_secret: self.client_secret,
            request: Some(SpotifyRequest::new(access_token)),
        }
    }

    /// The requests of an authorized client.
    pub fn request(&self) -> (r: Option<&SpotifyRequest>)
        ensures
            match r {
                Some(q) => q@ == self@.2,
                None => self@.2 is None,
            },
    {
        self.request.as_ref()
    }

    /// The `Authorization` header that presents the client's credentials;
    /// `AuthFailure` when they are too long to encode.
    pub fn authorization_header(&self) -> (r: Result<String, Failure>)
        ensures
            r is Ok <==> encode_utf8(self@.0).len() + encode_utf8(self@.1).len() < usize::MAX / 2,
            r is Ok ==> r->Ok_0@ == "Basic "@ + base64_of(credentials_of(self@.0, self@.1)),
            r is Err ==> r->Err_0 == Failure::AuthFailure,
    {
        let id = self.client_id.as_str();
        let secret = self.client_secret.as_str();
        let id_len = id.as_bytes().len();
        let secret_len = secret.as_bytes().len();
        if id_len >= usize::MAX / 2 || secret_len >= usize::MAX / 2 - id_len {
            return Err(Failure::AuthFailure);
        }
        Ok(basic_authorization(id, secret))
    }

    /// The page on which a user grants this client access to `scope`.
    pub fn authorize_page_url(&self, scope: &str, show_dialog: bool) -> (r: String)
        ensures
            r@ == authorization_root() + "?client_id="@ + self@.0
                + "&response_type=code&redirect_uri="@ + redirect_uri() + "&scope="@ + scope@
                + "&show_dialog="@ + (if show_dialog {
                "true"@
            } else {
                "false"@
            }),
    {
        authorize_page_url(self.client_id.as_str(), scope, show_dialog)
    }
}

} // verus!
