//! XOAUTH2 authentication material: the credentials record and the SASL
//! response string built from an account and an access token. Token
//! acquisition itself is a collaborator's business and stays outside.

use vstd::prelude::*;
use vstd::string::*;

verus! {

/// OAuth2 credentials for the mailbox provider.
#[derive(Debug)]
pub struct OAuth2Credentials {
    pub client_id: String,
    pub client_secret: String,
    pub refresh_token: String,
}

impl Clone for OAuth2Credentials {
    fn clone(&self) -> (r: OAuth2Credentials)
        ensures
            r.client_id@ == self.client_id@,
            r.client_secret@ == self.client_secret@,
            r.refresh_token@ == self.refresh_token@,
    {
        OAuth2Credentials {
            client_id: self.client_id.clone(),
            client_secret: self.client_secret.clone(),
            refresh_token: self.refresh_token.clone(),
        }
    }
}

/// What the standard base64 alphabet, with padding, encodes these bytes to.
pub uninterp spec fn base64_of(bytes: Seq<u8>) -> Seq<char>;

/// Relies on base64's STANDARD engine encode: the encoding depends on the
/// bytes alone, four output characters for every started group of three
/// input bytes.
#[verifier::external_body]
fn b64_standard(s: &str) -> (r: String)
    ensures
        r@ == base64_of(s.spec_bytes()),
        r@.len() == ((s.spec_bytes().len() + 2) / 3) * 4,
{
    <base64::engine::GeneralPurpose as base64::Engine>::encode(
        &base64::engine::general_purpose::STANDARD,
        s,
    )
}

/// The plain (pre-encoding) XOAUTH2 string for an account and a token.
pub open spec fn xoauth2_plain(email: Seq<char>, token: Seq<char>) -> Seq<char> {
    "user="@ + email + "\x01auth=Bearer "@ + token + "\x01\x01"@
}

/// Builds the XOAUTH2 authentication string: the base64 encoding of
/// `user=<email>\x01auth=Bearer <token>\x01\x01`.
pub fn build_xoauth2_string(email: &str, access_token: &str) -> (r: String)
    ensures
        r@ == base64_of(vstd::utf8::encode_utf8(xoauth2_plain(email@, access_token@))),
{
    let mut auth = String::from_str("user=");
    auth.append(email);
    auth.append("\x01auth=Bearer ");
    auth.append(access_token);
    auth.append("\x01\x01");
    proof {
        assert(auth@ =~= xoauth2_plain(email@, access_token@));
    }
    let r = b64_standard(auth.as_str());
    r
}

/// The prepared XOAUTH2 responder: it answers every server challenge with
/// the one precomputed response.
#[derive(Debug)]
pub struct XOAuth2Authenticator {
    pub response: String,
}

impl XOAuth2Authenticator {
    /// Prepares the responder for an account and an access token.
    pub fn new(email: &str, access_token: &str) -> (r: XOAuth2Authenticator)
        ensures
            r.response@ == base64_of(
                vstd::utf8::encode_utf8(xoauth2_plain(email@, access_token@)),
            ),
    {
        XOAuth2Authenticator { response: build_xoauth2_string(email, access_token) }
    }

    /// The response to one server challenge; the challenge itself plays no
    /// part.
    pub fn process(&self, challenge: &[u8]) -> (r: String)
        ensures
            r@ == self.response@,
    {
        let _ = challenge;
        self.response.clone()
    }
}

} // verus!
