//! SSL certificate bundle retrieval: the envelope, its decoding, and a
//! rendering that structurally never reads the certificate chain or the
//! private key.

use crate::text::contains_seq;
use crate::{status_token, upper_is, DecodeError, Status};
use vstd::prelude::*;

verus! {

/// The SSL bundle for a domain. The certificate chain and the private key
/// must never appear in any rendering; the public key may. The only
/// rendering path is [`BundleResponse::render`], which redacts both; the
/// type deliberately has no `Debug` impl, so no derived rendering can leak
/// them.
#[derive(Clone)]
pub struct BundleResponse {
    /// The complete certificate chain. Never rendered.
    pub certificate_chain: String,
    /// The private key. Never rendered.
    pub private_key: String,
    /// The public key. Rendered verbatim.
    pub public_key: String,
    /// The remote service's status.
    pub status: Status,
}

/// What [`BundleResponse::render`] produces. It is a function of the status
/// and the public key alone: the certificate chain and the private key are
/// not read, which is what makes their redaction structural.
pub open spec fn bundle_rendering(status: Status, public_key: Seq<char>) -> Seq<char> {
    "Status: "@ + status_token(status)
        + "\nCertificate chain: <REDACTED>\nPrivate key: <REDACTED>\nPublic key: "@ + public_key
}

impl BundleResponse {
    /// The rendering shown to users: status and public key, both secrets
    /// unconditionally redacted.
    pub fn render(&self) -> (r: String)
        ensures
            r@ == bundle_rendering(self.status, self.public_key@),
    {
        let mut r = String::from_str("Status: ");
        r.append(self.status.render().as_str());
        r.append("\nCertificate chain: <REDACTED>\nPrivate key: <REDACTED>\nPublic key: ");
        r.append(self.public_key.as_str());
        proof {
            assert(r@ =~= bundle_rendering(self.status, self.public_key@));
        }
        r
    }

    /// Builds the typed bundle from the decoded wire document: the status
    /// token is decoded, the three key strings carried through unchanged.
    pub fn decode(
        certificate_chain: String,
        private_key: String,
        public_key: String,
        token: &str,
    ) -> (r: Result<BundleResponse, DecodeError>)
        ensures
            r is Ok <==> upper_is(token@, "SUCCESS"@) || upper_is(token@, "ERROR"@),
            r matches Ok(b) ==> {
                &&& b.certificate_chain@ == certificate_chain@
                &&& b.private_key@ == private_key@
                &&& b.public_key@ == public_key@
                &&& (b.status == Status::Success <==> upper_is(token@, "SUCCESS"@))
            },
            r matches Err(e) ==> e matches DecodeError::UnknownStatus(t) && t@ == token@,
    {
        match crate::decode_status(token) {
            Ok(status) => Ok(
                BundleResponse { certificate_chain, private_key, public_key, status },
            ),
            Err(e) => Err(e),
        }
    }
}

/// The URL an SSL bundle retrieval is posted to.
pub fn ssl_retrieve_path(domain: &str) -> (r: String)
    ensures
        r@ == "https://api.porkbun.com/api/json/v3/ssl/retrieve/"@ + domain@,
{
    let mut r = String::from_str("https://api.porkbun.com/api/json/v3/ssl/retrieve/");
    r.append(domain);
    proof {
        assert(r@ =~= "https://api.porkbun.com/api/json/v3/ssl/retrieve/"@ + domain@);
    }
    r
}

/// Law: the bundle rendering shows the public key — the rendering of any
/// bundle contains the public key's text.
pub proof fn lemma_bundle_rendering_shows_public_key(status: Status, public_key: Seq<char>)
    ensures
        contains_seq(bundle_rendering(status, public_key), public_key),
{
    let whole = bundle_rendering(status, public_key);
    let i = whole.len() - public_key.len();
    assert(whole.subrange(i as int, i + public_key.len()) =~= public_key);
}

/// Law: the bundle rendering reads the status and the public key alone —
/// two bundles that agree on those render identically, whatever their
/// certificate chains and private keys hold; so any text absent from one
/// such rendering, a private key among them, is absent from both.
pub proof fn lemma_bundle_rendering_redacts(
    a: BundleResponse,
    b: BundleResponse,
    secret: Seq<char>,
)
    requires
        a.status == b.status,
        a.public_key@ == b.public_key@,
        !contains_seq(bundle_rendering(b.status, b.public_key@), secret),
    ensures
        bundle_rendering(a.status, a.public_key@) == bundle_rendering(b.status, b.public_key@),
        !contains_seq(bundle_rendering(a.status, a.public_key@), secret),
{
}

} // verus!
