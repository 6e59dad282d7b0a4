//! Typed client core for a domain registrar's remote management API.
//!
//! The remote service speaks loosely typed JSON. This crate holds the rules
//! that turn typed, validated local values into the wire format the service
//! expects, and the service's responses back into strongly typed local values
//! with enforced invariants: status tokens, price strings, non-empty address
//! lists, and renderings that never leak secrets.

use vstd::prelude::*;

pub mod addr;
pub mod domain;
pub mod general;
pub mod nonempty;
pub mod price;
pub mod ssl;
pub mod text;

use crate::text::contains_seq;

verus! {

/// The two-valued outcome tag attached to every response envelope.
///
/// The wire sends the uppercase tokens `ERROR` and `SUCCESS`; decoding
/// normalizes case and refuses every other token. There is deliberately no
/// catch-all variant: an unrecognized status is a hard decode failure.
#[derive(Debug, Clone, Copy, PartialEq, Eq, Structural)]
pub enum Status {
    /// The remote service reported failure.
    Error,
    /// The remote service reported success.
    Success,
}

/// True when `c` is `e` itself or the lowercase form of the ASCII letter `e`.
pub open spec fn char_upper_eq(c: char, e: char) -> bool {
    c == e || ('A' <= e && e <= 'Z' && c as u32 == e as u32 + 32)
}

/// True when uppercasing every character of `s` yields exactly `t`.
pub open spec fn upper_is(s: Seq<char>, t: Seq<char>) -> bool {
    s.len() == t.len() && forall|i: int| 0 <= i < s.len() ==> char_upper_eq(s[i], #[trigger] t[i])
}

fn upper_matches(s: &str, t: &str) -> (r: bool)
    ensures
        r == upper_is(s@, t@),
{
    let n = s.unicode_len();
    if n != t.unicode_len() {
        return false;
    }
    for i in 0..n
        invariant
            n == s@.len(),
            n == t@.len(),
            forall|j: int| 0 <= j < i ==> char_upper_eq(s@[j], #[trigger] t@[j]),
    {
        let c = s.get_char(i);
        let e = t.get_char(i);
        let lower_of_e = c as u32 == e as u32 + 32 && 'A' <= e && e <= 'Z';
        if !(c == e || lower_of_e) {
            return false;
        }
    }
    true
}

/// Decode a wire status token into [`Status`].
///
/// The token is uppercased, then matched against `SUCCESS` and `ERROR`; any
/// other token fails with [`DecodeError::UnknownStatus`] carrying the token.
pub fn decode_status(token: &str) -> (r: Result<Status, DecodeError>)
    ensures
        r == Ok::<Status, DecodeError>(Status::Success) <==> upper_is(token@, "SUCCESS"@),
        r == Ok::<Status, DecodeError>(Status::Error) <==> upper_is(token@, "ERROR"@),
        r matches Err(e) ==> e matches DecodeError::UnknownStatus(t) && t@ == token@
            && !upper_is(token@, "SUCCESS"@) && !upper_is(token@, "ERROR"@),
{
    proof {
        reveal_strlit("SUCCESS");
        reveal_strlit("ERROR");
    }
    if upper_matches(token, "SUCCESS") {
        Ok(Status::Success)
    } else if upper_matches(token, "ERROR") {
        Ok(Status::Error)
    } else {
        Err(DecodeError::UnknownStatus(String::from_str(token)))
    }
}

/// The wire token for a status value.
pub open spec fn status_token(s: Status) -> Seq<char> {
    match s {
        Status::Error => "ERROR"@,
        Status::Success => "SUCCESS"@,
    }
}

impl Status {
    /// The token the remote service uses for this status, as shown to users.
    pub fn render(&self) -> (r: String)
        ensures
            r@ == status_token(*self),
    {
        match *self {
            Status::Error => String::from_str("ERROR"),
            Status::Success => String::from_str("SUCCESS"),
        }
    }
}

/// The authentication pair sent with every authenticated request.
///
/// Immutable after construction. Its wire form uses the fixed field names
/// `apikey` and `secretapikey`. The only rendering path is [`Credentials::render`],
/// which unconditionally redacts both fields; the type deliberately has no
/// `Debug` impl, so no derived rendering can leak them.
#[derive(Clone)]
pub struct Credentials {
    /// API key.
    pub api_key: String,
    /// Secret API key.
    pub secret_api_key: String,
}

/// What [`Credentials::render`] produces: one fixed text that does not read
/// either key. The parameter only records that the rendering is defined for
/// every credentials value.
pub open spec fn credentials_rendering(c: Credentials) -> Seq<char> {
    "api_key: <REDACTED>\nsecret_api_key: <REDACTED>"@
}

/// The wire form of a credentials value: its fields under their wire names,
/// in the order they are sent.
pub open spec fn credentials_wire(c: Credentials) -> Seq<(Seq<char>, Seq<char>)> {
    seq![("apikey"@, c.api_key@), ("secretapikey"@, c.secret_api_key@)]
}

/// The JSON text of the authenticated request body: both fields under their
/// wire names, escaped.
pub open spec fn auth_body_text(c: Credentials) -> Seq<char> {
    "{\"apikey\":\""@ + crate::text::json_escaped(c.api_key@) + "\",\"secretapikey\":\""@
        + crate::text::json_escaped(c.secret_api_key@) + "\"}"@
}

/// The views of a sequence of owned field pairs.
pub open spec fn pair_views(pairs: Seq<(String, String)>) -> Seq<(Seq<char>, Seq<char>)> {
    pairs.map_values(|p: (String, String)| (p.0@, p.1@))
}

/// The value under the first occurrence of `key`, if any.
pub open spec fn find_value(pairs: Seq<(Seq<char>, Seq<char>)>, key: Seq<char>) -> Option<
    Seq<char>,
>
    decreases pairs.len(),
{
    if pairs.len() == 0 {
        None
    } else if pairs[0].0 == key {
        Some(pairs[0].1)
    } else {
        find_value(pairs.drop_first(), key)
    }
}

/// The credentials fields a wire field list decodes to, if both are present.
pub open spec fn decoded_credentials(pairs: Seq<(Seq<char>, Seq<char>)>) -> Option<
    (Seq<char>, Seq<char>),
> {
    match (find_value(pairs, "apikey"@), find_value(pairs, "secretapikey"@)) {
        (Some(a), Some(s)) => Some((a, s)),
        _ => None,
    }
}

impl Credentials {
    /// The rendering shown to users: both fields unconditionally redacted.
    pub fn render(&self) -> (r: String)
        ensures
            r@ == credentials_rendering(*self),
    {
        String::from_str("api_key: <REDACTED>\nsecret_api_key: <REDACTED>")
    }

    /// The wire form of this value: both fields under their wire names.
    pub fn encode_wire(&self) -> (r: Vec<(String, String)>)
        ensures
            pair_views(r@) == credentials_wire(*self),
    {
        let mut r: Vec<(String, String)> = Vec::new();
        r.push((String::from_str("apikey"), self.api_key.clone()));
        r.push((String::from_str("secretapikey"), self.secret_api_key.clone()));
        proof {
            assert(pair_views(r@) =~= credentials_wire(*self));
        }
        r
    }

    /// The JSON request body sent for authenticated operations that carry no
    /// further parameters: both wire fields, JSON-escaped.
    pub fn auth_body(&self) -> (r: String)
        ensures
            r@ == auth_body_text(*self),
    {
        let mut r = String::from_str("{\"apikey\":\"");
        crate::text::append_escaped(&mut r, self.api_key.as_str());
        r.append("\",\"secretapikey\":\"");
        crate::text::append_escaped(&mut r, self.secret_api_key.as_str());
        r.append("\"}");
        proof {
            assert(r@ =~= auth_body_text(*self));
        }
        r
    }

    /// Rebuilds credentials from a wire field list. Succeeds if and only if
    /// both wire fields are present; a missing field is named in the error.
    pub fn decode_wire(pairs: &Vec<(String, String)>) -> (r: Result<Credentials, DecodeError>)
        ensures
            match r {
                Ok(c) => decoded_credentials(pair_views(pairs@)) == Some(
                    (c.api_key@, c.secret_api_key@),
                ),
                Err(e) => {
                    &&& decoded_credentials(pair_views(pairs@)) is None
                    &&& e matches DecodeError::MissingField(f)
                    &&& (f@ == "apikey"@ || f@ == "secretapikey"@)
                    &&& find_value(pair_views(pairs@), f@) is None
                },
            },
    {
        let api_key = find_pair(pairs, "apikey");
        let secret_api_key = find_pair(pairs, "secretapikey");
        match (api_key, secret_api_key) {
            (Some(a), Some(s)) => Ok(Credentials { api_key: a, secret_api_key: s }),
            (None, _) => Err(DecodeError::MissingField(String::from_str("apikey"))),
            (_, None) => Err(DecodeError::MissingField(String::from_str("secretapikey"))),
        }
    }
}

fn find_pair(pairs: &Vec<(String, String)>, key: &str) -> (r: Option<String>)
    ensures
        match r {
            Some(v) => find_value(pair_views(pairs@), key@) == Some(v@),
            None => find_value(pair_views(pairs@), key@) is None,
        },
{
    let n = pairs.len();
    proof {
        assert(pair_views(pairs@).skip(0) =~= pair_views(pairs@));
    }
    for i in 0..n
        invariant
            n == pairs@.len(),
            find_value(pair_views(pairs@), key@) == find_value(
                pair_views(pairs@).skip(i as int),
                key@,
            ),
    {
        proof {
            assert(pair_views(pairs@).skip(i as int).drop_first() =~= pair_views(pairs@).skip(
                i + 1,
            ));
            assert(pair_views(pairs@).skip(i as int)[0] == pair_views(pairs@)[i as int]);
        }
        if crate::text::str_eq(pairs[i].0.as_str(), key) {
            return Some(pairs[i].1.clone());
        }
    }
    None
}

/// Law: the rendering of credentials is one fixed text, independent of the
/// key values; so any non-empty text that does not occur in the rendering of
/// one credentials value — in particular a real key — occurs in the rendering
/// of none.
pub proof fn lemma_credentials_rendering_redacts(a: Credentials, b: Credentials, secret: Seq<char>)
    requires
        secret.len() > 0,
        !contains_seq(credentials_rendering(b), secret),
    ensures
        credentials_rendering(a) == credentials_rendering(b),
        !contains_seq(credentials_rendering(a), secret),
{
}

/// Law: decoding the wire form of any credentials value yields back the
/// same fields, field for field.
pub proof fn lemma_credentials_wire_round_trip(c: Credentials)
    ensures
        decoded_credentials(credentials_wire(c)) == Some((c.api_key@, c.secret_api_key@)),
{
    reveal_strlit("apikey");
    reveal_strlit("secretapikey");
    let pairs = credentials_wire(c);
    assert("apikey"@.len() == 6);
    assert("secretapikey"@.len() == 12);
    assert(pairs.drop_first() =~= seq![("secretapikey"@, c.secret_api_key@)]);
    assert(find_value(pairs, "apikey"@) == Some(c.api_key@));
    assert(find_value(pairs, "secretapikey"@) == find_value(pairs.drop_first(), "secretapikey"@));
    assert(find_value(pairs, "secretapikey"@) == Some(c.secret_api_key@));
}

/// Raised when a value with a mandatory non-empty-collection invariant is
/// built from zero elements.
#[derive(Debug, Clone, Copy, PartialEq, Eq, Structural)]
pub enum ConstructionError {
    /// The input sequence had no elements.
    EmptyInput,
}

/// Raised by the price parser; carries the offending raw string.
#[derive(Debug, Clone)]
pub struct ParseError {
    /// The string that could not be parsed as a price.
    pub raw: String,
}

/// A response body that does not match the expected shape for the requested
/// operation. Decode failure is always total: no partial envelope is built.
#[derive(Debug, Clone)]
pub enum DecodeError {
    /// A status token that is neither `SUCCESS` nor `ERROR`, carried verbatim.
    UnknownStatus(String),
    /// A price string that is not a valid decimal amount.
    Price(ParseError),
    /// A wire payload claimed an address family but supplied zero addresses.
    Construction(ConstructionError),
    /// A required field was absent from the wire document.
    MissingField(String),
}

} // verus!
