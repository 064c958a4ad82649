//! Decoding of the compact three-segment bearer token: the middle segment
//! is base64url-encoded JSON claims, often delivered without its `=`
//! padding, which is repaired before decoding. No signature check is done;
//! the codec only extracts claims for routing.
use crate::text::{ranges_cover_split, split_on, split_ranges};
use base64::Engine;
use vstd::prelude::*;

verus! {

/// Why decoding a bearer token failed.
#[derive(Clone, Copy, Debug, PartialEq, Eq, Structural)]
pub enum TokenError {
    /// The token does not have exactly three dot-separated segments.
    MalformedToken,
    /// The middle segment is not valid base64url, even after padding repair.
    DecodeError,
    /// The decoded claims are not a JSON object with a usable `missionId`.
    ClaimsParseError,
}

/// The claims this client reads from a token: the organizational unit.
#[derive(Clone, Copy, Debug, PartialEq, Eq, Structural)]
pub struct Claims {
    pub mission_id: usize,
}

/// A bearer credential: the raw token as sent on the wire, plus the claims
/// decoded from its middle segment.
#[derive(Clone, Debug)]
pub struct BearerToken {
    pub token: String,
    pub claims: Claims,
}

/// What `base64`'s `URL_SAFE` engine decodes a string to, if anything.
pub uninterp spec fn b64url_decoded(s: Seq<char>) -> Option<Seq<u8>>;

/// Relies on base64's `Engine::decode` with the `URL_SAFE` engine: the
/// decoded bytes (or the rejection) are a function of the input alone.
#[verifier::external_body]
fn b64url_decode(s: &str) -> (r: Option<Vec<u8>>)
    ensures
        match r {
            Some(v) => b64url_decoded(s@) == Some(v@),
            None => b64url_decoded(s@) == None::<Seq<u8>>,
        },
{
    base64::engine::general_purpose::URL_SAFE.decode(s).ok()
}

/// The `missionId` claim that serde_json reads from the decoded claim
/// bytes: a JSON object whose `missionId` is an unsigned integer.
pub uninterp spec fn claims_mission_id_of(bytes: Seq<u8>) -> Option<usize>;

/// Relies on serde_json's `from_slice`, `Value::get` and `Value::as_u64`:
/// the parsed claim is a function of the input bytes alone.
#[verifier::external_body]
fn parse_claims_mission_id(bytes: &[u8]) -> (r: Option<usize>)
    ensures
        r == claims_mission_id_of(bytes@),
{
    let v: serde_json::Value = serde_json::from_slice(bytes).ok()?;
    let m = v.get("missionId")?.as_u64()?;
    usize::try_from(m).ok()
}

/// The number of `=` characters that complete a base64 segment of `len`
/// characters to a multiple of four.
pub open spec fn pad_len(len: int) -> int {
    (4 - len % 4) % 4
}

/// A base64 segment with its `=` padding repaired.
pub open spec fn pad_base64(m: Seq<char>) -> Seq<char> {
    m + Seq::new(pad_len(m.len() as int) as nat, |i: int| '=')
}

/// What decoding a raw token yields: the mission id of its claims, or the
/// error that the codec reports.
pub open spec fn spec_decode_token(s: Seq<char>) -> Result<usize, TokenError> {
    let parts = split_on(s, '.');
    if parts.len() != 3 {
        Err(TokenError::MalformedToken)
    } else {
        match b64url_decoded(pad_base64(parts[1])) {
            None => Err(TokenError::DecodeError),
            Some(bytes) => match claims_mission_id_of(bytes) {
                None => Err(TokenError::ClaimsParseError),
                Some(m) => Ok(m),
            },
        }
    }
}

impl BearerToken {
    /// Decodes a raw dot-separated token into its typed claims. Fails with
    /// `MalformedToken` unless there are exactly three segments, with
    /// `DecodeError` on invalid base64url in the middle segment, and with
    /// `ClaimsParseError` on an unusable claims payload.
    pub fn from_base64(token: String) -> (r: Result<BearerToken, TokenError>)
        ensures
            match r {
                Ok(bt) => {
                    &&& bt.token@ == token@
                    &&& spec_decode_token(token@) == Ok::<usize, TokenError>(bt.claims.mission_id)
                },
                Err(e) => spec_decode_token(token@) == Err::<usize, TokenError>(e),
            },
            split_on(token@, '.').len() != 3 ==> r == Err::<BearerToken, TokenError>(
                TokenError::MalformedToken,
            ),
    {
        let ranges = split_ranges(token.as_str(), '.');
        if ranges.len() != 3 {
            return Err(TokenError::MalformedToken);
        }
        let (a, b) = (ranges[1].0, ranges[1].1);
        let mid = token.as_str().substring_char(a, b);
        proof {
            assert(mid@ == split_on(token@, '.')[1]);
        }
        let mid_len = b - a;
        let k = (4 - mid_len % 4) % 4;
        let mut padded: String = mid.to_owned();
        let mut j: usize = 0;
        proof {
            reveal_strlit("=");
        }
        while j < k
            invariant
                j <= k,
                k == pad_len(mid@.len() as int),
                padded@ == mid@ + Seq::new(j as nat, |i: int| '='),
                "="@ =~= seq!['='],
            decreases k - j,
        {
            padded.append("=");
            proof {
                assert(mid@ + Seq::new((j + 1) as nat, |i: int| '=') =~= mid@ + Seq::new(
                    j as nat,
                    |i: int| '=',
                ) + "="@);
            }
            j = j + 1;
        }
        proof {
            assert(padded@ =~= pad_base64(split_on(token@, '.')[1]));
        }
        match b64url_decode(padded.as_str()) {
            None => Err(TokenError::DecodeError),
            Some(bytes) => match parse_claims_mission_id(bytes.as_slice()) {
                None => Err(TokenError::ClaimsParseError),
                Some(m) => Ok(BearerToken { token, claims: Claims { mission_id: m } }),
            },
        }
    }
}

/// A token assembled from three segments and two dots.
pub open spec fn dotted3(h: Seq<char>, m: Seq<char>, t: Seq<char>) -> Seq<char> {
    h + seq!['.'] + m + seq!['.'] + t
}

/// Three dot-free segments joined by dots split back into exactly those
/// segments.
pub proof fn lemma_split_dotted3(h: Seq<char>, m: Seq<char>, t: Seq<char>)
    requires
        !h.contains('.'),
        !m.contains('.'),
        !t.contains('.'),
    ensures
        split_on(dotted3(h, m, t), '.') == seq![h, m, t],
{
    crate::text::lemma_split_concat(h, m + seq!['.'] + t, '.');
    assert(dotted3(h, m, t) =~= h + seq!['.'] + (m + seq!['.'] + t));
    crate::text::lemma_split_concat(m, t, '.');
    crate::text::lemma_split_no_sep(h, '.');
    crate::text::lemma_split_no_sep(m, '.');
    crate::text::lemma_split_no_sep(t, '.');
    assert(split_on(dotted3(h, m, t), '.') =~~= seq![h, m, t]);
}

/// Padding repair is idempotent: a repaired segment is already a multiple
/// of four characters long, so repairing it again changes nothing.
pub proof fn lemma_pad_idempotent(m: Seq<char>)
    ensures
        pad_base64(pad_base64(m)) == pad_base64(m),
{
    let n = m.len() as int;
    assert(pad_base64(m).len() as int == n + pad_len(n));
    assert((n + pad_len(n)) % 4 == 0) by {
        assert(n % 4 == 0 || n % 4 == 1 || n % 4 == 2 || n % 4 == 3);
    }
    assert(pad_len(pad_base64(m).len() as int) == 0);
    assert(pad_base64(pad_base64(m)) =~= pad_base64(m));
}

/// A short middle segment misses at most three `=` characters of padding;
/// repairing it yields the fully padded form. Decoding a token whose
/// middle segment arrived without that padding gives exactly the same
/// claims (or the same failure) as decoding the fully padded token.
pub proof fn lemma_decode_padding_insensitive(h: Seq<char>, m: Seq<char>, t: Seq<char>)
    requires
        !h.contains('.'),
        !m.contains('.'),
        !t.contains('.'),
    ensures
        spec_decode_token(dotted3(h, m, t)) == spec_decode_token(dotted3(h, pad_base64(m), t)),
{
    assert(!pad_base64(m).contains('.')) by {
        assert(forall|i: int|
            m.len() <= i < pad_base64(m).len() ==> pad_base64(m)[i] == '=');
        assert(forall|i: int| 0 <= i < m.len() ==> pad_base64(m)[i] == m[i]);
        if pad_base64(m).contains('.') {
            let i = choose|i: int| 0 <= i < pad_base64(m).len() && pad_base64(m)[i] == '.';
            assert(m.contains('.')) by {
                assert(m[i] == '.');
            }
        }
    }
    lemma_split_dotted3(h, m, t);
    lemma_split_dotted3(h, pad_base64(m), t);
    lemma_pad_idempotent(m);
}

} // verus!
