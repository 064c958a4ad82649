//! Preparing a payload for the outbound score push: pad the serialized
//! text to a multiple of three, encrypt it against a repeating key, and
//! encode the ciphertext as base64. The HTTP delivery is the caller's.
use base64::Engine;
use vstd::prelude::*;

verus! {

/// The JSON shape the push endpoint expects: one `body` field.
#[derive(Clone, Debug)]
pub struct PostPayload {
    body: String,
}

impl PostPayload {
    /// The encoded ciphertext this payload carries.
    pub closed spec fn spec_body(self) -> Seq<char> {
        self.body@
    }

    pub fn new(body: String) -> (r: PostPayload)
        ensures
            r.spec_body() == body@,
    {
        PostPayload { body }
    }

    pub fn into_body(self) -> (r: String)
        ensures
            r@ == self.spec_body(),
    {
        self.body
    }
}

/// Space padding up to the next multiple of three characters.
pub open spec fn spec_pad3(s: Seq<char>) -> Seq<char> {
    s + Seq::new(((3 - s.len() as int % 3) % 3) as nat, |i: int| ' ')
}

/// Pads with spaces until the length is divisible by three.
pub fn pad_until_divisible_by_3(s: String) -> (r: String)
    ensures
        r@ == spec_pad3(s@),
        r@.len() % 3 == 0,
{
    proof {
        reveal_strlit(" ");
    }
    let ghost orig = s@;
    let n = s.as_str().unicode_len();
    let k = (3 - n % 3) % 3;
    let mut padded = s;
    let mut j: usize = 0;
    while j < k
        invariant
            j <= k <= 2,
            k == (3 - orig.len() as int % 3) % 3,
            padded@ == orig + Seq::new(j as nat, |i: int| ' '),
            " "@ =~= seq![' '],
        decreases k - j,
    {
        padded.append(" ");
        proof {
            assert(padded@ =~= orig + Seq::new((j + 1) as nat, |i: int| ' '));
        }
        j = j + 1;
    }
    proof {
        assert(padded@ =~= spec_pad3(orig));
        assert((orig.len() as int % 3 == 0 || orig.len() as int % 3 == 1 || orig.len() as int % 3
            == 2) && padded@.len() % 3 == 0);
    }
    padded
}

/// The ciphertext of data against a key repeated to its length: byte by
/// byte exclusive or. An empty key encrypts to an empty ciphertext.
pub open spec fn xor_otp(data: Seq<u8>, key: Seq<u8>) -> Seq<u8> {
    if key.len() == 0 {
        Seq::empty()
    } else {
        Seq::new(data.len(), |i: int| data[i] ^ key[i % key.len() as int])
    }
}

/// What base64's standard engine encodes bytes to.
pub uninterp spec fn b64_encoded(bytes: Seq<u8>) -> Seq<char>;

/// Relies on base64's `Engine::encode` with the `STANDARD` engine: the
/// encoding is a function of the bytes alone, four characters for every
/// three bytes begun.
#[verifier::external_body]
fn b64_encode(bytes: &[u8]) -> (r: String)
    ensures
        r@ == b64_encoded(bytes@),
        r@.len() == 4 * ((bytes@.len() + 2) / 3),
{
    base64::engine::general_purpose::STANDARD.encode(bytes)
}

/// Encrypts serialized text against a repeating key and encodes the
/// ciphertext as base64: the text is padded to a multiple of three, each
/// byte is combined with the key byte at its position modulo the key
/// length, and the result is base64 of that ciphertext. An empty key
/// yields the encoding of an empty ciphertext.
pub fn encrypt_with_otp(data: String, key: &str) -> (r: String)
    ensures
        r@ == b64_encoded(
            xor_otp(
                vstd::utf8::encode_utf8(spec_pad3(data@)),
                vstd::utf8::encode_utf8(key@),
            ),
        ),
{
    let padded = pad_until_divisible_by_3(data);
    let pb = padded.as_str().as_bytes();
    let kb = key.as_bytes();
    let klen = kb.len();
    let mut cipher: Vec<u8> = Vec::new();
    if klen == 0 {
        proof {
            assert(xor_otp(pb@, kb@) =~= cipher@);
        }
        return b64_encode(cipher.as_slice());
    }
    let n = pb.len();
    let mut i: usize = 0;
    while i < n
        invariant
            i <= n == pb@.len(),
            klen == kb@.len(),
            klen > 0,
            cipher@ == xor_otp(pb@, kb@).subrange(0, i as int),
        decreases n - i,
    {
        let b = pb[i] ^ kb[i % klen];
        cipher.push(b);
        proof {
            assert(cipher@ =~= xor_otp(pb@, kb@).subrange(0, i + 1));
        }
        i = i + 1;
    }
    proof {
        assert(cipher@ =~= xor_otp(pb@, kb@));
    }
    b64_encode(cipher.as_slice())
}

} // verus!
