//! Content hashes: the URL-safe base64 text of the SHA-512 digest of a file's bytes.
use vstd::prelude::*;

verus! {

/// The SHA-512 digest of `data`, as computed by the `sha2` crate.
pub uninterp spec fn sha512_digest(data: Seq<u8>) -> Seq<u8>;

/// The character of the URL-safe base64 alphabet (RFC 4648, section 5) for the
/// six-bit value `v`.
pub open spec fn base64_url_char(v: int) -> char {
    if v < 26 {
        (65 + v) as char
    } else if v < 52 {
        (97 + (v - 26)) as char
    } else if v < 62 {
        (48 + (v - 52)) as char
    } else if v == 62 {
        '-'
    } else {
        '_'
    }
}

/// URL-safe base64 with `=` padding: each group of three bytes becomes four
/// characters; a last group of one or two bytes is padded to four characters.
pub open spec fn base64_url_encode(b: Seq<u8>) -> Seq<char>
    decreases b.len(),
{
    if b.len() == 0 {
        Seq::empty()
    } else if b.len() == 1 {
        seq![base64_url_char((b[0] as int) / 4), base64_url_char(((b[0] as int) % 4) * 16), '=', '=']
    } else if b.len() == 2 {
        seq![
            base64_url_char((b[0] as int) / 4),
            base64_url_char(((b[0] as int) % 4) * 16 + (b[1] as int) / 16),
            base64_url_char(((b[1] as int) % 16) * 4),
            '=',
        ]
    } else {
        seq![
            base64_url_char((b[0] as int) / 4),
            base64_url_char(((b[0] as int) % 4) * 16 + (b[1] as int) / 16),
            base64_url_char(((b[1] as int) % 16) * 4 + (b[2] as int) / 64),
            base64_url_char((b[2] as int) % 64),
        ] + base64_url_encode(b.skip(3))
    }
}

/// The hash the store files contents under.
pub open spec fn content_hash(data: Seq<u8>) -> Seq<char> {
    base64_url_encode(sha512_digest(data))
}

/// A character that may stand in a base64 text: none is a path separator or a dot.
pub open spec fn base64_text_char(c: char) -> bool {
    c != '/' && c != '.'
}

/// Base64 text holds neither separators nor dots, and is four characters per
/// started group of three bytes.
pub proof fn lemma_base64_text(b: Seq<u8>)
    ensures
        forall|i: int| 0 <= i < base64_url_encode(b).len() ==> #[trigger] base64_text_char(
            base64_url_encode(b)[i],
        ),
        base64_url_encode(b).len() == 4 * ((b.len() + 2) / 3),
    decreases b.len(),
{
    if b.len() >= 3 {
        lemma_base64_text(b.skip(3));
        let head = seq![
            base64_url_char((b[0] as int) / 4),
            base64_url_char(((b[0] as int) % 4) * 16 + (b[1] as int) / 16),
            base64_url_char(((b[1] as int) % 16) * 4 + (b[2] as int) / 64),
            base64_url_char((b[2] as int) % 64),
        ];
        let e = base64_url_encode(b);
        assert(e == head + base64_url_encode(b.skip(3)));
        assert forall|i: int| 0 <= i < e.len() implies #[trigger] base64_text_char(e[i]) by {
            if i >= 4 {
                assert(e[i] == base64_url_encode(b.skip(3))[i - 4]);
            }
        }
    }
}

/// Calls `<sha2::Sha512 as sha2::Digest>::digest`. Claimed: the result is the
/// digest `sha512_digest` names, and it is 64 bytes long (SHA-512's output size).
#[verifier::external_body]
fn sha512_of(data: &[u8]) -> (r: Vec<u8>)
    ensures
        r@ == sha512_digest(data@),
        r@.len() == 64,
{
    <sha2::Sha512 as sha2::Digest>::digest(data).to_vec()
}

/// Calls `base64::Engine::encode` on `base64::engine::general_purpose::URL_SAFE`.
/// Claimed: the text is the URL-safe alphabet with padding, as `base64_url_encode`
/// states. The call panics when the encoded length overflows `usize`, which the
/// `requires` rules out.
#[verifier::external_body]
fn base64_url_safe(data: &[u8]) -> (r: String)
    requires
        4 * (data@.len() / 3 + 1) <= usize::MAX,
    ensures
        r@ == base64_url_encode(data@),
{
    base64::Engine::encode(&base64::engine::general_purpose::URL_SAFE, data)
}

/// The hash of a file's contents: the URL-safe base64 text of their SHA-512 digest.
/// It is never empty.
pub fn evaluate_file_sha512_hash(file_contents: &[u8]) -> (r: String)
    ensures
        r@ == content_hash(file_contents@),
        r@.len() == 88,
{
    let digest = sha512_of(file_contents);
    let r = base64_url_safe(digest.as_slice());
    proof {
        lemma_base64_text(digest@);
    }
    r
}

} // verus!
