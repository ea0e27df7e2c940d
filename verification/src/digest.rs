//! SHA-256 digests rendered as lowercase hexadecimal, and the stable
//! identifiers derived from them.
use vstd::prelude::*;
use vstd::utf8::encode_utf8;
use sha2::{Digest, Sha256};
use crate::strings::{is_lower_hex, is_lower_hex_char, push_char};

verus! {

/// The SHA-256 digest of `data`, as computed by the `sha2` crate.
pub uninterp spec fn sha256_of(data: Seq<u8>) -> Seq<u8>;

/// `sha2::Sha256::digest`: the 32-byte SHA-256 digest of `data`.
#[verifier::external_body]
fn sha256_bytes(data: &[u8]) -> (r: Vec<u8>)
    ensures
        r@ == sha256_of(data@),
        r@.len() == 32,
{
    Sha256::digest(data).as_slice().to_vec()
}

/// The lowercase hexadecimal digit of a nibble.
pub open spec fn hex_digit(v: int) -> char {
    if v < 10 {
        (('0' as int) + v) as char
    } else {
        (('a' as int) + v - 10) as char
    }
}

/// Two lowercase hexadecimal digits per byte, high nibble first.
pub open spec fn hex_seq(b: Seq<u8>) -> Seq<char>
    decreases b.len(),
{
    if b.len() == 0 {
        Seq::empty()
    } else {
        let last = b.last();
        hex_seq(b.drop_last()) + seq![hex_digit((last / 16) as int), hex_digit((last % 16) as int)]
    }
}

/// The hexadecimal rendering has two digits per byte, all lowercase hex.
pub proof fn lemma_hex_seq_shape(b: Seq<u8>)
    ensures
        hex_seq(b).len() == 2 * b.len(),
        is_lower_hex(hex_seq(b)),
    decreases b.len(),
{
    if b.len() > 0 {
        lemma_hex_seq_shape(b.drop_last());
        let last = b.last();
        let tail = seq![hex_digit((last / 16) as int), hex_digit((last % 16) as int)];
        assert(is_lower_hex_char(tail[0]));
        assert(is_lower_hex_char(tail[1]));
        let whole = hex_seq(b.drop_last()) + tail;
        assert forall|i: int| 0 <= i < whole.len() implies #[trigger] is_lower_hex_char(whole[i]) by {
            if i < hex_seq(b.drop_last()).len() {
                assert(whole[i] == hex_seq(b.drop_last())[i]);
            } else {
                assert(whole[i] == tail[i - hex_seq(b.drop_last()).len()]);
            }
        }
    }
}

fn nibble_char(v: u8) -> (c: char)
    requires
        v < 16,
    ensures
        c == hex_digit(v as int),
{
    if v < 10 {
        let c = (48u8 + v) as char;
        assert(c == hex_digit(v as int));
        c
    } else {
        let c = (97u8 + (v - 10)) as char;
        assert(c == hex_digit(v as int));
        c
    }
}

/// Lowercase hexadecimal rendering of `bytes`.
pub fn hex_encode(bytes: &[u8]) -> (r: String)
    ensures
        r@ == hex_seq(bytes@),
{
    let mut out = String::new();
    let mut i: usize = 0;
    while i < bytes.len()
        invariant
            i <= bytes@.len(),
            out@ == hex_seq(bytes@.take(i as int)),
        decreases bytes@.len() - i,
    {
        let b = bytes[i];
        push_char(&mut out, nibble_char(b / 16));
        push_char(&mut out, nibble_char(b % 16));
        assert(bytes@.take(i + 1).drop_last() =~= bytes@.take(i as int));
        assert(out@ =~= hex_seq(bytes@.take(i + 1)));
        i = i + 1;
    }
    assert(bytes@.take(bytes@.len() as int) =~= bytes@);
    out
}

/// Lowercase hexadecimal SHA-256 of the UTF-8 bytes of `value`.
pub open spec fn sha256_hex_spec(value: Seq<char>) -> Seq<char> {
    hex_seq(sha256_of(encode_utf8(value)))
}

/// Lowercase hexadecimal SHA-256 digest of the UTF-8 encoding of `value`.
pub fn sha256_hex(value: &str) -> (r: String)
    ensures
        r@ == sha256_hex_spec(value@),
        r@.len() == 64,
        is_lower_hex(r@),
{
    let digest = sha256_bytes(value.as_bytes());
    proof {
        lemma_hex_seq_shape(digest@);
    }
    hex_encode(digest.as_slice())
}

/// Lowercase hexadecimal SHA-256 digest of `data`.
pub fn sha256_hex_of_bytes(data: &[u8]) -> (r: String)
    ensures
        r@ == hex_seq(sha256_of(data@)),
        r@.len() == 64,
        is_lower_hex(r@),
{
    let digest = sha256_bytes(data);
    proof {
        lemma_hex_seq_shape(digest@);
    }
    hex_encode(digest.as_slice())
}

/// The byte message behind a stable identifier: the namespace and each
/// field in UTF-8, each followed by a NUL byte.
pub open spec fn stable_id_message(namespace: Seq<char>, fields: Seq<Seq<char>>) -> Seq<u8>
    decreases fields.len(),
{
    if fields.len() == 0 {
        encode_utf8(namespace) + seq![0u8]
    } else {
        stable_id_message(namespace, fields.drop_last()) + encode_utf8(fields.last()) + seq![0u8]
    }
}

/// The first sixteen hexadecimal digits of the SHA-256 of the message.
pub open spec fn stable_id_spec(namespace: Seq<char>, fields: Seq<Seq<char>>) -> Seq<char> {
    hex_seq(sha256_of(stable_id_message(namespace, fields))).take(16)
}

/// The views of a slice of string slices.
pub open spec fn str_views(fields: Seq<&str>) -> Seq<Seq<char>> {
    Seq::new(fields.len(), |i: int| fields[i]@)
}

fn append_bytes(out: &mut Vec<u8>, bytes: &[u8])
    ensures
        final(out)@ == old(out)@ + bytes@,
{
    let mut i: usize = 0;
    while i < bytes.len()
        invariant
            i <= bytes@.len(),
            out@ == old(out)@ + bytes@.take(i as int),
        decreases bytes@.len() - i,
    {
        out.push(bytes[i]);
        assert(bytes@.take(i + 1) =~= bytes@.take(i as int).push(bytes@[i as int]));
        i = i + 1;
    }
    assert(bytes@.take(bytes@.len() as int) =~= bytes@);
}

/// A sixteen-digit identifier derived from a namespace and fields.
pub fn stable_id(namespace: &str, fields: &[&str]) -> (r: String)
    ensures
        r@ == stable_id_spec(namespace@, str_views(fields@)),
        r@.len() == 16,
        is_lower_hex(r@),
{
    let mut message: Vec<u8> = Vec::new();
    append_bytes(&mut message, namespace.as_bytes());
    message.push(0u8);
    let mut i: usize = 0;
    while i < fields.len()
        invariant
            i <= fields@.len(),
            message@ == stable_id_message(namespace@, str_views(fields@).take(i as int)),
        decreases fields@.len() - i,
    {
        let field: &str = fields[i];
        append_bytes(&mut message, field.as_bytes());
        message.push(0u8);
        assert(str_views(fields@).take(i + 1).drop_last() =~= str_views(fields@).take(i as int));
        assert(str_views(fields@).take(i + 1).last() == field@);
        i = i + 1;
    }
    assert(str_views(fields@).take(fields@.len() as int) =~= str_views(fields@));
    let digest = sha256_bytes(message.as_slice());
    proof {
        lemma_hex_seq_shape(digest@);
    }
    let full = hex_encode(digest.as_slice());
    let short = full.as_str().substring_char(0, 16);
    let r = String::from_str(short);
    proof {
        assert(r@ =~= hex_seq(digest@).take(16));
        assert forall|k: int| 0 <= k < r@.len() implies #[trigger] is_lower_hex_char(r@[k]) by {
            assert(r@[k] == hex_seq(digest@)[k]);
        }
    }
    r
}

} // verus!
