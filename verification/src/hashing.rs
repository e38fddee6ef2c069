//! Content hashing: the SHA-1 digest of a file's bytes, rendered as the
//! lowercase hex string that records carry.

use vstd::prelude::*;

use crate::codec::{hash_field_ok, hex_digit_char, hex_digit_char_exec, is_lower_hex_digit,
    lemma_hex_hash_field_ok};
use crate::record::FileInfo;

verus! {

/// The SHA-1 digest of a byte sequence. The digest is a pure function of the
/// bytes alone; its pages-long definition is left to the hashing crate.
pub uninterp spec fn sha1_of(data: Seq<u8>) -> Seq<u8>;

/// Relies on `sha1::Sha1` together with `digest::Digest::digest`: the SHA-1
/// digest of exactly the input bytes, 20 bytes long, depending on nothing
/// but the input.
#[verifier::external_body]
fn sha1_digest(data: &Vec<u8>) -> (r: Vec<u8>)
    ensures
        r@ == sha1_of(data@),
        r@.len() == 20,
{
    <sha1::Sha1 as sha1::Digest>::digest(data.as_slice()).as_slice().to_vec()
}

/// Two lowercase hex characters for one byte, high nibble first.
pub open spec fn byte_hex(b: u8) -> Seq<char> {
    seq![hex_digit_char((b >> 4u8) as u16), hex_digit_char((b & 0xfu8) as u16)]
}

/// Lowercase hex rendering of a byte sequence.
pub open spec fn hex_of_bytes(bs: Seq<u8>) -> Seq<char>
    decreases bs.len(),
{
    if bs.len() == 0 {
        Seq::empty()
    } else {
        byte_hex(bs[0]) + hex_of_bytes(bs.drop_first())
    }
}

/// The hex digest string a record carries for content `data`.
pub open spec fn sha1_hex(data: Seq<u8>) -> Seq<char> {
    hex_of_bytes(sha1_of(data))
}

/// `hex_of_bytes` distributes over concatenation.
proof fn lemma_hex_of_bytes_append(a: Seq<u8>, b: Seq<u8>)
    ensures
        hex_of_bytes(a + b) == hex_of_bytes(a) + hex_of_bytes(b),
    decreases a.len(),
{
    if a.len() == 0 {
        assert(a + b =~= b);
        assert(hex_of_bytes(a) + hex_of_bytes(b) =~= hex_of_bytes(b));
    } else {
        assert((a + b).drop_first() =~= a.drop_first() + b);
        lemma_hex_of_bytes_append(a.drop_first(), b);
        assert(hex_of_bytes(a + b) =~= hex_of_bytes(a) + hex_of_bytes(b));
    }
}

/// A hex rendering is twice as long as its input and all lowercase hex.
pub proof fn lemma_hex_of_bytes_chars(bs: Seq<u8>)
    ensures
        hex_of_bytes(bs).len() == 2 * bs.len(),
        forall|i: int|
            0 <= i < hex_of_bytes(bs).len() ==> is_lower_hex_digit(#[trigger] hex_of_bytes(bs)[i]),
    decreases bs.len(),
{
    if bs.len() > 0 {
        let b = bs[0];
        assert(((b >> 4u8) as u16) < 16 && ((b & 0xfu8) as u16) < 16) by (bit_vector);
        lemma_hex_of_bytes_chars(bs.drop_first());
    }
}

/// Lowercase hex rendering of bytes, per `hex_of_bytes`.
pub fn to_hex_lower(bytes: &Vec<u8>) -> (s: String)
    ensures
        s@ == hex_of_bytes(bytes@),
{
    let n = bytes.len();
    let mut out: Vec<char> = Vec::new();
    let mut i: usize = 0;
    while i < n
        invariant
            n == bytes@.len(),
            i <= n,
            out@ == hex_of_bytes(bytes@.subrange(0, i as int)),
        decreases n - i,
    {
        let b = bytes[i];
        proof {
            assert(b >> 4u8 < 16 && b & 0xfu8 < 16) by (bit_vector);
        }
        out.push(hex_digit_char_exec((b >> 4) as u16));
        out.push(hex_digit_char_exec((b & 0xf) as u16));
        proof {
            let pre = bytes@.subrange(0, i as int);
            let one = seq![bytes@[i as int]];
            assert(bytes@.subrange(0, i as int + 1) =~= pre + one);
            lemma_hex_of_bytes_append(pre, one);
            assert(one.drop_first() =~= Seq::<u8>::empty());
            assert(hex_of_bytes(one) == byte_hex(one[0]) + hex_of_bytes(one.drop_first()));
            assert(hex_of_bytes(one) =~= byte_hex(bytes@[i as int]));
            assert(out@ =~= hex_of_bytes(bytes@.subrange(0, i as int + 1)));
        }
        i = i + 1;
    }
    proof {
        assert(bytes@.subrange(0, n as int) =~= bytes@);
    }
    crate::text::chars_to_string(out)
}

/// SHA-1 digest of `data` as the lowercase hex string a record carries.
pub fn sha1_hex_digest(data: &Vec<u8>) -> (s: String)
    ensures
        s@ == sha1_hex(data@),
        hash_field_ok(s@),
{
    let d = sha1_digest(data);
    let s = to_hex_lower(&d);
    proof {
        lemma_hex_of_bytes_chars(d@);
        lemma_hex_hash_field_ok(s@);
    }
    s
}

impl FileInfo {
    /// Attach the content hash for this file, computed from its full
    /// content; every other field is left unchanged.
    pub fn generate_hash(&mut self, content: &Vec<u8>)
        ensures
            final(self).path == old(self).path,
            final(self).size == old(self).size,
            final(self).modified == old(self).modified,
            final(self)@.hash == Some(sha1_hex(content@)),
            hash_field_ok(sha1_hex(content@)),
    {
        self.hash = Some(sha1_hex_digest(content));
    }
}

} // verus!
