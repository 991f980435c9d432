//! Content identifiers: `b3:` followed by the lower-case hex of the BLAKE3 digest.
use vstd::prelude::*;
use crate::digest::{blake3_hash, spec_blake3};
use crate::json::hex_digit;
use crate::text::string_from_chars;

verus! {

/// Lower-case hex of each byte, high nibble first.
pub open spec fn hex_text(bytes: Seq<u8>) -> Seq<char>
    decreases bytes.len(),
{
    if bytes.len() == 0 {
        Seq::empty()
    } else {
        hex_text(bytes.drop_last()) + seq![
            hex_digit((bytes.last() / 16) as int),
            hex_digit((bytes.last() % 16) as int),
        ]
    }
}

/// The content identifier of `bytes`.
pub open spec fn spec_cid(bytes: Seq<u8>) -> Seq<char> {
    seq!['b', '3', ':'] + hex_text(spec_blake3(bytes))
}

pub proof fn lemma_hex_text_len(bytes: Seq<u8>)
    ensures
        hex_text(bytes).len() == 2 * bytes.len(),
    decreases bytes.len(),
{
    if bytes.len() > 0 {
        lemma_hex_text_len(bytes.drop_last());
    }
}

fn nibble_char(d: u8) -> (c: char)
    requires
        d < 16,
    ensures
        c == hex_digit(d as int),
{
    let b: u8 = if d < 10 {
        d + 48
    } else {
        d + 87
    };
    b as char
}

/// Lower-case hex of `input`.
pub fn encode(input: &[u8]) -> (r: String)
    ensures
        r@ == hex_text(input@),
{
    let mut out: Vec<char> = Vec::new();
    let mut i: usize = 0;
    while i < input.len()
        invariant
            i <= input.len(),
            out@ == hex_text(input@.take(i as int)),
        decreases input.len() - i,
    {
        let b = input[i];
        out.push(nibble_char(b / 16));
        out.push(nibble_char(b % 16));
        proof {
            assert(input@.take(i + 1).drop_last() =~= input@.take(i as int));
            assert(out@ =~= hex_text(input@.take(i + 1)));
        }
        i = i + 1;
    }
    assert(input@.take(input.len() as int) =~= input@);
    string_from_chars(&out)
}

/// The content identifier of `bytes`: `b3:` and 64 hex digits.
pub fn cid_b3(bytes: &[u8]) -> (r: String)
    ensures
        r@ == spec_cid(bytes@),
        r@.len() == 67,
{
    let digest = blake3_hash(bytes);
    let hex = encode(digest.as_slice());
    let mut out: Vec<char> = Vec::new();
    out.push('b');
    out.push('3');
    out.push(':');
    let hv = crate::text::chars_of(hex.as_str());
    crate::text::append_chars(&mut out, &hv);
    proof {
        lemma_hex_text_len(digest@);
        assert(out@ =~= spec_cid(bytes@));
    }
    string_from_chars(&out)
}

} // verus!
