//! Where the ledger keeps things: the sharded file layout of content and
//! receipts (globally and per tenant), the object keys of the S3 layout, and
//! the Content-MD5 digest (MD5, see `md5`) and standard base64 its uploads
//! carry. Paths and keys are computed as bytes; reading and writing them is
//! left to the caller.
use vstd::prelude::*;
use vstd::string::StringSliceAdditionalSpecFns;
use vstd::utf8::encode_utf8;
use crate::md5::{compress, md5, md5_blocks, md5_padded, read_words};
use crate::text::string_from_chars;

verus! {

// ---------------------------------------------------------------------------
// File layout
// ---------------------------------------------------------------------------

/// `PathBuf::join` on Unix, on the path's bytes: an absolute part replaces
/// the path; otherwise a `/` goes between them unless the path is empty or
/// already ends with one.
pub open spec fn join_path(base: Seq<u8>, part: Seq<u8>) -> Seq<u8> {
    if part.len() > 0 && part[0] == 47u8 {
        part
    } else if base.len() == 0 || base.last() == 47u8 {
        base + part
    } else {
        base + seq![47u8] + part
    }
}

/// The directory of content objects.
pub open spec fn store_dir() -> Seq<u8> {
    encode_utf8("store"@)
}

/// The directory of receipts.
pub open spec fn receipt_dir() -> Seq<u8> {
    encode_utf8("index/receipt"@)
}

/// `name.ext`.
pub open spec fn file_name(name: Seq<u8>, ext: Seq<u8>) -> Seq<u8> {
    name + seq![46u8] + ext
}

/// Where the content with CID text `cid` is stored: `store/<cid[2..4]>/<cid[4..6]>/<cid>.<ext>`.
pub open spec fn spec_cid_path(cid: Seq<u8>, ext: Seq<u8>) -> Seq<u8> {
    join_path(
        join_path(join_path(store_dir(), cid.subrange(2, 4)), cid.subrange(4, 6)),
        file_name(cid, ext),
    )
}

/// Where the receipt of `cid` is stored: `index/receipt/<cid>.json`.
pub open spec fn spec_receipt_path(cid: Seq<u8>) -> Seq<u8> {
    join_path(receipt_dir(), file_name(cid, encode_utf8("json"@)))
}

/// The per-tenant content path: `store/<tenant>/<cid[2..4]>/<cid[4..6]>/<cid>.<ext>`.
pub open spec fn spec_tenant_cid_path(tenant: Seq<u8>, cid: Seq<u8>, ext: Seq<u8>) -> Seq<u8> {
    join_path(
        join_path(
            join_path(join_path(store_dir(), tenant), cid.subrange(2, 4)),
            cid.subrange(4, 6),
        ),
        file_name(cid, ext),
    )
}

/// The per-tenant receipt path: `index/receipt/<tenant>/<cid>.json`.
pub open spec fn spec_tenant_receipt_path(tenant: Seq<u8>, cid: Seq<u8>) -> Seq<u8> {
    join_path(join_path(receipt_dir(), tenant), file_name(cid, encode_utf8("json"@)))
}

fn str_bytes(s: &str) -> (r: Vec<u8>)
    ensures
        r@ == encode_utf8(s@),
{
    s.as_bytes_vec()
}

fn push_all(dst: &mut Vec<u8>, src: &[u8])
    ensures
        final(dst)@ == old(dst)@ + src@,
{
    let mut i: usize = 0;
    while i < src.len()
        invariant
            i <= src.len(),
            dst@ == old(dst)@ + src@.take(i as int),
        decreases src.len() - i,
    {
        dst.push(src[i]);
        i = i + 1;
        assert(src@.take(i as int) =~= src@.take(i - 1) + seq![src@[i - 1]]);
    }
    assert(src@.take(src@.len() as int) =~= src@);
}

fn join(base: &Vec<u8>, part: &[u8]) -> (r: Vec<u8>)
    ensures
        r@ == join_path(base@, part@),
{
    if part.len() > 0 && part[0] == 47u8 {
        let mut out: Vec<u8> = Vec::new();
        push_all(&mut out, part);
        assert(out@ =~= part@);
        return out;
    }
    let mut out: Vec<u8> = Vec::new();
    push_all(&mut out, base.as_slice());
    if !(base.len() == 0 || base[base.len() - 1] == 47u8) {
        out.push(47u8);
    }
    push_all(&mut out, part);
    out
}

fn sub_bytes(b: &[u8], lo: usize, hi: usize) -> (r: Vec<u8>)
    requires
        lo <= hi <= b@.len(),
    ensures
        r@ == b@.subrange(lo as int, hi as int),
{
    let mut out: Vec<u8> = Vec::new();
    let mut i: usize = lo;
    while i < hi
        invariant
            lo <= i <= hi <= b@.len(),
            out@ == b@.subrange(lo as int, i as int),
        decreases hi - i,
    {
        out.push(b[i]);
        i = i + 1;
        assert(out@ =~= b@.subrange(lo as int, i as int));
    }
    out
}

fn name_with_ext(name: &[u8], ext: &[u8]) -> (r: Vec<u8>)
    ensures
        r@ == file_name(name@, ext@),
{
    let mut out: Vec<u8> = Vec::new();
    push_all(&mut out, name);
    out.push(46u8);
    push_all(&mut out, ext);
    out
}

/// The bytes of the content path of `cid` (its CID text); the text must hold
/// six bytes. The path is text whenever bytes 2 and 4 begin characters.
pub fn cid_path(cid: &str, ext: &str) -> (r: Vec<u8>)
    requires
        cid.spec_bytes().len() >= 6,
    ensures
        r@ == spec_cid_path(cid.spec_bytes(), ext.spec_bytes()),
{
    let s = cid.as_bytes();
    let p1 = sub_bytes(s, 2, 4);
    let p2 = sub_bytes(s, 4, 6);
    let base = str_bytes("store");
    let a = join(&base, p1.as_slice());
    let b = join(&a, p2.as_slice());
    let name = name_with_ext(s, ext.as_bytes());
    join(&b, name.as_slice())
}

/// The bytes of the receipt path of `cid`.
pub fn receipt_path(cid: &str) -> (r: Vec<u8>)
    ensures
        r@ == spec_receipt_path(cid.spec_bytes()),
{
    let base = str_bytes("index/receipt");
    let json = str_bytes("json");
    let name = name_with_ext(cid.as_bytes(), json.as_slice());
    join(&base, name.as_slice())
}

/// The bytes of the per-tenant content path of `cid`; the CID text must hold
/// six bytes.
pub fn tenant_cid_path(tenant: &str, cid: &str, ext: &str) -> (r: Vec<u8>)
    requires
        cid.spec_bytes().len() >= 6,
    ensures
        r@ == spec_tenant_cid_path(tenant.spec_bytes(), cid.spec_bytes(), ext.spec_bytes()),
{
    let s = cid.as_bytes();
    let p1 = sub_bytes(s, 2, 4);
    let p2 = sub_bytes(s, 4, 6);
    let base = str_bytes("store");
    let t = join(&base, tenant.as_bytes());
    let a = join(&t, p1.as_slice());
    let b = join(&a, p2.as_slice());
    let name = name_with_ext(s, ext.as_bytes());
    join(&b, name.as_slice())
}

/// The bytes of the per-tenant receipt path of `cid`.
pub fn tenant_receipt_path(tenant: &str, cid: &str) -> (r: Vec<u8>)
    ensures
        r@ == spec_tenant_receipt_path(tenant.spec_bytes(), cid.spec_bytes()),
{
    let base = str_bytes("index/receipt");
    let t = join(&base, tenant.as_bytes());
    let json = str_bytes("json");
    let name = name_with_ext(cid.as_bytes(), json.as_slice());
    join(&t, name.as_slice())
}

// ---------------------------------------------------------------------------
// S3 layout
// ---------------------------------------------------------------------------

/// `s` with every byte `from` replaced by `to` (for ASCII `from` and `to`,
/// what `str::replace` does to the text).
pub open spec fn replace_byte(s: Seq<u8>, from: u8, to: u8) -> Seq<u8> {
    s.map_values(|b: u8| if b == from {
        to
    } else {
        b
    })
}

/// The object key of `cid` under `prefix`: colons become underscores, and a
/// key of six bytes or more is sharded by its bytes 0..2 and 2..4.
pub open spec fn spec_s3_key(prefix: Seq<u8>, cid: Seq<u8>) -> Seq<u8> {
    let safe = replace_byte(cid, 58u8, 95u8);
    if safe.len() >= 6 {
        prefix + safe.subrange(0, 2) + seq![47u8] + safe.subrange(2, 4) + seq![47u8] + safe
    } else {
        prefix + safe
    }
}

/// The object key of the receipt of `cid`: `<prefix>receipts/<cid, colons as underscores>`.
pub open spec fn spec_receipt_key(prefix: Seq<u8>, cid: Seq<u8>) -> Seq<u8> {
    prefix + encode_utf8("receipts/"@) + replace_byte(cid, 58u8, 95u8)
}

/// Where an S3-backed ledger keeps its objects.
#[derive(Debug, Clone)]
pub struct S3Ledger {
    pub bucket: String,
    /// Prepended to every key (e.g. `ubl/v1/`)
    pub prefix: String,
}

fn replaced(s: &[u8], from: u8, to: u8) -> (r: Vec<u8>)
    ensures
        r@ == replace_byte(s@, from, to),
{
    let mut out: Vec<u8> = Vec::new();
    let mut i: usize = 0;
    while i < s.len()
        invariant
            i <= s.len(),
            out@ == replace_byte(s@.take(i as int), from, to),
        decreases s.len() - i,
    {
        let b = s[i];
        out.push(
            if b == from {
                to
            } else {
                b
            },
        );
        i = i + 1;
        assert(replace_byte(s@.take(i as int), from, to) =~= replace_byte(
            s@.take(i - 1),
            from,
            to,
        ).push(if b == from {
            to
        } else {
            b
        }));
    }
    assert(s@.take(s@.len() as int) =~= s@);
    out
}

impl S3Ledger {
    /// The object key of `cid`.
    pub fn s3_key(&self, cid: &str) -> (r: Vec<u8>)
        ensures
            r@ == spec_s3_key(encode_utf8(self.prefix@), cid.spec_bytes()),
    {
        let safe = replaced(cid.as_bytes(), 58u8, 95u8);
        let mut out: Vec<u8> = Vec::new();
        push_all(&mut out, self.prefix.as_str().as_bytes());
        if safe.len() >= 6 {
            let a = sub_bytes(safe.as_slice(), 0, 2);
            let b = sub_bytes(safe.as_slice(), 2, 4);
            push_all(&mut out, a.as_slice());
            out.push(47u8);
            push_all(&mut out, b.as_slice());
            out.push(47u8);
        }
        push_all(&mut out, safe.as_slice());
        out
    }

    /// The object key of the receipt of `cid`.
    pub fn receipt_key(&self, cid: &str) -> (r: Vec<u8>)
        ensures
            r@ == spec_receipt_key(encode_utf8(self.prefix@), cid.spec_bytes()),
    {
        let mut out: Vec<u8> = Vec::new();
        push_all(&mut out, self.prefix.as_str().as_bytes());
        push_all(&mut out, "receipts/".as_bytes());
        let safe = replaced(cid.as_bytes(), 58u8, 95u8);
        push_all(&mut out, safe.as_slice());
        out
    }
}

// ---------------------------------------------------------------------------
// Content-MD5 and base64
// ---------------------------------------------------------------------------

/// The digit of a standard base64 alphabet index.
pub open spec fn b64_digit(n: int) -> char {
    if n < 26 {
        (65 + n) as char
    } else if n < 52 {
        (97 + n - 26) as char
    } else if n < 62 {
        (48 + n - 52) as char
    } else if n == 62 {
        '+'
    } else {
        '/'
    }
}

/// The four characters of the 3-byte chunk starting at `i`, padded with `=`.
pub open spec fn b64_chunk(bytes: Seq<u8>, i: int) -> Seq<char> {
    let rest = bytes.len() - i;
    let b0 = bytes[i] as int;
    let b1 = if rest > 1 {
        bytes[i + 1] as int
    } else {
        0
    };
    let b2 = if rest > 2 {
        bytes[i + 2] as int
    } else {
        0
    };
    seq![
        b64_digit(b0 / 4),
        b64_digit((b0 % 4) * 16 + b1 / 16),
        if rest > 1 {
            b64_digit((b1 % 16) * 4 + b2 / 64)
        } else {
            '='
        },
        if rest > 2 {
            b64_digit(b2 % 64)
        } else {
            '='
        },
    ]
}

/// The first `k` chunks of the base64 text of `bytes`.
pub open spec fn b64_upto(bytes: Seq<u8>, k: nat) -> Seq<char>
    decreases k,
{
    if k == 0 {
        Seq::empty()
    } else {
        b64_upto(bytes, (k - 1) as nat) + b64_chunk(bytes, 3 * (k - 1))
    }
}

/// Standard base64 with padding.
pub open spec fn spec_base64(bytes: Seq<u8>) -> Seq<char> {
    b64_upto(bytes, ((bytes.len() + 2) / 3) as nat)
}

proof fn lemma_b64_bits(b0: u32, b1: u32, b2: u32)
    requires
        b0 < 256,
        b1 < 256,
        b2 < 256,
    ensures
        (((b0 << 16u32) | (b1 << 8u32) | b2) >> 18u32) & 63u32 == b0 / 4,
        (((b0 << 16u32) | (b1 << 8u32) | b2) >> 12u32) & 63u32 == (b0 % 4) * 16 + b1 / 16,
        (((b0 << 16u32) | (b1 << 8u32) | b2) >> 6u32) & 63u32 == (b1 % 16) * 4 + b2 / 64,
        ((b0 << 16u32) | (b1 << 8u32) | b2) & 63u32 == b2 % 64,
{
    assert((((b0 << 16u32) | (b1 << 8u32) | b2) >> 18u32) & 63u32 == b0 / 4) by (bit_vector)
        requires
            b0 < 256,
            b1 < 256,
            b2 < 256,
    ;
    assert((((b0 << 16u32) | (b1 << 8u32) | b2) >> 12u32) & 63u32 == (b0 % 4) * 16 + b1 / 16)
        by (bit_vector)
        requires
            b0 < 256,
            b1 < 256,
            b2 < 256,
    ;
    assert((((b0 << 16u32) | (b1 << 8u32) | b2) >> 6u32) & 63u32 == (b1 % 16) * 4 + b2 / 64)
        by (bit_vector)
        requires
            b0 < 256,
            b1 < 256,
            b2 < 256,
    ;
    assert(((b0 << 16u32) | (b1 << 8u32) | b2) & 63u32 == b2 % 64) by (bit_vector)
        requires
            b0 < 256,
            b1 < 256,
            b2 < 256,
    ;
}

fn b64_char(n: u32) -> (c: char)
    requires
        n < 64,
    ensures
        c == b64_digit(n as int),
{
    if n < 26 {
        let b: u8 = 65u8 + n as u8;
        b as char
    } else if n < 52 {
        let b: u8 = 97u8 + (n - 26) as u8;
        b as char
    } else if n < 62 {
        let b: u8 = 48u8 + (n - 52) as u8;
        b as char
    } else if n == 62 {
        '+'
    } else {
        '/'
    }
}

/// Standard base64 with padding, as the Content-MD5 header carries it.
pub fn base64_encode(bytes: &[u8]) -> (r: String)
    ensures
        r@ == spec_base64(bytes@),
{
    let mut out: Vec<char> = Vec::new();
    let mut i: usize = 0;
    let ghost mut k: nat = 0;
    while i < bytes.len()
        invariant
            i <= bytes.len(),
            i < bytes.len() ==> i == 3 * k && k < (bytes@.len() + 2) / 3,
            i == bytes.len() ==> k == (bytes@.len() + 2) / 3,
            out@ == b64_upto(bytes@, k),
        decreases bytes.len() - i,
    {
        let rest = bytes.len() - i;
        let b0 = bytes[i] as u32;
        let b1: u32 = if rest > 1 {
            bytes[i + 1] as u32
        } else {
            0
        };
        let b2: u32 = if rest > 2 {
            bytes[i + 2] as u32
        } else {
            0
        };
        proof {
            lemma_b64_bits(b0, b1, b2);
        }
        let n = (b0 << 16u32) | (b1 << 8u32) | b2;
        out.push(b64_char((n >> 18u32) & 63u32));
        out.push(b64_char((n >> 12u32) & 63u32));
        if rest > 1 {
            out.push(b64_char((n >> 6u32) & 63u32));
        } else {
            out.push('=');
        }
        if rest > 2 {
            out.push(b64_char(n & 63u32));
        } else {
            out.push('=');
        }
        proof {
            assert(out@ =~= b64_upto(bytes@, k) + b64_chunk(bytes@, i as int));
            k = k + 1;
        }
        if rest > 3 {
            i = i + 3;
        } else {
            i = bytes.len();
            assert(k == (bytes@.len() + 2) / 3);
        }
    }
    string_from_chars(&out)
}

/// The MD5 digest of `data` (RFC 1321), for the Content-MD5 header. The
/// length limit only leaves room for the padding.
pub fn md5_hash(data: &[u8]) -> (r: [u8; 16])
    requires
        data@.len() + 72 <= usize::MAX,
    ensures
        r@ == md5(data@),
{
    let p = md5_padded(data);
    let n: usize = p.len();
    let blocks: usize = n / 64;
    let mut st: (u32, u32, u32, u32) = (0x67452301u32, 0xefcdab89u32, 0x98badcfeu32, 0x10325476u32);
    let mut bi: usize = 0;
    while bi < blocks
        invariant
            bi <= blocks,
            n == p@.len(),
            blocks == n / 64,
            n % 64 == 0,
            st == md5_blocks(p@, bi as nat),
        decreases blocks - bi,
    {
        assert(64 * bi + 64 <= n) by (nonlinear_arith)
            requires
                bi < blocks,
                blocks == n / 64,
                n % 64 == 0,
        ;
        let off: usize = 64 * bi;
        let m = read_words(&p, off);
        st = compress(st, &m);
        bi = bi + 1;
    }
    let (a, b, c, d) = st;
    let r: [u8; 16] = [
        a as u8, (a >> 8u32) as u8, (a >> 16u32) as u8, (a >> 24u32) as u8,
        b as u8, (b >> 8u32) as u8, (b >> 16u32) as u8, (b >> 24u32) as u8,
        c as u8, (c >> 8u32) as u8, (c >> 16u32) as u8, (c >> 24u32) as u8,
        d as u8, (d >> 8u32) as u8, (d >> 16u32) as u8, (d >> 24u32) as u8,
    ];
    assert(r@ =~= md5(data@));
    r
}

/// The Content-MD5 header value of `data`: the base64 of its MD5 digest.
pub fn content_md5(data: &[u8]) -> (r: String)
    requires
        data@.len() + 72 <= usize::MAX,
    ensures
        r@ == spec_base64(md5(data@)),
{
    let digest = md5_hash(data);
    base64_encode(&digest)
}

/// The lifecycle rule of `rule_prefix`: its id (`ubl-expire-` and the prefix
/// with slashes as dashes) and the key prefix it expires.
pub fn lifecycle_rule(ledger: &S3Ledger, rule_prefix: &str) -> (r: (Vec<u8>, Vec<u8>))
    ensures
        r.0@ == encode_utf8("ubl-expire-"@) + replace_byte(rule_prefix.spec_bytes(), 47u8, 45u8),
        r.1@ == encode_utf8(ledger.prefix@) + rule_prefix.spec_bytes(),
{
    let mut id: Vec<u8> = Vec::new();
    push_all(&mut id, "ubl-expire-".as_bytes());
    let dashed = replaced(rule_prefix.as_bytes(), 47u8, 45u8);
    push_all(&mut id, dashed.as_slice());
    let mut filter: Vec<u8> = Vec::new();
    push_all(&mut filter, ledger.prefix.as_str().as_bytes());
    push_all(&mut filter, rule_prefix.as_bytes());
    (id, filter)
}

} // verus!
