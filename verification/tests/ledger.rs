use base64::Engine;
use ubl::ledger::{
    base64_encode, cid_path, content_md5, lifecycle_rule, md5_hash, receipt_path, tenant_cid_path,
    tenant_receipt_path, S3Ledger,
};

fn text(b: Vec<u8>) -> String {
    String::from_utf8(b).unwrap()
}

#[test]
fn content_is_sharded_by_cid_bytes() {
    assert_eq!(text(cid_path("bafkreiabcdef", "nrf")), "store/fk/re/bafkreiabcdef.nrf");
    assert_eq!(text(receipt_path("bafkreiabcdef")), "index/receipt/bafkreiabcdef.json");
}

#[test]
fn tenant_paths_nest_under_the_tenant() {
    assert_eq!(
        text(tenant_cid_path("acme", "bafkreiabcdef", "nrf")),
        "store/acme/fk/re/bafkreiabcdef.nrf"
    );
    assert_eq!(
        text(tenant_receipt_path("acme", "bafkreiabcdef")),
        "index/receipt/acme/bafkreiabcdef.json"
    );
}

#[test]
fn paths_join_like_pathbuf() {
    // an absolute part replaces the path, a trailing slash is not doubled
    assert_eq!(text(tenant_receipt_path("/abs", "x")), "/abs/x.json");
    assert_eq!(text(tenant_receipt_path("t/", "x")), "index/receipt/t/x.json");
    let p = std::path::PathBuf::from("index/receipt").join("/abs").join("x.json");
    assert_eq!(p.to_str().unwrap(), "/abs/x.json");
}

#[test]
fn s3_keys_are_sharded_and_colon_free() {
    let l = S3Ledger { bucket: "b".into(), prefix: "ubl/v1/".into() };
    assert_eq!(text(l.s3_key("b3:abcdef")), "ubl/v1/b3/_a/b3_abcdef");
    assert_eq!(text(l.s3_key("b3:x")), "ubl/v1/b3_x");
    assert_eq!(text(l.receipt_key("b3:abc")), "ubl/v1/receipts/b3_abc");
    let (id, filter) = lifecycle_rule(&l, "tmp/ghost/");
    assert_eq!(text(id), "ubl-expire-tmp-ghost-");
    assert_eq!(text(filter), "ubl/v1/tmp/ghost/");
}

#[test]
fn base64_matches_the_standard_engine() {
    let std = base64::engine::general_purpose::STANDARD;
    for data in [&b""[..], b"f", b"fo", b"foo", b"foob", b"fooba", b"foobar", &[0xff, 0x00, 0x7f, 0x80]] {
        assert_eq!(base64_encode(data), std.encode(data));
    }
    assert_eq!(base64_encode(b"foobar"), "Zm9vYmFy");
    assert_eq!(base64_encode(b"fo"), "Zm8=");
}

fn hex(bytes: &[u8]) -> String {
    bytes.iter().map(|b| format!("{:02x}", b)).collect()
}

#[test]
fn md5_matches_rfc1321_vectors() {
    assert_eq!(hex(&md5_hash(b"")), "d41d8cd98f00b204e9800998ecf8427e");
    assert_eq!(hex(&md5_hash(b"a")), "0cc175b9c0f1b6a831c399e269772661");
    assert_eq!(hex(&md5_hash(b"abc")), "900150983cd24fb0d6963f7d28e17f72");
    assert_eq!(hex(&md5_hash(b"message digest")), "f96b697d7cb7938d525a2f31aaf161d0");
    assert_eq!(
        hex(&md5_hash(b"abcdefghijklmnopqrstuvwxyz")),
        "c3fcd3d76192e4007dfb496cca67e13b"
    );
    assert_eq!(
        hex(&md5_hash(b"The quick brown fox jumps over the lazy dog")),
        "9e107d9d372bb6826bd81d3542a419d6"
    );
    let digits = "1234567890".repeat(8);
    assert_eq!(hex(&md5_hash(digits.as_bytes())), "57edf4a22be3c955ac49da2e2107b67a");
}

#[test]
fn md5_padding_edges() {
    // 55, 56 and 64 bytes: the padding fits in the block, spills, or takes a block of its own
    assert_eq!(hex(&md5_hash(&[b'a'; 55])), "ef1772b6dff9a122358552954ad0df65");
    assert_eq!(hex(&md5_hash(&[b'a'; 56])), "3b0c8ac703f828b04c6c197006d17218");
    assert_eq!(hex(&md5_hash(&[b'a'; 64])), "014842d480b571495a4a0363793f7367");
}

#[test]
fn content_md5_is_base64_of_md5() {
    assert_eq!(content_md5(b""), "1B2M2Y8AsgTpgAmY7PhCfg==");
    assert_eq!(content_md5(b"abc"), "kAFQmDzST7DWlj99KOF/cg==");
}
