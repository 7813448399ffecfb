use tsgo_wasm::distribution::{
    accept_download, download_url, has_checksum, hex_text, origin, sha256_hex, Origin,
};

const ABC: &str = "ba7816bf8f01cfea414140de5dae2223b00361a396177a9cb410ff61f20015ad";

#[test]
fn digests_are_in_hexadecimal() {
    assert_eq!(sha256_hex(b"abc"), ABC);
    assert_eq!(
        sha256_hex(b""),
        "e3b0c44298fc1c149afbf4c8996fb92427ae41e4649b934ca495991b7852b855"
    );
    assert_eq!(hex_text(&vec![0, 9, 10, 0x7f, 0xf0, 0xff]), "00090a7ff0ff");
    assert_eq!(hex_text(&vec![]), "");
}

#[test]
fn recorded_checksum_may_have_white_space_around() {
    assert!(has_checksum(b"abc", &format!("  {ABC}\n")));
    assert!(has_checksum(b"abc", ABC));
    assert!(!has_checksum(b"abd", ABC));
    assert!(!has_checksum(b"abc", &ABC.to_uppercase()));
}

#[test]
fn origins_are_tried_in_order() {
    let right: Option<&[u8]> = Some(b"abc");
    let wrong: Option<&[u8]> = Some(b"xyz");
    assert_eq!(origin(true, right, right, ABC), Origin::Override);
    assert_eq!(origin(true, None, None, ABC), Origin::Override);
    assert_eq!(origin(false, right, right, ABC), Origin::Existing);
    assert_eq!(origin(false, wrong, right, ABC), Origin::Local);
    assert_eq!(origin(false, None, right, ABC), Origin::Local);
    assert_eq!(origin(false, wrong, wrong, ABC), Origin::Download);
    assert_eq!(origin(false, None, None, ABC), Origin::Download);
}

#[test]
fn download_is_addressed_by_revision() {
    assert_eq!(
        download_url("0123abc\n"),
        "https://github.com/gorules/tsgo-wasm/releases/download/tsgo-0123abc/tsgo.wasm.zst"
    );
}

#[test]
fn download_must_have_the_checksum() {
    assert_eq!(accept_download("u", b"abc".to_vec(), ABC), Ok(b"abc".to_vec()));
    assert_eq!(
        accept_download("u", b"abd".to_vec(), ABC),
        Err("checksum mismatch for u".to_string())
    );
}
