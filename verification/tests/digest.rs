use extended_search::search_file::digest::{to_hex, ContentHasher};

fn digest_of(chunks: &[&[u8]]) -> String {
    let mut hasher = ContentHasher::new();
    for chunk in chunks {
        hasher.update(chunk);
    }
    hasher.finish()
}

#[test]
fn digest_of_nothing() {
    assert_eq!(
        digest_of(&[]),
        "e3b0c44298fc1c149afbf4c8996fb92427ae41e4649b934ca495991b7852b855"
    );
    assert_eq!(
        digest_of(&[b""]),
        "e3b0c44298fc1c149afbf4c8996fb92427ae41e4649b934ca495991b7852b855"
    );
}

#[test]
fn digest_of_abc() {
    assert_eq!(
        digest_of(&[b"abc"]),
        "ba7816bf8f01cfea414140de5dae2223b00361a396177a9cb410ff61f20015ad"
    );
}

#[test]
fn digest_of_a_longer_text() {
    assert_eq!(
        digest_of(&[b"abcdbcdecdefdefgefghfghighijhijkijkljklmklmnlmnomnopnopq"]),
        "248d6a61d20638b8e5c026930c3e6039a33ce45964ff2167f6ecedd419db06c1"
    );
}

#[test]
fn digest_does_not_depend_on_how_the_content_is_cut() {
    let whole = digest_of(&[b"abc"]);
    assert_eq!(digest_of(&[b"a", b"b", b"c"]), whole);
    assert_eq!(digest_of(&[b"ab", b"", b"c"]), whole);
    assert_eq!(digest_of(&[b"", b"abc"]), whole);
    let long: Vec<u8> = (0..5000u32).map(|n| (n % 251) as u8).collect();
    let cut: Vec<&[u8]> = long.chunks(1024).collect();
    assert_eq!(digest_of(&cut), digest_of(&[&long]));
    assert_ne!(digest_of(&[&long]), whole);
}

#[test]
fn digest_depends_on_the_order_of_the_pieces() {
    assert_ne!(digest_of(&[b"ab", b"c"]), digest_of(&[b"c", b"ab"]));
}

#[test]
fn hex_writes_two_lower_case_digits_for_each_byte() {
    assert_eq!(to_hex(&Vec::new()), "");
    assert_eq!(to_hex(&vec![0x00, 0x0f, 0xf0, 0xff, 0xab, 0x09, 0x1a]), "000ff0ffab091a");
    let all: Vec<u8> = (0..=255u8).collect();
    let expected: String = all.iter().map(|b| format!("{:02x}", b)).collect();
    assert_eq!(to_hex(&all), expected);
}
