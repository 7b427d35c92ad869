use chat::server::db::order;
use chat::text::{split_at_first, text_eq, text_lt, to_hex, trim_end};
use chat::util::hash_password;

#[test]
fn equality_of_texts() {
    assert!(text_eq("", ""));
    assert!(text_eq("grüße", "grüße"));
    assert!(!text_eq("a", "b"));
    assert!(!text_eq("a", "ab"));
}

#[test]
fn order_of_texts_is_that_of_std() {
    let words = ["", "a", "ab", "b", "B", "é", "z", "\u{ffff}", "\u{10000}"];
    for a in words {
        for b in words {
            assert_eq!(text_lt(a, b), a < b, "{a:?} {b:?}");
        }
    }
}

#[test]
fn a_pair_has_one_order() {
    assert_eq!(order("alice", "bob"), ("alice", "bob"));
    assert_eq!(order("bob", "alice"), ("alice", "bob"));
    assert_eq!(order("Bob", "alice"), ("Bob", "alice"));
    assert_eq!(order("x", "x"), ("x", "x"));
}

#[test]
fn splitting_at_the_first_occurrence() {
    assert_eq!(split_at_first("a:b:c", ':'), Some(("a", "b:c")));
    assert_eq!(split_at_first(":", ':'), Some(("", "")));
    assert_eq!(split_at_first("ü:é", ':'), Some(("ü", "é")));
    assert_eq!(split_at_first("abc", ':'), None);
    assert_eq!(split_at_first("", ':'), None);
}

#[test]
fn trimming_the_end() {
    assert_eq!(trim_end("http://h//", '/'), "http://h");
    assert_eq!(trim_end("//", '/'), "");
    assert_eq!(trim_end("/a", '/'), "/a");
    assert_eq!(trim_end("", '/'), "");
}

#[test]
fn hexadecimal_digits() {
    assert_eq!(to_hex(&[]), "");
    assert_eq!(to_hex(&[0, 9, 10, 255, 0x5e]), "00090aff5e");
}

#[test]
fn password_hashes() {
    assert_eq!(
        hash_password("password"),
        "5e884898da28047151d0e56f8dc6292773603d0d6aabbdd62a11ef721d1542d8"
    );
    assert_eq!(
        hash_password(""),
        "e3b0c44298fc1c149afbf4c8996fb92427ae41e4649b934ca495991b7852b855"
    );
    assert_eq!(
        hash_password("grüße"),
        "8285d1ad84c6b6e475d3b50dbf90389c8c7a07a278d9ae46d5698cbe872e3834"
    );
}
