use rust_demo::codec::{insert_fingerprint, strip_fingerprint};
use rust_demo::hashing::content_fingerprint;
use rust_demo::paths::normalize_path;

#[test]
fn insert_places_fingerprint_before_extension() {
    assert_eq!(insert_fingerprint("app.css", "a1b2c3d4", 8), "app.a1b2c3d4.css");
}

#[test]
fn insert_appends_fingerprint_without_extension() {
    assert_eq!(insert_fingerprint("readme", "a1b2c3d4", 8), "readme.a1b2c3d4");
}

#[test]
fn insert_replaces_an_existing_fingerprint() {
    assert_eq!(insert_fingerprint("app.a1b2c3d4.css", "deadbeef", 8), "app.deadbeef.css");
}

#[test]
fn strip_removes_a_fingerprint() {
    assert_eq!(strip_fingerprint("app.a1b2c3d4.css", 8), "app.css");
    assert_eq!(strip_fingerprint("readme.a1b2c3d4", 8), "readme");
}

#[test]
fn strip_leaves_clean_names_alone() {
    assert_eq!(strip_fingerprint("app.css", 8), "app.css");
    assert_eq!(strip_fingerprint("app.zzzzzzzz.css", 8), "app.zzzzzzzz.css");
    assert_eq!(strip_fingerprint("app.a1b2c3.css", 8), "app.a1b2c3.css");
}

#[test]
fn strip_insert_round_trip() {
    for name in ["logo.png", "x.y.z", "noext", "style.a1b2c3d4.css", "a."] {
        let inserted = insert_fingerprint(name, "0123abcd", 8);
        assert_eq!(strip_fingerprint(&inserted, 8), strip_fingerprint(name, 8));
    }
}

#[test]
fn fingerprint_matches_the_digest() {
    // the full digest of this input is documented by the hash crate
    assert_eq!(
        content_fingerprint("abcdefghijklmnopqrstuvwxyz", 0),
        "c3fcd3d76192e4007dfb496cca67e13b"
    );
    assert_eq!(content_fingerprint("abcdefghijklmnopqrstuvwxyz", 8), "c3fcd3d7");
    let expected = format!("{:x}", md5::compute("".as_bytes()));
    assert_eq!(content_fingerprint("", 0), expected);
}

#[test]
fn fingerprint_length_outside_range_means_full_digest() {
    assert_eq!(content_fingerprint("x", 0).len(), 32);
    assert_eq!(content_fingerprint("x", 40).len(), 32);
    assert_eq!(content_fingerprint("x", 5).len(), 5);
}

#[test]
fn classification_follows_the_extension() {
    assert_eq!(
        rust_demo::paths::classify_destination("downloads", "downloads/report.pdf"),
        Some(String::from("downloads/pdf/report.pdf"))
    );
    assert_eq!(rust_demo::paths::classify_destination("downloads", "downloads/noext"), None);
    assert_eq!(rust_demo::paths::classify_destination("d", "d/.bashrc"), None);
}

#[test]
fn normalize_resolves_dot_segments() {
    assert_eq!(normalize_path("a/./b/../c"), "a/c");
    assert_eq!(normalize_path("site//app.css"), "site/app.css");
    assert_eq!(normalize_path("./x"), "x");
    assert_eq!(normalize_path("/a/b/../c"), "/a/c");
}
