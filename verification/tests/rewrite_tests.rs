use rust_demo::css::rewrite_image_references;
use rust_demo::html::rewrite_tag_references;

#[test]
fn css_reference_is_rewritten_and_flagged() {
    let map = vec![(String::from("../img/logo.png"), String::from("logo.a1b2c3d4.png"))];
    let (out, changed) = rewrite_image_references("url(../img/logo.png)", &map);
    assert_eq!(out, "url(../img/logo.a1b2c3d4.png)");
    assert!(changed);
}

#[test]
fn unmapped_css_reference_is_byte_identical() {
    let map = vec![(String::from("../img/logo.png"), String::from("logo.a1b2c3d4.png"))];
    let text = "div{background:url(../img/other.png)}";
    let (out, changed) = rewrite_image_references(text, &map);
    assert_eq!(out, text);
    assert!(!changed);
}

#[test]
fn css_rewrite_preserves_quotes_and_drops_query() {
    let map = vec![(String::from("img/pic.png"), String::from("pic.deadbeef.png"))];
    let (out, changed) = rewrite_image_references("url('img/pic.png?v=3')", &map);
    assert_eq!(out, "url('img/pic.deadbeef.png')");
    assert!(changed);
}

#[test]
fn external_css_references_are_skipped() {
    let map = vec![(String::from("http"), String::from("nope")), (
        String::from("img/a.png"),
        String::from("a.11111111.png"),
    )];
    let text = "url(https://x.example/a.png) url(data:image/png;base64,AAA) url(//cdn/a.png)";
    let (out, changed) = rewrite_image_references(text, &map);
    assert_eq!(out, text);
    assert!(!changed);
}

#[test]
fn cdn_domain_prefixes_the_rewritten_reference() {
    let map = vec![(String::from("./app.css"), String::from("./app.5f5f5f5f.css"))];
    let html = "<link rel=\"stylesheet\" href=\"./app.css\">";
    let (out, changed) = rewrite_tag_references(html, "<link", "href", &map, "https://cdn.example.com");
    assert_eq!(out, "<link rel=\"stylesheet\" href=\"https://cdn.example.com/app.5f5f5f5f.css\">");
    assert!(changed);
}

#[test]
fn html_rewrite_keeps_directory_and_relative_style() {
    let map = vec![(
        String::from("components/w/w.js"),
        String::from("components/w/w.a1b2c3d4.js"),
    )];
    let html = "<script src=\"./components/w/w.js\"></script>";
    let (out, changed) = rewrite_tag_references(html, "<script", "src", &map, "");
    assert_eq!(out, "<script src=\"./components/w/w.a1b2c3d4.js\"></script>");
    assert!(changed);
}

#[test]
fn unmatched_html_reference_is_untouched() {
    let map = vec![(String::from("a.js"), String::from("a.99999999.js"))];
    let html = "<script src=\"b.js\"></script>";
    let (out, changed) = rewrite_tag_references(html, "<script", "src", &map, "");
    assert_eq!(out, html);
    assert!(!changed);
}

#[test]
fn scan_collects_attribute_values() {
    let html = "<link rel=\"x\" href=\"a.css\"><script src=\"b.js\"></script><link href=\"c.txt\">";
    let css = rust_demo::html::scan_resource_refs(html, "<link", "href", ".css");
    assert_eq!(css, vec![String::from("a.css")]);
    let js = rust_demo::html::scan_resource_refs(html, "<script", "src", ".js");
    assert_eq!(js, vec![String::from("b.js")]);
}
