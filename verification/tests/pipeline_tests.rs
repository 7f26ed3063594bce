use rust_demo::fs_model::{Directory, FsOp};
use rust_demo::manager::{Config, VersionManager};

fn cfg() -> Config {
    Config {
        root_dir: String::new(),
        cdn_domain: String::new(),
        hash_length: 8,
        single_html_file: String::new(),
        html_files: Vec::new(),
        exclude_dirs: Vec::new(),
        home_html_file: String::new(),
        company_html_file: String::new(),
        include_components: Vec::new(),
        process_main_resources: Vec::new(),
    }
}

fn fp8(content: &str) -> String {
    let h = format!("{:x}", md5::compute(content.as_bytes()));
    h[..8].to_string()
}

fn hash_count(vm: &VersionManager, path: &str) -> usize {
    vm.hash_log.iter().filter(|p| p.as_str() == path).count()
}

#[test]
fn shared_component_is_fingerprinted_once() {
    let mut fs = Directory::new();
    let doc = "<script src=\"components/widget/widget.js\"></script>";
    fs.load_file("site/a.html", doc);
    fs.load_file("site/b.html", doc);
    fs.load_file("site/components/widget/widget.js", "console.log(1)");
    let mut vm = VersionManager::new(cfg(), false);
    vm.process_html_file(&mut fs, "site/a.html").unwrap();
    vm.process_html_file(&mut fs, "site/b.html").unwrap();
    // the shared component's content is hashed exactly once across both runs
    assert_eq!(hash_count(&vm, "site/components/widget/widget.js"), 1);
    let h = fp8("console.log(1)");
    let expected = format!("<script src=\"components/widget/widget.{}.js\"></script>", h);
    assert_eq!(fs.read("site/a.html").unwrap(), &expected);
    assert_eq!(fs.read("site/a.html").unwrap(), fs.read("site/b.html").unwrap());
}

#[test]
fn external_reference_is_never_rewritten() {
    let mut fs = Directory::new();
    let doc = "<script src=\"https://other.example.com/a.js\"></script>";
    fs.load_file("site/a.html", doc);
    let mut vm = VersionManager::new(cfg(), false);
    let lists = vm.collect_resources_from_html(&fs, "site/a.html").unwrap();
    assert!(lists.js.is_empty());
    assert!(lists.css.is_empty());
    vm.process_html_file(&mut fs, "site/a.html").unwrap();
    assert_eq!(fs.read("site/a.html").unwrap(), doc);
    assert_eq!(fs.log.len(), 0);
}

#[test]
fn unchanged_document_is_never_written() {
    let mut fs = Directory::new();
    fs.load_file("site/a.html", "<p>no references here</p>");
    let mut vm = VersionManager::new(cfg(), false);
    vm.process_html_file(&mut fs, "site/a.html").unwrap();
    assert_eq!(fs.log.len(), 0);
}

#[test]
fn rerunning_the_pipeline_writes_nothing() {
    let mut fs = Directory::new();
    let doc = "<script src=\"components/widget/widget.js\"></script>";
    fs.load_file("site/a.html", doc);
    fs.load_file("site/components/widget/widget.js", "console.log(1)");
    let mut vm = VersionManager::new(cfg(), false);
    vm.process_html_file(&mut fs, "site/a.html").unwrap();
    let ops = fs.log.len();
    // a fresh run over the already versioned tree changes nothing
    let mut vm2 = VersionManager::new(cfg(), false);
    vm2.process_html_file(&mut fs, "site/a.html").unwrap();
    assert_eq!(fs.log.len(), ops);
}

#[test]
fn component_css_is_rewritten_and_refingerprinted() {
    let mut fs = Directory::new();
    fs.load_file("site/components/w/w.css", "div{background:url(img/pic.png)}");
    fs.load_file("site/components/w/img/pic.png", "PNGDATA");
    let mut vm = VersionManager::new(cfg(), false);
    let info = vm.process_component_css(&mut fs, "site/components/w/w.css").unwrap();
    let h_img = fp8("PNGDATA");
    let rewritten = format!("div{{background:url(img/pic.{}.png)}}", h_img);
    let h_css = fp8(&rewritten);
    assert_eq!(info.hashed_path, format!("site/components/w/w.{}.css", h_css));
    assert_eq!(info.hash, h_css);
    assert_eq!(fs.read(&info.hashed_path).unwrap(), &rewritten);
    // the original stylesheet is never modified
    assert_eq!(fs.read("site/components/w/w.css").unwrap(), "div{background:url(img/pic.png)}");
    // the intermediate copy named by the pre-rewrite hash is gone
    let h_orig = fp8("div{background:url(img/pic.png)}");
    assert!(fs.read(&format!("site/components/w/w.{}.css", h_orig)).is_none());
    // the image got its fingerprinted sibling
    assert_eq!(
        fs.read(&format!("site/components/w/img/pic.{}.png", h_img)).unwrap(),
        "PNGDATA"
    );
}

#[test]
fn update_css_skips_unchanged_files() {
    let mut fs = Directory::new();
    fs.load_file("a.css", "div{background:url(img/x.png)}");
    let vm = VersionManager::new(cfg(), false);
    let map = vec![(String::from("img/other.png"), String::from("other.12345678.png"))];
    vm.update_css_image_references(&mut fs, "a.css", &map).unwrap();
    assert_eq!(fs.log.len(), 0);
    let map2 = vec![(String::from("img/x.png"), String::from("x.12345678.png"))];
    vm.update_css_image_references(&mut fs, "a.css", &map2).unwrap();
    assert_eq!(fs.log.len(), 1);
    assert!(matches!(&fs.log[0], FsOp::Write { name, .. } if name == "a.css"));
    assert_eq!(fs.read("a.css").unwrap(), "div{background:url(img/x.12345678.png)}");
}

#[test]
fn batch_processing_resolves_against_the_root() {
    let mut fs = Directory::new();
    let doc = "<script src=\"components/w/w.js\"></script>";
    fs.load_file("site/a.html", doc);
    fs.load_file("site/components/w/w.js", "x");
    let mut c = cfg();
    c.root_dir = String::from("site");
    let mut vm = VersionManager::new(c, false);
    vm.process_multiple_html_files(&mut fs, vec![String::from("a.html")]);
    let h = fp8("x");
    let expected = format!("<script src=\"components/w/w.{}.js\"></script>", h);
    assert_eq!(fs.read("site/a.html").unwrap(), &expected);
}

#[test]
fn main_resources_follow_the_allow_list() {
    let mut fs = Directory::new();
    fs.load_file("site/index.html", "<p>x</p>");
    fs.load_file("site/index.js", "main();");
    let mut c = cfg();
    c.process_main_resources = vec![String::from("index.html")];
    let mut vm = VersionManager::new(c, false);
    vm.process_html_file(&mut fs, "site/index.html").unwrap();
    let h = fp8("main();");
    assert_eq!(fs.read(&format!("site/index.{}.js", h)).unwrap(), "main();");
    // without the allow-list entry the main script is left alone
    let mut fs2 = Directory::new();
    fs2.load_file("site/index.html", "<p>x</p>");
    fs2.load_file("site/index.js", "main();");
    let mut vm2 = VersionManager::new(cfg(), false);
    vm2.process_html_file(&mut fs2, "site/index.html").unwrap();
    assert_eq!(fs2.log.len(), 0);
}

#[test]
fn missing_document_is_fatal() {
    let mut fs = Directory::new();
    let mut vm = VersionManager::new(cfg(), false);
    assert!(vm.process_html_file(&mut fs, "site/gone.html").is_err());
}

#[test]
fn walker_helpers_follow_the_configuration() {
    let mut c = cfg();
    c.exclude_dirs = vec![String::from("node_modules"), String::from(".git")];
    let vm = VersionManager::new(c, false);
    assert!(!vm.should_visit_dir("node_modules"));
    assert!(vm.should_visit_dir("src"));
    assert!(rust_demo::pipeline::is_html_file_name("index.html"));
    assert!(!rust_demo::pipeline::is_html_file_name("index.css"));
}
