use rust_demo::fs_model::{Directory, FsOp};
use rust_demo::manager::{Config, VersionManager, VersionError};
use rust_demo::registry::ProcessedRegistry;

fn cfg() -> Config {
    Config {
        root_dir: String::from("."),
        cdn_domain: String::new(),
        hash_length: 8,
        single_html_file: String::new(),
        html_files: Vec::new(),
        exclude_dirs: Vec::new(),
        home_html_file: String::new(),
        company_html_file: String::new(),
        include_components: Vec::new(),
        process_main_resources: Vec::new(),
    }
}

fn fp8(content: &str) -> String {
    let h = format!("{:x}", md5::compute(content.as_bytes()));
    h[..8].to_string()
}

#[test]
fn versioning_copies_and_fingerprints() {
    let mut fs = Directory::new();
    fs.load_file("site/app.css", "body{}");
    let mut vm = VersionManager::new(cfg(), false);
    let info = vm.rename_file_with_hash(&mut fs, "site/app.css").unwrap();
    let h = fp8("body{}");
    assert_eq!(info.original_path, "site/app.css");
    assert_eq!(info.hash, h);
    assert_eq!(info.hashed_path, format!("site/app.{}.css", h));
    assert!(info.renamed);
    assert_eq!(fs.read(&info.hashed_path).unwrap(), "body{}");
    assert_eq!(fs.read("site/app.css").unwrap(), "body{}");
}

#[test]
fn versioning_twice_is_idempotent() {
    let mut fs = Directory::new();
    fs.load_file("site/app.css", "body{}");
    let mut vm = VersionManager::new(cfg(), false);
    let first = vm.rename_file_with_hash(&mut fs, "site/app.css").unwrap();
    let ops_after_first = fs.log.len();
    let count_after_first = fs.file_count();
    let second = vm.rename_file_with_hash(&mut fs, "site/app.css").unwrap();
    assert_eq!(first.original_path, second.original_path);
    assert_eq!(first.hashed_path, second.hashed_path);
    assert_eq!(first.hash, second.hash);
    // the second run performs zero additional disk writes
    assert_eq!(fs.log.len(), ops_after_first);
    assert_eq!(fs.file_count(), count_after_first);
}

#[test]
fn stale_fingerprints_are_collected() {
    let mut fs = Directory::new();
    fs.load_file("site/app.css", "one");
    let mut vm = VersionManager::new(cfg(), false);
    let a = vm.rename_file_with_hash(&mut fs, "site/app.css").unwrap();
    // the source changes on disk; versioning again replaces the old copy
    fs.load_file("site/app.css", "two");
    let b = vm.rename_file_with_hash(&mut fs, "site/app.css").unwrap();
    assert_ne!(a.hash, b.hash);
    assert!(fs.read(&a.hashed_path).is_none());
    assert_eq!(fs.read(&b.hashed_path).unwrap(), "two");
    // at most one fingerprinted sibling remains, and it matches the hash
    let mut siblings = 0;
    for i in 0..fs.file_count() {
        let name = fs.files[i].name.clone();
        if name.starts_with("site/app.") && name.ends_with(".css") && name != "site/app.css" {
            siblings += 1;
            assert_eq!(name, format!("site/app.{}.css", fp8("two")));
        }
    }
    assert_eq!(siblings, 1);
}

#[test]
fn versioning_a_missing_file_fails() {
    let mut fs = Directory::new();
    let mut vm = VersionManager::new(cfg(), false);
    let r = vm.rename_file_with_hash(&mut fs, "site/gone.css");
    match r {
        Err(VersionError::NotFound { path }) => assert_eq!(path, "site/gone.css"),
        Ok(_) => panic!("versioning a missing file must fail"),
    }
    assert_eq!(fs.log.len(), 0);
}

#[test]
fn error_message_names_the_path() {
    let e = VersionError::NotFound { path: String::from("a/b.css") };
    assert_eq!(e.message(), "file does not exist: a/b.css");
}

#[test]
fn registry_marks_each_path_once() {
    let mut r = ProcessedRegistry::new();
    assert!(!r.check_and_mark("a"));
    assert!(r.check_and_mark("a"));
    assert!(!r.check_and_mark("b"));
    assert_eq!(r.marked_count(), 2);
}

#[test]
fn find_file_locates_fingerprinted_variants() {
    let mut fs = Directory::new();
    fs.load_file("site/app.a1b2c3d4.css", "x");
    let vm = VersionManager::new(cfg(), false);
    assert_eq!(vm.find_file(&fs, "site/app.css").unwrap(), "site/app.a1b2c3d4.css");
    assert!(vm.find_file(&fs, "site/other.css").is_none());
    fs.load_file("site/app.css", "y");
    assert_eq!(vm.find_file(&fs, "site/app.css").unwrap(), "site/app.css");
}

#[test]
fn resolve_config_fills_defaults_and_picks_machine() {
    let mut c = cfg();
    c.root_dir = String::new();
    c.hash_length = 0;
    c.home_html_file = String::from("home.html");
    c.company_html_file = String::from("company.html");
    let home = rust_demo::manager::resolve_config(c, "1");
    assert_eq!(home.root_dir, ".");
    assert_eq!(home.hash_length, 8);
    assert_eq!(home.single_html_file, "home.html");
    let mut c2 = cfg();
    c2.home_html_file = String::from("home.html");
    c2.company_html_file = String::from("company.html");
    let company = rust_demo::manager::resolve_config(c2, "");
    assert_eq!(company.single_html_file, "company.html");
    assert_eq!(rust_demo::manager::default_hash_length(), 8);
    assert_eq!(rust_demo::manager::default_root_dir(), ".");
    assert_eq!(rust_demo::manager::default_exclude_dirs().len(), 4);
}

#[test]
fn include_list_filters_components() {
    let mut c = cfg();
    c.include_components = vec![String::from("widget")];
    let vm = VersionManager::new(c, false);
    assert!(vm.should_process_component("components/widget/widget.js"));
    assert!(!vm.should_process_component("components/other/other.js"));
    // a bare file named after the component matches by its name prefix
    assert!(vm.should_process_component("widget.js"));
    assert!(!vm.should_process_component("widgetry.js"));
    let all = VersionManager::new(cfg(), false);
    assert!(all.should_process_component("anything.js"));
}

#[test]
fn directory_log_records_mutations_in_order() {
    let mut fs = Directory::new();
    fs.load_file("a", "1");
    fs.copy_file("a", "b");
    fs.write_file("b", "2");
    fs.rename_file("b", "c");
    fs.remove_file("a");
    assert_eq!(fs.log.len(), 4);
    assert!(matches!(&fs.log[0], FsOp::Copy { from, to } if from == "a" && to == "b"));
    assert!(matches!(&fs.log[1], FsOp::Write { name, content } if name == "b" && content == "2"));
    assert!(matches!(&fs.log[2], FsOp::Rename { from, to } if from == "b" && to == "c"));
    assert!(matches!(&fs.log[3], FsOp::Remove { name } if name == "a"));
    assert_eq!(fs.read("c").unwrap(), "2");
    assert!(fs.read("a").is_none());
    assert!(fs.read("b").is_none());
}
