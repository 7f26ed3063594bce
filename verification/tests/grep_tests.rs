use rust_demo::grep;
use rust_demo::search;

#[test]
fn test_new_config() {
    let args = vec![
        String::from("program_name"), // the first argument is the program name
        String::from("target"),
        String::from("path"),
    ];
    let config = grep::Config::new(&args).unwrap();
    assert_eq!(config.target, "target");
    assert_eq!(config.path, "path");
}

#[test]
fn test_new_config_not_enough_args() {
    let args = vec![String::from("target")];
    let config = grep::Config::new(&args);
    assert_eq!(config, Err("not enough arguments"));
}

#[test]
fn test_search_case_insensitive() {
    let query = "rUsT";
    let contents = "\
Rust:
safe, fast, productive.
Pick three.
Trust me.";
    assert_eq!(
        vec![(0, "Rust:"), (3, "Trust me.")],
        grep::Config::search_case_insensitive(query, contents)
    );
}

#[test]
fn lib_test_new_config() {
    let args = vec![
        String::from("program_name"), // the first argument is the program name
        String::from("target"),
        String::from("path"),
    ];
    let config = search::Config::new(&args).unwrap();
    assert_eq!(config.target, "target");
    assert_eq!(config.path, "path");
}

#[test]
fn lib_test_new_config_not_enough_args() {
    let args = vec![String::from("target")];
    let config = search::Config::new(&args);
    assert_eq!(config, Err("not enough arguments"));
}

#[test]
fn test_search_case_sensitive() {
    // case-sensitively, "duct" occurs only inside "productive.";
    // "Duct tape." does not match
    let query = "duct";
    let contents = "\
Rust:
safe, fast, productive.
Pick three.
Duct tape.";
    assert_eq!(
        vec!["safe, fast, productive."],
        search::Config::search_case_sensitive(query, contents)
    );
}

#[test]
fn lib_test_search_case_sensitive() {
    let query = "duct";
    let contents = "\
Rust:
safe, fast, productive.
Pick three.
Duct tape.";
    assert_eq!(
        vec!["safe, fast, productive."],
        search::Config::search_case_sensitive(query, contents)
    );
}

#[test]
fn lib_test_search_case_insensitive() {
    let query = "rUsT";
    let contents = "\
Rust:
safe, fast, productive.
Pick three.
Trust me.";
    assert_eq!(
        vec!["Rust:", "Trust me."],
        search::Config::search_case_insensitive(query, contents)
    );
}

#[test]
fn grep_flags_are_recognized() {
    let args = vec![
        String::from("program_name"),
        String::from("q"),
        String::from("file.txt"),
        String::from("-n"),
    ];
    let config = grep::Config::new(&args).unwrap();
    assert!(config.show_line_number);
    assert!(!config.case_sensitive);
}

#[test]
fn grep_sensitive_reports_line_numbers() {
    let r = grep::Config::search_case_sensitive("duct", "Duct\nproduct\nduct");
    assert_eq!(r, vec![(1, "product"), (2, "duct")]);
}
