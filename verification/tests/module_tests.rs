use mog::module::parse_mod_file;

#[test]
fn parse_mod_file_basic() {
    assert_eq!(
        parse_mod_file("module myproject\n"),
        Some("myproject".into())
    );
}

#[test]
fn parse_mod_file_with_comments() {
    let content = "// Mog module file\nmodule hello\n";
    assert_eq!(parse_mod_file(content), Some("hello".into()));
}

#[test]
fn parse_mod_file_empty() {
    assert_eq!(parse_mod_file(""), None);
    assert_eq!(parse_mod_file("// just a comment"), None);
}

#[test]
fn parse_mod_file_trims_and_takes_first() {
    assert_eq!(parse_mod_file("  module   spaced  \r\nmodule second\n"), Some("spaced".into()));
    assert_eq!(parse_mod_file("module \nmodule real"), Some("real".into()));
    assert_eq!(parse_mod_file("modules x\nmodulex\n"), None);
    assert_eq!(parse_mod_file("\u{3000}module wide\u{3000}"), Some("wide".into()));
}

use mog::module::{detect_circular_imports, scan_imports};

fn edges(list: &[(&str, &[&str])]) -> Vec<(String, Vec<String>)> {
    list.iter()
        .map(|(k, ds)| (k.to_string(), ds.iter().map(|d| d.to_string()).collect()))
        .collect()
}

#[test]
fn cycle_detection_no_cycle() {
    // Two packages with no files to scan: no edges, so no cycles.
    let e = edges(&[("a", &[]), ("b", &[])]);
    assert!(detect_circular_imports(&e).is_ok());
}

#[test]
fn cycle_detection_finds_cycle() {
    let e = edges(&[("a", &["b"]), ("b", &["c"]), ("c", &["a"])]);
    let err = detect_circular_imports(&e).unwrap_err();
    assert_eq!(err, "Circular import detected: c -> a");
    let e = edges(&[("a", &["a"])]);
    assert_eq!(detect_circular_imports(&e).unwrap_err(), "Circular import detected: a -> a");
}

#[test]
fn cycle_detection_dag_and_outside_names() {
    let e = edges(&[("a", &["b", "c", "std"]), ("b", &["c"]), ("c", &["fmt"])]);
    assert!(detect_circular_imports(&e).is_ok());
}

#[test]
fn import_lines_are_scanned() {
    let src = "package main\nimport \"math\"\n  import ( \"strings\" \"os\" )\nimportant \"no\"\nimport x\nimport \"\"\n";
    assert_eq!(
        scan_imports(src),
        vec!["math".to_string(), "strings".to_string(), "os".to_string(), "".to_string()]
    );
    assert!(scan_imports("").is_empty());
    assert_eq!(scan_imports("import \"a\"\r\n"), vec!["a".to_string()]);
}

#[test]
fn cycle_detection_reports_the_back_edge_met_first() {
    let e = edges(&[("a", &["b"]), ("b", &["a"])]);
    assert_eq!(detect_circular_imports(&e).unwrap_err(), "Circular import detected: b -> a");
    let e = edges(&[("b", &["a"]), ("a", &["b"])]);
    assert_eq!(detect_circular_imports(&e).unwrap_err(), "Circular import detected: a -> b");
}
