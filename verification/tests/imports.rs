use tools_core::imports::{
    extract_module_names, hit_of_module, is_python_source, module_of_capture, scan_line,
    top_module, FROM_IMPORT_PATTERN, IMPORT_PATTERN,
};

#[test]
fn test_regex() {
    let example_codes = vec![
        "import os",
        "    import sys",
        "from math import sqrt",
        "from collections import defaultdict",
        "from collections.aaa import bbb",
        "import cv2.imread as imread",
        "",
    ];

    for code in example_codes {
        let result = extract_module_names(code);

        println!(
            "In the code \"{}\", the extracted module name is: {:?}",
            code, result
        );
    }
}

fn module_of(code: &str) -> String {
    match extract_module_names(code) {
        Ok(name) => name,
        Err(_) => panic!("the import patterns must compile"),
    }
}

#[test]
fn plain_import_gives_the_module() {
    assert_eq!(module_of("import os"), "os");
    assert_eq!(module_of("    import sys"), "sys");
}

#[test]
fn from_import_gives_the_source_module() {
    assert_eq!(module_of("from math import sqrt"), "math");
    assert_eq!(module_of("from collections import defaultdict"), "collections");
}

#[test]
fn dotted_paths_give_their_top_module() {
    assert_eq!(module_of("from collections.aaa import bbb"), "collections");
    assert_eq!(module_of("import cv2.imread as imread"), "cv2");
}

#[test]
fn from_clause_goes_before_import_clause() {
    assert_eq!(module_of("import x; from y import z"), "y");
}

#[test]
fn keywords_match_in_any_case() {
    assert_eq!(module_of("IMPORT os"), "os");
    assert_eq!(module_of("From math Import sqrt"), "math");
}

#[test]
fn line_without_import_gives_the_empty_name() {
    assert_eq!(module_of(""), "");
    assert_eq!(module_of("x = 1"), "");
    assert_eq!(module_of("import"), "");
}

#[test]
fn path_that_starts_with_a_dot_gives_the_empty_name() {
    assert_eq!(module_of("from .sibling import thing"), "");
}

#[test]
fn top_module_is_what_stands_before_the_first_dot() {
    assert_eq!(top_module("a.b.c"), "a");
    assert_eq!(top_module("numpy"), "numpy");
    assert_eq!(top_module(".hidden"), "");
    assert_eq!(top_module(""), "");
    assert_eq!(top_module("trailing."), "trailing");
}

#[test]
fn patterns_are_the_documented_ones() {
    assert_eq!(IMPORT_PATTERN, "(?i)import\\s+([\\w\\.]+)(?:\\s+as\\s+\\w+)?");
    assert_eq!(FROM_IMPORT_PATTERN, "(?i)from\\s+([\\w\\.]+)(?:\\s+import\\s+\\w+)?");
}

#[test]
fn python_sources_end_in_py() {
    assert!(is_python_source("a.py"));
    assert!(is_python_source("dir/sub/module.py"));
    assert!(is_python_source(".py"));
    assert!(!is_python_source("py"));
    assert!(!is_python_source("a.pyc"));
    assert!(!is_python_source("a.PY"));
    assert!(!is_python_source(""));
    assert!(!is_python_source("notes.txt"));
}

#[test]
fn scan_reports_importing_lines_only() {
    match scan_line(7, "import os.path") {
        Ok(Some(hit)) => {
            assert_eq!(hit.index, 7);
            assert_eq!(hit.line, "import os.path");
            assert_eq!(hit.module, "os");
        }
        _ => panic!("an importing line must be reported"),
    }
    assert!(matches!(scan_line(8, "print(1)"), Ok(None)));
    assert!(matches!(scan_line(9, ""), Ok(None)));
}

#[test]
fn a_captured_path_settles_the_module() {
    match module_of_capture(Ok(Some("os.path".to_string()))) {
        Ok(Some(module)) => assert_eq!(module, "os"),
        other => panic!("a path settles its top module, got {:?}", other),
    }
    assert!(matches!(module_of_capture(Ok(None)), Ok(None)));
}

#[test]
fn a_rejected_pattern_is_an_error() {
    let rejected = match regex::Regex::new("(unclosed") {
        Ok(_) => panic!("an unclosed group is no pattern"),
        Err(e) => e,
    };
    assert!(module_of_capture(Err(rejected)).is_err());
}

#[test]
fn both_patterns_are_accepted() {
    assert!(regex::Regex::new(FROM_IMPORT_PATTERN).is_ok());
    assert!(regex::Regex::new(IMPORT_PATTERN).is_ok());
    assert!(extract_module_names("anything at all").is_ok());
}

#[test]
fn a_named_module_makes_a_hit() {
    match hit_of_module(3, "import os", "os".to_string()) {
        Some(hit) => {
            assert_eq!(hit.index, 3);
            assert_eq!(hit.line, "import os");
            assert_eq!(hit.module, "os");
        }
        None => panic!("a named module is a hit"),
    }
    assert!(hit_of_module(3, "x = 1", String::new()).is_none());
}
