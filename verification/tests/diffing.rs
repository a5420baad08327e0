use tools_core::diff::{
    diff, diff_records, environment_pair, render, render_record, DiffOptions, Mode,
};
use tools_core::listing::{get_package_info_by_env_name, LineEnding, PackageSet};
use tools_core::package::PackageInfo;
use tools_core::render::{format_output, header_row, padding_string, FIXED_LENGTH};
use tools_core::sorting::sort_records;

fn record(name: &str, version: &str, build: &str, channel: &str, env: &str) -> PackageInfo {
    PackageInfo {
        name: name.to_string(),
        version: version.to_string(),
        build: build.to_string(),
        channel: channel.to_string(),
        env_name: env.to_string(),
    }
}

fn set_of(env: &str, lines: &[&str]) -> PackageSet {
    get_package_info_by_env_name(env.to_string(), &lines.join("\n"), LineEnding::Lf)
}

fn first_env() -> PackageSet {
    set_of(
        "envA",
        &["numpy 1.2.0 build0", "# comment", "scipy 1.8.0 build1 conda-forge"],
    )
}

fn second_env() -> PackageSet {
    set_of("envB", &["numpy 1.3.0 build0"])
}

fn options(filter: Option<&str>, mode: Mode, column_format: bool) -> DiffOptions {
    DiffOptions { channel_filter: filter.map(|c| c.to_string()), mode, column_format }
}

fn triples(found: &[PackageInfo]) -> Vec<(String, String, String)> {
    found
        .iter()
        .map(|p| (p.name.clone(), p.version.clone(), p.env_name.clone()))
        .collect()
}

fn triple(name: &str, version: &str, env: &str) -> (String, String, String) {
    (name.to_string(), version.to_string(), env.to_string())
}

fn in_some_order<T: Ord>(mut items: Vec<T>) -> Vec<T> {
    items.sort();
    items
}

fn names_of(found: &[PackageInfo]) -> Vec<String> {
    found.iter().map(|p| p.name.clone()).collect()
}

#[test]
fn both_mode_reports_each_side_sorted_by_name() {
    let found = diff_records(&first_env(), &second_env(), Mode::Both);
    assert_eq!(names_of(&found), vec!["numpy", "numpy", "scipy"]);
    assert_eq!(
        in_some_order(triples(&found[..2])),
        vec![triple("numpy", "1.2.0", "envA"), triple("numpy", "1.3.0", "envB")]
    );
    assert_eq!(triples(&found[2..]), vec![triple("scipy", "1.8.0", "envA")]);
    let lines = diff(
        &first_env(),
        &second_env(),
        "envA",
        "envB",
        &options(None, Mode::Both, false),
    );
    assert_eq!(lines.len(), 3);
    assert_eq!(
        in_some_order(lines[..2].to_vec()),
        vec![
            "(name numpy, version 1.2.0,build build0, channel ,env_name envA)",
            "(name numpy, version 1.3.0,build build0, channel ,env_name envB)",
        ]
    );
    assert_eq!(
        lines[2],
        "(name scipy, version 1.8.0,build build1, channel conda-forge,env_name envA)"
    );
}

#[test]
fn channel_filter_restricts_what_is_rendered() {
    let lines = diff(
        &first_env(),
        &second_env(),
        "envA",
        "envB",
        &options(Some("conda-forge"), Mode::Both, false),
    );
    assert_eq!(
        lines,
        vec!["(name scipy, version 1.8.0,build build1, channel conda-forge,env_name envA)"]
    );
}

#[test]
fn first_only_reports_the_first_side() {
    let found = diff_records(&first_env(), &second_env(), Mode::FirstOnly);
    assert_eq!(
        triples(&found),
        vec![triple("numpy", "1.2.0", "envA"), triple("scipy", "1.8.0", "envA")]
    );
    let lines = diff(
        &first_env(),
        &second_env(),
        "envA",
        "envB",
        &options(None, Mode::FirstOnly, false),
    );
    assert_eq!(
        lines,
        vec![
            "(name numpy, version 1.2.0,build build0, channel ,env_name envA)",
            "(name scipy, version 1.8.0,build build1, channel conda-forge,env_name envA)",
        ]
    );
}

#[test]
fn second_only_reports_the_second_side() {
    let found = diff_records(&first_env(), &second_env(), Mode::SecondOnly);
    assert_eq!(triples(&found), vec![triple("numpy", "1.3.0", "envB")]);
}

#[test]
fn one_sided_modes_render_free_text_without_header() {
    let lines = diff(
        &first_env(),
        &second_env(),
        "envA",
        "envB",
        &options(None, Mode::FirstOnly, true),
    );
    assert_eq!(
        lines,
        vec![
            "(name numpy, version 1.2.0,build build0, channel ,env_name envA)",
            "(name scipy, version 1.8.0,build build1, channel conda-forge,env_name envA)",
        ]
    );
    let lines = diff(
        &first_env(),
        &second_env(),
        "envA",
        "envB",
        &options(None, Mode::SecondOnly, true),
    );
    assert_eq!(
        lines,
        vec!["(name numpy, version 1.3.0,build build0, channel ,env_name envB)"]
    );
}

#[test]
fn a_set_compared_with_itself_differs_nowhere() {
    for mode in vec![Mode::FirstOnly, Mode::SecondOnly, Mode::Both] {
        assert!(diff_records(&first_env(), &first_env(), mode).is_empty());
        let lines = diff(&first_env(), &first_env(), "envA", "envA", &options(None, mode, false));
        assert!(lines.is_empty());
    }
    let same_packages_other_tag = set_of(
        "envB",
        &["scipy 1.8.0 build1 conda-forge", "numpy 1.2.0 build0"],
    );
    assert!(diff_records(&first_env(), &same_packages_other_tag, Mode::Both).is_empty());
    let in_columns = diff(
        &first_env(),
        &first_env(),
        "envA",
        "envA",
        &options(None, Mode::Both, true),
    );
    assert_eq!(in_columns, vec![header_row()]);
}

#[test]
fn swapping_the_sets_reports_the_same_records() {
    let a = set_of("envA", &["b 1 x", "a 1 x", "c 1 x", "d 2 y pypi", "e 1 x"]);
    let b = set_of("envB", &["e 1 x", "d 2 y", "b 2 x", "a 1 x", "f 1 x"]);
    let mut ab = triples(&diff_records(&a, &b, Mode::Both));
    let mut ba = triples(&diff_records(&b, &a, Mode::Both));
    assert_eq!(ab.len(), 6);
    ab.sort();
    ba.sort();
    assert_eq!(ab, ba);
    assert_eq!(
        triples(&diff_records(&a, &b, Mode::FirstOnly)),
        triples(&diff_records(&b, &a, Mode::SecondOnly))
    );
    assert_eq!(
        triples(&diff_records(&a, &b, Mode::SecondOnly)),
        triples(&diff_records(&b, &a, Mode::FirstOnly))
    );
}

#[test]
fn reported_records_never_decrease_by_name() {
    let a = set_of("envA", &["zlib 1 x", "numpy 1 x", "attrs 1 x", "Zope 1 x", "numpy-base 1 x"]);
    let b = set_of("envB", &["yaml 1 x", "numpy 2 x", "attrs 1 x", "black 1 x"]);
    for mode in vec![Mode::FirstOnly, Mode::SecondOnly, Mode::Both] {
        let found = diff_records(&a, &b, mode);
        for pair in found.windows(2) {
            assert!(pair[0].name <= pair[1].name);
        }
    }
    assert_eq!(
        names_of(&diff_records(&a, &b, Mode::Both)),
        vec!["Zope", "black", "numpy", "numpy", "numpy-base", "yaml", "zlib"]
    );
}

#[test]
fn records_of_one_name_are_all_reported() {
    let a = set_of("envA", &["numpy 2 x", "numpy 1 x"]);
    let b = set_of("envB", &["numpy 3 x", "numpy 0 x"]);
    assert_eq!(
        in_some_order(triples(&diff_records(&a, &b, Mode::Both))),
        vec![
            triple("numpy", "0", "envB"),
            triple("numpy", "1", "envA"),
            triple("numpy", "2", "envA"),
            triple("numpy", "3", "envB"),
        ]
    );
}

#[test]
fn difference_is_taken_before_the_channel_filter() {
    let a = set_of("envA", &["pkg 1 x pypi"]);
    let b = set_of("envB", &["pkg 1 x conda-forge"]);
    assert_eq!(diff_records(&a, &b, Mode::Both).len(), 2);
    let lines = diff(&a, &b, "envA", "envB", &options(Some("pypi"), Mode::Both, false));
    assert_eq!(lines, vec!["(name pkg, version 1,build x, channel pypi,env_name envA)"]);
}

#[test]
fn difference_keeps_the_order_of_the_set() {
    let a = set_of("envA", &["c 1 x", "a 1 x", "b 1 x"]);
    let b = set_of("envB", &["a 1 x"]);
    assert_eq!(
        triples(&a.difference(&b)),
        vec![triple("c", "1", "envA"), triple("b", "1", "envA")]
    );
    assert!(b.difference(&a).is_empty());
}

#[test]
fn sort_orders_by_name_and_keeps_every_record() {
    let v = vec![
        record("b", "1", "", "", ""),
        record("a", "2", "", "", ""),
        record("b", "3", "", "", ""),
        record("a", "4", "", "", ""),
        record("", "5", "", "", ""),
    ];
    let sorted = sort_records(&v);
    assert_eq!(names_of(&sorted), vec!["", "a", "a", "b", "b"]);
    let texts: Vec<String> =
        sorted.iter().map(|p| format!("{}{}", p.name, p.version)).collect();
    assert_eq!(in_some_order(texts), vec!["5", "a2", "a4", "b1", "b3"]);
    assert!(sort_records(&Vec::new()).is_empty());
}

#[test]
fn padding_fills_short_text_from_the_left() {
    assert_eq!(FIXED_LENGTH, 20);
    assert_eq!(padding_string("numpy"), "               numpy");
    assert_eq!(padding_string(""), "                    ");
    assert_eq!(padding_string("1234567890123456789"), " 1234567890123456789");
}

#[test]
fn padding_cuts_long_text_without_a_mark() {
    assert_eq!(padding_string("12345678901234567890"), "12345678901234567890");
    assert_eq!(padding_string("12345678901234567890abc"), "12345678901234567890");
}

#[test]
fn padding_counts_characters() {
    assert_eq!(padding_string("héllo").chars().count(), 20);
    assert_eq!(padding_string("héllo"), "               héllo");
    assert_eq!(padding_string("ééééééééééééééééééééé"), "éééééééééééééééééééé");
}

#[test]
fn header_names_the_six_columns() {
    assert_eq!(
        header_row(),
        format!(
            "{:>20}{:>20}{:>20}{:>20}{:>20}{:>20}",
            "Name", "Version", "Build", "Channel", "First env", "Second env"
        )
    );
}

#[test]
fn columns_place_the_environment_by_side() {
    let p = record("numpy", "1.2.0", "build0", "pypi", "envA");
    assert_eq!(
        format_output(&p, true),
        format!(
            "{:>20}{:>20}{:>20}{:>20}{:>20}{:>20}",
            "numpy", "1.2.0", "build0", "pypi", "envA", ""
        )
    );
    assert_eq!(
        format_output(&p, false),
        format!(
            "{:>20}{:>20}{:>20}{:>20}{:>20}{:>20}",
            "numpy", "1.2.0", "build0", "pypi", "", "envA"
        )
    );
    assert_eq!(format_output(&p, true).chars().count(), 120);
}

#[test]
fn column_report_has_header_and_rows_by_tag() {
    let lines = diff(
        &first_env(),
        &second_env(),
        "envA",
        "envB",
        &options(None, Mode::Both, true),
    );
    assert_eq!(lines.len(), 4);
    assert_eq!(lines[0], header_row());
    assert_eq!(
        in_some_order(lines[1..3].to_vec()),
        vec![
            format!(
                "{:>20}{:>20}{:>20}{:>20}{:>20}{:>20}",
                "numpy", "1.2.0", "build0", "", "envA", ""
            ),
            format!(
                "{:>20}{:>20}{:>20}{:>20}{:>20}{:>20}",
                "numpy", "1.3.0", "build0", "", "", "envB"
            ),
        ]
    );
    assert_eq!(
        lines[3],
        format!(
            "{:>20}{:>20}{:>20}{:>20}{:>20}{:>20}",
            "scipy", "1.8.0", "build1", "conda-forge", "envA", ""
        )
    );
}

#[test]
fn swapping_the_sets_swaps_the_columns() {
    let lines = diff(
        &second_env(),
        &first_env(),
        "envB",
        "envA",
        &options(None, Mode::Both, true),
    );
    assert_eq!(lines.len(), 4);
    assert_eq!(
        in_some_order(lines[1..3].to_vec()),
        vec![
            format!(
                "{:>20}{:>20}{:>20}{:>20}{:>20}{:>20}",
                "numpy", "1.2.0", "build0", "", "", "envA"
            ),
            format!(
                "{:>20}{:>20}{:>20}{:>20}{:>20}{:>20}",
                "numpy", "1.3.0", "build0", "", "envB", ""
            ),
        ]
    );
}

#[test]
fn column_is_decided_by_the_record_tag() {
    let p = record("numpy", "1", "b", "", "elsewhere");
    let o = options(None, Mode::Both, true);
    assert_eq!(render_record(&p, "envA", &o), format_output(&p, false));
    assert_eq!(render_record(&p, "elsewhere", &o), format_output(&p, true));
    let free = options(None, Mode::Both, false);
    assert_eq!(render_record(&p, "elsewhere", &free), p.to_text());
}

#[test]
fn header_stands_even_when_the_filter_leaves_no_row() {
    let found = vec![record("numpy", "1", "b", "", "envA")];
    let lines = render(&found, "envA", &options(Some("pypi"), Mode::Both, true));
    assert_eq!(lines, vec![header_row()]);
    let lines = render(&found, "envA", &options(Some("pypi"), Mode::Both, false));
    assert!(lines.is_empty());
}

#[test]
fn filter_passes_exactly_its_channel() {
    let o = options(Some("pypi"), Mode::Both, false);
    assert!(o.admits(&record("a", "1", "b", "pypi", "e")));
    assert!(!o.admits(&record("a", "1", "b", "", "e")));
    assert!(!o.admits(&record("a", "1", "b", "PyPI", "e")));
    let all = options(None, Mode::Both, false);
    assert!(all.admits(&record("a", "1", "b", "", "e")));
    assert!(all.admits(&record("a", "1", "b", "anything", "e")));
}

#[test]
fn flags_choose_the_options() {
    let o = DiffOptions::from_flags(false, false, false, false);
    assert_eq!(o.channel_filter, None);
    assert_eq!(o.mode, Mode::Both);
    assert!(!o.column_format);
    let o = DiffOptions::from_flags(true, true, true, true);
    assert_eq!(o.channel_filter, Some("pypi".to_string()));
    assert_eq!(o.mode, Mode::FirstOnly);
    assert!(o.column_format);
    let o = DiffOptions::from_flags(false, false, true, false);
    assert_eq!(o.mode, Mode::SecondOnly);
    assert_eq!(Mode::default(), Mode::Both);
}

#[test]
fn exactly_two_environments_make_a_pair() {
    let two = vec!["envA".to_string(), "envB".to_string()];
    match environment_pair(&two) {
        Ok((a, b)) => {
            assert_eq!(a, "envA");
            assert_eq!(b, "envB");
        }
        Err(e) => panic!("two names are a pair, got {:?}", e),
    }
    for n in vec![0usize, 1, 3, 4] {
        let envs: Vec<String> = (0..n).map(|i| format!("env{}", i)).collect();
        match environment_pair(&envs) {
            Ok(_) => panic!("{} names are no pair", n),
            Err(e) => assert_eq!(e.given, n),
        }
    }
}
