use tools_core::listing::{
    get_package_info_by_env_name, is_comment_line, LineEnding, PackageSet,
};
use tools_core::package::PackageInfo;

fn record(name: &str, version: &str, build: &str, channel: &str, env: &str) -> PackageInfo {
    PackageInfo {
        name: name.to_string(),
        version: version.to_string(),
        build: build.to_string(),
        channel: channel.to_string(),
        env_name: env.to_string(),
    }
}

fn names(set: &PackageSet) -> Vec<String> {
    let mut out = Vec::new();
    let mut i = 0;
    while let Some(p) = set.get(i) {
        out.push(format!("{} {}", p.name, p.version));
        i += 1;
    }
    out
}

#[test]
fn empty_set_holds_nothing() {
    let set = PackageSet::new();
    assert_eq!(set.len(), 0);
    assert!(set.is_empty());
    assert!(set.get(0).is_none());
    assert!(!set.contains(&record("a", "1", "b", "", "e")));
}

#[test]
fn insert_keeps_one_record_of_each_package() {
    let mut set = PackageSet::new();
    assert!(set.insert(record("numpy", "1.2.0", "build0", "", "envA")));
    assert!(!set.insert(record("numpy", "1.2.0", "build0", "", "envB")));
    assert!(set.insert(record("numpy", "1.3.0", "build0", "", "envA")));
    assert_eq!(set.len(), 2);
    assert!(!set.is_empty());
    match set.get(0) {
        Some(p) => assert_eq!(p.env_name, "envA"),
        None => panic!("the first record is missing"),
    }
    assert!(set.get(2).is_none());
}

#[test]
fn contains_ignores_the_environment() {
    let mut set = PackageSet::new();
    set.insert(record("numpy", "1.2.0", "build0", "", "envA"));
    assert!(set.contains(&record("numpy", "1.2.0", "build0", "", "other")));
    assert!(!set.contains(&record("numpy", "1.2.0", "build0", "pypi", "envA")));
}

#[test]
fn comment_lines_begin_with_a_hash() {
    assert!(is_comment_line("# comment"));
    assert!(is_comment_line("#"));
    assert!(!is_comment_line(" # indented"));
    assert!(!is_comment_line(""));
    assert!(!is_comment_line("numpy # 1"));
}

#[test]
fn listing_skips_comments_and_lines_that_do_not_parse() {
    let output = "# packages in environment at /opt/conda:\n#\n# Name  Version  Build  Channel\nnumpy 1.2.0 build0\n\nbroken line\nscipy   1.8.0   build1   conda-forge\n# a b c\n";
    let set = get_package_info_by_env_name("envA".to_string(), output, LineEnding::Lf);
    assert_eq!(names(&set), vec!["numpy 1.2.0", "scipy 1.8.0"]);
    match set.get(1) {
        Some(p) => {
            assert_eq!(p.channel, "conda-forge");
            assert_eq!(p.env_name, "envA");
        }
        None => panic!("scipy is missing"),
    }
}

#[test]
fn listing_collapses_repeated_lines() {
    let output = "numpy 1.2.0 build0\nnumpy  1.2.0  build0\nnumpy 1.2.0 build0 pypi";
    let set = get_package_info_by_env_name("e".to_string(), output, LineEnding::Lf);
    assert_eq!(set.len(), 2);
}

#[test]
fn listing_splits_on_the_given_line_ending() {
    let output = "numpy 1.2.0 build0\r\nscipy 1.8.0 build1\r\n";
    let crlf = get_package_info_by_env_name("e".to_string(), output, LineEnding::CrLf);
    assert_eq!(names(&crlf), vec!["numpy 1.2.0", "scipy 1.8.0"]);
    match crlf.get(0) {
        Some(p) => assert_eq!(p.build, "build0"),
        None => panic!("numpy is missing"),
    }
    let lf = get_package_info_by_env_name("e".to_string(), output, LineEnding::Lf);
    match lf.get(0) {
        Some(p) => assert_eq!(p.build, "build0\r"),
        None => panic!("numpy is missing"),
    }
}

#[test]
fn line_endings_have_their_text() {
    assert_eq!(LineEnding::Lf.as_str(), "\n");
    assert_eq!(LineEnding::CrLf.as_str(), "\r\n");
}

#[test]
fn empty_listing_gives_the_empty_set() {
    let set = get_package_info_by_env_name("e".to_string(), "", LineEnding::Lf);
    assert!(set.is_empty());
}
