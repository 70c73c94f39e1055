use fbundle::bundle::{Bundler, SourceFile};
use fbundle::pattern::{parse_pattern, Pattern, PatternList};
use fbundle::record::{format_record, make_record, unescape_separator};
use fbundle::select::{decide, decide_from_hits, relative_path, Decision};

fn globs(list: &[&str]) -> Vec<String> {
    list.iter().map(|s| s.to_string()).collect()
}

fn file(path: &str, bytes: &[u8]) -> SourceFile {
    SourceFile { path: path.to_string(), bytes: bytes.to_vec() }
}

fn bundler(list: &[&str], sep: &str) -> Bundler {
    Bundler::new("root", &globs(list), sep).unwrap()
}

#[test]
fn scenario_txt_only() {
    let b = bundler(&["*.txt"], "---");
    let out = b.bundle(&vec![file("root/a.txt", b"hello"), file("root/b.log", b"x")]);
    assert_eq!(out.text, "--- a.txt\nhello\n");
    assert!(out.not_text.is_empty());
}

#[test]
fn scenario_later_exclude_wins() {
    let b = bundler(&["**/*.rs", "!**/*_test.rs"], "//");
    let out = b.bundle(&vec![file("root/src/a.rs", b"fn a() {}"), file("root/src/a_test.rs", b"fn t() {}")]);
    assert_eq!(out.text, "// src/a.rs\nfn a() {}\n");
}

#[test]
fn scenario_escaped_separator() {
    let b = bundler(&["*.txt"], "##\\n");
    assert_eq!(b.separator, "##\n");
    let out = b.bundle(&vec![file("root/a.txt", b"hi")]);
    assert!(out.text.starts_with("##\n"));
    assert_eq!(out.text, "##\n a.txt\nhi\n");
}

#[test]
fn scenario_empty_tree() {
    let b = bundler(&["**/*", "!*.md"], "---");
    let out = b.bundle(&vec![]);
    assert_eq!(out.text, "");
    assert!(out.not_text.is_empty());
}

#[test]
fn invalid_utf8_keeps_record_with_empty_body() {
    let b = bundler(&["*.bin"], "--");
    let out = b.bundle(&vec![file("root/a.bin", &[0xff, 0xfe, 0x41])]);
    assert_eq!(out.text, "-- a.bin\n\n");
    assert_eq!(out.not_text, vec!["a.bin".to_string()]);
}

#[test]
fn unmatched_file_never_bundled() {
    let b = bundler(&["*.md", "!*.txt"], "--");
    let out = b.bundle(&vec![file("root/a.txt", b"a"), file("root/b.rs", b"b")]);
    assert_eq!(out.text, "");
    assert!(b.select("root/b.rs").is_none());
}

#[test]
fn last_matching_pattern_decides() {
    let b = bundler(&["!*.txt", "*.txt"], "--");
    assert_eq!(b.select("root/a.txt"), Some("a.txt".to_string()));
    let b = bundler(&["*.txt", "!a.txt"], "--");
    assert_eq!(b.select("root/a.txt"), None);
    assert_eq!(b.select("root/b.txt"), Some("b.txt".to_string()));
}

#[test]
fn matching_ignores_case_and_reads_braces() {
    let b = bundler(&["*.{TXT,md}"], "--");
    assert_eq!(b.select("root/A.txt"), Some("A.txt".to_string()));
    assert_eq!(b.select("root/n.MD"), Some("n.MD".to_string()));
    assert_eq!(b.select("root/n.rs"), None);
}

#[test]
fn bundle_twice_gives_same_output() {
    let b = bundler(&["**/*.txt"], "==");
    let files = vec![file("root/x/a.txt", b"1"), file("root/b.txt", b"2"), file("root/c.bin", &[0xc3])];
    let first = b.bundle(&files);
    let second = b.bundle(&files);
    assert_eq!(first.text, second.text);
    assert_eq!(first.text, "== x/a.txt\n1\n== b.txt\n2\n");
}

#[test]
fn text_content_kept_verbatim() {
    let b = bundler(&["*.txt"], "@@");
    let content = "h\u{e9}llo\n\\n  world\r\n";
    let out = b.bundle(&vec![file("root/z.log", b"zz"), file("root/u.txt", content.as_bytes())]);
    assert!(out.text.contains(&format!("@@ u.txt\n{}\n", content)));
}

#[test]
fn bad_glob_is_reported_with_its_place() {
    let r = PatternList::compile(&globs(&["*.rs", "!src/[a"]));
    let e = r.unwrap_err();
    assert_eq!(e.index, 1);
    assert_eq!(e.glob, "!src/[a");
    assert!(Bundler::new(".", &globs(&["[z"]), "-").is_err());
    assert!(PatternList::compile(&globs(&["*.rs", "!a/**"])).is_ok());
}

#[test]
fn pattern_marker_is_read() {
    let p = parse_pattern("!**/*_test.rs");
    assert!(p.exclude);
    assert_eq!(p.body, "**/*_test.rs");
    let p = parse_pattern("src/*.rs");
    assert!(!p.exclude);
    assert_eq!(p.body, "src/*.rs");
    let p = parse_pattern("!!a");
    assert!(p.exclude);
    assert_eq!(p.body, "!a");
}

#[test]
fn relative_paths() {
    assert_eq!(relative_path("root", "root/a/b.txt"), "a/b.txt");
    assert_eq!(relative_path("root/", "root/a.txt"), "a.txt");
    assert_eq!(relative_path(".", "./a.txt"), "a.txt");
    assert_eq!(relative_path("root", "rootx/a.txt"), "rootx/a.txt");
    assert_eq!(relative_path("/", "/a.txt"), "a.txt");
    assert_eq!(relative_path("other", "root/a.txt"), "root/a.txt");
}

#[test]
fn separator_escapes() {
    assert_eq!(unescape_separator("a\\nb\\n"), "a\nb\n");
    assert_eq!(unescape_separator("\\x\\"), "\\x\\");
    assert_eq!(unescape_separator(""), "");
}

#[test]
fn records_are_formatted() {
    assert_eq!(format_record("--", "p/q.rs", "body"), "-- p/q.rs\nbody\n");
    let r = make_record("#", "a", b"ok");
    assert!(r.is_text);
    assert_eq!(r.text, "# a\nok\n");
    let r = make_record("#", "a", &[0x80]);
    assert!(!r.is_text);
    assert_eq!(r.text, "# a\n\n");
}

#[test]
fn decision_from_hits() {
    let pats = vec![
        Pattern { exclude: false, body: "*".to_string() },
        Pattern { exclude: true, body: "*.log".to_string() },
    ];
    assert_eq!(decide_from_hits(&pats, &vec![true, true]), Decision::Exclude);
    assert_eq!(decide_from_hits(&pats, &vec![true, false]), Decision::Include);
    assert_eq!(decide_from_hits(&pats, &vec![false, false]), Decision::Exclude);
    let list = PatternList { patterns: pats };
    assert_eq!(decide(&list, "x.log"), Decision::Exclude);
    assert_eq!(decide(&list, "x.txt"), Decision::Include);
    assert_eq!(decide(&PatternList { patterns: vec![] }, "x.txt"), Decision::Exclude);
}

#[test]
fn file_order_changes_only_record_order() {
    let b = bundler(&["*.txt"], "--");
    let a = file("root/a.txt", b"A");
    let c = file("root/c.txt", b"C");
    let skip = file("root/s.log", b"S");
    let one = b.bundle(&vec![a.clone(), skip.clone(), c.clone()]);
    let two = b.bundle(&vec![c, a, skip]);
    assert_eq!(one.text, "-- a.txt\nA\n-- c.txt\nC\n");
    assert_eq!(two.text, "-- c.txt\nC\n-- a.txt\nA\n");
}
