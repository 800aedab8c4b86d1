use snapcat::content::{is_binary, oversize_content, probe_content, text_content, PROBE_WINDOW};
use snapcat::{
    build_tree_from_entries, finish_scan, plan_scan, BinaryDetection, FileEntry, FileRead,
    ReadAction, ReadEvent, SnapcatBuilder, SnapcatError, SnapcatOptions, SnapcatStream,
    StreamStep, WalkedPath, Walker,
};

fn walked(path: &str, is_file: bool) -> Result<WalkedPath, SnapcatError> {
    Ok(WalkedPath { path: path.to_string(), is_file })
}

/// Reads a file held in memory by answering each step of a [`FileRead`].
fn read_in_memory(path: &str, bytes: &[u8], options: &SnapcatOptions) -> FileEntry {
    let (mut state, mut action) = FileRead::start(path.to_string(), options);
    let probe_len = bytes.len().min(PROBE_WINDOW);
    loop {
        let event = match action {
            ReadAction::ReadLength => ReadEvent::Length(bytes.len() as u64),
            ReadAction::ReadProbe => ReadEvent::Probe(bytes[..probe_len].to_vec()),
            ReadAction::ReadRest => {
                ReadEvent::Rest(std::str::from_utf8(&bytes[probe_len..]).unwrap().to_string())
            }
            ReadAction::ReadSize => ReadEvent::Size(bytes.len() as u64),
            ReadAction::Finished(entry) => return entry,
        };
        action = state.step(event);
    }
}

fn scan_in_memory(
    options: &SnapcatOptions,
    items: Vec<Result<WalkedPath, SnapcatError>>,
    files: &[(&str, &[u8])],
) -> snapcat::SnapcatResult {
    let walker = Walker::new(options).unwrap();
    let entries = walker.collect_entries(items).unwrap();
    let plan = plan_scan(options, &entries);
    let outcomes = plan
        .file_paths
        .iter()
        .map(|p| {
            let bytes = files.iter().find(|(n, _)| n == p).unwrap().1;
            Ok(read_in_memory(p, bytes, options))
        })
        .collect();
    finish_scan(plan.tree, outcomes).unwrap()
}

#[test]
fn integration_full_flow() {
    let options = SnapcatBuilder::new("/t".to_string()).include_file_size(true).build();
    let items = vec![
        walked("/t", false),
        walked("/t/main.rs", true),
        walked("/t/src", false),
        walked("/t/src/lib.rs", true),
    ];
    let files: [(&str, &[u8]); 2] =
        [("/t/main.rs", b"fn main() {}"), ("/t/src/lib.rs", b"pub fn test() {}")];
    let result = scan_in_memory(&options, items, &files);
    assert!(result.tree.contains("main.rs"));
    assert_eq!(result.files.len(), 2);
    for file in result.files {
        assert!(file.size.is_some());
    }
}

#[test]
fn test_basic_scan() {
    let options = SnapcatBuilder::new("/t".to_string())
        .binary_detection(BinaryDetection::Disabled)
        .build();
    let items = vec![walked("/t", false), walked("/t/hello.txt", true)];
    let files: [(&str, &[u8]); 1] = [("/t/hello.txt", b"hello world")];
    let result = scan_in_memory(&options, items, &files);
    assert_eq!(result.files.len(), 1);
    assert_eq!(result.files[0].content, "hello world");
}

#[test]
fn test_ignore_patterns() {
    let options = SnapcatBuilder::new("/t".to_string())
        .ignore_patterns(vec!["*.log".into()])
        .build();
    let items = vec![walked("/t", false), walked("/t/a.txt", true), walked("/t/b.log", true)];
    let files: [(&str, &[u8]); 2] = [("/t/a.txt", b"a"), ("/t/b.log", b"b")];
    let result = scan_in_memory(&options, items, &files);
    assert_eq!(result.files.len(), 1);
    assert!(result.files[0].path.ends_with("a.txt"));
    assert!(!result.tree.contains("b.log"));
}

#[test]
fn test_file_size_limit() {
    let options = SnapcatBuilder::new("/t".to_string()).file_size_limit(Some(100)).build();
    let big = "A".repeat(5000);
    let items = vec![walked("/t", false), walked("/t/big.txt", true)];
    let files: [(&str, &[u8]); 1] = [("/t/big.txt", big.as_bytes())];
    let result = scan_in_memory(&options, items, &files);
    assert!(result.files[0].content.contains("File too large"));
    assert!(!result.files[0].is_binary);
}

#[test]
fn test_binary_detection_simple() {
    let options = SnapcatBuilder::new("/t".to_string())
        .binary_detection(BinaryDetection::Simple)
        .build();
    let items = vec![walked("/t", false), walked("/t/bin.dat", true)];
    let files: [(&str, &[u8]); 1] = [("/t/bin.dat", &[0, 1, 2, 3])];
    let result = scan_in_memory(&options, items, &files);
    assert!(result.files[0].is_binary);
    assert_eq!(result.files[0].content, "[Binary file, content omitted]");
}

#[test]
fn tree_exact_rendering() {
    let entries: Vec<String> = ["/r", "/r/b.txt", "/r/a", "/r/a/c.txt"]
        .iter()
        .map(|s| s.to_string())
        .collect();
    let tree = build_tree_from_entries("/r", &entries);
    assert_eq!(tree, ".  # /r\n├── a\n│   ├── c.txt\n├── b.txt");
}

#[test]
fn tree_of_empty_root_is_header_only() {
    let entries = vec!["/r".to_string()];
    assert_eq!(build_tree_from_entries("/r", &entries), ".  # /r");
    assert_eq!(build_tree_from_entries("/r", &[]), ".  # /r");
}

#[test]
fn tree_sorts_by_components_not_text() {
    // As text "a-b" < "a/b", but component-wise "a" < "a-b".
    let entries: Vec<String> = ["r/a-b", "r/a", "r/a/b"].iter().map(|s| s.to_string()).collect();
    let tree = build_tree_from_entries("r", &entries);
    assert_eq!(tree, ".  # r\n├── a\n│   ├── b\n├── a-b");
}

#[test]
fn tree_ignores_redundant_separators() {
    let entries: Vec<String> = ["./x/", "./x//y", "."].iter().map(|s| s.to_string()).collect();
    let tree = build_tree_from_entries(".", &entries);
    assert_eq!(tree, ".  # .\n├── x\n│   ├── y");
}

#[test]
fn tree_same_for_any_walk_order() {
    let a: Vec<String> = ["/r/z", "/r/m", "/r/m/q"].iter().map(|s| s.to_string()).collect();
    let b: Vec<String> = ["/r/m/q", "/r/z", "/r/m"].iter().map(|s| s.to_string()).collect();
    assert_eq!(build_tree_from_entries("/r", &a), build_tree_from_entries("/r", &b));
}

#[test]
fn tree_header_single() {
    let entries: Vec<String> = ["/r/x", "/r/y"].iter().map(|s| s.to_string()).collect();
    let tree = build_tree_from_entries("/r", &entries);
    let headers = tree.lines().filter(|l| l.starts_with(".  # ")).count();
    assert_eq!(headers, 1);
    assert!(tree.lines().next().unwrap().contains("/r"));
}

#[test]
fn zero_byte_in_window_is_binary() {
    let mut bytes = vec![b'a'; 5000];
    bytes[4095] = 0;
    assert!(is_binary(&bytes, BinaryDetection::Simple));
    let c = probe_content(&bytes, BinaryDetection::Simple).unwrap();
    assert_eq!(c.0, "[Binary file, content omitted]");
    assert!(c.1);
}

#[test]
fn zero_byte_past_window_is_text() {
    let mut bytes = vec![b'a'; 5000];
    bytes[4096] = 0;
    assert!(!is_binary(&bytes, BinaryDetection::Simple));
    assert!(probe_content(&bytes, BinaryDetection::Simple).is_none());
}

#[test]
fn detection_disabled_is_always_text() {
    assert!(!is_binary(&[0, 0, 0], BinaryDetection::Disabled));
}

#[test]
fn accurate_detection() {
    assert!(is_binary(&[0, 1, 2, 3], BinaryDetection::Accurate));
    assert!(!is_binary(b"plain text", BinaryDetection::Accurate));
    assert!(!is_binary(&[], BinaryDetection::Accurate));
}

#[test]
fn oversize_placeholder() {
    let c = oversize_content(5000, Some(100)).unwrap();
    assert_eq!(c.0, "[File too large, content omitted]");
    assert!(!c.1);
    assert!(oversize_content(100, Some(100)).is_none());
    assert!(oversize_content(u64::MAX, None).is_none());
}

#[test]
fn text_content_decodes_lossily() {
    assert_eq!(text_content(b"ab", "cd"), "abcd");
    assert_eq!(text_content(&[0x66, 0xff, 0x67], ""), "f\u{FFFD}g");
}

#[test]
fn sizes_only_when_requested() {
    let without = SnapcatBuilder::new(".".to_string()).build();
    assert_eq!(read_in_memory("p", b"x", &without).size, None);
    let with = SnapcatBuilder::new(".".to_string()).include_file_size(true).build();
    let e = read_in_memory("p", b"xyz", &with);
    assert_eq!(e.size, Some(3));
    assert_eq!(e.content, "xyz");
}

#[test]
fn read_steps_follow_the_policy() {
    let limited = SnapcatBuilder::new(".".to_string()).file_size_limit(Some(10)).build();
    let (mut state, action) = FileRead::start("f".to_string(), &limited);
    assert!(matches!(action, ReadAction::ReadLength));
    match state.step(ReadEvent::Length(11)) {
        ReadAction::Finished(e) => {
            assert_eq!(e.content, "[File too large, content omitted]");
            assert!(!e.is_binary);
        }
        other => panic!("unexpected: {:?}", other),
    }
    let plain = SnapcatBuilder::new(".".to_string()).build();
    let (mut state, action) = FileRead::start("f".to_string(), &plain);
    assert!(matches!(action, ReadAction::ReadProbe));
    assert!(matches!(state.step(ReadEvent::Probe(b"ab".to_vec())), ReadAction::ReadRest));
    match state.step(ReadEvent::Rest("cd".to_string())) {
        ReadAction::Finished(e) => {
            assert_eq!(e.path, "f");
            assert_eq!(e.content, "abcd");
        }
        other => panic!("unexpected: {:?}", other),
    }
}

#[test]
fn malformed_glob_is_a_walk_error() {
    let options = SnapcatBuilder::new(".".to_string()).ignore_patterns(vec!["a[".into()]).build();
    match Walker::new(&options) {
        Err(SnapcatError::Walk(msg)) => assert!(msg.contains("a[")),
        other => panic!("unexpected: {:?}", other),
    }
}

#[test]
fn glob_matches_full_path() {
    let options = SnapcatBuilder::new(".".to_string())
        .ignore_patterns(vec!["build/*".into()])
        .build();
    let walker = Walker::new(&options).unwrap();
    assert!(!walker.admits("build/out.o"));
    assert!(walker.admits("src/main.rs"));
}

#[test]
fn first_walk_error_aborts_collection() {
    let options = SnapcatBuilder::new(".".to_string()).build();
    let walker = Walker::new(&options).unwrap();
    let items = vec![
        walked("./a", true),
        Err(SnapcatError::Walk("first".to_string())),
        Err(SnapcatError::Walk("second".to_string())),
    ];
    match walker.collect_entries(items) {
        Err(SnapcatError::Walk(msg)) => assert_eq!(msg, "first"),
        other => panic!("unexpected: {:?}", other),
    }
}

#[test]
fn first_read_error_aborts_scan() {
    let ok = FileEntry { path: "a".into(), content: "x".into(), is_binary: false, size: None };
    let outcomes = vec![
        Ok(ok),
        Err(SnapcatError::io("b".into(), "denied".into())),
        Err(SnapcatError::io("c".into(), "denied".into())),
    ];
    match finish_scan("t".to_string(), outcomes) {
        Err(SnapcatError::Io { path, .. }) => assert_eq!(path, "b"),
        other => panic!("unexpected: {:?}", other),
    }
}

#[test]
fn scan_keeps_discovery_order() {
    let mk = |p: &str| FileEntry { path: p.into(), content: String::new(), is_binary: false, size: None };
    let result = finish_scan("t".to_string(), vec![Ok(mk("z")), Ok(mk("a")), Ok(mk("m"))]).unwrap();
    let paths: Vec<&str> = result.files.iter().map(|f| f.path.as_str()).collect();
    assert_eq!(paths, vec!["z", "a", "m"]);
}

#[test]
fn plan_separates_files_from_directories() {
    let options = SnapcatBuilder::new("/t".to_string()).build();
    let entries = vec![
        WalkedPath { path: "/t".into(), is_file: false },
        WalkedPath { path: "/t/d".into(), is_file: false },
        WalkedPath { path: "/t/d/f".into(), is_file: true },
    ];
    let plan = plan_scan(&options, &entries);
    assert_eq!(plan.file_paths, vec!["/t/d/f".to_string()]);
    assert_eq!(plan.tree, ".  # /t\n├── d\n│   ├── f");
}

#[test]
fn stream_routes_items() {
    let options = SnapcatBuilder::new(".".to_string()).ignore_patterns(vec!["*.log".into()]).build();
    let stream = SnapcatStream::new(options).unwrap();
    assert!(matches!(stream.route(walked("./a.txt", true)), StreamStep::Read(p) if p == "./a.txt"));
    assert!(matches!(stream.route(walked("./b.log", true)), StreamStep::Skip));
    assert!(matches!(stream.route(walked("./dir", false)), StreamStep::Skip));
    assert!(matches!(
        stream.route(Err(SnapcatError::Walk("x".into()))),
        StreamStep::Fail(SnapcatError::Walk(_))
    ));
}

#[test]
fn builder_defaults_and_setters() {
    let o = SnapcatBuilder::new("root".to_string()).build();
    assert_eq!(o.root, "root");
    assert!(o.respect_gitignore);
    assert_eq!(o.max_depth, None);
    assert!(!o.include_hidden && !o.follow_links && !o.include_file_size);
    assert!(o.ignore_patterns.is_empty());
    assert_eq!(o.file_size_limit, None);
    assert_eq!(o.binary_detection, BinaryDetection::Simple);
    let o = SnapcatBuilder::new("r".to_string())
        .respect_gitignore(false)
        .max_depth(3)
        .include_hidden(true)
        .follow_links(true)
        .binary_detection(BinaryDetection::Accurate)
        .build();
    assert!(!o.respect_gitignore && o.include_hidden && o.follow_links);
    assert_eq!(o.max_depth, Some(3));
    assert_eq!(o.binary_detection, BinaryDetection::Accurate);
    let o = SnapcatBuilder::new("r".to_string()).max_depth(2).no_limit_depth().build();
    assert_eq!(o.max_depth, None);
    assert_eq!(SnapcatOptions::default().root, ".");
}

#[test]
fn default_scan_of_two_text_files() {
    let options = SnapcatBuilder::new("/t".to_string()).build();
    let items = vec![
        walked("/t", false),
        walked("/t/main.txt", true),
        walked("/t/src", false),
        walked("/t/src/lib.txt", true),
    ];
    let files: [(&str, &[u8]); 2] =
        [("/t/main.txt", b"fn main() {}"), ("/t/src/lib.txt", b"pub fn test() {}")];
    let result = scan_in_memory(&options, items, &files);
    assert_eq!(result.files.len(), 2);
    assert!(result.tree.contains("main.txt"));
    assert_eq!(result.tree, ".  # /t\n├── main.txt\n├── src\n│   ├── lib.txt");
    assert_eq!(result.files[0].content, "fn main() {}");
    assert_eq!(result.files[1].content, "pub fn test() {}");
}

#[test]
fn rerun_gives_identical_result() {
    let options = SnapcatBuilder::new("/t".to_string()).include_file_size(true).build();
    let run = || {
        let items = vec![walked("/t", false), walked("/t/b", true), walked("/t/a", true)];
        let files: [(&str, &[u8]); 2] = [("/t/a", b"1"), ("/t/b", b"\x002")];
        scan_in_memory(&options, items, &files)
    };
    let (first, second) = (run(), run());
    assert_eq!(first.tree, second.tree);
    assert_eq!(first.files.len(), second.files.len());
    for (x, y) in first.files.iter().zip(second.files.iter()) {
        assert_eq!((&x.path, &x.content, x.is_binary, x.size), (&y.path, &y.content, y.is_binary, y.size));
    }
    assert_eq!(first.files[0].path, "/t/b");
    assert!(first.files[0].is_binary);
}

#[test]
fn malformed_glob_message_names_first_bad_pattern() {
    let options = SnapcatBuilder::new(".".to_string())
        .ignore_patterns(vec!["*.rs".into(), "[abc".into(), "b[".into()])
        .build();
    match Walker::new(&options) {
        Err(SnapcatError::Walk(msg)) => assert!(msg.starts_with("Invalid glob pattern '[abc': ")),
        other => panic!("unexpected: {:?}", other),
    }
    assert!(matches!(SnapcatStream::new(options), Err(SnapcatError::Walk(_))));
}

#[test]
fn valid_globs_compile() {
    let options = SnapcatBuilder::new(".".to_string())
        .ignore_patterns(vec!["*.rs".into(), "target/**".into()])
        .build();
    assert!(Walker::new(&options).is_ok());
    assert!(SnapcatStream::new(options).is_ok());
}

#[test]
fn empty_file_under_classifier_is_empty_text() {
    let options = SnapcatBuilder::new(".".to_string())
        .binary_detection(BinaryDetection::Accurate)
        .file_size_limit(Some(0))
        .build();
    let e = read_in_memory("empty", b"", &options);
    assert_eq!(e.content, "");
    assert!(!e.is_binary);
}

#[test]
fn long_ascii_file_with_late_zero_is_text() {
    let mut bytes = vec![b'x'; 5000];
    bytes[4500] = 0;
    let options = SnapcatBuilder::new(".".to_string()).build();
    let e = read_in_memory("long", &bytes, &options);
    assert!(!e.is_binary);
    assert_eq!(e.content.as_bytes(), &bytes[..]);
}

#[test]
fn classifier_rules() {
    assert!(!is_binary(&[0xEF, 0xBB, 0xBF, 0, 0], BinaryDetection::Accurate));
    assert!(is_binary(b"%PDF-1.4", BinaryDetection::Accurate));
    assert!(is_binary(b"\x89PNG\r\n", BinaryDetection::Accurate));
    let mut late = vec![b'a'; 2000];
    late[1500] = 0;
    assert!(!is_binary(&late, BinaryDetection::Accurate));
    assert!(is_binary(&late, BinaryDetection::Simple));
}

#[test]
fn utf8_probe_decodes_to_its_characters() {
    assert_eq!(text_content("héllo".as_bytes(), "!"), "héllo!");
}
