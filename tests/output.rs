use snapcat::output::{code_block, format_result, language_from_extension, OutputFormat};
use snapcat::{parse_binary_detection, BinaryDetection, FileEntry, SnapcatResult};

fn sample() -> SnapcatResult {
    SnapcatResult {
        tree: ".  # r\n├── a.rs".to_string(),
        files: vec![
            FileEntry { path: "r/a.rs".into(), content: "fn a() {}\n".into(), is_binary: false, size: None },
            FileEntry { path: "r/.env".into(), content: "K=V".into(), is_binary: false, size: None },
        ],
    }
}

#[test]
fn extensions_of_formats() {
    assert_eq!(OutputFormat::Markdown.extension(), "md");
    assert_eq!(OutputFormat::Text.extension(), "txt");
    assert_eq!(OutputFormat::Json.extension(), "json");
}

#[test]
fn languages_of_extensions() {
    assert_eq!(language_from_extension("rs"), "rust");
    assert_eq!(language_from_extension("htm"), "html");
    assert_eq!(language_from_extension("hpp"), "cpp");
    assert_eq!(language_from_extension("h"), "c");
    assert_eq!(language_from_extension("kts"), "kotlin");
    assert_eq!(language_from_extension("zzz"), "");
    assert_eq!(language_from_extension(""), "");
}

#[test]
fn code_block_closes_line() {
    assert_eq!(code_block("x", "rust"), "```rust\nx\n```\n");
    assert_eq!(code_block("x\n", ""), "```\nx\n```\n");
}

#[test]
fn markdown_rendering() {
    let out = format_result(&sample(), OutputFormat::Markdown, "");
    assert_eq!(
        out,
        "```\n.  # r\n├── a.rs\n```\n## r/a.rs\n\n```rust\nfn a() {}\n```\n## r/.env\n\n```\nK=V\n```\n"
    );
}

#[test]
fn text_rendering() {
    let out = format_result(&sample(), OutputFormat::Text, "");
    assert_eq!(
        out,
        "Directory Tree:\n.  # r\n├── a.rs\n\n\nFiles:\n\n--- r/a.rs ---\nfn a() {}\n\n--- r/.env ---\nK=V\n"
    );
}

#[test]
fn json_is_passed_through() {
    assert_eq!(format_result(&sample(), OutputFormat::Json, "{}"), "{}");
}

#[test]
fn detection_names() {
    assert_eq!(parse_binary_detection("simple"), Ok(BinaryDetection::Simple));
    assert_eq!(parse_binary_detection("accurate"), Ok(BinaryDetection::Accurate));
    assert_eq!(parse_binary_detection("none"), Ok(BinaryDetection::Disabled));
    assert_eq!(
        parse_binary_detection("fast"),
        Err("invalid binary detection method: fast".to_string())
    );
}
