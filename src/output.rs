//! Rendering of a scan result as Markdown or plain text.

use crate::options::text_equals;
use crate::tree::{components, path_components};
use crate::types::{FileEntry, SnapcatResult};
use vstd::prelude::*;

verus! {

/// The formats a result can be rendered in.
#[derive(Debug, Clone, Copy, PartialEq, Eq, Structural)]
pub enum OutputFormat {
    Markdown,
    Text,
    Json,
}

/// The file extension of a format.
pub open spec fn format_extension(f: OutputFormat) -> Seq<char> {
    match f {
        OutputFormat::Markdown => "md"@,
        OutputFormat::Text => "txt"@,
        OutputFormat::Json => "json"@,
    }
}

impl OutputFormat {
    /// The file extension of the format.
    pub fn extension(&self) -> (r: &'static str)
        ensures
            r@ == format_extension(*self),
    {
        match self {
            OutputFormat::Markdown => "md",
            OutputFormat::Text => "txt",
            OutputFormat::Json => "json",
        }
    }
}

/// The code-block language of a file extension; empty when unknown.
pub open spec fn language_of(ext: Seq<char>) -> Seq<char> {
    if ext == "rs"@ {
        "rust"@
    } else if ext == "toml"@ {
        "toml"@
    } else if ext == "json"@ {
        "json"@
    } else if ext == "md"@ || ext == "markdown"@ {
        "markdown"@
    } else if ext == "txt"@ {
        "text"@
    } else if ext == "html"@ || ext == "htm"@ {
        "html"@
    } else if ext == "css"@ {
        "css"@
    } else if ext == "js"@ {
        "javascript"@
    } else if ext == "py"@ {
        "python"@
    } else if ext == "sh"@ || ext == "bash"@ {
        "bash"@
    } else if ext == "yml"@ || ext == "yaml"@ {
        "yaml"@
    } else if ext == "xml"@ {
        "xml"@
    } else if ext == "c"@ || ext == "h"@ {
        "c"@
    } else if ext == "cpp"@ || ext == "cc"@ || ext == "cxx"@ || ext == "hpp"@ {
        "cpp"@
    } else if ext == "go"@ {
        "go"@
    } else if ext == "rb"@ {
        "ruby"@
    } else if ext == "php"@ {
        "php"@
    } else if ext == "swift"@ {
        "swift"@
    } else if ext == "kt"@ || ext == "kts"@ {
        "kotlin"@
    } else if ext == "scala"@ {
        "scala"@
    } else if ext == "dart"@ {
        "dart"@
    } else {
        ""@
    }
}

/// The code-block language of a file extension; empty when unknown.
pub fn language_from_extension(ext: &str) -> (r: &'static str)
    ensures
        r@ == language_of(ext@),
{
    if text_equals(ext, "rs") {
        "rust"
    } else if text_equals(ext, "toml") {
        "toml"
    } else if text_equals(ext, "json") {
        "json"
    } else if text_equals(ext, "md") || text_equals(ext, "markdown") {
        "markdown"
    } else if text_equals(ext, "txt") {
        "text"
    } else if text_equals(ext, "html") || text_equals(ext, "htm") {
        "html"
    } else if text_equals(ext, "css") {
        "css"
    } else if text_equals(ext, "js") {
        "javascript"
    } else if text_equals(ext, "py") {
        "python"
    } else if text_equals(ext, "sh") || text_equals(ext, "bash") {
        "bash"
    } else if text_equals(ext, "yml") || text_equals(ext, "yaml") {
        "yaml"
    } else if text_equals(ext, "xml") {
        "xml"
    } else if text_equals(ext, "c") || text_equals(ext, "h") {
        "c"
    } else if text_equals(ext, "cpp") || text_equals(ext, "cc") || text_equals(ext, "cxx") || text_equals(
        ext,
        "hpp",
    ) {
        "cpp"
    } else if text_equals(ext, "go") {
        "go"
    } else if text_equals(ext, "rb") {
        "ruby"
    } else if text_equals(ext, "php") {
        "php"
    } else if text_equals(ext, "swift") {
        "swift"
    } else if text_equals(ext, "kt") || text_equals(ext, "kts") {
        "kotlin"
    } else if text_equals(ext, "scala") {
        "scala"
    } else if text_equals(ext, "dart") {
        "dart"
    } else {
        ""
    }
}

/// The position of the last `.` in `name` before `end`, if any.
pub open spec fn last_dot_before(name: Seq<char>, end: int) -> Option<int>
    decreases end,
{
    if end <= 0 {
        None
    } else if name[end - 1] == '.' {
        Some(end - 1)
    } else {
        last_dot_before(name, end - 1)
    }
}

/// The extension of a file name: what follows its last `.`, unless that
/// `.` is the name's first character; empty when there is none.
pub open spec fn name_extension(name: Seq<char>) -> Seq<char> {
    match last_dot_before(name, name.len() as int) {
        Some(i) => if i == 0 {
            seq![]
        } else {
            name.skip(i + 1)
        },
        None => seq![],
    }
}

/// The extension of a path's last component; empty when it has none.
pub open spec fn path_extension(path: Seq<char>) -> Seq<char> {
    let cs = path_components(path);
    if cs.len() == 0 {
        seq![]
    } else {
        name_extension(cs.last())
    }
}

/// The extension of the path's last component.
fn extension_of(path: &str) -> (r: String)
    ensures
        r@ == path_extension(path@),
{
    let cs = components(path);
    if cs.len() == 0 {
        return String::new();
    }
    let name = cs[cs.len() - 1].as_str();
    let ghost nv = name@;
    assert(nv == path_components(path@).last());
    let n = name.unicode_len();
    let mut end: usize = n;
    while end > 0 && name.get_char(end - 1) != '.'
        invariant
            end <= n,
            n == nv.len(),
            nv == name@,
            last_dot_before(nv, n as int) == last_dot_before(nv, end as int),
        decreases end,
    {
        end = end - 1;
    }
    if end <= 1 {
        String::new()
    } else {
        String::from_str(name.substring_char(end, n))
    }
}

/// Whether a text ends with a line break.
pub open spec fn ends_with_newline(s: Seq<char>) -> bool {
    s.len() > 0 && s.last() == '\n'
}

/// A line break unless `s` already ends with one.
pub open spec fn closing_newline(s: Seq<char>) -> Seq<char> {
    if ends_with_newline(s) {
        seq![]
    } else {
        "\n"@
    }
}

/// A fenced code block holding `content`, tagged with `lang`.
pub open spec fn code_block_text(content: Seq<char>, lang: Seq<char>) -> Seq<char> {
    "```"@ + lang + "\n"@ + content + closing_newline(content) + "```\n"@
}

/// Whether `s` ends with a line break.
fn ends_with_nl(s: &str) -> (r: bool)
    ensures
        r == ends_with_newline(s@),
{
    let n = s.unicode_len();
    n > 0 && s.get_char(n - 1) == '\n'
}

/// Wraps `content` in a fenced code block tagged with `lang`.
pub fn code_block(content: &str, lang: &str) -> (r: String)
    ensures
        r@ == code_block_text(content@, lang@),
{
    let mut s = String::from_str("```");
    s.append(lang);
    s.append("\n");
    s.append(content);
    if !ends_with_nl(content) {
        s.append("\n");
    }
    s.append("```\n");
    s
}

/// The Markdown sections of `files`: a heading with the path, then the
/// content in a code block tagged by the path's extension.
pub open spec fn markdown_files(files: Seq<FileEntry>) -> Seq<char>
    decreases files.len(),
{
    if files.len() == 0 {
        seq![]
    } else {
        let f = files.last();
        markdown_files(files.drop_last()) + "## "@ + f.path@ + "\n\n"@ + code_block_text(
            f.content@,
            language_of(path_extension(f.path@)),
        )
    }
}

/// The Markdown rendering of a result: the tree in a code block, then one
/// section per file.
pub open spec fn markdown_text(tree: Seq<char>, files: Seq<FileEntry>) -> Seq<char> {
    code_block_text(tree, ""@) + markdown_files(files)
}

/// Renders a result as Markdown.
pub fn format_markdown(result: &SnapcatResult) -> (r: String)
    ensures
        r@ == markdown_text(result.tree@, result.files@),
{
    let mut out = code_block(result.tree.as_str(), "");
    let ghost fs = result.files@;
    let mut i: usize = 0;
    while i < result.files.len()
        invariant
            i <= fs.len(),
            fs == result.files@,
            out@ == code_block_text(result.tree@, ""@) + markdown_files(fs.take(i as int)),
        decreases fs.len() - i,
    {
        let file = &result.files[i];
        assert(fs.take(i + 1).drop_last() =~= fs.take(i as int));
        out.append("## ");
        out.append(file.path.as_str());
        out.append("\n\n");
        let ext = extension_of(file.path.as_str());
        let block = code_block(file.content.as_str(), language_from_extension(ext.as_str()));
        out.append(block.as_str());
        assert(out@ =~= code_block_text(result.tree@, ""@) + markdown_files(fs.take(i + 1)));
        i = i + 1;
    }
    assert(fs.take(fs.len() as int) =~= fs);
    out
}

/// The plain-text sections of `files`: a separator line with the path, then
/// the content.
pub open spec fn text_files(files: Seq<FileEntry>) -> Seq<char>
    decreases files.len(),
{
    if files.len() == 0 {
        seq![]
    } else {
        let f = files.last();
        text_files(files.drop_last()) + "\n--- "@ + f.path@ + " ---\n"@ + f.content@
            + closing_newline(f.content@)
    }
}

/// The plain-text rendering of a result: the tree, then one section per file.
pub open spec fn plain_text(tree: Seq<char>, files: Seq<FileEntry>) -> Seq<char> {
    "Directory Tree:\n"@ + tree + closing_newline(tree) + "\n\nFiles:\n"@ + text_files(files)
}

/// Renders a result as plain text.
pub fn format_text(result: &SnapcatResult) -> (r: String)
    ensures
        r@ == plain_text(result.tree@, result.files@),
{
    let mut out = String::from_str("Directory Tree:\n");
    out.append(result.tree.as_str());
    if !ends_with_nl(result.tree.as_str()) {
        out.append("\n");
    }
    out.append("\n\nFiles:\n");
    let ghost fs = result.files@;
    let ghost head = out@;
    assert(fs.take(0) =~= seq![]);
    let mut i: usize = 0;
    while i < result.files.len()
        invariant
            i <= fs.len(),
            fs == result.files@,
            head == "Directory Tree:\n"@ + result.tree@ + closing_newline(result.tree@)
                + "\n\nFiles:\n"@,
            out@ == head + text_files(fs.take(i as int)),
        decreases fs.len() - i,
    {
        let file = &result.files[i];
        assert(fs.take(i + 1).drop_last() =~= fs.take(i as int));
        out.append("\n--- ");
        out.append(file.path.as_str());
        out.append(" ---\n");
        out.append(file.content.as_str());
        if !ends_with_nl(file.content.as_str()) {
            out.append("\n");
        }
        assert(out@ =~= head + text_files(fs.take(i + 1)));
        i = i + 1;
    }
    assert(fs.take(fs.len() as int) =~= fs);
    out
}

/// Renders a result in `format`. JSON text comes from serialisation, which
/// is done outside this library; it is handed in as `json` and returned as
/// it is.
pub fn format_result(result: &SnapcatResult, format: OutputFormat, json: &str) -> (r: String)
    ensures
        format == OutputFormat::Markdown ==> r@ == markdown_text(result.tree@, result.files@),
        format == OutputFormat::Text ==> r@ == plain_text(result.tree@, result.files@),
        format == OutputFormat::Json ==> r@ == json@,
{
    match format {
        OutputFormat::Markdown => format_markdown(result),
        OutputFormat::Text => format_text(result),
        OutputFormat::Json => String::from_str(json),
    }
}

} // verus!
