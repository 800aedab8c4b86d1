//! Configuration of a scan.

use vstd::prelude::*;

verus! {

/// How a file is classified binary.
#[derive(Debug, Clone, Copy, PartialEq, Eq, Structural)]
pub enum BinaryDetection {
    /// Binary if the probe window holds a zero byte.
    Simple,
    /// Binary if a general text/binary classifier judges the probe window non-text.
    Accurate,
    /// Every file is text.
    Disabled,
}

/// The strategy a name selects: `simple`, `accurate` or `none`.
pub open spec fn detection_named(name: Seq<char>) -> Option<BinaryDetection> {
    if name == "simple"@ {
        Some(BinaryDetection::Simple)
    } else if name == "accurate"@ {
        Some(BinaryDetection::Accurate)
    } else if name == "none"@ {
        Some(BinaryDetection::Disabled)
    } else {
        None
    }
}

/// Whether two texts are equal.
pub(crate) fn text_equals(a: &str, b: &str) -> (r: bool)
    ensures
        r == (a@ == b@),
{
    let n = a.unicode_len();
    if n != b.unicode_len() {
        return false;
    }
    let mut i: usize = 0;
    while i < n
        invariant
            n == a@.len(),
            n == b@.len(),
            i <= n,
            forall|k: int| 0 <= k < i ==> a@[k] == b@[k],
        decreases n - i,
    {
        if a.get_char(i) != b.get_char(i) {
            return false;
        }
        i = i + 1;
    }
    assert(a@ =~= b@);
    true
}

/// Parses the name of a binary-detection strategy; an unknown name is
/// refused with a message that quotes it.
pub fn parse_binary_detection(s: &str) -> (r: Result<BinaryDetection, String>)
    ensures
        r is Ok <==> detection_named(s@) is Some,
        r matches Ok(d) ==> detection_named(s@) == Some(d),
        r matches Err(msg) ==> msg@ == "invalid binary detection method: "@ + s@,
{
    if text_equals(s, "simple") {
        Ok(BinaryDetection::Simple)
    } else if text_equals(s, "accurate") {
        Ok(BinaryDetection::Accurate)
    } else if text_equals(s, "none") {
        Ok(BinaryDetection::Disabled)
    } else {
        let mut msg = String::from_str("invalid binary detection method: ");
        msg.append(s);
        Err(msg)
    }
}

/// Configuration of one scan; it is not changed while the scan runs.
#[derive(Debug, Clone)]
pub struct SnapcatOptions {
    /// The directory the walk starts from.
    pub root: String,
    /// Whether ignore files (such as `.gitignore`) are honoured.
    pub respect_gitignore: bool,
    /// The deepest level walked; `None` for no limit.
    pub max_depth: Option<usize>,
    /// Whether dot-prefixed entries are kept.
    pub include_hidden: bool,
    /// Whether symbolic links are followed.
    pub follow_links: bool,
    /// Glob patterns; a path matching any of them is excluded.
    pub ignore_patterns: Vec<String>,
    /// Files larger than this many bytes get a placeholder instead of content.
    pub file_size_limit: Option<u64>,
    /// How binary files are recognised.
    pub binary_detection: BinaryDetection,
    /// Whether each entry records the file's size.
    pub include_file_size: bool,
}

impl SnapcatOptions {
    /// The default settings, for the given root.
    pub open spec fn defaults_with_root(self, root: Seq<char>) -> bool {
        &&& self.root@ == root
        &&& self.respect_gitignore
        &&& self.max_depth is None
        &&& !self.include_hidden
        &&& !self.follow_links
        &&& self.ignore_patterns@.len() == 0
        &&& self.file_size_limit is None
        &&& self.binary_detection == BinaryDetection::Simple
        &&& !self.include_file_size
    }

    /// The default settings for `root`: ignore files honoured, hidden entries
    /// and links skipped, no depth or size limit, no exclusion globs, null-byte
    /// detection, no sizes.
    pub fn with_root(root: String) -> (r: SnapcatOptions)
        ensures
            r.defaults_with_root(root@),
    {
        SnapcatOptions {
            root,
            respect_gitignore: true,
            max_depth: None,
            include_hidden: false,
            follow_links: false,
            ignore_patterns: Vec::new(),
            file_size_limit: None,
            binary_detection: BinaryDetection::Simple,
            include_file_size: false,
        }
    }
}

impl Default for SnapcatOptions {
    /// The default settings, rooted at the current directory.
    fn default() -> (r: SnapcatOptions)
        ensures
            r.defaults_with_root(seq!['.']),
    {
        let root = String::from_str(".");
        proof {
            reveal_strlit(".");
            assert(root@ =~= seq!['.']);
        }
        SnapcatOptions::with_root(root)
    }
}

/// A fluent builder of [`SnapcatOptions`].
#[derive(Debug)]
pub struct SnapcatBuilder {
    options: SnapcatOptions,
}

impl SnapcatBuilder {
    /// The options built so far.
    pub closed spec fn spec_options(self) -> SnapcatOptions {
        self.options
    }

    /// A builder holding the default settings for `root`.
    pub fn new(root: String) -> (r: SnapcatBuilder)
        ensures
            r.spec_options().defaults_with_root(root@),
    {
        SnapcatBuilder { options: SnapcatOptions::with_root(root) }
    }

    /// Sets whether ignore files are honoured.
    pub fn respect_gitignore(self, yes: bool) -> (r: SnapcatBuilder)
        ensures
            r.spec_options() == (SnapcatOptions { respect_gitignore: yes, ..self.spec_options() }),
    {
        let mut b = self;
        b.options.respect_gitignore = yes;
        b
    }

    /// Limits the walk to `depth` levels.
    pub fn max_depth(self, depth: usize) -> (r: SnapcatBuilder)
        ensures
            r.spec_options() == (SnapcatOptions { max_depth: Some(depth), ..self.spec_options() }),
    {
        let mut b = self;
        b.options.max_depth = Some(depth);
        b
    }

    /// Removes the depth limit.
    pub fn no_limit_depth(self) -> (r: SnapcatBuilder)
        ensures
            r.spec_options() == (SnapcatOptions { max_depth: None, ..self.spec_options() }),
    {
        let mut b = self;
        b.options.max_depth = None;
        b
    }

    /// Sets whether hidden entries are kept.
    pub fn include_hidden(self, yes: bool) -> (r: SnapcatBuilder)
        ensures
            r.spec_options() == (SnapcatOptions { include_hidden: yes, ..self.spec_options() }),
    {
        let mut b = self;
        b.options.include_hidden = yes;
        b
    }

    /// Sets whether symbolic links are followed.
    pub fn follow_links(self, yes: bool) -> (r: SnapcatBuilder)
        ensures
            r.spec_options() == (SnapcatOptions { follow_links: yes, ..self.spec_options() }),
    {
        let mut b = self;
        b.options.follow_links = yes;
        b
    }

    /// Sets the exclusion globs, matched against the full path.
    pub fn ignore_patterns(self, patterns: Vec<String>) -> (r: SnapcatBuilder)
        ensures
            r.spec_options() == (SnapcatOptions { ignore_patterns: patterns, ..self.spec_options() }),
    {
        let mut b = self;
        b.options.ignore_patterns = patterns;
        b
    }

    /// Sets the size ceiling in bytes.
    pub fn file_size_limit(self, limit: Option<u64>) -> (r: SnapcatBuilder)
        ensures
            r.spec_options() == (SnapcatOptions { file_size_limit: limit, ..self.spec_options() }),
    {
        let mut b = self;
        b.options.file_size_limit = limit;
        b
    }

    /// Sets the binary-detection strategy.
    pub fn binary_detection(self, method: BinaryDetection) -> (r: SnapcatBuilder)
        ensures
            r.spec_options() == (SnapcatOptions { binary_detection: method, ..self.spec_options() }),
    {
        let mut b = self;
        b.options.binary_detection = method;
        b
    }

    /// Sets whether entries record file sizes.
    pub fn include_file_size(self, yes: bool) -> (r: SnapcatBuilder)
        ensures
            r.spec_options() == (SnapcatOptions { include_file_size: yes, ..self.spec_options() }),
    {
        let mut b = self;
        b.options.include_file_size = yes;
        b
    }

    /// The options built.
    pub fn build(self) -> (r: SnapcatOptions)
        ensures
            r == self.spec_options(),
    {
        self.options
    }
}

} // verus!
