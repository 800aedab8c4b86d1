//! The scan engine: which walked paths survive, what an eager scan is made
//! of, and how a stream routes each walked item.
//!
//! Reading the disk is the caller's part. The caller walks the tree under the
//! walk settings of [`SnapcatOptions`], hands every walked item to
//! [`Walker::collect_entries`] (eager) or [`SnapcatStream::route`]
//! (streaming), reads each file through the steps of
//! [`content`](crate::content), and hands the per-file outcomes back.

use crate::error::SnapcatError;
use crate::options::SnapcatOptions;
use crate::tree::{build_tree_from_entries, tree_text};
use crate::types::{FileEntry, SnapcatResult};
use vstd::prelude::*;

verus! {

#[verifier::external_type_specification]
#[verifier::external_body]
pub struct ExGlob(globset::Glob);

#[verifier::external_type_specification]
#[verifier::external_body]
pub struct ExGlobSet(globset::GlobSet);

#[verifier::external_type_specification]
#[verifier::external_body]
pub struct ExGlobSetBuilder(globset::GlobSetBuilder);

#[verifier::external_type_specification]
#[verifier::external_body]
pub struct ExGlobError(globset::Error);

/// The pattern a compiled glob was parsed from.
pub uninterp spec fn glob_pattern(g: globset::Glob) -> Seq<char>;

/// The patterns a glob-set builder holds, in the order they were added.
pub uninterp spec fn builder_patterns(b: globset::GlobSetBuilder) -> Seq<Seq<char>>;

/// The patterns a glob set was built from.
pub uninterp spec fn set_patterns(s: globset::GlobSet) -> Seq<Seq<char>>;

/// Whether the glob `pattern` matches `path`.
pub uninterp spec fn glob_matches(pattern: Seq<char>, path: Seq<char>) -> bool;

/// Whether `pattern` is a well-formed glob.
pub uninterp spec fn glob_parses(pattern: Seq<char>) -> bool;

/// Whether a glob set can be built from `patterns`.
pub uninterp spec fn set_builds(patterns: Seq<Seq<char>>) -> bool;

/// Relies on `globset::Glob::new`: whether it succeeds depends on the
/// pattern alone, and a parsed glob holds the pattern it was parsed from.
#[verifier::external_body]
fn parse_glob(pattern: &str) -> (r: Result<globset::Glob, globset::Error>)
    ensures
        r is Ok <==> glob_parses(pattern@),
        r matches Ok(g) ==> glob_pattern(g) == pattern@,
{
    globset::Glob::new(pattern)
}

/// Relies on `globset::GlobSetBuilder::new`: a new builder holds no pattern.
#[verifier::external_body]
fn new_glob_builder() -> (r: globset::GlobSetBuilder)
    ensures
        builder_patterns(r) == Seq::<Seq<char>>::empty(),
{
    globset::GlobSetBuilder::new()
}

/// Relies on `globset::GlobSetBuilder::add`: the glob is appended to the
/// builder's patterns.
#[verifier::external_body]
fn add_glob(b: &mut globset::GlobSetBuilder, g: globset::Glob)
    ensures
        builder_patterns(*final(b)) == builder_patterns(*old(b)).push(glob_pattern(g)),
{
    b.add(g);
}

/// Relies on `globset::GlobSetBuilder::build`: whether it succeeds depends
/// on the builder's patterns alone, and a built set holds those patterns.
#[verifier::external_body]
fn build_glob_set(b: &globset::GlobSetBuilder) -> (r: Result<globset::GlobSet, globset::Error>)
    ensures
        r is Ok <==> set_builds(builder_patterns(*b)),
        r matches Ok(s) ==> set_patterns(s) == builder_patterns(*b),
{
    b.build()
}

/// Relies on `globset::GlobSet::is_match`: true when any glob of the set
/// matches the path.
#[verifier::external_body]
fn set_matches(s: &globset::GlobSet, path: &str) -> (r: bool)
    ensures
        r == (exists|i: int|
            0 <= i < set_patterns(*s).len() && glob_matches(#[trigger] set_patterns(*s)[i], path@)),
{
    s.is_match(path)
}

/// Relies on the `Display` impl of `globset::Error`, for the text of an error.
#[verifier::external_body]
fn glob_error_text(e: &globset::Error) -> String {
    e.to_string()
}

/// Whether any of `globs` matches `path`.
pub open spec fn matches_any(globs: Seq<Seq<char>>, path: Seq<char>) -> bool {
    exists|i: int| 0 <= i < globs.len() && glob_matches(#[trigger] globs[i], path)
}

/// The texts of a list of patterns.
pub open spec fn pattern_texts(ps: Seq<String>) -> Seq<Seq<char>> {
    ps.map_values(|p: String| p@)
}

/// Whether every glob of `ps` is well formed and, when there are any, the
/// set of them can be built.
pub open spec fn globs_compile(ps: Seq<String>) -> bool {
    &&& forall|i: int| 0 <= i < ps.len() ==> glob_parses(#[trigger] ps[i]@)
    &&& (ps.len() == 0 || set_builds(pattern_texts(ps)))
}

/// The start of the message for a malformed glob `p`.
pub open spec fn invalid_glob_prefix(p: Seq<char>) -> Seq<char> {
    "Invalid glob pattern '"@ + p + "': "@
}

/// Whether `msg` is the message for the glob list `ps`: it names the first
/// malformed glob when there is one, and otherwise says that the set could
/// not be built.
pub open spec fn walk_error_message(ps: Seq<String>, msg: Seq<char>) -> bool {
    if exists|i: int| 0 <= i < ps.len() && !glob_parses(#[trigger] ps[i]@) {
        exists|i: int|
            0 <= i < ps.len() && !glob_parses(#[trigger] ps[i]@) && (forall|j: int|
                0 <= j < i ==> glob_parses(#[trigger] ps[j]@)) && invalid_glob_prefix(ps[i]@).len()
                <= msg.len() && msg.take(invalid_glob_prefix(ps[i]@).len() as int)
                == invalid_glob_prefix(ps[i]@)
    } else {
        "Failed to build glob set: "@.len() <= msg.len() && msg.take(
            "Failed to build glob set: "@.len() as int,
        ) == "Failed to build glob set: "@
    }
}

/// One item that walking the tree produced.
#[derive(Debug, Clone)]
pub struct WalkedPath {
    /// The path as the walker presented it.
    pub path: String,
    /// Whether the path is a regular file.
    pub is_file: bool,
}

/// The exclusion rules of a scan: a path matching any exclusion glob is
/// dropped, independently of ignore files.
#[derive(Debug, Clone)]
pub struct Walker {
    matcher: Option<globset::GlobSet>,
}

impl Walker {
    /// The exclusion globs in force.
    pub closed spec fn exclusion_globs(self) -> Seq<Seq<char>> {
        match self.matcher {
            Some(s) => set_patterns(s),
            None => seq![],
        }
    }

    /// Compiles the exclusion globs of `options`; fails with a walk error
    /// when a glob is malformed (naming the first such glob) or the set
    /// cannot be built.
    pub fn new(options: &SnapcatOptions) -> (r: Result<Walker, SnapcatError>)
        ensures
            r is Ok <==> globs_compile(options.ignore_patterns@),
            r matches Ok(w) ==> w.exclusion_globs() == pattern_texts(options.ignore_patterns@),
            r matches Err(e) ==> e is Walk,
            r matches Err(SnapcatError::Walk(msg)) ==> walk_error_message(
                options.ignore_patterns@,
                msg@,
            ),
    {
        let ghost ps = options.ignore_patterns@;
        let n = options.ignore_patterns.len();
        if n == 0 {
            assert(pattern_texts(ps) =~= seq![]);
            return Ok(Walker { matcher: None });
        }
        proof {
            reveal_strlit("Invalid glob pattern '");
            reveal_strlit("': ");
        }
        let mut builder = new_glob_builder();
        let mut i: usize = 0;
        while i < n
            invariant
                i <= n,
                n == ps.len(),
                ps == options.ignore_patterns@,
                builder_patterns(builder) == pattern_texts(ps.take(i as int)),
                forall|j: int| 0 <= j < i ==> glob_parses(#[trigger] ps[j]@),
            decreases n - i,
        {
            let pattern = &options.ignore_patterns[i];
            match parse_glob(pattern.as_str()) {
                Ok(g) => {
                    add_glob(&mut builder, g);
                    assert(pattern_texts(ps.take(i + 1)) =~= pattern_texts(ps.take(i as int)).push(
                        pattern@,
                    ));
                },
                Err(e) => {
                    let mut msg = String::from_str("Invalid glob pattern '");
                    msg.append(pattern.as_str());
                    msg.append("': ");
                    let cause = glob_error_text(&e);
                    msg.append(cause.as_str());
                    let ghost k = i as int;
                    assert(msg@.take(invalid_glob_prefix(ps[k]@).len() as int) =~= invalid_glob_prefix(
                        ps[k]@,
                    ));
                    return Err(SnapcatError::Walk(msg));
                },
            }
            i = i + 1;
        }
        assert(ps.take(n as int) =~= ps);
        assert(builder_patterns(builder) == pattern_texts(ps));
        match build_glob_set(&builder) {
            Ok(s) => Ok(Walker { matcher: Some(s) }),
            Err(e) => {
                let mut msg = String::from_str("Failed to build glob set: ");
                let cause = glob_error_text(&e);
                msg.append(cause.as_str());
                assert(msg@.take("Failed to build glob set: "@.len() as int)
                    =~= "Failed to build glob set: "@);
                Err(SnapcatError::Walk(msg))
            },
        }
    }

    /// Whether `path` survives the exclusion globs.
    pub fn admits(&self, path: &str) -> (r: bool)
        ensures
            r == !matches_any(self.exclusion_globs(), path@),
    {
        match &self.matcher {
            Some(s) => !set_matches(s, path),
            None => true,
        }
    }
}

/// Whether every item succeeded.
pub open spec fn all_ok<T>(items: Seq<Result<T, SnapcatError>>) -> bool {
    forall|i: int| 0 <= i < items.len() ==> (#[trigger] items[i]) is Ok
}

/// Whether `e` is the first failure among `items`.
pub open spec fn is_first_error<T>(items: Seq<Result<T, SnapcatError>>, e: SnapcatError) -> bool {
    exists|i: int|
        0 <= i < items.len() && #[trigger] items[i] == Err::<T, SnapcatError>(e) && forall|j: int|
            0 <= j < i ==> (#[trigger] items[j]) is Ok
}

/// The walked paths that survive `globs`, in walk order.
pub open spec fn admitted(globs: Seq<Seq<char>>, items: Seq<Result<WalkedPath, SnapcatError>>) -> Seq<
    WalkedPath,
>
    decreases items.len(),
{
    if items.len() == 0 {
        seq![]
    } else {
        let rest = admitted(globs, items.drop_last());
        match items.last() {
            Ok(w) => if !matches_any(globs, w.path@) {
                rest.push(w)
            } else {
                rest
            },
            Err(_) => rest,
        }
    }
}

/// The texts of the walked paths.
pub open spec fn walked_texts(entries: Seq<WalkedPath>) -> Seq<Seq<char>> {
    entries.map_values(|w: WalkedPath| w.path@)
}

/// The paths of the regular files among `entries`, in walk order.
pub open spec fn file_paths(entries: Seq<WalkedPath>) -> Seq<Seq<char>>
    decreases entries.len(),
{
    if entries.len() == 0 {
        seq![]
    } else {
        let rest = file_paths(entries.drop_last());
        if entries.last().is_file {
            rest.push(entries.last().path@)
        } else {
            rest
        }
    }
}

/// The elements of `v` in reverse order.
fn into_reversed<T>(v: Vec<T>) -> (r: Vec<T>)
    ensures
        r@ == v@.reverse(),
{
    let ghost orig = v@;
    let mut v = v;
    let mut r: Vec<T> = Vec::new();
    while v.len() > 0
        invariant
            v.len() + r.len() == orig.len(),
            v@ == orig.take(v.len() as int),
            forall|k: int| 0 <= k < r.len() ==> r@[k] == orig[orig.len() - 1 - k],
        decreases v.len(),
    {
        let x = v.pop().unwrap();
        r.push(x);
        assert(v@ =~= orig.take(v.len() as int));
    }
    assert(r@ =~= orig.reverse());
    r
}

impl Walker {
    /// Collects a finished walk: the first failed item aborts; otherwise the
    /// surviving paths, in walk order.
    pub fn collect_entries(&self, items: Vec<Result<WalkedPath, SnapcatError>>) -> (r: Result<
        Vec<WalkedPath>,
        SnapcatError,
    >)
        ensures
            r is Ok <==> all_ok(items@),
            r matches Err(e) ==> is_first_error(items@, e),
            r matches Ok(v) ==> v@ == admitted(self.exclusion_globs(), items@),
    {
        let ghost all = items@;
        let n = items.len();
        let mut rev = into_reversed(items);
        let mut out: Vec<WalkedPath> = Vec::new();
        let mut i: usize = 0;
        while i < n
            invariant
                n == all.len(),
                all == items@,
                i <= n,
                rev.len() == n - i,
                forall|k: int| 0 <= k < rev.len() ==> rev@[k] == all[n - 1 - k],
                all_ok(all.take(i as int)),
                out@ == admitted(self.exclusion_globs(), all.take(i as int)),
            decreases n - i,
        {
            let item = rev.pop().unwrap();
            assert(item == all[i as int]);
            assert(all.take(i + 1).drop_last() =~= all.take(i as int));
            match item {
                Ok(w) => {
                    if self.admits(w.path.as_str()) {
                        out.push(w);
                    }
                },
                Err(e) => {
                    assert(all[i as int] == Err::<WalkedPath, SnapcatError>(e));
                    assert forall|j: int| 0 <= j < i implies (#[trigger] all[j]) is Ok by {
                        assert(all.take(i as int)[j] == all[j]);
                    }
                    assert(is_first_error(all, e));
                    assert(!all_ok(all));
                    return Err(e);
                },
            }
            assert forall|j: int| 0 <= j < i + 1 implies (#[trigger] all.take(i + 1)[j]) is Ok by {
                if j < i {
                    assert(all.take(i as int)[j] == all.take(i + 1)[j]);
                }
            }
            i = i + 1;
        }
        assert(all.take(n as int) =~= all);
        Ok(out)
    }
}

/// What an eager scan draws and reads: the tree of every surviving entry,
/// and the regular files among them, in walk order.
#[derive(Debug)]
pub struct ScanPlan {
    /// The rendered tree of all surviving entries.
    pub tree: String,
    /// The regular files whose content is to be captured.
    pub file_paths: Vec<String>,
}

/// Splits the surviving entries of a walk into the tree of all of them and
/// the list of regular files to read.
pub fn plan_scan(options: &SnapcatOptions, entries: &Vec<WalkedPath>) -> (r: ScanPlan)
    ensures
        r.tree@ == tree_text(options.root@, walked_texts(entries@)),
        pattern_texts(r.file_paths@) == file_paths(entries@),
{
    let ghost es = entries@;
    let mut all: Vec<String> = Vec::new();
    let mut files: Vec<String> = Vec::new();
    let mut i: usize = 0;
    while i < entries.len()
        invariant
            i <= entries.len(),
            es == entries@,
            pattern_texts(all@) == walked_texts(es.take(i as int)),
            pattern_texts(files@) == file_paths(es.take(i as int)),
        decreases entries.len() - i,
    {
        let w = &entries[i];
        assert(es.take(i + 1).drop_last() =~= es.take(i as int));
        let ghost before_all = all@;
        all.push(w.path.clone());
        assert(pattern_texts(all@) =~= pattern_texts(before_all).push(w.path@));
        assert(walked_texts(es.take(i + 1)) =~= walked_texts(es.take(i as int)).push(w.path@));
        if w.is_file {
            let ghost before = files@;
            files.push(w.path.clone());
            assert(pattern_texts(files@) =~= pattern_texts(before).push(w.path@));
        }
        i = i + 1;
    }
    assert(es.take(entries.len() as int) =~= es);
    assert(pattern_texts(all@) =~= all@.map_values(|e: String| e@));
    let tree = build_tree_from_entries(options.root.as_str(), all.as_slice());
    ScanPlan { tree, file_paths: files }
}

/// Assembles an eager scan from its tree and the outcome of each file, by
/// position: the first failure aborts the whole scan; otherwise file `i` of
/// the result is outcome `i`.
pub fn finish_scan(tree: String, outcomes: Vec<Result<FileEntry, SnapcatError>>) -> (r: Result<
    SnapcatResult,
    SnapcatError,
>)
    ensures
        r is Ok <==> all_ok(outcomes@),
        r matches Err(e) ==> is_first_error(outcomes@, e),
        r matches Ok(res) ==> res.tree == tree && res.files@.len() == outcomes@.len() && forall|i: int|
            0 <= i < outcomes@.len() ==> #[trigger] outcomes@[i] == Ok::<FileEntry, SnapcatError>(
                res.files@[i],
            ),
{
    let ghost all = outcomes@;
    let n = outcomes.len();
    let mut rev = into_reversed(outcomes);
    let mut files: Vec<FileEntry> = Vec::new();
    let mut i: usize = 0;
    while i < n
        invariant
            n == all.len(),
            all == outcomes@,
            i <= n,
            rev.len() == n - i,
            files.len() == i,
            forall|k: int| 0 <= k < rev.len() ==> rev@[k] == all[n - 1 - k],
            forall|k: int| 0 <= k < i ==> #[trigger] all[k] == Ok::<FileEntry, SnapcatError>(files@[k]),
        decreases n - i,
    {
        let item = rev.pop().unwrap();
        assert(item == all[i as int]);
        match item {
            Ok(f) => {
                files.push(f);
            },
            Err(e) => {
                assert(all[i as int] == Err::<FileEntry, SnapcatError>(e));
                assert forall|j: int| 0 <= j < i implies (#[trigger] all[j]) is Ok by {}
                assert(is_first_error(all, e));
                assert(!all_ok(all));
                return Err(e);
            },
        }
        i = i + 1;
    }
    Ok(SnapcatResult { tree, files })
}

/// What a stream does with one walked item.
#[derive(Debug)]
pub enum StreamStep {
    /// Not a surviving regular file: pull the next item.
    Skip,
    /// The walk failed on this item: yield the failure and go on.
    Fail(SnapcatError),
    /// A surviving regular file: read it and yield its entry.
    Read(String),
}

/// A pull-based scan, one file at a time, without the tree: the caller pulls
/// walked items, routes each through [`SnapcatStream::route`], and yields an
/// entry or a failure per file.
#[derive(Debug, Clone)]
pub struct SnapcatStream {
    walker: Walker,
    options: SnapcatOptions,
}

impl SnapcatStream {
    /// The options of the scan.
    pub closed spec fn spec_options(self) -> SnapcatOptions {
        self.options
    }

    /// The exclusion globs of the scan.
    pub closed spec fn exclusion_globs(self) -> Seq<Seq<char>> {
        self.walker.exclusion_globs()
    }

    /// Prepares a stream without reading anything; fails as [`Walker::new`]
    /// does, exactly when a glob is malformed or the set cannot be built.
    pub fn new(options: SnapcatOptions) -> (r: Result<SnapcatStream, SnapcatError>)
        ensures
            r is Ok <==> globs_compile(options.ignore_patterns@),
            r matches Err(SnapcatError::Walk(msg)) ==> walk_error_message(
                options.ignore_patterns@,
                msg@,
            ),
            r matches Ok(s) ==> s.spec_options() == options && s.exclusion_globs() == pattern_texts(
                options.ignore_patterns@,
            ),
            r matches Err(e) ==> e is Walk,
    {
        match Walker::new(&options) {
            Ok(walker) => Ok(SnapcatStream { walker, options }),
            Err(e) => Err(e),
        }
    }

    /// The options of the scan.
    pub fn options(&self) -> (r: &SnapcatOptions)
        ensures
            *r == self.spec_options(),
    {
        &self.options
    }

    /// The exclusion rules of the scan, for the walk to prune with.
    pub fn walker(&self) -> (r: &Walker)
        ensures
            r.exclusion_globs() == self.exclusion_globs(),
    {
        &self.walker
    }

    /// Routes one walked item: a failure is passed on, a surviving regular
    /// file is to be read, anything else is skipped.
    pub fn route(&self, item: Result<WalkedPath, SnapcatError>) -> (r: StreamStep)
        ensures
            match item {
                Err(e) => r == StreamStep::Fail(e),
                Ok(w) => if w.is_file && !matches_any(self.exclusion_globs(), w.path@) {
                    r == StreamStep::Read(w.path)
                } else {
                    r is Skip
                },
            },
    {
        match item {
            Err(e) => StreamStep::Fail(e),
            Ok(w) => {
                if w.is_file && self.walker.admits(w.path.as_str()) {
                    StreamStep::Read(w.path)
                } else {
                    StreamStep::Skip
                }
            },
        }
    }
}

/// Every regular file of a list of entries is one of its entries.
proof fn lemma_file_paths_from_entries(entries: Seq<WalkedPath>)
    ensures
        forall|k: int|
            0 <= k < file_paths(entries).len() ==> exists|j: int|
                0 <= j < entries.len() && #[trigger] file_paths(entries)[k] == entries[j].path@,
    decreases entries.len(),
{
    if entries.len() > 0 {
        let init = entries.drop_last();
        lemma_file_paths_from_entries(init);
        assert forall|k: int| 0 <= k < file_paths(entries).len() implies exists|j: int|
            0 <= j < entries.len() && #[trigger] file_paths(entries)[k] == entries[j].path@ by {
            if k < file_paths(init).len() {
                let j = choose|j: int| 0 <= j < init.len() && file_paths(init)[k] == init[j].path@;
                assert(entries[j] == init[j]);
            } else {
                assert(file_paths(entries)[k] == entries[entries.len() - 1].path@);
            }
        }
    }
}

/// No surviving path matches an exclusion glob.
proof fn lemma_admitted_unmatched(globs: Seq<Seq<char>>, items: Seq<Result<WalkedPath, SnapcatError>>)
    ensures
        forall|k: int|
            0 <= k < admitted(globs, items).len() ==> !matches_any(
                globs,
                (#[trigger] admitted(globs, items)[k]).path@,
            ),
    decreases items.len(),
{
    if items.len() > 0 {
        let rest = admitted(globs, items.drop_last());
        lemma_admitted_unmatched(globs, items.drop_last());
        assert forall|k: int| 0 <= k < admitted(globs, items).len() implies !matches_any(
            globs,
            (#[trigger] admitted(globs, items)[k]).path@,
        ) by {
            if k < rest.len() {
                assert(admitted(globs, items)[k] == rest[k]);
            }
        }
    }
}

/// Exclusion globs hold over the whole eager scan: no entry drawn in the
/// tree, and no file whose content is captured, has a path that matches an
/// exclusion glob.
pub proof fn law_excluded_paths_absent(globs: Seq<Seq<char>>, items: Seq<Result<WalkedPath, SnapcatError>>)
    ensures
        forall|k: int|
            0 <= k < walked_texts(admitted(globs, items)).len() ==> !matches_any(
                globs,
                #[trigger] walked_texts(admitted(globs, items))[k],
            ),
        forall|k: int|
            0 <= k < file_paths(admitted(globs, items)).len() ==> !matches_any(
                globs,
                #[trigger] file_paths(admitted(globs, items))[k],
            ),
{
    let kept = admitted(globs, items);
    lemma_admitted_unmatched(globs, items);
    lemma_file_paths_from_entries(kept);
    assert forall|k: int| 0 <= k < walked_texts(kept).len() implies !matches_any(
        globs,
        #[trigger] walked_texts(kept)[k],
    ) by {
        assert(walked_texts(kept)[k] == kept[k].path@);
    }
    assert forall|k: int| 0 <= k < file_paths(kept).len() implies !matches_any(
        globs,
        #[trigger] file_paths(kept)[k],
    ) by {
        let j = choose|j: int| 0 <= j < kept.len() && file_paths(kept)[k] == kept[j].path@;
        assert(!matches_any(globs, kept[j].path@));
    }
}

/// A scan is reproducible: two scans with the same root and exclusion
/// globs, whose walks produced the same items and whose files read back the
/// same (so that each file's outcome, fixed by [`FileRead::step`](crate::content::FileRead::step) from what
/// was read, is the same), give the same tree, the same files to read, and
/// the same entries in the same order.
pub proof fn law_scan_reproducible(
    root: Seq<char>,
    globs: Seq<Seq<char>>,
    first: Seq<Result<WalkedPath, SnapcatError>>,
    second: Seq<Result<WalkedPath, SnapcatError>>,
    first_outcomes: Seq<Result<FileEntry, SnapcatError>>,
    second_outcomes: Seq<Result<FileEntry, SnapcatError>>,
    first_files: Seq<FileEntry>,
    second_files: Seq<FileEntry>,
)
    requires
        first == second,
        first_outcomes == second_outcomes,
        first_files.len() == first_outcomes.len(),
        second_files.len() == second_outcomes.len(),
        forall|i: int|
            0 <= i < first_outcomes.len() ==> first_outcomes[i] == Ok::<FileEntry, SnapcatError>(
                #[trigger] first_files[i],
            ),
        forall|i: int|
            0 <= i < second_outcomes.len() ==> second_outcomes[i] == Ok::<FileEntry, SnapcatError>(
                #[trigger] second_files[i],
            ),
    ensures
        tree_text(root, walked_texts(admitted(globs, first))) == tree_text(
            root,
            walked_texts(admitted(globs, second)),
        ),
        file_paths(admitted(globs, first)) == file_paths(admitted(globs, second)),
        first_files == second_files,
{
    law_files_by_position(first_outcomes, second_outcomes, first_files, second_files);
}

/// Files are assembled by position, not by completion: when the per-file
/// outcomes of two runs (one sequential, one parallel) agree position by
/// position, both runs yield the same files in the same order.
pub proof fn law_files_by_position(
    first: Seq<Result<FileEntry, SnapcatError>>,
    second: Seq<Result<FileEntry, SnapcatError>>,
    first_files: Seq<FileEntry>,
    second_files: Seq<FileEntry>,
)
    requires
        first.len() == second.len(),
        forall|i: int| 0 <= i < first.len() ==> first[i] == second[i],
        first_files.len() == first.len(),
        second_files.len() == second.len(),
        forall|i: int| 0 <= i < first.len() ==> first[i] == Ok::<FileEntry, SnapcatError>(#[trigger] first_files[i]),
        forall|i: int| 0 <= i < second.len() ==> second[i] == Ok::<FileEntry, SnapcatError>(#[trigger] second_files[i]),
    ensures
        first_files == second_files,
{
    assert forall|i: int| 0 <= i < first.len() implies first_files[i] == second_files[i] by {
        assert(first[i] == Ok::<FileEntry, SnapcatError>(first_files[i]));
        assert(second[i] == Ok::<FileEntry, SnapcatError>(second_files[i]));
    }
    assert(first_files =~= second_files);
}

} // verus!
