//! What content a file gets: the size ceiling, binary detection over the
//! probe window, and the permissive decoding of text.
//!
//! A file is handled in steps, each a decision on what was read so far: its
//! length decides whether it is too large ([`oversize_content`]); its probe
//! window decides whether it is binary ([`probe_content`]); a text file's
//! content is its decoded probe window followed by the rest ([`text_content`]).
//! [`FileRead`] runs these steps for one file: it says what to read next,
//! and takes what was read.

use crate::options::{BinaryDetection, SnapcatOptions};
use crate::types::FileEntry;
use vstd::prelude::*;

verus! {

/// The number of leading bytes that binary detection looks at.
pub const PROBE_WINDOW: usize = 4096;

/// Whether `b` starts with `prefix`.
pub open spec fn starts_with(b: Seq<u8>, prefix: Seq<u8>) -> bool {
    prefix.len() <= b.len() && b.take(prefix.len() as int) == prefix
}

/// Whether `b` starts with a byte-order mark of UTF-8, UTF-16 or UTF-32.
pub open spec fn has_byte_order_mark(b: Seq<u8>) -> bool {
    ||| starts_with(b, seq![0xEFu8, 0xBBu8, 0xBFu8])
    ||| starts_with(b, seq![0x00u8, 0x00u8, 0xFEu8, 0xFFu8])
    ||| starts_with(b, seq![0xFFu8, 0xFEu8])
    ||| starts_with(b, seq![0xFEu8, 0xFFu8])
}

/// The general text/binary classifier: a buffer with a byte-order mark is
/// text; otherwise a zero byte among its first 1024 bytes, or a PDF or PNG
/// signature at its start, makes it binary.
pub open spec fn inspected_binary(b: Seq<u8>) -> bool {
    if has_byte_order_mark(b) {
        false
    } else {
        ||| (if b.len() <= 1024 { b } else { b.take(1024) }).contains(0u8)
        ||| starts_with(b, seq![0x25u8, 0x50u8, 0x44u8, 0x46u8])
        ||| starts_with(b, seq![0x89u8, 0x50u8, 0x4Eu8, 0x47u8])
    }
}

/// Whether every byte of `b` is ASCII.
pub open spec fn ascii_bytes(b: Seq<u8>) -> bool {
    forall|k: int| 0 <= k < b.len() ==> b[k] < 128
}

/// The characters of ASCII bytes.
pub open spec fn ascii_chars(b: Seq<u8>) -> Seq<char> {
    b.map_values(|x: u8| x as char)
}

/// The text that permissive UTF-8 decoding gives for a buffer.
pub uninterp spec fn lossy_text(bytes: Seq<u8>) -> Seq<char>;

/// Relies on `content_inspector::inspect` and `ContentType::is_binary`:
/// byte-order marks first, then zero bytes in the first 1024 bytes, then the
/// PDF and PNG signatures, as [`inspected_binary`] states.
#[verifier::external_body]
fn inspect_is_binary(bytes: &[u8]) -> (r: bool)
    ensures
        r == inspected_binary(bytes@),
{
    content_inspector::inspect(bytes).is_binary()
}

/// Relies on `String::from_utf8_lossy`: the decoded text depends on the bytes
/// alone, and valid UTF-8 (ASCII in particular) decodes to its characters.
#[verifier::external_body]
fn decode_lossy(bytes: &[u8]) -> (r: String)
    ensures
        r@ == lossy_text(bytes@),
        ascii_bytes(bytes@) ==> r@ == ascii_chars(bytes@),
        vstd::utf8::valid_utf8(bytes@) ==> r@ == vstd::utf8::decode_utf8(bytes@),
{
    String::from_utf8_lossy(bytes).into_owned()
}

/// The placeholder content of a file over the size ceiling.
pub open spec fn too_large_text() -> Seq<char> {
    "[File too large, content omitted]"@
}

/// The placeholder content of a binary file.
pub open spec fn binary_text() -> Seq<char> {
    "[Binary file, content omitted]"@
}

/// Whether a file of `len` bytes is over the ceiling `limit`.
pub open spec fn exceeds_limit(len: u64, limit: Option<u64>) -> bool {
    match limit {
        Some(l) => len > l,
        None => false,
    }
}

/// The leading bytes that binary detection looks at.
pub open spec fn probe_window(bytes: Seq<u8>) -> Seq<u8> {
    if bytes.len() <= PROBE_WINDOW {
        bytes
    } else {
        bytes.take(PROBE_WINDOW as int)
    }
}

/// Whether a file starting with `bytes` is binary under `detection`.
pub open spec fn classified_binary(bytes: Seq<u8>, detection: BinaryDetection) -> bool {
    match detection {
        BinaryDetection::Simple => probe_window(bytes).contains(0u8),
        BinaryDetection::Accurate => inspected_binary(probe_window(bytes)),
        BinaryDetection::Disabled => false,
    }
}

/// The placeholder content of a file over the ceiling, or `None` when the
/// file's content is to be read.
pub fn oversize_content(file_len: u64, limit: Option<u64>) -> (r: Option<(String, bool)>)
    ensures
        r is Some <==> exceeds_limit(file_len, limit),
        r matches Some((c, b)) ==> c@ == too_large_text() && !b,
{
    match limit {
        Some(l) => {
            if file_len > l {
                Some((String::from_str("[File too large, content omitted]"), false))
            } else {
                None
            }
        },
        None => None,
    }
}

/// Whether a file whose content starts with `bytes` is binary under
/// `detection`; only the probe window is looked at.
pub fn is_binary(bytes: &[u8], detection: BinaryDetection) -> (r: bool)
    ensures
        r == classified_binary(bytes@, detection),
        bytes@.len() == 0 ==> !r,
{
    let n = if bytes.len() <= PROBE_WINDOW {
        bytes.len()
    } else {
        PROBE_WINDOW
    };
    let ghost window = probe_window(bytes@);
    assert(window.len() == n);
    assert forall|k: int| 0 <= k < n implies window[k] == bytes@[k] by {}
    match detection {
        BinaryDetection::Simple => {
            let mut i: usize = 0;
            while i < n
                invariant
                    i <= n,
                    n <= bytes@.len(),
                    window.len() == n,
                    window == probe_window(bytes@),
                    detection == BinaryDetection::Simple,
                    forall|k: int| 0 <= k < n ==> window[k] == bytes@[k],
                    forall|k: int| 0 <= k < i ==> window[k] != 0u8,
                decreases n - i,
            {
                if bytes[i] == 0u8 {
                    assert(window[i as int] == 0u8);
                    assert(window.contains(0u8));
                    return true;
                }
                i = i + 1;
            }
            assert(!window.contains(0u8));
            false
        },
        BinaryDetection::Accurate => {
            if bytes.len() <= PROBE_WINDOW {
                inspect_is_binary(bytes)
            } else {
                let head = vstd::slice::slice_subrange(bytes, 0, PROBE_WINDOW);
                assert(head@ =~= window);
                inspect_is_binary(head)
            }
        },
        BinaryDetection::Disabled => false,
    }
}

/// The placeholder content of a binary file, or `None` when the file is text
/// and its content is to be read in full.
pub fn probe_content(probe: &[u8], detection: BinaryDetection) -> (r: Option<(String, bool)>)
    ensures
        r is Some <==> classified_binary(probe@, detection),
        r matches Some((c, b)) ==> c@ == binary_text() && b,
        detection == BinaryDetection::Simple && probe_window(probe@).contains(0u8) ==> (r matches Some(
            (c, b),
        ) && c@ == binary_text() && b),
        detection == BinaryDetection::Disabled ==> r is None,
        probe@.len() == 0 ==> r is None,
{
    if is_binary(probe, detection) {
        Some((String::from_str("[Binary file, content omitted]"), true))
    } else {
        None
    }
}

/// The content of a text file: its probe window decoded permissively, then
/// the rest of the file.
pub fn text_content(probe: &[u8], rest: &str) -> (r: String)
    ensures
        r@ == lossy_text(probe@) + rest@,
        ascii_bytes(probe@) ==> lossy_text(probe@) == ascii_chars(probe@),
        ascii_bytes(probe@) ==> r@ == ascii_chars(probe@) + rest@,
        probe@.len() == 0 ==> r@ == rest@,
{
    let mut content = decode_lossy(probe);
    content.append(rest);
    content
}

/// Where the reading of one file stands.
#[derive(Debug, Clone, Copy, PartialEq, Eq, Structural)]
pub enum ReadPhase {
    /// Waiting for the file's length, to apply the size ceiling.
    AwaitLength,
    /// Waiting for the probe window.
    AwaitProbe,
    /// Waiting for the rest of a text file.
    AwaitRest,
    /// Waiting for the file's length, to record its size.
    AwaitSize,
    /// The entry was handed out.
    Done,
}

/// What the caller read for a file.
#[derive(Debug)]
pub enum ReadEvent {
    /// The file's length in bytes, from its metadata.
    Length(u64),
    /// The file's first bytes, up to [`PROBE_WINDOW`] of them.
    Probe(Vec<u8>),
    /// The rest of the file after the probe window, as text.
    Rest(String),
    /// The file's length in bytes, for its recorded size.
    Size(u64),
}

/// What the caller is to do next for a file.
#[derive(Debug)]
pub enum ReadAction {
    /// Read the file's length from its metadata; answer with `Length`.
    ReadLength,
    /// Open the file and read its first [`PROBE_WINDOW`] bytes; answer with `Probe`.
    ReadProbe,
    /// Read the rest of the opened file as text; answer with `Rest`.
    ReadRest,
    /// Read the file's length from its metadata; answer with `Size`.
    ReadSize,
    /// The file's entry is complete.
    Finished(FileEntry),
}

/// Whether `e` is the entry of `path` with the given content, flag and size.
pub open spec fn entry_is(
    e: FileEntry,
    path: Seq<char>,
    content: Seq<char>,
    is_binary: bool,
    size: Option<u64>,
) -> bool {
    &&& e.path@ == path
    &&& e.content@ == content
    &&& e.is_binary == is_binary
    &&& e.size == size
}

/// The reading of one file, step by step: the size ceiling on its length,
/// binary detection on its probe window, then the rest of a text file, then
/// its size when sizes are recorded.
#[derive(Debug)]
pub struct FileRead {
    path: String,
    limit: Option<u64>,
    detection: BinaryDetection,
    include_size: bool,
    phase: ReadPhase,
    content: String,
    is_binary: bool,
    probe: Vec<u8>,
}

impl FileRead {
    /// The path being read.
    pub closed spec fn spec_path(self) -> Seq<char> {
        self.path@
    }

    /// The size ceiling in force.
    pub closed spec fn limit(self) -> Option<u64> {
        self.limit
    }

    /// The binary-detection strategy in force.
    pub closed spec fn detection(self) -> BinaryDetection {
        self.detection
    }

    /// Whether the size is recorded.
    pub closed spec fn include_size(self) -> bool {
        self.include_size
    }

    /// Where the reading stands.
    pub closed spec fn phase(self) -> ReadPhase {
        self.phase
    }

    /// The content decided so far.
    pub closed spec fn spec_content(self) -> Seq<char> {
        self.content@
    }

    /// The binary flag decided so far.
    pub closed spec fn spec_is_binary(self) -> bool {
        self.is_binary
    }

    /// The probe window read so far.
    pub closed spec fn spec_probe(self) -> Seq<u8> {
        self.probe@
    }

    /// Whether `next` and `r` finish a read of `self`'s file with `content`
    /// and `is_binary`: by asking for the size when sizes are recorded, or
    /// else by handing out the entry.
    pub open spec fn finishes(
        self,
        next: FileRead,
        r: ReadAction,
        content: Seq<char>,
        is_binary: bool,
    ) -> bool {
        if self.include_size() {
            &&& r is ReadSize
            &&& next.phase() == ReadPhase::AwaitSize
            &&& next.spec_content() == content
            &&& next.spec_is_binary() == is_binary
        } else {
            &&& r matches ReadAction::Finished(e)
            &&& entry_is(e, self.spec_path(), content, is_binary, None)
            &&& next.phase() == ReadPhase::Done
        }
    }

    /// Whether `next` keeps the path and settings of `self`.
    pub open spec fn same_file(self, next: FileRead) -> bool {
        &&& next.spec_path() == self.spec_path()
        &&& next.limit() == self.limit()
        &&& next.detection() == self.detection()
        &&& next.include_size() == self.include_size()
    }

    /// Starts reading `path` under `options`: its length comes first when a
    /// size ceiling is set, its probe window otherwise.
    pub fn start(path: String, options: &SnapcatOptions) -> (r: (FileRead, ReadAction))
        ensures
            r.0.spec_path() == path@,
            r.0.limit() == options.file_size_limit,
            r.0.detection() == options.binary_detection,
            r.0.include_size() == options.include_file_size,
            options.file_size_limit is Some ==> r.1 is ReadLength && r.0.phase()
                == ReadPhase::AwaitLength,
            options.file_size_limit is None ==> r.1 is ReadProbe && r.0.phase()
                == ReadPhase::AwaitProbe,
    {
        let phase = if options.file_size_limit.is_some() {
            ReadPhase::AwaitLength
        } else {
            ReadPhase::AwaitProbe
        };
        let state = FileRead {
            path,
            limit: options.file_size_limit,
            detection: options.binary_detection,
            include_size: options.include_file_size,
            phase,
            content: String::new(),
            is_binary: false,
            probe: Vec::new(),
        };
        let action = if options.file_size_limit.is_some() {
            ReadAction::ReadLength
        } else {
            ReadAction::ReadProbe
        };
        (state, action)
    }

    /// Records the decided content, then asks for the size or hands out the entry.
    fn finish(&mut self, content: String, is_binary: bool) -> (r: ReadAction)
        ensures
            old(self).same_file(*final(self)),
            old(self).finishes(*final(self), r, content@, is_binary),
    {
        if self.include_size {
            self.content = content;
            self.is_binary = is_binary;
            self.phase = ReadPhase::AwaitSize;
            ReadAction::ReadSize
        } else {
            self.phase = ReadPhase::Done;
            ReadAction::Finished(
                FileEntry { path: self.path.clone(), content, is_binary, size: None },
            )
        }
    }

    /// Takes what was read and says what comes next. A file over the size
    /// ceiling gets the oversize placeholder without being opened; a binary
    /// file gets the binary placeholder without its rest being read; a text
    /// file gets its decoded probe window followed by its rest.
    pub fn step(&mut self, event: ReadEvent) -> (r: ReadAction)
        requires
            old(self).phase() == ReadPhase::AwaitLength ==> event is Length,
            old(self).phase() == ReadPhase::AwaitProbe ==> event is Probe,
            old(self).phase() == ReadPhase::AwaitRest ==> event is Rest,
            old(self).phase() == ReadPhase::AwaitSize ==> event is Size,
            old(self).phase() != ReadPhase::Done,
        ensures
            old(self).same_file(*final(self)),
            match event {
                ReadEvent::Length(len) => if exceeds_limit(len, old(self).limit()) {
                    old(self).finishes(*final(self), r, too_large_text(), false)
                } else {
                    r is ReadProbe && final(self).phase() == ReadPhase::AwaitProbe
                },
                ReadEvent::Probe(bytes) => (bytes@.len() == 0 ==> r is ReadRest) && if classified_binary(
                    bytes@,
                    old(self).detection(),
                ) {
                    old(self).finishes(*final(self), r, binary_text(), true)
                } else {
                    r is ReadRest && final(self).phase() == ReadPhase::AwaitRest
                        && final(self).spec_probe() == bytes@
                },
                ReadEvent::Rest(text) => old(self).finishes(
                    *final(self),
                    r,
                    lossy_text(old(self).spec_probe()) + text@,
                    false,
                ) && (ascii_bytes(old(self).spec_probe()) ==> lossy_text(old(self).spec_probe())
                    == ascii_chars(old(self).spec_probe())),
                ReadEvent::Size(n) => r matches ReadAction::Finished(e) && entry_is(
                    e,
                    old(self).spec_path(),
                    old(self).spec_content(),
                    old(self).spec_is_binary(),
                    Some(n),
                ) && final(self).phase() == ReadPhase::Done,
            },
    {
        match event {
            ReadEvent::Length(len) => match oversize_content(len, self.limit) {
                Some((content, is_binary)) => self.finish(content, is_binary),
                None => {
                    self.phase = ReadPhase::AwaitProbe;
                    ReadAction::ReadProbe
                },
            },
            ReadEvent::Probe(bytes) => match probe_content(bytes.as_slice(), self.detection) {
                Some((content, is_binary)) => self.finish(content, is_binary),
                None => {
                    self.probe = bytes;
                    self.phase = ReadPhase::AwaitRest;
                    ReadAction::ReadRest
                },
            },
            ReadEvent::Rest(text) => {
                let content = text_content(self.probe.as_slice(), text.as_str());
                self.finish(content, false)
            },
            ReadEvent::Size(n) => {
                self.phase = ReadPhase::Done;
                ReadAction::Finished(
                    FileEntry {
                        path: self.path.clone(),
                        content: self.content.clone(),
                        is_binary: self.is_binary,
                        size: Some(n),
                    },
                )
            },
        }
    }
}

} // verus!
