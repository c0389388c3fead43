//! Input selection: which kind of capture each path holds, which of them
//! the analysis uses, and how an extracted archive is laid out.

use vstd::prelude::*;
use vstd::view::View as _;
use crate::strings::{
    before_char, chars_before, chars_contains, chars_of, concat_str, contains_seq, lowercase,
    str_eq, string_from_chars, to_lowercase,
};

verus! {

/// Input type detection result.
pub enum InputType {
    /// A folder with logs.json and spans.json
    Folder(String),
    /// A ZIP file containing observability data
    ZipFile(String),
    /// A PCAP file with network capture
    PcapFile(String),
}

/// Why the inputs cannot be used.
pub enum InputError {
    PathMissing(String),
    UnknownFileType(String),
    MultipleTraceFolders,
    MultipleTraceSources,
    MultiplePcapFiles,
    NoValidInput,
}

/// Mathematical form of an input type.
pub enum InputKind {
    Folder(Seq<char>),
    ZipFile(Seq<char>),
    PcapFile(Seq<char>),
}

/// Mathematical form of an input error.
pub enum InputErrorKind {
    PathMissing(Seq<char>),
    UnknownFileType(Seq<char>),
    MultipleTraceFolders,
    MultipleTraceSources,
    MultiplePcapFiles,
    NoValidInput,
}

impl InputType {
    pub open spec fn kind(self) -> InputKind {
        match self {
            InputType::Folder(p) => InputKind::Folder(p@),
            InputType::ZipFile(p) => InputKind::ZipFile(p@),
            InputType::PcapFile(p) => InputKind::PcapFile(p@),
        }
    }
}

impl InputError {
    pub open spec fn kind(self) -> InputErrorKind {
        match self {
            InputError::PathMissing(p) => InputErrorKind::PathMissing(p@),
            InputError::UnknownFileType(p) => InputErrorKind::UnknownFileType(p@),
            InputError::MultipleTraceFolders => InputErrorKind::MultipleTraceFolders,
            InputError::MultipleTraceSources => InputErrorKind::MultipleTraceSources,
            InputError::MultiplePcapFiles => InputErrorKind::MultiplePcapFiles,
            InputError::NoValidInput => InputErrorKind::NoValidInput,
        }
    }

    /// The message of the error.
    pub fn message(&self) -> (m: String)
        ensures
            m@ == spec_error_message(self.kind()),
    {
        match self {
            InputError::PathMissing(p) => concat_str("Path does not exist: ", p.as_str()),
            InputError::UnknownFileType(p) => concat_str("Unknown file type: ", p.as_str()),
            InputError::MultipleTraceFolders => String::from_str("Multiple trace folders specified"),
            InputError::MultipleTraceSources => String::from_str("Multiple trace sources specified (folder + ZIP)"),
            InputError::MultiplePcapFiles => String::from_str("Multiple PCAP files specified"),
            InputError::NoValidInput => String::from_str(
                "No valid input provided. Need a traces folder/ZIP and/or a PCAP file.",
            ),
        }
    }
}

pub open spec fn spec_error_message(e: InputErrorKind) -> Seq<char> {
    match e {
        InputErrorKind::PathMissing(p) => "Path does not exist: "@ + p,
        InputErrorKind::UnknownFileType(p) => "Unknown file type: "@ + p,
        InputErrorKind::MultipleTraceFolders => "Multiple trace folders specified"@,
        InputErrorKind::MultipleTraceSources => "Multiple trace sources specified (folder + ZIP)"@,
        InputErrorKind::MultiplePcapFiles => "Multiple PCAP files specified"@,
        InputErrorKind::NoValidInput => "No valid input provided. Need a traces folder/ZIP and/or a PCAP file."@,
    }
}

/// What the path's name and kind tell of an input.
pub enum NameCheck {
    /// The path does not exist.
    Missing,
    /// The input type is known without reading the file.
    Known(InputType),
    /// The file's first four bytes decide.
    NeedsMagic,
}

pub enum NameCheckKind {
    Missing,
    Known(InputKind),
    NeedsMagic,
}

impl NameCheck {
    pub open spec fn kind(self) -> NameCheckKind {
        match self {
            NameCheck::Missing => NameCheckKind::Missing,
            NameCheck::Known(t) => NameCheckKind::Known(t.kind()),
            NameCheck::NeedsMagic => NameCheckKind::NeedsMagic,
        }
    }
}

/// A missing path is refused, a directory is a trace folder, and a file
/// whose extension is "zip", "pcap" or "pcapng" in any case is an archive or
/// a capture; any other file needs its magic bytes.
pub open spec fn spec_detect_by_name(path: Seq<char>, exists: bool, is_dir: bool, extension: Option<Seq<char>>) -> NameCheckKind {
    if !exists {
        NameCheckKind::Missing
    } else if is_dir {
        NameCheckKind::Known(InputKind::Folder(path))
    } else {
        match extension {
            Some(e) => if lowercase(e) == "zip"@ {
                NameCheckKind::Known(InputKind::ZipFile(path))
            } else if lowercase(e) == "pcap"@ || lowercase(e) == "pcapng"@ {
                NameCheckKind::Known(InputKind::PcapFile(path))
            } else {
                NameCheckKind::NeedsMagic
            },
            None => NameCheckKind::NeedsMagic,
        }
    }
}

/// Detect the type of an input from whether its path exists, whether it
/// is a directory, and its extension.
pub fn detect_by_name(path: &str, exists: bool, is_dir: bool, extension: Option<&str>) -> (res: NameCheck)
    ensures
        res.kind() == spec_detect_by_name(path@, exists, is_dir, match extension {
            Some(e) => Some(e@),
            None => None,
        }),
{
    if !exists {
        return NameCheck::Missing;
    }
    if is_dir {
        return NameCheck::Known(InputType::Folder(String::from_str(path)));
    }
    match extension {
        Some(e) => {
            let lower = to_lowercase(e);
            if str_eq(lower.as_str(), "zip") {
                NameCheck::Known(InputType::ZipFile(String::from_str(path)))
            } else if str_eq(lower.as_str(), "pcap") || str_eq(lower.as_str(), "pcapng") {
                NameCheck::Known(InputType::PcapFile(String::from_str(path)))
            } else {
                NameCheck::NeedsMagic
            }
        },
        None => NameCheck::NeedsMagic,
    }
}

/// The magic bytes of a ZIP archive ("PK\x03\x04"), of a classic capture
/// in either byte order, and of a next-generation capture.
pub open spec fn is_zip_magic(m: Seq<u8>) -> bool {
    m == seq![0x50u8, 0x4Bu8, 0x03u8, 0x04u8]
}

pub open spec fn is_pcap_magic(m: Seq<u8>) -> bool {
    m == seq![0xd4u8, 0xc3u8, 0xb2u8, 0xa1u8] || m == seq![0xa1u8, 0xb2u8, 0xc3u8, 0xd4u8]
        || m == seq![0x0au8, 0x0du8, 0x0du8, 0x0au8]
}

pub open spec fn spec_detect_by_magic(path: Seq<char>, magic: Seq<u8>) -> Result<InputKind, InputErrorKind> {
    if is_zip_magic(magic) {
        Ok(InputKind::ZipFile(path))
    } else if is_pcap_magic(magic) {
        Ok(InputKind::PcapFile(path))
    } else {
        Err(InputErrorKind::UnknownFileType(path))
    }
}

fn bytes4_eq(m: &[u8; 4], a: u8, b: u8, c: u8, d: u8) -> (res: bool)
    ensures
        res == (m@ == seq![a, b, c, d]),
{
    let r = m[0] == a && m[1] == b && m[2] == c && m[3] == d;
    if r {
        assert(m@ =~= seq![a, b, c, d]);
    } else {
        assert(m@ != seq![a, b, c, d] || m@[0] != a || m@[1] != b || m@[2] != c || m@[3] != d);
    }
    r
}

/// Detect the type of a file from its first four bytes.
pub fn detect_by_magic(path: &str, magic: &[u8; 4]) -> (res: Result<InputType, InputError>)
    ensures
        match res {
            Ok(t) => spec_detect_by_magic(path@, magic@) == Ok::<InputKind, InputErrorKind>(t.kind()),
            Err(e) => spec_detect_by_magic(path@, magic@) == Err::<InputKind, InputErrorKind>(e.kind()),
        },
{
    if bytes4_eq(magic, 0x50, 0x4B, 0x03, 0x04) {
        return Ok(InputType::ZipFile(String::from_str(path)));
    }
    if bytes4_eq(magic, 0xd4, 0xc3, 0xb2, 0xa1) || bytes4_eq(magic, 0xa1, 0xb2, 0xc3, 0xd4) {
        return Ok(InputType::PcapFile(String::from_str(path)));
    }
    if bytes4_eq(magic, 0x0a, 0x0d, 0x0d, 0x0a) {
        return Ok(InputType::PcapFile(String::from_str(path)));
    }
    Err(InputError::UnknownFileType(String::from_str(path)))
}

/// The trace source chosen so far: a folder, or an archive to extract.
pub enum TraceSource {
    Folder(String),
    Zip(String),
}

/// The inputs chosen so far.
pub struct InputSelection {
    pub traces: Option<TraceSource>,
    pub pcap: Option<String>,
}

/// Mathematical form of the inputs chosen so far: whether a trace source
/// and a capture were chosen.
pub struct SelectionModel {
    pub has_traces: bool,
    pub has_pcap: bool,
}

impl InputSelection {
    pub open spec fn model(self) -> SelectionModel {
        SelectionModel { has_traces: self.traces is Some, has_pcap: self.pcap is Some }
    }

    /// Nothing chosen yet.
    pub fn new() -> (s: InputSelection)
        ensures
            s.traces is None,
            s.pcap is None,
    {
        InputSelection { traces: None, pcap: None }
    }
}

/// One input added to the selection: a second trace source (folder or
/// archive) or a second capture is refused.
pub open spec fn spec_select(m: SelectionModel, t: InputKind) -> Result<SelectionModel, InputErrorKind> {
    match t {
        InputKind::Folder(_) => if m.has_traces {
            Err(InputErrorKind::MultipleTraceFolders)
        } else {
            Ok(SelectionModel { has_traces: true, has_pcap: m.has_pcap })
        },
        InputKind::ZipFile(_) => if m.has_traces {
            Err(InputErrorKind::MultipleTraceSources)
        } else {
            Ok(SelectionModel { has_traces: true, has_pcap: m.has_pcap })
        },
        InputKind::PcapFile(_) => if m.has_pcap {
            Err(InputErrorKind::MultiplePcapFiles)
        } else {
            Ok(SelectionModel { has_traces: m.has_traces, has_pcap: true })
        },
    }
}

/// Add one detected input to the selection. On success a folder becomes
/// the trace source, an archive becomes the trace source to extract, and a
/// capture becomes the capture; on failure the selection is unchanged.
pub fn select_input(sel: &mut InputSelection, t: InputType) -> (res: Result<(), InputError>)
    ensures
        match res {
            Ok(()) => spec_select(old(sel).model(), t.kind()) == Ok::<SelectionModel, InputErrorKind>(final(sel).model()),
            Err(e) => spec_select(old(sel).model(), t.kind()) == Err::<SelectionModel, InputErrorKind>(e.kind())
                && final(sel).model() == old(sel).model(),
        },
        match t {
            InputType::Folder(p) => res is Ok ==> final(sel).traces == Some(TraceSource::Folder(p)) && final(sel).pcap == old(sel).pcap,
            InputType::ZipFile(p) => res is Ok ==> final(sel).traces == Some(TraceSource::Zip(p)) && final(sel).pcap == old(sel).pcap,
            InputType::PcapFile(p) => res is Ok ==> final(sel).pcap == Some(p) && final(sel).traces == old(sel).traces,
        },
        res is Err ==> *final(sel) == *old(sel),
{
    match t {
        InputType::Folder(p) => {
            if sel.traces.is_some() {
                return Err(InputError::MultipleTraceFolders);
            }
            sel.traces = Some(TraceSource::Folder(p));
            Ok(())
        },
        InputType::ZipFile(p) => {
            if sel.traces.is_some() {
                return Err(InputError::MultipleTraceSources);
            }
            sel.traces = Some(TraceSource::Zip(p));
            Ok(())
        },
        InputType::PcapFile(p) => {
            if sel.pcap.is_some() {
                return Err(InputError::MultiplePcapFiles);
            }
            sel.pcap = Some(p);
            Ok(())
        },
    }
}

/// The selection is usable when it holds a trace source or a capture.
pub fn finish_selection(sel: &InputSelection) -> (res: Result<(), InputError>)
    ensures
        res is Ok <==> (sel.traces is Some || sel.pcap is Some),
        res matches Err(e) ==> e.kind() == InputErrorKind::NoValidInput,
{
    if sel.traces.is_none() && sel.pcap.is_none() {
        Err(InputError::NoValidInput)
    } else {
        Ok(())
    }
}

/// The outcome of selecting a whole list of detected inputs, in order.
pub open spec fn spec_select_all(ts: Seq<InputKind>) -> Result<SelectionModel, InputErrorKind>
    decreases ts.len(),
{
    if ts.len() == 0 {
        Ok(SelectionModel { has_traces: false, has_pcap: false })
    } else {
        match spec_select_all(ts.drop_last()) {
            Ok(m) => spec_select(m, ts.last()),
            Err(e) => Err(e),
        }
    }
}

pub open spec fn is_trace_kind(t: InputKind) -> bool {
    t is Folder || t is ZipFile
}

/// Number of trace sources (folders and archives) among the inputs.
pub open spec fn count_traces(ts: Seq<InputKind>) -> nat
    decreases ts.len(),
{
    if ts.len() == 0 {
        0
    } else {
        count_traces(ts.drop_last()) + if is_trace_kind(ts.last()) { 1nat } else { 0nat }
    }
}

/// Number of captures among the inputs.
pub open spec fn count_pcaps(ts: Seq<InputKind>) -> nat
    decreases ts.len(),
{
    if ts.len() == 0 {
        0
    } else {
        count_pcaps(ts.drop_last()) + if ts.last() is PcapFile { 1nat } else { 0nat }
    }
}

/// Selecting a list of inputs one by one succeeds exactly when it holds at
/// most one trace source (folder or archive) and at most one capture; the
/// selection then holds a trace source exactly when there was one, and a
/// capture exactly when there was one.
pub proof fn lemma_select_all(ts: Seq<InputKind>)
    ensures
        spec_select_all(ts) is Ok <==> (count_traces(ts) <= 1 && count_pcaps(ts) <= 1),
        spec_select_all(ts) matches Ok(m) ==> (m.has_traces == (count_traces(ts) == 1) && m.has_pcap == (
        count_pcaps(ts) == 1)),
    decreases ts.len(),
{
    if ts.len() > 0 {
        lemma_select_all(ts.drop_last());
        lemma_counts_monotone(ts);
    }
}

proof fn lemma_counts_monotone(ts: Seq<InputKind>)
    requires
        ts.len() > 0,
    ensures
        count_traces(ts.drop_last()) <= count_traces(ts),
        count_pcaps(ts.drop_last()) <= count_pcaps(ts),
{
}

/// The root folder of an archive: the part before the first '/' of the
/// first entry name that contains a '/'.
pub open spec fn spec_zip_root(names: Seq<Seq<char>>) -> Option<Seq<char>>
    decreases names.len(),
{
    if names.len() == 0 {
        None
    } else if contains_seq(names[0], "/"@) {
        Some(before_char(names[0], '/'))
    } else {
        spec_zip_root(names.drop_first())
    }
}

/// Find the root folder in the entry names of an archive.
pub fn zip_root_folder(names: &Vec<String>) -> (res: Option<String>)
    ensures
        match res {
            Some(r) => spec_zip_root(crate::strings::strings_views(names@)) == Some(r@),
            None => spec_zip_root(crate::strings::strings_views(names@)) is None,
        },
{
    let ghost all = crate::strings::strings_views(names@);
    let slash = chars_of("/");
    let mut i: usize = 0;
    assert(all.skip(0) =~= all);
    while i < names.len()
        invariant
            0 <= i <= names.len(),
            all == crate::strings::strings_views(names@),
            slash@ == "/"@,
            spec_zip_root(all) == spec_zip_root(all.skip(i as int)),
        decreases names.len() - i,
    {
        let v = chars_of(names[i].as_str());
        assert(all.skip(i as int)[0] == names@[i as int]@);
        assert(all.skip(i as int).drop_first() =~= all.skip(i + 1));
        if chars_contains(&v, &slash) {
            let root = chars_before(&v, '/');
            return Some(string_from_chars(root.as_slice()));
        }
        i = i + 1;
    }
    None
}

/// Names of the files that hold observability data: JSON files whose name
/// mentions logs, traces, spans or the chat history.
pub open spec fn spec_is_observability_file(name: Seq<char>) -> bool {
    &&& name.len() >= 5 && name.skip(name.len() - 5) == ".json"@
    &&& contains_seq(name, "logs"@) || contains_seq(name, "traces"@) || contains_seq(name, "spans"@)
        || contains_seq(name, "chat_history"@)
}

/// Whether a file name marks observability data.
pub fn is_observability_file(name: &str) -> (res: bool)
    ensures
        res == spec_is_observability_file(name@),
{
    let v = chars_of(name);
    let ext = chars_of(".json");
    proof {
        reveal_strlit(".json");
    }
    let n = v.len();
    let ends = n >= 5 && crate::strings::chars_eq(&crate::strings::chars_range(&v, n - 5, n), &ext);
    if ends {
        assert(v@.subrange(n - 5, n as int) =~= v@.skip(n - 5));
    }
    ends && (chars_contains(&v, &chars_of("logs")) || chars_contains(&v, &chars_of("traces"))
        || chars_contains(&v, &chars_of("spans")) || chars_contains(&v, &chars_of("chat_history")))
}

} // verus!
