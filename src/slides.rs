//! Slide files: a forgiving line scanner that turns slide text into slides.
use vstd::prelude::*;
use vstd::string::StringExecFns;

use crate::lines::{lines_of, split_lines, views};
use vstd::std_specs::iter::IteratorSpec;
use crate::registry::{SourceModel, SourceRegistry, YamlSource};
use crate::yaml::{node_from_source, yaml_accepts};

verus! {

// ------------------------------------------------------------------------
// The model

/// Whether `l` is a delimiter line: non-empty and made of `-` alone.
pub open spec fn is_delimiter(l: Seq<char>) -> bool {
    l.len() > 0 && forall|i: int| 0 <= i < l.len() ==> l[i] == '-'
}

/// The line that closes a metadata block: `...` after a long delimiter,
/// the empty line after a short one.
pub open spec fn terminator(dotted: bool) -> Seq<char> {
    if dotted {
        seq!['.', '.', '.']
    } else {
        Seq::empty()
    }
}

/// Whether a delimiter line asks for the `...` terminator.
pub open spec fn is_long(l: Seq<char>) -> bool {
    l.len() > 3
}

/// `l` followed by a newline.
pub open spec fn with_newline(l: Seq<char>) -> Seq<char> {
    l.push('\n')
}

/// The model of one slide.
pub ghost struct SlideModel {
    /// The provenance handle under which its metadata was parsed.
    pub source: nat,
    /// The 1-based line of the delimiter that opened its metadata.
    pub lineno: nat,
    /// Its content fragments.
    pub parts: Seq<Seq<char>>,
    /// Its speaker notes.
    pub notes: Seq<char>,
}

/// The model of an error found while scanning.
pub ghost enum ErrorModel {
    MissingInitialDelimiter,
    IncompleteMetadata(nat),
    BadMetadata(nat),
}

/// The model of the scanner's state.
pub ghost enum ModeModel {
    Initial,
    /// The 0-based line of the opening delimiter, whether the terminator is
    /// `...`, and the metadata text so far.
    Metadata(nat, bool, Seq<char>),
    CapturingFragments(SlideModel),
    CapturingNotes(SlideModel),
    Aborting,
}

/// The scanner's whole state: its mode, the slides finished so far, the
/// errors so far, and the sources it registered.
pub ghost struct ScanModel {
    pub mode: ModeModel,
    pub slides: Seq<SlideModel>,
    pub errors: Seq<ErrorModel>,
    pub records: Seq<SourceModel>,
}

/// A new, empty slide whose metadata came from handle `source` and was
/// opened on 0-based line `open`.
pub open spec fn new_slide(source: nat, open: nat) -> SlideModel {
    SlideModel { source, lineno: open + 1, parts: seq![Seq::empty()], notes: Seq::empty() }
}

/// The mode after the delimiter line `line` at 0-based line `ofs`.
pub open spec fn open_block(ofs: nat, line: Seq<char>) -> ModeModel {
    ModeModel::Metadata(ofs, is_long(line), Seq::empty())
}

/// One step of the scanner over line `line` at 0-based offset `ofs`, in the
/// file `fname`, when the registry held `base` sources before the scan.
pub open spec fn step(fname: Seq<char>, base: nat, st: ScanModel, ofs: nat, line: Seq<char>) -> ScanModel {
    match st.mode {
        ModeModel::Initial => st,
        ModeModel::Metadata(open, dotted, text) => {
            if line == terminator(dotted) {
                let handle = base + st.records.len();
                let records = st.records.push(
                    SourceModel::Slide(fname, st.slides.len() + 1, ofs),
                );
                if yaml_accepts(handle, text, true) {
                    ScanModel {
                        mode: ModeModel::CapturingFragments(new_slide(handle, open)),
                        records,
                        ..st
                    }
                } else {
                    ScanModel {
                        mode: ModeModel::Aborting,
                        errors: st.errors.push(ErrorModel::BadMetadata(open + 1)),
                        records,
                        ..st
                    }
                }
            } else {
                ScanModel {
                    mode: ModeModel::Metadata(open, dotted, text + with_newline(line)),
                    ..st
                }
            }
        },
        ModeModel::CapturingFragments(s) => {
            if line == seq!['*', '*', '*'] {
                ScanModel {
                    mode: ModeModel::CapturingFragments(
                        SlideModel { parts: s.parts.push(Seq::empty()), ..s },
                    ),
                    ..st
                }
            } else if line == seq!['?', '?', '?'] {
                ScanModel { mode: ModeModel::CapturingNotes(s), ..st }
            } else if is_delimiter(line) {
                ScanModel { mode: open_block(ofs, line), slides: st.slides.push(s), ..st }
            } else {
                let last = s.parts.len() - 1;
                ScanModel {
                    mode: ModeModel::CapturingFragments(
                        SlideModel {
                            parts: s.parts.update(last, s.parts[last] + with_newline(line)),
                            ..s
                        },
                    ),
                    ..st
                }
            }
        },
        ModeModel::CapturingNotes(s) => {
            if is_delimiter(line) {
                ScanModel { mode: open_block(ofs, line), slides: st.slides.push(s), ..st }
            } else {
                ScanModel {
                    mode: ModeModel::CapturingNotes(
                        SlideModel { notes: s.notes + with_newline(line), ..s },
                    ),
                    ..st
                }
            }
        },
        ModeModel::Aborting => {
            if is_delimiter(line) {
                ScanModel { mode: open_block(ofs, line), ..st }
            } else {
                st
            }
        },
    }
}

/// The state after the first line, a delimiter, has opened a block.
pub open spec fn opened(lines: Seq<Seq<char>>) -> ScanModel {
    ScanModel {
        mode: open_block(0, lines[0]),
        slides: Seq::empty(),
        errors: Seq::empty(),
        records: Seq::empty(),
    }
}

/// The state after the first `n` lines, when the first line is a delimiter.
pub open spec fn run(fname: Seq<char>, base: nat, lines: Seq<Seq<char>>, n: nat) -> ScanModel
    decreases n,
{
    if n <= 1 {
        opened(lines)
    } else {
        step(fname, base, run(fname, base, lines, (n - 1) as nat), (n - 1) as nat, lines[n - 1])
    }
}

/// The state after all of `lines`; a first line that is no delimiter stops
/// the scan at once.
pub open spec fn scan(fname: Seq<char>, base: nat, lines: Seq<Seq<char>>) -> ScanModel {
    if lines.len() == 0 || !is_delimiter(lines[0]) {
        ScanModel {
            mode: ModeModel::Initial,
            slides: Seq::empty(),
            errors: Seq::empty(),
            records: Seq::empty(),
        }
    } else {
        run(fname, base, lines, lines.len())
    }
}

/// The end of input: a slide in progress is finished, an open block or a
/// missing start is an error.
pub open spec fn finish(st: ScanModel) -> ScanModel {
    match st.mode {
        ModeModel::Initial => ScanModel {
            errors: st.errors.push(ErrorModel::MissingInitialDelimiter),
            ..st
        },
        ModeModel::Metadata(open, _, _) => ScanModel {
            errors: st.errors.push(ErrorModel::IncompleteMetadata(open + 1)),
            ..st
        },
        ModeModel::CapturingFragments(s) => ScanModel { slides: st.slides.push(s), ..st },
        ModeModel::CapturingNotes(s) => ScanModel { slides: st.slides.push(s), ..st },
        ModeModel::Aborting => st,
    }
}

/// The final state of scanning `text` from the file `fname`, with `base`
/// sources registered before.
pub open spec fn parse_model(fname: Seq<char>, base: nat, text: Seq<char>) -> ScanModel {
    finish(scan(fname, base, lines_of(text)))
}

// ------------------------------------------------------------------------
// The data

/// A single slide.
pub struct SlideContent {
    meta: marked_yaml::Node,
    source: usize,
    lineno: usize,
    parts: Vec<String>,
    notes: String,
}

impl View for SlideContent {
    type V = SlideModel;

    closed spec fn view(&self) -> SlideModel {
        SlideModel {
            source: self.source as nat,
            lineno: self.lineno as nat,
            parts: views(self.parts@),
            notes: self.notes@,
        }
    }
}

/// A file of slides.
pub struct SlideFile {
    fname: String,
    slides: Vec<SlideContent>,
}

/// The models of a sequence of slides.
pub open spec fn slide_views(s: Seq<SlideContent>) -> Seq<SlideModel> {
    s.map_values(|c: SlideContent| c@)
}

impl View for SlideFile {
    type V = (Seq<char>, Seq<SlideModel>);

    closed spec fn view(&self) -> (Seq<char>, Seq<SlideModel>) {
        (self.fname@, slide_views(self.slides@))
    }
}

/// Errors which can happen while parsing slides.
pub enum SlideLoadError {
    /// The file does not start with a delimiter, so no slides are present.
    MissingInitialDelimiter,
    /// The metadata opened at the given 1-based line is never closed.
    IncompleteMetadata(usize),
    /// The metadata opened at the given 1-based line is bad YAML.
    BadMetadata(usize, marked_yaml::LoadError),
}

impl View for SlideLoadError {
    type V = ErrorModel;

    open spec fn view(&self) -> ErrorModel {
        match self {
            SlideLoadError::MissingInitialDelimiter => ErrorModel::MissingInitialDelimiter,
            SlideLoadError::IncompleteMetadata(l) => ErrorModel::IncompleteMetadata(*l as nat),
            SlideLoadError::BadMetadata(l, _) => ErrorModel::BadMetadata(*l as nat),
        }
    }
}

/// The models of a sequence of errors.
pub open spec fn error_views(e: Seq<SlideLoadError>) -> Seq<ErrorModel> {
    e.map_values(|x: SlideLoadError| x@)
}

// ------------------------------------------------------------------------
// Line classification

/// `Some(long)` when `line` is a delimiter, where `long` tells whether it asks
/// for the `...` terminator; `None` otherwise.
fn delimiter_kind(line: &str) -> (r: Option<bool>)
    ensures
        r is Some == is_delimiter(line@),
        r is Some ==> r->0 == is_long(line@),
{
    broadcast use vstd::string::axiom_spec_iter, vstd::string::next_postcondition;

    let mut chars = line.chars();
    let mut count: usize = 0;
    let ghost mut k: int = 0;
    loop
        invariant
            0 <= k <= line@.len(),
            chars.remaining() == line@.skip(k),
            count == if k < 4 { k } else { 4 },
            forall|i: int| 0 <= i < k ==> line@[i] == '-',
        decreases line@.len() - k,
    {
        match chars.next() {
            None => {
                assert(line@.skip(k).len() == 0);
                if count == 0 {
                    return None;
                }
                return Some(count > 3);
            },
            Some(c) => {
                assert(line@.skip(k)[0] == line@[k]);
                assert(line@.skip(k + 1) =~= line@.skip(k).drop_first());
                if c != '-' {
                    return None;
                }
                proof {
                    k = k + 1;
                }
                if count < 4 {
                    count = count + 1;
                }
            },
        }
    }
}

/// Whether `line` is three times the character `c`.
fn is_triple(line: &str, c: char) -> (r: bool)
    ensures
        r == (line@ == seq![c, c, c]),
{
    broadcast use vstd::string::axiom_spec_iter, vstd::string::next_postcondition;

    let mut chars = line.chars();
    let a = chars.next();
    let b = chars.next();
    let d = chars.next();
    let e = chars.next();
    let r = a == Some(c) && b == Some(c) && d == Some(c) && e.is_none();
    proof {
        if r {
            assert(line@ =~= seq![c, c, c]);
        }
        if line@ == seq![c, c, c] {
            assert(line@.skip(1) =~= seq![c, c]);
            assert(line@.skip(2) =~= seq![c]);
            assert(line@.skip(3) =~= Seq::<char>::empty());
        }
    }
    r
}

// ------------------------------------------------------------------------
// The scanner

/// What the scanner is doing.
enum ParseMode {
    Initial,
    Metadata(usize, bool, String),
    CapturingFragments(SlideContent),
    CapturingNotes(SlideContent),
    Aborting,
}

spec fn mode_view(m: &ParseMode) -> ModeModel {
    match m {
        ParseMode::Initial => ModeModel::Initial,
        ParseMode::Metadata(open, dotted, text) => ModeModel::Metadata(*open as nat, *dotted, text@),
        ParseMode::CapturingFragments(s) => ModeModel::CapturingFragments(s@),
        ParseMode::CapturingNotes(s) => ModeModel::CapturingNotes(s@),
        ParseMode::Aborting => ModeModel::Aborting,
    }
}

/// The model of the scanner's executable state; the registry's sources from
/// position `base` on are the ones this scan registered.
spec fn state_of(
    m: &ParseMode,
    slides: Seq<SlideContent>,
    errs: Seq<SlideLoadError>,
    registry: Seq<SourceModel>,
    base: nat,
) -> ScanModel {
    ScanModel {
        mode: mode_view(m),
        slides: slide_views(slides),
        errors: error_views(errs),
        records: registry.skip(base as int),
    }
}

/// Bounds that hold after `n` lines have been scanned.
pub open spec fn bounded(st: ScanModel, n: nat) -> bool {
    &&& st.slides.len() < n
    &&& st.mode is Metadata ==> st.mode->Metadata_0 < n
    &&& st.mode is CapturingFragments ==> st.mode->CapturingFragments_0.parts.len() >= 1
}

proof fn lemma_run_bounded(fname: Seq<char>, base: nat, lines: Seq<Seq<char>>, n: nat)
    requires
        1 <= n <= lines.len(),
    ensures
        bounded(run(fname, base, lines, n), n),
    decreases n,
{
    if n > 1 {
        lemma_run_bounded(fname, base, lines, (n - 1) as nat);
    }
}

/// Scans one line at 0-based offset `ofs`.
fn scan_line(
    mode: ParseMode,
    line: &str,
    ofs: usize,
    fname: &String,
    slides: &mut Vec<SlideContent>,
    errs: &mut Vec<SlideLoadError>,
    registry: &mut SourceRegistry,
    Ghost(base): Ghost<nat>,
) -> (r: ParseMode)
    requires
        base <= old(registry)@.len(),
        bounded(state_of(&mode, old(slides)@, old(errs)@, old(registry)@, base), ofs as nat),
        ofs < usize::MAX,
    ensures
        final(registry)@.len() >= old(registry)@.len(),
        final(registry)@.take(old(registry)@.len() as int) == old(registry)@,
        state_of(&r, final(slides)@, final(errs)@, final(registry)@, base) == step(
            fname@,
            base,
            state_of(&mode, old(slides)@, old(errs)@, old(registry)@, base),
            ofs as nat,
            line@,
        ),
{
    let ghost st = state_of(&mode, slides@, errs@, registry@, base);
    let ghost reg0 = registry@;
    proof {
        reveal_strlit("\n");
        assert(reg0.take(reg0.len() as int) =~= reg0);
    }
    match mode {
        ParseMode::Initial => ParseMode::Initial,
        ParseMode::Metadata(open, dotted, mut text) => {
            let closes = if dotted {
                is_triple(line, '.')
            } else {
                line.is_empty()
            };
            proof {
                if !dotted && line@.len() == 0 {
                    assert(line@ =~= terminator(dotted));
                }
            }
            if closes {
                let handle = registry.len();
                let source = YamlSource::Slide(fname.clone(), slides.len() + 1, ofs);
                let parsed = node_from_source(registry, source, text.as_str());
                proof {
                    assert(registry@.skip(base as int) =~= reg0.skip(base as int).push(
                        SourceModel::Slide(fname@, st.slides.len() + 1, ofs as nat),
                    ));
                    assert(registry@.take(reg0.len() as int) =~= reg0);
                }
                match parsed {
                    Ok(node) => {
                        let mut parts: Vec<String> = Vec::new();
                        parts.push(String::new());
                        let slide = SlideContent {
                            meta: node,
                            source: handle,
                            lineno: open + 1,
                            parts,
                            notes: String::new(),
                        };
                        proof {
                            assert(views(slide.parts@) =~= seq![Seq::<char>::empty()]);
                        }
                        ParseMode::CapturingFragments(slide)
                    },
                    Err(e) => {
                        let ghost e0 = errs@;
                        errs.push(SlideLoadError::BadMetadata(open + 1, e));
                        proof {
                            assert(error_views(errs@) =~= error_views(e0).push(
                                ErrorModel::BadMetadata((open + 1) as nat),
                            ));
                        }
                        ParseMode::Aborting
                    },
                }
            } else {
                let ghost t0 = text@;
                text.append(line);
                text.append("\n");
                assert(text@ =~= t0 + with_newline(line@));
                ParseMode::Metadata(open, dotted, text)
            }
        },
        ParseMode::CapturingFragments(mut slide) => {
            if is_triple(line, '*') {
                slide.parts.push(String::new());
                proof {
                    assert(views(slide.parts@) =~= st.mode->CapturingFragments_0.parts.push(
                        Seq::empty(),
                    ));
                }
                ParseMode::CapturingFragments(slide)
            } else if is_triple(line, '?') {
                ParseMode::CapturingNotes(slide)
            } else {
                match delimiter_kind(line) {
                    Some(long) => {
                        let ghost s0 = slides@;
                        slides.push(slide);
                        proof {
                            assert(slide_views(slides@) =~= slide_views(s0).push(
                                st.mode->CapturingFragments_0,
                            ));
                        }
                        ParseMode::Metadata(ofs, long, String::new())
                    },
                    None => {
                        let ghost p0 = slide.parts@;
                        match slide.parts.pop() {
                            Some(mut last) => {
                                let ghost l0 = last@;
                                last.append(line);
                                last.append("\n");
                                assert(last@ =~= l0 + with_newline(line@));
                                slide.parts.push(last);
                            },
                            None => {},
                        }
                        proof {
                            let last = p0.len() - 1;
                            assert(views(slide.parts@) =~= views(p0).update(
                                last,
                                views(p0)[last] + with_newline(line@),
                            ));
                        }
                        ParseMode::CapturingFragments(slide)
                    },
                }
            }
        },
        ParseMode::CapturingNotes(mut slide) => {
            match delimiter_kind(line) {
                Some(long) => {
                    let ghost s0 = slides@;
                    slides.push(slide);
                    proof {
                        assert(slide_views(slides@) =~= slide_views(s0).push(
                            st.mode->CapturingNotes_0,
                        ));
                    }
                    ParseMode::Metadata(ofs, long, String::new())
                },
                None => {
                    let ghost n0 = slide.notes@;
                    slide.notes.append(line);
                    slide.notes.append("\n");
                    assert(slide.notes@ =~= n0 + with_newline(line@));
                    ParseMode::CapturingNotes(slide)
                },
            }
        },
        ParseMode::Aborting => {
            match delimiter_kind(line) {
                Some(long) => ParseMode::Metadata(ofs, long, String::new()),
                None => ParseMode::Aborting,
            }
        },
    }
}

impl SlideFile {
    /// Parses the slide text `text` of the file named `fname`.
    ///
    /// The scan goes on past broken metadata so as to report as many errors
    /// as it can; any error at all means no slides are returned. Each closed
    /// metadata block registers one source in `registry`.
    pub fn parse(fname: &str, text: &str, registry: &mut SourceRegistry) -> (r: Result<
        SlideFile,
        Vec<SlideLoadError>,
    >)
        ensures
            final(registry)@ == old(registry)@ + parse_model(
                fname@,
                old(registry)@.len(),
                text@,
            ).records,
            match r {
                Ok(f) => {
                    &&& parse_model(fname@, old(registry)@.len(), text@).errors.len() == 0
                    &&& f@ == (fname@, parse_model(fname@, old(registry)@.len(), text@).slides)
                },
                Err(e) => {
                    &&& parse_model(fname@, old(registry)@.len(), text@).errors.len() > 0
                    &&& error_views(e@) == parse_model(fname@, old(registry)@.len(), text@).errors
                },
            },
    {
        let ghost reg0 = registry@;
        let ghost base = reg0.len();
        let ghost all = lines_of(text@);
        let name = String::from_str(fname);
        let lines = split_lines(text);
        let mut slides: Vec<SlideContent> = Vec::new();
        let mut errs: Vec<SlideLoadError> = Vec::new();
        let mut mode = ParseMode::Initial;
        proof {
            assert(reg0.skip(base as int) =~= Seq::<SourceModel>::empty());
            assert(reg0.take(base as int) =~= reg0);
            assert(slide_views(slides@) =~= Seq::<SlideModel>::empty());
            assert(error_views(errs@) =~= Seq::<ErrorModel>::empty());
        }
        let first = if lines.len() > 0 {
            delimiter_kind(lines[0].as_str())
        } else {
            None
        };
        match first {
            None => {},
            Some(long) => {
                assert(all[0] == lines@[0]@);
                mode = ParseMode::Metadata(0, long, String::new());
                let mut i: usize = 1;
                while i < lines.len()
                    invariant
                        1 <= i <= lines@.len(),
                        views(lines@) == all,
                        is_delimiter(all[0]),
                        name@ == fname@,
                        registry@.len() >= base,
                        registry@.take(base as int) == reg0,
                        state_of(&mode, slides@, errs@, registry@, base) == run(
                            fname@,
                            base,
                            all,
                            i as nat,
                        ),
                    decreases lines@.len() - i,
                {
                    proof {
                        lemma_run_bounded(fname@, base, all, i as nat);
                        assert(all[i as int] == lines@[i as int]@);
                    }
                    let ghost reg1 = registry@;
                    mode = scan_line(
                        mode,
                        lines[i].as_str(),
                        i,
                        &name,
                        &mut slides,
                        &mut errs,
                        registry,
                        Ghost(base),
                    );
                    proof {
                        assert(registry@.take(base as int) =~= registry@.take(
                            reg1.len() as int,
                        ).take(base as int));
                    }
                    i = i + 1;
                }
                proof {
                    lemma_run_bounded(fname@, base, all, i as nat);
                }
            },
        }
        let ghost st = state_of(&mode, slides@, errs@, registry@, base);
        assert(st == scan(fname@, base, all));
        proof {
            assert(registry@ =~= reg0 + registry@.skip(base as int));
        }
        let ghost e0 = errs@;
        let ghost s0 = slides@;
        match mode {
            ParseMode::Initial => {
                errs.push(SlideLoadError::MissingInitialDelimiter);
            },
            ParseMode::Metadata(open, _, _) => {
                errs.push(SlideLoadError::IncompleteMetadata(open + 1));
            },
            ParseMode::CapturingFragments(slide) => {
                slides.push(slide);
            },
            ParseMode::CapturingNotes(slide) => {
                slides.push(slide);
            },
            ParseMode::Aborting => {},
        }
        proof {
            assert(error_views(errs@) =~= finish(st).errors);
            assert(slide_views(slides@) =~= finish(st).slides);
        }
        if errs.len() == 0 {
            Ok(SlideFile { fname: name, slides })
        } else {
            Err(errs)
        }
    }
}

impl SlideContent {
    /// The raw metadata tree.
    pub fn meta_raw(&self) -> &marked_yaml::Node {
        &self.meta
    }

    /// The provenance handle under which the metadata was parsed.
    pub fn source(&self) -> (r: usize)
        ensures
            r == self@.source,
    {
        self.source
    }

    /// The 1-based line of the delimiter that opened this slide's metadata.
    pub fn lineno(&self) -> (r: usize)
        ensures
            r == self@.lineno,
    {
        self.lineno
    }

    /// The content fragments.
    pub fn parts(&self) -> (r: &[String])
        ensures
            views(r@) == self@.parts,
    {
        self.parts.as_slice()
    }

    /// The speaker notes.
    pub fn notes(&self) -> (r: &str)
        ensures
            r@ == self@.notes,
    {
        self.notes.as_str()
    }
}

impl SlideFile {
    /// The name of the slide file.
    pub fn fname(&self) -> (r: String)
        ensures
            r@ == self@.0,
    {
        self.fname.clone()
    }

    /// The slides in this file, in order of appearance.
    pub fn slides(&self) -> (r: &[SlideContent])
        ensures
            slide_views(r@) == self@.1,
    {
        self.slides.as_slice()
    }
}

// ------------------------------------------------------------------------
// Laws

/// Whether `st`'s mode holds a slide in progress.
pub open spec fn in_progress(m: ModeModel) -> nat {
    match m {
        ModeModel::CapturingFragments(_) => 1,
        ModeModel::CapturingNotes(_) => 1,
        _ => 0,
    }
}

/// Whether slide `s`, the `j`-th of the file (0-based), came from the source
/// that the scan registered under its handle.
pub open spec fn traced(st: ScanModel, fname: Seq<char>, base: nat, s: SlideModel, j: nat) -> bool {
    &&& base <= s.source < base + st.records.len()
    &&& st.records[s.source - base] is Slide
    &&& st.records[s.source - base]->Slide_0 == fname
    &&& st.records[s.source - base]->Slide_1 == j + 1
    &&& s.parts.len() >= 1
}

/// What every state of the scan keeps.
pub open spec fn accounted(st: ScanModel, fname: Seq<char>, base: nat) -> bool {
    &&& st.records.len() == st.slides.len() + in_progress(st.mode) + st.errors.len()
    &&& st.mode is Aborting ==> st.errors.len() > 0
    &&& forall|j: int| 0 <= j < st.slides.len() ==> traced(st, fname, base, #[trigger] st.slides[j], j as nat)
    &&& st.mode is CapturingFragments ==> traced(st, fname, base, st.mode->CapturingFragments_0, st.slides.len())
    &&& st.mode is CapturingNotes ==> traced(st, fname, base, st.mode->CapturingNotes_0, st.slides.len())
}

proof fn lemma_step_accounted(fname: Seq<char>, base: nat, st: ScanModel, ofs: nat, line: Seq<char>)
    requires
        accounted(st, fname, base),
    ensures
        accounted(step(fname, base, st, ofs, line), fname, base),
{
    let r = step(fname, base, st, ofs, line);
    assert forall|j: int| 0 <= j < r.slides.len() implies traced(r, fname, base, #[trigger] r.slides[j], j as nat) by {
        if j < st.slides.len() {
            assert(traced(st, fname, base, st.slides[j], j as nat));
        }
    }
}

proof fn lemma_run_accounted(fname: Seq<char>, base: nat, lines: Seq<Seq<char>>, n: nat)
    requires
        1 <= n <= lines.len(),
    ensures
        accounted(run(fname, base, lines, n), fname, base),
    decreases n,
{
    if n > 1 {
        lemma_run_accounted(fname, base, lines, (n - 1) as nat);
        lemma_step_accounted(fname, base, run(fname, base, lines, (n - 1) as nat), (n - 1) as nat, lines[n - 1]);
    }
}

proof fn lemma_parse_accounted(fname: Seq<char>, base: nat, text: Seq<char>)
    ensures
        ({
            let m = parse_model(fname, base, text);
            &&& m.errors.len() == 0 ==> m.records.len() == m.slides.len()
            &&& forall|j: int| 0 <= j < m.slides.len() ==> traced(m, fname, base, #[trigger] m.slides[j], j as nat)
        }),
{
    let lines = lines_of(text);
    let st = scan(fname, base, lines);
    if lines.len() > 0 && is_delimiter(lines[0]) {
        lemma_run_accounted(fname, base, lines, lines.len());
    }
    let m = finish(st);
    assert forall|j: int| 0 <= j < m.slides.len() implies traced(m, fname, base, #[trigger] m.slides[j], j as nat) by {
        if j < st.slides.len() {
            assert(traced(st, fname, base, st.slides[j], j as nat));
        }
    }
}

/// A file that parses without error has one slide for each metadata block
/// that was opened and closed (each closed block registers one source), and
/// every slide has at least one fragment.
pub proof fn slide_per_closed_block(fname: Seq<char>, base: nat, text: Seq<char>)
    requires
        parse_model(fname, base, text).errors.len() == 0,
    ensures
        parse_model(fname, base, text).slides.len() == parse_model(fname, base, text).records.len(),
        forall|j: int| 0 <= j < parse_model(fname, base, text).slides.len()
            ==> (#[trigger] parse_model(fname, base, text).slides[j]).parts.len() >= 1,
{
    lemma_parse_accounted(fname, base, text);
    let m = parse_model(fname, base, text);
    assert forall|j: int| 0 <= j < m.slides.len() implies (#[trigger] m.slides[j]).parts.len() >= 1 by {
        assert(traced(m, fname, base, m.slides[j], j as nat));
    }
}

/// A `***` line in a slide's body starts exactly one new, empty fragment.
pub proof fn fragment_marker_adds_one(fname: Seq<char>, base: nat, st: ScanModel, ofs: nat)
    requires
        st.mode is CapturingFragments,
    ensures
        step(fname, base, st, ofs, seq!['*', '*', '*']).mode is CapturingFragments,
        step(fname, base, st, ofs, seq!['*', '*', '*']).mode->CapturingFragments_0.parts
            == st.mode->CapturingFragments_0.parts.push(Seq::empty()),
        step(fname, base, st, ofs, seq!['*', '*', '*']).slides == st.slides,
{
}

/// Once in the notes, a second `???` line is ordinary notes text.
pub proof fn second_notes_marker_is_text(fname: Seq<char>, base: nat, st: ScanModel, ofs: nat)
    requires
        st.mode is CapturingNotes,
    ensures
        step(fname, base, st, ofs, seq!['?', '?', '?']).mode is CapturingNotes,
        step(fname, base, st, ofs, seq!['?', '?', '?']).mode->CapturingNotes_0.notes
            == st.mode->CapturingNotes_0.notes + seq!['?', '?', '?', '\n'],
        step(fname, base, st, ofs, seq!['?', '?', '?']).mode->CapturingNotes_0.parts
            == st.mode->CapturingNotes_0.parts,
{
    let line = seq!['?', '?', '?'];
    assert(!is_delimiter(line)) by {
        assert(line[0] != '-');
    }
    assert(with_newline(line) =~= seq!['?', '?', '?', '\n']);
}

/// Two parses that share a registry, one after the other, hand out distinct
/// handles: every handle of the first is below every handle of the second,
/// and each handle is the position in the registry of the source record of
/// its own slide.
pub proof fn parses_get_distinct_handles(
    registry: Seq<SourceModel>,
    fname1: Seq<char>,
    text1: Seq<char>,
    fname2: Seq<char>,
    text2: Seq<char>,
)
    ensures
        ({
            let m1 = parse_model(fname1, registry.len(), text1);
            let after1 = registry + m1.records;
            let m2 = parse_model(fname2, after1.len(), text2);
            let after2 = after1 + m2.records;
            &&& forall|i: int, j: int|
                0 <= i < m1.slides.len() && 0 <= j < m2.slides.len()
                ==> #[trigger] m1.slides[i].source < #[trigger] m2.slides[j].source
            &&& forall|i: int| 0 <= i < m1.slides.len() ==> {
                let h = #[trigger] m1.slides[i].source;
                &&& h < after2.len()
                &&& after2[h as int] is Slide
                &&& after2[h as int]->Slide_0 == fname1
                &&& after2[h as int]->Slide_1 == i + 1
            }
            &&& forall|j: int| 0 <= j < m2.slides.len() ==> {
                let h = #[trigger] m2.slides[j].source;
                &&& h < after2.len()
                &&& after2[h as int] is Slide
                &&& after2[h as int]->Slide_0 == fname2
                &&& after2[h as int]->Slide_1 == j + 1
            }
        }),
{
    let m1 = parse_model(fname1, registry.len(), text1);
    let after1 = registry + m1.records;
    let m2 = parse_model(fname2, after1.len(), text2);
    let after2 = after1 + m2.records;
    lemma_parse_accounted(fname1, registry.len(), text1);
    lemma_parse_accounted(fname2, after1.len(), text2);
    assert forall|i: int, j: int|
        0 <= i < m1.slides.len() && 0 <= j < m2.slides.len()
        implies #[trigger] m1.slides[i].source < #[trigger] m2.slides[j].source by {
        assert(traced(m1, fname1, registry.len(), m1.slides[i], i as nat));
        assert(traced(m2, fname2, after1.len(), m2.slides[j], j as nat));
    }
    assert forall|i: int| 0 <= i < m1.slides.len() implies {
        let h = #[trigger] m1.slides[i].source;
        &&& h < after2.len()
        &&& after2[h as int] is Slide
        &&& after2[h as int]->Slide_0 == fname1
        &&& after2[h as int]->Slide_1 == i + 1
    } by {
        assert(traced(m1, fname1, registry.len(), m1.slides[i], i as nat));
        let h = m1.slides[i].source;
        assert(after2[h as int] == m1.records[h - registry.len()]);
    }
    assert forall|j: int| 0 <= j < m2.slides.len() implies {
        let h = #[trigger] m2.slides[j].source;
        &&& h < after2.len()
        &&& after2[h as int] is Slide
        &&& after2[h as int]->Slide_0 == fname2
        &&& after2[h as int]->Slide_1 == j + 1
    } by {
        assert(traced(m2, fname2, after1.len(), m2.slides[j], j as nat));
        let h = m2.slides[j].source;
        assert(after2[h as int] == m2.records[h - after1.len()]);
    }
}

/// Parsing the same file twice gives two disjoint sets of handles: the
/// registry never reuses or resets them.
pub proof fn reparse_handles_disjoint(registry: Seq<SourceModel>, fname: Seq<char>, text: Seq<char>)
    ensures
        ({
            let m1 = parse_model(fname, registry.len(), text);
            let m2 = parse_model(fname, registry.len() + m1.records.len(), text);
            forall|i: int, j: int|
                0 <= i < m1.slides.len() && 0 <= j < m2.slides.len()
                ==> #[trigger] m1.slides[i].source != #[trigger] m2.slides[j].source
        }),
{
    let m1 = parse_model(fname, registry.len(), text);
    lemma_parse_accounted(fname, registry.len(), text);
    lemma_parse_accounted(fname, registry.len() + m1.records.len(), text);
    let m2 = parse_model(fname, registry.len() + m1.records.len(), text);
    assert forall|i: int, j: int|
        0 <= i < m1.slides.len() && 0 <= j < m2.slides.len()
        implies #[trigger] m1.slides[i].source != #[trigger] m2.slides[j].source by {
        assert(traced(m1, fname, registry.len(), m1.slides[i], i as nat));
        assert(traced(m2, fname, registry.len() + m1.records.len(), m2.slides[j], j as nat));
    }
}

} // verus!
