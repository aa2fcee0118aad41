//! The streaming engine: a script run line by line with constant memory,
//! keeping only a window of context lines for the diff. It is a state
//! machine: the caller hands it lines (and whether more follow), and it
//! answers with the lines to write and to print, asking for one more line
//! when `n` or `N` needs it.
use vstd::prelude::*;
use crate::cli::RegexFlavor;
use crate::command::{Address, Command, SAddress, SCommand, SRange, clone_commands, commands_view, lemma_commands_view};
use crate::file_processor::common::{
    AddressContext, ChangeType, FileDiff, LineChange, PatternRangeState, SubstitutionEngine, is_step_multiple,
    matches_address, spec_apply, spec_matches,
};
use crate::path_policy::{spec_validate_operand, validate_script_file_operand};
use crate::regex_engine::{regex_is_match, regex_new, regex_new_error};
use crate::regex_error::{EnhancedRegexError, ErrorModel};
use crate::text::{decimal, first_line, first_line_of, push_char, push_str, push_string, str_to_string, strs, usize_to_string};

verus! {

broadcast use vstd::string::group_string_axioms;

/// Where a range whose start and end are of different kinds stands.
#[derive(Clone)]
pub enum MixedState {
    LookingForPattern,
    InRangeUntilLine { target_line: usize },
    InRangeUntilPattern { end_pattern: String },
}

/// Model of `MixedState`.
pub enum MixedModel {
    LookingForPattern,
    InRangeUntilLine { target_line: usize },
    InRangeUntilPattern { end_pattern: Seq<char> },
}

impl View for MixedState {
    type V = MixedModel;

    open spec fn view(&self) -> MixedModel {
        match self {
            MixedState::LookingForPattern => MixedModel::LookingForPattern,
            MixedState::InRangeUntilLine { target_line } => MixedModel::InRangeUntilLine { target_line: *target_line },
            MixedState::InRangeUntilPattern { end_pattern } => MixedModel::InRangeUntilPattern { end_pattern: end_pattern@ },
        }
    }
}

/// Why streaming stopped with an error.
#[derive(Debug)]
pub enum StreamError {
    /// A pattern does not compile (as used by a substitution)
    Regex(EnhancedRegexError),
    /// A range pattern does not compile
    InvalidPattern(String),
    /// A file name given to `r`, `R`, `w` or `W` is refused
    UnsafePath(String),
    /// A file command, which streaming does not support (with its file name)
    FileCommandUnsupported(String),
    /// A command streaming does not support inside a group (its letter)
    CommandUnsupported(String),
}

/// Model of a streaming error.
pub enum StreamErrorM {
    Regex(ErrorModel),
    InvalidPattern(Seq<char>),
    UnsafePath(Seq<char>),
    FileCommandUnsupported(Seq<char>),
    CommandUnsupported(Seq<char>),
}

impl View for StreamError {
    type V = StreamErrorM;

    open spec fn view(&self) -> StreamErrorM {
        match self {
            StreamError::Regex(e) => StreamErrorM::Regex(e@),
            StreamError::InvalidPattern(s) => StreamErrorM::InvalidPattern(s@),
            StreamError::UnsafePath(s) => StreamErrorM::UnsafePath(s@),
            StreamError::FileCommandUnsupported(s) => StreamErrorM::FileCommandUnsupported(s@),
            StreamError::CommandUnsupported(s) => StreamErrorM::CommandUnsupported(s@),
        }
    }
}

/// A line the engine produces: for the output file, or for the terminal.
#[derive(Debug, Clone)]
pub enum Emit {
    Write(String),
    Print(String),
}

/// Model of an emitted line: `true` for the output file.
pub open spec fn emit_view(e: Emit) -> (bool, Seq<char>) {
    match e {
        Emit::Write(s) => (true, s@),
        Emit::Print(s) => (false, s@),
    }
}

pub open spec fn emits_view(v: Seq<Emit>) -> Seq<(bool, Seq<char>)> {
    v.map_values(|e: Emit| emit_view(e))
}

/// Processor for streaming large files with constant memory usage.
pub struct StreamProcessor {
    commands: Vec<Command>,
    hold_space: String,
    current_line: usize,
    current_is_last_line: bool,
    context_buffer: Vec<(usize, String, ChangeType)>,
    context_size: usize,
    context_lines_to_read: usize,
    pattern_range_states: Vec<((String, String), PatternRangeState)>,
    mixed_range_states: Vec<(usize, MixedState)>,
    dry_run: bool,
    sub_engine: SubstitutionEngine,
    no_default_output: bool,
    line_num: usize,
    changes: Vec<LineChange>,
    printed_lines: Vec<String>,
    source_name: String,
    emits: Vec<Emit>,
    work: LineWork,
    pending: Option<Pending>,
}

/// The state of the line being processed.
pub struct LineWork {
    pub processed_line: String,
    pub current_original_line: String,
    pub line_changed: bool,
    pub skip_line: bool,
    pub print_line: bool,
    pub append_text: Option<String>,
    pub should_quit_after_line: bool,
    pub terminate_after_line: bool,
    pub suppress_default_output: bool,
    pub change_replacement_emitted: bool,
    pub quit_at_once: bool,
}

/// Model of the line being processed.
pub struct WorkModel {
    pub processed: Seq<char>,
    pub original: Seq<char>,
    pub line_changed: bool,
    pub skip_line: bool,
    pub print_line: bool,
    pub append_text: Option<Seq<char>>,
    pub should_quit: bool,
    pub terminate: bool,
    pub suppress: bool,
    pub change_emitted: bool,
    /// `q` without an address: the stream ends before this line is written.
    pub quit_now: bool,
}

impl View for LineWork {
    type V = WorkModel;

    open spec fn view(&self) -> WorkModel {
        WorkModel {
            processed: self.processed_line@,
            original: self.current_original_line@,
            line_changed: self.line_changed,
            skip_line: self.skip_line,
            print_line: self.print_line,
            append_text: match self.append_text {
                Some(t) => Some(t@),
                None => None,
            },
            should_quit: self.should_quit_after_line,
            terminate: self.terminate_after_line,
            suppress: self.suppress_default_output,
            change_emitted: self.change_replacement_emitted,
            quit_now: self.quit_at_once,
        }
    }
}

/// The work on a line of nothing.
pub open spec fn empty_work() -> WorkModel {
    WorkModel {
        processed: Seq::empty(),
        original: Seq::empty(),
        line_changed: false,
        skip_line: false,
        print_line: false,
        append_text: None,
        should_quit: false,
        terminate: false,
        suppress: false,
        change_emitted: false,
        quit_now: false,
    }
}

/// The work on a fresh line.
pub open spec fn fresh_work(line: Seq<char>) -> WorkModel {
    WorkModel { processed: line, original: line, ..empty_work() }
}

fn new_work(line: String) -> (w: LineWork)
    ensures
        w@ == fresh_work(line@),
{
    LineWork {
        processed_line: line.clone(),
        current_original_line: line,
        line_changed: false,
        skip_line: false,
        print_line: false,
        append_text: None,
        should_quit_after_line: false,
        terminate_after_line: false,
        suppress_default_output: false,
        change_replacement_emitted: false,
        quit_at_once: false,
    }
}

/// A command waiting for the next input line: `n` or `N`, at the top level
/// (command index) or in a group (command index, index in the group).
#[derive(Debug, Clone, Copy, PartialEq, Eq, Structural)]
pub enum Pending {
    TopNext { ci: usize },
    TopNextAppend { ci: usize },
    GroupNext { ci: usize, gi: usize },
    GroupNextAppend { ci: usize, gi: usize },
}

/// Model of a diff record.
pub type ChangeM = (usize, ChangeType, Seq<char>, Option<Seq<char>>);

pub open spec fn change_view(c: LineChange) -> ChangeM {
    (c.line_number, c.change_type, c.content@, match c.old_content {
        Some(o) => Some(o@),
        None => None,
    })
}

pub open spec fn changes_view(v: Seq<LineChange>) -> Seq<ChangeM> {
    v.map_values(|c: LineChange| change_view(c))
}

/// Model of the configuration and the state kept across lines.
pub struct StreamModel {
    pub commands: Seq<SCommand>,
    pub hold: Seq<char>,
    pub current_line: usize,
    pub is_last: bool,
    pub buffer: Seq<(usize, Seq<char>, ChangeType)>,
    pub context_size: usize,
    pub to_read: usize,
    pub pattern_ranges: Seq<((Seq<char>, Seq<char>), PatternRangeState)>,
    pub mixed: Seq<(usize, MixedModel)>,
    pub dry_run: bool,
    pub flavor: RegexFlavor,
    pub no_default_output: bool,
    pub line_num: usize,
    pub changes: Seq<ChangeM>,
    pub printed: Seq<Seq<char>>,
    pub source: Seq<char>,
    pub emits: Seq<(bool, Seq<char>)>,
    pub work: WorkModel,
    pub pending: Option<Pending>,
}

pub open spec fn buffer_view(v: Seq<(usize, String, ChangeType)>) -> Seq<(usize, Seq<char>, ChangeType)> {
    v.map_values(|e: (usize, String, ChangeType)| (e.0, e.1@, e.2))
}

pub open spec fn pranges_view(v: Seq<((String, String), PatternRangeState)>) -> Seq<((Seq<char>, Seq<char>), PatternRangeState)> {
    v.map_values(|e: ((String, String), PatternRangeState)| ((e.0.0@, e.0.1@), e.1))
}

pub open spec fn mixed_view(v: Seq<(usize, MixedState)>) -> Seq<(usize, MixedModel)> {
    v.map_values(|e: (usize, MixedState)| (e.0, e.1@))
}

impl View for StreamProcessor {
    type V = StreamModel;

    closed spec fn view(&self) -> StreamModel {
        StreamModel {
            commands: commands_view(self.commands@),
            hold: self.hold_space@,
            current_line: self.current_line,
            is_last: self.current_is_last_line,
            buffer: buffer_view(self.context_buffer@),
            context_size: self.context_size,
            to_read: self.context_lines_to_read,
            pattern_ranges: pranges_view(self.pattern_range_states@),
            mixed: mixed_view(self.mixed_range_states@),
            dry_run: self.dry_run,
            flavor: self.sub_engine.flavor(),
            no_default_output: self.no_default_output,
            line_num: self.line_num,
            changes: changes_view(self.changes@),
            printed: strs(self.printed_lines@),
            source: self.source_name@,
            emits: emits_view(self.emits@),
            work: self.work@,
            pending: self.pending,
        }
    }
}

/// The size from which files are streamed rather than read whole.
pub open spec fn streaming_threshold() -> nat {
    100 * 1024 * 1024
}

impl StreamProcessor {
    /// A processor for `commands` with PCRE patterns, two context lines, no
    /// dry run, and automatic printing on.
    pub fn new(commands: Vec<Command>) -> (sp: Self)
        ensures
            sp@ == Self::new_model(commands_view(commands@)),
    {
        let sp = StreamProcessor {
            commands,
            hold_space: String::new(),
            current_line: 0,
            current_is_last_line: false,
            context_buffer: Vec::new(),
            context_size: 2,
            context_lines_to_read: 0,
            pattern_range_states: Vec::new(),
            mixed_range_states: Vec::new(),
            dry_run: false,
            sub_engine: SubstitutionEngine::new(RegexFlavor::PCRE),
            no_default_output: false,
            line_num: 0,
            changes: Vec::new(),
            printed_lines: Vec::new(),
            source_name: String::new(),
            emits: Vec::new(),
            work: new_work(String::new()),
            pending: None,
        };
        assert(changes_view(sp.changes@) =~= Seq::empty());
        assert(strs(sp.printed_lines@) =~= Seq::empty());
        assert(emits_view(sp.emits@) =~= Seq::empty());
        assert(buffer_view(sp.context_buffer@) =~= Seq::empty());
        assert(pranges_view(sp.pattern_range_states@) =~= Seq::empty());
        assert(mixed_view(sp.mixed_range_states@) =~= Seq::empty());
        sp
    }

    /// Like `new`, with the given regex flavor.
    pub fn with_regex_flavor(commands: Vec<Command>, regex_flavor: RegexFlavor) -> (sp: Self)
        ensures
            sp@ == (StreamModel { flavor: regex_flavor, ..Self::new_model(commands_view(commands@)) }),
    {
        let mut sp = Self::new(commands);
        sp.sub_engine = SubstitutionEngine::new(regex_flavor);
        sp
    }

    /// The model of `new`.
    pub open spec fn new_model(cs: Seq<SCommand>) -> StreamModel {
        StreamModel {
            commands: cs,
            hold: Seq::empty(),
            current_line: 0,
            is_last: false,
            buffer: Seq::empty(),
            context_size: 2,
            to_read: 0,
            pattern_ranges: Seq::empty(),
            mixed: Seq::empty(),
            dry_run: false,
            flavor: RegexFlavor::PCRE,
            no_default_output: false,
            line_num: 0,
            changes: Seq::empty(),
            printed: Seq::empty(),
            source: Seq::empty(),
            emits: Seq::empty(),
            work: fresh_work(Seq::empty()),
            pending: None,
        }
    }

    /// The number of unchanged lines kept around each change.
    pub fn with_context_size(self, size: usize) -> (sp: Self)
        ensures
            sp@ == (StreamModel { context_size: size, ..self@ }),
    {
        let mut s = self;
        s.context_size = size;
        s
    }

    /// Suppress the automatic printing of the pattern space (`-n`).
    pub fn with_no_default_output(self, no_output: bool) -> (sp: Self)
        ensures
            sp@ == (StreamModel { no_default_output: no_output, ..self@ }),
    {
        let mut s = self;
        s.no_default_output = no_output;
        s
    }

    /// Only preview: the result is not to be saved.
    pub fn with_dry_run(self, dry_run: bool) -> (sp: Self)
        ensures
            sp@ == (StreamModel { dry_run: dry_run, ..self@ }),
    {
        let mut s = self;
        s.dry_run = dry_run;
        s
    }

    /// Whether the result is only previewed.
    pub fn is_dry_run(&self) -> (b: bool)
        ensures
            b == self@.dry_run,
    {
        self.dry_run
    }

    /// Whether a file of this many bytes is streamed: from 100 MiB on.
    pub fn should_use_streaming(file_size: u64) -> (b: bool)
        ensures
            b == (file_size >= streaming_threshold()),
    {
        file_size >= 100 * 1024 * 1024
    }
}

// ---------------------------------------------------------------------------
// Ranges

/// Whether an address selects the current line; the number of lines is not
/// known, only whether this is the last.
pub open spec fn current_matches(m: StreamModel, a: SAddress, line: Seq<char>) -> bool {
    spec_matches(a, line, m.current_line, None, m.is_last)
}

/// A pattern compiles.
pub open spec fn compiles(p: Seq<char>) -> bool {
    regex_new_error(p) is None
}

/// A compiled pattern matches the line.
pub open spec fn re_match(p: Seq<char>, line: Seq<char>) -> bool {
    regex_is_match((p, false), line)
}

pub open spec fn prange_get(v: Seq<((Seq<char>, Seq<char>), PatternRangeState)>, key: (Seq<char>, Seq<char>)) -> Option<PatternRangeState>
    decreases v.len(),
{
    if v.len() == 0 {
        None
    } else if v[0].0 == key {
        Some(v[0].1)
    } else {
        prange_get(v.drop_first(), key)
    }
}

pub open spec fn prange_set(v: Seq<((Seq<char>, Seq<char>), PatternRangeState)>, key: (Seq<char>, Seq<char>), s: PatternRangeState) -> Seq<
    ((Seq<char>, Seq<char>), PatternRangeState),
>
    decreases v.len(),
{
    if v.len() == 0 {
        seq![(key, s)]
    } else if v[0].0 == key {
        seq![(key, s)] + v.drop_first()
    } else {
        seq![v[0]] + prange_set(v.drop_first(), key, s)
    }
}

pub open spec fn mixed_get(v: Seq<(usize, MixedModel)>, key: usize) -> Option<MixedModel>
    decreases v.len(),
{
    if v.len() == 0 {
        None
    } else if v[0].0 == key {
        Some(v[0].1)
    } else {
        mixed_get(v.drop_first(), key)
    }
}

pub open spec fn mixed_set(v: Seq<(usize, MixedModel)>, key: usize, s: MixedModel) -> Seq<(usize, MixedModel)>
    decreases v.len(),
{
    if v.len() == 0 {
        seq![(key, s)]
    } else if v[0].0 == key {
        seq![(key, s)] + v.drop_first()
    } else {
        seq![v[0]] + mixed_set(v.drop_first(), key, s)
    }
}

pub open spec fn mixed_remove(v: Seq<(usize, MixedModel)>, key: usize) -> Seq<(usize, MixedModel)>
    decreases v.len(),
{
    if v.len() == 0 {
        v
    } else if v[0].0 == key {
        v.drop_first()
    } else {
        seq![v[0]] + mixed_remove(v.drop_first(), key)
    }
}

pub open spec fn invalid(p: Seq<char>) -> StreamErrorM {
    StreamErrorM::InvalidPattern(p)
}

/// Whether a range selects the current line (the command at index `ci`
/// owns the states of its mixed ranges), and the states after. Pattern to
/// pattern ranges run from a start match through an end match; a pattern
/// start with a line or pattern end, or a relative end, is tracked per
/// command; line-number, last-line and step ranges are checked directly.
pub open spec fn spec_range_check(m: StreamModel, line: Seq<char>, r: SRange, ci: usize) -> (Result<bool, StreamErrorM>, StreamModel) {
    match (r.0, r.1) {
        (SAddress::Pattern(a), SAddress::Pattern(b)) => if a == b {
            if !compiles(a) { (Err(invalid(a)), m) } else { (Ok(re_match(a, line)), m) }
        } else {
            let key = (a, b);
            let st = match prange_get(m.pattern_ranges, key) {
                Some(s) => s,
                None => PatternRangeState::LookingForStart,
            };
            let m1 = StreamModel { pattern_ranges: prange_set(m.pattern_ranges, key, st), ..m };
            if !compiles(a) {
                (Err(invalid(a)), m1)
            } else if !compiles(b) {
                (Err(invalid(b)), m1)
            } else {
                match st {
                    PatternRangeState::LookingForStart => if re_match(a, line) {
                        (Ok(true), StreamModel { pattern_ranges: prange_set(m.pattern_ranges, key, PatternRangeState::InRange), ..m })
                    } else {
                        (Ok(false), m1)
                    },
                    PatternRangeState::InRange => if re_match(b, line) {
                        (Ok(true), StreamModel {
                            pattern_ranges: prange_set(m.pattern_ranges, key, PatternRangeState::LookingForStart),
                            ..m
                        })
                    } else {
                        (Ok(true), m1)
                    },
                }
            }
        },
        (SAddress::Pattern(a), SAddress::LineNumber(e)) => {
            let st = match mixed_get(m.mixed, ci) {
                Some(s) => s,
                None => MixedModel::LookingForPattern,
            };
            let m1 = StreamModel { mixed: mixed_set(m.mixed, ci, st), ..m };
            if !compiles(a) {
                (Err(invalid(a)), m1)
            } else {
                match st {
                    MixedModel::LookingForPattern => if re_match(a, line) {
                        (Ok(true), StreamModel { mixed: mixed_set(m.mixed, ci, MixedModel::InRangeUntilLine { target_line: e }), ..m })
                    } else {
                        (Ok(false), m1)
                    },
                    MixedModel::InRangeUntilLine { target_line } => if m.current_line >= target_line {
                        (Ok(true), StreamModel { mixed: mixed_set(m.mixed, ci, MixedModel::LookingForPattern), ..m })
                    } else {
                        (Ok(true), m1)
                    },
                    _ => (Ok(false), m1),
                }
            }
        },
        (SAddress::LineNumber(s), SAddress::Pattern(b)) => {
            let st = match mixed_get(m.mixed, ci) {
                Some(x) => x,
                None => MixedModel::LookingForPattern,
            };
            let m1 = StreamModel { mixed: mixed_set(m.mixed, ci, st), ..m };
            match st {
                MixedModel::LookingForPattern => if m.current_line >= s {
                    (Ok(true), StreamModel { mixed: mixed_set(m.mixed, ci, MixedModel::InRangeUntilPattern { end_pattern: b }), ..m })
                } else {
                    (Ok(false), m1)
                },
                MixedModel::InRangeUntilPattern { end_pattern } => if !compiles(end_pattern) {
                    (Err(invalid(end_pattern)), m1)
                } else if re_match(end_pattern, line) {
                    (Ok(true), StreamModel { mixed: mixed_set(m.mixed, ci, MixedModel::LookingForPattern), ..m })
                } else {
                    (Ok(true), m1)
                },
                _ => (Ok(false), m1),
            }
        },
        (SAddress::Pattern(a), SAddress::Relative { offset, .. }) => if !compiles(a) {
            (Err(invalid(a)), m)
        } else if re_match(a, line) {
            (Ok(true), StreamModel {
                mixed: mixed_set(
                    m.mixed,
                    ci,
                    MixedModel::InRangeUntilLine {
                        target_line: vstd::wrapping::usize_specs::wrapping_add_signed(m.current_line, offset),
                    },
                ),
                ..m
            })
        } else {
            match mixed_get(m.mixed, ci) {
                Some(MixedModel::InRangeUntilLine { target_line }) => if m.current_line <= target_line {
                    (Ok(true), m)
                } else {
                    (Ok(false), StreamModel { mixed: mixed_remove(m.mixed, ci), ..m })
                },
                _ => (Ok(false), m),
            }
        },
        (SAddress::LineNumber(s), SAddress::LineNumber(e)) => (Ok(s <= m.current_line && m.current_line <= e), m),
        (SAddress::LastLine, SAddress::LastLine) => (Ok(m.is_last), m),
        (SAddress::LineNumber(s), SAddress::LastLine) => (Ok(m.current_line >= s), m),
        (SAddress::LastLine, SAddress::LineNumber(e)) => (Ok(m.is_last && m.current_line <= e), m),
        (SAddress::Step { start, step }, _) => (Ok(
            m.current_line >= start && is_step_multiple(m.current_line - start, step as int),
        ), m),
        (_, SAddress::Step { start, step }) => (Ok(
            m.current_line >= start && is_step_multiple(m.current_line - start, step as int),
        ), m),
        _ => (Ok(false), m),
    }
}

proof fn lemma_prange_index(v: Seq<((Seq<char>, Seq<char>), PatternRangeState)>, key: (Seq<char>, Seq<char>), i: int, s: PatternRangeState)
    requires
        0 <= i <= v.len(),
        forall|k: int| 0 <= k < i ==> v[k].0 != key,
        i < v.len() ==> v[i].0 == key,
    ensures
        i < v.len() ==> prange_get(v, key) == Some(v[i].1) && prange_set(v, key, s) == v.update(i, (key, s)),
        i == v.len() ==> prange_get(v, key) is None && prange_set(v, key, s) == v.push((key, s)),
    decreases v.len(),
{
    if v.len() > 0 && i > 0 {
        lemma_prange_index(v.drop_first(), key, i - 1, s);
        if i < v.len() {
            assert(seq![v[0]] + v.drop_first().update(i - 1, (key, s)) =~= v.update(i, (key, s)));
        } else {
            assert(seq![v[0]] + v.drop_first().push((key, s)) =~= v.push((key, s)));
        }
    } else if v.len() > 0 {
        assert(seq![(key, s)] + v.drop_first() =~= v.update(0, (key, s)));
    } else {
        assert(seq![(key, s)] =~= v.push((key, s)));
    }
}

proof fn lemma_mixed_index(v: Seq<(usize, MixedModel)>, key: usize, i: int, s: MixedModel)
    requires
        0 <= i <= v.len(),
        forall|k: int| 0 <= k < i ==> v[k].0 != key,
        i < v.len() ==> v[i].0 == key,
    ensures
        i < v.len() ==> mixed_get(v, key) == Some(v[i].1) && mixed_set(v, key, s) == v.update(i, (key, s))
            && mixed_remove(v, key) == v.remove(i),
        i == v.len() ==> mixed_get(v, key) is None && mixed_set(v, key, s) == v.push((key, s)) && mixed_remove(v, key) == v,
    decreases v.len(),
{
    if v.len() > 0 && i > 0 {
        lemma_mixed_index(v.drop_first(), key, i - 1, s);
        if i < v.len() {
            assert(seq![v[0]] + v.drop_first().update(i - 1, (key, s)) =~= v.update(i, (key, s)));
            assert(seq![v[0]] + v.drop_first().remove(i - 1) =~= v.remove(i));
        } else {
            assert(seq![v[0]] + v.drop_first().push((key, s)) =~= v.push((key, s)));
            assert(seq![v[0]] + v.drop_first() =~= v);
        }
    } else if v.len() > 0 {
        assert(seq![(key, s)] + v.drop_first() =~= v.update(0, (key, s)));
        assert(v.drop_first() =~= v.remove(0));
    } else {
        assert(seq![(key, s)] =~= v.push((key, s)));
    }
}

fn compile_match(pattern: &String, line: &str) -> (r: Result<bool, StreamError>)
    ensures
        !compiles(pattern@) ==> (r matches Err(e) && e@ == invalid(pattern@)),
        compiles(pattern@) ==> r == Ok::<bool, StreamError>(re_match(pattern@, line@)),
{
    match regex_new(pattern.as_str()) {
        Ok(re) => Ok(re.is_match(line)),
        Err(_) => Err(StreamError::InvalidPattern(pattern.clone())),
    }
}

fn pattern_compiles(pattern: &String) -> (r: Result<(), StreamError>)
    ensures
        !compiles(pattern@) ==> (r matches Err(e) && e@ == invalid(pattern@)),
        compiles(pattern@) ==> r is Ok,
{
    match regex_new(pattern.as_str()) {
        Ok(_) => Ok(()),
        Err(_) => Err(StreamError::InvalidPattern(pattern.clone())),
    }
}

fn clone_mixed(m: &MixedState) -> (r: MixedState)
    ensures
        r@ == m@,
{
    match m {
        MixedState::LookingForPattern => MixedState::LookingForPattern,
        MixedState::InRangeUntilLine { target_line } => MixedState::InRangeUntilLine { target_line: *target_line },
        MixedState::InRangeUntilPattern { end_pattern } => MixedState::InRangeUntilPattern { end_pattern: end_pattern.clone() },
    }
}

impl StreamProcessor {
    fn prange_index(&self, a: &String, b: &String) -> (r: Option<usize>)
        ensures
            match r {
                Some(i) => i < self.pattern_range_states@.len() && self@.pattern_ranges[i as int].0 == (a@, b@)
                    && forall|k: int| 0 <= k < i ==> self@.pattern_ranges[k].0 != (a@, b@),
                None => forall|k: int| 0 <= k < self.pattern_range_states@.len() ==> self@.pattern_ranges[k].0 != (a@, b@),
            },
    {
        let mut i: usize = 0;
        while i < self.pattern_range_states.len()
            invariant
                i <= self.pattern_range_states@.len(),
                forall|k: int| 0 <= k < i ==> pranges_view(self.pattern_range_states@)[k].0 != (a@, b@),
            decreases self.pattern_range_states@.len() - i,
        {
            let e = &self.pattern_range_states[i];
            if e.0.0 == *a && e.0.1 == *b {
                return Some(i);
            }
            i += 1;
        }
        None
    }

    fn set_prange(&mut self, a: &String, b: &String, st: PatternRangeState)
        ensures
            final(self)@ == (StreamModel { pattern_ranges: prange_set(old(self)@.pattern_ranges, (a@, b@), st), ..old(self)@ }),
    {
        let ghost v = self@.pattern_ranges;
        match self.prange_index(a, b) {
            Some(i) => {
                proof { lemma_prange_index(v, (a@, b@), i as int, st); }
                self.pattern_range_states.set(i, ((a.clone(), b.clone()), st));
                assert(pranges_view(self.pattern_range_states@) =~= v.update(i as int, ((a@, b@), st)));
            }
            None => {
                proof { lemma_prange_index(v, (a@, b@), v.len() as int, st); }
                self.pattern_range_states.push(((a.clone(), b.clone()), st));
                assert(pranges_view(self.pattern_range_states@) =~= v.push(((a@, b@), st)));
            }
        }
    }

    fn mixed_index(&self, key: usize) -> (r: Option<usize>)
        ensures
            match r {
                Some(i) => i < self.mixed_range_states@.len() && self@.mixed[i as int].0 == key && forall|k: int|
                    0 <= k < i ==> self@.mixed[k].0 != key,
                None => forall|k: int| 0 <= k < self.mixed_range_states@.len() ==> self@.mixed[k].0 != key,
            },
    {
        let mut i: usize = 0;
        while i < self.mixed_range_states.len()
            invariant
                i <= self.mixed_range_states@.len(),
                forall|k: int| 0 <= k < i ==> mixed_view(self.mixed_range_states@)[k].0 != key,
            decreases self.mixed_range_states@.len() - i,
        {
            if self.mixed_range_states[i].0 == key {
                return Some(i);
            }
            i += 1;
        }
        None
    }

    fn get_mixed(&self, key: usize) -> (r: Option<MixedState>)
        ensures
            match mixed_get(self@.mixed, key) {
                Some(m) => r matches Some(x) && x@ == m,
                None => r is None,
            },
    {
        let ghost v = self@.mixed;
        match self.mixed_index(key) {
            Some(i) => {
                proof { lemma_mixed_index(v, key, i as int, MixedModel::LookingForPattern); }
                Some(clone_mixed(&self.mixed_range_states[i].1))
            }
            None => {
                proof { lemma_mixed_index(v, key, v.len() as int, MixedModel::LookingForPattern); }
                None
            }
        }
    }

    fn set_mixed(&mut self, key: usize, st: MixedState)
        ensures
            final(self)@ == (StreamModel { mixed: mixed_set(old(self)@.mixed, key, st@), ..old(self)@ }),
    {
        let ghost v = self@.mixed;
        let ghost sv = st@;
        match self.mixed_index(key) {
            Some(i) => {
                proof { lemma_mixed_index(v, key, i as int, sv); }
                self.mixed_range_states.set(i, (key, st));
                assert(mixed_view(self.mixed_range_states@) =~= v.update(i as int, (key, sv)));
            }
            None => {
                proof { lemma_mixed_index(v, key, v.len() as int, sv); }
                self.mixed_range_states.push((key, st));
                assert(mixed_view(self.mixed_range_states@) =~= v.push((key, sv)));
            }
        }
    }

    fn remove_mixed(&mut self, key: usize)
        ensures
            final(self)@ == (StreamModel { mixed: mixed_remove(old(self)@.mixed, key), ..old(self)@ }),
    {
        let ghost v = self@.mixed;
        match self.mixed_index(key) {
            Some(i) => {
                proof { lemma_mixed_index(v, key, i as int, MixedModel::LookingForPattern); }
                self.mixed_range_states.remove(i);
                assert(mixed_view(self.mixed_range_states@) =~= v.remove(i as int));
            }
            None => {
                proof { lemma_mixed_index(v, key, v.len() as int, MixedModel::LookingForPattern); }
            }
        }
    }

    /// Whether a range selects the current line, for the command with the
    /// given index; the range states are updated.
    fn should_apply_command_with_range(&mut self, line: &str, range: &(Address, Address), command_index: usize) -> (r: Result<bool, StreamError>)
        ensures
            ({
                let (res, m) = spec_range_check(old(self)@, line@, crate::command::range_view(*range), command_index);
                &&& final(self)@ == m
                &&& match res {
                    Ok(b) => r == Ok::<bool, StreamError>(b),
                    Err(e) => r matches Err(x) && x@ == e,
                }
            }),
    {
        match (&range.0, &range.1) {
            (Address::Pattern(a), Address::Pattern(b)) => {
                if *a == *b {
                    return compile_match(a, line);
                }
                let ghost m0 = self@;
                let st = match self.prange_index(a, b) {
                    Some(i) => {
                        proof { lemma_prange_index(m0.pattern_ranges, (a@, b@), i as int, PatternRangeState::InRange); }
                        self.pattern_range_states[i].1
                    }
                    None => {
                        proof {
                            lemma_prange_index(m0.pattern_ranges, (a@, b@), m0.pattern_ranges.len() as int, PatternRangeState::InRange);
                        }
                        PatternRangeState::LookingForStart
                    }
                };
                self.set_prange(a, b, st);
                match pattern_compiles(a) {
                    Err(e) => { return Err(e); }
                    Ok(()) => {}
                }
                match pattern_compiles(b) {
                    Err(e) => { return Err(e); }
                    Ok(()) => {}
                }
                match st {
                    PatternRangeState::LookingForStart => match compile_match(a, line) {
                        Err(e) => Err(e),
                        Ok(true) => {
                            proof { prange_set_twice(m0.pattern_ranges, (a@, b@), st, PatternRangeState::InRange); }
                            self.set_prange(a, b, PatternRangeState::InRange);
                            Ok(true)
                        }
                        Ok(false) => Ok(false),
                    },
                    PatternRangeState::InRange => match compile_match(b, line) {
                        Err(e) => Err(e),
                        Ok(true) => {
                            proof { prange_set_twice(m0.pattern_ranges, (a@, b@), st, PatternRangeState::LookingForStart); }
                            self.set_prange(a, b, PatternRangeState::LookingForStart);
                            Ok(true)
                        }
                        Ok(false) => Ok(true),
                    },
                }
            }
            (Address::Pattern(a), Address::LineNumber(e)) => {
                let st = match self.get_mixed(command_index) {
                    Some(x) => x,
                    None => MixedState::LookingForPattern,
                };
                let ghost m0 = self@;
                let ghost sv = st@;
                self.set_mixed(command_index, clone_mixed(&st));
                match pattern_compiles(a) {
                    Err(err) => { return Err(err); }
                    Ok(()) => {}
                }
                match st {
                    MixedState::LookingForPattern => match compile_match(a, line) {
                        Err(err) => Err(err),
                        Ok(true) => {
                            proof { mixed_set_twice(m0.mixed, command_index, sv, MixedModel::InRangeUntilLine { target_line: *e }); }
                            self.set_mixed(command_index, MixedState::InRangeUntilLine { target_line: *e });
                            Ok(true)
                        }
                        Ok(false) => Ok(false),
                    },
                    MixedState::InRangeUntilLine { target_line } => {
                        if self.current_line >= target_line {
                            proof { mixed_set_twice(m0.mixed, command_index, sv, MixedModel::LookingForPattern); }
                            self.set_mixed(command_index, MixedState::LookingForPattern);
                        }
                        Ok(true)
                    }
                    _ => Ok(false),
                }
            }
            (Address::LineNumber(start), Address::Pattern(b)) => {
                let st = match self.get_mixed(command_index) {
                    Some(x) => x,
                    None => MixedState::LookingForPattern,
                };
                let ghost m0 = self@;
                let ghost sv = st@;
                self.set_mixed(command_index, clone_mixed(&st));
                match st {
                    MixedState::LookingForPattern => {
                        if self.current_line >= *start {
                            proof {
                                mixed_set_twice(m0.mixed, command_index, sv, MixedModel::InRangeUntilPattern { end_pattern: b@ });
                            }
                            self.set_mixed(command_index, MixedState::InRangeUntilPattern { end_pattern: b.clone() });
                            Ok(true)
                        } else {
                            Ok(false)
                        }
                    }
                    MixedState::InRangeUntilPattern { end_pattern } => match compile_match(&end_pattern, line) {
                        Err(err) => Err(err),
                        Ok(true) => {
                            proof { mixed_set_twice(m0.mixed, command_index, sv, MixedModel::LookingForPattern); }
                            self.set_mixed(command_index, MixedState::LookingForPattern);
                            Ok(true)
                        }
                        Ok(false) => Ok(true),
                    },
                    _ => Ok(false),
                }
            }
            (Address::Pattern(a), Address::Relative { offset, .. }) => match compile_match(a, line) {
                Err(err) => Err(err),
                Ok(true) => {
                    let target = self.current_line.wrapping_add_signed(*offset);
                    self.set_mixed(command_index, MixedState::InRangeUntilLine { target_line: target });
                    Ok(true)
                }
                Ok(false) => match self.get_mixed(command_index) {
                    Some(MixedState::InRangeUntilLine { target_line }) => {
                        if self.current_line <= target_line {
                            Ok(true)
                        } else {
                            self.remove_mixed(command_index);
                            Ok(false)
                        }
                    }
                    _ => Ok(false),
                },
            },
            (Address::LineNumber(s), Address::LineNumber(e)) => Ok(*s <= self.current_line && self.current_line <= *e),
            (Address::LastLine, Address::LastLine) => Ok(self.current_is_last_line),
            (Address::LineNumber(s), Address::LastLine) => Ok(self.current_line >= *s),
            (Address::LastLine, Address::LineNumber(e)) => Ok(self.current_is_last_line && self.current_line <= *e),
            (Address::Step { start, step }, _) => Ok(self.check_stepping(*start, *step)),
            (_, Address::Step { start, step }) => Ok(self.check_stepping(*start, *step)),
            _ => Ok(false),
        }
    }

    /// Whether the current line is `start`, `start + step`, ...
    fn check_stepping(&self, start: usize, step: usize) -> (b: bool)
        ensures
            b == (self@.current_line >= start && is_step_multiple(self@.current_line - start, step as int)),
    {
        if self.current_line < start {
            false
        } else {
            let diff = self.current_line - start;
            if step == 0 {
                diff == 0
            } else {
                diff % step == 0
            }
        }
    }
}

proof fn mixed_set_twice(v: Seq<(usize, MixedModel)>, key: usize, s1: MixedModel, s2: MixedModel)
    ensures
        mixed_set(mixed_set(v, key, s1), key, s2) == mixed_set(v, key, s2),
    decreases v.len(),
{
    if v.len() > 0 && v[0].0 != key {
        mixed_set_twice(v.drop_first(), key, s1, s2);
        assert((seq![v[0]] + mixed_set(v.drop_first(), key, s1)).drop_first() =~= mixed_set(v.drop_first(), key, s1));
    } else if v.len() > 0 {
        assert((seq![(key, s1)] + v.drop_first()).drop_first() =~= v.drop_first());
    } else {
        assert(seq![(key, s1)].drop_first() =~= Seq::<(usize, MixedModel)>::empty());
    }
}

proof fn prange_set_twice(v: Seq<((Seq<char>, Seq<char>), PatternRangeState)>, key: (Seq<char>, Seq<char>), s1: PatternRangeState, s2: PatternRangeState)
    ensures
        prange_set(prange_set(v, key, s1), key, s2) == prange_set(v, key, s2),
    decreases v.len(),
{
    if v.len() > 0 && v[0].0 != key {
        prange_set_twice(v.drop_first(), key, s1, s2);
        assert((seq![v[0]] + prange_set(v.drop_first(), key, s1)).drop_first() =~= prange_set(v.drop_first(), key, s1));
    } else if v.len() > 0 {
        assert((seq![(key, s1)] + v.drop_first()).drop_first() =~= v.drop_first());
    } else {
        assert(seq![(key, s1)].drop_first() =~= Seq::<((Seq<char>, Seq<char>), PatternRangeState)>::empty());
    }
}

// ---------------------------------------------------------------------------
// Commands on the current line

/// What processing goes on with after a command.
#[derive(Debug, Clone, Copy, PartialEq, Eq, Structural)]
pub enum Flow {
    /// The next command
    Continue,
    /// Leave the current command list
    Break,
    /// Wait for the next input line
    Need(Pending),
}

pub type Outcome = (Result<Flow, StreamErrorM>, StreamModel);

pub open spec fn flow_view(r: Result<Flow, StreamError>) -> Result<Flow, StreamErrorM> {
    match r {
        Ok(f) => Ok(f),
        Err(e) => Err(e@),
    }
}

pub open spec fn with_work(m: StreamModel, w: WorkModel) -> StreamModel {
    StreamModel { work: w, ..m }
}

/// Whether an optional range selects the line (none selects every line).
pub open spec fn spec_applies(m: StreamModel, r: Option<SRange>, ci: usize) -> (Result<bool, StreamErrorM>, StreamModel) {
    match r {
        None => (Ok(true), m),
        Some(r) => spec_range_check(m, m.work.processed, r, ci),
    }
}

/// Whether an optional address selects the line (none selects every line).
pub open spec fn addr_applies(m: StreamModel, a: Option<SAddress>) -> bool {
    match a {
        None => true,
        Some(a) => current_matches(m, a, m.work.processed),
    }
}

/// The model after emitting a line (`true`: to the output file).
pub open spec fn emit(m: StreamModel, to_file: bool, line: Seq<char>) -> StreamModel {
    StreamModel { emits: m.emits.push((to_file, line)), ..m }
}

/// The model after printing a line to the terminal and recording it.
pub open spec fn print(m: StreamModel, line: Seq<char>) -> StreamModel {
    StreamModel { emits: m.emits.push((false, line)), printed: m.printed.push(line), ..m }
}

/// The model after recording a diff entry.
pub open spec fn record(m: StreamModel, c: ChangeM) -> StreamModel {
    StreamModel { changes: m.changes.push(c), ..m }
}

/// A substitution on the current line.
#[verifier::opaque]
pub open spec fn act_sub(m: StreamModel, range: Option<SRange>, pattern: Seq<char>, replacement: Seq<char>, flags: crate::command::SubstitutionFlags, ci: usize) -> Outcome {
    let (ap, m1) = spec_applies(m, range, ci);
    match ap {
        Err(e) => (Err(e), m1),
        Ok(false) => (Ok(Flow::Continue), m1),
        Ok(true) => match spec_apply(m1.flavor, m1.work.processed, pattern, replacement, flags) {
            Err(x) => (Err(StreamErrorM::Regex(x)), m1),
            Ok(new) => {
                let changed = new != m1.work.processed;
                (Ok(Flow::Continue), with_work(m1, WorkModel {
                    processed: new,
                    line_changed: m1.work.line_changed || changed,
                    print_line: m1.work.print_line || (changed && flags.print),
                    ..m1.work
                }))
            },
        },
    }
}

/// A command that sets a flag of the line when its range selects it.
#[verifier::opaque]
pub open spec fn act_flag(m: StreamModel, r: SRange, ci: usize, set_print: bool) -> Outcome {
    let (ap, m1) = spec_range_check(m, m.work.processed, r, ci);
    match ap {
        Err(e) => (Err(e), m1),
        Ok(false) => (Ok(Flow::Continue), m1),
        Ok(true) => (Ok(Flow::Continue), with_work(m1, if set_print {
            WorkModel { print_line: true, ..m1.work }
        } else {
            WorkModel { skip_line: true, ..m1.work }
        })),
    }
}

/// `i`: the text is written before the line.
#[verifier::opaque]
pub open spec fn act_insert(m: StreamModel, text: Seq<char>, address: SAddress) -> Outcome {
    if current_matches(m, address, m.work.processed) {
        (Ok(Flow::Continue), record(emit(m, true, text), (m.line_num, ChangeType::Added, text, None)))
    } else {
        (Ok(Flow::Continue), m)
    }
}

/// `a`: the text is written after the line.
#[verifier::opaque]
pub open spec fn act_append(m: StreamModel, text: Seq<char>, address: SAddress) -> Outcome {
    if current_matches(m, address, m.work.processed) {
        (Ok(Flow::Continue), with_work(m, WorkModel { append_text: Some(text), ..m.work }))
    } else {
        (Ok(Flow::Continue), m)
    }
}

/// `c`: the line is dropped; at the end of the range the text is written.
#[verifier::opaque]
pub open spec fn act_change(m: StreamModel, text: Seq<char>, r: SRange, ci: usize) -> Outcome {
    let (ap, m1) = spec_range_check(m, m.work.processed, r, ci);
    match ap {
        Err(e) => (Err(e), m1),
        Ok(false) => (Ok(Flow::Continue), m1),
        Ok(true) => if current_matches(m1, r.1, m1.work.processed) {
            let m2 = record(emit(m1, true, text), (m1.line_num, ChangeType::Modified, text, Some(m1.work.original)));
            (Ok(Flow::Continue), with_work(m2, WorkModel { change_emitted: true, skip_line: true, ..m1.work }))
        } else {
            (Ok(Flow::Continue), with_work(m1, WorkModel { skip_line: true, ..m1.work }))
        },
    }
}

/// `P`: the first line of the pattern space is printed.
#[verifier::opaque]
pub open spec fn act_first_line(m: StreamModel, range: Option<SRange>, ci: usize) -> Outcome {
    let (ap, m1) = spec_applies(m, range, ci);
    match ap {
        Err(e) => (Err(e), m1),
        Ok(false) => (Ok(Flow::Continue), m1),
        Ok(true) => (Ok(Flow::Continue), print(m1, match first_line(m1.work.processed) {
            Some(l) => l,
            None => Seq::empty(),
        })),
    }
}

/// `=`: the line number is printed.
#[verifier::opaque]
pub open spec fn act_line_number(m: StreamModel, a: Option<SAddress>) -> Outcome {
    if addr_applies(m, a) {
        (Ok(Flow::Continue), print(m, decimal(m.current_line as nat)))
    } else {
        (Ok(Flow::Continue), m)
    }
}

/// `F`: the name of the input is printed.
#[verifier::opaque]
pub open spec fn act_filename(m: StreamModel, a: Option<SAddress>) -> Outcome {
    if addr_applies(m, a) {
        (Ok(Flow::Continue), print(m, m.source))
    } else {
        (Ok(Flow::Continue), m)
    }
}

/// The hold-space commands: 0 `h`, 1 `H`, 2 `g`, 3 `G`, 4 `x`. `g` and `G`
/// do nothing while the hold space is empty.
#[verifier::opaque]
pub open spec fn act_hold(m: StreamModel, range: Option<SRange>, ci: usize, op: int) -> Outcome {
    let (ap, m1) = spec_applies(m, range, ci);
    match ap {
        Err(e) => (Err(e), m1),
        Ok(false) => (Ok(Flow::Continue), m1),
        Ok(true) => {
            let w = m1.work;
            (Ok(Flow::Continue), if op == 0 {
                StreamModel { hold: w.processed, ..m1 }
            } else if op == 1 {
                StreamModel { hold: if m1.hold.len() > 0 { m1.hold + seq!['\n'] + w.processed } else { w.processed }, ..m1 }
            } else if op == 2 {
                if m1.hold.len() > 0 {
                    with_work(m1, WorkModel { processed: m1.hold, line_changed: true, ..w })
                } else {
                    m1
                }
            } else if op == 3 {
                if m1.hold.len() > 0 {
                    with_work(m1, WorkModel { processed: w.processed + seq!['\n'] + m1.hold, line_changed: true, ..w })
                } else {
                    m1
                }
            } else {
                StreamModel { hold: w.processed, work: WorkModel { processed: m1.hold, line_changed: true, ..w }, ..m1 }
            })
        },
    }
}

/// `n` (`append` false) or `N` (`append` true): `n` writes the line unless
/// automatic printing is off; both then wait for the next input line.
#[verifier::opaque]
pub open spec fn act_next(m: StreamModel, range: Option<SRange>, ci: usize, append: bool, p: Pending) -> Outcome {
    let (ap, m1) = spec_applies(m, range, ci);
    match ap {
        Err(e) => (Err(e), m1),
        Ok(false) => (Ok(Flow::Continue), m1),
        Ok(true) => (Ok(Flow::Need(p)), if !append && !m1.no_default_output {
            emit(m1, true, m1.work.processed)
        } else {
            m1
        }),
    }
}

/// `z`: the pattern space is emptied.
#[verifier::opaque]
pub open spec fn act_clear(m: StreamModel, a: Option<SAddress>) -> Outcome {
    if addr_applies(m, a) {
        (Ok(Flow::Continue), with_work(m, WorkModel {
            processed: Seq::empty(),
            line_changed: m.work.line_changed || m.work.processed.len() > 0,
            ..m.work
        }))
    } else {
        (Ok(Flow::Continue), m)
    }
}

/// `q`: without an address, the stream ends at once, before this line is
/// written and without running the commands after it; with one, processing
/// stops after the line it selects.
#[verifier::opaque]
pub open spec fn act_quit(m: StreamModel, a: Option<SAddress>) -> Outcome {
    if a is None {
        (Ok(Flow::Break), with_work(m, WorkModel { quit_now: true, ..m.work }))
    } else if addr_applies(m, a) {
        (Ok(Flow::Continue), with_work(m, WorkModel { should_quit: true, ..m.work }))
    } else {
        (Ok(Flow::Continue), m)
    }
}

/// A file command, which streaming refuses: an unsafe name is reported as
/// such, else the command as unsupported.
#[verifier::opaque]
pub open spec fn act_file(m: StreamModel, filename: Seq<char>, unsupported: StreamErrorM) -> Outcome {
    (Err(file_error(filename, unsupported)), m)
}

/// The error for a file command: an unsafe name, else the command.
pub open spec fn file_error(filename: Seq<char>, unsupported: StreamErrorM) -> StreamErrorM {
    match spec_validate_operand(filename) {
        Err(msg) => StreamErrorM::UnsafePath(msg),
        Ok(_) => unsupported,
    }
}

/// The letter of a command, as error messages name it.
pub open spec fn command_letter(c: SCommand) -> Seq<char> {
    match c {
        SCommand::Substitution { .. } => "s"@,
        SCommand::Delete { .. } => "d"@,
        SCommand::Print { .. } => "p"@,
        SCommand::Quit { .. } => "q"@,
        SCommand::QuitWithoutPrint { .. } => "Q"@,
        SCommand::Insert { .. } => "i"@,
        SCommand::Append { .. } => "a"@,
        SCommand::Change { .. } => "c"@,
        SCommand::Group { .. } => "{}"@,
        SCommand::Hold { .. } => "h"@,
        SCommand::HoldAppend { .. } => "H"@,
        SCommand::Get { .. } => "g"@,
        SCommand::GetAppend { .. } => "G"@,
        SCommand::Exchange { .. } => "x"@,
        SCommand::Next { .. } => "n"@,
        SCommand::NextAppend { .. } => "N"@,
        SCommand::PrintFirstLine { .. } => "P"@,
        SCommand::DeleteFirstLine { .. } => "D"@,
        SCommand::Label { .. } => ":"@,
        SCommand::Branch { .. } => "b"@,
        SCommand::Test { .. } => "t"@,
        SCommand::TestFalse { .. } => "T"@,
        SCommand::ReadFile { .. } => "r"@,
        SCommand::WriteFile { .. } => "w"@,
        SCommand::ReadLine { .. } => "R"@,
        SCommand::WriteFirstLine { .. } => "W"@,
        SCommand::PrintLineNumber { .. } => "="@,
        SCommand::PrintFilename { .. } => "F"@,
        SCommand::ClearPatternSpace { .. } => "z"@,
    }
}

/// A command inside a group whose range selected the line (`ci` is the
/// group's index, `gi` the command's index in it).
pub open spec fn spec_group_cmd(m: StreamModel, c: SCommand, ci: usize, gi: usize) -> Outcome {
    match c {
        SCommand::Substitution { pattern, replacement, flags, range } => act_sub(m, range, pattern, replacement, flags, ci),
        SCommand::Delete { range } => {
            let (ap, m1) = spec_range_check(m, m.work.processed, range, ci);
            match ap {
                Err(e) => (Err(e), m1),
                Ok(false) => (Ok(Flow::Continue), m1),
                Ok(true) => (Ok(Flow::Break), with_work(m1, WorkModel { skip_line: true, ..m1.work })),
            }
        },
        SCommand::Print { range } => act_flag(m, range, ci, true),
        SCommand::Next { range } => act_next(m, range, ci, false, Pending::GroupNext { ci, gi }),
        SCommand::NextAppend { range } => act_next(m, range, ci, true, Pending::GroupNextAppend { ci, gi }),
        SCommand::PrintFirstLine { range } => act_first_line(m, range, ci),
        SCommand::PrintLineNumber { range } => act_line_number(m, range),
        SCommand::PrintFilename { range } => act_filename(m, range),
        SCommand::Insert { text, address } => act_insert(m, text, address),
        SCommand::Append { text, address } => act_append(m, text, address),
        SCommand::Change { text, range } => act_change(m, text, range, ci),
        SCommand::Hold { range } => act_hold(m, range, ci, 0),
        SCommand::HoldAppend { range } => act_hold(m, range, ci, 1),
        SCommand::Get { range } => act_hold(m, range, ci, 2),
        SCommand::GetAppend { range } => act_hold(m, range, ci, 3),
        SCommand::Exchange { range } => act_hold(m, range, ci, 4),
        SCommand::ReadFile { filename, .. } => act_file(m, filename, StreamErrorM::CommandUnsupported(command_letter(c))),
        SCommand::ReadLine { filename, .. } => act_file(m, filename, StreamErrorM::CommandUnsupported(command_letter(c))),
        SCommand::WriteFile { filename, .. } => act_file(m, filename, StreamErrorM::CommandUnsupported(command_letter(c))),
        SCommand::WriteFirstLine { filename, .. } => act_file(m, filename, StreamErrorM::CommandUnsupported(command_letter(c))),
        _ => (Err(StreamErrorM::CommandUnsupported(command_letter(c))), m),
    }
}

/// The commands of a group from index `gi` on (`ci` is the group's index):
/// `Continue` when the group is done, `Need` when a command waits for the
/// next line; a `Break` ends the group.
pub open spec fn spec_run_group(m: StreamModel, cs: Seq<SCommand>, ci: usize, gi: int) -> Outcome
    decreases cs.len() - gi,
{
    if gi < 0 || gi >= cs.len() {
        (Ok(Flow::Continue), m)
    } else {
        let (r, m1) = spec_group_cmd(m, cs[gi], ci, gi as usize);
        match r {
            Ok(Flow::Continue) => spec_run_group(m1, cs, ci, gi + 1),
            Ok(Flow::Break) => (Ok(Flow::Continue), m1),
            _ => (r, m1),
        }
    }
}

/// A top-level command with index `ci`. Commands streaming does not run
/// (`Q`, labels, branches, `D`) are passed over; file commands are refused.
pub open spec fn spec_top_cmd(m: StreamModel, c: SCommand, ci: usize) -> Outcome {
    match c {
        SCommand::Substitution { pattern, replacement, flags, range } => act_sub(m, range, pattern, replacement, flags, ci),
        SCommand::Delete { range } => act_flag(m, range, ci, false),
        SCommand::Print { range } => act_flag(m, range, ci, true),
        SCommand::Insert { text, address } => act_insert(m, text, address),
        SCommand::Append { text, address } => act_append(m, text, address),
        SCommand::Change { text, range } => act_change(m, text, range, ci),
        SCommand::Quit { address } => act_quit(m, address),
        SCommand::Next { range } => act_next(m, range, ci, false, Pending::TopNext { ci }),
        SCommand::NextAppend { range } => act_next(m, range, ci, true, Pending::TopNextAppend { ci }),
        SCommand::PrintFirstLine { range } => act_first_line(m, range, ci),
        SCommand::PrintLineNumber { range } => act_line_number(m, range),
        SCommand::PrintFilename { range } => act_filename(m, range),
        SCommand::Hold { range } => act_hold(m, range, ci, 0),
        SCommand::HoldAppend { range } => act_hold(m, range, ci, 1),
        SCommand::Get { range } => act_hold(m, range, ci, 2),
        SCommand::GetAppend { range } => act_hold(m, range, ci, 3),
        SCommand::Exchange { range } => act_hold(m, range, ci, 4),
        SCommand::ClearPatternSpace { range } => act_clear(m, range),
        SCommand::Group { range, commands } => {
            let (ap, m1) = spec_applies(m, range, ci);
            match ap {
                Err(e) => (Err(e), m1),
                Ok(false) => (Ok(Flow::Continue), m1),
                Ok(true) => spec_run_group(m1, commands, ci, 0),
            }
        },
        SCommand::WriteFile { filename, .. } => act_file(m, filename, StreamErrorM::FileCommandUnsupported(filename)),
        SCommand::WriteFirstLine { filename, .. } => act_file(m, filename, StreamErrorM::FileCommandUnsupported(filename)),
        SCommand::ReadFile { filename, .. } => act_file(m, filename, StreamErrorM::FileCommandUnsupported(filename)),
        SCommand::ReadLine { filename, .. } => act_file(m, filename, StreamErrorM::FileCommandUnsupported(filename)),
        _ => (Ok(Flow::Continue), m),
    }
}

/// The top-level commands from index `ci` on: `Continue` when the line is
/// done with, `Need` when a command waits for the next line.
pub open spec fn spec_run_top(m: StreamModel, cs: Seq<SCommand>, ci: int) -> Outcome
    decreases cs.len() - ci,
{
    if ci < 0 || ci >= cs.len() {
        (Ok(Flow::Continue), m)
    } else {
        let (r, m1) = spec_top_cmd(m, cs[ci], ci as usize);
        match r {
            Ok(Flow::Continue) => spec_run_top(m1, cs, ci + 1),
            Ok(Flow::Break) => (Ok(Flow::Continue), m1),
            Ok(Flow::Need(p)) => (Ok(Flow::Need(p)), StreamModel { pending: Some(p), ..m1 }),
            Err(e) => (Err(e), m1),
        }
    }
}

/// The group's commands from `gi` on, then the top-level commands after
/// the group.
pub open spec fn spec_continue_group(m: StreamModel, cs: Seq<SCommand>, ci: usize, gi: int) -> Outcome {
    match cs[ci as int] {
        SCommand::Group { commands, .. } => {
            let (r, m1) = spec_run_group(m, commands, ci, gi);
            match r {
                Ok(Flow::Continue) => spec_run_top(m1, cs, ci + 1),
                Ok(Flow::Need(p)) => (Ok(Flow::Need(p)), StreamModel { pending: Some(p), ..m1 }),
                _ => (r, m1),
            }
        },
        _ => spec_run_top(m, cs, ci + 1),
    }
}

/// The model once the next input line is read: it is counted and becomes
/// the current line.
pub open spec fn advance(m: StreamModel, is_last: bool) -> StreamModel {
    StreamModel {
        line_num: (m.line_num + 1) as usize,
        current_line: (m.line_num + 1) as usize,
        is_last,
        ..m
    }
}

/// A waiting command that belongs to the script `cs`.
pub open spec fn pending_fits(p: Pending, cs: Seq<SCommand>) -> bool {
    match p {
        Pending::TopNext { ci } => ci < cs.len(),
        Pending::TopNextAppend { ci } => ci < cs.len(),
        Pending::GroupNext { ci, gi } => ci < cs.len() && gi < usize::MAX,
        Pending::GroupNextAppend { ci, gi } => ci < cs.len() && gi < usize::MAX,
    }
}

fn pending_fits_exec(p: Pending, n: usize) -> (b: bool)
    ensures
        forall|cs: Seq<SCommand>| cs.len() == n ==> b == pending_fits(p, cs),
{
    match p {
        Pending::TopNext { ci } => ci < n,
        Pending::TopNextAppend { ci } => ci < n,
        Pending::GroupNext { ci, gi } => ci < n && gi < usize::MAX,
        Pending::GroupNextAppend { ci, gi } => ci < n && gi < usize::MAX,
    }
}

/// Processing resumed with the next input line (or its absence) for the
/// command that waited for it. `n` replaces the line, `N` appends it; at
/// the end of input `n` also suppresses the automatic output, and both end
/// processing after this line.
pub open spec fn spec_resume(m: StreamModel, cs: Seq<SCommand>, next: Option<Seq<char>>, is_last: bool) -> Outcome {
    let m0 = StreamModel { pending: None, ..m };
    let w = m.work;
    match m.pending {
        None => (Ok(Flow::Continue), m0),
        Some(p) if !pending_fits(p, cs) => (Ok(Flow::Continue), m0),
        Some(Pending::TopNext { ci }) => match next {
            Some(l) => spec_run_top(
                with_work(advance(m0, is_last), WorkModel { original: l, processed: l, line_changed: false, append_text: None, ..w }),
                cs,
                ci + 1,
            ),
            None => (Ok(Flow::Continue), with_work(m0, WorkModel { suppress: true, terminate: true, ..w })),
        },
        Some(Pending::TopNextAppend { ci }) => match next {
            Some(l) => spec_run_top(
                with_work(advance(m0, is_last), WorkModel {
                    original: w.original + seq!['\n'] + l,
                    processed: w.processed + seq!['\n'] + l,
                    ..w
                }),
                cs,
                ci + 1,
            ),
            None => (Ok(Flow::Continue), with_work(m0, WorkModel { terminate: true, ..w })),
        },
        Some(Pending::GroupNext { ci, gi }) => match next {
            Some(l) => spec_continue_group(
                with_work(advance(m0, is_last), WorkModel { original: l, processed: l, line_changed: false, append_text: None, ..w }),
                cs,
                ci,
                gi + 1,
            ),
            None => spec_run_top(with_work(m0, WorkModel { suppress: true, terminate: true, ..w }), cs, ci + 1),
        },
        Some(Pending::GroupNextAppend { ci, gi }) => match next {
            Some(l) => spec_continue_group(
                with_work(advance(m0, is_last), WorkModel { processed: w.processed + seq!['\n'] + l, ..w }),
                cs,
                ci,
                gi + 1,
            ),
            None => spec_run_top(with_work(m0, WorkModel { terminate: true, ..w }), cs, ci + 1),
        },
    }
}

/// The buffer entries as diff records, in order.
pub open spec fn buffered_changes(b: Seq<(usize, Seq<char>, ChangeType)>) -> Seq<ChangeM> {
    b.map_values(|e: (usize, Seq<char>, ChangeType)| (e.0, e.2, e.1, None::<Seq<char>>))
}

/// The model with the context buffer moved into the diff.
pub open spec fn flush_buffer(m: StreamModel) -> StreamModel {
    StreamModel { changes: m.changes + buffered_changes(m.buffer), buffer: Seq::empty(), ..m }
}

/// The last `n` entries of `b`.
pub open spec fn keep_last(b: Seq<(usize, Seq<char>, ChangeType)>, n: usize) -> Seq<(usize, Seq<char>, ChangeType)> {
    if b.len() > n { b.skip(b.len() - n) } else { b }
}

/// The end of a line: after `q` without an address nothing more is printed,
/// written or recorded, and processing stops. Otherwise: print it if asked;
/// a dropped line is recorded as
/// deleted (unless a `c` text replaced it) and ends here; otherwise the line
/// is written (unless suppressed), recorded as a change with the context
/// buffered before it, or as context after a change, or kept in the
/// context window; appended text follows. Whether processing stops after
/// this line is returned with the model.
pub open spec fn spec_finish_line(m: StreamModel) -> (bool, StreamModel) {
    let w = m.work;
    if w.quit_now {
        (true, m)
    } else {
        let m1 = if w.print_line { print(m, w.processed) } else { m };
        if w.skip_line {
            (false, if !w.change_emitted { record(m1, (m.line_num, ChangeType::Deleted, w.original, None)) } else { m1 })
        } else {
            let m2 = if !m.no_default_output && !w.suppress { emit(m1, true, w.processed) } else { m1 };
            let m4 = append_line(settle_line(m2));
            if w.should_quit || w.terminate {
                (true, flush_buffer(m4))
            } else {
                (false, m4)
            }
        }
    }
}

/// A kept line in the diff: a change, with the buffered context before it;
/// context after a change; or else a line of the context window.
pub open spec fn settle_line(m: StreamModel) -> StreamModel {
    let w = m.work;
    let ct = if w.line_changed { ChangeType::Modified } else { ChangeType::Unchanged };
    if w.line_changed || w.append_text is Some {
        let f = flush_buffer(m);
        StreamModel {
            changes: f.changes.push((m.line_num, ct, w.processed, if w.line_changed { Some(w.original) } else { None })),
            to_read: m.context_size,
            ..f
        }
    } else if m.to_read > 0 {
        StreamModel { changes: m.changes.push((m.line_num, ct, w.processed, None)), to_read: (m.to_read - 1) as usize, ..m }
    } else {
        StreamModel { buffer: keep_last(m.buffer.push((m.line_num, w.processed, ct)), m.context_size), ..m }
    }
}

/// Text appended by `a`: written (unless automatic printing is off) and
/// recorded as added after the line.
pub open spec fn append_line(m: StreamModel) -> StreamModel {
    match m.work.append_text {
        Some(t) => record(
            if !m.no_default_output { emit(m, true, t) } else { m },
            ((m.line_num + 1) as usize, ChangeType::Added, t, None),
        ),
        None => m,
    }
}

/// What a step answers: wait for the next line, or the line is done (and
/// whether processing stops).
#[derive(Debug, Clone, Copy, PartialEq, Eq, Structural)]
pub enum StreamStep {
    NeedLine,
    LineDone { stop: bool },
}

/// A step's outcome: the answer and the model after it.
pub open spec fn spec_complete(r: Outcome) -> (Result<StreamStep, StreamErrorM>, StreamModel) {
    let (res, m) = r;
    match res {
        Err(e) => (Err(e), m),
        Ok(Flow::Need(_)) => (Ok(StreamStep::NeedLine), m),
        Ok(_) => {
            let (stop, m2) = spec_finish_line(m);
            (Ok(StreamStep::LineDone { stop }), m2)
        },
    }
}

/// Starting on a new input line.
pub open spec fn spec_begin_line(m: StreamModel, line: Seq<char>, is_last: bool) -> (Result<StreamStep, StreamErrorM>, StreamModel) {
    spec_complete(spec_run_top(with_work(advance(StreamModel { pending: None, ..m }, is_last), fresh_work(line)), m.commands, 0))
}

/// Going on with the next input line for the command waiting for it.
pub open spec fn spec_supply_line(m: StreamModel, next: Option<Seq<char>>, is_last: bool) -> (Result<StreamStep, StreamErrorM>, StreamModel) {
    spec_complete(spec_resume(m, m.commands, next, is_last))
}

fn push_emit(v: &mut Vec<Emit>, e: Emit)
    ensures
        emits_view(final(v)@) == emits_view(old(v)@).push(emit_view(e)),
{
    let ghost before = v@;
    v.push(e);
    assert(emits_view(v@) =~= emits_view(before).push(emit_view(e)));
}

fn push_change(v: &mut Vec<LineChange>, c: LineChange)
    ensures
        changes_view(final(v)@) == changes_view(old(v)@).push(change_view(c)),
{
    let ghost before = v@;
    v.push(c);
    assert(changes_view(v@) =~= changes_view(before).push(change_view(c)));
}

fn opt_string_clone(s: &Option<String>) -> (r: Option<String>)
    ensures
        r == *s,
{
    match s {
        Some(t) => Some(t.clone()),
        None => None,
    }
}

impl StreamProcessor {
    fn emit_line(&mut self, to_file: bool, line: String)
        ensures
            final(self)@ == emit(old(self)@, to_file, line@),
    {
        if to_file {
            push_emit(&mut self.emits, Emit::Write(line));
        } else {
            push_emit(&mut self.emits, Emit::Print(line));
        }
    }

    fn print_line(&mut self, line: String)
        ensures
            final(self)@ == print(old(self)@, line@),
    {
        push_string(&mut self.printed_lines, line.clone());
        push_emit(&mut self.emits, Emit::Print(line));
    }

    fn record(&mut self, c: LineChange)
        ensures
            final(self)@ == record(old(self)@, change_view(c)),
    {
        push_change(&mut self.changes, c);
    }

    fn current_matches_exec(&self, a: &Address) -> (b: bool)
        ensures
            b == current_matches(self@, a@, self@.work.processed),
    {
        matches_address(
            a,
            &AddressContext {
                line: self.work.processed_line.as_str(),
                line_number: self.current_line,
                total_lines: None,
                is_last_line: self.current_is_last_line,
            },
        )
    }

    fn addr_applies_exec(&self, a: &Option<Address>) -> (b: bool)
        ensures
            b == addr_applies(self@, crate::command::opt_addr_view(*a)),
    {
        match a {
            None => true,
            Some(a) => self.current_matches_exec(a),
        }
    }

    fn range_check_exec(&mut self, r: &(Address, Address), ci: usize) -> (res: Result<bool, StreamError>)
        ensures
            ({
                let (x, m) = spec_range_check(old(self)@, old(self)@.work.processed, crate::command::range_view(*r), ci);
                &&& final(self)@ == m
                &&& match x {
                    Ok(b) => res == Ok::<bool, StreamError>(b),
                    Err(e) => res matches Err(y) && y@ == e,
                }
            }),
    {
        let line = self.work.processed_line.clone();
        self.should_apply_command_with_range(line.as_str(), r, ci)
    }

    fn applies_exec(&mut self, r: &Option<(Address, Address)>, ci: usize) -> (res: Result<bool, StreamError>)
        ensures
            ({
                let (x, m) = spec_applies(old(self)@, crate::command::opt_range_view(*r), ci);
                &&& final(self)@ == m
                &&& match x {
                    Ok(b) => res == Ok::<bool, StreamError>(b),
                    Err(e) => res matches Err(y) && y@ == e,
                }
            }),
    {
        match r {
            None => Ok(true),
            Some(r) => self.range_check_exec(r, ci),
        }
    }
}

impl StreamProcessor {
    #[verifier::rlimit(40)]
    fn exec_sub(&mut self, range: &Option<(Address, Address)>, pattern: &String, replacement: &String, flags: &crate::command::SubstitutionFlags, ci: usize) -> (r: Result<Flow, StreamError>)
        ensures
            (flow_view(r), final(self)@) == act_sub(old(self)@, crate::command::opt_range_view(*range), pattern@, replacement@, *flags, ci),
    {
        reveal(act_sub);
        match self.applies_exec(range, ci) {
            Err(e) => Err(e),
            Ok(false) => Ok(Flow::Continue),
            Ok(true) => {
                match self.sub_engine.apply(self.work.processed_line.as_str(), pattern.as_str(), replacement.as_str(), flags) {
                    Err(x) => Err(StreamError::Regex(x)),
                    Ok(new) => {
                        let changed = new != self.work.processed_line;
                        self.work.processed_line = new;
                        self.work.line_changed = self.work.line_changed || changed;
                        self.work.print_line = self.work.print_line || (changed && flags.print);
                        Ok(Flow::Continue)
                    }
                }
            }
        }
    }

    fn exec_flag(&mut self, range: &(Address, Address), ci: usize, set_print: bool) -> (r: Result<Flow, StreamError>)
        ensures
            (flow_view(r), final(self)@) == act_flag(old(self)@, crate::command::range_view(*range), ci, set_print),
    {
        reveal(act_flag);
        match self.range_check_exec(range, ci) {
            Err(e) => Err(e),
            Ok(false) => Ok(Flow::Continue),
            Ok(true) => {
                if set_print {
                    self.work.print_line = true;
                } else {
                    self.work.skip_line = true;
                }
                Ok(Flow::Continue)
            }
        }
    }

    fn exec_insert(&mut self, text: &String, address: &Address) -> (r: Result<Flow, StreamError>)
        ensures
            (flow_view(r), final(self)@) == act_insert(old(self)@, text@, address@),
    {
        reveal(act_insert);
        if self.current_matches_exec(address) {
            self.emit_line(true, text.clone());
            let c = LineChange { line_number: self.line_num, change_type: ChangeType::Added, content: text.clone(), old_content: None };
            self.record(c);
        }
        Ok(Flow::Continue)
    }

    fn exec_append(&mut self, text: &String, address: &Address) -> (r: Result<Flow, StreamError>)
        ensures
            (flow_view(r), final(self)@) == act_append(old(self)@, text@, address@),
    {
        reveal(act_append);
        if self.current_matches_exec(address) {
            self.work.append_text = Some(text.clone());
        }
        Ok(Flow::Continue)
    }

    fn exec_change(&mut self, text: &String, range: &(Address, Address), ci: usize) -> (r: Result<Flow, StreamError>)
        ensures
            (flow_view(r), final(self)@) == act_change(old(self)@, text@, crate::command::range_view(*range), ci),
    {
        reveal(act_change);
        match self.range_check_exec(range, ci) {
            Err(e) => Err(e),
            Ok(false) => Ok(Flow::Continue),
            Ok(true) => {
                if self.current_matches_exec(&range.1) {
                    self.emit_line(true, text.clone());
                    let c = LineChange {
                        line_number: self.line_num,
                        change_type: ChangeType::Modified,
                        content: text.clone(),
                        old_content: Some(self.work.current_original_line.clone()),
                    };
                    self.record(c);
                    self.work.change_replacement_emitted = true;
                }
                self.work.skip_line = true;
                Ok(Flow::Continue)
            }
        }
    }

    fn exec_first_line(&mut self, range: &Option<(Address, Address)>, ci: usize) -> (r: Result<Flow, StreamError>)
        ensures
            (flow_view(r), final(self)@) == act_first_line(old(self)@, crate::command::opt_range_view(*range), ci),
    {
        reveal(act_first_line);
        match self.applies_exec(range, ci) {
            Err(e) => Err(e),
            Ok(false) => Ok(Flow::Continue),
            Ok(true) => {
                let first = match first_line_of(self.work.processed_line.as_str()) {
                    Some(l) => l,
                    None => String::new(),
                };
                self.print_line(first);
                Ok(Flow::Continue)
            }
        }
    }

    fn exec_line_number(&mut self, a: &Option<Address>) -> (r: Result<Flow, StreamError>)
        ensures
            (flow_view(r), final(self)@) == act_line_number(old(self)@, crate::command::opt_addr_view(*a)),
    {
        reveal(act_line_number);
        if self.addr_applies_exec(a) {
            let n = usize_to_string(self.current_line);
            self.print_line(n);
        }
        Ok(Flow::Continue)
    }

    fn exec_filename(&mut self, a: &Option<Address>) -> (r: Result<Flow, StreamError>)
        ensures
            (flow_view(r), final(self)@) == act_filename(old(self)@, crate::command::opt_addr_view(*a)),
    {
        reveal(act_filename);
        if self.addr_applies_exec(a) {
            let n = self.source_name.clone();
            self.print_line(n);
        }
        Ok(Flow::Continue)
    }

    #[verifier::rlimit(40)]
    fn exec_hold(&mut self, range: &Option<(Address, Address)>, ci: usize, op: u8) -> (r: Result<Flow, StreamError>)
        requires
            op <= 4,
        ensures
            (flow_view(r), final(self)@) == act_hold(old(self)@, crate::command::opt_range_view(*range), ci, op as int),
    {
        reveal(act_hold);
        match self.applies_exec(range, ci) {
            Err(e) => Err(e),
            Ok(false) => Ok(Flow::Continue),
            Ok(true) => {
                if op == 0 {
                    self.hold_space = self.work.processed_line.clone();
                } else if op == 1 {
                    let p = self.work.processed_line.clone();
                    if !self.hold_space.as_str().is_empty() {
                        let ghost h = self.hold_space@;
                        push_char(&mut self.hold_space, '\n');
                        push_str(&mut self.hold_space, p.as_str());
                        assert(h.push('\n') + p@ =~= h + seq!['\n'] + p@);
                    } else {
                        self.hold_space = p;
                    }
                } else if op == 2 {
                    if !self.hold_space.as_str().is_empty() {
                        self.work.processed_line = self.hold_space.clone();
                        self.work.line_changed = true;
                    }
                } else if op == 3 {
                    if !self.hold_space.as_str().is_empty() {
                        let ghost w = self.work.processed_line@;
                        let h = self.hold_space.clone();
                        push_char(&mut self.work.processed_line, '\n');
                        push_str(&mut self.work.processed_line, h.as_str());
                        assert(w.push('\n') + h@ =~= w + seq!['\n'] + h@);
                        self.work.line_changed = true;
                    }
                } else {
                    std::mem::swap(&mut self.work.processed_line, &mut self.hold_space);
                    self.work.line_changed = true;
                }
                Ok(Flow::Continue)
            }
        }
    }

    fn exec_next(&mut self, range: &Option<(Address, Address)>, ci: usize, append: bool, p: Pending) -> (r: Result<Flow, StreamError>)
        ensures
            (flow_view(r), final(self)@) == act_next(old(self)@, crate::command::opt_range_view(*range), ci, append, p),
    {
        reveal(act_next);
        match self.applies_exec(range, ci) {
            Err(e) => Err(e),
            Ok(false) => Ok(Flow::Continue),
            Ok(true) => {
                if !append && !self.no_default_output {
                    let l = self.work.processed_line.clone();
                    self.emit_line(true, l);
                }
                Ok(Flow::Need(p))
            }
        }
    }

    fn exec_clear(&mut self, a: &Option<Address>) -> (r: Result<Flow, StreamError>)
        ensures
            (flow_view(r), final(self)@) == act_clear(old(self)@, crate::command::opt_addr_view(*a)),
    {
        reveal(act_clear);
        if self.addr_applies_exec(a) {
            self.work.line_changed = self.work.line_changed || !self.work.processed_line.as_str().is_empty();
            self.work.processed_line = String::new();
        }
        Ok(Flow::Continue)
    }

    fn exec_quit(&mut self, a: &Option<Address>) -> (r: Result<Flow, StreamError>)
        ensures
            (flow_view(r), final(self)@) == act_quit(old(self)@, crate::command::opt_addr_view(*a)),
    {
        reveal(act_quit);
        if a.is_none() {
            self.work.quit_at_once = true;
            return Ok(Flow::Break);
        }
        if self.addr_applies_exec(a) {
            self.work.should_quit_after_line = true;
        }
        Ok(Flow::Continue)
    }
}

fn exec_file(filename: &String, unsupported: StreamError) -> (r: Result<Flow, StreamError>)
    ensures
        r matches Err(e) && e@ == file_error(filename@, unsupported@),
{
    match validate_script_file_operand(filename.as_str()) {
        Err(msg) => Err(StreamError::UnsafePath(msg)),
        Ok(_) => Err(unsupported),
    }
}

fn command_letter_exec(c: &Command) -> (s: String)
    ensures
        s@ == command_letter(c@),
{
    let l = match c {
        Command::Substitution { .. } => "s",
        Command::Delete { .. } => "d",
        Command::Print { .. } => "p",
        Command::Quit { .. } => "q",
        Command::QuitWithoutPrint { .. } => "Q",
        Command::Insert { .. } => "i",
        Command::Append { .. } => "a",
        Command::Change { .. } => "c",
        Command::Group { .. } => "{}",
        Command::Hold { .. } => "h",
        Command::HoldAppend { .. } => "H",
        Command::Get { .. } => "g",
        Command::GetAppend { .. } => "G",
        Command::Exchange { .. } => "x",
        Command::Next { .. } => "n",
        Command::NextAppend { .. } => "N",
        Command::PrintFirstLine { .. } => "P",
        Command::DeleteFirstLine { .. } => "D",
        Command::Label { .. } => ":",
        Command::Branch { .. } => "b",
        Command::Test { .. } => "t",
        Command::TestFalse { .. } => "T",
        Command::ReadFile { .. } => "r",
        Command::WriteFile { .. } => "w",
        Command::ReadLine { .. } => "R",
        Command::WriteFirstLine { .. } => "W",
        Command::PrintLineNumber { .. } => "=",
        Command::PrintFilename { .. } => "F",
        Command::ClearPatternSpace { .. } => "z",
    };
    str_to_string(l)
}

impl StreamProcessor {
    fn group_cmd(&mut self, c: &Command, ci: usize, gi: usize) -> (r: Result<Flow, StreamError>)
        ensures
            (flow_view(r), final(self)@) == spec_group_cmd(old(self)@, c@, ci, gi),
    {
        reveal(act_file);
        match c {
            Command::Substitution { pattern, replacement, flags, range } => self.exec_sub(range, pattern, replacement, flags, ci),
            Command::Delete { range } => match self.range_check_exec(range, ci) {
                Err(e) => Err(e),
                Ok(false) => Ok(Flow::Continue),
                Ok(true) => {
                    self.work.skip_line = true;
                    Ok(Flow::Break)
                }
            },
            Command::Print { range } => self.exec_flag(range, ci, true),
            Command::Next { range } => self.exec_next(range, ci, false, Pending::GroupNext { ci, gi }),
            Command::NextAppend { range } => self.exec_next(range, ci, true, Pending::GroupNextAppend { ci, gi }),
            Command::PrintFirstLine { range } => self.exec_first_line(range, ci),
            Command::PrintLineNumber { range } => self.exec_line_number(range),
            Command::PrintFilename { range } => self.exec_filename(range),
            Command::Insert { text, address } => self.exec_insert(text, address),
            Command::Append { text, address } => self.exec_append(text, address),
            Command::Change { text, range } => self.exec_change(text, range, ci),
            Command::Hold { range } => self.exec_hold(range, ci, 0),
            Command::HoldAppend { range } => self.exec_hold(range, ci, 1),
            Command::Get { range } => self.exec_hold(range, ci, 2),
            Command::GetAppend { range } => self.exec_hold(range, ci, 3),
            Command::Exchange { range } => self.exec_hold(range, ci, 4),
            Command::ReadFile { filename, .. } => exec_file(filename, StreamError::CommandUnsupported(command_letter_exec(c))),
            Command::ReadLine { filename, .. } => exec_file(filename, StreamError::CommandUnsupported(command_letter_exec(c))),
            Command::WriteFile { filename, .. } => exec_file(filename, StreamError::CommandUnsupported(command_letter_exec(c))),
            Command::WriteFirstLine { filename, .. } => exec_file(
                filename,
                StreamError::CommandUnsupported(command_letter_exec(c)),
            ),
            _ => Err(StreamError::CommandUnsupported(command_letter_exec(c))),
        }
    }

    fn run_group(&mut self, cs: &Vec<Command>, ci: usize, gi: usize) -> (r: Result<Flow, StreamError>)
        ensures
            (flow_view(r), final(self)@) == spec_run_group(old(self)@, commands_view(cs@), ci, gi as int),
    {
        let ghost cv = commands_view(cs@);
        proof { lemma_commands_view(cs@); }
        let mut k = gi;
        while k < cs.len()
            invariant
                cv == commands_view(cs@),
                cv.len() == cs@.len(),
                forall|m: int| 0 <= m < cs@.len() ==> #[trigger] cv[m] == cs@[m]@,
                gi <= k,
                spec_run_group(old(self)@, cv, ci, gi as int) == spec_run_group(self@, cv, ci, k as int),
            decreases cs@.len() - k,
        {
            assert(cv[k as int] == cs@[k as int]@);
            let r = self.group_cmd(&cs[k], ci, k);
            match r {
                Ok(Flow::Continue) => {}
                Ok(Flow::Break) => {
                    return Ok(Flow::Continue);
                }
                _ => {
                    return r;
                }
            }
            k += 1;
        }
        Ok(Flow::Continue)
    }

    fn top_cmd(&mut self, c: &Command, ci: usize) -> (r: Result<Flow, StreamError>)
        ensures
            (flow_view(r), final(self)@) == spec_top_cmd(old(self)@, c@, ci),
    {
        reveal(act_file);
        match c {
            Command::Substitution { pattern, replacement, flags, range } => self.exec_sub(range, pattern, replacement, flags, ci),
            Command::Delete { range } => self.exec_flag(range, ci, false),
            Command::Print { range } => self.exec_flag(range, ci, true),
            Command::Insert { text, address } => self.exec_insert(text, address),
            Command::Append { text, address } => self.exec_append(text, address),
            Command::Change { text, range } => self.exec_change(text, range, ci),
            Command::Quit { address } => self.exec_quit(address),
            Command::Next { range } => self.exec_next(range, ci, false, Pending::TopNext { ci }),
            Command::NextAppend { range } => self.exec_next(range, ci, true, Pending::TopNextAppend { ci }),
            Command::PrintFirstLine { range } => self.exec_first_line(range, ci),
            Command::PrintLineNumber { range } => self.exec_line_number(range),
            Command::PrintFilename { range } => self.exec_filename(range),
            Command::Hold { range } => self.exec_hold(range, ci, 0),
            Command::HoldAppend { range } => self.exec_hold(range, ci, 1),
            Command::Get { range } => self.exec_hold(range, ci, 2),
            Command::GetAppend { range } => self.exec_hold(range, ci, 3),
            Command::Exchange { range } => self.exec_hold(range, ci, 4),
            Command::ClearPatternSpace { range } => self.exec_clear(range),
            Command::Group { range, commands } => match self.applies_exec(range, ci) {
                Err(e) => Err(e),
                Ok(false) => Ok(Flow::Continue),
                Ok(true) => self.run_group(commands, ci, 0),
            },
            Command::WriteFile { filename, .. } => exec_file(filename, StreamError::FileCommandUnsupported(filename.clone())),
            Command::WriteFirstLine { filename, .. } => exec_file(filename, StreamError::FileCommandUnsupported(filename.clone())),
            Command::ReadFile { filename, .. } => exec_file(filename, StreamError::FileCommandUnsupported(filename.clone())),
            Command::ReadLine { filename, .. } => exec_file(filename, StreamError::FileCommandUnsupported(filename.clone())),
            _ => Ok(Flow::Continue),
        }
    }

    fn run_top(&mut self, cs: &Vec<Command>, ci: usize) -> (r: Result<Flow, StreamError>)
        ensures
            (flow_view(r), final(self)@) == spec_run_top(old(self)@, commands_view(cs@), ci as int),
    {
        let ghost cv = commands_view(cs@);
        proof { lemma_commands_view(cs@); }
        let mut k = ci;
        while k < cs.len()
            invariant
                cv == commands_view(cs@),
                cv.len() == cs@.len(),
                forall|m: int| 0 <= m < cs@.len() ==> #[trigger] cv[m] == cs@[m]@,
                ci <= k,
                spec_run_top(old(self)@, cv, ci as int) == spec_run_top(self@, cv, k as int),
            decreases cs@.len() - k,
        {
            assert(cv[k as int] == cs@[k as int]@);
            let r = self.top_cmd(&cs[k], k);
            match r {
                Ok(Flow::Continue) => {}
                Ok(Flow::Break) => {
                    return Ok(Flow::Continue);
                }
                Ok(Flow::Need(p)) => {
                    self.pending = Some(p);
                    return Ok(Flow::Need(p));
                }
                Err(e) => {
                    return Err(e);
                }
            }
            k += 1;
        }
        Ok(Flow::Continue)
    }

    fn continue_group(&mut self, cs: &Vec<Command>, ci: usize, gi: usize) -> (r: Result<Flow, StreamError>)
        requires
            ci < cs@.len(),
        ensures
            (flow_view(r), final(self)@) == spec_continue_group(old(self)@, commands_view(cs@), ci, gi as int),
    {
        proof { lemma_commands_view(cs@); }
        let _ = cs.len();
        match &cs[ci] {
            Command::Group { commands, .. } => {
                let r = self.run_group(commands, ci, gi);
                match r {
                    Ok(Flow::Continue) => self.run_top(cs, ci + 1),
                    Ok(Flow::Need(p)) => {
                        self.pending = Some(p);
                        Ok(Flow::Need(p))
                    }
                    _ => r,
                }
            }
            _ => self.run_top(cs, ci + 1),
        }
    }
}

fn push_joined(s: &mut String, t: &str)
    ensures
        final(s)@ == old(s)@ + seq!['\n'] + t@,
{
    let ghost before = s@;
    push_char(s, '\n');
    push_str(s, t);
    assert(before.push('\n') + t@ =~= before + seq!['\n'] + t@);
}

impl StreamProcessor {
    fn advance(&mut self, is_last: bool)
        requires
            old(self)@.line_num < usize::MAX,
        ensures
            final(self)@ == advance(old(self)@, is_last),
    {
        self.line_num = self.line_num + 1;
        self.current_line = self.line_num;
        self.current_is_last_line = is_last;
    }

    #[verifier::rlimit(40)]
    fn resume_top(&mut self, cs: &Vec<Command>, ci: usize, append: bool, next: Option<String>, is_last: bool) -> (r: Result<Flow, StreamError>)
        requires
            old(self)@.line_num < usize::MAX,
            ci < cs@.len(),
        ensures
            (flow_view(r), final(self)@) == ({
                let m0 = old(self)@;
                let w = m0.work;
                match next {
                    Some(l) => spec_run_top(
                        with_work(advance(m0, is_last), if append {
                            WorkModel { original: w.original + seq!['\n'] + l@, processed: w.processed + seq!['\n'] + l@, ..w }
                        } else {
                            WorkModel { original: l@, processed: l@, line_changed: false, append_text: None, ..w }
                        }),
                        commands_view(cs@),
                        ci + 1,
                    ),
                    None => (Ok(Flow::Continue), with_work(m0, if append {
                        WorkModel { terminate: true, ..w }
                    } else {
                        WorkModel { suppress: true, terminate: true, ..w }
                    })),
                }
            }),
    {
        let _ = cs.len();
        match next {
            Some(l) => {
                self.advance(is_last);
                if append {
                    push_joined(&mut self.work.current_original_line, l.as_str());
                    push_joined(&mut self.work.processed_line, l.as_str());
                } else {
                    self.work.current_original_line = l.clone();
                    self.work.processed_line = l;
                    self.work.line_changed = false;
                    self.work.append_text = None;
                }
                self.run_top(cs, ci + 1)
            }
            None => {
                if !append {
                    self.work.suppress_default_output = true;
                }
                self.work.terminate_after_line = true;
                Ok(Flow::Continue)
            }
        }
    }

    fn resume_group(&mut self, cs: &Vec<Command>, ci: usize, gi: usize, append: bool, next: Option<String>, is_last: bool) -> (r: Result<Flow, StreamError>)
        requires
            old(self)@.line_num < usize::MAX,
            ci < cs@.len(),
            gi < usize::MAX,
        ensures
            (flow_view(r), final(self)@) == ({
                let m0 = old(self)@;
                let w = m0.work;
                match next {
                    Some(l) => spec_continue_group(
                        with_work(advance(m0, is_last), if append {
                            WorkModel { processed: w.processed + seq!['\n'] + l@, ..w }
                        } else {
                            WorkModel { original: l@, processed: l@, line_changed: false, append_text: None, ..w }
                        }),
                        commands_view(cs@),
                        ci,
                        gi + 1,
                    ),
                    None => spec_run_top(with_work(m0, if append {
                        WorkModel { terminate: true, ..w }
                    } else {
                        WorkModel { suppress: true, terminate: true, ..w }
                    }), commands_view(cs@), ci + 1),
                }
            }),
    {
        let _ = cs.len();
        match next {
            Some(l) => {
                self.advance(is_last);
                if append {
                    push_joined(&mut self.work.processed_line, l.as_str());
                } else {
                    self.work.current_original_line = l.clone();
                    self.work.processed_line = l;
                    self.work.line_changed = false;
                    self.work.append_text = None;
                }
                self.continue_group(cs, ci, gi + 1)
            }
            None => {
                if !append {
                    self.work.suppress_default_output = true;
                }
                self.work.terminate_after_line = true;
                self.run_top(cs, ci + 1)
            }
        }
    }

    #[verifier::rlimit(40)]
    fn resume(&mut self, cs: &Vec<Command>, next: Option<String>, is_last: bool) -> (r: Result<Flow, StreamError>)
        requires
            old(self)@.line_num < usize::MAX,
        ensures
            (flow_view(r), final(self)@) == spec_resume(
                old(self)@,
                commands_view(cs@),
                match next {
                    Some(l) => Some(l@),
                    None => None,
                },
                is_last,
            ),
    {
        let p = self.pending;
        self.pending = None;
        proof { lemma_commands_view(cs@); }
        match p {
            None => Ok(Flow::Continue),
            Some(q) if !pending_fits_exec(q, cs.len()) => Ok(Flow::Continue),
            Some(Pending::TopNext { ci }) => self.resume_top(cs, ci, false, next, is_last),
            Some(Pending::TopNextAppend { ci }) => self.resume_top(cs, ci, true, next, is_last),
            Some(Pending::GroupNext { ci, gi }) => self.resume_group(cs, ci, gi, false, next, is_last),
            Some(Pending::GroupNextAppend { ci, gi }) => self.resume_group(cs, ci, gi, true, next, is_last),
        }
    }

    fn flush_buffer_to_changes(&mut self)
        ensures
            final(self)@ == flush_buffer(old(self)@),
    {
        let ghost start = self@.changes;
        let ghost b = self@.buffer;
        let mut i: usize = 0;
        while i < self.context_buffer.len()
            invariant
                i <= self.context_buffer@.len(),
                b == buffer_view(self.context_buffer@),
                self@ == (StreamModel { changes: start + buffered_changes(b.take(i as int)), ..old(self)@ }),
            decreases self.context_buffer@.len() - i,
        {
            let e = &self.context_buffer[i];
            let c = LineChange { line_number: e.0, change_type: e.2, content: e.1.clone(), old_content: None };
            push_change(&mut self.changes, c);
            proof {
                assert(b.take(i + 1) =~= b.take(i as int).push(b[i as int]));
                assert(buffered_changes(b.take(i + 1)) =~= buffered_changes(b.take(i as int)).push(change_view(c)));
            }
            i += 1;
        }
        assert(b.take(i as int) =~= b);
        self.context_buffer = Vec::new();
        assert(buffer_view(self.context_buffer@) =~= Seq::empty());
    }

    fn trim_buffer(&mut self)
        ensures
            final(self)@ == (StreamModel { buffer: keep_last(old(self)@.buffer, old(self)@.context_size), ..old(self)@ }),
    {
        let ghost full = self@.buffer;
        let ghost pre = self@;
        while self.context_buffer.len() > self.context_size
            invariant
                full.len() >= buffer_view(self.context_buffer@).len(),
                buffer_view(self.context_buffer@) == full.skip(full.len() - buffer_view(self.context_buffer@).len()),
                buffer_view(self.context_buffer@).len() >= self.context_size || full.len() <= self.context_size,
                full.len() > self.context_size || buffer_view(self.context_buffer@).len() == full.len(),
                self@ == (StreamModel { buffer: buffer_view(self.context_buffer@), ..pre }),
                self.context_size == pre.context_size,
                full == pre.buffer,
            decreases self.context_buffer@.len(),
        {
            let ghost before = buffer_view(self.context_buffer@);
            self.context_buffer.remove(0);
            assert(buffer_view(self.context_buffer@) =~= before.drop_first());
            assert(full.skip(full.len() - before.len()).drop_first() =~= full.skip(full.len() - (before.len() - 1)));
        }
        proof {
            if full.len() <= pre.context_size {
                assert(full.skip(0) =~= full);
            }
            assert(buffer_view(self.context_buffer@) == keep_last(full, pre.context_size));
        }
    }

    fn settle_line_exec(&mut self)
        ensures
            final(self)@ == settle_line(old(self)@),
    {
        let ghost m = self@;
        let ct = if self.work.line_changed { ChangeType::Modified } else { ChangeType::Unchanged };
        if self.work.line_changed || self.work.append_text.is_some() {
            self.flush_buffer_to_changes();
            let old_content = if self.work.line_changed { Some(self.work.current_original_line.clone()) } else { None };
            let c = LineChange {
                line_number: self.line_num,
                change_type: ct,
                content: self.work.processed_line.clone(),
                old_content,
            };
            self.record(c);
            self.context_lines_to_read = self.context_size;
        } else if self.context_lines_to_read > 0 {
            let c = LineChange {
                line_number: self.line_num,
                change_type: ct,
                content: self.work.processed_line.clone(),
                old_content: None,
            };
            self.record(c);
            self.context_lines_to_read = self.context_lines_to_read - 1;
        } else {
            let ghost b0 = self@.buffer;
            let entry = (self.line_num, self.work.processed_line.clone(), ct);
            self.context_buffer.push(entry);
            assert(buffer_view(self.context_buffer@) =~= b0.push((m.line_num, m.work.processed, ct)));
            self.trim_buffer();
        }
    }

    fn append_line_exec(&mut self)
        requires
            old(self)@.line_num < usize::MAX,
        ensures
            final(self)@ == append_line(old(self)@),
    {
        let appended = opt_string_clone(&self.work.append_text);
        match appended {
            Some(t2) => {
                let next_num = self.line_num + 1;
                if !self.no_default_output {
                    self.emit_line(true, t2.clone());
                }
                let c = LineChange { line_number: next_num, change_type: ChangeType::Added, content: t2, old_content: None };
                self.record(c);
            }
            None => {}
        }
    }

    fn finish_line(&mut self) -> (stop: bool)
        requires
            old(self)@.line_num < usize::MAX,
        ensures
            (stop, final(self)@) == spec_finish_line(old(self)@),
    {
        if self.work.quit_at_once {
            return true;
        }
        if self.work.print_line {
            let l = self.work.processed_line.clone();
            self.print_line(l);
        }
        if self.work.skip_line {
            if !self.work.change_replacement_emitted {
                let c = LineChange {
                    line_number: self.line_num,
                    change_type: ChangeType::Deleted,
                    content: self.work.current_original_line.clone(),
                    old_content: None,
                };
                self.record(c);
            }
            return false;
        }
        if !self.no_default_output && !self.work.suppress_default_output {
            let l = self.work.processed_line.clone();
            self.emit_line(true, l);
        }
        self.settle_line_exec();
        self.append_line_exec();
        if self.work.should_quit_after_line || self.work.terminate_after_line {
            self.flush_buffer_to_changes();
            return true;
        }
        false
    }
}

// ---------------------------------------------------------------------------
// What a line's processing leaves alone

/// The line count, the script and the configuration are the same in `b`
/// as in `a`.
pub open spec fn keeps(a: StreamModel, b: StreamModel) -> bool {
    &&& b.line_num == a.line_num
    &&& b.commands == a.commands
    &&& b.context_size == a.context_size
    &&& b.no_default_output == a.no_default_output
    &&& b.flavor == a.flavor
    &&& b.dry_run == a.dry_run
    &&& b.source == a.source
    &&& b.buffer == a.buffer
}

proof fn lemma_range_keeps(m: StreamModel, line: Seq<char>, r: SRange, ci: usize)
    ensures
        keeps(m, spec_range_check(m, line, r, ci).1),
{
}

proof fn lemma_applies_keeps(m: StreamModel, r: Option<SRange>, ci: usize)
    ensures
        keeps(m, spec_applies(m, r, ci).1),
{
    match r {
        Some(r) => lemma_range_keeps(m, m.work.processed, r, ci),
        None => {},
    }
}

proof fn lemma_acts_keep(m: StreamModel, c: SCommand, ci: usize)
    ensures
        match c {
            SCommand::Substitution { pattern, replacement, flags, range } => keeps(m, act_sub(m, range, pattern, replacement, flags, ci).1),
            SCommand::Delete { range } => keeps(m, act_flag(m, range, ci, false).1),
            SCommand::Print { range } => keeps(m, act_flag(m, range, ci, true).1),
            SCommand::Change { text, range } => keeps(m, act_change(m, text, range, ci).1),
            SCommand::PrintFirstLine { range } => keeps(m, act_first_line(m, range, ci).1),
            _ => true,
        },
{
    match c {
        SCommand::Substitution { pattern, replacement, flags, range } => {
            reveal(act_sub);
            lemma_applies_keeps(m, range, ci);
        },
        SCommand::Delete { range } => {
            reveal(act_flag);
            lemma_range_keeps(m, m.work.processed, range, ci);
        },
        SCommand::Print { range } => {
            reveal(act_flag);
            lemma_range_keeps(m, m.work.processed, range, ci);
        },
        SCommand::Change { text, range } => {
            reveal(act_change);
            lemma_range_keeps(m, m.work.processed, range, ci);
        },
        SCommand::PrintFirstLine { range } => {
            reveal(act_first_line);
            lemma_applies_keeps(m, range, ci);
        },
        _ => {},
    }
}

proof fn lemma_simple_acts_keep(m: StreamModel, r: Option<SRange>, ci: usize, a: Option<SAddress>, text: Seq<char>, addr: SAddress, op: int, append: bool, p: Pending)
    ensures
        keeps(m, act_hold(m, r, ci, op).1),
        keeps(m, act_next(m, r, ci, append, p).1),
        keeps(m, act_insert(m, text, addr).1),
        keeps(m, act_append(m, text, addr).1),
        keeps(m, act_line_number(m, a).1),
        keeps(m, act_filename(m, a).1),
        keeps(m, act_clear(m, a).1),
        keeps(m, act_quit(m, a).1),
        forall|u: StreamErrorM| keeps(m, #[trigger] act_file(m, text, u).1),
{
    reveal(act_hold);
    reveal(act_next);
    reveal(act_insert);
    reveal(act_append);
    reveal(act_line_number);
    reveal(act_filename);
    reveal(act_clear);
    reveal(act_quit);
    reveal(act_file);
    lemma_applies_keeps(m, r, ci);
}

proof fn lemma_group_cmd_keeps(m: StreamModel, c: SCommand, ci: usize, gi: usize)
    ensures
        keeps(m, spec_group_cmd(m, c, ci, gi).1),
{
    lemma_acts_keep(m, c, ci);
    match c {
        SCommand::Delete { range } => lemma_range_keeps(m, m.work.processed, range, ci),
        SCommand::Next { range } => lemma_simple_acts_keep(m, range, ci, None, Seq::empty(), SAddress::LastLine, 0, false, Pending::GroupNext { ci, gi }),
        SCommand::NextAppend { range } => lemma_simple_acts_keep(m, range, ci, None, Seq::empty(), SAddress::LastLine, 0, true, Pending::GroupNextAppend { ci, gi }),
        SCommand::PrintLineNumber { range } => lemma_simple_acts_keep(m, None, ci, range, Seq::empty(), SAddress::LastLine, 0, true, Pending::TopNext { ci }),
        SCommand::PrintFilename { range } => lemma_simple_acts_keep(m, None, ci, range, Seq::empty(), SAddress::LastLine, 0, true, Pending::TopNext { ci }),
        SCommand::Insert { text, address } => lemma_simple_acts_keep(m, None, ci, None, text, address, 0, true, Pending::TopNext { ci }),
        SCommand::Append { text, address } => lemma_simple_acts_keep(m, None, ci, None, text, address, 0, true, Pending::TopNext { ci }),
        SCommand::Hold { range } => lemma_simple_acts_keep(m, range, ci, None, Seq::empty(), SAddress::LastLine, 0, true, Pending::TopNext { ci }),
        SCommand::HoldAppend { range } => lemma_simple_acts_keep(m, range, ci, None, Seq::empty(), SAddress::LastLine, 1, true, Pending::TopNext { ci }),
        SCommand::Get { range } => lemma_simple_acts_keep(m, range, ci, None, Seq::empty(), SAddress::LastLine, 2, true, Pending::TopNext { ci }),
        SCommand::GetAppend { range } => lemma_simple_acts_keep(m, range, ci, None, Seq::empty(), SAddress::LastLine, 3, true, Pending::TopNext { ci }),
        SCommand::Exchange { range } => lemma_simple_acts_keep(m, range, ci, None, Seq::empty(), SAddress::LastLine, 4, true, Pending::TopNext { ci }),
        SCommand::ReadFile { filename, .. } => lemma_simple_acts_keep(m, None, ci, None, filename, SAddress::LastLine, 0, true, Pending::TopNext { ci }),
        SCommand::ReadLine { filename, .. } => lemma_simple_acts_keep(m, None, ci, None, filename, SAddress::LastLine, 0, true, Pending::TopNext { ci }),
        SCommand::WriteFile { filename, .. } => lemma_simple_acts_keep(m, None, ci, None, filename, SAddress::LastLine, 0, true, Pending::TopNext { ci }),
        SCommand::WriteFirstLine { filename, .. } => lemma_simple_acts_keep(m, None, ci, None, filename, SAddress::LastLine, 0, true, Pending::TopNext { ci }),
        _ => {},
    }
}

proof fn lemma_run_group_keeps(m: StreamModel, cs: Seq<SCommand>, ci: usize, gi: int)
    ensures
        keeps(m, spec_run_group(m, cs, ci, gi).1),
    decreases cs.len() - gi,
{
    if 0 <= gi < cs.len() {
        lemma_group_cmd_keeps(m, cs[gi], ci, gi as usize);
        let (r, m1) = spec_group_cmd(m, cs[gi], ci, gi as usize);
        lemma_run_group_keeps(m1, cs, ci, gi + 1);
    }
}

proof fn lemma_top_cmd_keeps(m: StreamModel, c: SCommand, ci: usize)
    ensures
        keeps(m, spec_top_cmd(m, c, ci).1),
{
    lemma_acts_keep(m, c, ci);
    match c {
        SCommand::Quit { address } => lemma_simple_acts_keep(m, None, ci, address, Seq::empty(), SAddress::LastLine, 0, true, Pending::TopNext { ci }),
        SCommand::Next { range } => lemma_simple_acts_keep(m, range, ci, None, Seq::empty(), SAddress::LastLine, 0, false, Pending::TopNext { ci }),
        SCommand::NextAppend { range } => lemma_simple_acts_keep(m, range, ci, None, Seq::empty(), SAddress::LastLine, 0, true, Pending::TopNextAppend { ci }),
        SCommand::PrintLineNumber { range } => lemma_simple_acts_keep(m, None, ci, range, Seq::empty(), SAddress::LastLine, 0, true, Pending::TopNext { ci }),
        SCommand::PrintFilename { range } => lemma_simple_acts_keep(m, None, ci, range, Seq::empty(), SAddress::LastLine, 0, true, Pending::TopNext { ci }),
        SCommand::ClearPatternSpace { range } => lemma_simple_acts_keep(m, None, ci, range, Seq::empty(), SAddress::LastLine, 0, true, Pending::TopNext { ci }),
        SCommand::Insert { text, address } => lemma_simple_acts_keep(m, None, ci, None, text, address, 0, true, Pending::TopNext { ci }),
        SCommand::Append { text, address } => lemma_simple_acts_keep(m, None, ci, None, text, address, 0, true, Pending::TopNext { ci }),
        SCommand::Hold { range } => lemma_simple_acts_keep(m, range, ci, None, Seq::empty(), SAddress::LastLine, 0, true, Pending::TopNext { ci }),
        SCommand::HoldAppend { range } => lemma_simple_acts_keep(m, range, ci, None, Seq::empty(), SAddress::LastLine, 1, true, Pending::TopNext { ci }),
        SCommand::Get { range } => lemma_simple_acts_keep(m, range, ci, None, Seq::empty(), SAddress::LastLine, 2, true, Pending::TopNext { ci }),
        SCommand::GetAppend { range } => lemma_simple_acts_keep(m, range, ci, None, Seq::empty(), SAddress::LastLine, 3, true, Pending::TopNext { ci }),
        SCommand::Exchange { range } => lemma_simple_acts_keep(m, range, ci, None, Seq::empty(), SAddress::LastLine, 4, true, Pending::TopNext { ci }),
        SCommand::ReadFile { filename, .. } => lemma_simple_acts_keep(m, None, ci, None, filename, SAddress::LastLine, 0, true, Pending::TopNext { ci }),
        SCommand::ReadLine { filename, .. } => lemma_simple_acts_keep(m, None, ci, None, filename, SAddress::LastLine, 0, true, Pending::TopNext { ci }),
        SCommand::WriteFile { filename, .. } => lemma_simple_acts_keep(m, None, ci, None, filename, SAddress::LastLine, 0, true, Pending::TopNext { ci }),
        SCommand::WriteFirstLine { filename, .. } => lemma_simple_acts_keep(m, None, ci, None, filename, SAddress::LastLine, 0, true, Pending::TopNext { ci }),
        SCommand::Group { range, commands } => {
            lemma_applies_keeps(m, range, ci);
            let (ap, m1) = spec_applies(m, range, ci);
            lemma_run_group_keeps(m1, commands, ci, 0);
        },
        _ => {},
    }
}

proof fn lemma_run_top_keeps(m: StreamModel, cs: Seq<SCommand>, ci: int)
    ensures
        keeps(m, spec_run_top(m, cs, ci).1),
    decreases cs.len() - ci,
{
    if 0 <= ci < cs.len() {
        lemma_top_cmd_keeps(m, cs[ci], ci as usize);
        let (r, m1) = spec_top_cmd(m, cs[ci], ci as usize);
        lemma_run_top_keeps(m1, cs, ci + 1);
    }
}

proof fn lemma_continue_group_keeps(m: StreamModel, cs: Seq<SCommand>, ci: usize, gi: int)
    ensures
        keeps(m, spec_continue_group(m, cs, ci, gi).1),
{
    match cs[ci as int] {
        SCommand::Group { commands, .. } => {
            lemma_run_group_keeps(m, commands, ci, gi);
            let (r, m1) = spec_run_group(m, commands, ci, gi);
            lemma_run_top_keeps(m1, cs, ci + 1);
        },
        _ => lemma_run_top_keeps(m, cs, ci + 1),
    }
}

/// Resuming reads at most one line: the count goes up by at most one, and
/// nothing else of the configuration changes.
proof fn lemma_resume_count(m: StreamModel, cs: Seq<SCommand>, next: Option<Seq<char>>, is_last: bool)
    requires
        m.line_num < usize::MAX,
    ensures
        ({
            let m2 = spec_resume(m, cs, next, is_last).1;
            &&& m2.line_num <= m.line_num + 1
            &&& m2.commands == m.commands
            &&& m2.buffer == m.buffer
            &&& m2.context_size == m.context_size
        }),
{
    let m0 = StreamModel { pending: None, ..m };
    let w = m.work;
    match m.pending {
        None => {},
        Some(p) => if pending_fits(p, cs) {
            match p {
                Pending::TopNext { ci } => match next {
                    Some(l) => lemma_run_top_keeps(with_work(advance(m0, is_last), WorkModel { original: l, processed: l, line_changed: false, append_text: None, ..w }), cs, ci + 1),
                    None => {},
                },
                Pending::TopNextAppend { ci } => match next {
                    Some(l) => lemma_run_top_keeps(with_work(advance(m0, is_last), WorkModel {
                        original: w.original + seq!['\n'] + l,
                        processed: w.processed + seq!['\n'] + l,
                        ..w
                    }), cs, ci + 1),
                    None => {},
                },
                Pending::GroupNext { ci, gi } => match next {
                    Some(l) => lemma_continue_group_keeps(with_work(advance(m0, is_last), WorkModel { original: l, processed: l, line_changed: false, append_text: None, ..w }), cs, ci, gi + 1),
                    None => lemma_run_top_keeps(with_work(m0, WorkModel { suppress: true, terminate: true, ..w }), cs, ci + 1),
                },
                Pending::GroupNextAppend { ci, gi } => match next {
                    Some(l) => lemma_continue_group_keeps(with_work(advance(m0, is_last), WorkModel { processed: w.processed + seq!['\n'] + l, ..w }), cs, ci, gi + 1),
                    None => lemma_run_top_keeps(with_work(m0, WorkModel { terminate: true, ..w }), cs, ci + 1),
                },
            }
        },
    }
}

// ---------------------------------------------------------------------------
// The stream, step by step

/// The model at the start of an input named `name`: no line read, nothing
/// recorded, printed or emitted; the hold space, the range states and the
/// context window carry over.
pub open spec fn start_stream(m: StreamModel, name: Seq<char>) -> StreamModel {
    StreamModel {
        line_num: 0,
        changes: Seq::empty(),
        printed: Seq::empty(),
        source: name,
        emits: Seq::empty(),
        work: empty_work(),
        pending: None,
        ..m
    }
}

pub open spec fn step_view(r: Result<StreamStep, StreamError>) -> Result<StreamStep, StreamErrorM> {
    match r {
        Ok(s) => Ok(s),
        Err(e) => Err(e@),
    }
}

pub open spec fn opt_line(l: Option<String>) -> Option<Seq<char>> {
    match l {
        Some(s) => Some(s@),
        None => None,
    }
}

/// The diff of a finished stream: the recorded changes with the context
/// window flushed, the printed lines, and no full listing of lines.
pub open spec fn stream_diff(m: StreamModel) -> (Seq<char>, Seq<ChangeM>, Seq<Seq<char>>) {
    (m.source, flush_buffer(m).changes, m.printed)
}

impl StreamProcessor {
    fn complete(&mut self, r: Result<Flow, StreamError>) -> (s: Result<StreamStep, StreamError>)
        requires
            old(self)@.line_num < usize::MAX,
        ensures
            ({
                let (x, m) = spec_complete((flow_view(r), old(self)@));
                step_view(s) == x && final(self)@ == m
            }),
    {
        match r {
            Err(e) => Err(e),
            Ok(Flow::Need(_)) => Ok(StreamStep::NeedLine),
            Ok(_) => {
                let stop = self.finish_line();
                Ok(StreamStep::LineDone { stop })
            }
        }
    }

    /// Starts an input named `source_name` (the name `F` prints and the
    /// diff carries).
    pub fn begin_stream(&mut self, source_name: &str)
        ensures
            final(self)@ == start_stream(old(self)@, source_name@),
    {
        self.line_num = 0;
        self.changes = Vec::new();
        self.printed_lines = Vec::new();
        self.source_name = str_to_string(source_name);
        self.emits = Vec::new();
        self.work = new_work(String::new());
        self.pending = None;
        proof {
            assert(changes_view(self.changes@) =~= Seq::empty());
            assert(strs(self.printed_lines@) =~= Seq::empty());
            assert(emits_view(self.emits@) =~= Seq::empty());
            assert(self.work@ =~= empty_work());
        }
    }

    /// Runs the script on the next input line (`is_last`: no line follows
    /// it). The answer is `NeedLine` when `n` or `N` waits for the line
    /// after it (see `supply_line`), else the line is done, with whether
    /// processing stops; what to write and print is in `take_emits`.
    pub fn begin_line(&mut self, line: String, is_last: bool) -> (r: Result<StreamStep, StreamError>)
        requires
            old(self)@.line_num < usize::MAX - 1,
        ensures
            ({
                let (x, m) = spec_begin_line(old(self)@, line@, is_last);
                step_view(r) == x && final(self)@ == m
            }),
    {
        self.pending = None;
        self.advance(is_last);
        self.work = new_work(line);
        let cs = clone_commands(&self.commands);
        let ghost m1 = self@;
        let r = self.run_top(&cs, 0);
        proof {
            lemma_run_top_keeps(m1, commands_view(cs@), 0);
        }
        self.complete(r)
    }

    /// Hands the command waiting after `NeedLine` the next input line, or
    /// `None` at the end of the input; the answer is as for `begin_line`.
    pub fn supply_line(&mut self, next: Option<String>, is_last: bool) -> (r: Result<StreamStep, StreamError>)
        requires
            old(self)@.line_num < usize::MAX - 1,
        ensures
            ({
                let (x, m) = spec_supply_line(old(self)@, opt_line(next), is_last);
                step_view(r) == x && final(self)@ == m
            }),
    {
        let cs = clone_commands(&self.commands);
        let ghost m0 = self@;
        let ghost nl = opt_line(next);
        let r = self.resume(&cs, next, is_last);
        proof {
            lemma_resume_count(m0, commands_view(cs@), nl, is_last);
        }
        self.complete(r)
    }

    /// How many input lines the current stream has read.
    pub fn lines_read(&self) -> (n: usize)
        ensures
            n == self@.line_num,
    {
        self.line_num
    }

    /// The lines emitted since the last call, in order; the engine keeps
    /// none of them.
    pub fn take_emits(&mut self) -> (out: Vec<Emit>)
        ensures
            emits_view(out@) == old(self)@.emits,
            final(self)@ == (StreamModel { emits: Seq::empty(), ..old(self)@ }),
    {
        let mut out: Vec<Emit> = Vec::new();
        std::mem::swap(&mut out, &mut self.emits);
        assert(emits_view(self.emits@) =~= Seq::empty());
        out
    }

    /// Ends the input: the context window goes into the diff, which is
    /// returned with the printed lines; the engine keeps neither.
    pub fn finish(&mut self) -> (d: FileDiff)
        ensures
            (d.file_path@, changes_view(d.changes@), strs(d.printed_lines@)) == stream_diff(old(self)@),
            d.all_lines@.len() == 0,
            d.is_streaming,
            final(self)@ == (StreamModel { changes: Seq::empty(), printed: Seq::empty(), ..flush_buffer(old(self)@) }),
    {
        self.flush_buffer_to_changes();
        let mut changes: Vec<LineChange> = Vec::new();
        std::mem::swap(&mut changes, &mut self.changes);
        let mut printed: Vec<String> = Vec::new();
        std::mem::swap(&mut printed, &mut self.printed_lines);
        assert(changes_view(self.changes@) =~= Seq::empty());
        assert(strs(self.printed_lines@) =~= Seq::empty());
        FileDiff {
            file_path: self.source_name.clone(),
            changes,
            all_lines: Vec::new(),
            printed_lines: printed,
            is_streaming: true,
        }
    }
}

// ---------------------------------------------------------------------------
// Laws of the stream

/// With no commands and automatic printing on, every line is written as
/// it is, and the stream goes on.
pub proof fn lemma_empty_script_passes_lines(m: StreamModel, line: Seq<char>, is_last: bool)
    requires
        m.commands.len() == 0,
        !m.no_default_output,
    ensures
        ({
            let (r, m2) = spec_begin_line(m, line, is_last);
            &&& r == Ok::<StreamStep, StreamErrorM>(StreamStep::LineDone { stop: false })
            &&& m2.emits == m.emits.push((true, line))
            &&& m2.printed == m.printed
            &&& all_unchanged(m) ==> all_unchanged(m2)
        }),
{
    let m2 = spec_begin_line(m, line, is_last).1;
    if all_unchanged(m) {
        let m0 = with_work(advance(StreamModel { pending: None, ..m }, is_last), fresh_work(line));
        let m1 = emit(m0, true, line);
        assert(m1.buffer == m.buffer && m1.changes == m.changes);
        if m1.to_read > 0 {
            assert(m2.changes == m.changes.push((m1.line_num, ChangeType::Unchanged, line, None::<Seq<char>>)));
            assert(m2.buffer == m.buffer);
        } else {
            let b = m.buffer.push((m1.line_num, line, ChangeType::Unchanged));
            assert(m2.buffer == keep_last(b, m.context_size));
            assert(m2.changes == m.changes);
            assert forall|i: int| 0 <= i < m2.buffer.len() implies (#[trigger] m2.buffer[i]).2 == ChangeType::Unchanged by {
                if b.len() > m.context_size {
                    assert(m2.buffer[i] == b[i + (b.len() - m.context_size)]);
                } else {
                    assert(m2.buffer[i] == b[i]);
                }
            }
        }
    }
}

/// Every change recorded so far, and every line in the context window, is
/// an unchanged line.
pub open spec fn all_unchanged(m: StreamModel) -> bool {
    &&& forall|i: int| 0 <= i < m.changes.len() ==> (#[trigger] m.changes[i]).1 == ChangeType::Unchanged
    &&& forall|i: int| 0 <= i < m.buffer.len() ==> (#[trigger] m.buffer[i]).2 == ChangeType::Unchanged
}

/// A stream begun with an empty context window (as a new processor's is)
/// starts with no changed line recorded; and while every line has passed
/// through unchanged, the diff it ends with lists unchanged lines only.
pub proof fn lemma_unchanged_stream_diff(m: StreamModel, name: Seq<char>)
    ensures
        m.buffer.len() == 0 ==> all_unchanged(start_stream(m, name)),
        all_unchanged(m) ==> forall|i: int| 0 <= i < stream_diff(m).1.len() ==> (#[trigger] stream_diff(m).1[i]).1
            == ChangeType::Unchanged,
{
    if all_unchanged(m) {
        let cs = stream_diff(m).1;
        assert forall|i: int| 0 <= i < cs.len() implies (#[trigger] cs[i]).1 == ChangeType::Unchanged by {
            if i >= m.changes.len() {
                assert(cs[i] == buffered_changes(m.buffer)[i - m.changes.len()]);
            }
        }
    }
}

proof fn lemma_keep_last_len(b: Seq<(usize, Seq<char>, ChangeType)>, n: usize)
    ensures
        keep_last(b, n).len() <= n || keep_last(b, n) == b,
        b.len() <= n ==> keep_last(b, n) == b,
        keep_last(b, n).len() <= b.len(),
{
}

proof fn lemma_finish_window(m: StreamModel)
    requires
        m.buffer.len() <= m.context_size,
    ensures
        spec_finish_line(m).1.buffer.len() <= m.context_size,
        spec_finish_line(m).1.context_size == m.context_size,
{
    let w = m.work;
    let ct = if w.line_changed { ChangeType::Modified } else { ChangeType::Unchanged };
    lemma_keep_last_len(m.buffer.push((m.line_num, w.processed, ct)), m.context_size);
}

proof fn lemma_complete_window(r: Outcome)
    requires
        r.1.buffer.len() <= r.1.context_size,
    ensures
        spec_complete(r).1.buffer.len() <= r.1.context_size,
{
    match r.0 {
        Ok(Flow::Need(_)) => {},
        Err(_) => {},
        _ => lemma_finish_window(r.1),
    }
}

/// The context window never holds more lines than the context size, so a
/// stream keeps constant memory however long it is: each step on a line
/// keeps the bound.
pub proof fn lemma_window_stays_bounded(m: StreamModel, line: Seq<char>, next: Option<Seq<char>>, is_last: bool)
    requires
        m.buffer.len() <= m.context_size,
        m.line_num < usize::MAX,
    ensures
        spec_begin_line(m, line, is_last).1.buffer.len() <= m.context_size,
        spec_supply_line(m, next, is_last).1.buffer.len() <= m.context_size,
{
    let m0 = with_work(advance(StreamModel { pending: None, ..m }, is_last), fresh_work(line));
    lemma_run_top_keeps(m0, m.commands, 0);
    lemma_complete_window(spec_run_top(m0, m.commands, 0));
    lemma_resume_count(m, m.commands, next, is_last);
    lemma_complete_window(spec_resume(m, m.commands, next, is_last));
}

// ---------------------------------------------------------------------------
// The context size shapes the diff only

/// The model with what only the diff reads set aside: the context size,
/// the context lines still to record, the context window and the changes.
pub open spec fn ctx_free(m: StreamModel) -> StreamModel {
    StreamModel { context_size: 0, to_read: 0, buffer: Seq::empty(), changes: Seq::empty(), ..m }
}

/// The model with another context size (as `with_context_size` sets it).
pub open spec fn with_context(m: StreamModel, n: usize) -> StreamModel {
    StreamModel { context_size: n, ..m }
}

proof fn lemma_range_ctx(a: StreamModel, b: StreamModel, line: Seq<char>, r: SRange, ci: usize)
    requires
        ctx_free(a) == ctx_free(b),
    ensures
        spec_range_check(a, line, r, ci).0 == spec_range_check(b, line, r, ci).0,
        ctx_free(spec_range_check(a, line, r, ci).1) == ctx_free(spec_range_check(b, line, r, ci).1),
{
    assert(a.pattern_ranges == b.pattern_ranges && a.mixed == b.mixed && a.current_line == b.current_line);
    assert(a.is_last == b.is_last && a.flavor == b.flavor);
}

proof fn lemma_applies_ctx(a: StreamModel, b: StreamModel, r: Option<SRange>, ci: usize)
    requires
        ctx_free(a) == ctx_free(b),
    ensures
        spec_applies(a, r, ci).0 == spec_applies(b, r, ci).0,
        ctx_free(spec_applies(a, r, ci).1) == ctx_free(spec_applies(b, r, ci).1),
{
    assert(a.work == b.work);
    if let Some(r) = r {
        lemma_range_ctx(a, b, a.work.processed, r, ci);
    }
}

proof fn lemma_sub_ctx(a: StreamModel, b: StreamModel, range: Option<SRange>, pattern: Seq<char>, replacement: Seq<char>, flags: crate::command::SubstitutionFlags, ci: usize)
    requires
        ctx_free(a) == ctx_free(b),
    ensures
        act_sub(a, range, pattern, replacement, flags, ci).0 == act_sub(b, range, pattern, replacement, flags, ci).0,
        ctx_free(act_sub(a, range, pattern, replacement, flags, ci).1) == ctx_free(act_sub(b, range, pattern, replacement, flags, ci).1),
{
    reveal(act_sub);
    assert(a.work == b.work && a.hold == b.hold && a.line_num == b.line_num && a.current_line == b.current_line);
    lemma_applies_ctx(a, b, range, ci);
}

proof fn lemma_flag_ctx(a: StreamModel, b: StreamModel, r: SRange, ci: usize, set_print: bool)
    requires
        ctx_free(a) == ctx_free(b),
    ensures
        act_flag(a, r, ci, set_print).0 == act_flag(b, r, ci, set_print).0,
        ctx_free(act_flag(a, r, ci, set_print).1) == ctx_free(act_flag(b, r, ci, set_print).1),
{
    reveal(act_flag);
    assert(a.work == b.work && a.hold == b.hold && a.line_num == b.line_num && a.current_line == b.current_line);
    assert(a.work == b.work);
    lemma_range_ctx(a, b, a.work.processed, r, ci);
}

proof fn lemma_insert_ctx(a: StreamModel, b: StreamModel, text: Seq<char>, address: SAddress)
    requires
        ctx_free(a) == ctx_free(b),
    ensures
        act_insert(a, text, address).0 == act_insert(b, text, address).0,
        ctx_free(act_insert(a, text, address).1) == ctx_free(act_insert(b, text, address).1),
{
    reveal(act_insert);
    assert(a.work == b.work && a.hold == b.hold && a.line_num == b.line_num && a.current_line == b.current_line);
}

proof fn lemma_append_ctx(a: StreamModel, b: StreamModel, text: Seq<char>, address: SAddress)
    requires
        ctx_free(a) == ctx_free(b),
    ensures
        act_append(a, text, address).0 == act_append(b, text, address).0,
        ctx_free(act_append(a, text, address).1) == ctx_free(act_append(b, text, address).1),
{
    reveal(act_append);
    assert(a.work == b.work && a.hold == b.hold && a.line_num == b.line_num && a.current_line == b.current_line);
}

proof fn lemma_change_ctx(a: StreamModel, b: StreamModel, text: Seq<char>, r: SRange, ci: usize)
    requires
        ctx_free(a) == ctx_free(b),
    ensures
        act_change(a, text, r, ci).0 == act_change(b, text, r, ci).0,
        ctx_free(act_change(a, text, r, ci).1) == ctx_free(act_change(b, text, r, ci).1),
{
    reveal(act_change);
    assert(a.work == b.work && a.hold == b.hold && a.line_num == b.line_num && a.current_line == b.current_line);
    assert(a.work == b.work);
    lemma_range_ctx(a, b, a.work.processed, r, ci);
}

proof fn lemma_first_line_ctx(a: StreamModel, b: StreamModel, range: Option<SRange>, ci: usize)
    requires
        ctx_free(a) == ctx_free(b),
    ensures
        act_first_line(a, range, ci).0 == act_first_line(b, range, ci).0,
        ctx_free(act_first_line(a, range, ci).1) == ctx_free(act_first_line(b, range, ci).1),
{
    reveal(act_first_line);
    assert(a.work == b.work && a.hold == b.hold && a.line_num == b.line_num && a.current_line == b.current_line);
    lemma_applies_ctx(a, b, range, ci);
}

proof fn lemma_line_number_ctx(a: StreamModel, b: StreamModel, x: Option<SAddress>)
    requires
        ctx_free(a) == ctx_free(b),
    ensures
        act_line_number(a, x).0 == act_line_number(b, x).0,
        ctx_free(act_line_number(a, x).1) == ctx_free(act_line_number(b, x).1),
{
    reveal(act_line_number);
    assert(a.work == b.work && a.hold == b.hold && a.line_num == b.line_num && a.current_line == b.current_line);
}

proof fn lemma_filename_ctx(a: StreamModel, b: StreamModel, x: Option<SAddress>)
    requires
        ctx_free(a) == ctx_free(b),
    ensures
        act_filename(a, x).0 == act_filename(b, x).0,
        ctx_free(act_filename(a, x).1) == ctx_free(act_filename(b, x).1),
{
    reveal(act_filename);
    assert(a.work == b.work && a.hold == b.hold && a.line_num == b.line_num && a.current_line == b.current_line);
}

proof fn lemma_hold_ctx(a: StreamModel, b: StreamModel, range: Option<SRange>, ci: usize, op: int)
    requires
        ctx_free(a) == ctx_free(b),
    ensures
        act_hold(a, range, ci, op).0 == act_hold(b, range, ci, op).0,
        ctx_free(act_hold(a, range, ci, op).1) == ctx_free(act_hold(b, range, ci, op).1),
{
    reveal(act_hold);
    assert(a.work == b.work && a.hold == b.hold && a.line_num == b.line_num && a.current_line == b.current_line);
    lemma_applies_ctx(a, b, range, ci);
}

proof fn lemma_next_ctx(a: StreamModel, b: StreamModel, range: Option<SRange>, ci: usize, append: bool, p: Pending)
    requires
        ctx_free(a) == ctx_free(b),
    ensures
        act_next(a, range, ci, append, p).0 == act_next(b, range, ci, append, p).0,
        ctx_free(act_next(a, range, ci, append, p).1) == ctx_free(act_next(b, range, ci, append, p).1),
{
    reveal(act_next);
    assert(a.work == b.work && a.hold == b.hold && a.line_num == b.line_num && a.current_line == b.current_line);
    lemma_applies_ctx(a, b, range, ci);
}

proof fn lemma_clear_ctx(a: StreamModel, b: StreamModel, x: Option<SAddress>)
    requires
        ctx_free(a) == ctx_free(b),
    ensures
        act_clear(a, x).0 == act_clear(b, x).0,
        ctx_free(act_clear(a, x).1) == ctx_free(act_clear(b, x).1),
{
    reveal(act_clear);
    assert(a.work == b.work && a.hold == b.hold && a.line_num == b.line_num && a.current_line == b.current_line);
}

proof fn lemma_quit_ctx(a: StreamModel, b: StreamModel, x: Option<SAddress>)
    requires
        ctx_free(a) == ctx_free(b),
    ensures
        act_quit(a, x).0 == act_quit(b, x).0,
        ctx_free(act_quit(a, x).1) == ctx_free(act_quit(b, x).1),
{
    reveal(act_quit);
    assert(a.work == b.work && a.hold == b.hold && a.line_num == b.line_num && a.current_line == b.current_line);
}

proof fn lemma_file_ctx(a: StreamModel, b: StreamModel, filename: Seq<char>, unsupported: StreamErrorM)
    requires
        ctx_free(a) == ctx_free(b),
    ensures
        act_file(a, filename, unsupported).0 == act_file(b, filename, unsupported).0,
        ctx_free(act_file(a, filename, unsupported).1) == ctx_free(act_file(b, filename, unsupported).1),
{
    reveal(act_file);
    assert(a.work == b.work && a.hold == b.hold && a.line_num == b.line_num && a.current_line == b.current_line);
}

proof fn lemma_group_cmd_ctx(a: StreamModel, b: StreamModel, c: SCommand, ci: usize, gi: usize)
    requires
        ctx_free(a) == ctx_free(b),
    ensures
        spec_group_cmd(a, c, ci, gi).0 == spec_group_cmd(b, c, ci, gi).0,
        ctx_free(spec_group_cmd(a, c, ci, gi).1) == ctx_free(spec_group_cmd(b, c, ci, gi).1),
{
    match c {
        SCommand::Substitution { pattern, replacement, flags, range } => lemma_sub_ctx(a, b, range, pattern, replacement, flags, ci),
        SCommand::Print { range } => lemma_flag_ctx(a, b, range, ci, true),
        SCommand::Insert { text, address } => lemma_insert_ctx(a, b, text, address),
        SCommand::Append { text, address } => lemma_append_ctx(a, b, text, address),
        SCommand::Change { text, range } => lemma_change_ctx(a, b, text, range, ci),
        SCommand::PrintFirstLine { range } => lemma_first_line_ctx(a, b, range, ci),
        SCommand::PrintLineNumber { range } => lemma_line_number_ctx(a, b, range),
        SCommand::PrintFilename { range } => lemma_filename_ctx(a, b, range),
        SCommand::Hold { range } => lemma_hold_ctx(a, b, range, ci, 0),
        SCommand::HoldAppend { range } => lemma_hold_ctx(a, b, range, ci, 1),
        SCommand::Get { range } => lemma_hold_ctx(a, b, range, ci, 2),
        SCommand::GetAppend { range } => lemma_hold_ctx(a, b, range, ci, 3),
        SCommand::Exchange { range } => lemma_hold_ctx(a, b, range, ci, 4),
        SCommand::ReadFile { filename, .. } => lemma_file_ctx(a, b, filename, StreamErrorM::CommandUnsupported(command_letter(c))),
        SCommand::ReadLine { filename, .. } => lemma_file_ctx(a, b, filename, StreamErrorM::CommandUnsupported(command_letter(c))),
        SCommand::Delete { range } => {
            assert(a.work == b.work);
            lemma_range_ctx(a, b, a.work.processed, range, ci);
        },
        SCommand::Next { range } => lemma_next_ctx(a, b, range, ci, false, Pending::GroupNext { ci, gi }),
        SCommand::NextAppend { range } => lemma_next_ctx(a, b, range, ci, true, Pending::GroupNextAppend { ci, gi }),
        SCommand::WriteFile { filename, .. } => lemma_file_ctx(a, b, filename, StreamErrorM::CommandUnsupported(command_letter(c))),
        SCommand::WriteFirstLine { filename, .. } => lemma_file_ctx(a, b, filename, StreamErrorM::CommandUnsupported(command_letter(c))),
        _ => {},
    }
}

proof fn lemma_run_group_ctx(a: StreamModel, b: StreamModel, cs: Seq<SCommand>, ci: usize, gi: int)
    requires
        ctx_free(a) == ctx_free(b),
    ensures
        spec_run_group(a, cs, ci, gi).0 == spec_run_group(b, cs, ci, gi).0,
        ctx_free(spec_run_group(a, cs, ci, gi).1) == ctx_free(spec_run_group(b, cs, ci, gi).1),
    decreases cs.len() - gi,
{
    if 0 <= gi < cs.len() {
        lemma_group_cmd_ctx(a, b, cs[gi], ci, gi as usize);
        let a1 = spec_group_cmd(a, cs[gi], ci, gi as usize).1;
        let b1 = spec_group_cmd(b, cs[gi], ci, gi as usize).1;
        lemma_run_group_ctx(a1, b1, cs, ci, gi + 1);
    }
}

proof fn lemma_top_cmd_ctx(a: StreamModel, b: StreamModel, c: SCommand, ci: usize)
    requires
        ctx_free(a) == ctx_free(b),
    ensures
        spec_top_cmd(a, c, ci).0 == spec_top_cmd(b, c, ci).0,
        ctx_free(spec_top_cmd(a, c, ci).1) == ctx_free(spec_top_cmd(b, c, ci).1),
{
    match c {
        SCommand::Substitution { pattern, replacement, flags, range } => lemma_sub_ctx(a, b, range, pattern, replacement, flags, ci),
        SCommand::Print { range } => lemma_flag_ctx(a, b, range, ci, true),
        SCommand::Insert { text, address } => lemma_insert_ctx(a, b, text, address),
        SCommand::Append { text, address } => lemma_append_ctx(a, b, text, address),
        SCommand::Change { text, range } => lemma_change_ctx(a, b, text, range, ci),
        SCommand::PrintFirstLine { range } => lemma_first_line_ctx(a, b, range, ci),
        SCommand::PrintLineNumber { range } => lemma_line_number_ctx(a, b, range),
        SCommand::PrintFilename { range } => lemma_filename_ctx(a, b, range),
        SCommand::Hold { range } => lemma_hold_ctx(a, b, range, ci, 0),
        SCommand::HoldAppend { range } => lemma_hold_ctx(a, b, range, ci, 1),
        SCommand::Get { range } => lemma_hold_ctx(a, b, range, ci, 2),
        SCommand::GetAppend { range } => lemma_hold_ctx(a, b, range, ci, 3),
        SCommand::Exchange { range } => lemma_hold_ctx(a, b, range, ci, 4),
        SCommand::ReadFile { filename, .. } => lemma_file_ctx(a, b, filename, StreamErrorM::FileCommandUnsupported(filename)),
        SCommand::ReadLine { filename, .. } => lemma_file_ctx(a, b, filename, StreamErrorM::FileCommandUnsupported(filename)),
        SCommand::Delete { range } => lemma_flag_ctx(a, b, range, ci, false),
        SCommand::Quit { address } => lemma_quit_ctx(a, b, address),
        SCommand::Next { range } => lemma_next_ctx(a, b, range, ci, false, Pending::TopNext { ci }),
        SCommand::NextAppend { range } => lemma_next_ctx(a, b, range, ci, true, Pending::TopNextAppend { ci }),
        SCommand::ClearPatternSpace { range } => lemma_clear_ctx(a, b, range),
        SCommand::WriteFile { filename, .. } => lemma_file_ctx(a, b, filename, StreamErrorM::FileCommandUnsupported(filename)),
        SCommand::WriteFirstLine { filename, .. } => lemma_file_ctx(a, b, filename, StreamErrorM::FileCommandUnsupported(filename)),
        SCommand::Group { range, commands } => {
            lemma_applies_ctx(a, b, range, ci);
            let a1 = spec_applies(a, range, ci).1;
            let b1 = spec_applies(b, range, ci).1;
            lemma_run_group_ctx(a1, b1, commands, ci, 0);
        },
        _ => {},
    }
}

proof fn lemma_run_top_ctx(a: StreamModel, b: StreamModel, cs: Seq<SCommand>, ci: int)
    requires
        ctx_free(a) == ctx_free(b),
    ensures
        spec_run_top(a, cs, ci).0 == spec_run_top(b, cs, ci).0,
        ctx_free(spec_run_top(a, cs, ci).1) == ctx_free(spec_run_top(b, cs, ci).1),
    decreases cs.len() - ci,
{
    if 0 <= ci < cs.len() {
        lemma_top_cmd_ctx(a, b, cs[ci], ci as usize);
        let a1 = spec_top_cmd(a, cs[ci], ci as usize).1;
        let b1 = spec_top_cmd(b, cs[ci], ci as usize).1;
        lemma_run_top_ctx(a1, b1, cs, ci + 1);
    }
}

proof fn lemma_resume_ctx(a: StreamModel, b: StreamModel, cs: Seq<SCommand>, next: Option<Seq<char>>, is_last: bool)
    requires
        ctx_free(a) == ctx_free(b),
    ensures
        spec_resume(a, cs, next, is_last).0 == spec_resume(b, cs, next, is_last).0,
        ctx_free(spec_resume(a, cs, next, is_last).1) == ctx_free(spec_resume(b, cs, next, is_last).1),
{
    let a0 = StreamModel { pending: None, ..a };
    let b0 = StreamModel { pending: None, ..b };
    let w = a.work;
    assert(a.work == b.work && a.pending == b.pending && a.line_num == b.line_num);
    match a.pending {
        Some(Pending::TopNext { ci }) => {
            if let Some(l) = next {
                let wk = WorkModel { original: l, processed: l, line_changed: false, append_text: None, ..w };
                lemma_run_top_ctx(with_work(advance(a0, is_last), wk), with_work(advance(b0, is_last), wk), cs, ci + 1);
            }
        },
        Some(Pending::TopNextAppend { ci }) => {
            if let Some(l) = next {
                let wk = WorkModel { original: w.original + seq!['\n'] + l, processed: w.processed + seq!['\n'] + l, ..w };
                lemma_run_top_ctx(with_work(advance(a0, is_last), wk), with_work(advance(b0, is_last), wk), cs, ci + 1);
            }
        },
        Some(Pending::GroupNext { ci, gi }) => {
            if pending_fits(Pending::GroupNext { ci, gi }, cs) {
                match next {
                    Some(l) => {
                        let wk = WorkModel { original: l, processed: l, line_changed: false, append_text: None, ..w };
                        let a1 = with_work(advance(a0, is_last), wk);
                        let b1 = with_work(advance(b0, is_last), wk);
                        lemma_continue_group_ctx(a1, b1, cs, ci, gi + 1);
                    },
                    None => {
                        let wk = WorkModel { suppress: true, terminate: true, ..w };
                        lemma_run_top_ctx(with_work(a0, wk), with_work(b0, wk), cs, ci + 1);
                    },
                }
            }
        },
        Some(Pending::GroupNextAppend { ci, gi }) => {
            if pending_fits(Pending::GroupNextAppend { ci, gi }, cs) {
                match next {
                    Some(l) => {
                        let wk = WorkModel { processed: w.processed + seq!['\n'] + l, ..w };
                        let a1 = with_work(advance(a0, is_last), wk);
                        let b1 = with_work(advance(b0, is_last), wk);
                        lemma_continue_group_ctx(a1, b1, cs, ci, gi + 1);
                    },
                    None => {
                        let wk = WorkModel { terminate: true, ..w };
                        lemma_run_top_ctx(with_work(a0, wk), with_work(b0, wk), cs, ci + 1);
                    },
                }
            }
        },
        None => {},
    }
}

proof fn lemma_continue_group_ctx(a: StreamModel, b: StreamModel, cs: Seq<SCommand>, ci: usize, gi: int)
    requires
        ctx_free(a) == ctx_free(b),
        ci < cs.len(),
    ensures
        spec_continue_group(a, cs, ci, gi).0 == spec_continue_group(b, cs, ci, gi).0,
        ctx_free(spec_continue_group(a, cs, ci, gi).1) == ctx_free(spec_continue_group(b, cs, ci, gi).1),
{
    if let SCommand::Group { commands, .. } = cs[ci as int] {
        lemma_run_group_ctx(a, b, commands, ci, gi);
        let a1 = spec_run_group(a, commands, ci, gi).1;
        let b1 = spec_run_group(b, commands, ci, gi).1;
        lemma_run_top_ctx(a1, b1, cs, ci + 1);
    } else {
        lemma_run_top_ctx(a, b, cs, ci + 1);
    }
}

proof fn lemma_complete_ctx(a: Outcome, b: Outcome)
    requires
        a.0 == b.0,
        ctx_free(a.1) == ctx_free(b.1),
    ensures
        spec_complete(a).0 == spec_complete(b).0,
        ctx_free(spec_complete(a).1) == ctx_free(spec_complete(b).1),
{
}

/// The context size changes only the diff: two streams that differ only
/// in their context size (or in what they have recorded for the diff) give
/// the same answers, write and print the same lines, and stay so related,
/// line after line.
pub proof fn lemma_context_size_shapes_only_the_diff(
    a: StreamModel,
    b: StreamModel,
    line: Seq<char>,
    next: Option<Seq<char>>,
    is_last: bool,
)
    requires
        ctx_free(a) == ctx_free(b),
    ensures
        spec_begin_line(a, line, is_last).0 == spec_begin_line(b, line, is_last).0,
        ctx_free(spec_begin_line(a, line, is_last).1) == ctx_free(spec_begin_line(b, line, is_last).1),
        spec_begin_line(a, line, is_last).1.emits == spec_begin_line(b, line, is_last).1.emits,
        spec_begin_line(a, line, is_last).1.printed == spec_begin_line(b, line, is_last).1.printed,
        spec_supply_line(a, next, is_last).0 == spec_supply_line(b, next, is_last).0,
        ctx_free(spec_supply_line(a, next, is_last).1) == ctx_free(spec_supply_line(b, next, is_last).1),
        spec_supply_line(a, next, is_last).1.emits == spec_supply_line(b, next, is_last).1.emits,
        spec_supply_line(a, next, is_last).1.printed == spec_supply_line(b, next, is_last).1.printed,
        forall|n: usize| ctx_free(#[trigger] with_context(a, n)) == ctx_free(a),
{
    assert(a.commands == b.commands);
    let a0 = with_work(advance(StreamModel { pending: None, ..a }, is_last), fresh_work(line));
    let b0 = with_work(advance(StreamModel { pending: None, ..b }, is_last), fresh_work(line));
    lemma_run_top_ctx(a0, b0, a.commands, 0);
    lemma_complete_ctx(spec_run_top(a0, a.commands, 0), spec_run_top(b0, a.commands, 0));
    lemma_resume_ctx(a, b, a.commands, next, is_last);
    lemma_complete_ctx(spec_resume(a, a.commands, next, is_last), spec_resume(b, a.commands, next, is_last));
    assert forall|n: usize| ctx_free(#[trigger] with_context(a, n)) == ctx_free(a) by {}
}

// ---------------------------------------------------------------------------
// Whole streams

/// A stream driven over `lines` from index `i` the way a reader drives it:
/// each line is begun (the last one flagged), a line the script asks for
/// is supplied (none once the input is used up), and driving stops at an
/// error, when a line asks to stop, when the lines run out, or when `fuel`
/// steps are spent.
pub open spec fn spec_drive(m: StreamModel, lines: Seq<Seq<char>>, i: int, fuel: nat) -> (Result<(), StreamErrorM>, StreamModel)
    decreases fuel, 0int,
{
    if fuel == 0 || i < 0 || i >= lines.len() {
        (Ok(()), m)
    } else {
        let (r, m1) = spec_begin_line(m, lines[i], i + 1 == lines.len());
        spec_after_step(m1, r, lines, i + 1, (fuel - 1) as nat)
    }
}

/// Driving on after a step answered `r`, with the lines from index `j` on.
pub open spec fn spec_after_step(
    m: StreamModel,
    r: Result<StreamStep, StreamErrorM>,
    lines: Seq<Seq<char>>,
    j: int,
    fuel: nat,
) -> (Result<(), StreamErrorM>, StreamModel)
    decreases fuel, 1int,
{
    match r {
        Err(e) => (Err(e), m),
        Ok(StreamStep::LineDone { stop }) => if stop {
            (Ok(()), m)
        } else {
            spec_drive(m, lines, j, fuel)
        },
        Ok(StreamStep::NeedLine) => if fuel == 0 {
            (Ok(()), m)
        } else {
            let next = if 0 <= j < lines.len() { Some(lines[j]) } else { None };
            let j2 = if 0 <= j < lines.len() { j + 1 } else { j };
            let (r2, m2) = spec_supply_line(m, next, j2 >= lines.len());
            spec_after_step(m2, r2, lines, j2, (fuel - 1) as nat)
        },
    }
}

proof fn lemma_drive_ctx(a: StreamModel, b: StreamModel, lines: Seq<Seq<char>>, i: int, fuel: nat)
    requires
        ctx_free(a) == ctx_free(b),
    ensures
        spec_drive(a, lines, i, fuel).0 == spec_drive(b, lines, i, fuel).0,
        ctx_free(spec_drive(a, lines, i, fuel).1) == ctx_free(spec_drive(b, lines, i, fuel).1),
    decreases fuel, 0int,
{
    if !(fuel == 0 || i < 0 || i >= lines.len()) {
        lemma_context_size_shapes_only_the_diff(a, b, lines[i], None, i + 1 == lines.len());
        let (r, a1) = spec_begin_line(a, lines[i], i + 1 == lines.len());
        let b1 = spec_begin_line(b, lines[i], i + 1 == lines.len()).1;
        lemma_after_step_ctx(a1, b1, r, lines, i + 1, (fuel - 1) as nat);
    }
}

proof fn lemma_after_step_ctx(
    a: StreamModel,
    b: StreamModel,
    r: Result<StreamStep, StreamErrorM>,
    lines: Seq<Seq<char>>,
    j: int,
    fuel: nat,
)
    requires
        ctx_free(a) == ctx_free(b),
    ensures
        spec_after_step(a, r, lines, j, fuel).0 == spec_after_step(b, r, lines, j, fuel).0,
        ctx_free(spec_after_step(a, r, lines, j, fuel).1) == ctx_free(spec_after_step(b, r, lines, j, fuel).1),
    decreases fuel, 1int,
{
    match r {
        Ok(StreamStep::LineDone { stop }) => {
            if !stop {
                lemma_drive_ctx(a, b, lines, j, fuel);
            }
        },
        Ok(StreamStep::NeedLine) => {
            if fuel > 0 {
                let next = if 0 <= j < lines.len() { Some(lines[j]) } else { None };
                let j2 = if 0 <= j < lines.len() { j + 1 } else { j };
                lemma_context_size_shapes_only_the_diff(a, b, Seq::empty(), next, j2 >= lines.len());
                let (r2, a2) = spec_supply_line(a, next, j2 >= lines.len());
                let b2 = spec_supply_line(b, next, j2 >= lines.len()).1;
                lemma_after_step_ctx(a2, b2, r2, lines, j2, (fuel - 1) as nat);
            }
        },
        Err(_) => {},
    }
}

/// Over a whole stream the context size changes only the diff: a new
/// processor for a script, with any context size, driven over any lines
/// gives the same outcome, writes and prints the same lines, and ends with
/// the same printed lines as one with the default context size.
pub proof fn lemma_stream_output_ignores_context_size(
    cs: Seq<SCommand>,
    n: usize,
    name: Seq<char>,
    lines: Seq<Seq<char>>,
    fuel: nat,
)
    ensures
        ({
            let a = spec_drive(start_stream(with_context(StreamProcessor::new_model(cs), n), name), lines, 0, fuel);
            let b = spec_drive(start_stream(StreamProcessor::new_model(cs), name), lines, 0, fuel);
            &&& a.0 == b.0
            &&& a.1.emits == b.1.emits
            &&& a.1.printed == b.1.printed
            &&& stream_diff(a.1).2 == stream_diff(b.1).2
        }),
{
    let a0 = start_stream(with_context(StreamProcessor::new_model(cs), n), name);
    let b0 = start_stream(StreamProcessor::new_model(cs), name);
    assert(ctx_free(a0) == ctx_free(b0));
    lemma_drive_ctx(a0, b0, lines, 0, fuel);
}

proof fn lemma_empty_script_drive(m: StreamModel, lines: Seq<Seq<char>>, i: int, fuel: nat)
    requires
        m.commands.len() == 0,
        !m.no_default_output,
        all_unchanged(m),
        0 <= i <= lines.len(),
        fuel >= lines.len() - i,
    ensures
        spec_drive(m, lines, i, fuel).0 == Ok::<(), StreamErrorM>(()),
        spec_drive(m, lines, i, fuel).1.emits == m.emits + lines.skip(i).map_values(|l: Seq<char>| (true, l)),
        spec_drive(m, lines, i, fuel).1.printed == m.printed,
        all_unchanged(spec_drive(m, lines, i, fuel).1),
    decreases lines.len() - i,
{
    let f = |l: Seq<char>| (true, l);
    if i >= lines.len() {
        assert(lines.skip(i).map_values(f) =~= Seq::<(bool, Seq<char>)>::empty());
        assert(m.emits + Seq::<(bool, Seq<char>)>::empty() =~= m.emits);
    } else {
        lemma_empty_script_passes_lines(m, lines[i], i + 1 == lines.len());
        let m1 = spec_begin_line(m, lines[i], i + 1 == lines.len()).1;
        assert(m1.commands == m.commands && m1.no_default_output == m.no_default_output) by {
            lemma_begin_line_keeps_setup(m, lines[i], i + 1 == lines.len());
        }
        lemma_empty_script_drive(m1, lines, i + 1, (fuel - 1) as nat);
        assert(lines.skip(i).map_values(f) =~= seq![(true, lines[i])] + lines.skip(i + 1).map_values(f));
        assert(m.emits.push((true, lines[i])) + lines.skip(i + 1).map_values(f) =~= m.emits + lines.skip(i).map_values(f));
    }
}

proof fn lemma_begin_line_keeps_setup(m: StreamModel, line: Seq<char>, is_last: bool)
    requires
        m.commands.len() == 0,
    ensures
        spec_begin_line(m, line, is_last).1.commands == m.commands,
        spec_begin_line(m, line, is_last).1.no_default_output == m.no_default_output,
{
}

/// A script with no commands passes a whole stream through: driven over
/// any lines from a fresh start (an empty context window, automatic
/// printing on), it finishes without error, writes every line as it is
/// and in order, prints nothing, and its diff lists unchanged lines only.
pub proof fn lemma_empty_script_passes_stream(m: StreamModel, name: Seq<char>, lines: Seq<Seq<char>>, fuel: nat)
    requires
        m.commands.len() == 0,
        !m.no_default_output,
        m.buffer.len() == 0,
        fuel >= lines.len(),
    ensures
        ({
            let (r, e) = spec_drive(start_stream(m, name), lines, 0, fuel);
            &&& r == Ok::<(), StreamErrorM>(())
            &&& e.emits == lines.map_values(|l: Seq<char>| (true, l))
            &&& e.printed.len() == 0
            &&& forall|k: int| 0 <= k < stream_diff(e).1.len() ==> (#[trigger] stream_diff(e).1[k]).1 == ChangeType::Unchanged
        }),
{
    let s0 = start_stream(m, name);
    lemma_unchanged_stream_diff(m, name);
    lemma_empty_script_drive(s0, lines, 0, fuel);
    let e = spec_drive(s0, lines, 0, fuel).1;
    lemma_unchanged_stream_diff(e, name);
    assert(lines.skip(0) =~= lines);
    assert(Seq::<(bool, Seq<char>)>::empty() + lines.map_values(|l: Seq<char>| (true, l)) =~= lines.map_values(|l: Seq<char>| (true, l)));
}

/// What a hold-space command does on a line its range selects: `h` (0)
/// copies the line being edited into the hold space; `H` (1) appends it
/// there, after a newline when the hold space holds something, so the old
/// hold space stays in front; `g` (2) and `G` (3) replace the line by the
/// hold space, or append a newline and the hold space to it, when the hold
/// space holds something; `x` (4) exchanges the line and the hold space.
/// None of them writes or prints anything. On a line not selected, or when
/// the range check fails, nothing more happens than the check.
pub open spec fn hold_command_done(m: StreamModel, range: Option<SRange>, ci: usize, op: int, out: Outcome) -> bool {
    let (ap, m1) = spec_applies(m, range, ci);
    let (r, m2) = out;
    let line = m1.work.processed;
    let hold = m1.hold;
    &&& ap matches Err(e) ==> r == Err::<Flow, StreamErrorM>(e) && m2 == m1
    &&& ap == Ok::<bool, StreamErrorM>(false) ==> r == Ok::<Flow, StreamErrorM>(Flow::Continue) && m2 == m1
    &&& ap == Ok::<bool, StreamErrorM>(true) ==> {
        &&& r == Ok::<Flow, StreamErrorM>(Flow::Continue)
        &&& m2.emits == m1.emits && m2.printed == m1.printed && m2.changes == m1.changes
        &&& op == 0 ==> m2 == StreamModel { hold: line, ..m1 }
        &&& op == 1 ==> m2 == StreamModel { hold: m2.hold, ..m1 } && (hold.len() == 0 ==> m2.hold == line) && (hold.len()
            > 0 ==> m2.hold.len() == hold.len() + 1 + line.len() && m2.hold.take(hold.len() as int) == hold
            && m2.hold[hold.len() as int] == '\n' && m2.hold.skip(hold.len() as int + 1) == line)
        &&& op == 2 ==> m2.hold == hold && m2.work.processed == (if hold.len() > 0 { hold } else { line })
        &&& op == 3 ==> m2.hold == hold && (hold.len() == 0 ==> m2.work.processed == line) && (hold.len() > 0
            ==> m2.work.processed.take(line.len() as int) == line && m2.work.processed[line.len() as int] == '\n'
            && m2.work.processed.skip(line.len() as int + 1) == hold && m2.work.processed.len() == line.len() + 1
            + hold.len())
        &&& op == 4 ==> m2.hold == line && m2.work.processed == hold && m2 == StreamModel {
            hold: line,
            work: WorkModel { processed: hold, line_changed: true, ..m1.work },
            ..m1
        }
    }
}

/// The hold-space commands do what `hold_command_done` says.
pub proof fn lemma_stream_hold_space(m: StreamModel, range: Option<SRange>, ci: usize, op: int)
    requires
        0 <= op <= 4,
    ensures
        hold_command_done(m, range, ci, op, act_hold(m, range, ci, op)),
{
    reveal(act_hold);
    let (ap, m1) = spec_applies(m, range, ci);
    let line = m1.work.processed;
    let hold = m1.hold;
    assert((hold + seq!['\n'] + line).take(hold.len() as int) =~= hold);
    assert((hold + seq!['\n'] + line).skip(hold.len() as int + 1) =~= line);
    assert((line + seq!['\n'] + hold).take(line.len() as int) =~= line);
    assert((line + seq!['\n'] + hold).skip(line.len() as int + 1) =~= hold);
}

/// What `P` does on a line its range selects: it prints the first line of
/// the line being edited, and only that line: it holds no newline and is
/// a prefix of the text, ending at its first line break. It prints once
/// and changes nothing else. On a line not selected, or when the range
/// check fails, nothing more happens than the check.
pub open spec fn first_line_printed(m: StreamModel, range: Option<SRange>, ci: usize, out: Outcome) -> bool {
    let (ap, m1) = spec_applies(m, range, ci);
    let (r, m2) = out;
    &&& ap matches Err(e) ==> r == Err::<Flow, StreamErrorM>(e) && m2 == m1
    &&& ap == Ok::<bool, StreamErrorM>(false) ==> r == Ok::<Flow, StreamErrorM>(Flow::Continue) && m2 == m1
    &&& ap == Ok::<bool, StreamErrorM>(true) ==> {
        &&& r == Ok::<Flow, StreamErrorM>(Flow::Continue)
        &&& m2.printed.len() == m1.printed.len() + 1 && m2.printed.drop_last() == m1.printed
        &&& crate::text::is_first_line(m2.printed.last(), m1.work.processed)
        &&& m2 == StreamModel { printed: m2.printed, emits: m1.emits.push((false, m2.printed.last())), ..m1 }
    }
}

/// `P` does what `first_line_printed` says.
pub proof fn lemma_stream_print_first_line(m: StreamModel, range: Option<SRange>, ci: usize)
    ensures
        first_line_printed(m, range, ci, act_first_line(m, range, ci)),
{
    reveal(act_first_line);
    let (ap, m1) = spec_applies(m, range, ci);
    let (r, m2) = act_first_line(m, range, ci);
    crate::text::lemma_first_line(m1.work.processed);
    if ap == Ok::<bool, StreamErrorM>(true) {
        assert(m2.printed.drop_last() =~= m1.printed);
        let l = m2.printed.last();
        if m1.work.processed.len() == 0 {
            assert(l =~= Seq::<char>::empty());
            assert(m1.work.processed.take(0) =~= l);
        } else {
            assert(first_line(m1.work.processed) == Some(l));
        }
    }
}

/// Run at the top level or inside a group, `h`, `H`, `g`, `G`, `x` and
/// `P` do what `hold_command_done` and `first_line_printed` say, each with
/// its own range.
pub proof fn lemma_stream_line_commands(m: StreamModel, c: SCommand, ci: usize, gi: usize)
    ensures
        c matches SCommand::Hold { range } ==> hold_command_done(m, range, ci, 0, spec_top_cmd(m, c, ci))
            && hold_command_done(m, range, ci, 0, spec_group_cmd(m, c, ci, gi)),
        c matches SCommand::HoldAppend { range } ==> hold_command_done(m, range, ci, 1, spec_top_cmd(m, c, ci))
            && hold_command_done(m, range, ci, 1, spec_group_cmd(m, c, ci, gi)),
        c matches SCommand::Get { range } ==> hold_command_done(m, range, ci, 2, spec_top_cmd(m, c, ci))
            && hold_command_done(m, range, ci, 2, spec_group_cmd(m, c, ci, gi)),
        c matches SCommand::GetAppend { range } ==> hold_command_done(m, range, ci, 3, spec_top_cmd(m, c, ci))
            && hold_command_done(m, range, ci, 3, spec_group_cmd(m, c, ci, gi)),
        c matches SCommand::Exchange { range } ==> hold_command_done(m, range, ci, 4, spec_top_cmd(m, c, ci))
            && hold_command_done(m, range, ci, 4, spec_group_cmd(m, c, ci, gi)),
        c matches SCommand::PrintFirstLine { range } ==> first_line_printed(m, range, ci, spec_top_cmd(m, c, ci))
            && first_line_printed(m, range, ci, spec_group_cmd(m, c, ci, gi)),
{
    match c {
        SCommand::Hold { range } => lemma_stream_hold_space(m, range, ci, 0),
        SCommand::HoldAppend { range } => lemma_stream_hold_space(m, range, ci, 1),
        SCommand::Get { range } => lemma_stream_hold_space(m, range, ci, 2),
        SCommand::GetAppend { range } => lemma_stream_hold_space(m, range, ci, 3),
        SCommand::Exchange { range } => lemma_stream_hold_space(m, range, ci, 4),
        SCommand::PrintFirstLine { range } => lemma_stream_print_first_line(m, range, ci),
        _ => {},
    }
}

/// What `c` does on a line its range selects: it drops the line; its text
/// is written, once, exactly when the line matches the last address of the
/// range, so a range gets the text once, at its end. On a line not
/// selected, or when the range check fails, nothing more happens than the
/// check.
pub open spec fn change_done(m: StreamModel, text: Seq<char>, r: SRange, ci: usize, out: Outcome) -> bool {
    let (ap, m1) = spec_range_check(m, m.work.processed, r, ci);
    let (res, m2) = out;
    &&& ap matches Err(e) ==> res == Err::<Flow, StreamErrorM>(e) && m2 == m1
    &&& ap == Ok::<bool, StreamErrorM>(false) ==> res == Ok::<Flow, StreamErrorM>(Flow::Continue) && m2 == m1
    &&& ap == Ok::<bool, StreamErrorM>(true) ==> {
        &&& res == Ok::<Flow, StreamErrorM>(Flow::Continue)
        &&& m2.work.skip_line
        &&& m2.hold == m1.hold && m2.printed == m1.printed && m2.work.processed == m1.work.processed
        &&& current_matches(m1, r.1, m1.work.processed) ==> m2.emits == m1.emits.push((true, text))
        &&& !current_matches(m1, r.1, m1.work.processed) ==> m2.emits == m1.emits && m2.changes == m1.changes
    }
}

/// `c`, at the top level or inside a group, does what `change_done` says.
pub proof fn lemma_stream_change(m: StreamModel, c: SCommand, ci: usize, gi: usize)
    ensures
        c matches SCommand::Change { text, range } ==> change_done(m, text, range, ci, spec_top_cmd(m, c, ci))
            && change_done(m, text, range, ci, spec_group_cmd(m, c, ci, gi)),
{
    reveal(act_change);
}

/// At the top level or inside a group: `i` writes its text before the
/// line, once, when its address matches; `a` keeps its text to write after
/// the line; `=` prints the line number in decimal; `F` prints the input's
/// name; `z` (at the top level) empties the line being edited. Each
/// changes nothing else, and does nothing when its address does not match.
pub proof fn lemma_stream_text_commands(m: StreamModel, c: SCommand, ci: usize, gi: usize)
    ensures
        ({
            let (r, m2) = spec_top_cmd(m, c, ci);
            let (rg, mg) = spec_group_cmd(m, c, ci, gi);
            let line = m.work.processed;
            &&& (c is Insert || c is Append || c is PrintLineNumber || c is PrintFilename || c is ClearPatternSpace)
                ==> r == Ok::<Flow, StreamErrorM>(Flow::Continue)
            &&& (c is Insert || c is Append || c is PrintLineNumber || c is PrintFilename) ==> rg == r && mg == m2
            &&& c matches SCommand::Insert { text, address } ==> m2 == (if current_matches(m, address, line) {
                StreamModel {
                    emits: m.emits.push((true, text)),
                    changes: m.changes.push((m.line_num, ChangeType::Added, text, None)),
                    ..m
                }
            } else {
                m
            })
            &&& c matches SCommand::Append { text, address } ==> m2 == (if current_matches(m, address, line) {
                StreamModel { work: WorkModel { append_text: Some(text), ..m.work }, ..m }
            } else {
                m
            })
            &&& c matches SCommand::PrintLineNumber { range } ==> m2 == (if addr_applies(m, range) {
                StreamModel {
                    emits: m.emits.push((false, decimal(m.current_line as nat))),
                    printed: m.printed.push(decimal(m.current_line as nat)),
                    ..m
                }
            } else {
                m
            })
            &&& c matches SCommand::PrintFilename { range } ==> m2 == (if addr_applies(m, range) {
                StreamModel { emits: m.emits.push((false, m.source)), printed: m.printed.push(m.source), ..m }
            } else {
                m
            })
            &&& c matches SCommand::ClearPatternSpace { range } ==> m2 == (if addr_applies(m, range) {
                StreamModel {
                    work: WorkModel { processed: Seq::empty(), line_changed: m.work.line_changed || line.len() > 0, ..m.work },
                    ..m
                }
            } else {
                m
            })
        }),
{
    reveal(act_insert);
    reveal(act_append);
    reveal(act_line_number);
    reveal(act_filename);
    reveal(act_clear);
}

} // verus!
