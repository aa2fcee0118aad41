//! The in-memory engine: GNU sed's execution cycle over all the lines of a
//! file, with pattern and hold space, ranges, branches and multi-line
//! commands.
use vstd::prelude::*;
use crate::cli::RegexFlavor;
use crate::command::{Address, Command, SAddress, SCommand, SRange, SubstitutionFlags, clone_commands, commands_view, lemma_commands_view};
use crate::file_processor::common::{AddressContext, ChangeType, FileDiff, LineChange, SubstitutionEngine, matches_address, spec_apply, spec_matches};
use crate::file_processor::line_diff::{changes_m, diff_lines, line_changes, line_diff, lines_text, listing_m, paired_changes, paired_listing};
use crate::path_policy::{spec_validate_operand, validate_script_file_operand};
use crate::regex_error::{EnhancedRegexError, ErrorModel};
use crate::text::{
    after_first_newline, after_first_newline_of, decimal, first_line, first_line_of, push_char, push_str,
    push_string, str_to_string, strs, usize_to_string,
};

verus! {

broadcast use vstd::string::group_string_axioms;

// ---------------------------------------------------------------------------
// Input lines

/// The input lines with a read position, for the cycle and for `n`/`N`.
#[derive(Clone)]
pub struct LineIterator {
    lines: Vec<String>,
    current: usize,
}

impl View for LineIterator {
    type V = (Seq<Seq<char>>, usize);

    closed spec fn view(&self) -> (Seq<Seq<char>>, usize) {
        (strs(self.lines@), self.current)
    }
}

impl LineIterator {
    /// The position never passes the end.
    pub closed spec fn wf(&self) -> bool {
        self.current <= self.lines@.len() <= usize::MAX
    }

    /// The position is within the lines, whose number fits a `usize`.
    pub proof fn lemma_bounds(&self)
        requires
            self.wf(),
        ensures
            self@.1 <= self@.0.len() <= usize::MAX,
    {
    }

    /// An iterator at the first line.
    pub fn new(lines: Vec<String>) -> (it: Self)
        ensures
            it@ == (strs(lines@), 0usize),
            it.wf(),
    {
        let _ = lines.len();
        LineIterator { lines, current: 0 }
    }

    /// The next line, which the cycle starts from; the position moves on.
    pub fn current_line(&mut self) -> (r: Option<String>)
        requires
            old(self).wf(),
        ensures
            final(self).wf(),
            old(self)@.1 < old(self)@.0.len() ==> (r matches Some(l) && l@ == old(self)@.0[old(self)@.1 as int]
                && final(self)@ == (old(self)@.0, (old(self)@.1 + 1) as usize)),
            old(self)@.1 >= old(self)@.0.len() ==> r is None && final(self)@ == old(self)@,
    {
        self.read_next()
    }

    /// The next line, for `n` and `N`; the position moves on.
    pub fn read_next(&mut self) -> (r: Option<String>)
        requires
            old(self).wf(),
        ensures
            final(self).wf(),
            old(self)@.1 < old(self)@.0.len() ==> (r matches Some(l) && l@ == old(self)@.0[old(self)@.1 as int]
                && final(self)@ == (old(self)@.0, (old(self)@.1 + 1) as usize)),
            old(self)@.1 >= old(self)@.0.len() ==> r is None && final(self)@ == old(self)@,
    {
        if self.current < self.lines.len() {
            let line = self.lines[self.current].clone();
            self.current += 1;
            Some(line)
        } else {
            None
        }
    }

    /// The number of input lines.
    pub fn total_lines(&self) -> (n: usize)
        ensures
            n == self@.0.len(),
    {
        self.lines.len()
    }

    /// Whether every line has been read.
    pub fn is_eof(&self) -> (b: bool)
        ensures
            b == (self@.1 >= self@.0.len()),
    {
        self.current >= self.lines.len()
    }
}

// ---------------------------------------------------------------------------
// Cycle state

/// What applying a command tells the cycle to do next.
#[derive(Debug, Clone, Copy, PartialEq, Eq, Structural)]
pub enum CycleResult {
    /// Go on with the next command
    Continue,
    /// End the cycle without printing the pattern space (`d`)
    DeleteLine,
    /// Restart the commands on the remaining pattern space (`D`)
    RestartCycle,
    /// Continue at this command index (`b`, `t`, `T`)
    Branch(usize),
    /// Stop processing (`q`, `Q`)
    Quit(i32),
}

/// The state of one cycle.
pub struct CycleState {
    /// Current pattern space (lines joined by '\n')
    pub pattern_space: String,
    /// Hold space
    pub hold_space: String,
    /// Current line number (from 1)
    pub line_num: usize,
    /// The pattern space is not to be printed
    pub deleted: bool,
    /// Output of `p`, `P`, `n` and `s///p`
    pub output_lines: Vec<String>,
    /// Output of `=` and `F`
    pub side_effects: Vec<String>,
    /// Text to output before the pattern space (`i`, `c`)
    pub inserted_before: Vec<String>,
    /// Text to output after the pattern space (`a`, `r`)
    pub appended_after: Vec<String>,
    /// Name of the input, for `F`
    pub current_filename: String,
    /// The input lines
    pub line_iter: LineIterator,
    /// For each line-number range `(start, end)`: whether inside it, and
    /// whether it has ended
    pub line_range_states: Vec<((usize, usize), (bool, bool))>,
    /// A substitution was made since the cycle started (`t`, `T`)
    pub substitution_made: bool,
}

/// Model of the cycle state.
pub struct CycleModel {
    pub pattern_space: Seq<char>,
    pub hold_space: Seq<char>,
    pub line_num: usize,
    pub deleted: bool,
    pub output_lines: Seq<Seq<char>>,
    pub side_effects: Seq<Seq<char>>,
    pub inserted_before: Seq<Seq<char>>,
    pub appended_after: Seq<Seq<char>>,
    pub current_filename: Seq<char>,
    pub lines: Seq<Seq<char>>,
    pub pos: usize,
    pub ranges: Seq<((usize, usize), (bool, bool))>,
    pub substitution_made: bool,
}

impl View for CycleState {
    type V = CycleModel;

    open spec fn view(&self) -> CycleModel {
        CycleModel {
            pattern_space: self.pattern_space@,
            hold_space: self.hold_space@,
            line_num: self.line_num,
            deleted: self.deleted,
            output_lines: strs(self.output_lines@),
            side_effects: strs(self.side_effects@),
            inserted_before: strs(self.inserted_before@),
            appended_after: strs(self.appended_after@),
            current_filename: self.current_filename@,
            lines: self.line_iter@.0,
            pos: self.line_iter@.1,
            ranges: self.line_range_states@,
            substitution_made: self.substitution_made,
        }
    }
}

impl CycleState {
    /// The iterator is well formed and lines are counted no faster than
    /// they are read.
    pub open spec fn wf(&self) -> bool {
        &&& self.line_iter.wf()
        &&& self.line_num <= self@.pos
        &&& self@.pos <= self@.lines.len() <= usize::MAX
    }

    /// A fresh state over `lines`, with the given hold space, reading the
    /// standard input.
    pub fn new(hold_space: String, lines: Vec<String>) -> (st: Self)
        ensures
            st.wf(),
            st@.pattern_space == Seq::<char>::empty(),
            st@.hold_space == hold_space@,
            st@.line_num == 0,
            !st@.deleted,
            st@.output_lines.len() == 0,
            st@.side_effects.len() == 0,
            st@.inserted_before.len() == 0,
            st@.appended_after.len() == 0,
            st@.current_filename == "(stdin)"@,
            st@.lines == strs(lines@),
            st@.pos == 0,
            st@.ranges.len() == 0,
            !st@.substitution_made,
    {
        let line_iter = LineIterator::new(lines);
        proof { line_iter.lemma_bounds(); }
        CycleState {
            pattern_space: String::new(),
            hold_space,
            line_num: 0,
            deleted: false,
            output_lines: Vec::new(),
            side_effects: Vec::new(),
            inserted_before: Vec::new(),
            appended_after: Vec::new(),
            current_filename: str_to_string("(stdin)"),
            line_iter,
            line_range_states: Vec::new(),
            substitution_made: false,
        }
    }
}

// ---------------------------------------------------------------------------
// The processor and its model

/// Why a run stopped with an error.
#[derive(Debug)]
pub enum ProcessError {
    /// A substitution pattern does not compile
    Regex(EnhancedRegexError),
    /// A branch names a label the script does not define
    UndefinedLabel(String),
    /// A file name given to `r`, `R`, `w` or `W` is refused
    UnsafePath(String),
    /// The content of a file to read was not provided (it could not be read)
    FileUnavailable(String),
    /// The script ran for the maximum number of steps without finishing
    StepLimit,
}

/// Model of a run error.
pub enum ErrorM {
    Regex(ErrorModel),
    UndefinedLabel(Seq<char>),
    UnsafePath(Seq<char>),
    FileUnavailable(Seq<char>),
    StepLimit,
}

impl View for ProcessError {
    type V = ErrorM;

    open spec fn view(&self) -> ErrorM {
        match self {
            ProcessError::Regex(e) => ErrorM::Regex(e@),
            ProcessError::UndefinedLabel(s) => ErrorM::UndefinedLabel(s@),
            ProcessError::UnsafePath(s) => ErrorM::UnsafePath(s@),
            ProcessError::FileUnavailable(s) => ErrorM::FileUnavailable(s@),
            ProcessError::StepLimit => ErrorM::StepLimit,
        }
    }
}

/// Runs a script over whole files, cycle by cycle.
pub struct FileProcessor {
    commands: Vec<Command>,
    printed_lines: Vec<String>,
    hold_space: String,
    no_default_output: bool,
    /// Contents of the files `r` and `R` read, by the name the script uses
    read_files: Vec<(String, Vec<String>)>,
    /// How many lines `R` has taken from each file
    read_positions: Vec<(String, usize)>,
    /// Lines written by `w` and `W`, with the file names, in order
    pending_writes: Vec<(String, String)>,
    sub_engine: SubstitutionEngine,
}

/// Model of the processor.
pub struct ProcModel {
    pub commands: Seq<SCommand>,
    pub no_default_output: bool,
    pub printed: Seq<Seq<char>>,
    pub hold: Seq<char>,
    pub files: Seq<(Seq<char>, Seq<Seq<char>>)>,
    pub read_positions: Seq<(Seq<char>, usize)>,
    pub writes: Seq<(Seq<char>, Seq<char>)>,
    pub flavor: RegexFlavor,
}

pub open spec fn files_view(v: Seq<(String, Vec<String>)>) -> Seq<(Seq<char>, Seq<Seq<char>>)> {
    v.map_values(|e: (String, Vec<String>)| (e.0@, strs(e.1@)))
}

pub open spec fn positions_view(v: Seq<(String, usize)>) -> Seq<(Seq<char>, usize)> {
    v.map_values(|e: (String, usize)| (e.0@, e.1))
}

pub open spec fn writes_view(v: Seq<(String, String)>) -> Seq<(Seq<char>, Seq<char>)> {
    v.map_values(|e: (String, String)| (e.0@, e.1@))
}

impl View for FileProcessor {
    type V = ProcModel;

    closed spec fn view(&self) -> ProcModel {
        ProcModel {
            commands: commands_view(self.commands@),
            no_default_output: self.no_default_output,
            printed: strs(self.printed_lines@),
            hold: self.hold_space@,
            files: files_view(self.read_files@),
            read_positions: positions_view(self.read_positions@),
            writes: writes_view(self.pending_writes@),
            flavor: self.sub_engine.flavor(),
        }
    }
}

// ---------------------------------------------------------------------------
// Semantics: addresses and ranges

/// Whether an address selects the cycle's current line; the number of
/// lines is known.
pub open spec fn cycle_matches(st: CycleModel, a: SAddress) -> bool {
    spec_matches(a, st.pattern_space, st.line_num, Some(st.lines.len() as usize), st.line_num == st.lines.len())
}

/// The state of a line-number range, if it has been seen.
pub open spec fn range_get(rs: Seq<((usize, usize), (bool, bool))>, key: (usize, usize)) -> Option<(bool, bool)>
    decreases rs.len(),
{
    if rs.len() == 0 {
        None
    } else if rs[0].0 == key {
        Some(rs[0].1)
    } else {
        range_get(rs.drop_first(), key)
    }
}

/// The range states with the state of `key` set.
pub open spec fn range_set(rs: Seq<((usize, usize), (bool, bool))>, key: (usize, usize), v: (bool, bool)) -> Seq<
    ((usize, usize), (bool, bool)),
>
    decreases rs.len(),
{
    if rs.len() == 0 {
        seq![(key, v)]
    } else if rs[0].0 == key {
        seq![(key, v)] + rs.drop_first()
    } else {
        seq![rs[0]] + range_set(rs.drop_first(), key, v)
    }
}

/// Whether a range selects the current line, and the range states after:
/// `1,$` always; `a,a` on line `a`; `a,b` from line `a` through line `b`,
/// once; any other range wherever its start or its end matches.
pub open spec fn spec_check_range(st: CycleModel, start: SAddress, end: SAddress) -> (bool, CycleModel) {
    match (start, end) {
        (SAddress::LineNumber(1), SAddress::LastLine) => (true, st),
        (SAddress::LineNumber(a), SAddress::LineNumber(b)) => if a == b {
            (st.line_num == a, st)
        } else {
            let key = (a, b);
            let (in_range, ended) = match range_get(st.ranges, key) {
                Some(v) => v,
                None => (false, false),
            };
            if ended {
                (false, CycleModel { ranges: range_set(st.ranges, key, (in_range, ended)), ..st })
            } else if st.line_num == a {
                (true, CycleModel { ranges: range_set(st.ranges, key, (true, ended)), ..st })
            } else if st.line_num == b {
                (true, CycleModel { ranges: range_set(st.ranges, key, (in_range, true)), ..st })
            } else {
                (in_range, CycleModel { ranges: range_set(st.ranges, key, (in_range, ended)), ..st })
            }
        },
        _ => (cycle_matches(st, start) || cycle_matches(st, end), st),
    }
}

/// An optional range: none selects every line.
pub open spec fn spec_check_opt_range(st: CycleModel, r: Option<SRange>) -> (bool, CycleModel) {
    match r {
        None => (true, st),
        Some((a, b)) => spec_check_range(st, a, b),
    }
}

/// An optional single address: none selects every line.
pub open spec fn spec_check_opt_address(st: CycleModel, a: Option<SAddress>) -> bool {
    match a {
        None => true,
        Some(a) => cycle_matches(st, a),
    }
}

/// Whether a command applies to the current line, and the range states
/// after checking it.
#[verifier::opaque]
pub open spec fn spec_should_apply(st: CycleModel, c: SCommand) -> (bool, CycleModel) {
    match c {
        SCommand::Substitution { range, .. } => spec_check_opt_range(st, range),
        SCommand::Next { range } => spec_check_opt_range(st, range),
        SCommand::NextAppend { range } => spec_check_opt_range(st, range),
        SCommand::Hold { range } => spec_check_opt_range(st, range),
        SCommand::HoldAppend { range } => spec_check_opt_range(st, range),
        SCommand::Get { range } => spec_check_opt_range(st, range),
        SCommand::GetAppend { range } => spec_check_opt_range(st, range),
        SCommand::Exchange { range } => spec_check_opt_range(st, range),
        SCommand::Group { range, .. } => spec_check_opt_range(st, range),
        SCommand::Delete { range } => spec_check_range(st, range.0, range.1),
        SCommand::Print { range } => spec_check_range(st, range.0, range.1),
        SCommand::PrintFirstLine { range } => spec_check_opt_range(st, range),
        SCommand::DeleteFirstLine { range } => spec_check_opt_range(st, range),
        SCommand::Insert { address, .. } => (cycle_matches(st, address), st),
        SCommand::Append { address, .. } => (cycle_matches(st, address), st),
        SCommand::Change { range, .. } => spec_check_range(st, range.0, range.1),
        SCommand::Quit { address } => (spec_check_opt_address(st, address), st),
        SCommand::QuitWithoutPrint { address } => (spec_check_opt_address(st, address), st),
        SCommand::Label { .. } => (true, st),
        SCommand::Branch { range, .. } => spec_check_opt_range(st, range),
        SCommand::Test { range, .. } => spec_check_opt_range(st, range),
        SCommand::TestFalse { range, .. } => spec_check_opt_range(st, range),
        SCommand::ReadFile { range, .. } => (spec_check_opt_address(st, range), st),
        SCommand::WriteFile { range, .. } => (spec_check_opt_address(st, range), st),
        SCommand::ReadLine { range, .. } => (spec_check_opt_address(st, range), st),
        SCommand::WriteFirstLine { range, .. } => (spec_check_opt_address(st, range), st),
        SCommand::PrintLineNumber { range } => (spec_check_opt_address(st, range), st),
        SCommand::PrintFilename { range } => (spec_check_opt_address(st, range), st),
        SCommand::ClearPatternSpace { range } => (spec_check_opt_address(st, range), st),
    }
}

// ---------------------------------------------------------------------------
// Semantics: commands

/// The index of the last top-level label definition with this name.
pub open spec fn label_index(cs: Seq<SCommand>, name: Seq<char>) -> Option<usize>
    decreases cs.len(),
{
    if cs.len() == 0 {
        None
    } else if cs.last() matches SCommand::Label { name: n } && n == name {
        Some((cs.len() - 1) as usize)
    } else {
        label_index(cs.drop_last(), name)
    }
}

/// Where a branch goes: to its label, or to the end of the script.
pub open spec fn spec_branch(p: ProcModel, label: Option<Seq<char>>) -> Result<CycleResult, ErrorM> {
    match label {
        None => Ok(CycleResult::Branch(p.commands.len() as usize)),
        Some(n) => match label_index(p.commands, n) {
            Some(i) => Ok(CycleResult::Branch(i)),
            None => Err(ErrorM::UndefinedLabel(n)),
        },
    }
}

/// The provided content of a file, by name.
pub open spec fn file_get(fs: Seq<(Seq<char>, Seq<Seq<char>>)>, name: Seq<char>) -> Option<Seq<Seq<char>>>
    decreases fs.len(),
{
    if fs.len() == 0 {
        None
    } else if fs[0].0 == name {
        Some(fs[0].1)
    } else {
        file_get(fs.drop_first(), name)
    }
}

/// How many lines `R` has read from a file.
pub open spec fn pos_get(ps: Seq<(Seq<char>, usize)>, name: Seq<char>) -> Option<usize>
    decreases ps.len(),
{
    if ps.len() == 0 {
        None
    } else if ps[0].0 == name {
        Some(ps[0].1)
    } else {
        pos_get(ps.drop_first(), name)
    }
}

/// The read positions with the one of `name` set.
pub open spec fn pos_set(ps: Seq<(Seq<char>, usize)>, name: Seq<char>, v: usize) -> Seq<(Seq<char>, usize)>
    decreases ps.len(),
{
    if ps.len() == 0 {
        seq![(name, v)]
    } else if ps[0].0 == name {
        seq![(name, v)] + ps.drop_first()
    } else {
        seq![ps[0]] + pos_set(ps.drop_first(), name, v)
    }
}

/// `a` followed by a newline and `b`.
pub open spec fn join_line(a: Seq<char>, b: Seq<char>) -> Seq<char> {
    a + seq!['\n'] + b
}

/// `a`, then a newline when `a` is not empty, then `b`.
pub open spec fn append_line(a: Seq<char>, b: Seq<char>) -> Seq<char> {
    if a.len() > 0 { a + seq!['\n'] + b } else { b }
}

/// What applying one command does: its outcome for the cycle, and the
/// processor and cycle state after it. Addresses of commands inside a group
/// are not consulted; the group's own range decides.
#[verifier::opaque]
pub open spec fn spec_apply_command(p: ProcModel, st: CycleModel, c: SCommand) -> (Result<CycleResult, ErrorM>, ProcModel, CycleModel)
    decreases c, 0int,
{
    let cont = Ok(CycleResult::Continue);
    match c {
        SCommand::Next { .. } => {
            let st1 = if !p.no_default_output {
                CycleModel { output_lines: st.output_lines.push(st.pattern_space), ..st }
            } else {
                st
            };
            if st1.pos < st1.lines.len() {
                (cont, p, CycleModel {
                    pattern_space: st1.lines[st1.pos as int],
                    pos: (st1.pos + 1) as usize,
                    line_num: (st1.line_num + 1) as usize,
                    ..st1
                })
            } else {
                (Ok(CycleResult::DeleteLine), p, st1)
            }
        },
        SCommand::NextAppend { .. } => if st.pos < st.lines.len() {
            (cont, p, CycleModel {
                pattern_space: join_line(st.pattern_space, st.lines[st.pos as int]),
                pos: (st.pos + 1) as usize,
                line_num: (st.line_num + 1) as usize,
                ..st
            })
        } else {
            (Ok(CycleResult::DeleteLine), p, if !p.no_default_output {
                CycleModel { output_lines: st.output_lines.push(st.pattern_space), ..st }
            } else {
                st
            })
        },
        SCommand::PrintFirstLine { .. } => (cont, p, match first_line(st.pattern_space) {
            Some(l) => CycleModel { output_lines: st.output_lines.push(l), ..st },
            None => st,
        }),
        SCommand::DeleteFirstLine { .. } => match after_first_newline(st.pattern_space) {
            Some(rest) => (Ok(CycleResult::RestartCycle), p, CycleModel { pattern_space: rest, ..st }),
            None => (Ok(CycleResult::DeleteLine), p, st),
        },
        SCommand::Delete { .. } => (Ok(CycleResult::DeleteLine), p, st),
        SCommand::Print { .. } => (cont, p, CycleModel { output_lines: st.output_lines.push(st.pattern_space), ..st }),
        SCommand::Substitution { pattern, replacement, flags, .. } => match spec_apply(
            p.flavor,
            st.pattern_space,
            pattern,
            replacement,
            flags,
        ) {
            Err(m) => (Err(ErrorM::Regex(m)), p, st),
            Ok(res) => (cont, p, if res != st.pattern_space {
                CycleModel {
                    pattern_space: res,
                    substitution_made: true,
                    output_lines: if flags.print { st.output_lines.push(res) } else { st.output_lines },
                    ..st
                }
            } else {
                st
            }),
        },
        SCommand::Insert { text, .. } => (cont, p, CycleModel { inserted_before: st.inserted_before.push(text), ..st }),
        SCommand::Append { text, .. } => (cont, p, CycleModel { appended_after: st.appended_after.push(text), ..st }),
        SCommand::Change { text, range } => (Ok(CycleResult::DeleteLine), p, if cycle_matches(st, range.1) {
            CycleModel { inserted_before: st.inserted_before.push(text), ..st }
        } else {
            st
        }),
        SCommand::Hold { .. } => (cont, p, CycleModel { hold_space: st.pattern_space, ..st }),
        SCommand::HoldAppend { .. } => (cont, p, CycleModel { hold_space: append_line(st.hold_space, st.pattern_space), ..st }),
        SCommand::Get { .. } => (cont, p, CycleModel { pattern_space: st.hold_space, ..st }),
        SCommand::GetAppend { .. } => (cont, p, CycleModel { pattern_space: append_line(st.pattern_space, st.hold_space), ..st }),
        SCommand::Exchange { .. } => (cont, p, CycleModel { pattern_space: st.hold_space, hold_space: st.pattern_space, ..st }),
        SCommand::Quit { .. } => (Ok(CycleResult::Quit(0)), p, st),
        SCommand::QuitWithoutPrint { .. } => (Ok(CycleResult::Quit(0)), p, CycleModel { deleted: true, ..st }),
        SCommand::Label { .. } => (cont, p, st),
        SCommand::Branch { label, .. } => (spec_branch(p, label), p, st),
        SCommand::Test { label, .. } => (if st.substitution_made { spec_branch(p, label) } else { cont }, p, st),
        SCommand::TestFalse { label, .. } => (if !st.substitution_made { spec_branch(p, label) } else { cont }, p, st),
        SCommand::Group { commands, .. } => spec_apply_group(p, st, commands, 0),
        SCommand::WriteFile { filename, .. } => match spec_validate_operand(filename) {
            Err(m) => (Err(ErrorM::UnsafePath(m)), p, st),
            Ok(_) => (cont, ProcModel { writes: p.writes.push((filename, st.pattern_space)), ..p }, st),
        },
        SCommand::WriteFirstLine { filename, .. } => match spec_validate_operand(filename) {
            Err(m) => (Err(ErrorM::UnsafePath(m)), p, st),
            Ok(_) => (cont, ProcModel {
                writes: p.writes.push((filename, match first_line(st.pattern_space) {
                    Some(l) => l,
                    None => Seq::empty(),
                })),
                ..p
            }, st),
        },
        SCommand::ReadFile { filename, .. } => match spec_validate_operand(filename) {
            Err(m) => (Err(ErrorM::UnsafePath(m)), p, st),
            Ok(_) => match file_get(p.files, filename) {
                None => (Err(ErrorM::FileUnavailable(filename)), p, st),
                Some(lines) => (cont, p, CycleModel { appended_after: st.appended_after + lines, ..st }),
            },
        },
        SCommand::ReadLine { filename, .. } => match spec_validate_operand(filename) {
            Err(m) => (Err(ErrorM::UnsafePath(m)), p, st),
            Ok(_) => match file_get(p.files, filename) {
                None => (Err(ErrorM::FileUnavailable(filename)), p, st),
                Some(lines) => {
                    let at = match pos_get(p.read_positions, filename) {
                        Some(k) => k,
                        None => 0,
                    };
                    if at < lines.len() {
                        (cont, ProcModel { read_positions: pos_set(p.read_positions, filename, (at + 1) as usize), ..p },
                        CycleModel { pattern_space: join_line(st.pattern_space, lines[at as int]), ..st })
                    } else {
                        (cont, ProcModel { read_positions: pos_set(p.read_positions, filename, at), ..p }, st)
                    }
                },
            },
        },
        SCommand::PrintLineNumber { .. } => (cont, p, CycleModel {
            side_effects: st.side_effects.push(decimal(st.line_num as nat)),
            ..st
        }),
        SCommand::PrintFilename { .. } => (cont, p, CycleModel { side_effects: st.side_effects.push(st.current_filename), ..st }),
        SCommand::ClearPatternSpace { .. } => (cont, p, CycleModel { pattern_space: Seq::empty(), ..st }),
    }
}

/// The commands of a group from index `i` on, applied in turn until one
/// does not continue.
pub open spec fn spec_apply_group(p: ProcModel, st: CycleModel, cs: Seq<SCommand>, i: int) -> (Result<CycleResult, ErrorM>, ProcModel, CycleModel)
    decreases cs, cs.len() - i,
{
    if i < 0 || i >= cs.len() {
        (Ok(CycleResult::Continue), p, st)
    } else {
        proof { assert(decreases_to!(cs => cs[i])); }
        let (r, p1, st1) = spec_apply_command(p, st, cs[i]);
        match r {
            Ok(CycleResult::Continue) => spec_apply_group(p1, st1, cs, i + 1),
            _ => (r, p1, st1),
        }
    }
}

// ---------------------------------------------------------------------------
// Semantics: cycles and runs

/// How the commands of one cycle ended.
pub enum CycleEnd {
    /// The end of the script, or a `d`-like end of the cycle
    Done,
    /// A `q` or `Q`
    Quit,
    /// An error
    Failed(ErrorM),
}

/// The most steps (commands looked at) a run may take.
pub open spec fn step_budget() -> usize {
    usize::MAX
}

/// The commands of a cycle from index `pc` on, with `fuel` steps left: each
/// command looked at takes a step; labels are skipped; a command applies
/// when its address or range selects the line.
#[verifier::opaque]
pub open spec fn spec_cycle(p: ProcModel, st: CycleModel, pc: int, fuel: nat) -> (CycleEnd, ProcModel, CycleModel, nat)
    decreases fuel,
{
    if pc < 0 || pc >= p.commands.len() {
        (CycleEnd::Done, p, st, fuel)
    } else if fuel == 0 {
        (CycleEnd::Failed(ErrorM::StepLimit), p, st, 0)
    } else {
        let c = p.commands[pc];
        let f = (fuel - 1) as nat;
        if c is Label {
            spec_cycle(p, st, pc + 1, f)
        } else {
            let (applies, st1) = spec_should_apply(st, c);
            if !applies {
                spec_cycle(p, st1, pc + 1, f)
            } else {
                let (r, p2, st2) = spec_apply_command(p, st1, c);
                match r {
                    Err(e) => (CycleEnd::Failed(e), p2, st2, f),
                    Ok(CycleResult::Continue) => spec_cycle(p2, st2, pc + 1, f),
                    Ok(CycleResult::Branch(t)) => spec_cycle(p2, st2, t as int, f),
                    Ok(CycleResult::DeleteLine) => (CycleEnd::Done, p2, CycleModel { deleted: true, ..st2 }, f),
                    Ok(CycleResult::RestartCycle) => spec_cycle(p2, st2, 0, f),
                    Ok(CycleResult::Quit(_)) => (CycleEnd::Quit, p2, st2, f),
                }
            }
        }
    }
}

/// The pattern space, when it is printed.
pub open spec fn shown_pattern(p: ProcModel, st: CycleModel) -> Seq<Seq<char>> {
    if !st.deleted && !p.no_default_output { seq![st.pattern_space] } else { Seq::empty() }
}

/// The output of a cycle that ended: inserted text, `=`/`F` output, print
/// output, the pattern space, appended text.
pub open spec fn cycle_output(p: ProcModel, st: CycleModel) -> Seq<Seq<char>> {
    st.inserted_before + st.side_effects + st.output_lines + shown_pattern(p, st) + st.appended_after
}

/// The output of a cycle that quit: inserted text, the pattern space,
/// appended text, print output, `=`/`F` output.
pub open spec fn quit_output(p: ProcModel, st: CycleModel) -> Seq<Seq<char>> {
    st.inserted_before + shown_pattern(p, st) + st.appended_after + st.output_lines + st.side_effects
}

/// The state at the start of a cycle on the next input line.
pub open spec fn start_cycle(st: CycleModel) -> CycleModel {
    CycleModel {
        pattern_space: st.lines[st.pos as int],
        pos: (st.pos + 1) as usize,
        line_num: (st.line_num + 1) as usize,
        substitution_made: false,
        deleted: false,
        inserted_before: Seq::empty(),
        appended_after: Seq::empty(),
        output_lines: Seq::empty(),
        side_effects: Seq::empty(),
        ..st
    }
}

/// The rest of a run: cycles until the input ends or a command quits, with
/// `out` the output so far. The result is the output or the error, and the
/// processor after the run (its hold space kept for the next run when the
/// run finishes).
#[verifier::opaque]
pub open spec fn spec_run(p: ProcModel, st: CycleModel, out: Seq<Seq<char>>, fuel: nat) -> (Result<Seq<Seq<char>>, ErrorM>, ProcModel)
    decreases fuel,
{
    if st.pos >= st.lines.len() {
        (Ok(out), ProcModel { hold: st.hold_space, ..p })
    } else if fuel == 0 {
        (Err(ErrorM::StepLimit), p)
    } else {
        let st0 = start_cycle(st);
        let (end, p1, st1, f1) = spec_cycle(p, st0, 0, (fuel - 1) as nat);
        proof { lemma_cycle_fuel(p, st0, 0, (fuel - 1) as nat); }
        match end {
            CycleEnd::Failed(e) => (Err(e), p1),
            CycleEnd::Quit => (
                Ok(out + quit_output(p1, st1)),
                ProcModel { printed: p1.printed + st1.output_lines + st1.side_effects, hold: st1.hold_space, ..p1 },
            ),
            CycleEnd::Done => spec_run(
                ProcModel { printed: p1.printed + st1.side_effects + st1.output_lines, ..p1 },
                st1,
                out + cycle_output(p1, st1),
                f1,
            ),
        }
    }
}

pub proof fn lemma_cycle_fuel(p: ProcModel, st: CycleModel, pc: int, fuel: nat)
    ensures
        spec_cycle(p, st, pc, fuel).3 <= fuel,
    decreases fuel,
{
    reveal(spec_cycle);
    if !(pc < 0 || pc >= p.commands.len()) && fuel > 0 {
        let c = p.commands[pc];
        let f = (fuel - 1) as nat;
        let (applies, st1) = spec_should_apply(st, c);
        let (r, p2, st2) = spec_apply_command(p, st1, c);
        lemma_cycle_fuel(p, st, pc + 1, f);
        lemma_cycle_fuel(p, st1, pc + 1, f);
        lemma_cycle_fuel(p2, st2, pc + 1, f);
        lemma_cycle_fuel(p2, st2, 0, f);
        match r {
            Ok(CycleResult::Branch(t)) => {
                lemma_cycle_fuel(p2, st2, t as int, f);
            },
            _ => {},
        }
    }
}

/// What `apply_cycle_based` gives for a processor and input lines.
pub open spec fn spec_apply_cycle_based(p: ProcModel, lines: Seq<Seq<char>>) -> (Result<Seq<Seq<char>>, ErrorM>, ProcModel) {
    let st = CycleModel {
        pattern_space: Seq::empty(),
        hold_space: p.hold,
        line_num: 0,
        deleted: false,
        output_lines: Seq::empty(),
        side_effects: Seq::empty(),
        inserted_before: Seq::empty(),
        appended_after: Seq::empty(),
        current_filename: "(stdin)"@,
        lines,
        pos: 0,
        ranges: Seq::empty(),
        substitution_made: false,
    };
    spec_run(p, st, Seq::empty(), step_budget() as nat)
}

// ---------------------------------------------------------------------------
// Lookups

proof fn lemma_range_index(rs: Seq<((usize, usize), (bool, bool))>, key: (usize, usize), i: int, v: (bool, bool))
    requires
        0 <= i <= rs.len(),
        forall|k: int| 0 <= k < i ==> rs[k].0 != key,
        i < rs.len() ==> rs[i].0 == key,
    ensures
        i < rs.len() ==> range_get(rs, key) == Some(rs[i].1) && range_set(rs, key, v) == rs.update(i, (key, v)),
        i == rs.len() ==> range_get(rs, key) is None && range_set(rs, key, v) == rs.push((key, v)),
    decreases rs.len(),
{
    if rs.len() > 0 && i > 0 {
        lemma_range_index(rs.drop_first(), key, i - 1, v);
        if i < rs.len() {
            assert(seq![rs[0]] + rs.drop_first().update(i - 1, (key, v)) =~= rs.update(i, (key, v)));
        } else {
            assert(seq![rs[0]] + rs.drop_first().push((key, v)) =~= rs.push((key, v)));
        }
    } else if rs.len() > 0 {
        assert(seq![(key, v)] + rs.drop_first() =~= rs.update(0, (key, v)));
    } else {
        assert(seq![(key, v)] =~= rs.push((key, v)));
    }
}

fn range_index(rs: &Vec<((usize, usize), (bool, bool))>, key: (usize, usize)) -> (r: Option<usize>)
    ensures
        match r {
            Some(i) => i < rs@.len() && rs@[i as int].0 == key && forall|k: int| 0 <= k < i ==> rs@[k].0 != key,
            None => forall|k: int| 0 <= k < rs@.len() ==> rs@[k].0 != key,
        },
{
    let mut i: usize = 0;
    while i < rs.len()
        invariant
            i <= rs@.len(),
            forall|k: int| 0 <= k < i ==> rs@[k].0 != key,
        decreases rs@.len() - i,
    {
        let k = rs[i].0;
        if k.0 == key.0 && k.1 == key.1 {
            return Some(i);
        }
        i += 1;
    }
    None
}

proof fn lemma_pos_index(ps: Seq<(Seq<char>, usize)>, name: Seq<char>, i: int, v: usize)
    requires
        0 <= i <= ps.len(),
        forall|k: int| 0 <= k < i ==> ps[k].0 != name,
        i < ps.len() ==> ps[i].0 == name,
    ensures
        i < ps.len() ==> pos_get(ps, name) == Some(ps[i].1) && pos_set(ps, name, v) == ps.update(i, (name, v)),
        i == ps.len() ==> pos_get(ps, name) is None && pos_set(ps, name, v) == ps.push((name, v)),
    decreases ps.len(),
{
    if ps.len() > 0 && i > 0 {
        lemma_pos_index(ps.drop_first(), name, i - 1, v);
        if i < ps.len() {
            assert(seq![ps[0]] + ps.drop_first().update(i - 1, (name, v)) =~= ps.update(i, (name, v)));
        } else {
            assert(seq![ps[0]] + ps.drop_first().push((name, v)) =~= ps.push((name, v)));
        }
    } else if ps.len() > 0 {
        assert(seq![(name, v)] + ps.drop_first() =~= ps.update(0, (name, v)));
    } else {
        assert(seq![(name, v)] =~= ps.push((name, v)));
    }
}

proof fn lemma_file_index(fs: Seq<(Seq<char>, Seq<Seq<char>>)>, name: Seq<char>, i: int)
    requires
        0 <= i <= fs.len(),
        forall|k: int| 0 <= k < i ==> fs[k].0 != name,
        i < fs.len() ==> fs[i].0 == name,
    ensures
        i < fs.len() ==> file_get(fs, name) == Some(fs[i].1),
        i == fs.len() ==> file_get(fs, name) is None,
    decreases fs.len(),
{
    if fs.len() > 0 && i > 0 {
        lemma_file_index(fs.drop_first(), name, i - 1);
    }
}

proof fn lemma_label_step(cs: Seq<SCommand>, name: Seq<char>, i: int)
    requires
        0 < i <= cs.len(),
    ensures
        label_index(cs.take(i), name) == if (cs[i - 1] matches SCommand::Label { name: n } && n == name) {
            Some((i - 1) as usize)
        } else {
            label_index(cs.take(i - 1), name)
        },
{
    assert(cs.take(i).drop_last() =~= cs.take(i - 1));
    assert(cs.take(i).last() == cs[i - 1]);
}

/// Appends a newline and then `t`.
fn push_joined(s: &mut String, t: &str)
    ensures
        final(s)@ == join_line(old(s)@, t@),
{
    let ghost before = s@;
    push_char(s, '\n');
    push_str(s, t);
    assert(before.push('\n') + t@ =~= before + seq!['\n'] + t@);
}

/// The outcome of a command, with its error by its model.
pub open spec fn result_view(r: Result<CycleResult, ProcessError>) -> Result<CycleResult, ErrorM> {
    match r {
        Ok(c) => Ok(c),
        Err(e) => Err(e@),
    }
}

fn check_range_inclusive(state: &mut CycleState, start: &Address, end: &Address) -> (b: bool)
    requires
        old(state).wf(),
    ensures
        final(state).wf(),
        (b, final(state)@) == spec_check_range(old(state)@, start@, end@),
{
    match (start, end) {
        (Address::LineNumber(1), Address::LastLine) => true,
        (Address::LineNumber(a), Address::LineNumber(b)) => {
            if *a == *b {
                return state.line_num == *a;
            }
            let key = (*a, *b);
            let ghost rs = state.line_range_states@;
            let idx = range_index(&state.line_range_states, key);
            let (in_range, ended) = match idx {
                Some(i) => state.line_range_states[i].1,
                None => (false, false),
            };
            let result = if ended {
                false
            } else if state.line_num == *a {
                true
            } else if state.line_num == *b {
                true
            } else {
                in_range
            };
            let new_v = if ended {
                (in_range, ended)
            } else if state.line_num == *a {
                (true, ended)
            } else if state.line_num == *b {
                (in_range, true)
            } else {
                (in_range, ended)
            };
            match idx {
                Some(i) => {
                    proof { lemma_range_index(rs, key, i as int, new_v); }
                    state.line_range_states.set(i, (key, new_v));
                }
                None => {
                    proof { lemma_range_index(rs, key, rs.len() as int, new_v); }
                    state.line_range_states.push((key, new_v));
                }
            }
            result
        }
        _ => {
            let s = address_matches_cycle(start, state);
            let e = address_matches_cycle(end, state);
            s || e
        }
    }
}

fn address_matches_cycle(addr: &Address, state: &CycleState) -> (b: bool)
    ensures
        b == cycle_matches(state@, addr@),
{
    let total = state.line_iter.total_lines();
    matches_address(
        addr,
        &AddressContext {
            line: state.pattern_space.as_str(),
            line_number: state.line_num,
            total_lines: Some(total),
            is_last_line: state.line_num == total,
        },
    )
}

fn check_opt_range(state: &mut CycleState, range: &Option<(Address, Address)>) -> (b: bool)
    requires
        old(state).wf(),
    ensures
        final(state).wf(),
        (b, final(state)@) == spec_check_opt_range(old(state)@, crate::command::opt_range_view(*range)),
{
    match range {
        None => true,
        Some((s, e)) => check_range_inclusive(state, s, e),
    }
}

fn check_opt_address(state: &CycleState, a: &Option<Address>) -> (b: bool)
    ensures
        b == spec_check_opt_address(state@, crate::command::opt_addr_view(*a)),
{
    match a {
        None => true,
        Some(a) => address_matches_cycle(a, state),
    }
}

fn should_apply_to_cycle(cmd: &Command, state: &mut CycleState) -> (b: bool)
    requires
        old(state).wf(),
    ensures
        final(state).wf(),
        (b, final(state)@) == spec_should_apply(old(state)@, cmd@),
{
    reveal(spec_should_apply);
    match cmd {
        Command::Substitution { range, .. } => check_opt_range(state, range),
        Command::Next { range } => check_opt_range(state, range),
        Command::NextAppend { range } => check_opt_range(state, range),
        Command::Hold { range } => check_opt_range(state, range),
        Command::HoldAppend { range } => check_opt_range(state, range),
        Command::Get { range } => check_opt_range(state, range),
        Command::GetAppend { range } => check_opt_range(state, range),
        Command::Exchange { range } => check_opt_range(state, range),
        Command::Group { range, .. } => check_opt_range(state, range),
        Command::Delete { range } => check_range_inclusive(state, &range.0, &range.1),
        Command::Print { range } => check_range_inclusive(state, &range.0, &range.1),
        Command::PrintFirstLine { range } => check_opt_range(state, range),
        Command::DeleteFirstLine { range } => check_opt_range(state, range),
        Command::Insert { address, .. } => address_matches_cycle(address, state),
        Command::Append { address, .. } => address_matches_cycle(address, state),
        Command::Change { range, .. } => check_range_inclusive(state, &range.0, &range.1),
        Command::Quit { address } => check_opt_address(state, address),
        Command::QuitWithoutPrint { address } => check_opt_address(state, address),
        Command::Label { .. } => true,
        Command::Branch { range, .. } => check_opt_range(state, range),
        Command::Test { range, .. } => check_opt_range(state, range),
        Command::TestFalse { range, .. } => check_opt_range(state, range),
        Command::ReadFile { range, .. } => check_opt_address(state, range),
        Command::WriteFile { range, .. } => check_opt_address(state, range),
        Command::ReadLine { range, .. } => check_opt_address(state, range),
        Command::WriteFirstLine { range, .. } => check_opt_address(state, range),
        Command::PrintLineNumber { range } => check_opt_address(state, range),
        Command::PrintFilename { range } => check_opt_address(state, range),
        Command::ClearPatternSpace { range } => check_opt_address(state, range),
    }
}

impl FileProcessor {
    /// A processor for a script with PCRE patterns.
    pub fn new(commands: Vec<Command>) -> (fp: Self)
        ensures
            fp@ == (ProcModel {
                commands: commands_view(commands@),
                no_default_output: false,
                printed: Seq::empty(),
                hold: Seq::empty(),
                files: Seq::empty(),
                read_positions: Seq::empty(),
                writes: Seq::empty(),
                flavor: RegexFlavor::PCRE,
            }),
    {
        Self::with_regex_flavor(commands, RegexFlavor::PCRE)
    }

    /// A processor for a script whose substitutions use the given flavor.
    pub fn with_regex_flavor(commands: Vec<Command>, regex_flavor: RegexFlavor) -> (fp: Self)
        ensures
            fp@ == (ProcModel {
                commands: commands_view(commands@),
                no_default_output: false,
                printed: Seq::empty(),
                hold: Seq::empty(),
                files: Seq::empty(),
                read_positions: Seq::empty(),
                writes: Seq::empty(),
                flavor: regex_flavor,
            }),
    {
        let fp = FileProcessor {
            commands,
            printed_lines: Vec::new(),
            hold_space: String::new(),
            no_default_output: false,
            read_files: Vec::new(),
            read_positions: Vec::new(),
            pending_writes: Vec::new(),
            sub_engine: SubstitutionEngine::new(regex_flavor),
        };
        assert(strs(fp.printed_lines@) =~= Seq::empty());
        assert(files_view(fp.read_files@) =~= Seq::empty());
        assert(positions_view(fp.read_positions@) =~= Seq::empty());
        assert(writes_view(fp.pending_writes@) =~= Seq::empty());
        fp
    }

    /// Suppress the automatic printing of the pattern space (`-n`).
    pub fn set_no_default_output(&mut self, no_output: bool)
        ensures
            final(self)@ == (ProcModel { no_default_output: no_output, ..old(self)@ }),
    {
        self.no_default_output = no_output;
    }

    /// Give the content of a file that `r` or `R` reads, under the name the
    /// script uses for it.
    pub fn provide_file(&mut self, name: String, lines: Vec<String>)
        ensures
            final(self)@ == (ProcModel { files: old(self)@.files.push((name@, strs(lines@))), ..old(self)@ }),
    {
        let ghost before = self.read_files@;
        self.read_files.push((name, lines));
        assert(files_view(self.read_files@) =~= files_view(before).push((name@, strs(lines@))));
    }

    /// The lines written by `w` and `W` so far, with their file names, in
    /// order; they are handed over and forgotten.
    pub fn take_pending_writes(&mut self) -> (w: Vec<(String, String)>)
        ensures
            writes_view(w@) == old(self)@.writes,
            final(self)@ == (ProcModel { writes: Seq::empty(), ..old(self)@ }),
    {
        let mut w: Vec<(String, String)> = Vec::new();
        std::mem::swap(&mut w, &mut self.pending_writes);
        assert(writes_view(self.pending_writes@) =~= Seq::empty());
        w
    }

    /// The lines printed by print commands so far.
    pub fn printed_lines(&self) -> (v: &Vec<String>)
        ensures
            strs(v@) == self@.printed,
    {
        &self.printed_lines
    }

    /// The hold space kept from the last run.
    pub fn hold_space(&self) -> (h: &String)
        ensures
            h@ == self@.hold,
    {
        &self.hold_space
    }

    fn label_target(&self, name: &String) -> (r: Option<usize>)
        ensures
            r == label_index(self@.commands, name@),
    {
        let ghost cv = commands_view(self.commands@);
        proof { lemma_commands_view(self.commands@); }
        let mut i = self.commands.len();
        assert(cv.take(i as int) =~= cv);
        while i > 0
            invariant
                i <= self.commands@.len(),
                cv == commands_view(self.commands@),
                cv.len() == self.commands@.len(),
                forall|k: int| 0 <= k < self.commands@.len() ==> #[trigger] cv[k] == self.commands@[k]@,
                label_index(cv, name@) == label_index(cv.take(i as int), name@),
            decreases i,
        {
            proof { lemma_label_step(cv, name@, i as int); }
            match &self.commands[i - 1] {
                Command::Label { name: n } => {
                    if *n == *name {
                        assert(cv[i - 1] == self.commands@[i - 1]@);
                        return Some(i - 1);
                    }
                }
                _ => {}
            }
            assert(cv[i - 1] == self.commands@[i - 1]@);
            i -= 1;
        }
        None
    }

    fn branch_to(&self, label: &Option<String>) -> (r: Result<CycleResult, ProcessError>)
        ensures
            result_view(r) == spec_branch(self@, crate::command::opt_str_view(*label)),
    {
        proof { lemma_commands_view(self.commands@); }
        match label {
            None => Ok(CycleResult::Branch(self.commands.len())),
            Some(name) => match self.label_target(name) {
                Some(i) => Ok(CycleResult::Branch(i)),
                None => Err(ProcessError::UndefinedLabel(name.clone())),
            },
        }
    }

    fn file_index(&self, name: &String) -> (r: Option<usize>)
        ensures
            match r {
                Some(i) => i < self.read_files@.len() && file_get(self@.files, name@) == Some(strs(self.read_files@[i as int].1@)),
                None => file_get(self@.files, name@) is None,
            },
    {
        let ghost fs = files_view(self.read_files@);
        let mut i: usize = 0;
        while i < self.read_files.len()
            invariant
                i <= self.read_files@.len(),
                fs == files_view(self.read_files@),
                forall|k: int| 0 <= k < i ==> fs[k].0 != name@,
            decreases self.read_files@.len() - i,
        {
            if self.read_files[i].0 == *name {
                proof { lemma_file_index(fs, name@, i as int); }
                return Some(i);
            }
            i += 1;
        }
        proof { lemma_file_index(fs, name@, i as int); }
        None
    }

    fn position_index(&self, name: &String) -> (r: Option<usize>)
        ensures
            match r {
                Some(i) => i < self.read_positions@.len() && self.read_positions@[i as int].0@ == name@ && forall|k: int|
                    0 <= k < i ==> positions_view(self.read_positions@)[k].0 != name@,
                None => forall|k: int| 0 <= k < self.read_positions@.len() ==> positions_view(self.read_positions@)[k].0 != name@,
            },
    {
        let mut i: usize = 0;
        while i < self.read_positions.len()
            invariant
                i <= self.read_positions@.len(),
                forall|k: int| 0 <= k < i ==> positions_view(self.read_positions@)[k].0 != name@,
            decreases self.read_positions@.len() - i,
        {
            if self.read_positions[i].0 == *name {
                return Some(i);
            }
            i += 1;
        }
        None
    }
}

impl FileProcessor {
    /// Apply one command to the cycle.
    fn apply_command_to_cycle(&mut self, cmd: &Command, state: &mut CycleState) -> (r: Result<CycleResult, ProcessError>)
        requires
            old(state).wf(),
        ensures
            final(state).wf(),
            (result_view(r), final(self)@, final(state)@) == spec_apply_command(old(self)@, old(state)@, cmd@),
        decreases cmd,
    {
        reveal(spec_apply_command);
        match cmd {
            Command::Next { .. } => {
                if !self.no_default_output {
                    push_string(&mut state.output_lines, state.pattern_space.clone());
                }
                match state.line_iter.read_next() {
                    Some(next) => {
                        state.pattern_space = next;
                        state.line_num += 1;
                        Ok(CycleResult::Continue)
                    }
                    None => Ok(CycleResult::DeleteLine),
                }
            }
            Command::NextAppend { .. } => {
                match state.line_iter.read_next() {
                    Some(next) => {
                        push_joined(&mut state.pattern_space, next.as_str());
                        state.line_num += 1;
                        Ok(CycleResult::Continue)
                    }
                    None => {
                        if !self.no_default_output {
                            push_string(&mut state.output_lines, state.pattern_space.clone());
                        }
                        Ok(CycleResult::DeleteLine)
                    }
                }
            }
            Command::PrintFirstLine { .. } => {
                match first_line_of(state.pattern_space.as_str()) {
                    Some(line) => push_string(&mut state.output_lines, line),
                    None => {}
                }
                Ok(CycleResult::Continue)
            }
            Command::DeleteFirstLine { .. } => {
                match after_first_newline_of(state.pattern_space.as_str()) {
                    Some(rest) => {
                        state.pattern_space = rest;
                        Ok(CycleResult::RestartCycle)
                    }
                    None => Ok(CycleResult::DeleteLine),
                }
            }
            Command::Delete { .. } => Ok(CycleResult::DeleteLine),
            Command::Print { .. } => {
                push_string(&mut state.output_lines, state.pattern_space.clone());
                Ok(CycleResult::Continue)
            }
            Command::Substitution { pattern, replacement, flags, .. } => {
                let result = match self.sub_engine.apply(state.pattern_space.as_str(), pattern.as_str(), replacement.as_str(), flags) {
                    Ok(res) => res,
                    Err(e) => {
                        return Err(ProcessError::Regex(e));
                    }
                };
                if result != state.pattern_space {
                    state.pattern_space = result;
                    state.substitution_made = true;
                    if flags.print {
                        push_string(&mut state.output_lines, state.pattern_space.clone());
                    }
                }
                Ok(CycleResult::Continue)
            }
            Command::Insert { text, .. } => {
                push_string(&mut state.inserted_before, text.clone());
                Ok(CycleResult::Continue)
            }
            Command::Append { text, .. } => {
                push_string(&mut state.appended_after, text.clone());
                Ok(CycleResult::Continue)
            }
            Command::Change { text, range } => {
                if address_matches_cycle(&range.1, state) {
                    push_string(&mut state.inserted_before, text.clone());
                }
                Ok(CycleResult::DeleteLine)
            }
            Command::Hold { .. } => {
                state.hold_space = state.pattern_space.clone();
                Ok(CycleResult::Continue)
            }
            Command::HoldAppend { .. } => {
                let p = state.pattern_space.clone();
                if !state.hold_space.as_str().is_empty() {
                    push_joined(&mut state.hold_space, p.as_str());
                } else {
                    state.hold_space = p;
                }
                Ok(CycleResult::Continue)
            }
            Command::Get { .. } => {
                state.pattern_space = state.hold_space.clone();
                Ok(CycleResult::Continue)
            }
            Command::GetAppend { .. } => {
                let h = state.hold_space.clone();
                if !state.pattern_space.as_str().is_empty() {
                    push_joined(&mut state.pattern_space, h.as_str());
                } else {
                    state.pattern_space = h;
                }
                Ok(CycleResult::Continue)
            }
            Command::Exchange { .. } => {
                std::mem::swap(&mut state.pattern_space, &mut state.hold_space);
                Ok(CycleResult::Continue)
            }
            Command::Quit { .. } => Ok(CycleResult::Quit(0)),
            Command::QuitWithoutPrint { .. } => {
                state.deleted = true;
                Ok(CycleResult::Quit(0))
            }
            Command::Label { .. } => Ok(CycleResult::Continue),
            Command::Branch { label, .. } => self.branch_to(label),
            Command::Test { label, .. } => {
                if state.substitution_made {
                    self.branch_to(label)
                } else {
                    Ok(CycleResult::Continue)
                }
            }
            Command::TestFalse { label, .. } => {
                if !state.substitution_made {
                    self.branch_to(label)
                } else {
                    Ok(CycleResult::Continue)
                }
            }
            Command::Group { commands, range } => {
                let ghost p0 = self@;
                let ghost st0 = state@;
                let ghost cs = commands_view(commands@);
                proof { lemma_commands_view(commands@); }
                assert(spec_apply_command(p0, st0, cmd@) == spec_apply_group(p0, st0, cs, 0));
                let mut k: usize = 0;
                while k < commands.len()
                    invariant
                        p0 == old(self)@,
                        st0 == old(state)@,
                        spec_apply_command(p0, st0, cmd@) == spec_apply_group(p0, st0, cs, 0),
                        state.wf(),
                        k <= commands@.len(),
                        cs == commands_view(commands@),
                        cs.len() == commands@.len(),
                        forall|m: int| 0 <= m < commands@.len() ==> #[trigger] cs[m] == commands@[m]@,
                        spec_apply_group(p0, st0, cs, 0) == spec_apply_group(self@, state@, cs, k as int),
                        *cmd == (Command::Group { commands: *commands, range: *range }),
                    decreases commands@.len() - k,
                {
                    proof {
                        reveal(spec_apply_command);
                        assert(cs[k as int] == commands@[k as int]@);
                        assert((*cmd)->Group_commands == *commands);
                        assert(decreases_to!(*cmd => (*cmd)->Group_commands));
                        assert(decreases_to!((*cmd)->Group_commands => (*cmd)->Group_commands@));
                        assert(decreases_to!((*cmd)->Group_commands@ => (*cmd)->Group_commands@[k as int]));
                    }
                    let res = self.apply_command_to_cycle(&commands[k], state);
                    proof { reveal(spec_apply_command); }
                    match res {
                        Ok(CycleResult::Continue) => {}
                        _ => {
                            return res;
                        }
                    }
                    k += 1;
                }
                Ok(CycleResult::Continue)
            }
            Command::WriteFile { filename, .. } => {
                match validate_script_file_operand(filename.as_str()) {
                    Err(m) => {
                        return Err(ProcessError::UnsafePath(m));
                    }
                    Ok(_) => {}
                }
                let ghost before = self.pending_writes@;
                self.pending_writes.push((filename.clone(), state.pattern_space.clone()));
                assert(writes_view(self.pending_writes@) =~= writes_view(before).push((filename@, state.pattern_space@)));
                Ok(CycleResult::Continue)
            }
            Command::WriteFirstLine { filename, .. } => {
                match validate_script_file_operand(filename.as_str()) {
                    Err(m) => {
                        return Err(ProcessError::UnsafePath(m));
                    }
                    Ok(_) => {}
                }
                let first = match first_line_of(state.pattern_space.as_str()) {
                    Some(l) => l,
                    None => String::new(),
                };
                let ghost before = self.pending_writes@;
                let ghost fv = first@;
                self.pending_writes.push((filename.clone(), first));
                assert(writes_view(self.pending_writes@) =~= writes_view(before).push((filename@, fv)));
                Ok(CycleResult::Continue)
            }
            Command::ReadFile { filename, .. } => {
                match validate_script_file_operand(filename.as_str()) {
                    Err(m) => {
                        return Err(ProcessError::UnsafePath(m));
                    }
                    Ok(_) => {}
                }
                let fi = match self.file_index(filename) {
                    Some(i) => i,
                    None => {
                        return Err(ProcessError::FileUnavailable(filename.clone()));
                    }
                };
                let ghost lines = strs(self.read_files@[fi as int].1@);
                let ghost start = state@.appended_after;
                let n = self.read_files[fi].1.len();
                let mut j: usize = 0;
                while j < n
                    invariant
                        state.wf(),
                        fi < self.read_files@.len(),
                        n == self.read_files@[fi as int].1@.len(),
                        lines == strs(self.read_files@[fi as int].1@),
                        j <= n,
                        state@.appended_after == start + lines.take(j as int),
                        state@ == (CycleModel { appended_after: state@.appended_after, ..old(state)@ }),
                    decreases n - j,
                {
                    let line = self.read_files[fi].1[j].clone();
                    push_string(&mut state.appended_after, line);
                    assert(lines.take(j + 1) =~= lines.take(j as int).push(lines[j as int]));
                    assert(start + lines.take(j + 1) =~= (start + lines.take(j as int)).push(lines[j as int]));
                    j += 1;
                }
                assert(lines.take(n as int) =~= lines);
                Ok(CycleResult::Continue)
            }
            Command::ReadLine { filename, .. } => {
                match validate_script_file_operand(filename.as_str()) {
                    Err(m) => {
                        return Err(ProcessError::UnsafePath(m));
                    }
                    Ok(_) => {}
                }
                let fi = match self.file_index(filename) {
                    Some(i) => i,
                    None => {
                        return Err(ProcessError::FileUnavailable(filename.clone()));
                    }
                };
                let ghost ps = positions_view(self.read_positions@);
                let pi = self.position_index(filename);
                let at = match pi {
                    Some(i) => self.read_positions[i].1,
                    None => 0,
                };
                let n = self.read_files[fi].1.len();
                let new_at = if at < n { at + 1 } else { at };
                proof {
                    match pi {
                        Some(i) => { lemma_pos_index(ps, filename@, i as int, new_at); }
                        None => { lemma_pos_index(ps, filename@, ps.len() as int, new_at); }
                    }
                }
                if at < n {
                    let line = self.read_files[fi].1[at].clone();
                    push_joined(&mut state.pattern_space, line.as_str());
                }
                let ghost before = self.read_positions@;
                match pi {
                    Some(i) => {
                        self.read_positions.set(i, (filename.clone(), new_at));
                        assert(positions_view(self.read_positions@) =~= ps.update(i as int, (filename@, new_at)));
                    }
                    None => {
                        self.read_positions.push((filename.clone(), new_at));
                        assert(positions_view(self.read_positions@) =~= ps.push((filename@, new_at)));
                    }
                }
                Ok(CycleResult::Continue)
            }
            Command::PrintLineNumber { .. } => {
                push_string(&mut state.side_effects, usize_to_string(state.line_num));
                Ok(CycleResult::Continue)
            }
            Command::PrintFilename { .. } => {
                push_string(&mut state.side_effects, state.current_filename.clone());
                Ok(CycleResult::Continue)
            }
            Command::ClearPatternSpace { .. } => {
                state.pattern_space = String::new();
                Ok(CycleResult::Continue)
            }
        }
    }
}

/// Applying a command keeps the script, the output mode, the flavor and the
/// provided files.
pub proof fn lemma_apply_keeps(p: ProcModel, st: CycleModel, c: SCommand)
    ensures
        spec_apply_command(p, st, c).1.commands == p.commands,
        spec_apply_command(p, st, c).1.no_default_output == p.no_default_output,
        spec_apply_command(p, st, c).1.flavor == p.flavor,
        spec_apply_command(p, st, c).1.files == p.files,
        spec_apply_command(p, st, c).1.printed == p.printed,
        spec_apply_command(p, st, c).1.hold == p.hold,
    decreases c, 0int,
{
    reveal(spec_apply_command);
    if let SCommand::Group { commands, .. } = c {
        lemma_group_keeps(p, st, commands, 0);
    }
}

pub proof fn lemma_group_keeps(p: ProcModel, st: CycleModel, cs: Seq<SCommand>, i: int)
    ensures
        spec_apply_group(p, st, cs, i).1.commands == p.commands,
        spec_apply_group(p, st, cs, i).1.no_default_output == p.no_default_output,
        spec_apply_group(p, st, cs, i).1.flavor == p.flavor,
        spec_apply_group(p, st, cs, i).1.files == p.files,
        spec_apply_group(p, st, cs, i).1.printed == p.printed,
        spec_apply_group(p, st, cs, i).1.hold == p.hold,
    decreases cs, cs.len() - i,
{
    reveal(spec_apply_command);
    if 0 <= i < cs.len() {
        assert(decreases_to!(cs => cs[i]));
        lemma_apply_keeps(p, st, cs[i]);
        let (r, p1, st1) = spec_apply_command(p, st, cs[i]);
        lemma_group_keeps(p1, st1, cs, i + 1);
    }
}

/// Running the commands of a cycle keeps the script and the output mode.
pub proof fn lemma_cycle_keeps(p: ProcModel, st: CycleModel, pc: int, fuel: nat)
    ensures
        spec_cycle(p, st, pc, fuel).1.commands == p.commands,
        spec_cycle(p, st, pc, fuel).1.no_default_output == p.no_default_output,
    decreases fuel,
{
    reveal(spec_cycle);
    if !(pc < 0 || pc >= p.commands.len()) && fuel > 0 {
        let c = p.commands[pc];
        let f = (fuel - 1) as nat;
        let (applies, st1) = spec_should_apply(st, c);
        let (r, p2, st2) = spec_apply_command(p, st1, c);
        lemma_apply_keeps(p, st1, c);
        lemma_cycle_keeps(p, st, pc + 1, f);
        lemma_cycle_keeps(p, st1, pc + 1, f);
        lemma_cycle_keeps(p2, st2, pc + 1, f);
        lemma_cycle_keeps(p2, st2, 0, f);
        match r {
            Ok(CycleResult::Branch(t)) => {
                lemma_cycle_keeps(p2, st2, t as int, f);
            },
            _ => {},
        }
    }
}

/// Appends copies of the strings of `src` to `dst`.
fn append_all(dst: &mut Vec<String>, src: &Vec<String>)
    ensures
        strs(final(dst)@) == strs(old(dst)@) + strs(src@),
{
    let ghost start = strs(dst@);
    let mut i: usize = 0;
    while i < src.len()
        invariant
            i <= src@.len(),
            strs(dst@) == start + strs(src@).take(i as int),
        decreases src@.len() - i,
    {
        push_string(dst, src[i].clone());
        assert(strs(src@).take(i + 1) =~= strs(src@).take(i as int).push(src@[i as int]@));
        assert(start + strs(src@).take(i + 1) =~= (start + strs(src@).take(i as int)).push(src@[i as int]@));
        i += 1;
    }
    assert(strs(src@).take(i as int) =~= strs(src@));
}

impl FileProcessor {
    /// Run the commands of one cycle, from the first, while steps are left.
    fn run_cycle(&mut self, commands: &Vec<Command>, state: &mut CycleState, budget: &mut usize) -> (r: Result<bool, ProcessError>)
        requires
            old(state).wf(),
            commands_view(commands@) == old(self)@.commands,
        ensures
            final(state).wf(),
            ({
                let (end, p1, st1, f1) = spec_cycle(old(self)@, old(state)@, 0, *old(budget) as nat);
                match end {
                    CycleEnd::Done => r == Ok::<bool, ProcessError>(false) && final(self)@ == p1 && final(state)@ == st1
                        && *final(budget) == f1,
                    CycleEnd::Quit => r == Ok::<bool, ProcessError>(true) && final(self)@ == p1 && final(state)@ == st1,
                    CycleEnd::Failed(e) => r matches Err(x) && x@ == e && final(self)@ == p1,
                }
            }),
    {
        let ghost p0 = self@;
        let ghost s0 = state@;
        let ghost b0 = *budget as nat;
        let n = commands.len();
        proof { lemma_commands_view(commands@); }
        let mut pc: usize = 0;
        while pc < n
            invariant
                state.wf(),
                n == commands@.len(),
                commands_view(commands@) == self@.commands,
                commands_view(commands@).len() == n,
                forall|m: int| 0 <= m < n ==> #[trigger] commands_view(commands@)[m] == commands@[m]@,
                spec_cycle(p0, s0, 0, b0) == spec_cycle(self@, state@, pc as int, *budget as nat),
                p0 == old(self)@,
                s0 == old(state)@,
                b0 == *old(budget) as nat,
            decreases *budget,
        {
            proof { reveal(spec_cycle); }
            if *budget == 0 {
                return Err(ProcessError::StepLimit);
            }
            *budget = *budget - 1;
            let cmd = &commands[pc];
            assert(self@.commands[pc as int] == cmd@);
            match cmd {
                Command::Label { .. } => {
                    pc += 1;
                    continue;
                }
                _ => {}
            }
            if !should_apply_to_cycle(cmd, state) {
                pc += 1;
                continue;
            }
            let ghost p_before = self@;
            let ghost s_before = state@;
            let result = self.apply_command_to_cycle(cmd, state);
            proof { lemma_apply_keeps(p_before, s_before, cmd@); }
            match result {
                Err(e) => {
                    return Err(e);
                }
                Ok(CycleResult::Continue) => {
                    pc += 1;
                }
                Ok(CycleResult::Branch(t)) => {
                    if t >= n {
                        proof { reveal_with_fuel(spec_cycle, 2); }
                        return Ok(false);
                    }
                    pc = t;
                }
                Ok(CycleResult::DeleteLine) => {
                    state.deleted = true;
                    return Ok(false);
                }
                Ok(CycleResult::RestartCycle) => {
                    pc = 0;
                }
                Ok(CycleResult::Quit(_)) => {
                    return Ok(true);
                }
            }
        }
        proof { reveal(spec_cycle); }
        Ok(false)
    }

    /// Run the script over the lines of a file, cycle by cycle: each line
    /// starts a cycle; at its end the output is inserted text, `=`/`F`
    /// output, print output, the pattern space (unless deleted or `-n`),
    /// appended text. `q` and `Q` stop the run. The hold space is kept for
    /// the next run.
    #[verifier::rlimit(40)]
    pub fn apply_cycle_based(&mut self, lines: Vec<String>) -> (r: Result<Vec<String>, ProcessError>)
        ensures
            ({
                let (res, p) = spec_apply_cycle_based(old(self)@, strs(lines@));
                &&& final(self)@ == p
                &&& match res {
                    Ok(o) => r matches Ok(v) && strs(v@) == o,
                    Err(e) => r matches Err(x) && x@ == e,
                }
            }),
    {
        let commands = clone_commands(&self.commands);
        let ghost target = spec_apply_cycle_based(self@, strs(lines@));
        let ghost lines_view = strs(lines@);
        let ghost p_start = self@;
        proof { reveal(spec_run); }
        let mut state = CycleState::new(self.hold_space.clone(), lines);
        let mut full_output: Vec<String> = Vec::new();
        let mut budget: usize = usize::MAX;
        assert(strs(full_output@) =~= Seq::<Seq<char>>::empty());
        assert(state@.output_lines =~= Seq::<Seq<char>>::empty());
        assert(state@.side_effects =~= Seq::<Seq<char>>::empty());
        assert(state@.inserted_before =~= Seq::<Seq<char>>::empty());
        assert(state@.appended_after =~= Seq::<Seq<char>>::empty());
        assert(state@.ranges =~= Seq::<((usize, usize), (bool, bool))>::empty());
        loop
            invariant
                state.wf(),
                commands_view(commands@) == self@.commands,
                target == spec_run(self@, state@, strs(full_output@), budget as nat),
                target == spec_apply_cycle_based(p_start, lines_view),
                p_start == old(self)@,
                lines_view == strs(lines@),
            decreases budget,
        {
            proof {
                state.line_iter.lemma_bounds();
                reveal(spec_run);
            }
            if state.line_iter.is_eof() {
                self.hold_space = state.hold_space.clone();
                return Ok(full_output);
            }
            if budget == 0 {
                return Err(ProcessError::StepLimit);
            }
            budget = budget - 1;
            let line = match state.line_iter.current_line() {
                Some(l) => l,
                None => {
                    return Err(ProcessError::StepLimit);
                }
            };
            state.pattern_space = line;
            state.line_num += 1;
            state.substitution_made = false;
            state.deleted = false;
            state.inserted_before = Vec::new();
            state.appended_after = Vec::new();
            state.output_lines = Vec::new();
            state.side_effects = Vec::new();
            assert(state@.output_lines =~= Seq::<Seq<char>>::empty());
            assert(state@.side_effects =~= Seq::<Seq<char>>::empty());
            assert(state@.inserted_before =~= Seq::<Seq<char>>::empty());
            assert(state@.appended_after =~= Seq::<Seq<char>>::empty());
            let ghost st0 = state@;
            let ghost p0 = self@;
            let ghost f0 = budget as nat;
            let quit = match self.run_cycle(&commands, &mut state, &mut budget) {
                Ok(q) => q,
                Err(e) => {
                    return Err(e);
                }
            };
            proof {
                lemma_cycle_fuel(p0, st0, 0, f0);
                lemma_cycle_keeps(p0, st0, 0, f0);
            }
            let ghost out0 = strs(full_output@);
            let ghost p1 = self@;
            let ghost st1 = state@;
            if quit {
                append_all(&mut full_output, &state.inserted_before);
                if !state.deleted && !self.no_default_output {
                    push_string(&mut full_output, state.pattern_space.clone());
                }
                append_all(&mut full_output, &state.appended_after);
                append_all(&mut full_output, &state.output_lines);
                append_all(&mut self.printed_lines, &state.output_lines);
                append_all(&mut full_output, &state.side_effects);
                append_all(&mut self.printed_lines, &state.side_effects);
                self.hold_space = state.hold_space.clone();
                return Ok(full_output);
            }
            append_all(&mut full_output, &state.inserted_before);
            append_all(&mut full_output, &state.side_effects);
            append_all(&mut self.printed_lines, &state.side_effects);
            append_all(&mut full_output, &state.output_lines);
            append_all(&mut self.printed_lines, &state.output_lines);
            if !state.deleted && !self.no_default_output {
                push_string(&mut full_output, state.pattern_space.clone());
            }
            append_all(&mut full_output, &state.appended_after);
            proof {
                assert(strs(full_output@) =~= out0 + cycle_output(p1, st1));
                assert(self@.printed =~= p1.printed + st1.side_effects + st1.output_lines);
                assert(self@ == (ProcModel { printed: p1.printed + st1.side_effects + st1.output_lines, ..p1 }));
            }
        }
    }
}

/// The diff of a run over `original`: the changed lines, every line with
/// how it changed, and the printed lines, for the file named `path`.
pub open spec fn run_diff(path: Seq<char>, original: Seq<Seq<char>>, modified: Seq<Seq<char>>, printed: Seq<Seq<char>>) -> (
    Seq<char>,
    Seq<crate::file_processor::line_diff::ChangeM>,
    Seq<crate::file_processor::line_diff::ListingM>,
    Seq<Seq<char>>,
) {
    let d = line_diff(lines_text(original), lines_text(modified));
    (path, paired_changes(d), paired_listing(d, original), printed)
}

impl FileProcessor {
    fn generate_line_changes(&self, original: &Vec<String>, modified: &Vec<String>) -> (changes: Vec<LineChange>)
        ensures
            changes_m(changes@) == paired_changes(line_diff(lines_text(strs(original@)), lines_text(strs(modified@)))),
    {
        line_changes(original, modified)
    }

    fn generate_diff_lines(&self, original: &Vec<String>, modified: &Vec<String>) -> (listing: Vec<(usize, String, ChangeType)>)
        ensures
            listing_m(listing@) == paired_listing(line_diff(lines_text(strs(original@)), lines_text(strs(modified@))), strs(original@)),
    {
        diff_lines(original, modified)
    }

    /// Runs the script over the lines of the file named `file_path` and
    /// returns its diff: the lines the run outputs against the original
    /// ones, with the printed lines. An error of the run is returned as is.
    pub fn process_lines_with_context(&mut self, file_path: &str, original_lines: Vec<String>) -> (r: Result<FileDiff, ProcessError>)
        ensures
            ({
                let (res, p) = spec_apply_cycle_based(old(self)@, strs(original_lines@));
                &&& final(self)@ == p
                &&& match res {
                    Ok(o) => r matches Ok(d) && !d.is_streaming
                        && (d.file_path@, changes_m(d.changes@), listing_m(d.all_lines@), strs(d.printed_lines@))
                            == run_diff(file_path@, strs(original_lines@), o, p.printed),
                    Err(e) => r matches Err(x) && x@ == e,
                }
            }),
    {
        let original = clone_lines(&original_lines);
        let modified = match self.apply_cycle_based(original_lines) {
            Ok(m) => m,
            Err(e) => return Err(e),
        };
        let changes = self.generate_line_changes(&original, &modified);
        let all_lines = self.generate_diff_lines(&original, &modified);
        let printed = clone_lines(&self.printed_lines);
        Ok(FileDiff {
            file_path: str_to_string(file_path),
            changes,
            all_lines,
            printed_lines: printed,
            is_streaming: false,
        })
    }
}

/// A copy of a list of lines.
pub fn clone_lines(v: &Vec<String>) -> (r: Vec<String>)
    ensures
        strs(r@) == strs(v@),
        r@.len() == v@.len(),
{
    let mut r: Vec<String> = Vec::new();
    let mut i: usize = 0;
    while i < v.len()
        invariant
            i <= v@.len(),
            strs(r@) == strs(v@).take(i as int),
            r@.len() == i,
        decreases v@.len() - i,
    {
        push_string(&mut r, v[i].clone());
        proof {
            assert(strs(v@).take(i + 1) =~= strs(v@).take(i as int).push(v@[i as int]@));
        }
        i += 1;
    }
    assert(strs(v@).take(i as int) =~= strs(v@));
    r
}

proof fn lemma_empty_script_run(p: ProcModel, st: CycleModel, out: Seq<Seq<char>>, fuel: nat)
    requires
        p.commands.len() == 0,
        !p.no_default_output,
        st.pos <= st.lines.len() <= usize::MAX,
        fuel >= st.lines.len() - st.pos,
    ensures
        spec_run(p, st, out, fuel).0 == Ok::<Seq<Seq<char>>, ErrorM>(out + st.lines.skip(st.pos as int)),
    decreases st.lines.len() - st.pos,
{
    reveal(spec_run);
    reveal(spec_cycle);
    if st.pos >= st.lines.len() {
        assert(st.lines.skip(st.pos as int) =~= Seq::<Seq<char>>::empty());
        assert(out + Seq::<Seq<char>>::empty() =~= out);
    } else {
        let st0 = start_cycle(st);
        let f = (fuel - 1) as nat;
        assert(spec_cycle(p, st0, 0, f) == (CycleEnd::Done, p, st0, f));
        let p1 = ProcModel { printed: p.printed + st0.side_effects + st0.output_lines, ..p };
        assert(cycle_output(p, st0) =~= seq![st.lines[st.pos as int]]);
        lemma_empty_script_run(p1, st0, out + cycle_output(p, st0), f);
        assert(out + seq![st.lines[st.pos as int]] + st.lines.skip(st.pos + 1) =~= out + st.lines.skip(st.pos as int));
    }
}

/// With no commands and automatic printing on, a run outputs its input
/// lines as they are.
pub proof fn lemma_empty_script_is_identity(p: ProcModel, lines: Seq<Seq<char>>)
    requires
        p.commands.len() == 0,
        !p.no_default_output,
        lines.len() <= usize::MAX,
    ensures
        spec_apply_cycle_based(p, lines).0 == Ok::<Seq<Seq<char>>, ErrorM>(lines),
{
    let st = CycleModel {
        pattern_space: Seq::empty(),
        hold_space: p.hold,
        line_num: 0,
        deleted: false,
        output_lines: Seq::empty(),
        side_effects: Seq::empty(),
        inserted_before: Seq::empty(),
        appended_after: Seq::empty(),
        current_filename: "(stdin)"@,
        lines,
        pos: 0,
        ranges: Seq::empty(),
        substitution_made: false,
    };
    lemma_empty_script_run(p, st, Seq::empty(), step_budget() as nat);
    assert(Seq::<Seq<char>>::empty() + lines.skip(0) =~= lines);
}

/// The hold-space commands move text between the pattern space and the
/// hold space and change nothing else: `h` copies the pattern space into
/// the hold space; `H` appends it there, after a newline when the hold
/// space holds something, so the old hold space stays in front; `g` copies
/// the hold space into the pattern space; `G` appends it to the pattern
/// space the same way; `x` exchanges the two, so doing it twice restores
/// both. Each lets the cycle go on.
pub proof fn lemma_cycle_hold_space(p: ProcModel, st: CycleModel, c: SCommand)
    ensures
        ({
            let (r, p2, st2) = spec_apply_command(p, st, c);
            let hold = st.hold_space;
            let pat = st.pattern_space;
            &&& (c is Hold || c is HoldAppend || c is Get || c is GetAppend || c is Exchange) ==> r
                == Ok::<CycleResult, ErrorM>(CycleResult::Continue) && p2 == p
            &&& c is Hold ==> st2 == CycleModel { hold_space: pat, ..st }
            &&& c is HoldAppend ==> {
                &&& st2 == CycleModel { hold_space: st2.hold_space, ..st }
                &&& hold.len() == 0 ==> st2.hold_space == pat
                &&& hold.len() > 0 ==> st2.hold_space.len() == hold.len() + 1 + pat.len()
                    && st2.hold_space.take(hold.len() as int) == hold && st2.hold_space[hold.len() as int] == '\n'
                    && st2.hold_space.skip(hold.len() as int + 1) == pat
            }
            &&& c is Get ==> st2 == CycleModel { pattern_space: hold, ..st }
            &&& c is GetAppend ==> {
                &&& st2 == CycleModel { pattern_space: st2.pattern_space, ..st }
                &&& pat.len() == 0 ==> st2.pattern_space == hold
                &&& pat.len() > 0 ==> st2.pattern_space.len() == pat.len() + 1 + hold.len()
                    && st2.pattern_space.take(pat.len() as int) == pat && st2.pattern_space[pat.len() as int] == '\n'
                    && st2.pattern_space.skip(pat.len() as int + 1) == hold
            }
            &&& c is Exchange ==> st2 == CycleModel { pattern_space: hold, hold_space: pat, ..st }
                && spec_apply_command(p2, st2, c).2 == st
        }),
{
    reveal(spec_apply_command);
    let (r, p2, st2) = spec_apply_command(p, st, c);
    let hold = st.hold_space;
    let pat = st.pattern_space;
    if c is HoldAppend && hold.len() > 0 {
        assert(st2.hold_space == hold + seq!['\n'] + pat);
        assert((hold + seq!['\n'] + pat).take(hold.len() as int) =~= hold);
        assert((hold + seq!['\n'] + pat).skip(hold.len() as int + 1) =~= pat);
    }
    if c is GetAppend && pat.len() > 0 {
        assert(st2.pattern_space == pat + seq!['\n'] + hold);
        assert((pat + seq!['\n'] + hold).take(pat.len() as int) =~= pat);
        assert((pat + seq!['\n'] + hold).skip(pat.len() as int + 1) =~= hold);
    }
}

/// `P` adds to the output the first line of the pattern space, and only
/// that line: no newline, a prefix of the pattern space ending at its first
/// line break (an empty pattern space adds nothing). `D` drops the pattern
/// space up to and including its first newline and restarts the cycle on
/// the rest; with no newline it ends the cycle like `d`. `p` adds the
/// whole pattern space. None of them changes anything else.
pub proof fn lemma_cycle_print_and_delete(p: ProcModel, st: CycleModel, c: SCommand)
    ensures
        ({
            let (r, p2, st2) = spec_apply_command(p, st, c);
            let pat = st.pattern_space;
            let outs = st.output_lines;
            &&& c is PrintFirstLine ==> {
                &&& r == Ok::<CycleResult, ErrorM>(CycleResult::Continue) && p2 == p
                &&& st2 == CycleModel { output_lines: st2.output_lines, ..st }
                &&& pat.len() == 0 ==> st2.output_lines == outs
                &&& pat.len() > 0 ==> st2.output_lines.len() == outs.len() + 1 && st2.output_lines.drop_last() == outs
                    && crate::text::is_first_line(st2.output_lines.last(), pat)
            }
            &&& c is DeleteFirstLine ==> {
                &&& p2 == p
                &&& !pat.contains('\n') ==> r == Ok::<CycleResult, ErrorM>(CycleResult::DeleteLine) && st2 == st
                &&& pat.contains('\n') ==> r == Ok::<CycleResult, ErrorM>(CycleResult::RestartCycle)
                    && st2 == CycleModel { pattern_space: st2.pattern_space, ..st }
                    && exists|k: int| 0 <= k < pat.len() && pat[k] == '\n' && !pat.take(k).contains('\n')
                        && st2.pattern_space == pat.skip(k + 1)
            }
            &&& c is Print ==> r == Ok::<CycleResult, ErrorM>(CycleResult::Continue) && p2 == p
                && st2 == CycleModel { output_lines: outs.push(pat), ..st }
            &&& c is Delete ==> r == Ok::<CycleResult, ErrorM>(CycleResult::DeleteLine) && p2 == p && st2 == st
        }),
{
    reveal(spec_apply_command);
    let (r, p2, st2) = spec_apply_command(p, st, c);
    let pat = st.pattern_space;
    crate::text::lemma_first_line(pat);
    crate::text::lemma_find_from(pat, '\n', 0);
    if c is PrintFirstLine && pat.len() > 0 {
        assert(st2.output_lines.drop_last() =~= st.output_lines);
    }
    if c is DeleteFirstLine {
        if pat.contains('\n') {
            let j = choose|j: int| 0 <= j < pat.len() && pat[j] == '\n';
            let k = crate::text::find_char(pat, '\n')->0;
            assert(!pat.take(k).contains('\n')) by {
                if pat.take(k).contains('\n') {
                    let m = choose|m: int| 0 <= m < pat.take(k).len() && pat.take(k)[m] == '\n';
                    assert(pat[m] == '\n');
                }
            }
        } else {
            if crate::text::find_char(pat, '\n') is Some {
                let k = crate::text::find_char(pat, '\n')->0;
                assert(pat.contains('\n'));
            }
        }
    }
}

/// `c` always removes the line from the output; its text is added before
/// the line exactly when the line matches the last address of its range,
/// so a range gets the text once, at its end. `i` adds its text before the
/// line and `a` after it, each once; nothing else changes.
pub proof fn lemma_cycle_text_commands(p: ProcModel, st: CycleModel, c: SCommand)
    ensures
        ({
            let (r, p2, st2) = spec_apply_command(p, st, c);
            &&& c matches SCommand::Change { text, range } ==> {
                &&& r == Ok::<CycleResult, ErrorM>(CycleResult::DeleteLine) && p2 == p
                &&& st2 == CycleModel { inserted_before: st2.inserted_before, ..st }
                &&& !spec_matches(range.1, st.pattern_space, st.line_num, Some(st.lines.len() as usize), st.line_num
                    == st.lines.len()) ==> st2.inserted_before == st.inserted_before
                &&& spec_matches(range.1, st.pattern_space, st.line_num, Some(st.lines.len() as usize), st.line_num
                    == st.lines.len()) ==> st2.inserted_before.len() == st.inserted_before.len() + 1
                    && st2.inserted_before.drop_last() == st.inserted_before && st2.inserted_before.last() == text
            }
            &&& c matches SCommand::Insert { text, .. } ==> r == Ok::<CycleResult, ErrorM>(CycleResult::Continue) && p2 == p
                && st2 == CycleModel { inserted_before: st.inserted_before.push(text), ..st }
            &&& c matches SCommand::Append { text, .. } ==> r == Ok::<CycleResult, ErrorM>(CycleResult::Continue) && p2 == p
                && st2 == CycleModel { appended_after: st.appended_after.push(text), ..st }
        }),
{
    reveal(spec_apply_command);
    let (r, p2, st2) = spec_apply_command(p, st, c);
    if c is Change {
        assert(st2.inserted_before.drop_last() =~= st.inserted_before || st2.inserted_before == st.inserted_before);
    }
}

/// `N` appends a newline and the next input line to the pattern space and
/// goes on; at the end of the input it ends the cycle, writing the pattern
/// space unless automatic printing is off. `n` writes the pattern space
/// (unless automatic printing is off) and replaces it by the next line.
pub proof fn lemma_cycle_next(p: ProcModel, st: CycleModel, c: SCommand)
    ensures
        ({
            let (r, p2, st2) = spec_apply_command(p, st, c);
            let pat = st.pattern_space;
            &&& c is NextAppend && st.pos < st.lines.len() ==> r == Ok::<CycleResult, ErrorM>(CycleResult::Continue)
                && st2.pattern_space == pat + seq!['\n'] + st.lines[st.pos as int]
                && st2.output_lines == st.output_lines
                && st2.hold_space == st.hold_space
            &&& c is NextAppend && st.pos >= st.lines.len() ==> r == Ok::<CycleResult, ErrorM>(CycleResult::DeleteLine)
                && st2.output_lines == (if p.no_default_output { st.output_lines } else { st.output_lines.push(pat) })
            &&& c is Next ==> st2.output_lines == (if p.no_default_output { st.output_lines } else { st.output_lines.push(pat) })
                && st2.hold_space == st.hold_space
            &&& c is Next && st.pos < st.lines.len() ==> r == Ok::<CycleResult, ErrorM>(CycleResult::Continue)
                && st2.pattern_space == st.lines[st.pos as int]
            &&& c is Next && st.pos >= st.lines.len() ==> r == Ok::<CycleResult, ErrorM>(CycleResult::DeleteLine)
        }),
{
    reveal(spec_apply_command);
}

/// `q` stops processing with status 0 and leaves the cycle as it is, so
/// the line is still written; `Q` stops the same way but marks the line
/// deleted, so it is not written; a label does nothing.
pub proof fn lemma_cycle_quit_and_label(p: ProcModel, st: CycleModel, c: SCommand)
    ensures
        ({
            let (r, p2, st2) = spec_apply_command(p, st, c);
            &&& c is Quit ==> r == Ok::<CycleResult, ErrorM>(CycleResult::Quit(0)) && p2 == p && st2 == st
            &&& c is QuitWithoutPrint ==> r == Ok::<CycleResult, ErrorM>(CycleResult::Quit(0)) && p2 == p
                && st2 == CycleModel { deleted: true, ..st }
            &&& c is Label ==> r == Ok::<CycleResult, ErrorM>(CycleResult::Continue) && p2 == p && st2 == st
        }),
{
    reveal(spec_apply_command);
}

} // verus!
