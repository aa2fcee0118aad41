//! What a run of the program decides before and after it touches files:
//! which engine a script can run on, whether it can change files, and what
//! to show once the diffs are known.
use vstd::prelude::*;
use crate::command::{Address, Command, SAddress, SCommand, commands_view, lemma_commands_view};

verus! {

/// An `i` or `a` address the streaming run accepts: a line number.
pub open spec fn spec_streaming_line_address(a: SAddress) -> bool {
    a is LineNumber
}

/// A `c` range the streaming run accepts: one line, by number.
pub open spec fn spec_streaming_single_line_range(start: SAddress, end: SAddress) -> bool {
    match (start, end) {
        (SAddress::LineNumber(a), SAddress::LineNumber(b)) => a == b,
        _ => false,
    }
}

/// Whether the program runs a command line by line: substitutions,
/// deletions, prints, quits and the hold-space commands always; `i` and `a`
/// at a line number; `c` on a single numbered line; groups whose commands
/// all qualify; nothing else.
pub open spec fn command_streams(c: SCommand) -> bool
    decreases c, 1int,
{
    match c {
        SCommand::Substitution { .. } | SCommand::Delete { .. } | SCommand::Print { .. } | SCommand::Quit { .. }
        | SCommand::Hold { .. } | SCommand::HoldAppend { .. } | SCommand::Get { .. } | SCommand::GetAppend { .. }
        | SCommand::Exchange { .. } => true,
        SCommand::Insert { address, .. } => spec_streaming_line_address(address),
        SCommand::Append { address, .. } => spec_streaming_line_address(address),
        SCommand::Change { range, .. } => spec_streaming_single_line_range(range.0, range.1),
        SCommand::Group { commands, .. } => group_streams(commands),
        _ => false,
    }
}

pub open spec fn group_streams(cs: Seq<SCommand>) -> bool
    decreases cs, 0int,
{
    if cs.len() == 0 {
        true
    } else {
        group_streams(cs.drop_last()) && command_streams(cs.last())
    }
}

/// Whether a script can change a file: any command but the printing,
/// reading-ahead, quitting and branching ones, a group's commands counted
/// as its own.
pub open spec fn command_modifies(c: SCommand) -> bool
    decreases c, 1int,
{
    match c {
        SCommand::Print { .. } | SCommand::Quit { .. } | SCommand::QuitWithoutPrint { .. } | SCommand::Next { .. }
        | SCommand::NextAppend { .. } | SCommand::PrintFirstLine { .. } | SCommand::Label { .. }
        | SCommand::Branch { .. } | SCommand::Test { .. } | SCommand::TestFalse { .. }
        | SCommand::PrintLineNumber { .. } | SCommand::PrintFilename { .. } => false,
        SCommand::Group { commands, .. } => group_modifies(commands),
        _ => true,
    }
}

pub open spec fn group_modifies(cs: Seq<SCommand>) -> bool
    decreases cs, 0int,
{
    if cs.len() == 0 {
        false
    } else {
        group_modifies(cs.drop_last()) || command_modifies(cs.last())
    }
}

/// An `i` or `a` address the streaming run accepts.
pub fn is_streaming_line_address(address: &Address) -> (b: bool)
    ensures
        b == spec_streaming_line_address(address@),
{
    match address {
        Address::LineNumber(_) => true,
        _ => false,
    }
}

/// A `c` range the streaming run accepts.
pub fn is_streaming_single_line_range(start: &Address, end: &Address) -> (b: bool)
    ensures
        b == spec_streaming_single_line_range(start@, end@),
{
    match (start, end) {
        (Address::LineNumber(a), Address::LineNumber(b)) => *a == *b,
        _ => false,
    }
}

/// Whether the program may run these commands line by line.
pub fn can_use_streaming(commands: &[Command]) -> (b: bool)
    ensures
        b == group_streams(commands_view(commands@)),
    decreases commands@, 0int,
{
    let ghost cv = commands_view(commands@);
    proof { lemma_commands_view(commands@); }
    let mut i: usize = 0;
    while i < commands.len()
        invariant
            i <= commands@.len(),
            cv == commands_view(commands@),
            cv.len() == commands@.len(),
            forall|k: int| 0 <= k < commands@.len() ==> #[trigger] cv[k] == commands@[k]@,
            group_streams(cv.take(i as int)),
        decreases commands@.len() - i,
    {
        proof {
            assert(cv.take(i + 1).drop_last() =~= cv.take(i as int));
            assert(cv.take(i + 1).last() == commands@[i as int]@);
        }
        let ok = match &commands[i] {
            Command::Substitution { .. } | Command::Delete { .. } | Command::Print { .. } | Command::Quit { .. }
            | Command::Hold { .. } | Command::HoldAppend { .. } | Command::Get { .. } | Command::GetAppend { .. }
            | Command::Exchange { .. } => true,
            Command::Insert { address, .. } => is_streaming_line_address(address),
            Command::Append { address, .. } => is_streaming_line_address(address),
            Command::Change { range, .. } => is_streaming_single_line_range(&range.0, &range.1),
            Command::Group { commands: inner, .. } => {
                proof {
                    assert(decreases_to!(commands@ => commands@[i as int]));
                }
                can_use_streaming(inner.as_slice())
            }
            _ => false,
        };
        assert(ok == command_streams(cv[i as int]));
        if !ok {
            proof { lemma_group_streams_fails(cv, i as int); }
            return false;
        }
        i += 1;
    }
    assert(cv.take(i as int) =~= cv);
    true
}

proof fn lemma_group_streams_fails(cs: Seq<SCommand>, i: int)
    requires
        0 <= i < cs.len(),
        !command_streams(cs[i]),
    ensures
        !group_streams(cs),
    decreases cs.len(),
{
    if i < cs.len() - 1 {
        lemma_group_streams_fails(cs.drop_last(), i);
    }
}

/// Whether running these commands may change a file.
pub fn commands_can_modify_files(commands: &[Command]) -> (b: bool)
    ensures
        b == group_modifies(commands_view(commands@)),
    decreases commands@, 0int,
{
    let ghost cv = commands_view(commands@);
    proof { lemma_commands_view(commands@); }
    let mut i: usize = 0;
    while i < commands.len()
        invariant
            i <= commands@.len(),
            cv == commands_view(commands@),
            cv.len() == commands@.len(),
            forall|k: int| 0 <= k < commands@.len() ==> #[trigger] cv[k] == commands@[k]@,
            !group_modifies(cv.take(i as int)),
        decreases commands@.len() - i,
    {
        proof {
            assert(cv.take(i + 1).drop_last() =~= cv.take(i as int));
            assert(cv.take(i + 1).last() == commands@[i as int]@);
        }
        let modifies = match &commands[i] {
            Command::Print { .. } | Command::Quit { .. } | Command::QuitWithoutPrint { .. } | Command::Next { .. }
            | Command::NextAppend { .. } | Command::PrintFirstLine { .. } | Command::Label { .. }
            | Command::Branch { .. } | Command::Test { .. } | Command::TestFalse { .. }
            | Command::PrintLineNumber { .. } | Command::PrintFilename { .. } => false,
            Command::Group { commands: inner, .. } => {
                proof {
                    assert(decreases_to!(commands@ => commands@[i as int]));
                }
                commands_can_modify_files(inner.as_slice())
            }
            _ => true,
        };
        assert(modifies == command_modifies(cv[i as int]));
        if modifies {
            proof { lemma_group_modifies_holds(cv, i as int); }
            return true;
        }
        i += 1;
    }
    assert(cv.take(i as int) =~= cv);
    false
}

proof fn lemma_group_modifies_holds(cs: Seq<SCommand>, i: int)
    requires
        0 <= i < cs.len(),
        command_modifies(cs[i]),
    ensures
        group_modifies(cs),
    decreases cs.len(),
{
    if i < cs.len() - 1 {
        lemma_group_modifies_holds(cs.drop_last(), i);
    }
}

/// Whether a file is streamed: the script must allow it, `--no-streaming`
/// must not forbid it, and streaming is asked for, configured, or the file
/// is at least the memory limit (in MB, 100 when not configured).
pub open spec fn spec_use_streaming(
    supports: bool,
    no_streaming: bool,
    streaming: bool,
    config_streaming: bool,
    file_size: u64,
    max_memory_mb: Option<usize>,
) -> bool {
    let limit = max_memory_mb.unwrap_or(100) as int * 1024 * 1024;
    supports && !no_streaming && (streaming || config_streaming || file_size >= limit)
}

/// Chooses streaming for a file, as `spec_use_streaming` says.
pub fn use_streaming(
    supports: bool,
    no_streaming: bool,
    streaming: bool,
    config_streaming: bool,
    file_size: u64,
    max_memory_mb: Option<usize>,
) -> (b: bool)
    requires
        max_memory_mb.unwrap_or(100) as int * 1024 * 1024 <= u64::MAX,
    ensures
        b == spec_use_streaming(supports, no_streaming, streaming, config_streaming, file_size, max_memory_mb),
{
    let mb: usize = match max_memory_mb {
        Some(m) => m,
        None => 100,
    };
    let limit: u64 = mb as u64 * 1024 * 1024;
    supports && !no_streaming && (streaming || config_streaming || file_size >= limit)
}

/// What to show once the diffs are known.
#[derive(Debug, Clone, Copy, PartialEq, Eq)]
pub struct ShowPlan {
    /// Print the dry-run header
    pub header: bool,
    /// Print the diffs before any change is applied
    pub diffs_first: bool,
    /// Stop without applying anything
    pub stop: bool,
    /// Say that there is nothing to apply
    pub nothing_to_apply: bool,
    /// Ask before applying
    pub confirm: bool,
    /// Print the diffs after applying
    pub diffs_after: bool,
}

/// The plan: a dry run or an interactive run shows the header and the
/// diffs first, as does a run with no changes; a dry run or a run with no
/// changes stops there (the latter saying so); an interactive run asks
/// first; any other run shows the diffs after applying.
pub fn show_plan(dry_run: bool, interactive: bool, has_changes: bool) -> (p: ShowPlan)
    ensures
        p.header == ((dry_run || interactive) && (dry_run || !has_changes || interactive)),
        p.diffs_first == (dry_run || !has_changes || interactive),
        p.stop == (dry_run || !has_changes),
        p.nothing_to_apply == (!has_changes && !dry_run),
        p.confirm == (!p.stop && interactive),
        p.diffs_after == (!p.stop && !interactive),
{
    let diffs_first = dry_run || !has_changes || interactive;
    let stop = dry_run || !has_changes;
    ShowPlan {
        header: diffs_first && (dry_run || interactive),
        diffs_first,
        stop,
        nothing_to_apply: !has_changes && !dry_run,
        confirm: !stop && interactive,
        diffs_after: !stop && !interactive,
    }
}

/// The index of the first id that starts with `prefix`.
pub fn find_by_prefix(ids: &Vec<String>, prefix: &str) -> (r: Option<usize>)
    ensures
        match r {
            Some(i) => i < ids@.len() && ids@[i as int]@.len() >= prefix@.len()
                && ids@[i as int]@.take(prefix@.len() as int) == prefix@
                && forall|j: int| 0 <= j < i ==> !(#[trigger] ids@[j]@.len() >= prefix@.len() && ids@[j]@.take(prefix@.len() as int) == prefix@),
            None => forall|j: int| 0 <= j < ids@.len() ==> !(#[trigger] ids@[j]@.len() >= prefix@.len() && ids@[j]@.take(prefix@.len() as int) == prefix@),
        },
{
    let p = crate::text::chars_of(prefix);
    let mut i: usize = 0;
    while i < ids.len()
        invariant
            i <= ids@.len(),
            p@ == prefix@,
            forall|j: int| 0 <= j < i ==> !(#[trigger] ids@[j]@.len() >= prefix@.len() && ids@[j]@.take(prefix@.len() as int) == prefix@),
        decreases ids@.len() - i,
    {
        let v = crate::text::chars_of(ids[i].as_str());
        if v.len() >= p.len() {
            let mut k: usize = 0;
            let mut same = true;
            while k < p.len()
                invariant
                    k <= p@.len(),
                    p@.len() <= v@.len(),
                    same == (forall|m: int| 0 <= m < k ==> v@[m] == p@[m]),
                decreases p@.len() - k,
            {
                if v[k] != p[k] {
                    same = false;
                }
                k += 1;
            }
            if same {
                assert(v@.take(p@.len() as int) =~= p@);
                return Some(i);
            }
            proof {
                let m = choose|m: int| 0 <= m < k && v@[m] != p@[m];
                assert(v@.take(p@.len() as int)[m] != p@[m]);
            }
        }
        i += 1;
    }
    None
}

/// A command that changes the lines itself: anything but printing,
/// quitting, reading the next line, labels, branches, `=`, `F` and groups.
pub open spec fn edits_lines(c: SCommand) -> bool {
    !(c is Print || c is Quit || c is QuitWithoutPrint || c is Next || c is NextAppend || c is PrintFirstLine
        || c is Label || c is Branch || c is Test || c is TestFalse || c is PrintLineNumber || c is PrintFilename
        || c is Group)
}

/// A command list can modify files exactly when one of its commands edits
/// lines, or is a group whose body can (a group itself does not count).
pub proof fn lemma_modifies_when_some_command_edits(cs: Seq<SCommand>)
    ensures
        group_modifies(cs) <==> exists|i: int| 0 <= i < cs.len() && (match #[trigger] cs[i] {
            SCommand::Group { commands, .. } => group_modifies(commands),
            c => edits_lines(c),
        }),
    decreases cs.len(),
{
    if cs.len() > 0 {
        let p = cs.drop_last();
        lemma_modifies_when_some_command_edits(p);
        let last = cs.last();
        let holds = |c: SCommand| match c {
            SCommand::Group { commands, .. } => group_modifies(commands),
            c => edits_lines(c),
        };
        assert(command_modifies(last) == holds(last));
        if group_modifies(cs) {
            if group_modifies(p) {
                let i = choose|i: int| 0 <= i < p.len() && holds(p[i]);
                assert(cs[i] == p[i]);
            } else {
                assert(holds(cs[cs.len() - 1]));
            }
        } else {
            assert forall|i: int| 0 <= i < cs.len() implies !holds(#[trigger] cs[i]) by {
                if i < cs.len() - 1 {
                    assert(cs[i] == p[i]);
                }
            }
        }
    }
}

} // verus!
