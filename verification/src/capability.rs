//! Whether a script can run line by line in streaming mode, or needs the
//! whole file in memory.
use vstd::prelude::*;
use crate::command::{Address, Command, SAddress, SCommand, SRange, commands_view, lemma_commands_view, range_view};

verus! {

/// Whether an address range can be tracked while streaming: line numbers,
/// patterns, relative ends and steps can; negated addresses, relative starts
/// and a last-line start cannot.
pub open spec fn range_streamable(r: SRange) -> bool {
    match (r.0, r.1) {
        (SAddress::LineNumber(_), SAddress::LineNumber(_)) => true,
        (SAddress::LineNumber(n), SAddress::LastLine) => n == 1,
        (SAddress::Pattern(_), SAddress::Pattern(_)) => true,
        (SAddress::Pattern(_), SAddress::LineNumber(_)) => true,
        (SAddress::LineNumber(_), SAddress::Pattern(_)) => true,
        (SAddress::Pattern(_), SAddress::Relative { .. }) => true,
        (SAddress::LineNumber(_), SAddress::Relative { .. }) => true,
        (SAddress::Step { .. }, _) => true,
        (_, SAddress::Step { .. }) => true,
        (SAddress::Negated(_), _) => false,
        (_, SAddress::Negated(_)) => false,
        (SAddress::Relative { .. }, _) => false,
        (SAddress::FirstLine, SAddress::LineNumber(_)) => true,
        (SAddress::FirstLine, SAddress::LastLine) => true,
        (SAddress::FirstLine, SAddress::Pattern(_)) => true,
        _ => false,
    }
}

pub open spec fn opt_range_streamable(r: Option<SRange>) -> bool {
    match r {
        Some(r) => range_streamable(r),
        None => true,
    }
}

/// Whether a script can run in streaming mode, reading its commands in
/// order: a substitution, deletion, print, group or hold-space command with
/// a range that cannot be tracked, a group whose body cannot stream, or any
/// multi-line, flow-control, file or `=`/`F`/`z` command means no; an
/// insert or append command streams, a change command when its range can
/// be tracked; quitting is fine. Every command of the list must stream.
pub open spec fn spec_can_stream(cs: Seq<SCommand>) -> bool
    decreases cs,
{
    if cs.len() == 0 {
        true
    } else {
        let rest = cs.drop_first();
        match cs[0] {
            SCommand::Substitution { range, .. } => opt_range_streamable(range) && spec_can_stream(rest),
            SCommand::Delete { range } => range_streamable(range) && spec_can_stream(rest),
            SCommand::Print { range } => range_streamable(range) && spec_can_stream(rest),
            SCommand::Insert { .. } => spec_can_stream(rest),
            SCommand::Append { .. } => spec_can_stream(rest),
            SCommand::Change { range, .. } => range_streamable(range) && spec_can_stream(rest),
            SCommand::Group { range, commands } => {
                proof { assert(decreases_to!(cs => cs[0])); }
                opt_range_streamable(range) && spec_can_stream(commands) && spec_can_stream(rest)
            },
            SCommand::Hold { range } => opt_range_streamable(range) && spec_can_stream(rest),
            SCommand::HoldAppend { range } => opt_range_streamable(range) && spec_can_stream(rest),
            SCommand::Get { range } => opt_range_streamable(range) && spec_can_stream(rest),
            SCommand::GetAppend { range } => opt_range_streamable(range) && spec_can_stream(rest),
            SCommand::Exchange { range } => opt_range_streamable(range) && spec_can_stream(rest),
            SCommand::Quit { .. } => spec_can_stream(rest),
            SCommand::QuitWithoutPrint { .. } => spec_can_stream(rest),
            _ => false,
        }
    }
}

/// Whether an address range can be tracked in streaming mode.
pub fn is_range_streamable(range: &(Address, Address)) -> (b: bool)
    ensures
        b == range_streamable(range_view(*range)),
{
    match (&range.0, &range.1) {
        (Address::LineNumber(_), Address::LineNumber(_)) => true,
        (Address::LineNumber(n), Address::LastLine) => *n == 1,
        (Address::Pattern(_), Address::Pattern(_)) => true,
        (Address::Pattern(_), Address::LineNumber(_)) => true,
        (Address::LineNumber(_), Address::Pattern(_)) => true,
        (Address::Pattern(_), Address::Relative { .. }) => true,
        (Address::LineNumber(_), Address::Relative { .. }) => true,
        (Address::Step { .. }, _) => true,
        (_, Address::Step { .. }) => true,
        (Address::Negated(_), _) => false,
        (_, Address::Negated(_)) => false,
        (Address::Relative { .. }, _) => false,
        (Address::FirstLine, Address::LineNumber(_)) => true,
        (Address::FirstLine, Address::LastLine) => true,
        (Address::FirstLine, Address::Pattern(_)) => true,
        _ => false,
    }
}

fn opt_streamable(range: &Option<(Address, Address)>) -> (b: bool)
    ensures
        b == opt_range_streamable(crate::command::opt_range_view(*range)),
{
    match range {
        Some(r) => is_range_streamable(r),
        None => true,
    }
}

proof fn lemma_commands_view_skip(cs: Seq<Command>, i: int)
    requires
        0 <= i < cs.len(),
    ensures
        commands_view(cs.skip(i)).drop_first() == commands_view(cs.skip(i + 1)),
        commands_view(cs.skip(i))[0] == cs[i]@,
        commands_view(cs.skip(i)).len() == cs.len() - i,
{
    let a = commands_view(cs.skip(i));
    let b = commands_view(cs.skip(i + 1));
    lemma_commands_view(cs.skip(i));
    lemma_commands_view(cs.skip(i + 1));
    assert forall|k: int| 0 <= k < b.len() implies a.drop_first()[k] == b[k] by {
        assert(a[k + 1] == cs.skip(i)[k + 1]@);
        assert(b[k] == cs.skip(i + 1)[k]@);
    }
    assert(a.drop_first() =~= b);
    assert(a[0] == cs.skip(i)[0]@);
}

/// Whether a script can run in streaming mode.
pub fn can_stream(commands: &[Command]) -> (b: bool)
    ensures
        b == spec_can_stream(commands_view(commands@)),
    decreases commands@,
{
    let n = commands.len();
    let mut i: usize = 0;
    assert(commands@.skip(0) =~= commands@);
    while i < n
        invariant
            i <= n == commands@.len(),
            spec_can_stream(commands_view(commands@)) == spec_can_stream(commands_view(commands@.skip(i as int))),
        decreases n - i,
    {
        proof { lemma_commands_view_skip(commands@, i as int); }
        let ghost rest = commands_view(commands@.skip(i + 1));
        match &commands[i] {
            Command::Substitution { range, .. } => {
                if !opt_streamable(range) {
                    return false;
                }
            }
            Command::Delete { range } => {
                if !is_range_streamable(range) {
                    return false;
                }
            }
            Command::Print { range } => {
                if !is_range_streamable(range) {
                    return false;
                }
            }
            Command::Insert { .. } => {}
            Command::Append { .. } => {}
            Command::Change { range, .. } => {
                if !is_range_streamable(range) {
                    return false;
                }
            }
            Command::Group { range, commands: inner } => {
                if !opt_streamable(range) {
                    return false;
                }
                proof {
                    assert(decreases_to!(commands@ => commands@[i as int]));
                }
                if !can_stream(inner.as_slice()) {
                    return false;
                }
            }
            Command::Hold { range } => {
                if !opt_streamable(range) {
                    return false;
                }
            }
            Command::HoldAppend { range } => {
                if !opt_streamable(range) {
                    return false;
                }
            }
            Command::Get { range } => {
                if !opt_streamable(range) {
                    return false;
                }
            }
            Command::GetAppend { range } => {
                if !opt_streamable(range) {
                    return false;
                }
            }
            Command::Exchange { range } => {
                if !opt_streamable(range) {
                    return false;
                }
            }
            Command::Quit { .. } => {}
            Command::QuitWithoutPrint { .. } => {}
            _ => {
                return false;
            }
        }
        i += 1;
    }
    assert(commands@.skip(i as int) =~= Seq::<Command>::empty());
    assert(commands_view(Seq::<Command>::empty()) =~= Seq::<SCommand>::empty());
    true
}

} // verus!
