//! The engines against each other and against the program's choice of
//! engine: on the scripts both run, the in-memory cycle and the streaming
//! state machine produce the same lines, and a script chosen for streaming
//! is not refused by the streaming engine.
use vstd::prelude::*;
use crate::command::{SCommand, SubstitutionFlags};
use crate::file_processor::common::spec_apply;
use crate::file_processor::in_memory::{
    CycleEnd, CycleModel, CycleResult, ErrorM, ProcModel, cycle_output, spec_apply_command, spec_apply_cycle_based, spec_cycle,
    spec_run, spec_should_apply, start_cycle, step_budget,
};
use crate::command::SRange;
use crate::file_processor::streaming::{
    Flow, Pending, StreamErrorM, StreamModel, StreamStep, WorkModel, act_append, act_change, act_flag,
    act_hold, act_insert, act_sub, advance, fresh_work, pending_fits, spec_applies, spec_begin_line, spec_continue_group,
    spec_group_cmd, spec_range_check, spec_run_group, spec_run_top, spec_supply_line, spec_top_cmd,
    with_work,
};
use crate::plan::{command_streams, group_streams};
use crate::regex_error::spec_compile_outcome;

verus! {

/// The line a substitution makes of `line` (the line itself if the
/// pattern does not compile).
pub open spec fn substituted(
    flavor: crate::cli::RegexFlavor,
    line: Seq<char>,
    pattern: Seq<char>,
    replacement: Seq<char>,
    flags: SubstitutionFlags,
) -> Seq<char> {
    match spec_apply(flavor, line, pattern, replacement, flags) {
        Ok(s) => s,
        Err(_) => line,
    }
}

/// The substitution applied to a cycle's state.
pub open spec fn substitution_state(
    p: ProcModel,
    st: CycleModel,
    pattern: Seq<char>,
    replacement: Seq<char>,
    flags: SubstitutionFlags,
) -> CycleModel {
    let res = substituted(p.flavor, st.pattern_space, pattern, replacement, flags);
    if res != st.pattern_space {
        CycleModel { pattern_space: res, substitution_made: true, ..st }
    } else {
        st
    }
}

proof fn lemma_substitution_command(
    p: ProcModel,
    st: CycleModel,
    pattern: Seq<char>,
    replacement: Seq<char>,
    flags: SubstitutionFlags,
)
    requires
        !flags.print,
        spec_compile_outcome(pattern, flags.case_insensitive) is None,
    ensures
        ({
            let c = SCommand::Substitution { pattern, replacement, flags, range: None };
            &&& spec_should_apply(st, c) == (true, st)
            &&& spec_apply_command(p, st, c) == (
                Ok::<CycleResult, ErrorM>(CycleResult::Continue),
                p,
                substitution_state(p, st, pattern, replacement, flags),
            )
        }),
{
    reveal(spec_should_apply);
    reveal(spec_apply_command);
}

/// A command the engines are shown to agree on: a substitution on every
/// line, without the `p` flag, whose pattern compiles.
pub open spec fn plain_substitution(c: SCommand) -> bool {
    &&& c matches SCommand::Substitution { pattern, flags, range, .. }
    &&& range is None
    &&& !flags.print
    &&& spec_compile_outcome(pattern, flags.case_insensitive) is None
}

/// The line the substitutions of `cs` from index `k` on make of `line`,
/// one after another.
pub open spec fn substituted_by(flavor: crate::cli::RegexFlavor, cs: Seq<SCommand>, k: int, line: Seq<char>) -> Seq<char>
    decreases cs.len() - k,
{
    if k < 0 || k >= cs.len() {
        line
    } else {
        let next = match cs[k] {
            SCommand::Substitution { pattern, replacement, flags, .. } => substituted(
                flavor,
                line,
                pattern,
                replacement,
                flags,
            ),
            _ => line,
        };
        substituted_by(flavor, cs, k + 1, next)
    }
}

proof fn lemma_substitutions_cycle(p: ProcModel, st: CycleModel, k: int, fuel: nat)
    requires
        forall|i: int| 0 <= i < p.commands.len() ==> plain_substitution(#[trigger] p.commands[i]),
        0 <= k <= p.commands.len(),
        fuel >= p.commands.len() - k,
    ensures
        ({
            let (end, p2, st2, f2) = spec_cycle(p, st, k, fuel);
            &&& end == CycleEnd::Done
            &&& p2 == p
            &&& st2 == CycleModel {
                pattern_space: substituted_by(p.flavor, p.commands, k, st.pattern_space),
                substitution_made: st2.substitution_made,
                ..st
            }
            &&& f2 == fuel - (p.commands.len() - k)
        }),
    decreases p.commands.len() - k,
{
    reveal(spec_cycle);
    if k < p.commands.len() {
        let c = p.commands[k];
        assert(plain_substitution(c));
        if let SCommand::Substitution { pattern, replacement, flags, range } = c {
            assert(c == SCommand::Substitution { pattern, replacement, flags, range: None });
            lemma_substitution_command(p, st, pattern, replacement, flags);
            let st1 = substitution_state(p, st, pattern, replacement, flags);
            lemma_substitutions_cycle(p, st1, k + 1, (fuel - 1) as nat);
        }
    }
}

proof fn lemma_substitutions_run(p: ProcModel, st: CycleModel, out: Seq<Seq<char>>, fuel: nat)
    requires
        forall|i: int| 0 <= i < p.commands.len() ==> plain_substitution(#[trigger] p.commands[i]),
        !p.no_default_output,
        st.pos <= st.lines.len() <= usize::MAX,
        fuel >= (p.commands.len() + 1) * (st.lines.len() - st.pos),
    ensures
        spec_run(p, st, out, fuel).0 == Ok::<Seq<Seq<char>>, ErrorM>(
            out + st.lines.skip(st.pos as int).map_values(|l: Seq<char>| substituted_by(p.flavor, p.commands, 0, l)),
        ),
    decreases st.lines.len() - st.pos,
{
    reveal(spec_run);
    let f = |l: Seq<char>| substituted_by(p.flavor, p.commands, 0, l);
    if st.pos >= st.lines.len() {
        assert(st.lines.skip(st.pos as int).map_values(f) =~= Seq::<Seq<char>>::empty());
        assert(out + Seq::<Seq<char>>::empty() =~= out);
    } else {
        let n = p.commands.len();
        let rest = st.lines.len() - st.pos;
        assert((n + 1) * rest == (n + 1) * (rest - 1) + (n + 1)) by (nonlinear_arith);
        assert((n + 1) * (rest - 1) >= 0) by (nonlinear_arith)
            requires
                rest >= 1,
        ;
        let st0 = start_cycle(st);
        let f0 = (fuel - 1) as nat;
        lemma_substitutions_cycle(p, st0, 0, f0);
        let (end, p1, st2, f1) = spec_cycle(p, st0, 0, f0);
        assert(cycle_output(p, st2) =~= seq![f(st.lines[st.pos as int])]);
        let p3 = ProcModel { printed: p.printed + st2.side_effects + st2.output_lines, ..p };
        lemma_substitutions_run(p3, st2, out + cycle_output(p, st2), f1);
        assert(seq![f(st.lines[st.pos as int])] + st.lines.skip(st.pos + 1).map_values(f)
            =~= st.lines.skip(st.pos as int).map_values(f));
        assert(out + seq![f(st.lines[st.pos as int])] + st.lines.skip(st.pos + 1).map_values(f)
            =~= out + st.lines.skip(st.pos as int).map_values(f));
    }
}

proof fn lemma_substitutions_stream(m: StreamModel, cs: Seq<SCommand>, k: int)
    requires
        forall|i: int| 0 <= i < cs.len() ==> plain_substitution(#[trigger] cs[i]),
        0 <= k <= cs.len(),
    ensures
        spec_run_top(m, cs, k) == (
            Ok::<Flow, StreamErrorM>(Flow::Continue),
            with_work(m, WorkModel {
                processed: substituted_by(m.flavor, cs, k, m.work.processed),
                line_changed: spec_run_top(m, cs, k).1.work.line_changed,
                ..m.work
            }),
        ),
    decreases cs.len() - k,
{
    if k < cs.len() {
        let c = cs[k];
        assert(plain_substitution(c));
        if let SCommand::Substitution { pattern, replacement, flags, range } = c {
            reveal(act_sub);
            let (r1, m1) = spec_top_cmd(m, c, k as usize);
            assert(r1 == Ok::<Flow, StreamErrorM>(Flow::Continue));
            assert(m1 == with_work(m, WorkModel {
                processed: substituted(m.flavor, m.work.processed, pattern, replacement, flags),
                line_changed: m1.work.line_changed,
                ..m.work
            }));
            lemma_substitutions_stream(m1, cs, k + 1);
        }
    } else {
        assert(with_work(m, WorkModel { processed: m.work.processed, line_changed: m.work.line_changed, ..m.work }) == m);
    }
}

/// The engines agree on a script of substitutions, each on every line,
/// without the `p` flag, with a pattern that compiles: the in-memory run
/// outputs every line with the substitutions made one after another, and
/// the streaming engine, given any line, writes that line substituted the
/// same way and goes on. (The in-memory run has a budget of steps: the
/// script's commands and one more for each line.)
pub proof fn lemma_engines_agree_on_substitutions(
    p: ProcModel,
    m: StreamModel,
    lines: Seq<Seq<char>>,
    line: Seq<char>,
    is_last: bool,
)
    requires
        forall|i: int| 0 <= i < p.commands.len() ==> plain_substitution(#[trigger] p.commands[i]),
        m.commands == p.commands,
        m.flavor == p.flavor,
        !p.no_default_output,
        !m.no_default_output,
        (p.commands.len() + 1) * lines.len() <= usize::MAX,
    ensures
        spec_apply_cycle_based(p, lines).0 == Ok::<Seq<Seq<char>>, ErrorM>(
            lines.map_values(|l: Seq<char>| substituted_by(p.flavor, p.commands, 0, l)),
        ),
        spec_begin_line(m, line, is_last).0 == Ok::<StreamStep, StreamErrorM>(StreamStep::LineDone { stop: false }),
        spec_begin_line(m, line, is_last).1.emits == m.emits.push((true, substituted_by(p.flavor, p.commands, 0, line))),
{
    let st = CycleModel {
        pattern_space: Seq::empty(),
        hold_space: p.hold,
        line_num: 0,
        deleted: false,
        output_lines: Seq::empty(),
        side_effects: Seq::empty(),
        inserted_before: Seq::empty(),
        appended_after: Seq::empty(),
        current_filename: "(stdin)"@,
        lines,
        pos: 0,
        ranges: Seq::empty(),
        substitution_made: false,
    };
    assert(lines.len() <= usize::MAX) by (nonlinear_arith)
        requires
            (p.commands.len() + 1) * lines.len() <= usize::MAX,
    ;
    lemma_substitutions_run(p, st, Seq::empty(), step_budget() as nat);
    let f = |l: Seq<char>| substituted_by(p.flavor, p.commands, 0, l);
    assert(Seq::<Seq<char>>::empty() + lines.skip(0).map_values(f) =~= lines.map_values(f));
    let m0 = with_work(advance(StreamModel { pending: None, ..m }, is_last), fresh_work(line));
    lemma_substitutions_stream(m0, m.commands, 0);
    let m1 = spec_run_top(m0, m.commands, 0).1;
    assert(m1.emits == m.emits && m1.work.processed == substituted_by(p.flavor, p.commands, 0, line));
    assert(!m1.work.print_line && !m1.work.skip_line && !m1.work.suppress && !m1.work.should_quit && !m1.work.terminate);
    assert(m1.work.append_text is None);
}

/// An error that refuses a script: an unsupported command or file
/// command, or an unsafe file name.
pub open spec fn refused(e: StreamErrorM) -> bool {
    e is CommandUnsupported || e is FileCommandUnsupported || e is UnsafePath
}

pub open spec fn not_refused(r: Result<Flow, StreamErrorM>) -> bool {
    match r {
        Err(e) => !refused(e),
        Ok(_) => true,
    }
}

/// A command of a group the streaming engine runs: one the program would
/// stream, other than `q` and a nested group.
pub open spec fn member_streams(c: SCommand) -> bool {
    command_streams(c) && !(c is Quit) && !(c is Group)
}

/// A group holds neither `q` nor another group.
pub open spec fn flat_group(c: SCommand) -> bool {
    match c {
        SCommand::Group { commands, .. } => forall|k: int|
            0 <= k < commands.len() ==> !(#[trigger] commands[k] is Quit) && !(commands[k] is Group),
        _ => true,
    }
}

proof fn lemma_range_not_refused(m: StreamModel, line: Seq<char>, r: SRange, ci: usize)
    ensures
        spec_range_check(m, line, r, ci).0 matches Err(e) ==> e is InvalidPattern,
{
}

proof fn lemma_applies_not_refused(m: StreamModel, r: Option<SRange>, ci: usize)
    ensures
        spec_applies(m, r, ci).0 matches Err(e) ==> e is InvalidPattern,
{
    if let Some(r) = r {
        lemma_range_not_refused(m, m.work.processed, r, ci);
    }
}

proof fn lemma_member_not_refused(m: StreamModel, c: SCommand, ci: usize, gi: usize)
    requires
        member_streams(c),
    ensures
        not_refused(spec_group_cmd(m, c, ci, gi).0),
{
    match c {
        SCommand::Substitution { pattern, replacement, flags, range } => {
            reveal(act_sub);
            lemma_applies_not_refused(m, range, ci);
        },
        SCommand::Delete { range } => lemma_range_not_refused(m, m.work.processed, range, ci),
        SCommand::Print { range } => {
            reveal(act_flag);
            lemma_range_not_refused(m, m.work.processed, range, ci);
        },
        SCommand::Insert { text, address } => reveal(act_insert),
        SCommand::Append { text, address } => reveal(act_append),
        SCommand::Change { text, range } => {
            reveal(act_change);
            lemma_range_not_refused(m, m.work.processed, range, ci);
        },
        SCommand::Hold { range } | SCommand::HoldAppend { range } | SCommand::Get { range } | SCommand::GetAppend { range }
        | SCommand::Exchange { range } => {
            reveal(act_hold);
            lemma_applies_not_refused(m, range, ci);
        },
        _ => {},
    }
}

proof fn lemma_group_not_refused(m: StreamModel, cs: Seq<SCommand>, ci: usize, gi: int)
    requires
        forall|k: int| 0 <= k < cs.len() ==> member_streams(#[trigger] cs[k]),
    ensures
        not_refused(spec_run_group(m, cs, ci, gi).0),
    decreases cs.len() - gi,
{
    if 0 <= gi < cs.len() {
        assert(member_streams(cs[gi]));
        lemma_member_not_refused(m, cs[gi], ci, gi as usize);
        let (r, m1) = spec_group_cmd(m, cs[gi], ci, gi as usize);
        lemma_group_not_refused(m1, cs, ci, gi + 1);
    }
}

proof fn lemma_group_streams_all(cs: Seq<SCommand>)
    requires
        group_streams(cs),
    ensures
        forall|k: int| 0 <= k < cs.len() ==> command_streams(#[trigger] cs[k]),
    decreases cs.len(),
{
    if cs.len() > 0 {
        lemma_group_streams_all(cs.drop_last());
        assert forall|k: int| 0 <= k < cs.len() implies command_streams(#[trigger] cs[k]) by {
            if k < cs.len() - 1 {
                assert(cs.drop_last()[k] == cs[k]);
            }
        }
    }
}

proof fn lemma_top_not_refused(m: StreamModel, c: SCommand, ci: usize)
    requires
        command_streams(c),
        flat_group(c),
    ensures
        not_refused(spec_top_cmd(m, c, ci).0),
{
    match c {
        SCommand::Group { range, commands } => {
            lemma_applies_not_refused(m, range, ci);
            lemma_group_streams_all(commands);
            assert forall|k: int| 0 <= k < commands.len() implies member_streams(#[trigger] commands[k]) by {
                assert(command_streams(commands[k]));
            }
            let (ap, m1) = spec_applies(m, range, ci);
            lemma_group_not_refused(m1, commands, ci, 0);
        },
        SCommand::Quit { address } => {
            reveal(crate::file_processor::streaming::act_quit);
        },
        SCommand::Delete { range } => {
            reveal(act_flag);
            lemma_range_not_refused(m, m.work.processed, range, ci);
        },
        _ => {
            assert(member_streams(c));
            lemma_member_not_refused(m, c, ci, 0);
            match c {
                SCommand::Substitution { .. } => reveal(act_sub),
                SCommand::Print { .. } => reveal(act_flag),
                SCommand::Insert { .. } => reveal(act_insert),
                SCommand::Append { .. } => reveal(act_append),
                SCommand::Change { .. } => reveal(act_change),
                _ => reveal(act_hold),
            }
        },
    }
}

proof fn lemma_run_top_not_refused(m: StreamModel, cs: Seq<SCommand>, ci: int)
    requires
        forall|k: int| 0 <= k < cs.len() ==> command_streams(#[trigger] cs[k]) && flat_group(cs[k]),
    ensures
        not_refused(spec_run_top(m, cs, ci).0),
    decreases cs.len() - ci,
{
    if 0 <= ci < cs.len() {
        assert(command_streams(cs[ci]) && flat_group(cs[ci]));
        lemma_top_not_refused(m, cs[ci], ci as usize);
        let (r, m1) = spec_top_cmd(m, cs[ci], ci as usize);
        lemma_run_top_not_refused(m1, cs, ci + 1);
    }
}

proof fn lemma_continue_not_refused(m: StreamModel, cs: Seq<SCommand>, ci: usize, gi: int)
    requires
        ci < cs.len(),
        forall|k: int| 0 <= k < cs.len() ==> command_streams(#[trigger] cs[k]) && flat_group(cs[k]),
    ensures
        not_refused(spec_continue_group(m, cs, ci, gi).0),
{
    assert(command_streams(cs[ci as int]) && flat_group(cs[ci as int]));
    match cs[ci as int] {
        SCommand::Group { commands, .. } => {
            lemma_group_streams_all(commands);
            assert forall|k: int| 0 <= k < commands.len() implies member_streams(#[trigger] commands[k]) by {
                assert(command_streams(commands[k]));
            }
            lemma_group_not_refused(m, commands, ci, gi);
            let (r, m1) = spec_run_group(m, commands, ci, gi);
            lemma_run_top_not_refused(m1, cs, ci + 1);
        },
        _ => lemma_run_top_not_refused(m, cs, ci + 1),
    }
}

/// The streaming engine never refuses, as unsupported or unsafe, a script
/// the program chooses to stream (`plan::can_use_streaming`) when none of
/// its groups holds a `q` or another group: starting a line and going on
/// with the next one fail, if at all, only on a pattern.
pub proof fn lemma_chosen_scripts_are_not_refused(m: StreamModel, line: Seq<char>, next: Option<Seq<char>>, is_last: bool)
    requires
        group_streams(m.commands),
        forall|i: int| 0 <= i < m.commands.len() ==> flat_group(#[trigger] m.commands[i]),
    ensures
        spec_begin_line(m, line, is_last).0 matches Err(e) ==> !refused(e),
        spec_supply_line(m, next, is_last).0 matches Err(e) ==> !refused(e),
{
    let cs = m.commands;
    lemma_group_streams_all(cs);
    assert forall|k: int| 0 <= k < cs.len() implies command_streams(#[trigger] cs[k]) && flat_group(cs[k]) by {
        assert(flat_group(cs[k]));
    }
    let m0 = with_work(advance(StreamModel { pending: None, ..m }, is_last), fresh_work(line));
    lemma_run_top_not_refused(m0, cs, 0);
    let mr = StreamModel { pending: None, ..m };
    let w = m.work;
    match m.pending {
        None => {},
        Some(p) => if pending_fits(p, cs) {
            match p {
                Pending::TopNext { ci } => match next {
                    Some(l) => lemma_run_top_not_refused(
                        with_work(advance(mr, is_last), WorkModel { original: l, processed: l, line_changed: false, append_text: None, ..w }),
                        cs,
                        ci + 1,
                    ),
                    None => {},
                },
                Pending::TopNextAppend { ci } => match next {
                    Some(l) => lemma_run_top_not_refused(
                        with_work(advance(mr, is_last), WorkModel {
                            original: w.original + seq!['\n'] + l,
                            processed: w.processed + seq!['\n'] + l,
                            ..w
                        }),
                        cs,
                        ci + 1,
                    ),
                    None => {},
                },
                Pending::GroupNext { ci, gi } => match next {
                    Some(l) => lemma_continue_not_refused(
                        with_work(advance(mr, is_last), WorkModel { original: l, processed: l, line_changed: false, append_text: None, ..w }),
                        cs,
                        ci,
                        gi + 1,
                    ),
                    None => lemma_run_top_not_refused(with_work(mr, WorkModel { suppress: true, terminate: true, ..w }), cs, ci + 1),
                },
                Pending::GroupNextAppend { ci, gi } => match next {
                    Some(l) => lemma_continue_not_refused(
                        with_work(advance(mr, is_last), WorkModel { processed: w.processed + seq!['\n'] + l, ..w }),
                        cs,
                        ci,
                        gi + 1,
                    ),
                    None => lemma_run_top_not_refused(with_work(mr, WorkModel { terminate: true, ..w }), cs, ci + 1),
                },
            }
        },
    }
}

} // verus!
