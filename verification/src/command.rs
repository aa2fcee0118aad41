//! The command representation produced by the parser and run by the engines.
use vstd::prelude::*;

verus! {

/// One parsed sed command.
#[derive(Debug, PartialEq)]
pub enum Command {
    Substitution { pattern: String, replacement: String, flags: SubstitutionFlags, range: Option<(Address, Address)> },
    Delete { range: (Address, Address) },
    Print { range: (Address, Address) },
    Quit { address: Option<Address> },
    QuitWithoutPrint { address: Option<Address> },
    Insert { text: String, address: Address },
    Append { text: String, address: Address },
    Change { text: String, range: (Address, Address) },
    Group { commands: Vec<Command>, range: Option<(Address, Address)> },
    Hold { range: Option<(Address, Address)> },
    HoldAppend { range: Option<(Address, Address)> },
    Get { range: Option<(Address, Address)> },
    GetAppend { range: Option<(Address, Address)> },
    Exchange { range: Option<(Address, Address)> },
    Next { range: Option<(Address, Address)> },
    NextAppend { range: Option<(Address, Address)> },
    PrintFirstLine { range: Option<(Address, Address)> },
    DeleteFirstLine { range: Option<(Address, Address)> },
    Label { name: String },
    Branch { label: Option<String>, range: Option<(Address, Address)> },
    Test { label: Option<String>, range: Option<(Address, Address)> },
    TestFalse { label: Option<String>, range: Option<(Address, Address)> },
    PrintLineNumber { range: Option<Address> },
    PrintFilename { range: Option<Address> },
    ClearPatternSpace { range: Option<Address> },
    ReadFile { filename: String, range: Option<Address> },
    WriteFile { filename: String, range: Option<Address> },
    ReadLine { filename: String, range: Option<Address> },
    WriteFirstLine { filename: String, range: Option<Address> },
}

/// Substitution flags.
#[derive(Debug, Clone, Copy, PartialEq, Eq, Default)]
pub struct SubstitutionFlags {
    pub global: bool,
    pub print: bool,
    pub case_insensitive: bool,
    pub nth: Option<usize>,
}

/// A line address.
#[derive(Debug, PartialEq)]
pub enum Address {
    LineNumber(usize),
    Pattern(String),
    FirstLine,
    LastLine,
    Negated(Box<Address>),
    Relative { base: Box<Address>, offset: isize },
    Step { start: usize, step: usize },
    Single(Box<Address>),
}

/// Mathematical model of an address: text is a sequence of characters.
pub enum SAddress {
    LineNumber(usize),
    Pattern(Seq<char>),
    FirstLine,
    LastLine,
    Negated(Box<SAddress>),
    Relative { base: Box<SAddress>, offset: isize },
    Step { start: usize, step: usize },
    Single(Box<SAddress>),
}

pub type SRange = (SAddress, SAddress);

/// Mathematical model of a command.
pub enum SCommand {
    Substitution { pattern: Seq<char>, replacement: Seq<char>, flags: SubstitutionFlags, range: Option<SRange> },
    Delete { range: SRange },
    Print { range: SRange },
    Quit { address: Option<SAddress> },
    QuitWithoutPrint { address: Option<SAddress> },
    Insert { text: Seq<char>, address: SAddress },
    Append { text: Seq<char>, address: SAddress },
    Change { text: Seq<char>, range: SRange },
    Group { commands: Seq<SCommand>, range: Option<SRange> },
    Hold { range: Option<SRange> },
    HoldAppend { range: Option<SRange> },
    Get { range: Option<SRange> },
    GetAppend { range: Option<SRange> },
    Exchange { range: Option<SRange> },
    Next { range: Option<SRange> },
    NextAppend { range: Option<SRange> },
    PrintFirstLine { range: Option<SRange> },
    DeleteFirstLine { range: Option<SRange> },
    Label { name: Seq<char> },
    Branch { label: Option<Seq<char>>, range: Option<SRange> },
    Test { label: Option<Seq<char>>, range: Option<SRange> },
    TestFalse { label: Option<Seq<char>>, range: Option<SRange> },
    PrintLineNumber { range: Option<SAddress> },
    PrintFilename { range: Option<SAddress> },
    ClearPatternSpace { range: Option<SAddress> },
    ReadFile { filename: Seq<char>, range: Option<SAddress> },
    WriteFile { filename: Seq<char>, range: Option<SAddress> },
    ReadLine { filename: Seq<char>, range: Option<SAddress> },
    WriteFirstLine { filename: Seq<char>, range: Option<SAddress> },
}

impl View for Address {
    type V = SAddress;

    open spec fn view(&self) -> SAddress
        decreases self,
    {
        match self {
            Address::LineNumber(n) => SAddress::LineNumber(*n),
            Address::Pattern(p) => SAddress::Pattern(p@),
            Address::FirstLine => SAddress::FirstLine,
            Address::LastLine => SAddress::LastLine,
            Address::Negated(inner) => SAddress::Negated(Box::new((**inner).view())),
            Address::Relative { base, offset } => SAddress::Relative { base: Box::new((**base).view()), offset: *offset },
            Address::Step { start, step } => SAddress::Step { start: *start, step: *step },
            Address::Single(inner) => SAddress::Single(Box::new((**inner).view())),
        }
    }
}

impl Clone for Address {
    fn clone(&self) -> (r: Self)
        ensures
            r@ == self@,
        decreases self,
    {
        match self {
            Address::LineNumber(n) => Address::LineNumber(*n),
            Address::Pattern(p) => Address::Pattern(p.clone()),
            Address::FirstLine => Address::FirstLine,
            Address::LastLine => Address::LastLine,
            Address::Negated(inner) => Address::Negated(Box::new((**inner).clone())),
            Address::Relative { base, offset } => Address::Relative { base: Box::new((**base).clone()), offset: *offset },
            Address::Step { start, step } => Address::Step { start: *start, step: *step },
            Address::Single(inner) => Address::Single(Box::new((**inner).clone())),
        }
    }
}

pub open spec fn range_view(r: (Address, Address)) -> SRange {
    (r.0@, r.1@)
}

pub open spec fn opt_range_view(r: Option<(Address, Address)>) -> Option<SRange> {
    match r {
        Some(r) => Some(range_view(r)),
        None => None,
    }
}

pub open spec fn opt_addr_view(a: Option<Address>) -> Option<SAddress> {
    match a {
        Some(a) => Some(a@),
        None => None,
    }
}

pub open spec fn opt_str_view(s: Option<String>) -> Option<Seq<char>> {
    match s {
        Some(s) => Some(s@),
        None => None,
    }
}

/// The models of a sequence of commands, in order.
pub open spec fn commands_view(cs: Seq<Command>) -> Seq<SCommand>
    decreases cs,
{
    if cs.len() == 0 {
        Seq::empty()
    } else {
        commands_view(cs.drop_last()).push(cs.last().view())
    }
}

impl View for Command {
    type V = SCommand;

    open spec fn view(&self) -> SCommand
        decreases self,
    {
        match self {
            Command::Substitution { pattern, replacement, flags, range } => SCommand::Substitution {
                pattern: pattern@, replacement: replacement@, flags: *flags, range: opt_range_view(*range) },
            Command::Delete { range } => SCommand::Delete { range: range_view(*range) },
            Command::Print { range } => SCommand::Print { range: range_view(*range) },
            Command::Quit { address } => SCommand::Quit { address: opt_addr_view(*address) },
            Command::QuitWithoutPrint { address } => SCommand::QuitWithoutPrint { address: opt_addr_view(*address) },
            Command::Insert { text, address } => SCommand::Insert { text: text@, address: address@ },
            Command::Append { text, address } => SCommand::Append { text: text@, address: address@ },
            Command::Change { text, range } => SCommand::Change { text: text@, range: range_view(*range) },
            Command::Group { commands, range } => SCommand::Group {
                commands: commands_view(commands@),
                range: opt_range_view(*range) },
            Command::Hold { range } => SCommand::Hold { range: opt_range_view(*range) },
            Command::HoldAppend { range } => SCommand::HoldAppend { range: opt_range_view(*range) },
            Command::Get { range } => SCommand::Get { range: opt_range_view(*range) },
            Command::GetAppend { range } => SCommand::GetAppend { range: opt_range_view(*range) },
            Command::Exchange { range } => SCommand::Exchange { range: opt_range_view(*range) },
            Command::Next { range } => SCommand::Next { range: opt_range_view(*range) },
            Command::NextAppend { range } => SCommand::NextAppend { range: opt_range_view(*range) },
            Command::PrintFirstLine { range } => SCommand::PrintFirstLine { range: opt_range_view(*range) },
            Command::DeleteFirstLine { range } => SCommand::DeleteFirstLine { range: opt_range_view(*range) },
            Command::Label { name } => SCommand::Label { name: name@ },
            Command::Branch { label, range } => SCommand::Branch { label: opt_str_view(*label), range: opt_range_view(*range) },
            Command::Test { label, range } => SCommand::Test { label: opt_str_view(*label), range: opt_range_view(*range) },
            Command::TestFalse { label, range } => SCommand::TestFalse { label: opt_str_view(*label), range: opt_range_view(*range) },
            Command::PrintLineNumber { range } => SCommand::PrintLineNumber { range: opt_addr_view(*range) },
            Command::PrintFilename { range } => SCommand::PrintFilename { range: opt_addr_view(*range) },
            Command::ClearPatternSpace { range } => SCommand::ClearPatternSpace { range: opt_addr_view(*range) },
            Command::ReadFile { filename, range } => SCommand::ReadFile { filename: filename@, range: opt_addr_view(*range) },
            Command::WriteFile { filename, range } => SCommand::WriteFile { filename: filename@, range: opt_addr_view(*range) },
            Command::ReadLine { filename, range } => SCommand::ReadLine { filename: filename@, range: opt_addr_view(*range) },
            Command::WriteFirstLine { filename, range } => SCommand::WriteFirstLine { filename: filename@, range: opt_addr_view(*range) },
        }
    }
}

/// The models of a sequence of commands are the models of its commands,
/// one for one.
pub proof fn lemma_commands_view(cs: Seq<Command>)
    ensures
        commands_view(cs).len() == cs.len(),
        forall|i: int| 0 <= i < cs.len() ==> #[trigger] commands_view(cs)[i] == cs[i]@,
    decreases cs.len(),
{
    if cs.len() > 0 {
        lemma_commands_view(cs.drop_last());
        assert(commands_view(cs) == commands_view(cs.drop_last()).push(cs.last()@));
        assert forall|i: int| 0 <= i < cs.len() implies #[trigger] commands_view(cs)[i] == cs[i]@ by {
            if i < cs.len() - 1 {
                assert(cs.drop_last()[i] == cs[i]);
            }
        }
    } else {
        assert(commands_view(cs) == Seq::<SCommand>::empty());
    }
}

fn clone_range(r: &(Address, Address)) -> (c: (Address, Address))
    ensures
        range_view(c) == range_view(*r),
{
    (r.0.clone(), r.1.clone())
}

fn clone_opt_range(r: &Option<(Address, Address)>) -> (c: Option<(Address, Address)>)
    ensures
        opt_range_view(c) == opt_range_view(*r),
{
    match r {
        Some(r) => Some(clone_range(r)),
        None => None,
    }
}

fn clone_opt_addr(a: &Option<Address>) -> (c: Option<Address>)
    ensures
        opt_addr_view(c) == opt_addr_view(*a),
{
    match a {
        Some(a) => Some(a.clone()),
        None => None,
    }
}

fn clone_opt_str(s: &Option<String>) -> (c: Option<String>)
    ensures
        opt_str_view(c) == opt_str_view(*s),
{
    match s {
        Some(s) => Some(s.clone()),
        None => None,
    }
}

impl Clone for Command {
    fn clone(&self) -> (r: Self)
        ensures
            r@ == self@,
        decreases self,
    {
        match self {
            Command::Substitution { pattern, replacement, flags, range } => Command::Substitution {
                pattern: pattern.clone(),
                replacement: replacement.clone(),
                flags: *flags,
                range: clone_opt_range(range),
            },
            Command::Delete { range } => Command::Delete { range: clone_range(range) },
            Command::Print { range } => Command::Print { range: clone_range(range) },
            Command::Quit { address } => Command::Quit { address: clone_opt_addr(address) },
            Command::QuitWithoutPrint { address } => Command::QuitWithoutPrint { address: clone_opt_addr(address) },
            Command::Insert { text, address } => Command::Insert { text: text.clone(), address: address.clone() },
            Command::Append { text, address } => Command::Append { text: text.clone(), address: address.clone() },
            Command::Change { text, range } => Command::Change { text: text.clone(), range: clone_range(range) },
            Command::Group { commands, range } => {
                let mut out: Vec<Command> = Vec::new();
                let mut k: usize = 0;
                proof { lemma_commands_view(commands@); }
                while k < commands.len()
                    invariant
                        k <= commands@.len(),
                        out@.len() == k,
                        forall|m: int| 0 <= m < k ==> #[trigger] out@[m]@ == commands@[m]@,
                        *self == (Command::Group { commands: *commands, range: *range }),
                    decreases commands@.len() - k,
                {
                    proof {
                        assert((*self)->Group_commands == *commands);
                        assert(decreases_to!(*self => (*self)->Group_commands));
                        assert(decreases_to!((*self)->Group_commands => (*self)->Group_commands@));
                        assert(decreases_to!((*self)->Group_commands@ => (*self)->Group_commands@[k as int]));
                    }
                    let c = commands[k].clone();
                    out.push(c);
                    k += 1;
                }
                proof {
                    lemma_commands_view(out@);
                    lemma_commands_view(commands@);
                    assert(commands_view(out@) =~= commands_view(commands@));
                }
                Command::Group { commands: out, range: clone_opt_range(range) }
            }
            Command::Hold { range } => Command::Hold { range: clone_opt_range(range) },
            Command::HoldAppend { range } => Command::HoldAppend { range: clone_opt_range(range) },
            Command::Get { range } => Command::Get { range: clone_opt_range(range) },
            Command::GetAppend { range } => Command::GetAppend { range: clone_opt_range(range) },
            Command::Exchange { range } => Command::Exchange { range: clone_opt_range(range) },
            Command::Next { range } => Command::Next { range: clone_opt_range(range) },
            Command::NextAppend { range } => Command::NextAppend { range: clone_opt_range(range) },
            Command::PrintFirstLine { range } => Command::PrintFirstLine { range: clone_opt_range(range) },
            Command::DeleteFirstLine { range } => Command::DeleteFirstLine { range: clone_opt_range(range) },
            Command::Label { name } => Command::Label { name: name.clone() },
            Command::Branch { label, range } => Command::Branch { label: clone_opt_str(label), range: clone_opt_range(range) },
            Command::Test { label, range } => Command::Test { label: clone_opt_str(label), range: clone_opt_range(range) },
            Command::TestFalse { label, range } => Command::TestFalse {
                label: clone_opt_str(label),
                range: clone_opt_range(range),
            },
            Command::PrintLineNumber { range } => Command::PrintLineNumber { range: clone_opt_addr(range) },
            Command::PrintFilename { range } => Command::PrintFilename { range: clone_opt_addr(range) },
            Command::ClearPatternSpace { range } => Command::ClearPatternSpace { range: clone_opt_addr(range) },
            Command::ReadFile { filename, range } => Command::ReadFile { filename: filename.clone(), range: clone_opt_addr(range) },
            Command::WriteFile { filename, range } => Command::WriteFile { filename: filename.clone(), range: clone_opt_addr(range) },
            Command::ReadLine { filename, range } => Command::ReadLine { filename: filename.clone(), range: clone_opt_addr(range) },
            Command::WriteFirstLine { filename, range } => Command::WriteFirstLine {
                filename: filename.clone(),
                range: clone_opt_addr(range),
            },
        }
    }
}

/// A copy of a list of commands.
pub fn clone_commands(cs: &Vec<Command>) -> (r: Vec<Command>)
    ensures
        commands_view(r@) == commands_view(cs@),
{
    let mut out: Vec<Command> = Vec::new();
    let mut k: usize = 0;
    while k < cs.len()
        invariant
            k <= cs@.len(),
            out@.len() == k,
            forall|m: int| 0 <= m < k ==> #[trigger] out@[m]@ == cs@[m]@,
        decreases cs@.len() - k,
    {
        out.push(cs[k].clone());
        k += 1;
    }
    proof {
        lemma_commands_view(out@);
        lemma_commands_view(cs@);
        assert(commands_view(out@) =~= commands_view(cs@));
    }
    out
}

} // verus!
