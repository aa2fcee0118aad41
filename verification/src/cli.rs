//! Command-line model: the regex flavors and the actions the program can be
//! asked for, decided from the values given on the command line.
use vstd::prelude::*;

verus! {

/// The regex dialect of substitution patterns.
#[derive(Debug, Clone, Copy, PartialEq, Eq, Structural)]
pub enum RegexFlavor {
    /// Basic Regular Expressions (GNU sed compatible)
    BRE,
    /// Extended Regular Expressions (sed -E compatible)
    ERE,
    /// Perl-Compatible Regular Expressions (modern, default)
    PCRE,
}

/// What the program was asked to do.
#[derive(Debug)]
pub enum Args {
    Execute {
        expression: String,
        files: Vec<String>,
        dry_run: bool,
        interactive: bool,
        context: usize,
        streaming: bool,
        regex_flavor: RegexFlavor,
        no_backup: bool,
        backup_dir: Option<String>,
    },
    Rollback { id: Option<String> },
    History,
    Status,
    BackupList { verbose: bool },
    BackupShow { id: String },
    BackupRestore { id: String },
    BackupRemove { id: String, force: bool },
    BackupPrune { keep: Option<usize>, keep_days: Option<usize>, force: bool },
    Config { show: bool },
}

/// A subcommand as given on the command line.
#[derive(Debug)]
pub enum CliCommand {
    Rollback { id: Option<String> },
    History,
    Status,
    Config { show: bool },
    BackupList { verbose: bool },
    BackupShow { id: String },
    BackupRestore { id: String },
    BackupRemove { id: String, force: bool },
    BackupPrune { keep: Option<usize>, keep_days: Option<usize>, force: bool },
}

/// The values given on the command line, as read by the argument parser.
#[derive(Debug)]
pub struct CliInput {
    pub expression: Option<String>,
    pub files: Vec<String>,
    pub dry_run: bool,
    pub interactive: bool,
    pub context: Option<usize>,
    pub no_context: bool,
    pub streaming: bool,
    pub no_streaming: bool,
    pub bre: bool,
    pub ere: bool,
    pub no_backup: bool,
    pub force: bool,
    pub backup_dir: Option<String>,
    pub command: Option<CliCommand>,
}

/// Why the command line was refused.
#[derive(Debug, Clone, Copy, PartialEq, Eq)]
pub enum ArgsError {
    /// No subcommand and no sed expression.
    MissingExpression,
}

/// The number of context lines asked for: none with `--no-context`, else the
/// number given, else two.
pub open spec fn spec_context(no_context: bool, context: Option<usize>) -> usize {
    if no_context {
        0
    } else {
        match context {
            Some(n) => n,
            None => 2,
        }
    }
}

/// The regex flavor asked for: BRE, then ERE, else PCRE.
pub open spec fn spec_flavor(bre: bool, ere: bool) -> RegexFlavor {
    if bre {
        RegexFlavor::BRE
    } else if ere {
        RegexFlavor::ERE
    } else {
        RegexFlavor::PCRE
    }
}

/// Decide the action from the command-line values. A subcommand decides by
/// itself; otherwise an expression is needed, and the options are resolved:
/// `--no-context` wins over `--context`, `--no-streaming` over `--streaming`,
/// `--bre` over `--ere`.
pub fn parse_args(cli: CliInput) -> (r: Result<Args, ArgsError>)
    ensures
        cli.command is None && cli.expression is None <==> r == Err::<Args, ArgsError>(ArgsError::MissingExpression),
        cli.command matches Some(c) ==> match (c, r) {
            (CliCommand::Rollback { id }, Ok(Args::Rollback { id: i })) => i == id,
            (CliCommand::History, Ok(Args::History)) => true,
            (CliCommand::Status, Ok(Args::Status)) => true,
            (CliCommand::Config { show }, Ok(Args::Config { show: s })) => s == show,
            (CliCommand::BackupList { verbose }, Ok(Args::BackupList { verbose: v })) => v == verbose,
            (CliCommand::BackupShow { id }, Ok(Args::BackupShow { id: i })) => i == id,
            (CliCommand::BackupRestore { id }, Ok(Args::BackupRestore { id: i })) => i == id,
            (CliCommand::BackupRemove { id, force }, Ok(Args::BackupRemove { id: i, force: f })) => i == id && f == force,
            (
                CliCommand::BackupPrune { keep, keep_days, force },
                Ok(Args::BackupPrune { keep: k, keep_days: d, force: f }),
            ) => k == keep && d == keep_days && f == force,
            _ => false,
        },
        cli.command is None && cli.expression is Some ==> match r {
            Ok(Args::Execute {
                expression,
                files,
                dry_run,
                interactive,
                context,
                streaming,
                regex_flavor,
                no_backup,
                backup_dir,
            }) => {
                &&& Some(expression) == cli.expression
                &&& files == cli.files
                &&& dry_run == cli.dry_run
                &&& interactive == cli.interactive
                &&& context == spec_context(cli.no_context, cli.context)
                &&& streaming == (!cli.no_streaming && cli.streaming)
                &&& regex_flavor == spec_flavor(cli.bre, cli.ere)
                &&& no_backup == cli.no_backup
                &&& backup_dir == cli.backup_dir
            },
            _ => false,
        },
{
    match cli.command {
        Some(CliCommand::Rollback { id }) => Ok(Args::Rollback { id }),
        Some(CliCommand::History) => Ok(Args::History),
        Some(CliCommand::Status) => Ok(Args::Status),
        Some(CliCommand::Config { show }) => Ok(Args::Config { show }),
        Some(CliCommand::BackupList { verbose }) => Ok(Args::BackupList { verbose }),
        Some(CliCommand::BackupShow { id }) => Ok(Args::BackupShow { id }),
        Some(CliCommand::BackupRestore { id }) => Ok(Args::BackupRestore { id }),
        Some(CliCommand::BackupRemove { id, force }) => Ok(Args::BackupRemove { id, force }),
        Some(CliCommand::BackupPrune { keep, keep_days, force }) => Ok(Args::BackupPrune { keep, keep_days, force }),
        None => {
            let expression = match cli.expression {
                Some(e) => e,
                None => {
                    return Err(ArgsError::MissingExpression);
                }
            };
            let context = if cli.no_context {
                0
            } else {
                match cli.context {
                    Some(n) => n,
                    None => 2,
                }
            };
            let streaming = if cli.no_streaming {
                false
            } else {
                cli.streaming
            };
            let regex_flavor = if cli.bre {
                RegexFlavor::BRE
            } else if cli.ere {
                RegexFlavor::ERE
            } else {
                RegexFlavor::PCRE
            };
            Ok(Args::Execute {
                expression,
                files: cli.files,
                dry_run: cli.dry_run,
                interactive: cli.interactive,
                context,
                streaming,
                regex_flavor,
                no_backup: cli.no_backup,
                backup_dir: cli.backup_dir,
            })
        }
    }
}

} // verus!
