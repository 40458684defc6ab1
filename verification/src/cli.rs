//! The command-line grammar of `cvd`: subcommands, their options, defaults and
//! conflicts.
use vstd::prelude::*;

use crate::text::{has_prefix, str_eq};

verus! {

/// State representation printed by `state-view`.
#[derive(Clone, Copy, Debug, PartialEq, Eq, Structural)]
pub enum ViewFormat {
    Yaml,
    Json,
}

/// Arguments of `syntax-check`.
pub struct SyntaxCheckArgs {
    pub file: String,
    pub directory: Option<String>,
}

/// Arguments of `run`.
pub struct RunArgs {
    pub scenario: Option<String>,
    pub file: String,
    pub directory: Option<String>,
    pub state_dir: Option<String>,
    pub keep: bool,
}

/// Arguments of `state-view`.
pub struct StateViewArgs {
    pub view: ViewFormat,
    pub run: String,
    pub file: String,
    pub directory: Option<String>,
    pub state_dir: Option<String>,
}

/// Arguments of `state-resources`.
pub struct StateResourcesArgs {
    pub deleted: bool,
    pub run: String,
    pub file: String,
    pub directory: Option<String>,
    pub state_dir: Option<String>,
}

/// Arguments of `state-report`.
pub struct StateReportArgs {
    pub run: String,
    pub file: String,
    pub directory: Option<String>,
    pub state_dir: Option<String>,
}

/// A parsed subcommand with its arguments.
pub enum Command {
    Run(RunArgs),
    SyntaxCheck(SyntaxCheckArgs),
    StateView(StateViewArgs),
    StateResources(StateResourcesArgs),
    StateReport(StateReportArgs),
}

/// The parsed command line.
pub struct Cli {
    pub command: Command,
}

/// Why a command line was not accepted.  Positions index the argument list,
/// whose first element is the program name.
#[derive(Clone, Copy, Debug, PartialEq, Eq, Structural)]
pub enum CliError {
    /// No subcommand was given.
    MissingSubcommand,
    /// The argument at this position names no subcommand.
    UnknownSubcommand(usize),
    /// The argument at this position is not an option of the subcommand.
    UnknownArgument(usize),
    /// The option at this position needs a value and has none.
    MissingValue(usize),
    /// The option at this position was already given.
    Repeated(usize),
    /// The flag at this position was given a value.
    UnexpectedValue(usize),
    /// The argument at this position is a positional value the subcommand
    /// does not take.
    UnexpectedPositional(usize),
    /// `--file` and `--directory` were both given.
    Conflict,
    /// The view named at this position is neither `yaml` nor `json`.
    InvalidView(usize),
    /// Help was requested.
    HelpRequested,
    /// The version was requested.
    VersionRequested,
}

/// The subcommands.
#[derive(Clone, Copy, Debug, PartialEq, Eq, Structural)]
pub enum Subcommand {
    Run,
    SyntaxCheck,
    StateView,
    StateResources,
    StateReport,
}

/// The named options.
#[derive(Clone, Copy, Debug, PartialEq, Eq, Structural)]
pub enum Opt {
    File,
    Directory,
    StateDir,
    Keep,
    RunId,
    Deleted,
    Help,
}

pub open spec fn subcommand_of(name: Seq<char>) -> Option<Subcommand> {
    if name == "run"@ {
        Some(Subcommand::Run)
    } else if name == "syntax-check"@ {
        Some(Subcommand::SyntaxCheck)
    } else if name == "state-view"@ {
        Some(Subcommand::StateView)
    } else if name == "state-resources"@ {
        Some(Subcommand::StateResources)
    } else if name == "state-report"@ {
        Some(Subcommand::StateReport)
    } else {
        None
    }
}

/// The option a `--name` selects for a subcommand.
pub open spec fn long_option(sub: Subcommand, name: Seq<char>) -> Option<Opt> {
    if name == "file"@ {
        Some(Opt::File)
    } else if name == "directory"@ {
        Some(Opt::Directory)
    } else if name == "help"@ {
        Some(Opt::Help)
    } else if name == "state-dir"@ && sub != Subcommand::SyntaxCheck {
        Some(Opt::StateDir)
    } else if name == "keep"@ && sub == Subcommand::Run {
        Some(Opt::Keep)
    } else if name == "run"@ && (sub == Subcommand::StateView || sub == Subcommand::StateResources
        || sub == Subcommand::StateReport) {
        Some(Opt::RunId)
    } else if name == "deleted"@ && sub == Subcommand::StateResources {
        Some(Opt::Deleted)
    } else {
        None
    }
}

/// The option a `-c` selects.
pub open spec fn short_option(c: char) -> Option<Opt> {
    if c == 'f' {
        Some(Opt::File)
    } else if c == 'F' {
        Some(Opt::Directory)
    } else if c == 'h' {
        Some(Opt::Help)
    } else {
        None
    }
}

pub open spec fn is_flag(opt: Opt) -> bool {
    opt == Opt::Keep || opt == Opt::Deleted
}

pub open spec fn takes_positional(sub: Subcommand) -> bool {
    sub == Subcommand::Run || sub == Subcommand::StateView
}

/// An argument that looks like an option rather than a value.
pub open spec fn looks_like_option(token: Seq<char>) -> bool {
    token.len() >= 2 && token[0] == '-'
}

/// What has been read of the options so far.
pub struct Parsed {
    pub file: Option<Seq<char>>,
    pub directory: Option<Seq<char>>,
    pub state_dir: Option<Seq<char>>,
    pub run: Option<Seq<char>>,
    pub keep: bool,
    pub deleted: bool,
    pub positional: Option<(Seq<char>, int)>,
    pub after_dashes: bool,
}

pub open spec fn empty_parsed() -> Parsed {
    Parsed {
        file: None,
        directory: None,
        state_dir: None,
        run: None,
        keep: false,
        deleted: false,
        positional: None,
        after_dashes: false,
    }
}

/// Whether an option has been given already.
pub open spec fn is_set(p: Parsed, opt: Opt) -> bool {
    match opt {
        Opt::File => p.file is Some,
        Opt::Directory => p.directory is Some,
        Opt::StateDir => p.state_dir is Some,
        Opt::RunId => p.run is Some,
        Opt::Keep => p.keep,
        Opt::Deleted => p.deleted,
        Opt::Help => false,
    }
}

/// Records an option's value.
pub open spec fn with_option(p: Parsed, opt: Opt, value: Seq<char>) -> Parsed {
    match opt {
        Opt::File => Parsed { file: Some(value), ..p },
        Opt::Directory => Parsed { directory: Some(value), ..p },
        Opt::StateDir => Parsed { state_dir: Some(value), ..p },
        Opt::RunId => Parsed { run: Some(value), ..p },
        Opt::Keep => Parsed { keep: true, ..p },
        Opt::Deleted => Parsed { deleted: true, ..p },
        Opt::Help => p,
    }
}

/// How the argument at a position splits into an option and an attached value.
pub open spec fn split_option(sub: Subcommand, token: Seq<char>) -> Option<(Opt, Option<Seq<char>>)> {
    if has_prefix(token, "--"@) {
        let body = token.subrange(2, token.len() as int);
        if body.contains('=') {
            let p = body.index_of_first('=').unwrap();
            match long_option(sub, body.subrange(0, p)) {
                Some(opt) => Some((opt, Some(body.subrange(p + 1, body.len() as int)))),
                None => None,
            }
        } else {
            match long_option(sub, body) {
                Some(opt) => Some((opt, None)),
                None => None,
            }
        }
    } else {
        let rest = token.subrange(2, token.len() as int);
        match short_option(token[1]) {
            Some(opt) => if rest.len() == 0 {
                Some((opt, None))
            } else if rest[0] == '=' {
                Some((opt, Some(rest.subrange(1, rest.len() as int))))
            } else {
                Some((opt, Some(rest)))
            },
            None => None,
        }
    }
}

/// Reads the arguments from position `i` onwards.
pub open spec fn scan(sub: Subcommand, args: Seq<Seq<char>>, i: int, p: Parsed) -> Result<
    Parsed,
    CliError,
>
    decreases args.len() - i,
{
    if i < 2 || i >= args.len() {
        Ok(p)
    } else {
        let token = args[i];
        if !p.after_dashes && token == "--"@ {
            scan(sub, args, i + 1, Parsed { after_dashes: true, ..p })
        } else if !p.after_dashes && looks_like_option(token) {
            match split_option(sub, token) {
                None => Err(CliError::UnknownArgument(i as usize)),
                Some((opt, attached)) => {
                    if opt == Opt::Help {
                        Err(CliError::HelpRequested)
                    } else if is_set(p, opt) {
                        Err(CliError::Repeated(i as usize))
                    } else if is_flag(opt) {
                        if attached is Some {
                            Err(CliError::UnexpectedValue(i as usize))
                        } else {
                            scan(sub, args, i + 1, with_option(p, opt, seq![]))
                        }
                    } else {
                        match attached {
                            Some(value) => scan(sub, args, i + 1, with_option(p, opt, value)),
                            None => if i + 1 >= args.len() || looks_like_option(args[i + 1]) {
                                Err(CliError::MissingValue(i as usize))
                            } else {
                                scan(sub, args, i + 2, with_option(p, opt, args[i + 1]))
                            },
                        }
                    }
                },
            }
        } else if !takes_positional(sub) || p.positional is Some {
            Err(CliError::UnexpectedPositional(i as usize))
        } else {
            scan(sub, args, i + 1, Parsed { positional: Some((token, i)), ..p })
        }
    }
}

/// The meaning of a command line, over character sequences.
pub enum CommandModel {
    Run {
        scenario: Option<Seq<char>>,
        file: Seq<char>,
        directory: Option<Seq<char>>,
        state_dir: Option<Seq<char>>,
        keep: bool,
    },
    SyntaxCheck { file: Seq<char>, directory: Option<Seq<char>> },
    StateView {
        view: ViewFormat,
        run: Seq<char>,
        file: Seq<char>,
        directory: Option<Seq<char>>,
        state_dir: Option<Seq<char>>,
    },
    StateResources {
        deleted: bool,
        run: Seq<char>,
        file: Seq<char>,
        directory: Option<Seq<char>>,
        state_dir: Option<Seq<char>>,
    },
    StateReport {
        run: Seq<char>,
        file: Seq<char>,
        directory: Option<Seq<char>>,
        state_dir: Option<Seq<char>>,
    },
}

pub open spec fn or_default(value: Option<Seq<char>>, default: Seq<char>) -> Seq<char> {
    match value {
        Some(v) => v,
        None => default,
    }
}

pub open spec fn view_of(name: Seq<char>) -> Option<ViewFormat> {
    if name == "yaml"@ {
        Some(ViewFormat::Yaml)
    } else if name == "json"@ {
        Some(ViewFormat::Json)
    } else {
        None
    }
}

/// Turns the options read for a subcommand into its arguments.
pub open spec fn finish(sub: Subcommand, p: Parsed) -> Result<CommandModel, CliError> {
    if p.file is Some && p.directory is Some {
        Err(CliError::Conflict)
    } else {
        let file = or_default(p.file, "cvd.yml"@);
        let run = or_default(p.run, "last"@);
        match sub {
            Subcommand::Run => Ok(
                CommandModel::Run {
                    scenario: match p.positional {
                        Some((s, _)) => Some(s),
                        None => None,
                    },
                    file,
                    directory: p.directory,
                    state_dir: p.state_dir,
                    keep: p.keep,
                },
            ),
            Subcommand::SyntaxCheck => Ok(
                CommandModel::SyntaxCheck { file, directory: p.directory },
            ),
            Subcommand::StateView => match p.positional {
                Some((name, at)) => match view_of(name) {
                    Some(view) => Ok(
                        CommandModel::StateView {
                            view,
                            run,
                            file,
                            directory: p.directory,
                            state_dir: p.state_dir,
                        },
                    ),
                    None => Err(CliError::InvalidView(at as usize)),
                },
                None => Ok(
                    CommandModel::StateView {
                        view: ViewFormat::Yaml,
                        run,
                        file,
                        directory: p.directory,
                        state_dir: p.state_dir,
                    },
                ),
            },
            Subcommand::StateResources => Ok(
                CommandModel::StateResources {
                    deleted: p.deleted,
                    run,
                    file,
                    directory: p.directory,
                    state_dir: p.state_dir,
                },
            ),
            Subcommand::StateReport => Ok(
                CommandModel::StateReport { run, file, directory: p.directory, state_dir: p.state_dir },
            ),
        }
    }
}

/// The meaning of a whole command line (the program name first).
pub open spec fn parse_command_line(args: Seq<Seq<char>>) -> Result<CommandModel, CliError> {
    if args.len() < 2 {
        Err(CliError::MissingSubcommand)
    } else if args[1] == "--help"@ || args[1] == "-h"@ {
        Err(CliError::HelpRequested)
    } else if args[1] == "--version"@ || args[1] == "-V"@ {
        Err(CliError::VersionRequested)
    } else {
        match subcommand_of(args[1]) {
            None => Err(CliError::UnknownSubcommand(1)),
            Some(sub) => match scan(sub, args, 2, empty_parsed()) {
                Ok(p) => finish(sub, p),
                Err(e) => Err(e),
            },
        }
    }
}

pub open spec fn opt_view(s: Option<String>) -> Option<Seq<char>> {
    match s {
        Some(s) => Some(s@),
        None => None,
    }
}

impl Cli {
    /// The meaning of this command line.
    pub open spec fn model(&self) -> CommandModel {
        match self.command {
            Command::Run(a) => CommandModel::Run {
                scenario: opt_view(a.scenario),
                file: a.file@,
                directory: opt_view(a.directory),
                state_dir: opt_view(a.state_dir),
                keep: a.keep,
            },
            Command::SyntaxCheck(a) => CommandModel::SyntaxCheck {
                file: a.file@,
                directory: opt_view(a.directory),
            },
            Command::StateView(a) => CommandModel::StateView {
                view: a.view,
                run: a.run@,
                file: a.file@,
                directory: opt_view(a.directory),
                state_dir: opt_view(a.state_dir),
            },
            Command::StateResources(a) => CommandModel::StateResources {
                deleted: a.deleted,
                run: a.run@,
                file: a.file@,
                directory: opt_view(a.directory),
                state_dir: opt_view(a.state_dir),
            },
            Command::StateReport(a) => CommandModel::StateReport {
                run: a.run@,
                file: a.file@,
                directory: opt_view(a.directory),
                state_dir: opt_view(a.state_dir),
            },
        }
    }

    /// Parses a command line whose first element is the program name.
    pub fn try_parse_from(args: &[&str]) -> (r: Result<Cli, CliError>)
        ensures
            match parse_command_line(views_of(args@)) {
                Ok(m) => r matches Ok(cli) && cli.model() == m,
                Err(e) => r == Err::<Cli, CliError>(e),
            },
    {
        if args.len() < 2 {
            return Err(CliError::MissingSubcommand);
        }
        let first = args[1];
        if str_eq(first, "--help") || str_eq(first, "-h") {
            return Err(CliError::HelpRequested);
        }
        if str_eq(first, "--version") || str_eq(first, "-V") {
            return Err(CliError::VersionRequested);
        }
        let sub = match subcommand(first) {
            Some(sub) => sub,
            None => {
                return Err(CliError::UnknownSubcommand(1));
            },
        };
        let parsed = match scan_arguments(sub, args) {
            Ok(p) => p,
            Err(e) => {
                return Err(e);
            },
        };
        finish_command(sub, parsed)
    }
}

pub open spec fn views_of(args: Seq<&str>) -> Seq<Seq<char>> {
    args.map_values(|a: &str| a@)
}

fn subcommand(name: &str) -> (r: Option<Subcommand>)
    ensures
        r == subcommand_of(name@),
{
    if str_eq(name, "run") {
        Some(Subcommand::Run)
    } else if str_eq(name, "syntax-check") {
        Some(Subcommand::SyntaxCheck)
    } else if str_eq(name, "state-view") {
        Some(Subcommand::StateView)
    } else if str_eq(name, "state-resources") {
        Some(Subcommand::StateResources)
    } else if str_eq(name, "state-report") {
        Some(Subcommand::StateReport)
    } else {
        None
    }
}

fn long(sub: Subcommand, name: &str) -> (r: Option<Opt>)
    ensures
        r == long_option(sub, name@),
{
    if str_eq(name, "file") {
        Some(Opt::File)
    } else if str_eq(name, "directory") {
        Some(Opt::Directory)
    } else if str_eq(name, "help") {
        Some(Opt::Help)
    } else if str_eq(name, "state-dir") && sub != Subcommand::SyntaxCheck {
        Some(Opt::StateDir)
    } else if str_eq(name, "keep") && sub == Subcommand::Run {
        Some(Opt::Keep)
    } else if str_eq(name, "run") && (sub == Subcommand::StateView || sub
        == Subcommand::StateResources || sub == Subcommand::StateReport) {
        Some(Opt::RunId)
    } else if str_eq(name, "deleted") && sub == Subcommand::StateResources {
        Some(Opt::Deleted)
    } else {
        None
    }
}

fn short(c: char) -> (r: Option<Opt>)
    ensures
        r == short_option(c),
{
    if c == 'f' {
        Some(Opt::File)
    } else if c == 'F' {
        Some(Opt::Directory)
    } else if c == 'h' {
        Some(Opt::Help)
    } else {
        None
    }
}

fn looks_like_option_exec(token: &str) -> (r: bool)
    ensures
        r == looks_like_option(token@),
{
    token.unicode_len() >= 2 && token.get_char(0) == '-'
}

/// The position of the first `=` in `s`.
fn find_equals(s: &str) -> (r: Option<usize>)
    ensures
        r is None <==> !s@.contains('='),
        r matches Some(p) ==> s@.index_of_first('=') == Some(p as int) && p < s@.len(),
{
    let n = s.unicode_len();
    let mut i: usize = 0;
    while i < n
        invariant
            n == s@.len(),
            i <= n,
            forall|j: int| 0 <= j < i ==> s@[j] != '=',
        decreases n - i,
    {
        if s.get_char(i) == '=' {
            proof {
                let ghost r = s@.index_of_first('=');
                s@.index_of_first_ensures('=');
                assert(s@.contains('='));
            }
            return Some(i);
        }
        i = i + 1;
    }
    proof {
        s@.index_of_first_ensures('=');
    }
    None
}

/// Owned form of `Parsed`.
struct Scanned {
    file: Option<String>,
    directory: Option<String>,
    state_dir: Option<String>,
    run: Option<String>,
    keep: bool,
    deleted: bool,
    positional: Option<(String, usize)>,
    after_dashes: bool,
}

impl Scanned {
    spec fn model(&self) -> Parsed {
        Parsed {
            file: opt_view(self.file),
            directory: opt_view(self.directory),
            state_dir: opt_view(self.state_dir),
            run: opt_view(self.run),
            keep: self.keep,
            deleted: self.deleted,
            positional: match self.positional {
                Some((s, i)) => Some((s@, i as int)),
                None => None,
            },
            after_dashes: self.after_dashes,
        }
    }

    fn is_set(&self, opt: Opt) -> (r: bool)
        ensures
            r == is_set(self.model(), opt),
    {
        match opt {
            Opt::File => self.file.is_some(),
            Opt::Directory => self.directory.is_some(),
            Opt::StateDir => self.state_dir.is_some(),
            Opt::RunId => self.run.is_some(),
            Opt::Keep => self.keep,
            Opt::Deleted => self.deleted,
            Opt::Help => false,
        }
    }

    fn set(&mut self, opt: Opt, value: String)
        ensures
            final(self).model() == with_option(old(self).model(), opt, value@),
    {
        match opt {
            Opt::File => self.file = Some(value),
            Opt::Directory => self.directory = Some(value),
            Opt::StateDir => self.state_dir = Some(value),
            Opt::RunId => self.run = Some(value),
            Opt::Keep => self.keep = true,
            Opt::Deleted => self.deleted = true,
            Opt::Help => {},
        }
    }
}

/// Splits an option argument into the option and an attached value.
fn split(sub: Subcommand, token: &str) -> (r: Option<(Opt, Option<String>)>)
    requires
        looks_like_option(token@),
    ensures
        match split_option(sub, token@) {
            None => r is None,
            Some((opt, attached)) => r matches Some((o, a)) && o == opt && opt_view(a) == attached,
        },
{
    let n = token.unicode_len();
    if crate::text::starts_with(token, "--") {
        let body = token.substring_char(2, n);
        match find_equals(body) {
            Some(p) => {
                let name = body.substring_char(0, p);
                let value = crate::text::slice_chars(body, p + 1, body.unicode_len());
                match long(sub, name) {
                    Some(opt) => Some((opt, Some(value))),
                    None => None,
                }
            },
            None => match long(sub, body) {
                Some(opt) => Some((opt, None)),
                None => None,
            },
        }
    } else {
        let rest = token.substring_char(2, n);
        match short(token.get_char(1)) {
            Some(opt) => {
                let m = rest.unicode_len();
                if m == 0 {
                    Some((opt, None))
                } else if rest.get_char(0) == '=' {
                    Some((opt, Some(crate::text::slice_chars(rest, 1, m))))
                } else {
                    Some((opt, Some(crate::text::owned(rest))))
                }
            },
            None => None,
        }
    }
}

fn scan_arguments(sub: Subcommand, args: &[&str]) -> (r: Result<Scanned, CliError>)
    requires
        args@.len() >= 2,
    ensures
        match scan(sub, views_of(args@), 2, empty_parsed()) {
            Ok(p) => r matches Ok(s) && s.model() == p,
            Err(e) => r == Err::<Scanned, CliError>(e),
        },
{
    let ghost toks = views_of(args@);
    let mut p = Scanned {
        file: None,
        directory: None,
        state_dir: None,
        run: None,
        keep: false,
        deleted: false,
        positional: None,
        after_dashes: false,
    };
    let mut i: usize = 2;
    assert(p.model() == empty_parsed());
    while i < args.len()
        invariant
            2 <= i <= args@.len() + 1,
            toks == views_of(args@),
            toks.len() == args@.len(),
            scan(sub, toks, i as int, p.model()) == scan(sub, toks, 2, empty_parsed()),
        decreases args.len() - i,
    {
        let token = args[i];
        assert(toks[i as int] == token@);
        if !p.after_dashes && str_eq(token, "--") {
            p.after_dashes = true;
            i = i + 1;
        } else if !p.after_dashes && looks_like_option_exec(token) {
            match split(sub, token) {
                None => {
                    return Err(CliError::UnknownArgument(i));
                },
                Some((opt, attached)) => {
                    if opt == Opt::Help {
                        return Err(CliError::HelpRequested);
                    } else if p.is_set(opt) {
                        return Err(CliError::Repeated(i));
                    } else if opt == Opt::Keep || opt == Opt::Deleted {
                        if attached.is_some() {
                            return Err(CliError::UnexpectedValue(i));
                        }
                        let empty = String::new();
                        assert(empty@ =~= seq![]);
                        p.set(opt, empty);
                        i = i + 1;
                    } else {
                        match attached {
                            Some(value) => {
                                p.set(opt, value);
                                i = i + 1;
                            },
                            None => {
                                if i + 1 >= args.len() || looks_like_option_exec(args[i + 1]) {
                                    return Err(CliError::MissingValue(i));
                                }
                                assert(toks[i + 1] == args@[i + 1]@);
                                p.set(opt, crate::text::owned(args[i + 1]));
                                i = i + 2;
                            },
                        }
                    }
                },
            }
        } else if !(sub == Subcommand::Run || sub == Subcommand::StateView) || p.positional.is_some() {
            return Err(CliError::UnexpectedPositional(i));
        } else {
            p.positional = Some((crate::text::owned(token), i));
            i = i + 1;
        }
    }
    assert(scan(sub, toks, i as int, p.model()) == Ok::<Parsed, CliError>(p.model()));
    Ok(p)
}

fn owned_or(value: Option<String>, default: &str) -> (r: String)
    ensures
        r@ == or_default(opt_view(value), default@),
{
    match value {
        Some(v) => v,
        None => crate::text::owned(default),
    }
}

fn finish_command(sub: Subcommand, p: Scanned) -> (r: Result<Cli, CliError>)
    ensures
        match finish(sub, p.model()) {
            Ok(m) => r matches Ok(cli) && cli.model() == m,
            Err(e) => r == Err::<Cli, CliError>(e),
        },
{
    if p.file.is_some() && p.directory.is_some() {
        return Err(CliError::Conflict);
    }
    let ghost model = p.model();
    let file = owned_or(p.file, "cvd.yml");
    let run = owned_or(p.run, "last");
    let command = match sub {
        Subcommand::Run => Command::Run(
            RunArgs {
                scenario: match p.positional {
                    Some((s, _)) => Some(s),
                    None => None,
                },
                file,
                directory: p.directory,
                state_dir: p.state_dir,
                keep: p.keep,
            },
        ),
        Subcommand::SyntaxCheck => Command::SyntaxCheck(
            SyntaxCheckArgs { file, directory: p.directory },
        ),
        Subcommand::StateView => {
            let view = match p.positional {
                Some((name, at)) => {
                    if str_eq(name.as_str(), "yaml") {
                        ViewFormat::Yaml
                    } else if str_eq(name.as_str(), "json") {
                        ViewFormat::Json
                    } else {
                        return Err(CliError::InvalidView(at));
                    }
                },
                None => ViewFormat::Yaml,
            };
            Command::StateView(
                StateViewArgs { view, run, file, directory: p.directory, state_dir: p.state_dir },
            )
        },
        Subcommand::StateResources => Command::StateResources(
            StateResourcesArgs {
                deleted: p.deleted,
                run,
                file,
                directory: p.directory,
                state_dir: p.state_dir,
            },
        ),
        Subcommand::StateReport => Command::StateReport(
            StateReportArgs { run, file, directory: p.directory, state_dir: p.state_dir },
        ),
    };
    Ok(Cli { command })
}

/// Whether a file exists at `path`.  The answer depends on the file system at
/// the moment of the call, so nothing is promised of it.
#[verifier::external_body]
fn is_file(path: &str) -> bool {
    std::path::Path::new(path).is_file()
}

/// The configuration file a directory selects, given which of `cvd.yaml`
/// and `cvd.yml` exist there: `cvd.yaml` is preferred, and named when
/// neither exists.
pub open spec fn chosen_configuration(directory: Seq<char>, yaml_exists: bool, yml_exists: bool) -> Seq<
    char,
> {
    if !yaml_exists && yml_exists {
        crate::paths::joined(directory, "cvd.yml"@)
    } else {
        crate::paths::joined(directory, "cvd.yaml"@)
    }
}

/// The configuration file a directory selects, given which of its two
/// candidate files exist.
pub fn choose_configuration_file(directory: &str, yaml_exists: bool, yml_exists: bool) -> (r: String)
    ensures
        r@ == chosen_configuration(directory@, yaml_exists, yml_exists),
{
    if !yaml_exists && yml_exists {
        crate::paths::join(directory, "cvd.yml")
    } else {
        crate::paths::join(directory, "cvd.yaml")
    }
}

/// The configuration file named by `--file`, or the one `--directory`
/// selects.
pub fn configuration_file(file: &str, directory: Option<&str>) -> (r: String)
    ensures
        directory is None ==> r@ == file@,
        directory matches Some(d) ==> exists|yaml_exists: bool, yml_exists: bool|
            r@ == chosen_configuration(d@, yaml_exists, yml_exists),
{
    match directory {
        None => crate::text::owned(file),
        Some(d) => {
            let yaml = crate::paths::join(d, "cvd.yaml");
            let yaml_exists = is_file(yaml.as_str());
            let yml_exists = if yaml_exists {
                false
            } else {
                let yml = crate::paths::join(d, "cvd.yml");
                is_file(yml.as_str())
            };
            choose_configuration_file(d, yaml_exists, yml_exists)
        },
    }
}

} // verus!
