//! The `tally` command line: its commands and the grammar that reads them
//! from the argument list.
//!
//! ```text
//! tally init [--force]
//! tally deploy [--wrangler-toml <PATH>]
//! tally destroy [--force]
//! tally teams init <TEAM_ID>
//! tally teams status <TEAM_ID>
//! tally teams delete <TEAM_ID> [--force]
//! tally agents register --team <T> --identity <I> [--context <C>]   (C defaults to `default`)
//! tally agents unregister --team <T> --identity <I> --context <C>
//! tally agents key issue --team <T> --identity <I>
//! tally agents key revoke --team <T> --identity <I>
//! tally version
//! ```
//!
//! Options take their value as the next argument or after `=`; each may
//! be given once; `--` ends the options; `-h`/`--help`/`help` ask for
//! help and `-V`/`--version` (before the command) for the version.

use vstd::prelude::*;

verus! {

/// Operator-level configuration on the local machine.
#[derive(Debug)]
pub struct InitArgs {
    /// Reconfigure even if an identity already exists.
    pub force: bool,
}

/// Deployment of the runtime.
#[derive(Debug)]
pub struct DeployArgs {
    /// Path to `wrangler.toml` (default: the current directory's).
    pub wrangler_toml: Option<String>,
}

/// Teardown of a deployment.
#[derive(Debug)]
pub struct DestroyArgs {
    /// Skip the confirmation prompt.
    pub force: bool,
}

/// Team-administrative commands.
#[derive(Debug)]
pub enum TeamsCommand {
    /// Provision the team object of a team.
    Init { team_id: String },
    /// Inspect a team's routing state.
    Status { team_id: String },
    /// Tear down a team's state.
    Delete { team_id: String, force: bool },
}

/// Agent-level API-key commands.
#[derive(Debug)]
pub enum KeyCommand {
    /// Issue an API key for an agent.
    Issue { team: String, identity: String },
    /// Revoke an agent's API key.
    Revoke { team: String, identity: String },
}

/// Agent-level commands.
#[derive(Debug)]
pub enum AgentsCommand {
    /// Register an agent's identity for a context.
    Register { team: String, identity: String, context: String },
    /// Remove an agent's registration for a context.
    Unregister { team: String, identity: String, context: String },
    /// API-key commands.
    Key(KeyCommand),
}

/// The top-level commands.
#[derive(Debug)]
pub enum Commands {
    Init(InitArgs),
    Deploy(DeployArgs),
    Destroy(DestroyArgs),
    Teams(TeamsCommand),
    Agents(AgentsCommand),
    Version,
}

/// A parsed command line.
#[derive(Debug)]
pub struct Cli {
    pub command: Commands,
}

/// Why an argument list is not a command (or asks for help or version).
#[derive(Debug)]
pub enum CliError {
    DisplayHelp,
    DisplayVersion,
    MissingSubcommand,
    InvalidSubcommand(String),
    UnknownArgument(String),
    MissingValue(String),
    UnexpectedValue(String),
    ArgumentConflict(String),
    MissingRequired(String),
}

/// Mathematical content of a command.
pub enum CommandView {
    Init(bool),
    Deploy(Option<Seq<char>>),
    Destroy(bool),
    TeamsInit(Seq<char>),
    TeamsStatus(Seq<char>),
    TeamsDelete(Seq<char>, bool),
    AgentsRegister(Seq<char>, Seq<char>, Seq<char>),
    AgentsUnregister(Seq<char>, Seq<char>, Seq<char>),
    KeyIssue(Seq<char>, Seq<char>),
    KeyRevoke(Seq<char>, Seq<char>),
    Version,
}

/// Mathematical content of a [`CliError`].
pub enum CliErrorView {
    DisplayHelp,
    DisplayVersion,
    MissingSubcommand,
    InvalidSubcommand(Seq<char>),
    UnknownArgument(Seq<char>),
    MissingValue(Seq<char>),
    UnexpectedValue(Seq<char>),
    ArgumentConflict(Seq<char>),
    MissingRequired(Seq<char>),
}

pub open spec fn opt_view(o: Option<String>) -> Option<Seq<char>> {
    match o {
        Some(s) => Some(s@),
        None => None,
    }
}

impl Cli {
    pub open spec fn command_view(&self) -> CommandView {
        match &self.command {
            Commands::Init(a) => CommandView::Init(a.force),
            Commands::Deploy(a) => CommandView::Deploy(opt_view(a.wrangler_toml)),
            Commands::Destroy(a) => CommandView::Destroy(a.force),
            Commands::Teams(TeamsCommand::Init { team_id }) => CommandView::TeamsInit(team_id@),
            Commands::Teams(TeamsCommand::Status { team_id }) => CommandView::TeamsStatus(team_id@),
            Commands::Teams(TeamsCommand::Delete { team_id, force }) => CommandView::TeamsDelete(team_id@, *force),
            Commands::Agents(AgentsCommand::Register { team, identity, context }) => CommandView::AgentsRegister(
                team@,
                identity@,
                context@,
            ),
            Commands::Agents(AgentsCommand::Unregister { team, identity, context }) => CommandView::AgentsUnregister(
                team@,
                identity@,
                context@,
            ),
            Commands::Agents(AgentsCommand::Key(KeyCommand::Issue { team, identity })) => CommandView::KeyIssue(team@, identity@),
            Commands::Agents(AgentsCommand::Key(KeyCommand::Revoke { team, identity })) => CommandView::KeyRevoke(team@, identity@),
            Commands::Version => CommandView::Version,
        }
    }
}

impl View for CliError {
    type V = CliErrorView;

    open spec fn view(&self) -> CliErrorView {
        match self {
            CliError::DisplayHelp => CliErrorView::DisplayHelp,
            CliError::DisplayVersion => CliErrorView::DisplayVersion,
            CliError::MissingSubcommand => CliErrorView::MissingSubcommand,
            CliError::InvalidSubcommand(s) => CliErrorView::InvalidSubcommand(s@),
            CliError::UnknownArgument(s) => CliErrorView::UnknownArgument(s@),
            CliError::MissingValue(s) => CliErrorView::MissingValue(s@),
            CliError::UnexpectedValue(s) => CliErrorView::UnexpectedValue(s@),
            CliError::ArgumentConflict(s) => CliErrorView::ArgumentConflict(s@),
            CliError::MissingRequired(s) => CliErrorView::MissingRequired(s@),
        }
    }
}

/// The texts of an argument list.
pub open spec fn texts(args: Seq<&str>) -> Seq<Seq<char>> {
    args.map_values(|a: &str| a@)
}

/// First position of `n` in `names` at or after `k`, or -1.
pub open spec fn find_name(names: Seq<Seq<char>>, n: Seq<char>, k: int) -> int
    decreases names.len() - k,
{
    if k < 0 || k >= names.len() {
        -1
    } else if names[k] == n {
        k
    } else {
        find_name(names, n, k + 1)
    }
}

/// Position of the first `=` at or after `k`, or -1.
pub open spec fn find_eq(s: Seq<char>, k: int) -> int
    decreases s.len() - k,
{
    if k < 0 || k >= s.len() {
        -1
    } else if s[k] == '=' {
        k
    } else {
        find_eq(s, k + 1)
    }
}

/// The name of a long option `--name` or `--name=value`.
pub open spec fn long_name(x: Seq<char>) -> Seq<char> {
    let e = find_eq(x, 2);
    if e < 0 {
        x.skip(2)
    } else {
        x.subrange(2, e)
    }
}

/// The inline value of `--name=value`.
pub open spec fn long_value(x: Seq<char>) -> Option<Seq<char>> {
    let e = find_eq(x, 2);
    if e < 0 {
        None
    } else {
        Some(x.skip(e + 1))
    }
}

/// `x` looks like an option (a dash followed by something).
pub open spec fn dashed(x: Seq<char>) -> bool {
    x.len() > 1 && x[0] == '-'
}

/// `x` is a long option (`--` followed by a name).
pub open spec fn long_form(x: Seq<char>) -> bool {
    x.len() > 2 && x[0] == '-' && x[1] == '-'
}

/// `x` asks for help.
pub open spec fn help_word(x: Seq<char>) -> bool {
    x == "-h"@ || x == "--help"@
}

/// What the options and operands of one command read: which flags were
/// set, each option's value, and the positional operands.
pub struct ScanView {
    pub flags: Seq<bool>,
    pub values: Seq<Option<Seq<char>>>,
    pub positionals: Seq<Seq<char>>,
}

/// Reads `t` from position `i` onwards, after `acc` was read before it.
pub open spec fn scan_from(
    t: Seq<Seq<char>>,
    i: int,
    only_pos: bool,
    flags: Seq<Seq<char>>,
    opts: Seq<Seq<char>>,
    max_pos: nat,
    acc: ScanView,
) -> Result<ScanView, CliErrorView>
    decreases t.len() - i,
{
    if i < 0 || i >= t.len() {
        Ok(acc)
    } else {
        let x = t[i];
        if !only_pos && x == "--"@ {
            scan_from(t, i + 1, true, flags, opts, max_pos, acc)
        } else if !only_pos && help_word(x) {
            Err(CliErrorView::DisplayHelp)
        } else if !only_pos && long_form(x) {
            let name = long_name(x);
            let f = find_name(flags, name, 0);
            let o = find_name(opts, name, 0);
            if f >= 0 {
                if long_value(x) is Some {
                    Err(CliErrorView::UnexpectedValue(name))
                } else if acc.flags[f] {
                    Err(CliErrorView::ArgumentConflict(name))
                } else {
                    scan_from(t, i + 1, false, flags, opts, max_pos, ScanView { flags: acc.flags.update(f, true), ..acc })
                }
            } else if o >= 0 {
                if acc.values[o] is Some {
                    Err(CliErrorView::ArgumentConflict(name))
                } else {
                    match long_value(x) {
                        Some(v) => scan_from(t, i + 1, false, flags, opts, max_pos, ScanView { values: acc.values.update(o, Some(v)), ..acc }),
                        None => if i + 1 < t.len() && !dashed(t[i + 1]) {
                            scan_from(t, i + 2, false, flags, opts, max_pos, ScanView { values: acc.values.update(o, Some(t[i + 1])), ..acc })
                        } else {
                            Err(CliErrorView::MissingValue(name))
                        },
                    }
                }
            } else {
                Err(CliErrorView::UnknownArgument(x))
            }
        } else if !only_pos && dashed(x) {
            Err(CliErrorView::UnknownArgument(x))
        } else if acc.positionals.len() >= max_pos {
            Err(CliErrorView::UnknownArgument(x))
        } else {
            scan_from(t, i + 1, only_pos, flags, opts, max_pos, ScanView { positionals: acc.positionals.push(x), ..acc })
        }
    }
}

/// Reads the options and operands of one command from `t`.
pub open spec fn scan_args(t: Seq<Seq<char>>, flags: Seq<Seq<char>>, opts: Seq<Seq<char>>, max_pos: nat) -> Result<ScanView, CliErrorView> {
    scan_from(
        t,
        0,
        false,
        flags,
        opts,
        max_pos,
        ScanView { flags: Seq::new(flags.len(), |i: int| false), values: Seq::new(opts.len(), |i: int| None), positionals: seq![] },
    )
}

/// Exec form of [`ScanView`].
pub struct Scan {
    pub flags: Vec<bool>,
    pub values: Vec<Option<String>>,
    pub positionals: Vec<String>,
}

pub open spec fn scan_view(s: Scan) -> ScanView {
    ScanView {
        flags: s.flags@,
        values: s.values@.map_values(|v: Option<String>| opt_view(v)),
        positionals: s.positionals@.map_values(|p: String| p@),
    }
}

fn same_text(a: &str, b: &str) -> (r: bool)
    ensures
        r == (a@ == b@),
{
    a.to_string() == b.to_string()
}

fn find_text(names: &[&str], n: &str) -> (r: Option<usize>)
    ensures
        match r {
            Some(k) => k == find_name(texts(names@), n@, 0),
            None => find_name(texts(names@), n@, 0) == -1,
        },
{
    let mut k: usize = 0;
    while k < names.len()
        invariant
            k <= names@.len(),
            find_name(texts(names@), n@, 0) == find_name(texts(names@), n@, k as int),
        decreases names@.len() - k,
    {
        if same_text(names[k], n) {
            return Some(k);
        }
        k = k + 1;
    }
    None
}

fn find_eq_exec(x: &str, n: usize) -> (r: Option<usize>)
    requires
        n == x@.len(),
    ensures
        match r {
            Some(k) => k == find_eq(x@, 2),
            None => find_eq(x@, 2) == -1,
        },
{
    let mut k: usize = 2;
    if n < 2 {
        return None;
    }
    while k < n
        invariant
            2 <= k <= n,
            n == x@.len(),
            find_eq(x@, 2) == find_eq(x@, k as int),
        decreases n - k,
    {
        if x.get_char(k) == '=' {
            return Some(k);
        }
        k = k + 1;
    }
    None
}

fn is_dashed(x: &str) -> (r: bool)
    ensures
        r == dashed(x@),
{
    x.unicode_len() > 1 && x.get_char(0) == '-'
}

/// Reads the options and operands of one command from `args[start..]`.
fn scan(args: &[&str], start: usize, flags: &[&str], opts: &[&str], max_pos: usize) -> (r: Result<Scan, CliError>)
    requires
        start <= args@.len(),
    ensures
        match r {
            Ok(s) => scan_args(texts(args@).skip(start as int), texts(flags@), texts(opts@), max_pos as nat) == Ok::<ScanView, CliErrorView>(scan_view(s)),
            Err(e) => scan_args(texts(args@).skip(start as int), texts(flags@), texts(opts@), max_pos as nat) == Err::<ScanView, CliErrorView>(e@),
        },
{
    let ghost t = texts(args@).skip(start as int);
    let ghost fl = texts(flags@);
    let ghost op = texts(opts@);
    let mut fs: Vec<bool> = Vec::new();
    let mut k: usize = 0;
    while k < flags.len()
        invariant
            k <= flags@.len(),
            fs@.len() == k,
            forall|j: int| 0 <= j < k ==> !(#[trigger] fs@[j]),
        decreases flags@.len() - k,
    {
        fs.push(false);
        k = k + 1;
    }
    let mut vs: Vec<Option<String>> = Vec::new();
    k = 0;
    while k < opts.len()
        invariant
            k <= opts@.len(),
            vs@.len() == k,
            forall|j: int| 0 <= j < k ==> (#[trigger] vs@[j]) is None,
        decreases opts@.len() - k,
    {
        vs.push(None);
        k = k + 1;
    }
    let mut ps: Vec<String> = Vec::new();
    proof {
        assert(fs@ =~= Seq::new(fl.len(), |i: int| false));
        assert(vs@.map_values(|v: Option<String>| opt_view(v)) =~= Seq::new(op.len(), |i: int| None::<Seq<char>>));
        assert(ps@.map_values(|p: String| p@) =~= Seq::<Seq<char>>::empty());
        assert(scan_view(Scan { flags: fs, values: vs, positionals: ps }) =~= (ScanView {
            flags: Seq::new(fl.len(), |i: int| false),
            values: Seq::new(op.len(), |i: int| None),
            positionals: seq![],
        }));
    }
    let mut i: usize = start;
    let mut only_pos = false;
    while i < args.len()
        invariant
            start <= i <= args@.len(),
            t == texts(args@).skip(start as int),
            fl == texts(flags@),
            op == texts(opts@),
            fs@.len() == fl.len(),
            vs@.len() == op.len(),
            scan_args(t, fl, op, max_pos as nat) == scan_from(
                t,
                i - start,
                only_pos,
                fl,
                op,
                max_pos as nat,
                scan_view(Scan { flags: fs, values: vs, positionals: ps }),
            ),
        decreases args@.len() - i,
    {
        let x = args[i];
        let ghost xi = (i - start) as int;
        let ghost acc = scan_view(Scan { flags: fs, values: vs, positionals: ps });
        proof {
            assert(t[xi] == x@);
        }
        if !only_pos && same_text(x, "--") {
            only_pos = true;
            i = i + 1;
            continue;
        }
        if !only_pos && (same_text(x, "-h") || same_text(x, "--help")) {
            return Err(CliError::DisplayHelp);
        }
        let n = x.unicode_len();
        if !only_pos && n > 2 && x.get_char(0) == '-' && x.get_char(1) == '-' {
            let e = find_eq_exec(x, n);
            proof {
                lemma_find_eq_range(x@, 2);
            }
            let name = match e {
                None => x.substring_char(2, n),
                Some(k) => x.substring_char(2, k),
            };
            proof {
                assert(name@ == long_name(x@));
            }
            let f = find_text(flags, name);
            let o = find_text(opts, name);
            if let Some(f) = f {
                proof {
                    lemma_find_name_range(fl, name@, 0);
                }
                if e.is_some() {
                    return Err(CliError::UnexpectedValue(name.to_string()));
                }
                if fs[f] {
                    return Err(CliError::ArgumentConflict(name.to_string()));
                }
                fs.set(f, true);
                proof {
                    assert(scan_view(Scan { flags: fs, values: vs, positionals: ps }) =~= (ScanView { flags: acc.flags.update(f as int, true), ..acc }));
                }
                i = i + 1;
                continue;
            }
            if let Some(o) = o {
                proof {
                    lemma_find_name_range(op, name@, 0);
                }
                if vs[o].is_some() {
                    return Err(CliError::ArgumentConflict(name.to_string()));
                }
                if let Some(k) = e {
                    let v = x.substring_char(k + 1, n);
                    vs.set(o, Some(v.to_string()));
                    proof {
                        assert(v@ == x@.skip(k + 1));
                        assert(vs@.map_values(|v: Option<String>| opt_view(v)) =~= acc.values.update(o as int, Some(v@)));
                        assert(scan_view(Scan { flags: fs, values: vs, positionals: ps }) =~= (ScanView { values: acc.values.update(o as int, Some(v@)), ..acc }));
                    }
                    i = i + 1;
                    continue;
                }
                if i + 1 < args.len() && !is_dashed(args[i + 1]) {
                    let v = args[i + 1];
                    vs.set(o, Some(v.to_string()));
                    proof {
                        assert(t[xi + 1] == v@);
                        assert(vs@.map_values(|v: Option<String>| opt_view(v)) =~= acc.values.update(o as int, Some(v@)));
                        assert(scan_view(Scan { flags: fs, values: vs, positionals: ps }) =~= (ScanView { values: acc.values.update(o as int, Some(v@)), ..acc }));
                    }
                    i = i + 2;
                    continue;
                }
                return Err(CliError::MissingValue(name.to_string()));
            }
            return Err(CliError::UnknownArgument(x.to_string()));
        }
        if !only_pos && is_dashed(x) {
            return Err(CliError::UnknownArgument(x.to_string()));
        }
        if ps.len() >= max_pos {
            return Err(CliError::UnknownArgument(x.to_string()));
        }
        ps.push(x.to_string());
        proof {
            assert(ps@.map_values(|p: String| p@) =~= acc.positionals.push(x@));
            assert(scan_view(Scan { flags: fs, values: vs, positionals: ps }) =~= (ScanView { positionals: acc.positionals.push(x@), ..acc }));
        }
        i = i + 1;
    }
    Ok(Scan { flags: fs, values: vs, positionals: ps })
}

proof fn lemma_find_eq_range(s: Seq<char>, k: int)
    requires
        0 <= k,
    ensures
        find_eq(s, k) == -1 || (k <= find_eq(s, k) < s.len() && s[find_eq(s, k)] == '='),
    decreases s.len() - k,
{
    if k < s.len() && s[k] != '=' {
        lemma_find_eq_range(s, k + 1);
    }
}

proof fn lemma_find_name_range(names: Seq<Seq<char>>, n: Seq<char>, k: int)
    requires
        0 <= k,
    ensures
        find_name(names, n, k) == -1 || (k <= find_name(names, n, k) < names.len() && names[find_name(names, n, k)] == n),
    decreases names.len() - k,
{
    if k < names.len() && names[k] != n {
        lemma_find_name_range(names, n, k + 1);
    }
}

/// The value of an option, or `d` when it was not given.
pub open spec fn value_or(v: Option<Seq<char>>, d: Seq<char>) -> Seq<char> {
    match v {
        Some(x) => x,
        None => d,
    }
}

/// The command a `teams` argument list names.
pub open spec fn parse_teams(t: Seq<Seq<char>>) -> Result<CommandView, CliErrorView> {
    if t.len() == 0 {
        Err(CliErrorView::MissingSubcommand)
    } else {
        let x = t[0];
        let rest = t.skip(1);
        if help_word(x) || x == "help"@ {
            Err(CliErrorView::DisplayHelp)
        } else if dashed(x) {
            Err(CliErrorView::UnknownArgument(x))
        } else if x == "init"@ || x == "status"@ || x == "delete"@ {
            let flags = if x == "delete"@ { seq!["force"@] } else { seq![] };
            match scan_args(rest, flags, seq![], 1) {
                Err(e) => Err(e),
                Ok(sc) => if sc.positionals.len() == 0 {
                    Err(CliErrorView::MissingRequired("team_id"@))
                } else if x == "init"@ {
                    Ok(CommandView::TeamsInit(sc.positionals[0]))
                } else if x == "status"@ {
                    Ok(CommandView::TeamsStatus(sc.positionals[0]))
                } else {
                    Ok(CommandView::TeamsDelete(sc.positionals[0], sc.flags[0]))
                },
            }
        } else {
            Err(CliErrorView::InvalidSubcommand(x))
        }
    }
}

/// The options of an agent command: `--team`, `--identity`, `--context`.
pub open spec fn agent_opts() -> Seq<Seq<char>> {
    seq!["team"@, "identity"@, "context"@]
}

/// The options of a key command: `--team`, `--identity`.
pub open spec fn key_opts() -> Seq<Seq<char>> {
    seq!["team"@, "identity"@]
}

/// The first of `team` and `identity` that is missing, if any.
pub open spec fn missing_team_identity(values: Seq<Option<Seq<char>>>) -> Option<CliErrorView> {
    if values[0] is None {
        Some(CliErrorView::MissingRequired("team"@))
    } else if values[1] is None {
        Some(CliErrorView::MissingRequired("identity"@))
    } else {
        None
    }
}

/// The command an `agents key` argument list names.
pub open spec fn parse_key(t: Seq<Seq<char>>) -> Result<CommandView, CliErrorView> {
    if t.len() == 0 {
        Err(CliErrorView::MissingSubcommand)
    } else {
        let x = t[0];
        if help_word(x) || x == "help"@ {
            Err(CliErrorView::DisplayHelp)
        } else if dashed(x) {
            Err(CliErrorView::UnknownArgument(x))
        } else if x == "issue"@ || x == "revoke"@ {
            match scan_args(t.skip(1), seq![], key_opts(), 0) {
                Err(e) => Err(e),
                Ok(sc) => match missing_team_identity(sc.values) {
                    Some(e) => Err(e),
                    None => if x == "issue"@ {
                        Ok(CommandView::KeyIssue(sc.values[0]->0, sc.values[1]->0))
                    } else {
                        Ok(CommandView::KeyRevoke(sc.values[0]->0, sc.values[1]->0))
                    },
                },
            }
        } else {
            Err(CliErrorView::InvalidSubcommand(x))
        }
    }
}

/// The command an `agents` argument list names.
pub open spec fn parse_agents(t: Seq<Seq<char>>) -> Result<CommandView, CliErrorView> {
    if t.len() == 0 {
        Err(CliErrorView::MissingSubcommand)
    } else {
        let x = t[0];
        if help_word(x) || x == "help"@ {
            Err(CliErrorView::DisplayHelp)
        } else if dashed(x) {
            Err(CliErrorView::UnknownArgument(x))
        } else if x == "register"@ || x == "unregister"@ {
            match scan_args(t.skip(1), seq![], agent_opts(), 0) {
                Err(e) => Err(e),
                Ok(sc) => match missing_team_identity(sc.values) {
                    Some(e) => Err(e),
                    None => if x == "register"@ {
                        Ok(CommandView::AgentsRegister(sc.values[0]->0, sc.values[1]->0, value_or(sc.values[2], "default"@)))
                    } else if sc.values[2] is None {
                        Err(CliErrorView::MissingRequired("context"@))
                    } else {
                        Ok(CommandView::AgentsUnregister(sc.values[0]->0, sc.values[1]->0, sc.values[2]->0))
                    },
                },
            }
        } else if x == "key"@ {
            parse_key(t.skip(1))
        } else {
            Err(CliErrorView::InvalidSubcommand(x))
        }
    }
}

/// The command a top-level argument list (without the program name) names.
pub open spec fn parse_top(t: Seq<Seq<char>>) -> Result<CommandView, CliErrorView> {
    if t.len() == 0 {
        Err(CliErrorView::MissingSubcommand)
    } else {
        let x = t[0];
        let rest = t.skip(1);
        if help_word(x) || x == "help"@ {
            Err(CliErrorView::DisplayHelp)
        } else if x == "-V"@ || x == "--version"@ {
            Err(CliErrorView::DisplayVersion)
        } else if dashed(x) {
            Err(CliErrorView::UnknownArgument(x))
        } else if x == "init"@ || x == "destroy"@ {
            match scan_args(rest, seq!["force"@], seq![], 0) {
                Err(e) => Err(e),
                Ok(sc) => if x == "init"@ {
                    Ok(CommandView::Init(sc.flags[0]))
                } else {
                    Ok(CommandView::Destroy(sc.flags[0]))
                },
            }
        } else if x == "deploy"@ {
            match scan_args(rest, seq![], seq!["wrangler-toml"@], 0) {
                Err(e) => Err(e),
                Ok(sc) => Ok(CommandView::Deploy(sc.values[0])),
            }
        } else if x == "version"@ {
            match scan_args(rest, seq![], seq![], 0) {
                Err(e) => Err(e),
                Ok(sc) => Ok(CommandView::Version),
            }
        } else if x == "teams"@ {
            parse_teams(rest)
        } else if x == "agents"@ {
            parse_agents(rest)
        } else {
            Err(CliErrorView::InvalidSubcommand(x))
        }
    }
}

/// The command an argument list names; the first argument is the
/// program's name.
pub open spec fn parse_cli(args: Seq<Seq<char>>) -> Result<CommandView, CliErrorView> {
    if args.len() == 0 {
        parse_top(args)
    } else {
        parse_top(args.skip(1))
    }
}

fn is_help(x: &str) -> (r: bool)
    ensures
        r == (help_word(x@) || x@ == "help"@),
{
    same_text(x, "-h") || same_text(x, "--help") || same_text(x, "help")
}

fn scan_checked(args: &[&str], start: usize, flags: &[&str], opts: &[&str], max_pos: usize) -> (r: Result<Scan, CliError>)
    requires
        start <= args@.len(),
    ensures
        match r {
            Ok(s) => scan_args(texts(args@).skip(start as int), texts(flags@), texts(opts@), max_pos as nat) == Ok::<ScanView, CliErrorView>(scan_view(s))
                && s.flags@.len() == flags@.len() && s.values@.len() == opts@.len(),
            Err(e) => scan_args(texts(args@).skip(start as int), texts(flags@), texts(opts@), max_pos as nat) == Err::<ScanView, CliErrorView>(e@),
        },
{
    let r = scan(args, start, flags, opts, max_pos);
    proof {
        if r is Ok {
            lemma_scan_lengths(texts(args@).skip(start as int), 0, false, texts(flags@), texts(opts@), max_pos as nat,
                ScanView { flags: Seq::new(flags@.len(), |i: int| false), values: Seq::new(opts@.len(), |i: int| None), positionals: seq![] });
        }
    }
    r
}

proof fn lemma_scan_lengths(
    t: Seq<Seq<char>>,
    i: int,
    only_pos: bool,
    flags: Seq<Seq<char>>,
    opts: Seq<Seq<char>>,
    max_pos: nat,
    acc: ScanView,
)
    requires
        acc.flags.len() == flags.len(),
        acc.values.len() == opts.len(),
    ensures
        scan_from(t, i, only_pos, flags, opts, max_pos, acc) matches Ok(sc) ==> sc.flags.len() == flags.len() && sc.values.len()
            == opts.len(),
    decreases t.len() - i,
{
    if i >= 0 && i < t.len() {
        let x = t[i];
        let name = long_name(x);
        lemma_find_name_range(flags, name, 0);
        lemma_find_name_range(opts, name, 0);
        let f = find_name(flags, name, 0);
        let o = find_name(opts, name, 0);
        if !only_pos && x == "--"@ {
            lemma_scan_lengths(t, i + 1, true, flags, opts, max_pos, acc);
        } else if !only_pos && help_word(x) {
        } else if !only_pos && long_form(x) {
            if f >= 0 {
                lemma_scan_lengths(t, i + 1, false, flags, opts, max_pos, ScanView { flags: acc.flags.update(f, true), ..acc });
            } else if o >= 0 {
                match long_value(x) {
                    Some(v) => lemma_scan_lengths(t, i + 1, false, flags, opts, max_pos, ScanView { values: acc.values.update(o, Some(v)), ..acc }),
                    None => if i + 1 < t.len() {
                        lemma_scan_lengths(t, i + 2, false, flags, opts, max_pos, ScanView { values: acc.values.update(o, Some(t[i + 1])), ..acc });
                    },
                }
            }
        } else {
            lemma_scan_lengths(t, i + 1, only_pos, flags, opts, max_pos, ScanView { positionals: acc.positionals.push(x), ..acc });
        }
    }
}

impl Cli {
    /// Parses an argument list whose first element is the program's name.
    pub fn try_parse_from(args: &[&str]) -> (r: Result<Cli, CliError>)
        ensures
            match r {
                Ok(c) => parse_cli(texts(args@)) == Ok::<CommandView, CliErrorView>(c.command_view()),
                Err(e) => parse_cli(texts(args@)) == Err::<CommandView, CliErrorView>(e@),
            },
    {
        let ghost all = texts(args@);
        if args.len() < 2 {
            proof {
                if args@.len() == 1 {
                    assert(all.skip(1).len() == 0);
                }
            }
            return Err(CliError::MissingSubcommand);
        }
        let x = args[1];
        proof {
            assert(all.skip(1)[0] == x@);
            assert(all.skip(1).skip(1) =~= all.skip(2));
        }
        if is_help(x) {
            return Err(CliError::DisplayHelp);
        }
        if same_text(x, "-V") || same_text(x, "--version") {
            return Err(CliError::DisplayVersion);
        }
        if is_dashed(x) {
            return Err(CliError::UnknownArgument(x.to_string()));
        }
        let none: Vec<&str> = Vec::new();
        if same_text(x, "init") || same_text(x, "destroy") {
            let force = vec!["force"];
            proof {
                assert(texts(force@) =~= seq!["force"@]);
                assert(texts(none@) =~= Seq::<Seq<char>>::empty());
            }
            let sc = match scan_checked(args, 2, force.as_slice(), none.as_slice(), 0) {
                Ok(sc) => sc,
                Err(e) => { return Err(e); },
            };
            if same_text(x, "init") {
                return Ok(Cli { command: Commands::Init(InitArgs { force: sc.flags[0] }) });
            }
            return Ok(Cli { command: Commands::Destroy(DestroyArgs { force: sc.flags[0] }) });
        }
        if same_text(x, "deploy") {
            let opts = vec!["wrangler-toml"];
            proof {
                assert(texts(opts@) =~= seq!["wrangler-toml"@]);
                assert(texts(none@) =~= Seq::<Seq<char>>::empty());
            }
            let mut sc = match scan_checked(args, 2, none.as_slice(), opts.as_slice(), 0) {
                Ok(sc) => sc,
                Err(e) => { return Err(e); },
            };
            let v = take_value(&mut sc, 0);
            return Ok(Cli { command: Commands::Deploy(DeployArgs { wrangler_toml: v }) });
        }
        if same_text(x, "version") {
            proof {
                assert(texts(none@) =~= Seq::<Seq<char>>::empty());
            }
            match scan_checked(args, 2, none.as_slice(), none.as_slice(), 0) {
                Ok(_) => { return Ok(Cli { command: Commands::Version }); },
                Err(e) => { return Err(e); },
            }
        }
        if same_text(x, "teams") {
            return match parse_teams_exec(args, 2) {
                Ok(c) => Ok(Cli { command: Commands::Teams(c) }),
                Err(e) => Err(e),
            };
        }
        if same_text(x, "agents") {
            return match parse_agents_exec(args, 2) {
                Ok(c) => Ok(Cli { command: Commands::Agents(c) }),
                Err(e) => Err(e),
            };
        }
        Err(CliError::InvalidSubcommand(x.to_string()))
    }
}

fn take_value(sc: &mut Scan, k: usize) -> (v: Option<String>)
    requires
        k < old(sc).values@.len(),
    ensures
        opt_view(v) == opt_view(old(sc).values@[k as int]),
        final(sc).values@.len() == old(sc).values@.len(),
{
    let v = match &sc.values[k] {
        Some(s) => Some(s.clone()),
        None => None,
    };
    v
}

pub open spec fn teams_view(c: TeamsCommand) -> CommandView {
    match c {
        TeamsCommand::Init { team_id } => CommandView::TeamsInit(team_id@),
        TeamsCommand::Status { team_id } => CommandView::TeamsStatus(team_id@),
        TeamsCommand::Delete { team_id, force } => CommandView::TeamsDelete(team_id@, force),
    }
}

fn parse_teams_exec(args: &[&str], start: usize) -> (r: Result<TeamsCommand, CliError>)
    requires
        start <= args@.len(),
    ensures
        match r {
            Ok(c) => parse_teams(texts(args@).skip(start as int)) == Ok::<CommandView, CliErrorView>(teams_view(c)),
            Err(e) => parse_teams(texts(args@).skip(start as int)) == Err::<CommandView, CliErrorView>(e@),
        },
{
    let ghost t = texts(args@).skip(start as int);
    if start >= args.len() {
        return Err(CliError::MissingSubcommand);
    }
    let x = args[start];
    proof {
        assert(t[0] == x@);
        assert(t.skip(1) =~= texts(args@).skip(start as int + 1));
    }
    if is_help(x) {
        return Err(CliError::DisplayHelp);
    }
    if is_dashed(x) {
        return Err(CliError::UnknownArgument(x.to_string()));
    }
    let none: Vec<&str> = Vec::new();
    let is_init = same_text(x, "init");
    let is_status = same_text(x, "status");
    let is_delete = same_text(x, "delete");
    if !(is_init || is_status || is_delete) {
        return Err(CliError::InvalidSubcommand(x.to_string()));
    }
    let force = if is_delete { vec!["force"] } else { Vec::new() };
    proof {
        if is_delete {
            assert(texts(force@) =~= seq!["force"@]);
        } else {
            assert(texts(force@) =~= Seq::<Seq<char>>::empty());
        }
        assert(texts(none@) =~= Seq::<Seq<char>>::empty());
    }
    let sc = match scan_checked(args, start + 1, force.as_slice(), none.as_slice(), 1) {
        Ok(sc) => sc,
        Err(e) => { return Err(e); },
    };
    if sc.positionals.len() == 0 {
        return Err(CliError::MissingRequired(String::from_str("team_id")));
    }
    let team_id = sc.positionals[0].clone();
    if is_init {
        Ok(TeamsCommand::Init { team_id })
    } else if is_status {
        Ok(TeamsCommand::Status { team_id })
    } else {
        Ok(TeamsCommand::Delete { team_id, force: sc.flags[0] })
    }
}

pub open spec fn agents_view(c: AgentsCommand) -> CommandView {
    match c {
        AgentsCommand::Register { team, identity, context } => CommandView::AgentsRegister(team@, identity@, context@),
        AgentsCommand::Unregister { team, identity, context } => CommandView::AgentsUnregister(team@, identity@, context@),
        AgentsCommand::Key(KeyCommand::Issue { team, identity }) => CommandView::KeyIssue(team@, identity@),
        AgentsCommand::Key(KeyCommand::Revoke { team, identity }) => CommandView::KeyRevoke(team@, identity@),
    }
}

fn required(sc: &Scan, k: usize, name: &str) -> (r: Result<String, CliError>)
    requires
        k < sc.values@.len(),
    ensures
        match r {
            Ok(v) => sc.values@[k as int] matches Some(x) && v@ == x@,
            Err(e) => sc.values@[k as int] is None && e@ == CliErrorView::MissingRequired(name@),
        },
{
    match &sc.values[k] {
        Some(v) => Ok(v.clone()),
        None => Err(CliError::MissingRequired(name.to_string())),
    }
}

fn parse_agents_exec(args: &[&str], start: usize) -> (r: Result<AgentsCommand, CliError>)
    requires
        start <= args@.len(),
    ensures
        match r {
            Ok(c) => parse_agents(texts(args@).skip(start as int)) == Ok::<CommandView, CliErrorView>(agents_view(c)),
            Err(e) => parse_agents(texts(args@).skip(start as int)) == Err::<CommandView, CliErrorView>(e@),
        },
{
    let ghost t = texts(args@).skip(start as int);
    if start >= args.len() {
        return Err(CliError::MissingSubcommand);
    }
    let x = args[start];
    proof {
        assert(t[0] == x@);
        assert(t.skip(1) =~= texts(args@).skip(start as int + 1));
    }
    if is_help(x) {
        return Err(CliError::DisplayHelp);
    }
    if is_dashed(x) {
        return Err(CliError::UnknownArgument(x.to_string()));
    }
    let none: Vec<&str> = Vec::new();
    let is_register = same_text(x, "register");
    if is_register || same_text(x, "unregister") {
        let opts = vec!["team", "identity", "context"];
        proof {
            assert(texts(opts@) =~= agent_opts());
            assert(texts(none@) =~= Seq::<Seq<char>>::empty());
        }
        let sc = match scan_checked(args, start + 1, none.as_slice(), opts.as_slice(), 0) {
            Ok(sc) => sc,
            Err(e) => { return Err(e); },
        };
        let team = match required(&sc, 0, "team") {
            Ok(v) => v,
            Err(e) => { return Err(e); },
        };
        let identity = match required(&sc, 1, "identity") {
            Ok(v) => v,
            Err(e) => { return Err(e); },
        };
        if is_register {
            let context = match &sc.values[2] {
                Some(c) => c.clone(),
                None => String::from_str("default"),
            };
            return Ok(AgentsCommand::Register { team, identity, context });
        }
        let context = match required(&sc, 2, "context") {
            Ok(v) => v,
            Err(e) => { return Err(e); },
        };
        return Ok(AgentsCommand::Unregister { team, identity, context });
    }
    if same_text(x, "key") {
        return match parse_key_exec(args, start + 1) {
            Ok(k) => Ok(AgentsCommand::Key(k)),
            Err(e) => Err(e),
        };
    }
    Err(CliError::InvalidSubcommand(x.to_string()))
}

pub open spec fn key_view(c: KeyCommand) -> CommandView {
    match c {
        KeyCommand::Issue { team, identity } => CommandView::KeyIssue(team@, identity@),
        KeyCommand::Revoke { team, identity } => CommandView::KeyRevoke(team@, identity@),
    }
}

fn parse_key_exec(args: &[&str], start: usize) -> (r: Result<KeyCommand, CliError>)
    requires
        start <= args@.len(),
    ensures
        match r {
            Ok(c) => parse_key(texts(args@).skip(start as int)) == Ok::<CommandView, CliErrorView>(key_view(c)),
            Err(e) => parse_key(texts(args@).skip(start as int)) == Err::<CommandView, CliErrorView>(e@),
        },
{
    let ghost t = texts(args@).skip(start as int);
    if start >= args.len() {
        return Err(CliError::MissingSubcommand);
    }
    let x = args[start];
    proof {
        assert(t[0] == x@);
        assert(t.skip(1) =~= texts(args@).skip(start as int + 1));
    }
    if is_help(x) {
        return Err(CliError::DisplayHelp);
    }
    if is_dashed(x) {
        return Err(CliError::UnknownArgument(x.to_string()));
    }
    let none: Vec<&str> = Vec::new();
    let is_issue = same_text(x, "issue");
    if !(is_issue || same_text(x, "revoke")) {
        return Err(CliError::InvalidSubcommand(x.to_string()));
    }
    let opts = vec!["team", "identity"];
    proof {
        assert(texts(opts@) =~= key_opts());
        assert(texts(none@) =~= Seq::<Seq<char>>::empty());
    }
    let sc = match scan_checked(args, start + 1, none.as_slice(), opts.as_slice(), 0) {
        Ok(sc) => sc,
        Err(e) => { return Err(e); },
    };
    let team = match required(&sc, 0, "team") {
        Ok(v) => v,
        Err(e) => { return Err(e); },
    };
    let identity = match required(&sc, 1, "identity") {
        Ok(v) => v,
        Err(e) => { return Err(e); },
    };
    if is_issue {
        Ok(KeyCommand::Issue { team, identity })
    } else {
        Ok(KeyCommand::Revoke { team, identity })
    }
}

/// `--force` appears in `t` at or after position `i`, before any `--`
/// that ends the options.
pub open spec fn force_given(t: Seq<Seq<char>>, i: int) -> bool {
    exists|k: int| i <= k < t.len() && #[trigger] t[k] == "--force"@ && forall|j: int| i <= j < k ==> #[trigger] t[j] != "--"@
}

proof fn lemma_force_given_step(t: Seq<Seq<char>>, i: int)
    requires
        0 <= i < t.len(),
        t[i] != "--"@,
        t[i] != "--force"@,
    ensures
        force_given(t, i) == force_given(t, i + 1),
{
    if force_given(t, i) {
        let k = choose|k: int| i <= k < t.len() && #[trigger] t[k] == "--force"@ && forall|j: int| i <= j < k ==> #[trigger] t[j] != "--"@;
        assert(k != i);
        assert(forall|j: int| i + 1 <= j < k ==> #[trigger] t[j] != "--"@);
    }
    if force_given(t, i + 1) {
        let k = choose|k: int| i + 1 <= k < t.len() && #[trigger] t[k] == "--force"@ && forall|j: int| i + 1 <= j < k ==> #[trigger] t[j] != "--"@;
        assert forall|j: int| i <= j < k implies #[trigger] t[j] != "--"@ by {
            if j > i {
                assert(i + 1 <= j < k);
            }
        }
    }
}

proof fn lemma_force_given_shift(t: Seq<Seq<char>>, n: int)
    requires
        0 <= n <= t.len(),
    ensures
        force_given(t.skip(n), 0) == force_given(t, n),
{
    let r = t.skip(n);
    if force_given(r, 0) {
        let k = choose|k: int| 0 <= k < r.len() && #[trigger] r[k] == "--force"@ && forall|j: int| 0 <= j < k ==> #[trigger] r[j] != "--"@;
        assert(t[n + k] == r[k]);
        assert forall|j: int| n <= j < n + k implies #[trigger] t[j] != "--"@ by {
            assert(t[j] == r[j - n]);
        }
    }
    if force_given(t, n) {
        let k = choose|k: int| n <= k < t.len() && #[trigger] t[k] == "--force"@ && forall|j: int| n <= j < k ==> #[trigger] t[j] != "--"@;
        assert(r[k - n] == t[k]);
        assert forall|j: int| 0 <= j < k - n implies #[trigger] r[j] != "--"@ by {
            assert(r[j] == t[n + j]);
        }
    }
}

/// Scanning with the single flag `--force` and no valued options sets the
/// flag exactly when it was set before or `--force` appears among the
/// remaining options.
proof fn lemma_scan_force(t: Seq<Seq<char>>, i: int, only_pos: bool, max_pos: nat, acc: ScanView)
    requires
        0 <= i,
        acc.flags.len() == 1,
        scan_from(t, i, only_pos, seq!["force"@], seq![], max_pos, acc) is Ok,
    ensures
        scan_from(t, i, only_pos, seq!["force"@], seq![], max_pos, acc) matches Ok(sc)
            && sc.flags.len() == 1 && sc.flags[0] == (acc.flags[0] || (!only_pos && force_given(t, i))),
    decreases t.len() - i,
{
    reveal_strlit("--");
    reveal_strlit("--force");
    reveal_strlit("force");
    let flags: Seq<Seq<char>> = seq!["force"@];
    let opts: Seq<Seq<char>> = seq![];
    if i >= t.len() {
        assert(!force_given(t, i));
    } else {
        let x = t[i];
        if !only_pos && x == "--"@ {
            lemma_scan_force(t, i + 1, true, max_pos, acc);
            if force_given(t, i) {
                let k = choose|k: int| i <= k < t.len() && #[trigger] t[k] == "--force"@ && forall|j: int| i <= j < k ==> #[trigger] t[j] != "--"@;
                if k == i {
                    assert(x.len() == 2);
                } else {
                    assert(t[i] != "--"@);
                }
            }
        } else if !only_pos && help_word(x) {
        } else if !only_pos && long_form(x) {
            let name = long_name(x);
            assert(find_name(flags, name, 1) == -1);
            assert(find_name(opts, name, 0) == -1);
            if name == "force"@ {
                assert(find_name(flags, name, 0) == 0);
                let acc2 = ScanView { flags: acc.flags.update(0, true), ..acc };
                lemma_scan_force(t, i + 1, false, max_pos, acc2);
                assert(find_eq(x, 2) < 0);
                assert(x.skip(2) == name);
                assert(x =~= "--force"@) by {
                    assert("force"@.len() == 5);
                    assert(x.skip(2).len() == x.len() - 2);
                    assert(x.len() == 7);
                    assert forall|m: int| 0 <= m < 7 implies x[m] == "--force"@[m] by {
                        if m >= 2 {
                            assert(x[m] == x.skip(2)[m - 2]);
                        }
                    }
                }
                assert(force_given(t, i)) by {
                    assert(t[i] == "--force"@);
                    assert(forall|j: int| i <= j < i ==> #[trigger] t[j] != "--"@);
                }
            } else {
                assert(find_name(flags, name, 0) == -1);
            }
        } else if !only_pos && dashed(x) {
        } else if acc.positionals.len() >= max_pos {
        } else {
            let acc2 = ScanView { positionals: acc.positionals.push(x), ..acc };
            lemma_scan_force(t, i + 1, only_pos, max_pos, acc2);
            if !only_pos {
                assert(x != "--force"@) by {
                    if x == "--force"@ {
                        assert(long_form(x));
                    }
                }
                lemma_force_given_step(t, i);
            }
        }
    }
}

/// `tally init` overwrites an existing identity only when asked: the
/// parsed `force` is true exactly when `--force` is given among its
/// options. `tally init` alone parses with `force` false.
pub proof fn lemma_init_force(args: Seq<Seq<char>>, force: bool)
    requires
        parse_cli(args) == Ok::<CommandView, CliErrorView>(CommandView::Init(force)),
    ensures
        args.len() >= 2,
        args[1] == "init"@,
        force == force_given(args, 2),
{
    reveal_strlit("init");
    reveal_strlit("destroy");
    let t = args.skip(1);
    assert(args.len() >= 1);
    assert(t.len() >= 1);
    let rest = t.skip(1);
    assert(t[0] == "init"@);
    assert(rest =~= args.skip(2));
    let acc = ScanView { flags: Seq::new(1, |i: int| false), values: Seq::new(0, |i: int| None), positionals: seq![] };
    assert(seq!["force"@].len() == 1);
    assert(scan_args(rest, seq!["force"@], seq![], 0) == scan_from(rest, 0, false, seq!["force"@], seq![], 0, acc));
    lemma_scan_force(rest, 0, false, 0, acc);
    lemma_force_given_shift(args, 2);
}

/// `tally teams delete` skips its confirmation only when asked: the parsed
/// `force` is true exactly when `--force` is given among its options.
pub proof fn lemma_teams_delete_force(args: Seq<Seq<char>>, team_id: Seq<char>, force: bool)
    requires
        parse_cli(args) == Ok::<CommandView, CliErrorView>(CommandView::TeamsDelete(team_id, force)),
    ensures
        args.len() >= 3,
        args[1] == "teams"@,
        args[2] == "delete"@,
        force == force_given(args, 3),
{
    reveal_strlit("teams");
    reveal_strlit("delete");
    reveal_strlit("init");
    reveal_strlit("status");
    let t = args.skip(1);
    assert(args.len() >= 1);
    assert(t.len() >= 1);
    assert(t[0] == "teams"@);
    let u = t.skip(1);
    assert(u.len() >= 1);
    assert(u[0] == "delete"@);
    let rest = u.skip(1);
    assert(rest =~= args.skip(3));
    let acc = ScanView { flags: Seq::new(1, |i: int| false), values: Seq::new(0, |i: int| None), positionals: seq![] };
    assert(scan_args(rest, seq!["force"@], seq![], 1) == scan_from(rest, 0, false, seq!["force"@], seq![], 1, acc));
    lemma_scan_force(rest, 0, false, 1, acc);
    lemma_force_given_shift(args, 3);
}

} // verus!
