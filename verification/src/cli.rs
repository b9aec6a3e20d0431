//! The command line: what arguments mean, what they ask for, and with which
//! code the process exits.

use vstd::prelude::*;

use crate::error_maps::{ascii_needle_of, bare, collapsed, single_blanks};
use crate::exec::{launched, Launch};
use crate::number::{decimal, law_unsigned_roundtrip, parse_unsigned, parsed_unsigned};
use crate::probe::is_listed;
use crate::recipe::{
    law_first_runner_wins, runners, toolchain_of, EntryView, Recipe, RecipeView,
};
use crate::session::{
    finished_view, law_status_says_how_the_run_ended, SessionState, SessionView,
};
use crate::spec::{
    copy_pairs, law_shell_name_roundtrip, pair_texts, shell_name, shell_named, shell_of_path,
    ExecKind, ExecResult, ExecSpec, ResultView, Shell,
};
use crate::taxonomy::{ascii_class_with, law_project_pattern_is_reported};
use crate::text::{
    chars_of, copy_text, has_text, join, join_texts, law_join_of_lists, lower_ascii, opt_text,
    same_text, split_words, text_of, texts, words,
};
use crate::textmap::{deep, text_lt, TextMap};
use crate::transport::{default_target, SshTarget, TargetView};
use crate::winrm::{auth_named, WinrmAuth, WinrmTarget, HTTPS_PORT, HTTP_PORT};

verus! {

broadcast use vstd::seq::group_seq_axioms;

// ---------------------------------------------------------------------------
// The subcommand
// ---------------------------------------------------------------------------

/// What the first arguments ask for.
pub enum Command {
    Help,
    Version,
    /// No argument at all.
    Nothing,
    Run,
    Script,
    Probe,
    Ssh,
    Winrm,
    Recipe,
    Bg,
    /// The detached runner, with its session directory.
    Runner(Option<String>),
    Mcp,
    Acp,
    Unknown(String),
}

/// The view of a command.
pub enum CommandView {
    Help,
    Version,
    Nothing,
    Run,
    Script,
    Probe,
    Ssh,
    Winrm,
    Recipe,
    Bg,
    Runner(Option<Seq<char>>),
    Mcp,
    Acp,
    Unknown(Seq<char>),
}

impl View for Command {
    type V = CommandView;

    open spec fn view(&self) -> CommandView {
        match self {
            Command::Help => CommandView::Help,
            Command::Version => CommandView::Version,
            Command::Nothing => CommandView::Nothing,
            Command::Run => CommandView::Run,
            Command::Script => CommandView::Script,
            Command::Probe => CommandView::Probe,
            Command::Ssh => CommandView::Ssh,
            Command::Winrm => CommandView::Winrm,
            Command::Recipe => CommandView::Recipe,
            Command::Bg => CommandView::Bg,
            Command::Runner(d) => CommandView::Runner(opt_text(*d)),
            Command::Mcp => CommandView::Mcp,
            Command::Acp => CommandView::Acp,
            Command::Unknown(s) => CommandView::Unknown(s@),
        }
    }
}

/// What the arguments of the process ask for. A request for help or for the
/// version counts wherever it stands.
pub open spec fn command_of(args: Seq<Seq<char>>) -> CommandView {
    if args.contains("--help"@) || args.contains("-h"@) {
        CommandView::Help
    } else if args.contains("--version"@) || args.contains("-V"@) {
        CommandView::Version
    } else if args.len() == 0 {
        CommandView::Nothing
    } else if args[0] == "run"@ {
        CommandView::Run
    } else if args[0] == "script"@ {
        CommandView::Script
    } else if args[0] == "probe"@ {
        CommandView::Probe
    } else if args[0] == "ssh"@ {
        CommandView::Ssh
    } else if args[0] == "winrm"@ {
        CommandView::Winrm
    } else if args[0] == "recipe"@ {
        CommandView::Recipe
    } else if args[0] == "bg"@ {
        CommandView::Bg
    } else if args[0] == "__bg-runner"@ {
        CommandView::Runner(
            if args.len() > 1 {
                Some(args[1])
            } else {
                None
            },
        )
    } else if args[0] == "mcp"@ {
        CommandView::Mcp
    } else if args[0] == "acp"@ {
        CommandView::Acp
    } else {
        CommandView::Unknown(args[0])
    }
}

/// Decide what the arguments of the process ask for.
pub fn select(args: &Vec<String>) -> (r: Command)
    ensures
        r@ == command_of(texts(args@)),
{
    if is_listed(args, "--help") || is_listed(args, "-h") {
        return Command::Help;
    }
    if is_listed(args, "--version") || is_listed(args, "-V") {
        return Command::Version;
    }
    if args.len() == 0 {
        return Command::Nothing;
    }
    let ghost all = texts(args@);
    proof {
        assert(all[0] == args@[0]@);
    }
    let sub = args[0].as_str();
    if same_text(sub, "run") {
        Command::Run
    } else if same_text(sub, "script") {
        Command::Script
    } else if same_text(sub, "probe") {
        Command::Probe
    } else if same_text(sub, "ssh") {
        Command::Ssh
    } else if same_text(sub, "winrm") {
        Command::Winrm
    } else if same_text(sub, "recipe") {
        Command::Recipe
    } else if same_text(sub, "bg") {
        Command::Bg
    } else if same_text(sub, "__bg-runner") {
        if args.len() > 1 {
            proof {
                assert(all[1] == args@[1]@);
            }
            Command::Runner(Some(args[1].clone()))
        } else {
            Command::Runner(None)
        }
    } else if same_text(sub, "mcp") {
        Command::Mcp
    } else if same_text(sub, "acp") {
        Command::Acp
    } else {
        Command::Unknown(args[0].clone())
    }
}

/// A request for help counts wherever it stands, and one for the version wherever
/// nobody asks for help.
pub proof fn law_help_counts_everywhere(args: Seq<Seq<char>>, i: int)
    requires
        0 <= i < args.len(),
    ensures
        args[i] == "--help"@ || args[i] == "-h"@ ==> command_of(args) is Help,
        (args[i] == "--version"@ || args[i] == "-V"@) && !args.contains("--help"@)
            && !args.contains("-h"@) ==> command_of(args) is Version,
{
    assert(args.contains(args[i]));
}

/// Every subcommand is known by its own word, the first, and by no other; the
/// runner takes its directory along.
pub proof fn law_subcommands_have_their_words(args: Seq<Seq<char>>)
    requires
        !args.contains("--help"@),
        !args.contains("-h"@),
        !args.contains("--version"@),
        !args.contains("-V"@),
    ensures
        command_of(args) is Nothing <==> args.len() == 0,
        args.len() > 0 ==> {
            &&& command_of(args) is Run <==> args[0] == "run"@
            &&& command_of(args) is Script <==> args[0] == "script"@
            &&& command_of(args) is Probe <==> args[0] == "probe"@
            &&& command_of(args) is Ssh <==> args[0] == "ssh"@
            &&& command_of(args) is Winrm <==> args[0] == "winrm"@
            &&& command_of(args) is Recipe <==> args[0] == "recipe"@
            &&& command_of(args) is Bg <==> args[0] == "bg"@
            &&& command_of(args) is Mcp <==> args[0] == "mcp"@
            &&& command_of(args) is Acp <==> args[0] == "acp"@
            &&& command_of(args) is Runner <==> args[0] == "__bg-runner"@
        },
        args.len() > 1 && args[0] == "__bg-runner"@ ==> command_of(args) == CommandView::Runner(
            Some(args[1]),
        ),
        command_of(args) matches CommandView::Unknown(word) ==> word == args[0],
{
    reveal_strlit("run");
    reveal_strlit("script");
    reveal_strlit("probe");
    reveal_strlit("ssh");
    reveal_strlit("winrm");
    reveal_strlit("recipe");
    reveal_strlit("bg");
    reveal_strlit("__bg-runner");
    reveal_strlit("mcp");
    reveal_strlit("acp");
    assert("run"@[0] == 'r' && "script"@[0] == 's' && "probe"@[0] == 'p' && "ssh"@[0] == 's');
    assert("winrm"@[0] == 'w' && "recipe"@[0] == 'r' && "bg"@[0] == 'b' && "mcp"@[0] == 'm');
    assert("acp"@[0] == 'a' && "__bg-runner"@[0] == '_');
    assert("run"@.len() == 3 && "recipe"@.len() == 6 && "script"@.len() == 6 && "ssh"@.len() == 3);
}

// ---------------------------------------------------------------------------
// Flags
// ---------------------------------------------------------------------------

/// The options of a command.
pub struct CliOpts {
    pub timeout_sec: Option<u64>,
    pub shell: Option<Shell>,
    pub workdir: Option<String>,
    pub env: Vec<(String, String)>,
    pub toolchain: Option<String>,
    pub label: Option<String>,
    pub tail_bytes: Option<usize>,
    pub json: bool,
    pub pretty: bool,
    pub user: Option<String>,
    pub port: Option<u16>,
    pub identity: Option<String>,
}

/// The view of options.
#[verifier::ext_equal]
pub struct OptsView {
    pub timeout_sec: Option<u64>,
    pub shell: Option<Shell>,
    pub workdir: Option<Seq<char>>,
    pub env: Seq<(Seq<char>, Seq<char>)>,
    pub toolchain: Option<Seq<char>>,
    pub label: Option<Seq<char>>,
    pub tail_bytes: Option<usize>,
    pub json: bool,
    pub pretty: bool,
    pub user: Option<Seq<char>>,
    pub port: Option<u16>,
    pub identity: Option<Seq<char>>,
}

impl View for CliOpts {
    type V = OptsView;

    open spec fn view(&self) -> OptsView {
        OptsView {
            timeout_sec: self.timeout_sec,
            shell: self.shell,
            workdir: opt_text(self.workdir),
            env: pair_texts(self.env@),
            toolchain: opt_text(self.toolchain),
            label: opt_text(self.label),
            tail_bytes: self.tail_bytes,
            json: self.json,
            pretty: self.pretty,
            user: opt_text(self.user),
            port: self.port,
            identity: opt_text(self.identity),
        }
    }
}

/// No option at all.
pub open spec fn no_opts() -> OptsView {
    OptsView {
        timeout_sec: None,
        shell: None,
        workdir: None,
        env: seq![],
        toolchain: None,
        label: None,
        tail_bytes: None,
        json: false,
        pretty: false,
        user: None,
        port: None,
        identity: None,
    }
}

impl Default for CliOpts {
    fn default() -> (r: Self)
        ensures
            r@ == no_opts(),
    {
        let r = CliOpts {
            timeout_sec: None,
            shell: None,
            workdir: None,
            env: Vec::new(),
            toolchain: None,
            label: None,
            tail_bytes: None,
            json: false,
            pretty: false,
            user: None,
            port: None,
            identity: None,
        };
        proof {
            assert(pair_texts(r.env@) =~= Seq::<(Seq<char>, Seq<char>)>::empty());
        }
        r
    }
}

/// What is said where a flag that takes a value stands last; `None` of an
/// argument that takes none.
pub open spec fn value_missing(flag: Seq<char>) -> Option<Seq<char>> {
    if flag == "--timeout"@ {
        Some("--timeout needs a value"@)
    } else if flag == "--shell"@ {
        Some("--shell needs a value"@)
    } else if flag == "--workdir"@ {
        Some("--workdir needs a value"@)
    } else if flag == "--env"@ {
        Some("--env needs K=V"@)
    } else if flag == "--toolchain"@ {
        Some("--toolchain needs a value"@)
    } else if flag == "--user"@ {
        Some("--user needs a value"@)
    } else if flag == "--port"@ {
        Some("--port needs a value"@)
    } else if flag == "--identity"@ || flag == "--identity-file"@ {
        Some("--identity needs a path"@)
    } else if flag == "--label"@ {
        Some("--label needs a value"@)
    } else if flag == "--tail"@ {
        Some("--tail needs a value"@)
    } else {
        None
    }
}

/// How many characters stand before the first `=`.
pub open spec fn key_len(s: Seq<char>) -> nat
    decreases s.len(),
{
    if s.len() == 0 || s[0] == '=' {
        0
    } else {
        1 + key_len(s.drop_first())
    }
}

/// Options with the value of one flag in place, or what is wrong with it.
pub open spec fn with_value(o: OptsView, flag: Seq<char>, v: Seq<char>) -> Result<
    OptsView,
    Seq<char>,
> {
    if flag == "--timeout"@ {
        match parsed_unsigned(v, u64::MAX as int) {
            Some(n) => Ok(OptsView { timeout_sec: Some(n as u64), ..o }),
            None => Err("invalid --timeout (integer seconds)"@),
        }
    } else if flag == "--shell"@ {
        match shell_named(lower_ascii(v)) {
            Some(s) => Ok(OptsView { shell: Some(s), ..o }),
            None => Err("unknown shell `"@ + v + "`"@),
        }
    } else if flag == "--workdir"@ {
        Ok(OptsView { workdir: Some(v), ..o })
    } else if flag == "--env"@ {
        let k = key_len(v) as int;
        if k < v.len() {
            Ok(OptsView { env: o.env.push((v.take(k), v.skip(k + 1))), ..o })
        } else {
            Err("--env must be K=V"@)
        }
    } else if flag == "--toolchain"@ {
        Ok(OptsView { toolchain: Some(v), ..o })
    } else if flag == "--user"@ {
        Ok(OptsView { user: Some(v), ..o })
    } else if flag == "--port"@ {
        match parsed_unsigned(v, u16::MAX as int) {
            Some(n) => Ok(OptsView { port: Some(n as u16), ..o }),
            None => Err("invalid --port (integer)"@),
        }
    } else if flag == "--identity"@ || flag == "--identity-file"@ {
        Ok(OptsView { identity: Some(v), ..o })
    } else if flag == "--label"@ {
        Ok(OptsView { label: Some(v), ..o })
    } else {
        match parsed_unsigned(v, usize::MAX as int) {
            Some(n) => Ok(OptsView { tail_bytes: Some(n as usize), ..o }),
            None => Err("invalid --tail (byte count)"@),
        }
    }
}

/// What arguments mean: the options that flags leave, and everything else in
/// order, or what is wrong with the first flag that is wrong.
pub open spec fn flags_of(
    args: Seq<Seq<char>>,
    o: OptsView,
    positional: Seq<Seq<char>>,
) -> (OptsView, Result<Seq<Seq<char>>, Seq<char>>)
    decreases args.len(),
{
    if args.len() == 0 {
        (o, Ok(positional))
    } else if args[0] == "--json"@ {
        flags_of(args.skip(1), OptsView { json: true, ..o }, positional)
    } else if args[0] == "--pretty"@ {
        flags_of(args.skip(1), OptsView { json: true, pretty: true, ..o }, positional)
    } else {
        match value_missing(args[0]) {
            None => flags_of(args.skip(1), o, positional.push(args[0])),
            Some(missing) => if args.len() < 2 {
                (o, Err(missing))
            } else {
                match with_value(o, args[0], args[1]) {
                    Ok(next) => flags_of(args.skip(2), next, positional),
                    Err(e) => (o, Err(e)),
                }
            },
        }
    }
}

fn value_message(flag: &str) -> (r: Option<&'static str>)
    ensures
        match r {
            Some(m) => value_missing(flag@) == Some(m@),
            None => value_missing(flag@) is None,
        },
{
    if same_text(flag, "--timeout") {
        Some("--timeout needs a value")
    } else if same_text(flag, "--shell") {
        Some("--shell needs a value")
    } else if same_text(flag, "--workdir") {
        Some("--workdir needs a value")
    } else if same_text(flag, "--env") {
        Some("--env needs K=V")
    } else if same_text(flag, "--toolchain") {
        Some("--toolchain needs a value")
    } else if same_text(flag, "--user") {
        Some("--user needs a value")
    } else if same_text(flag, "--port") {
        Some("--port needs a value")
    } else if same_text(flag, "--identity") || same_text(flag, "--identity-file") {
        Some("--identity needs a path")
    } else if same_text(flag, "--label") {
        Some("--label needs a value")
    } else if same_text(flag, "--tail") {
        Some("--tail needs a value")
    } else {
        None
    }
}

/// The two sides of the first `=`.
fn split_pair(v: &str) -> (r: Option<(String, String)>)
    ensures
        ({
            let k = key_len(v@) as int;
            match r {
                Some(p) => k < v@.len() && p.0@ == v@.take(k) && p.1@ == v@.skip(k + 1),
                None => k >= v@.len(),
            }
        }),
{
    let c = chars_of(v);
    let mut k: usize = 0;
    proof {
        assert(c@.skip(0) =~= c@);
    }
    while k < c.len() && c[k] != '='
        invariant
            k <= c.len(),
            c@ == v@,
            key_len(v@) == k + key_len(c@.skip(k as int)),
        decreases c.len() - k,
    {
        proof {
            assert(c@.skip(k as int)[0] == c@[k as int]);
            assert(c@.skip(k as int).drop_first() =~= c@.skip(k + 1));
        }
        k += 1;
    }
    if k == c.len() {
        return None;
    }
    proof {
        assert(c@.skip(k as int)[0] == c@[k as int]);
    }
    let key = text_of(&c, 0, k);
    let value = text_of(&c, k + 1, c.len());
    proof {
        assert(key@ =~= v@.take(k as int));
        assert(value@ =~= v@.skip(k + 1));
    }
    Some((key, value))
}

fn set_value(o: &mut CliOpts, flag: &str, v: &str) -> (r: Result<(), String>)
    requires
        value_missing(flag@) is Some,
    ensures
        match r {
            Ok(_) => with_value(old(o)@, flag@, v@) == Ok::<OptsView, Seq<char>>(final(o)@),
            Err(e) => with_value(old(o)@, flag@, v@) == Err::<OptsView, Seq<char>>(e@)
                && final(o)@ == old(o)@,
        },
{
    if same_text(flag, "--timeout") {
        match parse_unsigned(v, u64::MAX) {
            Some(n) => {
                o.timeout_sec = Some(n);
            },
            None => {
                return Err("invalid --timeout (integer seconds)".to_string());
            },
        }
    } else if same_text(flag, "--shell") {
        match Shell::from_name(v) {
            Some(s) => {
                o.shell = Some(s);
            },
            None => {
                let mut e = "unknown shell `".to_string();
                e.append(v);
                e.append("`");
                return Err(e);
            },
        }
    } else if same_text(flag, "--workdir") {
        o.workdir = Some(v.to_string());
    } else if same_text(flag, "--env") {
        match split_pair(v) {
            Some(p) => {
                proof {
                    assert(pair_texts(o.env@.push(p)) =~= pair_texts(o.env@).push((p.0@, p.1@)));
                }
                o.env.push(p);
            },
            None => {
                return Err("--env must be K=V".to_string());
            },
        }
    } else if same_text(flag, "--toolchain") {
        o.toolchain = Some(v.to_string());
    } else if same_text(flag, "--user") {
        o.user = Some(v.to_string());
    } else if same_text(flag, "--port") {
        match parse_unsigned(v, 65_535) {
            Some(n) => {
                o.port = Some(n as u16);
            },
            None => {
                return Err("invalid --port (integer)".to_string());
            },
        }
    } else if same_text(flag, "--identity") || same_text(flag, "--identity-file") {
        o.identity = Some(v.to_string());
    } else if same_text(flag, "--label") {
        o.label = Some(v.to_string());
    } else {
        match parse_unsigned(v, usize::MAX as u64) {
            Some(n) => {
                o.tail_bytes = Some(n as usize);
            },
            None => {
                return Err("invalid --tail (byte count)".to_string());
            },
        }
    }
    Ok(())
}

/// The view of what is left of arguments, or of what is wrong.
pub open spec fn rest_view(r: Result<Vec<String>, String>) -> Result<Seq<Seq<char>>, Seq<char>> {
    match r {
        Ok(p) => Ok(texts(p@)),
        Err(e) => Err(e@),
    }
}

/// Read flags with their values into `opts`; other arguments come back in
/// order. Where a flag is wrong, `opts` holds what the flags before it said.
pub fn parse_flags(args: &Vec<String>, opts: &mut CliOpts) -> (r: Result<Vec<String>, String>)
    ensures
        (final(opts)@, rest_view(r)) == flags_of(texts(args@), old(opts)@, seq![]),
{
    let ghost all = texts(args@);
    let ghost meaning = flags_of(all, opts@, seq![]);
    let mut positional: Vec<String> = Vec::new();
    let mut i: usize = 0;
    proof {
        assert(all.skip(0) =~= all);
        assert(texts(positional@) =~= Seq::<Seq<char>>::empty());
    }
    while i < args.len()
        invariant
            i <= args.len(),
            all == texts(args@),
            meaning == flags_of(all, old(opts)@, seq![]),
            meaning == flags_of(all.skip(i as int), opts@, texts(positional@)),
        decreases args.len() - i,
    {
        let a = args[i].as_str();
        let ghost rest = all.skip(i as int);
        let ghost before = opts@;
        proof {
            assert(rest[0] == a@);
            assert(rest.skip(1) =~= all.skip(i + 1));
        }
        if same_text(a, "--json") {
            opts.json = true;
            proof {
                assert(opts@ =~= OptsView { json: true, ..before });
            }
            i += 1;
        } else if same_text(a, "--pretty") {
            opts.json = true;
            opts.pretty = true;
            proof {
                assert(opts@ =~= OptsView { json: true, pretty: true, ..before });
            }
            i += 1;
        } else {
            match value_message(a) {
                None => {
                    let p = args[i].clone();
                    proof {
                        assert(texts(positional@.push(p)) =~= texts(positional@).push(p@));
                    }
                    positional.push(p);
                    i += 1;
                },
                Some(missing) => {
                    if i + 1 == args.len() {
                        return Err(missing.to_string());
                    }
                    proof {
                        assert(rest[1] == args@[i + 1]@);
                        assert(rest.skip(2) =~= all.skip(i + 2));
                    }
                    match set_value(opts, a, args[i + 1].as_str()) {
                        Ok(_) => {},
                        Err(e) => {
                            return Err(e);
                        },
                    }
                    i += 2;
                },
            }
        }
    }
    proof {
        assert(all.skip(i as int) =~= Seq::<Seq<char>>::empty());
    }
    Ok(positional)
}

/// Where arguments end without anything wrong, what follows them is read as if
/// they had been read on their own.
proof fn lemma_flags_go_on(
    a: Seq<Seq<char>>,
    b: Seq<Seq<char>>,
    o: OptsView,
    positional: Seq<Seq<char>>,
)
    ensures
        flags_of(a, o, positional).1 matches Ok(p) ==> flags_of(a + b, o, positional) == flags_of(
            b,
            flags_of(a, o, positional).0,
            p,
        ),
    decreases a.len(),
{
    let all = a + b;
    if a.len() == 0 {
        assert(all =~= b);
    } else {
        assert(all[0] == a[0]);
        assert(all.skip(1) =~= a.skip(1) + b);
        if a[0] == "--json"@ {
            lemma_flags_go_on(a.skip(1), b, OptsView { json: true, ..o }, positional);
        } else if a[0] == "--pretty"@ {
            lemma_flags_go_on(a.skip(1), b, OptsView { json: true, pretty: true, ..o }, positional);
        } else if value_missing(a[0]) is None {
            lemma_flags_go_on(a.skip(1), b, o, positional.push(a[0]));
        } else if a.len() >= 2 {
            assert(all[1] == a[1]);
            assert(all.skip(2) =~= a.skip(2) + b);
            if let Ok(next) = with_value(o, a[0], a[1]) {
                lemma_flags_go_on(a.skip(2), b, next, positional);
            }
        }
    }
}

/// Arguments that are already there come first, and change nothing else.
proof fn lemma_flags_keep_order(
    args: Seq<Seq<char>>,
    o: OptsView,
    first: Seq<Seq<char>>,
    p: Seq<Seq<char>>,
)
    ensures
        flags_of(args, o, first + p) == (
            flags_of(args, o, p).0,
            match flags_of(args, o, p).1 {
                Ok(q) => Ok(first + q),
                Err(e) => Err(e),
            },
        ),
    decreases args.len(),
{
    if args.len() > 0 {
        if args[0] == "--json"@ {
            lemma_flags_keep_order(args.skip(1), OptsView { json: true, ..o }, first, p);
        } else if args[0] == "--pretty"@ {
            lemma_flags_keep_order(
                args.skip(1),
                OptsView { json: true, pretty: true, ..o },
                first,
                p,
            );
        } else if value_missing(args[0]) is None {
            assert((first + p).push(args[0]) =~= first + p.push(args[0]));
            lemma_flags_keep_order(args.skip(1), o, first, p.push(args[0]));
        } else if args.len() >= 2 {
            if let Ok(next) = with_value(o, args[0], args[1]) {
                lemma_flags_keep_order(args.skip(2), next, first, p);
            }
        }
    }
}

/// Reading one list of arguments and then another is reading both in a row: the
/// options go on where they stood, and what is no flag keeps its order. So the
/// last of a repeated flag counts, and environment overrides add up.
pub proof fn law_flags_in_a_row(a: Seq<Seq<char>>, b: Seq<Seq<char>>, o: OptsView)
    ensures
        flags_of(a, o, seq![]).1 matches Ok(p) ==> {
            let then = flags_of(b, flags_of(a, o, seq![]).0, seq![]);
            flags_of(a + b, o, seq![]) == (
                then.0,
                match then.1 {
                    Ok(q) => Ok(p + q),
                    Err(e) => Err(e),
                },
            )
        },
{
    lemma_flags_go_on(a, b, o, seq![]);
    if let Ok(p) = flags_of(a, o, seq![]).1 {
        assert(p + Seq::<Seq<char>>::empty() =~= p);
        lemma_flags_keep_order(b, flags_of(a, o, seq![]).0, p, seq![]);
    }
}

/// The flags differ in their length or in their third character.
proof fn lemma_flags_differ()
    ensures
        "--json"@.len() == 6 && "--json"@[2] == 'j',
        "--pretty"@.len() == 8 && "--pretty"@[2] == 'p',
        "--timeout"@.len() == 9 && "--timeout"@[2] == 't',
        "--shell"@.len() == 7 && "--shell"@[2] == 's',
        "--workdir"@.len() == 9 && "--workdir"@[2] == 'w',
        "--env"@.len() == 5 && "--env"@[2] == 'e',
        "--toolchain"@.len() == 11 && "--toolchain"@[2] == 't',
        "--user"@.len() == 6 && "--user"@[2] == 'u',
        "--port"@.len() == 6 && "--port"@[2] == 'p',
        "--identity"@.len() == 10 && "--identity"@[2] == 'i',
        "--identity-file"@.len() == 15 && "--identity-file"@[2] == 'i',
        "--label"@.len() == 7 && "--label"@[2] == 'l',
        "--tail"@.len() == 6 && "--tail"@[2] == 't',
        "--tls"@.len() == 5 && "--tls"@[2] == 't',
        "--insecure"@.len() == 10 && "--insecure"@[2] == 'i' && "--insecure"@[3] == 'n',
        "--password"@.len() == 10 && "--password"@[2] == 'p',
        "--domain"@.len() == 8 && "--domain"@[2] == 'd',
        "--auth"@.len() == 6 && "--auth"@[2] == 'a',
        "--identity"@[3] == 'd',
{
    reveal_strlit("--json");
    reveal_strlit("--pretty");
    reveal_strlit("--timeout");
    reveal_strlit("--shell");
    reveal_strlit("--workdir");
    reveal_strlit("--env");
    reveal_strlit("--toolchain");
    reveal_strlit("--user");
    reveal_strlit("--port");
    reveal_strlit("--identity");
    reveal_strlit("--identity-file");
    reveal_strlit("--label");
    reveal_strlit("--tail");
    reveal_strlit("--tls");
    reveal_strlit("--insecure");
    reveal_strlit("--password");
    reveal_strlit("--domain");
    reveal_strlit("--auth");
}

/// Without flags nothing is chosen: no deadline, no shell, no directory, no
/// environment, no toolchain, and output as plain text.
pub proof fn law_nothing_is_chosen_without_flags()
    ensures
        flags_of(seq![], no_opts(), seq![]).0 == no_opts(),
        no_opts().timeout_sec is None && no_opts().shell is None && no_opts().workdir is None,
        no_opts().env.len() == 0 && no_opts().toolchain is None && no_opts().label is None,
        no_opts().tail_bytes is None && !no_opts().json && !no_opts().pretty,
        no_opts().user is None && no_opts().port is None && no_opts().identity is None,
{
}

/// These words and no others take a value.
pub proof fn law_only_flags_take_values(arg: Seq<char>)
    ensures
        value_missing(arg) is Some <==> arg == "--timeout"@ || arg == "--shell"@ || arg
            == "--workdir"@ || arg == "--env"@ || arg == "--toolchain"@ || arg == "--user"@ || arg
            == "--port"@ || arg == "--identity"@ || arg == "--identity-file"@ || arg == "--label"@
            || arg == "--tail"@,
{
}

/// What a flag with its value, alone on the command line, leaves.
pub open spec fn flag_alone(o: OptsView, flag: Seq<char>, v: Seq<char>) -> (
    OptsView,
    Result<Seq<Seq<char>>, Seq<char>>,
) {
    flags_of(seq![flag, v], o, seq![])
}

proof fn lemma_flag_alone(o: OptsView, flag: Seq<char>, v: Seq<char>)
    requires
        flag != "--json"@,
        flag != "--pretty"@,
        value_missing(flag) is Some,
    ensures
        match with_value(o, flag, v) {
            Ok(next) => flag_alone(o, flag, v) == (
                next,
                Ok::<Seq<Seq<char>>, Seq<char>>(Seq::<Seq<char>>::empty()),
            ),
            Err(e) => flag_alone(o, flag, v) == (o, Err::<Seq<Seq<char>>, Seq<char>>(e)),
        },
{
    let args = seq![flag, v];
    assert(args[0] == flag && args[1] == v);
    assert(args.skip(2) =~= Seq::<Seq<char>>::empty());
    reveal_with_fuel(flags_of, 2);
}

/// Every flag sets its own option to its value, whatever stood there, and no
/// other option; a number that was written is read back.
pub proof fn law_flags_set_their_options(o: OptsView, v: Seq<char>, n: nat, s: Shell)
    ensures
        ({
            let none = Ok::<Seq<Seq<char>>, Seq<char>>(Seq::<Seq<char>>::empty());
            &&& n <= u64::MAX ==> flag_alone(o, "--timeout"@, decimal(n)) == (
                OptsView { timeout_sec: Some(n as u64), ..o },
                none,
            )
            &&& n <= u16::MAX ==> flag_alone(o, "--port"@, decimal(n)) == (
                OptsView { port: Some(n as u16), ..o },
                none,
            )
            &&& n <= usize::MAX ==> flag_alone(o, "--tail"@, decimal(n)) == (
                OptsView { tail_bytes: Some(n as usize), ..o },
                none,
            )
            &&& flag_alone(o, "--shell"@, shell_name(s)) == (OptsView { shell: Some(s), ..o }, none)
            &&& flag_alone(o, "--workdir"@, v) == (OptsView { workdir: Some(v), ..o }, none)
            &&& flag_alone(o, "--toolchain"@, v) == (OptsView { toolchain: Some(v), ..o }, none)
            &&& flag_alone(o, "--user"@, v) == (OptsView { user: Some(v), ..o }, none)
            &&& flag_alone(o, "--identity"@, v) == (OptsView { identity: Some(v), ..o }, none)
            &&& flag_alone(o, "--identity-file"@, v) == (OptsView { identity: Some(v), ..o }, none)
            &&& flag_alone(o, "--label"@, v) == (OptsView { label: Some(v), ..o }, none)
        }),
{
    lemma_flags_differ();
    lemma_flag_alone(o, "--timeout"@, decimal(n));
    lemma_flag_alone(o, "--port"@, decimal(n));
    lemma_flag_alone(o, "--tail"@, decimal(n));
    lemma_flag_alone(o, "--shell"@, shell_name(s));
    lemma_flag_alone(o, "--workdir"@, v);
    lemma_flag_alone(o, "--toolchain"@, v);
    lemma_flag_alone(o, "--user"@, v);
    lemma_flag_alone(o, "--identity"@, v);
    lemma_flag_alone(o, "--identity-file"@, v);
    lemma_flag_alone(o, "--label"@, v);
    if n <= u64::MAX {
        law_unsigned_roundtrip(n, u64::MAX as int);
    }
    if n <= u16::MAX {
        law_unsigned_roundtrip(n, u16::MAX as int);
    }
    if n <= usize::MAX {
        law_unsigned_roundtrip(n, usize::MAX as int);
    }
    law_shell_name_roundtrip(s);
}

/// An environment override is split at its first `=`, and added behind those that
/// are there.
pub proof fn law_environment_is_split_at_the_first_sign(
    o: OptsView,
    key: Seq<char>,
    value: Seq<char>,
)
    requires
        forall|i: int| 0 <= i < key.len() ==> #[trigger] key[i] != '=',
    ensures
        flag_alone(o, "--env"@, key + seq!['='] + value) == (
            OptsView { env: o.env.push((key, value)), ..o },
            Ok::<Seq<Seq<char>>, Seq<char>>(Seq::<Seq<char>>::empty()),
        ),
        flag_alone(o, "--env"@, key).1 is Err,
        flag_alone(o, "--env"@, key).0 == o,
{
    lemma_flags_differ();
    let v = key + seq!['='] + value;
    lemma_flag_alone(o, "--env"@, v);
    lemma_flag_alone(o, "--env"@, key);
    lemma_key_len(key, seq!['='] + value);
    lemma_key_len(key, seq![]);
    assert(v =~= key + (seq!['='] + value));
    assert(key =~= key + Seq::<char>::empty());
    let k = key.len() as int;
    assert(v.take(k) =~= key);
    assert(v.skip(k + 1) =~= value);
}

proof fn lemma_key_len(key: Seq<char>, rest: Seq<char>)
    requires
        forall|i: int| 0 <= i < key.len() ==> #[trigger] key[i] != '=',
        rest.len() > 0 ==> rest[0] == '=',
    ensures
        key_len(key + rest) == key.len(),
    decreases key.len(),
{
    let all = key + rest;
    if key.len() == 0 {
        assert(all =~= rest);
    } else {
        let tail = key.drop_first();
        assert forall|i: int| 0 <= i < tail.len() implies #[trigger] tail[i] != '=' by {
            assert(tail[i] == key[i + 1]);
        }
        assert(all[0] == key[0]);
        assert(all.drop_first() =~= tail + rest);
        lemma_key_len(tail, rest);
    }
}

/// The two switches for machine-readable output: the second asks for it indented.
pub proof fn law_switches_take_no_value(o: OptsView)
    ensures
        flags_of(seq!["--json"@], o, seq![]) == (
            OptsView { json: true, ..o },
            Ok::<Seq<Seq<char>>, Seq<char>>(Seq::<Seq<char>>::empty()),
        ),
        flags_of(seq!["--pretty"@], o, seq![]) == (
            OptsView { json: true, pretty: true, ..o },
            Ok::<Seq<Seq<char>>, Seq<char>>(Seq::<Seq<char>>::empty()),
        ),
{
    lemma_flags_differ();
    reveal_with_fuel(flags_of, 2);
    let j = seq!["--json"@];
    let p = seq!["--pretty"@];
    assert(j[0] == "--json"@ && p[0] == "--pretty"@);
    assert(j.skip(1) =~= Seq::<Seq<char>>::empty());
    assert(p.skip(1) =~= Seq::<Seq<char>>::empty());
}

/// A flag whose value is missing or cannot be read is an error, and changes
/// nothing.
pub proof fn law_wrong_values_are_errors(o: OptsView, flag: Seq<char>, v: Seq<char>)
    ensures
        value_missing(flag) is Some && flag != "--json"@ && flag != "--pretty"@ ==> flags_of(
            seq![flag],
            o,
            seq![],
        ).1 is Err && flags_of(seq![flag], o, seq![]).0 == o,
        parsed_unsigned(v, u64::MAX as int) is None ==> flag_alone(o, "--timeout"@, v).1 is Err
            && flag_alone(o, "--timeout"@, v).0 == o,
        parsed_unsigned(v, u16::MAX as int) is None ==> flag_alone(o, "--port"@, v).1 is Err
            && flag_alone(o, "--port"@, v).0 == o,
        parsed_unsigned(v, usize::MAX as int) is None ==> flag_alone(o, "--tail"@, v).1 is Err
            && flag_alone(o, "--tail"@, v).0 == o,
        shell_named(lower_ascii(v)) is None ==> flag_alone(o, "--shell"@, v).1 is Err && flag_alone(
            o,
            "--shell"@,
            v,
        ).0 == o,
{
    lemma_flags_differ();
    assert(seq![flag][0] == flag);
    lemma_flag_alone(o, "--timeout"@, v);
    lemma_flag_alone(o, "--port"@, v);
    lemma_flag_alone(o, "--tail"@, v);
    lemma_flag_alone(o, "--shell"@, v);
}

/// Arguments without flags mean themselves.
pub proof fn law_plain_arguments_are_positional(
    args: Seq<Seq<char>>,
    o: OptsView,
    positional: Seq<Seq<char>>,
)
    requires
        forall|i: int|
            0 <= i < args.len() ==> value_missing(#[trigger] args[i]) is None && args[i]
                != "--json"@ && args[i] != "--pretty"@,
    ensures
        flags_of(args, o, positional) == (
            o,
            Ok::<Seq<Seq<char>>, Seq<char>>(positional + args),
        ),
    decreases args.len(),
{
    if args.len() == 0 {
        assert(positional + args =~= positional);
    } else {
        assert(value_missing(args[0]) is None);
        let rest = args.skip(1);
        assert forall|i: int| 0 <= i < rest.len() implies value_missing(#[trigger] rest[i]) is None
            && rest[i] != "--json"@ && rest[i] != "--pretty"@ by {
            assert(rest[i] == args[i + 1]);
        }
        law_plain_arguments_are_positional(rest, o, positional.push(args[0]));
        assert(positional.push(args[0]) + rest =~= positional + args);
    }
}

// ---------------------------------------------------------------------------
// Building specs
// ---------------------------------------------------------------------------

/// The seconds fit into milliseconds.
pub open spec fn fits_ms(timeout_sec: Option<u64>) -> bool {
    timeout_sec matches Some(s) ==> s * 1000 <= u64::MAX
}

/// Seconds are seconds up to the largest number of milliseconds that there is, and
/// are counted as a thousand milliseconds each.
pub proof fn law_seconds_are_counted(secs: u64, default: u64)
    ensures
        fits_ms(Some(secs)) <==> secs <= 18_446_744_073_709_551,
        fits_ms(None),
        fits_ms(Some(secs)) ==> ms_or(Some(secs), default) == secs * 1000,
        ms_or(None, default) == default,
{
}

/// A deadline in milliseconds, or the given one where none was asked for.
pub open spec fn ms_or(timeout_sec: Option<u64>, default: u64) -> u64 {
    match timeout_sec {
        Some(s) => (s * 1000) as u64,
        None => default,
    }
}

/// Whether the seconds fit into milliseconds.
pub fn timeout_fits(timeout_sec: Option<u64>) -> (r: bool)
    ensures
        r == fits_ms(timeout_sec),
{
    match timeout_sec {
        Some(s) => s <= u64::MAX / 1000,
        None => true,
    }
}

fn to_ms(timeout_sec: Option<u64>, default: u64) -> (r: u64)
    requires
        fits_ms(timeout_sec),
    ensures
        r == ms_or(timeout_sec, default),
{
    match timeout_sec {
        Some(s) => s * 1000,
        None => default,
    }
}

/// The deadline that a recipe sets.
pub open spec fn recipe_timeout(recipe: Option<RecipeView>) -> Option<u64> {
    match recipe {
        Some(r) => match r.timeouts {
            Some(t) => t.default_ms,
            None => None,
        },
        None => None,
    }
}

/// The output cap that a recipe sets.
pub open spec fn recipe_cap(recipe: Option<RecipeView>) -> Option<u64> {
    match recipe {
        Some(r) => match r.conventions {
            Some(c) => c.max_output_bytes,
            None => None,
        },
        None => None,
    }
}

/// The error patterns that a recipe sets.
pub open spec fn recipe_patterns(recipe: Option<RecipeView>) -> Map<Seq<char>, EntryView> {
    match recipe {
        Some(r) => r.error_maps,
        None => Map::empty(),
    }
}

/// The view of an optional recipe.
pub open spec fn recipe_view(recipe: Option<Recipe>) -> Option<RecipeView> {
    match recipe {
        Some(r) => Some(r@),
        None => None,
    }
}

/// `spec` runs a command under options and a project's recipe: a flag counts
/// before the recipe, and the recipe before the built-in default.
pub open spec fn built(
    spec: ExecSpec,
    command: Seq<char>,
    kind: ExecKind,
    o: OptsView,
    recipe: Option<RecipeView>,
) -> bool {
    &&& spec.command@ == command
    &&& spec.kind == kind
    &&& spec.shell == o.shell
    &&& opt_text(spec.workdir) == o.workdir
    &&& pair_texts(spec.env@) == o.env
    &&& spec.timeout_ms == match (ms_or(o.timeout_sec, 0), recipe_timeout(recipe)) {
        (0, Some(t)) => t,
        (ms, _) => ms,
    }
    &&& spec.grace_ms == 0
    &&& spec.max_output_bytes == match recipe_cap(recipe) {
        Some(m) => m as usize,
        None => 0,
    }
    &&& spec.direct is None
    &&& deep(spec.error_maps@) == recipe_patterns(recipe)
}

/// Build the spec of a command under options and the project's recipe.
pub fn build_spec(command: String, kind: ExecKind, o: &CliOpts, recipe: &Option<Recipe>) -> (r:
    ExecSpec)
    requires
        fits_ms(o.timeout_sec),
    ensures
        built(r, command@, kind, o@, recipe_view(*recipe)),
        r.command@ == command@,
        r.shell == o.shell,
        recipe matches Some(rec) ==> deep(r.error_maps@) == rec@.error_maps,
        recipe is None ==> deep(r.error_maps@) == Map::<Seq<char>, EntryView>::empty(),
        o.timeout_sec matches Some(secs) ==> (secs > 0 ==> r.timeout_ms == secs * 1000),
{
    let mut spec = ExecSpec::default();
    spec.command = command;
    spec.kind = kind;
    spec.shell = o.shell;
    spec.workdir = copy_text(&o.workdir);
    spec.env = copy_pairs(&o.env);
    spec.timeout_ms = to_ms(o.timeout_sec, 0);
    if let Some(r) = recipe {
        if spec.timeout_ms == 0 {
            if let Some(t) = r.default_timeout_ms() {
                spec.timeout_ms = t;
            }
        }
        if let Some(m) = r.max_output_bytes() {
            spec.max_output_bytes = m as usize;
        }
        spec.error_maps = TextMap::merged(&TextMap::new(), &r.error_maps);
        proof {
            assert(deep(spec.error_maps@) =~= r@.error_maps);
        }
    }
    spec
}

/// An explicit deadline always counts, whatever the recipe says.
pub proof fn law_flags_beat_recipe(
    spec: ExecSpec,
    command: Seq<char>,
    kind: ExecKind,
    o: OptsView,
    recipe: Option<RecipeView>,
    secs: u64,
)
    requires
        built(spec, command, kind, o, recipe),
        o.timeout_sec == Some(secs),
        0 < secs,
        secs * 1000 <= u64::MAX,
    ensures
        spec.timeout_ms == secs * 1000,
{
}

/// What a run under a recipe asks for: the flags as they stand, where they say
/// nothing the recipe's deadline, and the recipe's output cap. Without a recipe
/// what is left unsaid is left to the defaults.
pub proof fn law_recipe_fills_what_flags_leave(
    spec: ExecSpec,
    command: Seq<char>,
    kind: ExecKind,
    o: OptsView,
    recipe: Option<RecipeView>,
)
    requires
        built(spec, command, kind, o, recipe),
        fits_ms(o.timeout_sec),
    ensures
        spec.command@ == command,
        spec.kind == kind,
        spec.shell == o.shell,
        opt_text(spec.workdir) == o.workdir,
        pair_texts(spec.env@) == o.env,
        spec.direct is None,
        spec.grace_ms == 0,
        o.timeout_sec matches Some(secs) ==> (secs > 0 ==> spec.timeout_ms == secs * 1000),
        o.timeout_sec is None || o.timeout_sec == Some(0u64) ==> {
            &&& recipe is None ==> spec.timeout_ms == 0
            &&& recipe matches Some(r) ==> {
                &&& r.timeouts is None ==> spec.timeout_ms == 0
                &&& r.timeouts matches Some(t) ==> {
                    &&& t.default_ms matches Some(ms) ==> spec.timeout_ms == ms
                    &&& t.default_ms is None ==> spec.timeout_ms == 0
                }
            }
        },
        recipe is None ==> spec.max_output_bytes == 0,
        recipe matches Some(r) ==> {
            &&& r.conventions is None ==> spec.max_output_bytes == 0
            &&& r.conventions matches Some(c) ==> {
                &&& c.max_output_bytes matches Some(m) ==> (m <= usize::MAX
                    ==> spec.max_output_bytes == m)
                &&& c.max_output_bytes is None ==> spec.max_output_bytes == 0
            }
        },
{
}

/// Every error pattern of a recipe goes along with the run, with its class and
/// its hint, and no other pattern does.
pub proof fn law_patterns_go_along_with_the_run(
    spec: ExecSpec,
    command: Seq<char>,
    kind: ExecKind,
    o: OptsView,
    recipe: RecipeView,
    pattern: Seq<char>,
)
    requires
        built(spec, command, kind, o, Some(recipe)),
    ensures
        recipe.error_maps.contains_key(pattern) <==> deep(spec.error_maps@).contains_key(pattern),
        recipe.error_maps.contains_key(pattern) ==> deep(spec.error_maps@)[pattern].class
            == recipe.error_maps[pattern].class && deep(spec.error_maps@)[pattern].hint
            == recipe.error_maps[pattern].hint,
{
}

/// A project's pattern reaches the result: a run under a recipe that failed, and
/// whose stderr holds what the pattern asks for, is reported with the class and
/// the hint that the recipe gives the pattern, as long as no pattern of the recipe
/// that comes before it is found too.
pub proof fn law_project_pattern_reaches_the_result(
    spec: ExecSpec,
    command: Seq<char>,
    kind: ExecKind,
    o: OptsView,
    recipe: RecipeView,
    key: Seq<char>,
    r: ResultView,
    before: Seq<char>,
    after: Seq<char>,
)
    requires
        built(spec, command, kind, o, Some(recipe)),
        recipe.error_maps.contains_key(key),
        bare(key).len() > 0,
        single_blanks(bare(key)),
        !r.timed_out,
        !r.aborted,
        r.exit_code != Some(0i32),
        r.exit_code != Some(126i32),
        r.exit_code != Some(127i32),
        r.stderr == before + bare(key) + after,
        forall|k: Seq<char>| #[trigger]
            recipe.error_maps.contains_key(k) && k != key && ascii_needle_of(k).len() > 0
                && has_text(lower_ascii(collapsed(r.stderr)), ascii_needle_of(k)) ==> text_lt(
                key,
                k,
            ),
    ensures
        ascii_class_with(r, deep(spec.error_maps@)) == (
            Some(recipe.error_maps[key].class),
            Some(
                match recipe.error_maps[key].hint {
                    Some(h) => h,
                    None => Seq::<char>::empty(),
                },
            ),
        ),
{
    law_project_pattern_is_reported(r, recipe.error_maps, key, before, after);
}

/// The command line that arguments make up from the one at `from` on.
pub open spec fn command_text(positional: Seq<Seq<char>>, from: int) -> Seq<char> {
    join(positional.skip(from), " "@)
}

/// A single argument is the command as it stands; of several, each but the last is
/// followed by one blank.
pub proof fn law_arguments_make_up_the_command(positional: Seq<Seq<char>>, from: int)
    requires
        0 <= from < positional.len(),
    ensures
        from == positional.len() - 1 ==> command_text(positional, from) == positional[from],
        from < positional.len() - 1 ==> command_text(positional, from) == positional[from]
            + seq![' '] + command_text(positional, from + 1),
{
    let first = seq![positional[from]];
    let rest = positional.skip(from + 1);
    reveal_strlit(" ");
    assert(" "@ =~= seq![' ']);
    assert(positional.skip(from) =~= first + rest);
    if rest.len() > 0 {
        law_join_of_lists(first, rest, " "@);
    } else {
        assert(positional.skip(from) =~= first);
        law_join_of_lists(first, first, " "@);
    }
}

/// The command line of a run: the arguments with blanks between them.
pub fn command_line(positional: &Vec<String>, from: usize) -> (r: String)
    requires
        from <= positional.len(),
    ensures
        r@ == command_text(texts(positional@), from as int),
        r@ == join(texts(positional@).skip(from as int), " "@),
{
    let mut parts: Vec<String> = Vec::new();
    let mut i: usize = from;
    while i < positional.len()
        invariant
            from <= i <= positional.len(),
            texts(parts@) == texts(positional@).subrange(from as int, i as int),
        decreases positional.len() - i,
    {
        let p = positional[i].clone();
        proof {
            let all = texts(positional@);
            assert(all[i as int] == p@);
            assert(texts(parts@.push(p)) =~= texts(parts@).push(p@));
            assert(all.subrange(from as int, i + 1) =~= all.subrange(from as int, i as int).push(
                p@,
            ));
        }
        parts.push(p);
        i += 1;
    }
    proof {
        let all = texts(positional@);
        assert(all.subrange(from as int, all.len() as int) =~= all.skip(from as int));
    }
    join_texts(&parts, " ")
}

/// What a run of a command line asks for, or what is wrong.
pub fn run_request(o: &CliOpts, positional: &Vec<String>, recipe: &Option<Recipe>) -> (r: Result<
    ExecSpec,
    String,
>)
    requires
        positional.len() > 0 ==> fits_ms(o.timeout_sec),
    ensures
        match r {
            Ok(spec) => positional@.len() > 0 && built(
                spec,
                join(texts(positional@), " "@),
                ExecKind::Run,
                o@,
                recipe_view(*recipe),
            ),
            Err(e) => positional@.len() == 0 && e@ == "unirun run: missing command"@,
        },
        r matches Ok(spec) ==> spec.command@ == command_text(texts(positional@), 0),
{
    if positional.len() == 0 {
        return Err("unirun run: missing command".to_string());
    }
    proof {
        assert(texts(positional@).skip(0) =~= texts(positional@));
    }
    Ok(build_spec(command_line(positional, 0), ExecKind::Run, o, recipe))
}

/// The argv that runs a file through a toolchain, or what is wrong.
pub open spec fn toolchain_words(
    recipe: RecipeView,
    name: Seq<char>,
    file: Seq<char>,
    available: Seq<Seq<char>>,
) -> Result<Seq<Seq<char>>, Seq<char>> {
    match toolchain_of(recipe, name, available) {
        Some(t) => Ok(seq![t.0] + t.1 + seq![file]),
        None => Err("toolchain `"@ + name + "` not resolvable on this host"@),
    }
}

/// A file runs through the first runner of its toolchain that the host has, with
/// the toolchain's arguments between the runner and the file; where the host has
/// none, it is refused.
pub proof fn law_toolchain_runs_the_file(
    recipe: RecipeView,
    name: Seq<char>,
    file: Seq<char>,
    available: Seq<Seq<char>>,
)
    ensures
        match toolchain_words(recipe, name, file, available) {
            Ok(argv) => {
                &&& recipe.toolchains.contains_key(name)
                &&& argv.len() == recipe.toolchains[name].args.len() + 2
                &&& available.contains(argv[0])
                &&& argv.subrange(1, argv.len() - 1) == recipe.toolchains[name].args
                &&& argv.last() == file
                &&& recipe.toolchains[name].runner matches Some(r) ==> (available.contains(r)
                    ==> argv[0] == r)
            },
            Err(_) => recipe.toolchains.contains_key(name) ==> forall|i: int|
                0 <= i < runners(recipe.toolchains[name]).len() ==> !available.contains(
                    #[trigger] runners(recipe.toolchains[name])[i],
                ),
        },
{
    if recipe.toolchains.contains_key(name) {
        let t = recipe.toolchains[name];
        law_first_runner_wins(recipe, name, available);
        if let Ok(argv) = toolchain_words(recipe, name, file, available) {
            assert(argv.subrange(1, argv.len() - 1) =~= t.args);
        }
    }
}

/// Resolve a recipe's toolchain to an argv: runner, its arguments, the file.
pub fn toolchain_argv(recipe: &Recipe, name: &str, file: &str, available: &Vec<String>) -> (r:
    Result<Vec<String>, String>)
    ensures
        match r {
            Ok(argv) => toolchain_words(recipe@, name@, file@, texts(available@)) == Ok::<
                Seq<Seq<char>>,
                Seq<char>,
            >(texts(argv@)),
            Err(e) => toolchain_words(recipe@, name@, file@, texts(available@)) == Err::<
                Seq<Seq<char>>,
                Seq<char>,
            >(e@),
        },
{
    match recipe.resolve_toolchain(name, available) {
        Some(t) => {
            let mut argv: Vec<String> = Vec::new();
            let ghost runner = t.0@;
            argv.push(t.0);
            let mut args = t.1;
            let ghost head = texts(argv@);
            let ghost middle = texts(args@);
            argv.append(&mut args);
            argv.push(file.to_string());
            proof {
                assert(texts(argv@) =~= head + middle + seq![file@]);
                assert(head =~= seq![runner]);
            }
            Ok(argv)
        },
        None => {
            let mut e = "toolchain `".to_string();
            e.append(name);
            e.append("` not resolvable on this host");
            Err(e)
        },
    }
}

/// `r` is the spec `spec` once it runs through a toolchain.
pub open spec fn runs_directly(r: ExecSpec, spec: ExecSpec, argv: Vec<String>) -> bool {
    r == (ExecSpec { command: r.command, direct: Some(argv), ..spec }) && r.command@.len() == 0
}

/// A script that runs through a toolchain is started with the toolchain's words and
/// through no shell, with the limits, the directory, the environment and the error
/// patterns that it would have had without.
pub proof fn law_toolchain_run_is_direct(
    r: ExecSpec,
    spec: ExecSpec,
    argv: Vec<String>,
    l: Launch,
    bash_on_path: bool,
)
    requires
        runs_directly(r, spec, argv),
        launched(l, r, bash_on_path),
    ensures
        texts(l.argv@) == texts(argv@),
        opt_text(l.workdir) == opt_text(spec.workdir),
        pair_texts(l.env@) == pair_texts(spec.env@),
        spec.timeout_ms > 0 ==> l.timeout_ms == spec.timeout_ms,
        spec.timeout_ms == 0 ==> l.timeout_ms == 120_000,
        spec.max_output_bytes > 0 ==> l.max_output == spec.max_output_bytes,
        spec.max_output_bytes == 0 ==> l.max_output == 262_144,
        deep(r.error_maps@) == deep(spec.error_maps@),
        r.kind == spec.kind,
        r.command@.len() == 0,
{
}

/// A script's spec once it runs through a toolchain: the argv in place, no
/// command.
pub fn through_toolchain(spec: ExecSpec, argv: Vec<String>) -> (r: ExecSpec)
    ensures
        runs_directly(r, spec, argv),
        r == (ExecSpec { command: r.command, direct: Some(argv), ..spec }),
        r.command@.len() == 0,
{
    let mut spec = spec;
    spec.direct = Some(argv);
    spec.command = String::new();
    spec
}

/// The options of a run of a script file.
pub open spec fn script_opts(o: OptsView, path: Seq<char>, windows: bool) -> OptsView {
    OptsView {
        shell: match o.shell {
            Some(s) => Some(s),
            None => shell_of_path(path, windows),
        },
        ..o
    }
}

/// A shell that is named runs the script whatever its extension; else the extension
/// decides. No other option depends on the file.
pub proof fn law_named_shell_beats_the_extension(o: OptsView, path: Seq<char>, windows: bool)
    ensures
        ({
            let after = script_opts(o, path, windows);
            &&& o.shell is Some ==> after.shell == o.shell
            &&& o.shell is None ==> after.shell == shell_of_path(path, windows)
            &&& after.timeout_sec == o.timeout_sec && after.workdir == o.workdir
            &&& after.env == o.env && after.toolchain == o.toolchain && after.label == o.label
            &&& after.json == o.json && after.pretty == o.pretty
        }),
{
}

/// What a run of a script file asks for: the shell that its extension
/// suggests, unless one is named.
pub fn script_request(
    o: &CliOpts,
    path: &str,
    content: String,
    windows: bool,
    recipe: &Option<Recipe>,
) -> (r: ExecSpec)
    requires
        fits_ms(o.timeout_sec),
    ensures
        built(
            r,
            content@,
            ExecKind::Script,
            OptsView {
                shell: match o.shell {
                    Some(s) => Some(s),
                    None => match crate::path::extension(path@, windows) {
                        Some(e) => crate::spec::shell_for_extension(lower_ascii(e)),
                        None => None,
                    },
                },
                ..o@
            },
            recipe_view(*recipe),
        ),
        built(
            r,
            content@,
            ExecKind::Script,
            script_opts(o@, path@, windows),
            recipe_view(*recipe),
        ),
        r.command@ == content@,
        o.shell is Some ==> r.shell == o.shell,
        o.shell is None ==> r.shell == shell_of_path(path@, windows),
        recipe matches Some(rec) ==> deep(r.error_maps@) == rec@.error_maps,
{
    let mut spec = build_spec(content, ExecKind::Script, o, recipe);
    if o.shell.is_none() {
        spec.shell = Shell::from_path(path, windows);
    }
    spec
}

// ---------------------------------------------------------------------------
// Remote targets
// ---------------------------------------------------------------------------

/// What a remote run over SSH asks for, or what is wrong. A working directory
/// and environment overrides are refused, not ignored.
pub open spec fn ssh_asked(o: OptsView, positional: Seq<Seq<char>>) -> Result<
    (TargetView, Seq<char>),
    Seq<char>,
> {
    if positional.len() < 2 {
        Err(
            "unirun ssh: usage: unirun ssh <host> '<script>' [--shell bash|sh|zsh|powershell|pwsh|cmd] [--user U] [--port N] [--identity FILE] [--timeout N]"@,
        )
    } else if o.workdir is Some || o.env.len() > 0 {
        Err("unirun ssh: --workdir/--env are not supported for remote execution (yet)"@)
    } else {
        Ok(
            (
                TargetView {
                    host: positional[0],
                    user: o.user,
                    port: o.port,
                    identity_file: o.identity,
                    shell: match o.shell {
                        Some(s) => s,
                        None => default_target().shell,
                    },
                    timeout_ms: ms_or(o.timeout_sec, default_target().timeout_ms),
                    ..default_target()
                },
                join(positional.skip(1), " "@),
            ),
        )
    }
}

/// A remote run goes to the host that is named first, with everything behind it
/// as the script, under the login, port, key, shell and deadline that are named;
/// what cannot be handed on is refused, not ignored.
pub proof fn law_ssh_request_is_handed_on(o: OptsView, positional: Seq<Seq<char>>)
    requires
        fits_ms(o.timeout_sec),
    ensures
        positional.len() < 2 || o.workdir is Some || o.env.len() > 0 <==> ssh_asked(o, positional)
            is Err,
        ssh_asked(o, positional) matches Ok(asked) ==> {
            &&& asked.0.host == positional[0]
            &&& asked.1 == join(positional.skip(1), " "@)
            &&& positional.len() == 2 ==> asked.1 == positional[1]
            &&& asked.0.user == o.user
            &&& asked.0.port == o.port
            &&& asked.0.identity_file == o.identity
            &&& o.shell matches Some(s) ==> asked.0.shell == s
            &&& o.shell is None ==> asked.0.shell == Shell::Powershell
            &&& o.timeout_sec matches Some(secs) ==> asked.0.timeout_ms == secs * 1000
            &&& o.timeout_sec is None ==> asked.0.timeout_ms == 120_000
            &&& asked.0.connect_timeout == 15
            &&& asked.1 == command_text(positional, 1)
        },
{
    if positional.len() == 2 {
        assert(positional.skip(1) =~= seq![positional[1]]);
    }
}

/// Decide what a remote run over SSH asks for.
pub fn ssh_request(o: &CliOpts, positional: &Vec<String>) -> (r: Result<
    (SshTarget, String),
    String,
>)
    requires
        ssh_asked(o@, texts(positional@)) is Ok ==> fits_ms(o.timeout_sec),
    ensures
        match r {
            Ok(p) => ssh_asked(o@, texts(positional@)) == Ok::<(TargetView, Seq<char>), Seq<char>>(
                (p.0@, p.1@),
            ),
            Err(e) => ssh_asked(o@, texts(positional@)) == Err::<
                (TargetView, Seq<char>),
                Seq<char>,
            >(e@),
        },
{
    if positional.len() < 2 {
        return Err(
            "unirun ssh: usage: unirun ssh <host> '<script>' [--shell bash|sh|zsh|powershell|pwsh|cmd] [--user U] [--port N] [--identity FILE] [--timeout N]".to_string(),
        );
    }
    if o.workdir.is_some() || o.env.len() > 0 {
        return Err(
            "unirun ssh: --workdir/--env are not supported for remote execution (yet)".to_string(),
        );
    }
    let mut target = SshTarget::default();
    proof {
        assert(texts(positional@)[0] == positional@[0]@);
    }
    target.host = positional[0].clone();
    target.user = copy_text(&o.user);
    target.port = o.port;
    target.identity_file = copy_text(&o.identity);
    if let Some(s) = o.shell {
        target.shell = s;
    }
    target.timeout_ms = to_ms(o.timeout_sec, target.timeout_ms);
    Ok((target, command_line(positional, 1)))
}

/// The options of a remote run over WinRM.
pub struct WinrmOpts {
    pub username: String,
    pub password: String,
    pub domain: String,
    pub port: Option<u16>,
    pub use_tls: bool,
    pub accept_invalid_certs: bool,
    pub auth: WinrmAuth,
    pub timeout_sec: Option<u64>,
    pub json: bool,
    pub pretty: bool,
}

/// The view of WinRM options.
#[verifier::ext_equal]
pub struct WinrmOptsView {
    pub username: Seq<char>,
    pub password: Seq<char>,
    pub domain: Seq<char>,
    pub port: Option<u16>,
    pub use_tls: bool,
    pub accept_invalid_certs: bool,
    pub auth: WinrmAuth,
    pub timeout_sec: Option<u64>,
    pub json: bool,
    pub pretty: bool,
}

impl View for WinrmOpts {
    type V = WinrmOptsView;

    open spec fn view(&self) -> WinrmOptsView {
        WinrmOptsView {
            username: self.username@,
            password: self.password@,
            domain: self.domain@,
            port: self.port,
            use_tls: self.use_tls,
            accept_invalid_certs: self.accept_invalid_certs,
            auth: self.auth,
            timeout_sec: self.timeout_sec,
            json: self.json,
            pretty: self.pretty,
        }
    }
}

/// No WinRM option at all.
pub open spec fn no_winrm_opts() -> WinrmOptsView {
    WinrmOptsView {
        username: seq![],
        password: seq![],
        domain: seq![],
        port: None,
        use_tls: false,
        accept_invalid_certs: false,
        auth: WinrmAuth::Ntlm,
        timeout_sec: None,
        json: false,
        pretty: false,
    }
}

/// WinRM options with one flag that takes no value in place; `None` of other
/// arguments.
pub open spec fn winrm_switch(o: WinrmOptsView, flag: Seq<char>) -> Option<WinrmOptsView> {
    if flag == "--json"@ {
        Some(WinrmOptsView { json: true, ..o })
    } else if flag == "--pretty"@ {
        Some(WinrmOptsView { json: true, pretty: true, ..o })
    } else if flag == "--tls"@ {
        Some(WinrmOptsView { use_tls: true, ..o })
    } else if flag == "--insecure"@ {
        Some(WinrmOptsView { accept_invalid_certs: true, ..o })
    } else {
        None
    }
}

/// What is said where a WinRM flag's value is missing or wrong; `None` of an
/// argument that takes none.
pub open spec fn winrm_complaint(flag: Seq<char>) -> Option<Seq<char>> {
    if flag == "--user"@ {
        Some("--user needs a value"@)
    } else if flag == "--password"@ {
        Some("--password needs a value"@)
    } else if flag == "--domain"@ {
        Some("--domain needs a value"@)
    } else if flag == "--port"@ {
        Some("--port needs an integer"@)
    } else if flag == "--auth"@ {
        Some("--auth must be basic | ntlm | kerberos"@)
    } else if flag == "--timeout"@ {
        Some("--timeout needs integer seconds"@)
    } else {
        None
    }
}

/// WinRM options with the value of one flag in place; `None` where the value
/// is wrong.
pub open spec fn winrm_with_value(o: WinrmOptsView, flag: Seq<char>, v: Seq<char>) -> Option<
    WinrmOptsView,
> {
    if flag == "--user"@ {
        Some(WinrmOptsView { username: v, ..o })
    } else if flag == "--password"@ {
        Some(WinrmOptsView { password: v, ..o })
    } else if flag == "--domain"@ {
        Some(WinrmOptsView { domain: v, ..o })
    } else if flag == "--port"@ {
        match parsed_unsigned(v, u16::MAX as int) {
            Some(n) => Some(WinrmOptsView { port: Some(n as u16), ..o }),
            None => None,
        }
    } else if flag == "--auth"@ {
        match auth_named(lower_ascii(v)) {
            Some(a) => Some(WinrmOptsView { auth: a, ..o }),
            None => None,
        }
    } else {
        match parsed_unsigned(v, u64::MAX as int) {
            Some(n) => Some(WinrmOptsView { timeout_sec: Some(n as u64), ..o }),
            None => None,
        }
    }
}

/// What the arguments of a WinRM run mean.
pub open spec fn winrm_flags_of(
    args: Seq<Seq<char>>,
    o: WinrmOptsView,
    positional: Seq<Seq<char>>,
) -> Result<(WinrmOptsView, Seq<Seq<char>>), Seq<char>>
    decreases args.len(),
{
    if args.len() == 0 {
        Ok((o, positional))
    } else {
        match winrm_switch(o, args[0]) {
            Some(next) => winrm_flags_of(args.skip(1), next, positional),
            None => match winrm_complaint(args[0]) {
                None => winrm_flags_of(args.skip(1), o, positional.push(args[0])),
                Some(complaint) => if args.len() < 2 {
                    Err(complaint)
                } else {
                    match winrm_with_value(o, args[0], args[1]) {
                        Some(next) => winrm_flags_of(args.skip(2), next, positional),
                        None => Err(complaint),
                    }
                },
            },
        }
    }
}

fn set_winrm_switch(o: &mut WinrmOpts, flag: &str) -> (r: bool)
    ensures
        r == (winrm_switch(old(o)@, flag@) is Some),
        r ==> winrm_switch(old(o)@, flag@) == Some(final(o)@),
        !r ==> final(o)@ == old(o)@,
{
    if same_text(flag, "--json") {
        o.json = true;
        true
    } else if same_text(flag, "--pretty") {
        o.json = true;
        o.pretty = true;
        true
    } else if same_text(flag, "--tls") {
        o.use_tls = true;
        true
    } else if same_text(flag, "--insecure") {
        o.accept_invalid_certs = true;
        true
    } else {
        false
    }
}

fn winrm_message(flag: &str) -> (r: Option<&'static str>)
    ensures
        match r {
            Some(m) => winrm_complaint(flag@) == Some(m@),
            None => winrm_complaint(flag@) is None,
        },
{
    if same_text(flag, "--user") {
        Some("--user needs a value")
    } else if same_text(flag, "--password") {
        Some("--password needs a value")
    } else if same_text(flag, "--domain") {
        Some("--domain needs a value")
    } else if same_text(flag, "--port") {
        Some("--port needs an integer")
    } else if same_text(flag, "--auth") {
        Some("--auth must be basic | ntlm | kerberos")
    } else if same_text(flag, "--timeout") {
        Some("--timeout needs integer seconds")
    } else {
        None
    }
}

fn set_winrm_value(o: &mut WinrmOpts, flag: &str, v: &str) -> (r: bool)
    requires
        winrm_complaint(flag@) is Some,
    ensures
        r == (winrm_with_value(old(o)@, flag@, v@) is Some),
        r ==> winrm_with_value(old(o)@, flag@, v@) == Some(final(o)@),
{
    if same_text(flag, "--user") {
        o.username = v.to_string();
        true
    } else if same_text(flag, "--password") {
        o.password = v.to_string();
        true
    } else if same_text(flag, "--domain") {
        o.domain = v.to_string();
        true
    } else if same_text(flag, "--port") {
        match parse_unsigned(v, 65_535) {
            Some(n) => {
                o.port = Some(n as u16);
                true
            },
            None => false,
        }
    } else if same_text(flag, "--auth") {
        match WinrmAuth::from_name(v) {
            Some(a) => {
                o.auth = a;
                true
            },
            None => false,
        }
    } else {
        match parse_unsigned(v, u64::MAX) {
            Some(n) => {
                o.timeout_sec = Some(n);
                true
            },
            None => false,
        }
    }
}

/// Read the flags of a WinRM run; other arguments come back in order.
pub fn parse_winrm_flags(args: &Vec<String>) -> (r: Result<(WinrmOpts, Vec<String>), String>)
    ensures
        match r {
            Ok(p) => winrm_flags_of(texts(args@), no_winrm_opts(), seq![]) == Ok::<
                (WinrmOptsView, Seq<Seq<char>>),
                Seq<char>,
            >((p.0@, texts(p.1@))),
            Err(e) => winrm_flags_of(texts(args@), no_winrm_opts(), seq![]) == Err::<
                (WinrmOptsView, Seq<Seq<char>>),
                Seq<char>,
            >(e@),
        },
{
    let ghost all = texts(args@);
    let ghost meaning = winrm_flags_of(all, no_winrm_opts(), seq![]);
    let mut o = WinrmOpts {
        username: String::new(),
        password: String::new(),
        domain: String::new(),
        port: None,
        use_tls: false,
        accept_invalid_certs: false,
        auth: WinrmAuth::Ntlm,
        timeout_sec: None,
        json: false,
        pretty: false,
    };
    let mut positional: Vec<String> = Vec::new();
    let mut i: usize = 0;
    proof {
        assert(o@ =~= no_winrm_opts());
        assert(all.skip(0) =~= all);
        assert(texts(positional@) =~= Seq::<Seq<char>>::empty());
    }
    while i < args.len()
        invariant
            i <= args.len(),
            all == texts(args@),
            meaning == winrm_flags_of(all, no_winrm_opts(), seq![]),
            meaning == winrm_flags_of(all.skip(i as int), o@, texts(positional@)),
        decreases args.len() - i,
    {
        let a = args[i].as_str();
        let ghost rest = all.skip(i as int);
        proof {
            assert(rest[0] == a@);
            assert(rest.skip(1) =~= all.skip(i + 1));
        }
        if set_winrm_switch(&mut o, a) {
            i += 1;
        } else {
            match winrm_message(a) {
                None => {
                    let p = args[i].clone();
                    proof {
                        assert(texts(positional@.push(p)) =~= texts(positional@).push(p@));
                    }
                    positional.push(p);
                    i += 1;
                },
                Some(complaint) => {
                    if i + 1 == args.len() {
                        return Err(complaint.to_string());
                    }
                    proof {
                        assert(rest[1] == args@[i + 1]@);
                        assert(rest.skip(2) =~= all.skip(i + 2));
                    }
                    if !set_winrm_value(&mut o, a, args[i + 1].as_str()) {
                        return Err(complaint.to_string());
                    }
                    i += 2;
                },
            }
        }
    }
    proof {
        assert(all.skip(i as int) =~= Seq::<Seq<char>>::empty());
    }
    Ok((o, positional))
}

proof fn lemma_winrm_flag_alone(o: WinrmOptsView, flag: Seq<char>, v: Seq<char>)
    requires
        winrm_switch(o, flag) is None,
        winrm_complaint(flag) is Some,
    ensures
        match winrm_with_value(o, flag, v) {
            Some(next) => winrm_flags_of(seq![flag, v], o, seq![]) == Ok::<
                (WinrmOptsView, Seq<Seq<char>>),
                Seq<char>,
            >((next, Seq::<Seq<char>>::empty())),
            None => winrm_flags_of(seq![flag, v], o, seq![]) is Err,
        },
{
    let args = seq![flag, v];
    assert(args[0] == flag && args[1] == v);
    assert(args.skip(2) =~= Seq::<Seq<char>>::empty());
    reveal_with_fuel(winrm_flags_of, 2);
}

/// Every WinRM flag sets its own option to its value and no other; a number that
/// was written is read back.
pub proof fn law_winrm_flags_set_their_options(o: WinrmOptsView, v: Seq<char>, n: nat)
    ensures
        ({
            let none = Seq::<Seq<char>>::empty();
            &&& winrm_flags_of(seq!["--user"@, v], o, none) == Ok::<
                (WinrmOptsView, Seq<Seq<char>>),
                Seq<char>,
            >((WinrmOptsView { username: v, ..o }, none))
            &&& winrm_flags_of(seq!["--password"@, v], o, none) == Ok::<
                (WinrmOptsView, Seq<Seq<char>>),
                Seq<char>,
            >((WinrmOptsView { password: v, ..o }, none))
            &&& winrm_flags_of(seq!["--domain"@, v], o, none) == Ok::<
                (WinrmOptsView, Seq<Seq<char>>),
                Seq<char>,
            >((WinrmOptsView { domain: v, ..o }, none))
            &&& n <= u16::MAX ==> winrm_flags_of(seq!["--port"@, decimal(n)], o, none) == Ok::<
                (WinrmOptsView, Seq<Seq<char>>),
                Seq<char>,
            >((WinrmOptsView { port: Some(n as u16), ..o }, none))
            &&& n <= u64::MAX ==> winrm_flags_of(seq!["--timeout"@, decimal(n)], o, none) == Ok::<
                (WinrmOptsView, Seq<Seq<char>>),
                Seq<char>,
            >((WinrmOptsView { timeout_sec: Some(n as u64), ..o }, none))
            &&& winrm_flags_of(seq!["--tls"@], o, none) == Ok::<
                (WinrmOptsView, Seq<Seq<char>>),
                Seq<char>,
            >((WinrmOptsView { use_tls: true, ..o }, none))
            &&& winrm_flags_of(seq!["--insecure"@], o, none) == Ok::<
                (WinrmOptsView, Seq<Seq<char>>),
                Seq<char>,
            >((WinrmOptsView { accept_invalid_certs: true, ..o }, none))
        }),
{
    lemma_flags_differ();
    lemma_winrm_flag_alone(o, "--user"@, v);
    lemma_winrm_flag_alone(o, "--password"@, v);
    lemma_winrm_flag_alone(o, "--domain"@, v);
    lemma_winrm_flag_alone(o, "--port"@, decimal(n));
    lemma_winrm_flag_alone(o, "--timeout"@, decimal(n));
    if n <= u16::MAX {
        law_unsigned_roundtrip(n, u16::MAX as int);
    }
    if n <= u64::MAX {
        law_unsigned_roundtrip(n, u64::MAX as int);
    }
    reveal_with_fuel(winrm_flags_of, 2);
    let t = seq!["--tls"@];
    let i = seq!["--insecure"@];
    assert(t[0] == "--tls"@ && i[0] == "--insecure"@);
    assert(t.skip(1) =~= Seq::<Seq<char>>::empty());
    assert(i.skip(1) =~= Seq::<Seq<char>>::empty());
}

/// The method of authentication is chosen by its name, in upper or lower case; any
/// other name is an error. JSON output is a switch, and indented output is JSON too.
pub proof fn law_winrm_choices_are_read(o: WinrmOptsView, v: Seq<char>)
    ensures
        match auth_named(lower_ascii(v)) {
            Some(a) => winrm_flags_of(seq!["--auth"@, v], o, seq![]) == Ok::<
                (WinrmOptsView, Seq<Seq<char>>),
                Seq<char>,
            >((WinrmOptsView { auth: a, ..o }, Seq::<Seq<char>>::empty())),
            None => winrm_flags_of(seq!["--auth"@, v], o, seq![]) is Err,
        },
        parsed_unsigned(v, u16::MAX as int) is None ==> winrm_flags_of(
            seq!["--port"@, v],
            o,
            seq![],
        ) is Err,
        parsed_unsigned(v, u64::MAX as int) is None ==> winrm_flags_of(
            seq!["--timeout"@, v],
            o,
            seq![],
        ) is Err,
        winrm_flags_of(seq!["--json"@], o, seq![]) == Ok::<
            (WinrmOptsView, Seq<Seq<char>>),
            Seq<char>,
        >((WinrmOptsView { json: true, ..o }, Seq::<Seq<char>>::empty())),
        winrm_flags_of(seq!["--pretty"@], o, seq![]) == Ok::<
            (WinrmOptsView, Seq<Seq<char>>),
            Seq<char>,
        >((WinrmOptsView { json: true, pretty: true, ..o }, Seq::<Seq<char>>::empty())),
{
    lemma_flags_differ();
    lemma_winrm_flag_alone(o, "--auth"@, v);
    lemma_winrm_flag_alone(o, "--port"@, v);
    lemma_winrm_flag_alone(o, "--timeout"@, v);
    reveal_with_fuel(winrm_flags_of, 2);
    let j = seq!["--json"@];
    let p = seq!["--pretty"@];
    assert(j[0] == "--json"@ && p[0] == "--pretty"@);
    assert(j.skip(1) =~= Seq::<Seq<char>>::empty());
    assert(p.skip(1) =~= Seq::<Seq<char>>::empty());
}

proof fn lemma_winrm_flags_go_on(
    a: Seq<Seq<char>>,
    b: Seq<Seq<char>>,
    o: WinrmOptsView,
    positional: Seq<Seq<char>>,
)
    ensures
        winrm_flags_of(a, o, positional) matches Ok(read) ==> winrm_flags_of(a + b, o, positional)
            == winrm_flags_of(b, read.0, read.1),
    decreases a.len(),
{
    let all = a + b;
    if a.len() == 0 {
        assert(all =~= b);
    } else {
        assert(all[0] == a[0]);
        assert(all.skip(1) =~= a.skip(1) + b);
        if let Some(next) = winrm_switch(o, a[0]) {
            lemma_winrm_flags_go_on(a.skip(1), b, next, positional);
        } else if winrm_complaint(a[0]) is None {
            lemma_winrm_flags_go_on(a.skip(1), b, o, positional.push(a[0]));
        } else if a.len() >= 2 {
            assert(all[1] == a[1]);
            assert(all.skip(2) =~= a.skip(2) + b);
            if let Some(next) = winrm_with_value(o, a[0], a[1]) {
                lemma_winrm_flags_go_on(a.skip(2), b, next, positional);
            }
        }
    }
}

/// Reading one list of WinRM arguments and then another is reading both in a row,
/// and an argument that is no flag is kept behind those before it.
pub proof fn law_winrm_flags_in_a_row(
    a: Seq<Seq<char>>,
    b: Seq<Seq<char>>,
    o: WinrmOptsView,
    positional: Seq<Seq<char>>,
    word: Seq<char>,
)
    ensures
        winrm_flags_of(a, o, positional) matches Ok(read) ==> winrm_flags_of(a + b, o, positional)
            == winrm_flags_of(b, read.0, read.1),
        word != "--json"@ && word != "--pretty"@ && word != "--tls"@ && word != "--insecure"@
            && word != "--user"@ && word != "--password"@ && word != "--domain"@ && word
            != "--port"@ && word != "--auth"@ && word != "--timeout"@ ==> winrm_flags_of(
            seq![word],
            o,
            positional,
        ) == Ok::<(WinrmOptsView, Seq<Seq<char>>), Seq<char>>((o, positional.push(word))),
{
    lemma_winrm_flags_go_on(a, b, o, positional);
    let w = seq![word];
    assert(w[0] == word);
    assert(w.skip(1) =~= Seq::<Seq<char>>::empty());
    reveal_with_fuel(winrm_flags_of, 2);
}

/// `t` and `script` are what a remote run over WinRM asks for.
pub open spec fn winrm_asked(
    t: WinrmTarget,
    script: Seq<char>,
    o: WinrmOptsView,
    positional: Seq<Seq<char>>,
) -> bool {
    &&& t.host@ == positional[0]
    &&& t.port == match o.port {
        Some(n) => n,
        None => if o.use_tls {
            HTTPS_PORT
        } else {
            HTTP_PORT
        },
    }
    &&& t.use_tls == o.use_tls
    &&& t.accept_invalid_certs == o.accept_invalid_certs
    &&& t.username@ == o.username
    &&& t.password@ == o.password
    &&& t.domain@ == o.domain
    &&& t.auth == o.auth
    &&& t.timeout_ms == ms_or(o.timeout_sec, 120_000)
    &&& script == command_text(positional, 1)
}

/// A WinRM request goes to the host that is named first, as the user and in the way
/// that the options say. Without a port it goes to the port of HTTPS with TLS and to
/// that of HTTP without, and without a deadline it has two minutes.
pub proof fn law_winrm_request_is_handed_on(
    t: WinrmTarget,
    script: Seq<char>,
    o: WinrmOptsView,
    positional: Seq<Seq<char>>,
)
    requires
        positional.len() >= 2,
        fits_ms(o.timeout_sec),
        winrm_asked(t, script, o, positional),
    ensures
        t.host@ == positional[0],
        positional.len() == 2 ==> script == positional[1],
        o.port matches Some(n) ==> t.port == n,
        o.port is None && o.use_tls ==> t.port == 5986,
        o.port is None && !o.use_tls ==> t.port == 5985,
        t.use_tls == o.use_tls,
        t.accept_invalid_certs == o.accept_invalid_certs,
        t.username@ == o.username,
        t.password@ == o.password,
        t.domain@ == o.domain,
        t.auth == o.auth,
        o.timeout_sec matches Some(secs) ==> t.timeout_ms == secs * 1000,
        o.timeout_sec is None ==> t.timeout_ms == 120_000,
        !no_winrm_opts().use_tls && !no_winrm_opts().accept_invalid_certs,
        no_winrm_opts().auth == WinrmAuth::Ntlm,
        no_winrm_opts().port is None && no_winrm_opts().timeout_sec is None,
        !no_winrm_opts().json && !no_winrm_opts().pretty,
        no_winrm_opts().username.len() == 0 && no_winrm_opts().password.len() == 0,
        no_winrm_opts().domain.len() == 0,
{
    law_arguments_make_up_the_command(positional, 1);
}

/// Decide what a remote run over WinRM asks for; `None` where host or script
/// is missing. Without a port, the listener's default counts: with TLS, that of
/// HTTPS.
pub fn winrm_request(o: &WinrmOpts, positional: &Vec<String>) -> (r: Option<(WinrmTarget, String)>)
    requires
        positional.len() >= 2 ==> fits_ms(o.timeout_sec),
    ensures
        match r {
            Some(p) => {
                &&& positional@.len() >= 2
                &&& p.0.host@ == texts(positional@)[0]
                &&& p.0.port == match o.port {
                    Some(n) => n,
                    None => if o.use_tls {
                        HTTPS_PORT
                    } else {
                        HTTP_PORT
                    },
                }
                &&& p.0.use_tls == o.use_tls
                &&& p.0.accept_invalid_certs == o.accept_invalid_certs
                &&& p.0.username@ == o.username@
                &&& p.0.password@ == o.password@
                &&& p.0.domain@ == o.domain@
                &&& p.0.auth == o.auth
                &&& p.0.timeout_ms == ms_or(o.timeout_sec, 120_000)
                &&& p.1@ == join(texts(positional@).skip(1), " "@)
            },
            None => positional@.len() < 2,
        },
        r matches Some(p) ==> winrm_asked(p.0, p.1@, o@, texts(positional@)),
{
    if positional.len() < 2 {
        return None;
    }
    let port: u16 = match o.port {
        Some(n) => n,
        None => {
            if o.use_tls {
                HTTPS_PORT
            } else {
                HTTP_PORT
            }
        },
    };
    proof {
        assert(texts(positional@)[0] == positional@[0]@);
    }
    let target = WinrmTarget {
        host: positional[0].clone(),
        port,
        use_tls: o.use_tls,
        accept_invalid_certs: o.accept_invalid_certs,
        username: o.username.clone(),
        password: o.password.clone(),
        domain: o.domain.clone(),
        auth: o.auth,
        timeout_ms: to_ms(o.timeout_sec, 120_000),
    };
    Some((target, command_line(positional, 1)))
}

// ---------------------------------------------------------------------------
// Background sessions
// ---------------------------------------------------------------------------

/// How many bytes of each log are shown where nothing else is said.
pub const DEFAULT_TAIL: usize = 65_536;

/// How long a wait lasts where nothing else is said, in ms.
pub const DEFAULT_WAIT_MS: u64 = 120_000;

/// What a command about background sessions asks for.
pub enum BgRequest {
    Start { spec: ExecSpec, label: String },
    Status(String),
    Output { id: String, tail: usize },
    Kill(String),
    Wait { id: String, timeout_ms: u64 },
    List,
    /// Something is missing.
    Usage(String),
    /// There is no such subcommand.
    Unknown,
}

/// A label: the words of a command with single blanks between them, sixty
/// characters at most and marked where it was cut.
pub open spec fn label_of(command: Seq<char>) -> Seq<char> {
    let flat = join(words(command), " "@);
    if flat.len() > 60 {
        flat.take(60).push('\u{2026}')
    } else {
        flat
    }
}

/// The label of a command that was given none.
pub fn truncate_label(command: &str) -> (r: String)
    ensures
        r@ == label_of(command@),
{
    let parts = split_words(command);
    let flat = join_texts(&parts, " ");
    let v = chars_of(flat.as_str());
    if v.len() > 60 {
        let mut s = text_of(&v, 0, 60);
        s.push('\u{2026}');
        proof {
            assert(s@ =~= flat@.take(60).push('\u{2026}'));
        }
        s
    } else {
        flat
    }
}

/// A label never exceeds sixty characters and the mark: a command that fits, on
/// one line, is its own label, and of a longer one the label is the beginning.
pub proof fn law_label_is_short(command: Seq<char>)
    ensures
        label_of(command).len() <= 61,
        collapsed(command).len() <= 60 ==> label_of(command) == collapsed(command),
        collapsed(command).len() > 60 ==> label_of(command).len() == 61 && label_of(command).take(
            60,
        ) == collapsed(command).take(60) && label_of(command).last() == '\u{2026}',
{
    if collapsed(command).len() > 60 {
        assert(label_of(command).take(60) =~= collapsed(command).take(60));
    }
}

/// What is said where a session id is missing.
pub open spec fn id_missing(sub: Seq<char>) -> Seq<char> {
    "unirun bg "@ + sub + ": missing session id"@
}

/// `spec` runs a command in the background under options.
pub open spec fn bg_built(spec: ExecSpec, command: Seq<char>, o: OptsView) -> bool {
    built(spec, command, ExecKind::Run, o, None)
}

/// `r` is what a command about background sessions asks for.
pub open spec fn bg_asked(
    r: BgRequest,
    sub: Seq<char>,
    o: OptsView,
    positional: Seq<Seq<char>>,
) -> bool {
    if sub == "start"@ {
        if positional.len() == 0 {
            r matches BgRequest::Usage(m) && m@ == "unirun bg start: missing command"@
        } else {
            r matches BgRequest::Start { spec, label } && bg_built(
                spec,
                join(positional, " "@),
                o,
            ) && label@ == match o.label {
                Some(l) => l,
                None => label_of(join(positional, " "@)),
            }
        }
    } else if sub == "list"@ {
        r is List
    } else if sub == "status"@ || sub == "output"@ || sub == "kill"@ || sub == "wait"@ {
        if positional.len() == 0 {
            r matches BgRequest::Usage(m) && m@ == id_missing(sub)
        } else if sub == "status"@ {
            r matches BgRequest::Status(id) && id@ == positional[0]
        } else if sub == "output"@ {
            r matches BgRequest::Output { id, tail } && id@ == positional[0] && tail
                == match o.tail_bytes {
                Some(t) => t,
                None => DEFAULT_TAIL,
            }
        } else if sub == "kill"@ {
            r matches BgRequest::Kill(id) && id@ == positional[0]
        } else {
            r matches BgRequest::Wait { id, timeout_ms } && id@ == positional[0] && timeout_ms
                == ms_or(o.timeout_sec, DEFAULT_WAIT_MS)
        }
    } else {
        r is Unknown
    }
}

/// What is asked of sessions is what the words say: a start runs the whole command
/// line under its label, and everything else names its session first; nothing is
/// done without a command or a session.
pub proof fn law_session_request_is_handed_on(
    r: BgRequest,
    o: OptsView,
    positional: Seq<Seq<char>>,
)
    requires
        fits_ms(o.timeout_sec),
    ensures
        bg_asked(r, "start"@, o, positional) && positional.len() > 0 ==> {
            &&& r matches BgRequest::Start { spec, label }
            &&& spec.command@ == join(positional, " "@)
            &&& spec.kind == ExecKind::Run
            &&& spec.shell == o.shell
            &&& opt_text(spec.workdir) == o.workdir
            &&& pair_texts(spec.env@) == o.env
            &&& o.timeout_sec matches Some(secs) ==> spec.timeout_ms == secs * 1000
            &&& o.timeout_sec is None ==> spec.timeout_ms == 0
            &&& o.label matches Some(l) ==> label@ == l
            &&& o.label is None ==> label@ == label_of(spec.command@)
        },
        bg_asked(r, "status"@, o, positional) && positional.len() > 0 ==> (r matches
            BgRequest::Status(id) && id@ == positional[0]),
        bg_asked(r, "kill"@, o, positional) && positional.len() > 0 ==> (r matches BgRequest::Kill(
            id,
        ) && id@ == positional[0]),
        bg_asked(r, "output"@, o, positional) && positional.len() > 0 ==> {
            &&& r matches BgRequest::Output { id, tail }
            &&& id@ == positional[0]
            &&& o.tail_bytes matches Some(n) ==> tail == n
            &&& o.tail_bytes is None ==> tail == 65_536
        },
        bg_asked(r, "wait"@, o, positional) && positional.len() > 0 ==> {
            &&& r matches BgRequest::Wait { id, timeout_ms }
            &&& id@ == positional[0]
            &&& o.timeout_sec matches Some(secs) ==> timeout_ms == secs * 1000
            &&& o.timeout_sec is None ==> timeout_ms == 120_000
        },
        bg_asked(r, "list"@, o, positional) ==> r is List,
        forall|sub: Seq<char>| #[trigger]
            bg_asked(r, sub, o, positional) && sub != "start"@ && sub != "list"@ && sub
                != "status"@ && sub != "output"@ && sub != "kill"@ && sub != "wait"@
                ==> r is Unknown,
        positional.len() == 0 && (bg_asked(r, "start"@, o, positional) || bg_asked(
            r,
            "status"@,
            o,
            positional,
        ) || bg_asked(r, "output"@, o, positional) || bg_asked(r, "kill"@, o, positional)
            || bg_asked(r, "wait"@, o, positional)) ==> r is Usage,
{
    reveal_strlit("start");
    reveal_strlit("list");
    reveal_strlit("status");
    reveal_strlit("output");
    reveal_strlit("kill");
    reveal_strlit("wait");
    assert("start"@[3] == 'r' && "status"@[3] == 't' && "list"@[0] == 'l' && "output"@[0] == 'o');
    assert("kill"@[0] == 'k' && "wait"@[0] == 'w' && "start"@[0] == 's' && "status"@[0] == 's');
}

/// Decide what a command about background sessions asks for.
pub fn bg_request(sub: &str, o: &CliOpts, positional: &Vec<String>) -> (r: BgRequest)
    requires
        (sub@ == "start"@ || sub@ == "wait"@) && positional.len() > 0 ==> fits_ms(o.timeout_sec),
    ensures
        bg_asked(r, sub@, o@, texts(positional@)),
{
    let ghost all = texts(positional@);
    if same_text(sub, "start") {
        if positional.len() == 0 {
            return BgRequest::Usage("unirun bg start: missing command".to_string());
        }
        proof {
            assert(all.skip(0) =~= all);
        }
        let command = command_line(positional, 0);
        let label = match &o.label {
            Some(l) => l.clone(),
            None => truncate_label(command.as_str()),
        };
        let spec = build_spec(command, ExecKind::Run, o, &None);
        return BgRequest::Start { spec, label };
    }
    if same_text(sub, "list") {
        return BgRequest::List;
    }
    if !(same_text(sub, "status") || same_text(sub, "output") || same_text(sub, "kill")
        || same_text(sub, "wait")) {
        return BgRequest::Unknown;
    }
    if positional.len() == 0 {
        let mut m = "unirun bg ".to_string();
        m.append(sub);
        m.append(": missing session id");
        return BgRequest::Usage(m);
    }
    proof {
        assert(all[0] == positional@[0]@);
    }
    let id = positional[0].clone();
    if same_text(sub, "status") {
        BgRequest::Status(id)
    } else if same_text(sub, "output") {
        let tail: usize = match o.tail_bytes {
            Some(t) => t,
            None => DEFAULT_TAIL,
        };
        BgRequest::Output { id, tail }
    } else if same_text(sub, "kill") {
        BgRequest::Kill(id)
    } else {
        BgRequest::Wait { id, timeout_ms: to_ms(o.timeout_sec, DEFAULT_WAIT_MS) }
    }
}

// ---------------------------------------------------------------------------
// Recipes
// ---------------------------------------------------------------------------

/// What a command about recipes asks for.
pub enum RecipeRequest {
    /// No subcommand.
    Nothing,
    List,
    /// Show a registry recipe, as it lies on disk or with its layers.
    Show { name: String, raw: bool },
    Add { name: String, file: String },
    Remove(String),
    Path,
    /// Show a project's effective recipe.
    Effective { json: bool, workdir: Option<String> },
    Check,
    /// Something is missing.
    Usage(String),
    Unknown(String),
}

/// The first argument that does not start with a dash.
pub open spec fn first_name(args: Seq<Seq<char>>) -> Option<Seq<char>>
    decreases args.len(),
{
    if args.len() == 0 {
        None
    } else if args[0].len() > 0 && args[0][0] == '-' {
        first_name(args.skip(1))
    } else {
        Some(args[0])
    }
}

/// What stands behind the first `flag`.
pub open spec fn value_after(args: Seq<Seq<char>>, flag: Seq<char>) -> Option<Seq<char>>
    decreases args.len(),
{
    if args.len() == 0 {
        None
    } else if args[0] == flag {
        if args.len() > 1 {
            Some(args[1])
        } else {
            None
        }
    } else {
        value_after(args.skip(1), flag)
    }
}

/// `r` is what a command about recipes asks for.
pub open spec fn recipe_asked(r: RecipeRequest, args: Seq<Seq<char>>) -> bool {
    if args.len() == 0 {
        r is Nothing
    } else {
        let rest = args.skip(1);
        if args[0] == "list"@ {
            r is List
        } else if args[0] == "show"@ {
            match first_name(rest) {
                Some(n) => r matches RecipeRequest::Show { name, raw } && name@ == n && raw
                    == rest.contains("--raw"@),
                None => r matches RecipeRequest::Usage(m) && m@
                    == "unirun recipe show: missing recipe name"@,
            }
        } else if args[0] == "add"@ {
            if rest.len() < 2 {
                r matches RecipeRequest::Usage(m) && m@
                    == "unirun recipe add: usage: unirun recipe add <name> <file.toml>"@
            } else {
                r matches RecipeRequest::Add { name, file } && name@ == rest[0] && file@ == rest[1]
            }
        } else if args[0] == "rm"@ || args[0] == "remove"@ {
            if rest.len() == 0 {
                r matches RecipeRequest::Usage(m) && m@
                    == "unirun recipe rm: missing recipe name"@
            } else {
                r matches RecipeRequest::Remove(name) && name@ == rest[0]
            }
        } else if args[0] == "path"@ {
            r is Path
        } else if args[0] == "effective"@ {
            r matches RecipeRequest::Effective { json, workdir } && json == rest.contains(
                "--json"@,
            ) && opt_text(workdir) == value_after(rest, "--workdir"@)
        } else if args[0] == "check"@ {
            r is Check
        } else {
            r matches RecipeRequest::Unknown(s) && s@ == args[0]
        }
    }
}

/// What is asked of recipes is what the words say: a name is the first word that
/// is no flag, a file stands behind the name it is added under.
pub proof fn law_recipe_request_is_handed_on(r: RecipeRequest, args: Seq<Seq<char>>)
    requires
        recipe_asked(r, args),
        args.len() > 0,
    ensures
        args[0] == "list"@ ==> r is List,
        args[0] == "path"@ ==> r is Path,
        args[0] == "check"@ ==> r is Check,
        args[0] == "add"@ && args.len() >= 3 ==> (r matches RecipeRequest::Add { name, file }
            && name@ == args[1] && file@ == args[2]),
        args[0] == "add"@ && args.len() < 3 ==> r is Usage,
        (args[0] == "rm"@ || args[0] == "remove"@) && args.len() >= 2 ==> (r matches
            RecipeRequest::Remove(name) && name@ == args[1]),
        (args[0] == "rm"@ || args[0] == "remove"@) && args.len() < 2 ==> r is Usage,
        args[0] == "show"@ && args.len() >= 2 && (args[1].len() == 0 || args[1][0] != '-') ==> (
        r matches RecipeRequest::Show { name, raw } && name@ == args[1] && raw == args.skip(
            1,
        ).contains("--raw"@)),
        args[0] == "show"@ && args.len() < 2 ==> r is Usage,
        args[0] == "effective"@ ==> (r matches RecipeRequest::Effective { json, workdir } && json
            == args.skip(1).contains("--json"@) && (args.len() == 1 ==> workdir is None)),
        args.len() == 3 && args[0] == "effective"@ && args[1] == "--workdir"@ ==> (r matches
            RecipeRequest::Effective { json: _, workdir } && opt_text(workdir) == Some(args[2])),
        r matches RecipeRequest::Unknown(word) ==> word@ == args[0],
        args[0] != "list"@ && args[0] != "show"@ && args[0] != "add"@ && args[0] != "rm"@
            && args[0] != "remove"@ && args[0] != "path"@ && args[0] != "effective"@ && args[0]
            != "check"@ ==> r is Unknown,
{
    reveal_strlit("list");
    reveal_strlit("show");
    reveal_strlit("add");
    reveal_strlit("rm");
    reveal_strlit("remove");
    reveal_strlit("path");
    reveal_strlit("effective");
    reveal_strlit("check");
    assert("list"@[0] == 'l' && "show"@[0] == 's' && "add"@[0] == 'a' && "rm"@[0] == 'r');
    assert("remove"@[0] == 'r' && "path"@[0] == 'p');
    assert("effective"@[0] == 'e' && "check"@[0] == 'c');
    let rest = args.skip(1);
    if args.len() >= 2 {
        assert(rest[0] == args[1]);
    }
    if args.len() >= 3 {
        assert(rest[1] == args[2]);
    }
}

/// The name that is asked for is the first argument that is no flag, and the value
/// of a flag stands right behind the flag where it comes first.
pub proof fn law_names_and_values_are_found(
    before: Seq<Seq<char>>,
    word: Seq<char>,
    flag: Seq<char>,
    after: Seq<Seq<char>>,
)
    ensures
        (forall|i: int|
            0 <= i < before.len() ==> (#[trigger] before[i]).len() > 0 && before[i][0] == '-') && (
        word.len() == 0 || word[0] != '-') ==> first_name(before + (seq![word] + after)) == Some(
            word,
        ),
        !before.contains(flag) ==> value_after(before + (seq![flag, word] + after), flag) == Some(
            word,
        ),
        !before.contains(flag) ==> value_after(before, flag) is None,
        !before.contains(flag) ==> value_after(before.push(flag), flag) is None,
    decreases before.len(),
{
    let named = before + (seq![word] + after);
    let valued = before + (seq![flag, word] + after);
    let last = before.push(flag);
    if before.len() == 0 {
        assert(last[0] == flag && last.len() == 1);
        assert(named[0] == word);
        assert(valued[0] == flag && valued[1] == word);
    } else {
        let rest = before.skip(1);
        assert(named[0] == before[0] && valued[0] == before[0]);
        assert(named.skip(1) =~= rest + (seq![word] + after));
        assert(valued.skip(1) =~= rest + (seq![flag, word] + after));
        assert(last[0] == before[0]);
        assert(last.skip(1) =~= rest.push(flag));
        assert(forall|i: int| 0 <= i < rest.len() ==> #[trigger] rest[i] == before[i + 1]);
        if !before.contains(flag) {
            assert(before[0] != flag);
            assert forall|x: Seq<char>| rest.contains(x) implies before.contains(x) by {
                let k = choose|k: int| 0 <= k < rest.len() && rest[k] == x;
                assert(before[k + 1] == x);
            }
        }
        law_names_and_values_are_found(rest, word, flag, after);
    }
}

/// The arguments behind the first.
pub fn rest_of(args: &Vec<String>) -> (r: Vec<String>)
    ensures
        args@.len() > 0 ==> texts(r@) == texts(args@).skip(1),
        args@.len() == 0 ==> r@.len() == 0,
{
    let mut out: Vec<String> = Vec::new();
    if args.len() == 0 {
        return out;
    }
    let mut i: usize = 1;
    proof {
        assert(texts(out@) =~= texts(args@).subrange(1, 1));
    }
    while i < args.len()
        invariant
            1 <= i <= args.len(),
            texts(out@) == texts(args@).subrange(1, i as int),
        decreases args.len() - i,
    {
        let a = args[i].clone();
        proof {
            let all = texts(args@);
            assert(all[i as int] == a@);
            assert(texts(out@.push(a)) =~= texts(out@).push(a@));
            assert(all.subrange(1, i + 1) =~= all.subrange(1, i as int).push(a@));
        }
        out.push(a);
        i += 1;
    }
    proof {
        assert(texts(args@).subrange(1, args@.len() as int) =~= texts(args@).skip(1));
    }
    out
}

fn find_name(args: &Vec<String>) -> (r: Option<String>)
    ensures
        opt_text(r) == first_name(texts(args@)),
{
    let ghost all = texts(args@);
    let mut i: usize = 0;
    proof {
        assert(all.skip(0) =~= all);
    }
    while i < args.len()
        invariant
            i <= args.len(),
            all == texts(args@),
            first_name(all.skip(i as int)) == first_name(texts(args@)),
        decreases args.len() - i,
    {
        proof {
            assert(all.skip(i as int)[0] == args@[i as int]@);
            assert(all.skip(i as int).skip(1) =~= all.skip(i + 1));
        }
        let v = chars_of(args[i].as_str());
        if !(v.len() > 0 && v[0] == '-') {
            return Some(args[i].clone());
        }
        i += 1;
    }
    None
}

fn find_value(args: &Vec<String>, flag: &str) -> (r: Option<String>)
    ensures
        opt_text(r) == value_after(texts(args@), flag@),
{
    let ghost all = texts(args@);
    let mut i: usize = 0;
    proof {
        assert(all.skip(0) =~= all);
    }
    while i < args.len()
        invariant
            i <= args.len(),
            all == texts(args@),
            value_after(all.skip(i as int), flag@) == value_after(texts(args@), flag@),
        decreases args.len() - i,
    {
        proof {
            assert(all.skip(i as int)[0] == args@[i as int]@);
            assert(all.skip(i as int).skip(1) =~= all.skip(i + 1));
        }
        if same_text(args[i].as_str(), flag) {
            if i + 1 < args.len() {
                proof {
                    assert(all.skip(i as int)[1] == args@[i + 1]@);
                }
                return Some(args[i + 1].clone());
            }
            return None;
        }
        i += 1;
    }
    None
}

/// Decide what a command about recipes asks for.
pub fn recipe_request(args: &Vec<String>) -> (r: RecipeRequest)
    ensures
        recipe_asked(r, texts(args@)),
{
    if args.len() == 0 {
        return RecipeRequest::Nothing;
    }
    let rest = rest_of(args);
    let ghost others = texts(rest@);
    proof {
        assert(texts(args@)[0] == args@[0]@);
        assert(others.len() == rest@.len());
    }
    let sub = args[0].as_str();
    if same_text(sub, "list") {
        RecipeRequest::List
    } else if same_text(sub, "show") {
        match find_name(&rest) {
            Some(name) => RecipeRequest::Show { name, raw: is_listed(&rest, "--raw") },
            None => RecipeRequest::Usage("unirun recipe show: missing recipe name".to_string()),
        }
    } else if same_text(sub, "add") {
        if rest.len() < 2 {
            RecipeRequest::Usage(
                "unirun recipe add: usage: unirun recipe add <name> <file.toml>".to_string(),
            )
        } else {
            proof {
                assert(others[0] == rest@[0]@ && others[1] == rest@[1]@);
            }
            RecipeRequest::Add { name: rest[0].clone(), file: rest[1].clone() }
        }
    } else if same_text(sub, "rm") || same_text(sub, "remove") {
        if rest.len() == 0 {
            RecipeRequest::Usage("unirun recipe rm: missing recipe name".to_string())
        } else {
            proof {
                assert(others[0] == rest@[0]@);
            }
            RecipeRequest::Remove(rest[0].clone())
        }
    } else if same_text(sub, "path") {
        RecipeRequest::Path
    } else if same_text(sub, "effective") {
        RecipeRequest::Effective {
            json: is_listed(&rest, "--json"),
            workdir: find_value(&rest, "--workdir"),
        }
    } else if same_text(sub, "check") {
        RecipeRequest::Check
    } else {
        RecipeRequest::Unknown(args[0].clone())
    }
}

// ---------------------------------------------------------------------------
// Output and exit codes
// ---------------------------------------------------------------------------

/// The process code of an exit code: no larger than 255, the lowest eight bits
/// of a negative one.
pub open spec fn process_code(rc: i32) -> int {
    if rc > 255 {
        255
    } else {
        rc as int % 256
    }
}

/// The process code of a result that is not written as JSON.
pub open spec fn result_code(r: ResultView) -> int {
    if r.timed_out {
        124
    } else if r.aborted {
        130
    } else {
        match r.exit_code {
            Some(rc) => process_code(rc),
            None => 1,
        }
    }
}

fn code_of(rc: i32) -> (r: u8)
    ensures
        r == process_code(rc),
{
    if rc > 255 {
        255
    } else {
        // Shifted by a multiple of 256, every exit code is from zero up.
        let shifted: i64 = rc as i64 + 2_147_483_648;
        proof {
            vstd::arithmetic::div_mod::lemma_mod_multiples_vanish(8_388_608, rc as int, 256);
            assert(256 * 8_388_608 + rc as int == shifted);
        }
        (shifted % 256) as u8
    }
}

/// The process code, given that of what is reported.
pub open spec fn reported_as(code: int, json: bool) -> int {
    if json {
        0
    } else {
        code
    }
}

/// What is written as JSON says itself how it ended, and the process ends with zero;
/// else the process ends as what it reports.
pub proof fn law_json_carries_the_code(r: ResultView, st: SessionView)
    ensures
        reported_as(result_code(r), true) == 0,
        reported_as(result_code(r), false) == result_code(r),
        reported_as(state_result_code(st), true) == 0,
        reported_as(state_result_code(st), false) == state_result_code(st),
{
}

/// With which code the process exits after a result: zero where it is written
/// as JSON.
pub fn exit_code(r: &ExecResult, json: bool) -> (code: u8)
    ensures
        code == reported_as(result_code(r@), json),
        code == if json {
            0
        } else {
            result_code(r@)
        },
{
    if json {
        0
    } else if r.timed_out {
        124
    } else if r.aborted {
        130
    } else {
        match r.exit_code {
            Some(rc) => code_of(rc),
            None => 1,
        }
    }
}

/// The process code of a session's state that is not written as JSON.
pub open spec fn state_result_code(st: SessionView) -> int {
    if st.status == "completed"@ {
        match st.exit_code {
            Some(rc) => process_code(rc),
            None => 1,
        }
    } else if st.status == "timed_out"@ {
        124
    } else if st.status == "aborted"@ || st.status == "killed"@ {
        130
    } else {
        1
    }
}

/// With which code the process exits after a session's state.
pub fn state_exit_code(st: &SessionState, json: bool) -> (code: u8)
    ensures
        code == reported_as(state_result_code(st@), json),
        code == if json {
            0
        } else {
            state_result_code(st@)
        },
{
    if json {
        0
    } else if same_text(st.status.as_str(), "completed") {
        match st.exit_code {
            Some(rc) => code_of(rc),
            None => 1,
        }
    } else if same_text(st.status.as_str(), "timed_out") {
        124
    } else if same_text(st.status.as_str(), "aborted") || same_text(st.status.as_str(), "killed") {
        130
    } else {
        1
    }
}

/// The exit-code contract: a child's code up to 255 is the process' own, a
/// deadline exits with 124, an abort with 130.
pub proof fn law_exit_code_contract(r: ResultView, rc: i32)
    ensures
        r.timed_out ==> result_code(r) == 124,
        !r.timed_out && r.aborted ==> result_code(r) == 130,
        !r.timed_out && !r.aborted && r.exit_code == Some(rc) && 0 <= rc <= 255 ==> result_code(r)
            == rc,
        !r.timed_out && !r.aborted && r.exit_code is None ==> result_code(r) == 1,
        0 <= result_code(r) <= 255,
{
}

/// Codes beyond a byte: a larger one is the largest there is, and of a negative
/// one the lowest eight bits are left.
pub proof fn law_process_code_is_a_byte(rc: i32)
    ensures
        0 <= process_code(rc) <= 255,
        0 <= rc <= 255 ==> process_code(rc) == rc,
        rc > 255 ==> process_code(rc) == 255,
        rc < 0 ==> (process_code(rc) - rc) % 256 == 0,
{
    if rc < 0 {
        let q = rc as int / 256;
        let m = rc as int % 256;
        assert(rc as int == 256 * q + m);
        assert((m - rc) == 256 * (-q));
        vstd::arithmetic::div_mod::lemma_mod_multiples_basic(-q, 256);
    }
}

/// The exit-code contract of sessions: a completed one exits as its child did, a
/// timed-out one with 124, an aborted or killed one with 130, any other with 1.
pub proof fn law_session_code_contract(st: SessionView, rc: i32)
    ensures
        st.status == "completed"@ && st.exit_code == Some(rc) && 0 <= rc <= 255
            ==> state_result_code(st) == rc,
        st.status == "timed_out"@ ==> state_result_code(st) == 124,
        st.status == "aborted"@ ==> state_result_code(st) == 130,
        st.status == "killed"@ ==> state_result_code(st) == 130,
        st.status == "failed"@ ==> state_result_code(st) == 1,
        st.status == "interrupted"@ ==> state_result_code(st) == 1,
        st.status == "running"@ ==> state_result_code(st) == 1,
{
    reveal_strlit("completed");
    reveal_strlit("timed_out");
    reveal_strlit("aborted");
    reveal_strlit("killed");
    reveal_strlit("failed");
    reveal_strlit("interrupted");
    reveal_strlit("running");
    assert("completed"@[0] == 'c' && "timed_out"@[0] == 't' && "aborted"@[0] == 'a');
    assert("killed"@[0] == 'k' && "failed"@[0] == 'f' && "interrupted"@[0] == 'i');
    assert("running"@[0] == 'r');
}

/// Waiting for a session exits as running its command would have: the record that
/// a finished run leaves exits with the child's own code where the run has no
/// error class, whatever that code is, and with the codes of a stop where it was
/// stopped.
pub proof fn law_session_mirrors_its_child(
    id: Seq<char>,
    r: ResultView,
    pid: u32,
    now: u64,
    truncated_log: bool,
    prev: Option<SessionView>,
    rc: i32,
)
    ensures
        ({
            let st = finished_view(id, r, pid, now, truncated_log, prev);
            &&& !r.timed_out && !r.aborted && r.error_class is None && r.exit_code == Some(rc) && 0
                <= rc <= 255 ==> state_result_code(st) == rc
            &&& r.timed_out ==> state_result_code(st) == 124
            &&& !r.timed_out && r.aborted ==> state_result_code(st) == 130
            &&& r.timed_out || r.aborted || r.error_class is None ==> state_result_code(st)
                == result_code(r)
        }),
{
    let st = finished_view(id, r, pid, now, truncated_log, prev);
    law_status_says_how_the_run_ended(r);
    law_session_code_contract(st, rc);
}

/// A stream as it is written to the terminal: with a line feed at its end.
pub open spec fn ended(s: Seq<char>) -> Seq<char> {
    if s.len() > 0 && s.last() != '\n' {
        s.push('\n')
    } else {
        s
    }
}

/// What is written to the terminal is the stream, with one line feed more where it
/// does not end with one; of an empty stream nothing is written.
pub proof fn law_terminal_text_ends_a_line(s: Seq<char>)
    ensures
        s.len() == 0 ==> ended(s) == s,
        s.len() > 0 ==> ended(s).last() == '\n',
        s.len() > 0 && s.last() == '\n' ==> ended(s) == s,
        s.len() > 0 && s.last() != '\n' ==> ended(s).drop_last() == s,
{
    assert(s.push('\n').drop_last() =~= s);
}

/// A stream as it is written to the terminal.
pub fn terminal_text(s: &str) -> (r: String)
    ensures
        r@ == ended(s@),
{
    let v = chars_of(s);
    let mut out = s.to_string();
    if v.len() > 0 && v[v.len() - 1] != '\n' {
        out.push('\n');
    }
    out
}

} // verus!
