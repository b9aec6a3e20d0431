//! Error-map library: curated, evidence-based stderr patterns for common
//! toolchains, and the patterns that a project adds to them.
//!
//! A pattern is a substring that is searched in the flattened stderr: lower
//! case, every run of white space one blank. Console line wrapping can so
//! never break a match. A project's pattern may carry `*` at either end; these
//! are dropped, and the rest is searched like any other pattern.
//!
//! The library is conservative: a pattern ships only where its class and hint
//! are certain.

use vstd::prelude::*;

use crate::recipe::{EntryView, ErrorMapEntry};
use crate::text::{
    all_ascii, chars_of, contains, has_text, is_empty_text, is_space, join, join_texts,
    lemma_trim_end, lemma_trim_start, lemma_trim_start_is, lemma_word_len, lemma_word_len_is,
    lower_ascii, lower_char, occurs_at, split_words, text_of, to_lowercase, trim, trim_start,
    trimmed, unicode_lower, word_len, words,
};
use crate::textmap::{
    deep, has_key, lemma_text_lt_total, lemma_value_of, sorted, text_lt, TextMap,
};

verus! {

broadcast use vstd::seq::group_seq_axioms;

// ---------------------------------------------------------------------------
// The built-in library
// ---------------------------------------------------------------------------

/// One curated pattern: where it matches, the run gets `class` and `hint`.
#[derive(Debug, Clone, Copy)]
pub struct ErrorPattern {
    /// Lower-case substring searched in the flattened stderr.
    pub pattern: &'static str,
    /// Stable error class.
    pub class: &'static str,
    /// What to do about the error.
    pub hint: &'static str,
}

/// The views of a list of patterns: pattern, class and hint of each.
pub open spec fn pattern_texts(v: Seq<ErrorPattern>) -> Seq<(Seq<char>, Seq<char>, Seq<char>)> {
    v.map_values(|p: ErrorPattern| (p.pattern@, p.class@, p.hint@))
}

/// The built-in library, grouped by ecosystem: pattern, class and hint.
pub open spec fn builtin_table() -> Seq<(Seq<char>, Seq<char>, Seq<char>)> {
    seq![
        // Generic / shell
        (
            "command not found"@,
            "COMMAND_NOT_FOUND"@,
            "a command is missing; install it, or check PATH on the target"@,
        ),
        (
            "is not recognized as the name of a cmdlet"@,
            "COMMAND_NOT_FOUND"@,
            "the PowerShell command does not exist; check the module/command name"@,
        ),
        (
            "is not recognized as an internal or external command"@,
            "COMMAND_NOT_FOUND"@,
            "the cmd.exe command does not exist; check the name or PATH"@,
        ),
        (
            "permission denied (publickey"@,
            "PERMISSION"@,
            "SSH public-key authentication failed; check your key, ssh-agent, or remote authorized_keys"@,
        ),
        (
            "permission denied"@,
            "PERMISSION"@,
            "the process lacks permission; check file ownership, mode bits, or policy"@,
        ),
        (
            "denied: requested access to the resource is denied"@,
            "PERMISSION"@,
            "the registry/repository denied access; check credentials and repository permissions"@,
        ),
        (
            "no such file or directory"@,
            "NOT_FOUND"@,
            "a referenced file or directory does not exist; verify paths before retrying"@,
        ),
        (
            "cannot find the path"@,
            "NOT_FOUND"@,
            "a referenced path does not exist on the target; verify it before retrying"@,
        ),
        (
            "cannot find the file"@,
            "NOT_FOUND"@,
            "a referenced file does not exist on the target; verify it before retrying"@,
        ),
        (
            "syntax error"@,
            "SYNTAX"@,
            "the script has a syntax error; review quoting and line structure"@,
        ),
        (
            "unexpected token"@,
            "SYNTAX"@,
            "the script has a shell syntax error; review quoting and line structure"@,
        ),
        (
            "syntaxerror"@,
            "SYNTAX"@,
            "the Python source has a syntax error; review the flagged line"@,
        ),
        (
            "indentationerror"@,
            "SYNTAX"@,
            "the Python source has an indentation error; check mixed tabs/spaces"@,
        ),
        // Python
        (
            "windows subsystem for linux has no installed distributions"@,
            "COMMAND_NOT_FOUND"@,
            "the WSL bash shim was invoked with no distro installed; install a WSL distribution or use Git Bash / PowerShell"@,
        ),
        (
            "modulenotfounderror"@,
            "DEPENDENCY_MISSING"@,
            "a Python module is missing; sync the project environment (e.g. `uv sync` / `pip install -r requirements.txt`)"@,
        ),
        (
            "no module named"@,
            "DEPENDENCY_MISSING"@,
            "a Python module is missing; install it into the active environment"@,
        ),
        (
            "importerror"@,
            "DEPENDENCY_MISSING"@,
            "a Python import failed; check the installed packages and environment"@,
        ),
        (
            "no matching distribution found"@,
            "DEPENDENCY_MISSING"@,
            "the package is not available on the configured index; check the package name or index"@,
        ),
        (
            "externally-managed-environment"@,
            "PERMISSION"@,
            "system Python is externally managed (PEP 668); use a virtualenv or `uv` instead of system pip"@,
        ),
        (
            "can't open file"@,
            "NOT_FOUND"@,
            "Python cannot open the script file; check the path passed to the interpreter"@,
        ),
        // Node / npm / pnpm
        (
            "cannot find module"@,
            "DEPENDENCY_MISSING"@,
            "a Node module is missing; run `npm install` / `pnpm install` / `yarn`"@,
        ),
        (
            "enoent"@,
            "NOT_FOUND"@,
            "a file or module referenced by Node does not exist; check the path"@,
        ),
        // Rust / cargo
        (
            "error[e0432]"@,
            "DEPENDENCY_MISSING"@,
            "a Rust crate import could not be resolved; add the dependency to Cargo.toml"@,
        ),
        (
            "error[e0425]"@,
            "DEPENDENCY_MISSING"@,
            "a Rust item could not be found; check imports, feature flags, and crate versions"@,
        ),
        (
            "error[e"@,
            "COMPILE_ERROR"@,
            "the Rust compiler rejected the code; fix the flagged diagnostics before retrying"@,
        ),
        (
            "error: could not compile"@,
            "COMPILE_ERROR"@,
            "cargo could not compile the crate; fix the compiler diagnostics"@,
        ),
        // Go
        (
            "no required module provides package"@,
            "DEPENDENCY_MISSING"@,
            "a Go module dependency is missing; run `go mod tidy`"@,
        ),
        // TypeScript / tsc
        (
            "error ts"@,
            "COMPILE_ERROR"@,
            "the TypeScript compiler rejected the code; fix the flagged diagnostics"@,
        ),
        (
            "tsc: error"@,
            "COMPILE_ERROR"@,
            "the TypeScript compiler rejected the code; fix the flagged diagnostics"@,
        ),
        // Git
        (
            "fatal: not a git repository"@,
            "NOT_FOUND"@,
            "the current directory is not inside a git repository; run from the repo root"@,
        ),
        (
            "fatal: authentication failed"@,
            "PERMISSION"@,
            "git authentication failed; refresh credentials (credential helper, token, or SSH key)"@,
        ),
        (
            "fatal: unable to access"@,
            "NETWORK"@,
            "git could not reach the remote; check network, proxy, and remote URL"@,
        ),
        (
            "remote: repository not found"@,
            "NOT_FOUND"@,
            "the remote repository does not exist or is private; check the remote URL"@,
        ),
        // Network (generic)
        (
            "could not resolve host"@,
            "NETWORK"@,
            "DNS resolution failed; check the hostname and network/DNS configuration"@,
        ),
        (
            "connection refused"@,
            "NETWORK"@,
            "the remote endpoint refused the connection; check that the service is running and the port is right"@,
        ),
        (
            "connection timed out"@,
            "NETWORK"@,
            "the connection timed out; check the endpoint reachability and firewall"@,
        ),
        (
            "network is unreachable"@,
            "NETWORK"@,
            "the network is unreachable; check connectivity, VPN, or sandbox restrictions"@,
        ),
        (
            "temporary failure in name resolution"@,
            "NETWORK"@,
            "DNS resolution temporarily failed; retry or check the DNS configuration"@,
        ),
        (
            "failed to connect to"@,
            "NETWORK"@,
            "a connection to a remote service failed; check reachability and credentials"@,
        ),
    ]
}

/// The built-in library.
pub fn builtin() -> (r: Vec<ErrorPattern>)
    ensures
        pattern_texts(r@) == builtin_table(),
{
    let r = vec![
        // Generic / shell
        ErrorPattern {
            pattern: "command not found",
            class: "COMMAND_NOT_FOUND",
            hint: "a command is missing; install it, or check PATH on the target",
        },
        ErrorPattern {
            pattern: "is not recognized as the name of a cmdlet",
            class: "COMMAND_NOT_FOUND",
            hint: "the PowerShell command does not exist; check the module/command name",
        },
        ErrorPattern {
            pattern: "is not recognized as an internal or external command",
            class: "COMMAND_NOT_FOUND",
            hint: "the cmd.exe command does not exist; check the name or PATH",
        },
        ErrorPattern {
            pattern: "permission denied (publickey",
            class: "PERMISSION",
            hint: "SSH public-key authentication failed; check your key, ssh-agent, or remote authorized_keys",
        },
        ErrorPattern {
            pattern: "permission denied",
            class: "PERMISSION",
            hint: "the process lacks permission; check file ownership, mode bits, or policy",
        },
        ErrorPattern {
            pattern: "denied: requested access to the resource is denied",
            class: "PERMISSION",
            hint: "the registry/repository denied access; check credentials and repository permissions",
        },
        ErrorPattern {
            pattern: "no such file or directory",
            class: "NOT_FOUND",
            hint: "a referenced file or directory does not exist; verify paths before retrying",
        },
        ErrorPattern {
            pattern: "cannot find the path",
            class: "NOT_FOUND",
            hint: "a referenced path does not exist on the target; verify it before retrying",
        },
        ErrorPattern {
            pattern: "cannot find the file",
            class: "NOT_FOUND",
            hint: "a referenced file does not exist on the target; verify it before retrying",
        },
        ErrorPattern {
            pattern: "syntax error",
            class: "SYNTAX",
            hint: "the script has a syntax error; review quoting and line structure",
        },
        ErrorPattern {
            pattern: "unexpected token",
            class: "SYNTAX",
            hint: "the script has a shell syntax error; review quoting and line structure",
        },
        ErrorPattern {
            pattern: "syntaxerror",
            class: "SYNTAX",
            hint: "the Python source has a syntax error; review the flagged line",
        },
        ErrorPattern {
            pattern: "indentationerror",
            class: "SYNTAX",
            hint: "the Python source has an indentation error; check mixed tabs/spaces",
        },
        // Python
        ErrorPattern {
            pattern: "windows subsystem for linux has no installed distributions",
            class: "COMMAND_NOT_FOUND",
            hint: "the WSL bash shim was invoked with no distro installed; install a WSL distribution or use Git Bash / PowerShell",
        },
        ErrorPattern {
            pattern: "modulenotfounderror",
            class: "DEPENDENCY_MISSING",
            hint: "a Python module is missing; sync the project environment (e.g. `uv sync` / `pip install -r requirements.txt`)",
        },
        ErrorPattern {
            pattern: "no module named",
            class: "DEPENDENCY_MISSING",
            hint: "a Python module is missing; install it into the active environment",
        },
        ErrorPattern {
            pattern: "importerror",
            class: "DEPENDENCY_MISSING",
            hint: "a Python import failed; check the installed packages and environment",
        },
        ErrorPattern {
            pattern: "no matching distribution found",
            class: "DEPENDENCY_MISSING",
            hint: "the package is not available on the configured index; check the package name or index",
        },
        ErrorPattern {
            pattern: "externally-managed-environment",
            class: "PERMISSION",
            hint: "system Python is externally managed (PEP 668); use a virtualenv or `uv` instead of system pip",
        },
        ErrorPattern {
            pattern: "can't open file",
            class: "NOT_FOUND",
            hint: "Python cannot open the script file; check the path passed to the interpreter",
        },
        // Node / npm / pnpm
        ErrorPattern {
            pattern: "cannot find module",
            class: "DEPENDENCY_MISSING",
            hint: "a Node module is missing; run `npm install` / `pnpm install` / `yarn`",
        },
        ErrorPattern {
            pattern: "enoent",
            class: "NOT_FOUND",
            hint: "a file or module referenced by Node does not exist; check the path",
        },
        // Rust / cargo
        ErrorPattern {
            pattern: "error[e0432]",
            class: "DEPENDENCY_MISSING",
            hint: "a Rust crate import could not be resolved; add the dependency to Cargo.toml",
        },
        ErrorPattern {
            pattern: "error[e0425]",
            class: "DEPENDENCY_MISSING",
            hint: "a Rust item could not be found; check imports, feature flags, and crate versions",
        },
        ErrorPattern {
            pattern: "error[e",
            class: "COMPILE_ERROR",
            hint: "the Rust compiler rejected the code; fix the flagged diagnostics before retrying",
        },
        ErrorPattern {
            pattern: "error: could not compile",
            class: "COMPILE_ERROR",
            hint: "cargo could not compile the crate; fix the compiler diagnostics",
        },
        // Go
        ErrorPattern {
            pattern: "no required module provides package",
            class: "DEPENDENCY_MISSING",
            hint: "a Go module dependency is missing; run `go mod tidy`",
        },
        // TypeScript / tsc
        ErrorPattern {
            pattern: "error ts",
            class: "COMPILE_ERROR",
            hint: "the TypeScript compiler rejected the code; fix the flagged diagnostics",
        },
        ErrorPattern {
            pattern: "tsc: error",
            class: "COMPILE_ERROR",
            hint: "the TypeScript compiler rejected the code; fix the flagged diagnostics",
        },
        // Git
        ErrorPattern {
            pattern: "fatal: not a git repository",
            class: "NOT_FOUND",
            hint: "the current directory is not inside a git repository; run from the repo root",
        },
        ErrorPattern {
            pattern: "fatal: authentication failed",
            class: "PERMISSION",
            hint: "git authentication failed; refresh credentials (credential helper, token, or SSH key)",
        },
        ErrorPattern {
            pattern: "fatal: unable to access",
            class: "NETWORK",
            hint: "git could not reach the remote; check network, proxy, and remote URL",
        },
        ErrorPattern {
            pattern: "remote: repository not found",
            class: "NOT_FOUND",
            hint: "the remote repository does not exist or is private; check the remote URL",
        },
        // Network (generic)
        ErrorPattern {
            pattern: "could not resolve host",
            class: "NETWORK",
            hint: "DNS resolution failed; check the hostname and network/DNS configuration",
        },
        ErrorPattern {
            pattern: "connection refused",
            class: "NETWORK",
            hint: "the remote endpoint refused the connection; check that the service is running and the port is right",
        },
        ErrorPattern {
            pattern: "connection timed out",
            class: "NETWORK",
            hint: "the connection timed out; check the endpoint reachability and firewall",
        },
        ErrorPattern {
            pattern: "network is unreachable",
            class: "NETWORK",
            hint: "the network is unreachable; check connectivity, VPN, or sandbox restrictions",
        },
        ErrorPattern {
            pattern: "temporary failure in name resolution",
            class: "NETWORK",
            hint: "DNS resolution temporarily failed; retry or check the DNS configuration",
        },
        ErrorPattern {
            pattern: "failed to connect to",
            class: "NETWORK",
            hint: "a connection to a remote service failed; check reachability and credentials",
        },
    ];
    proof {
        assert(pattern_texts(r@) =~= builtin_table());
    }
    r
}

/// Class and hint of the first pattern that stands in `flat`.
pub open spec fn first_match(
    table: Seq<(Seq<char>, Seq<char>, Seq<char>)>,
    flat: Seq<char>,
) -> Option<(Seq<char>, Seq<char>)>
    decreases table.len(),
{
    if table.len() == 0 {
        None
    } else if has_text(flat, table[0].0) {
        Some((table[0].1, table[0].2))
    } else {
        first_match(table.drop_first(), flat)
    }
}

/// Match the built-in library against flattened stderr.
pub fn match_builtin(flat: &str) -> (r: Option<(&'static str, &'static str)>)
    ensures
        match r {
            Some(m) => first_match(builtin_table(), flat@) == Some((m.0@, m.1@)),
            None => first_match(builtin_table(), flat@) is None,
        },
{
    let table = builtin();
    let ghost all = pattern_texts(table@);
    let mut i: usize = 0;
    proof {
        assert(all.skip(0) =~= all);
    }
    while i < table.len()
        invariant
            i <= table.len(),
            all == pattern_texts(table@),
            all == builtin_table(),
            first_match(all.skip(i as int), flat@) == first_match(builtin_table(), flat@),
        decreases table.len() - i,
    {
        let p = table[i];
        if contains(flat, p.pattern) {
            return Some((p.class, p.hint));
        }
        proof {
            assert(all.skip(i as int).drop_first() =~= all.skip(i + 1));
        }
        i += 1;
    }
    None
}

// ---------------------------------------------------------------------------
// Flattening
// ---------------------------------------------------------------------------

/// `s` with every run of white space one blank, and none at either end.
pub open spec fn collapsed(s: Seq<char>) -> Seq<char> {
    join(words(s), " "@)
}

/// What patterns are matched against.
pub open spec fn flat_text(s: Seq<char>) -> Seq<char> {
    unicode_lower(collapsed(s))
}

/// Collapse all white space to single blanks and turn to lower case.
pub fn flatten(text: &str) -> (r: String)
    ensures
        r@ == flat_text(text@),
        all_ascii(collapsed(text@)) ==> r@ == lower_ascii(collapsed(text@)),
        all_ascii(text@) ==> r@ == lower_ascii(collapsed(text@)),
{
    let parts = split_words(text);
    let joined = join_texts(&parts, " ");
    proof {
        if all_ascii(text@) {
            lemma_words_are_ascii(text@);
            lemma_join_is_ascii(words(text@));
        }
    }
    to_lowercase(joined.as_str())
}

proof fn lemma_words_are_ascii(s: Seq<char>)
    requires
        all_ascii(s),
    ensures
        forall|i: int| 0 <= i < words(s).len() ==> all_ascii(#[trigger] words(s)[i]),
    decreases s.len(),
{
    let t = trim_start(s);
    lemma_trim_start(s);
    if t.len() > 0 {
        lemma_word_len(t);
        let k = word_len(t) as int;
        let rest = t.skip(k);
        assert forall|i: int| 0 <= i < t.len() implies (#[trigger] t[i] as u32) < 128 by {
            assert(t[i] == s[i + (s.len() - t.len())]);
        }
        assert(all_ascii(rest));
        lemma_words_are_ascii(rest);
        assert forall|i: int| 0 <= i < words(s).len() implies all_ascii(#[trigger] words(s)[i]) by {
            if i > 0 {
                assert(words(s)[i] == words(rest)[i - 1]);
            }
        }
    }
}

proof fn lemma_join_is_ascii(parts: Seq<Seq<char>>)
    requires
        forall|i: int| 0 <= i < parts.len() ==> all_ascii(#[trigger] parts[i]),
    ensures
        all_ascii(join(parts, " "@)),
    decreases parts.len(),
{
    reveal_strlit(" ");
    if parts.len() >= 1 {
        assert(all_ascii(parts[0]));
        assert(all_ascii(parts.last()));
        if parts.len() >= 2 {
            lemma_join_is_ascii(parts.drop_last());
        }
    }
}

/// White space between two texts keeps their words apart, whatever and how
/// much of it there is.
pub proof fn lemma_words_apart(p: Seq<char>, w: Seq<char>, q: Seq<char>)
    requires
        w.len() > 0,
        forall|i: int| 0 <= i < w.len() ==> is_space(#[trigger] w[i]),
    ensures
        words(p + w + q) == words(p) + words(q),
    decreases p.len(),
{
    let s = p + w + q;
    let t = trim_start(p);
    lemma_trim_start(p);
    let cut = p.len() - t.len();
    if t.len() == 0 {
        lemma_trim_start(q);
        let n = p.len() + w.len() + (q.len() - trim_start(q).len());
        assert forall|i: int| 0 <= i < n implies is_space(#[trigger] s[i]) by {
            if i >= p.len() && i < p.len() + w.len() {
                assert(s[i] == w[i - p.len()]);
            } else if i >= p.len() + w.len() {
                assert(s[i] == q[i - p.len() - w.len()]);
            }
        }
        if n < s.len() {
            assert(s[n] == trim_start(q)[0]);
        }
        lemma_trim_start_is(s, n);
        assert(s.skip(n) =~= trim_start(q));
        assert(words(p) =~= Seq::<Seq<char>>::empty());
        assert(words(s) =~= words(q));
    } else {
        lemma_word_len(t);
        let k = word_len(t) as int;
        let u = t + w + q;
        assert forall|i: int| 0 <= i < cut implies is_space(#[trigger] s[i]) by {
            assert(s[i] == p[i]);
        }
        assert(s[cut] == t[0]);
        lemma_trim_start_is(s, cut);
        assert(s.skip(cut) =~= u);
        assert forall|i: int| 0 <= i < k implies !is_space(#[trigger] u[i]) by {
            assert(u[i] == t[i]);
        }
        assert(is_space(u[k])) by {
            if k < t.len() {
                assert(u[k] == t[k]);
            } else {
                assert(u[k] == w[0]);
            }
        }
        lemma_word_len_is(u, k);
        assert(u.take(k) =~= t.take(k));
        assert(u.skip(k) =~= t.skip(k) + w + q);
        lemma_words_apart(t.skip(k), w, q);
        assert(words(s) =~= seq![t.take(k)] + (words(t.skip(k)) + words(q)));
        assert(words(p) + words(q) =~= seq![t.take(k)] + (words(t.skip(k)) + words(q)));
    }
}

/// Line wrapping never changes what patterns are matched against: one run of
/// white space may stand for another anywhere in a text.
pub proof fn law_wrapping_keeps_flat_text(
    p: Seq<char>,
    w: Seq<char>,
    v: Seq<char>,
    q: Seq<char>,
)
    requires
        w.len() > 0,
        v.len() > 0,
        forall|i: int| 0 <= i < w.len() ==> is_space(#[trigger] w[i]),
        forall|i: int| 0 <= i < v.len() ==> is_space(#[trigger] v[i]),
    ensures
        flat_text(p + w + q) == flat_text(p + v + q),
{
    lemma_words_apart(p, w, q);
    lemma_words_apart(p, v, q);
}

proof fn lemma_words_hold_no_space(s: Seq<char>)
    ensures
        forall|i: int, j: int|
            0 <= i < words(s).len() && 0 <= j < words(s)[i].len() ==> !is_space(
                #[trigger] words(s)[i][j],
            ),
        forall|i: int| 0 <= i < words(s).len() ==> (#[trigger] words(s)[i]).len() > 0,
    decreases s.len(),
{
    let t = trim_start(s);
    lemma_trim_start(s);
    if t.len() > 0 {
        lemma_word_len(t);
        let k = word_len(t) as int;
        let rest = t.skip(k);
        lemma_words_hold_no_space(rest);
        assert forall|i: int, j: int|
            0 <= i < words(s).len() && 0 <= j < words(s)[i].len() implies !is_space(
            #[trigger] words(s)[i][j],
        ) by {
            if i == 0 {
                assert(words(s)[0][j] == t[j]);
            } else {
                assert(words(s)[i] == words(rest)[i - 1]);
            }
        }
        assert forall|i: int| 0 <= i < words(s).len() implies (#[trigger] words(s)[i]).len()
            > 0 by {
            if i > 0 {
                assert(words(s)[i] == words(rest)[i - 1]);
            }
        }
    }
}

/// Joined words start and end with no white space, and what white space they
/// hold is single blanks.
proof fn lemma_join_shape(parts: Seq<Seq<char>>)
    requires
        forall|i: int, j: int|
            0 <= i < parts.len() && 0 <= j < parts[i].len() ==> !is_space(#[trigger] parts[i][j]),
        forall|i: int| 0 <= i < parts.len() ==> (#[trigger] parts[i]).len() > 0,
    ensures
        single_blanks(join(parts, " "@)),
        parts.len() > 0 ==> join(parts, " "@).len() > 0,
    decreases parts.len(),
{
    reveal_strlit(" ");
    let whole = join(parts, " "@);
    if parts.len() >= 1 {
        let last = parts[parts.len() - 1];
        assert(last.len() > 0);
        assert forall|j: int| 0 <= j < last.len() implies !is_space(#[trigger] last[j]) by {
            assert(!is_space(parts[parts.len() - 1][j]));
        }
        if parts.len() == 1 {
            assert(whole == last);
        } else {
            let front = parts.drop_last();
            assert forall|i: int, j: int|
                0 <= i < front.len() && 0 <= j < front[i].len() implies !is_space(
                #[trigger] front[i][j],
            ) by {
                assert(front[i] == parts[i]);
                assert(!is_space(parts[i][j]));
            }
            assert forall|i: int| 0 <= i < front.len() implies (#[trigger] front[i]).len() > 0 by {
                assert(front[i] == parts[i]);
            }
            lemma_join_shape(front);
            let head = join(front, " "@);
            assert(head.len() > 0);
            assert(whole == head + " "@ + last);
            assert(whole[0] == head[0]);
            assert(whole.last() == last[last.len() - 1]);
            assert forall|k: int| 0 <= k < whole.len() && is_space(#[trigger] whole[k]) implies {
                &&& whole[k] == ' '
                &&& k + 1 < whole.len()
                &&& !is_space(whole[k + 1])
            } by {
                if k < head.len() {
                    assert(whole[k] == head[k]);
                    assert(k + 1 < head.len());
                    assert(whole[k + 1] == head[k + 1]);
                } else if k == head.len() {
                    assert(whole[k + 1] == last[0]);
                } else {
                    assert(whole[k] == last[k - head.len() - 1]);
                }
            }
        }
    }
}

/// Words are found again in the text that they are joined to.
proof fn lemma_words_of_join(parts: Seq<Seq<char>>)
    requires
        forall|i: int, j: int|
            0 <= i < parts.len() && 0 <= j < parts[i].len() ==> !is_space(#[trigger] parts[i][j]),
        forall|i: int| 0 <= i < parts.len() ==> (#[trigger] parts[i]).len() > 0,
    ensures
        words(join(parts, " "@)) == parts,
    decreases parts.len(),
{
    reveal_strlit(" ");
    if parts.len() == 0 {
        assert(words(join(parts, " "@)) =~= parts);
    } else {
        let last = parts.last();
        assert(last == parts[parts.len() - 1]);
        assert forall|j: int| 0 <= j < last.len() implies !is_space(#[trigger] last[j]) by {
            assert(!is_space(parts[parts.len() - 1][j]));
        }
        lemma_one_word(last);
        if parts.len() == 1 {
            assert(words(join(parts, " "@)) =~= parts);
        } else {
            let front = parts.drop_last();
            assert forall|i: int, j: int|
                0 <= i < front.len() && 0 <= j < front[i].len() implies !is_space(
                #[trigger] front[i][j],
            ) by {
                assert(front[i] == parts[i]);
                assert(!is_space(parts[i][j]));
            }
            assert forall|i: int| 0 <= i < front.len() implies (#[trigger] front[i]).len() > 0 by {
                assert(front[i] == parts[i]);
            }
            lemma_words_of_join(front);
            lemma_words_apart(join(front, " "@), " "@, last);
            assert(words(join(parts, " "@)) =~= front + seq![last]);
            assert(front + seq![last] =~= parts);
        }
    }
}

proof fn lemma_one_word(w: Seq<char>)
    requires
        w.len() > 0,
        forall|j: int| 0 <= j < w.len() ==> !is_space(#[trigger] w[j]),
    ensures
        words(w) == seq![w],
{
    assert(!is_space(w[0]));
    lemma_trim_start_is(w, 0);
    assert(w.skip(0) =~= w);
    lemma_word_len_is(w, w.len() as int);
    assert(w.take(w.len() as int) =~= w);
    let rest = w.skip(w.len() as int);
    assert(rest.len() == 0);
    assert(words(rest) =~= Seq::<Seq<char>>::empty());
    assert(words(w) =~= seq![w]);
}

/// The parts in lower case, joined, are the joined parts in lower case.
proof fn lemma_lower_of_join(parts: Seq<Seq<char>>)
    ensures
        lower_ascii(join(parts, " "@)) == join(
            parts.map_values(|w: Seq<char>| lower_ascii(w)),
            " "@,
        ),
    decreases parts.len(),
{
    reveal_strlit(" ");
    let f = |w: Seq<char>| lower_ascii(w);
    let low = parts.map_values(f);
    if parts.len() == 0 {
        assert(lower_ascii(join(parts, " "@)) =~= join(low, " "@));
    } else if parts.len() > 1 {
        lemma_lower_of_join(parts.drop_last());
        assert(low.drop_last() =~= parts.drop_last().map_values(f));
        assert(lower_ascii(" "@) =~= " "@);
        assert(lower_ascii(join(parts, " "@)) =~= join(low, " "@));
    }
}

/// A text without white space at either end, in which all white space is single
/// blanks.
pub open spec fn single_blanks(s: Seq<char>) -> bool {
    &&& s.len() > 0 ==> !is_space(s[0]) && !is_space(s.last())
    &&& forall|k: int|
        0 <= k < s.len() && is_space(#[trigger] s[k]) ==> s[k] == ' ' && k + 1 < s.len()
            && !is_space(s[k + 1])
}

/// A collapsed text holds the same words with single blanks between them and no
/// other white space, and collapsing it again changes nothing.
pub proof fn law_collapsed_is_settled(s: Seq<char>)
    ensures
        single_blanks(collapsed(s)),
        words(collapsed(s)) == words(s),
        collapsed(collapsed(s)) == collapsed(s),
{
    lemma_words_hold_no_space(s);
    lemma_words_of_join(words(s));
    lemma_join_shape(words(s));
}

/// The first part, the separator and the other parts joined.
proof fn lemma_join_from_the_front(parts: Seq<Seq<char>>, sep: Seq<char>)
    requires
        parts.len() > 1,
    ensures
        join(parts, sep) == parts[0] + sep + join(parts.drop_first(), sep),
    decreases parts.len(),
{
    let rest = parts.drop_first();
    let front = parts.drop_last();
    if parts.len() > 2 {
        lemma_join_from_the_front(front, sep);
        assert(front.drop_first() =~= rest.drop_last());
        assert(join(parts, sep) =~= parts[0] + sep + join(rest, sep));
    } else {
        assert(join(front, sep) == parts[0]);
        assert(join(rest, sep) == parts[1]);
    }
}

/// A text whose only white space is single blanks between words is left as it
/// is, so that flattening it is turning it to lower case.
pub proof fn law_single_blanks_are_kept(s: Seq<char>)
    requires
        single_blanks(s),
    ensures
        collapsed(s) == s,
        flat_text(s) == unicode_lower(s),
    decreases s.len(),
{
    reveal_strlit(" ");
    lemma_trim_start_is(s, 0);
    assert(s.skip(0) =~= s);
    if s.len() == 0 {
        assert(words(s) =~= Seq::<Seq<char>>::empty());
        assert(collapsed(s) =~= s);
    } else {
        lemma_word_len(s);
        let k = word_len(s) as int;
        let w = s.take(k);
        let rest = s.skip(k);
        if k == s.len() {
            assert(words(rest) =~= Seq::<Seq<char>>::empty());
            assert(words(s) =~= seq![s]);
        } else {
            let t = s.skip(k + 1);
            assert(is_space(s[k]));
            assert(rest[0] == s[k] && rest[1] == s[k + 1]);
            lemma_trim_start_is(rest, 1);
            assert(rest.skip(1) =~= t);
            assert(t[0] == s[k + 1]);
            lemma_trim_start_is(t, 0);
            assert(t.skip(0) =~= t);
            assert(words(rest) == words(t));
            assert(t.last() == s.last());
            assert forall|i: int| 0 <= i < t.len() && is_space(#[trigger] t[i]) implies {
                &&& t[i] == ' '
                &&& i + 1 < t.len()
                &&& !is_space(t[i + 1])
            } by {
                assert(t[i] == s[i + k + 1]);
                assert(t[i + 1] == s[i + k + 2]);
            }
            law_single_blanks_are_kept(t);
            let all = words(s);
            assert(all =~= seq![w] + words(t));
            assert(all.drop_first() =~= words(t));
            lemma_join_from_the_front(all, " "@);
            assert(s =~= w + " "@ + t);
        }
    }
}

/// Flattening a text of ASCII words, whatever white space stands around and
/// between them, leaves single blanks as its only white space, and flattening
/// what is already flat changes nothing.
pub proof fn law_flatten_is_idempotent(s: Seq<char>)
    ensures
        single_blanks(lower_ascii(collapsed(s))),
        lower_ascii(collapsed(lower_ascii(collapsed(s)))) == lower_ascii(collapsed(s)),
        all_ascii(collapsed(s)) ==> all_ascii(lower_ascii(collapsed(s))),
        all_ascii(s) ==> all_ascii(collapsed(s)),
{
    let f = |w: Seq<char>| lower_ascii(w);
    let ws = words(s);
    let low = ws.map_values(f);
    lemma_words_hold_no_space(s);
    lemma_lower_of_join(ws);
    assert forall|i: int, j: int|
        0 <= i < low.len() && 0 <= j < low[i].len() implies !is_space(#[trigger] low[i][j]) by {
        assert(!is_space(ws[i][j]));
        assert(low[i][j] == lower_char(ws[i][j]));
    }
    assert forall|i: int| 0 <= i < low.len() implies (#[trigger] low[i]).len() > 0 by {
        assert(ws[i].len() > 0);
    }
    lemma_words_of_join(low);
    lemma_join_shape(low);
    let flat = lower_ascii(collapsed(s));
    assert(collapsed(flat) == flat);
    assert(lower_ascii(flat) =~= flat);
    if all_ascii(s) {
        lemma_words_are_ascii(s);
        lemma_join_is_ascii(ws);
    }
    let c = collapsed(s);
    if all_ascii(c) {
        assert forall|i: int| 0 <= i < flat.len() implies (#[trigger] flat[i] as u32) < 128 by {
            assert((c[i] as u32) < 128);
            assert(flat[i] == lower_char(c[i]));
        }
    }
}

/// What one more character in front makes of a collapsed text.
proof fn lemma_collapsed_from_the_front(c: char, s: Seq<char>)
    ensures
        is_space(c) ==> collapsed(seq![c] + s) == collapsed(s),
        !is_space(c) && words(s).len() == 0 ==> collapsed(seq![c] + s) == seq![c],
        !is_space(c) && words(s).len() > 0 && is_space(s[0]) ==> collapsed(seq![c] + s) == seq![c]
            + " "@ + collapsed(s),
        !is_space(c) && words(s).len() > 0 && !is_space(s[0]) ==> collapsed(seq![c] + s) == seq![c]
            + collapsed(s),
{
    reveal_strlit(" ");
    let t = seq![c] + s;
    assert(t.drop_first() =~= s);
    if is_space(c) {
        assert(trim_start(t) == trim_start(s));
        assert(words(t) =~= words(s));
    } else {
        let k = word_len(s) as int;
        lemma_word_len(s);
        assert(word_len(t) == 1 + k);
        assert(t.take(k + 1) =~= seq![c] + s.take(k));
        assert(t.skip(k + 1) =~= s.skip(k));
        assert(words(t) == seq![seq![c] + s.take(k)] + words(s.skip(k)));
        if s.len() == 0 || is_space(s[0]) {
            assert(k == 0);
            assert(s.skip(0) =~= s);
            assert(seq![c] + s.take(0) =~= seq![c]);
            let all = words(t);
            assert(all =~= seq![seq![c]] + words(s));
            if words(s).len() > 0 {
                assert(all.drop_first() =~= words(s));
                lemma_join_from_the_front(all, " "@);
            } else {
                assert(all =~= seq![seq![c]]);
            }
        } else {
            assert(trim_start(s) == s);
            let rest = words(s.skip(k));
            let all = words(t);
            let old_all = words(s);
            assert(old_all == seq![s.take(k)] + rest);
            if rest.len() > 0 {
                assert(all.drop_first() =~= rest);
                assert(old_all.drop_first() =~= rest);
                lemma_join_from_the_front(all, " "@);
                lemma_join_from_the_front(old_all, " "@);
                assert(collapsed(t) =~= seq![c] + collapsed(s));
            } else {
                assert(all =~= seq![seq![c] + s.take(k)]);
                assert(old_all =~= seq![s.take(k)]);
                assert(collapsed(t) =~= seq![c] + collapsed(s));
            }
        }
    }
}

/// A text that starts with no white space has words.
proof fn lemma_has_words(s: Seq<char>)
    requires
        s.len() > 0,
        !is_space(s[0]),
    ensures
        words(s).len() > 0,
{
    assert(trim_start(s) == s);
}

/// A phrase with single blanks at the front of a text is left at its front.
proof fn lemma_phrase_in_front_stays(p: Seq<char>, b: Seq<char>)
    requires
        p.len() > 0,
        single_blanks(p),
    ensures
        words(p + b).len() > 0,
        collapsed(p + b).len() >= p.len(),
        collapsed(p + b).take(p.len() as int) == p,
    decreases p.len(),
{
    reveal_strlit(" ");
    let s = p + b;
    assert(s[0] == p[0]);
    lemma_has_words(s);
    let tail = s.drop_first();
    assert(s =~= seq![p[0]] + tail);
    lemma_collapsed_from_the_front(p[0], tail);
    if p.len() == 1 {
        assert(collapsed(s)[0] == p[0]);
        assert(collapsed(s).take(1) =~= p);
    } else {
        let n = if is_space(p[1]) {
            2int
        } else {
            1int
        };
        let q = p.skip(n);
        assert(q.len() > 0);
        assert(q[0] == p[n]);
        assert(q.last() == p.last());
        assert forall|k: int| 0 <= k < q.len() && is_space(#[trigger] q[k]) implies {
            &&& q[k] == ' '
            &&& k + 1 < q.len()
            &&& !is_space(q[k + 1])
        } by {
            assert(q[k] == p[k + n]);
            assert(q[k + 1] == p[k + n + 1]);
        }
        lemma_phrase_in_front_stays(q, b);
        let c = collapsed(q + b);
        if n == 1 {
            assert(tail =~= q + b);
            assert(tail[0] == q[0]);
            assert(collapsed(s) == seq![p[0]] + c);
            assert(collapsed(s).take(p.len() as int) =~= seq![p[0]] + c.take(q.len() as int));
            assert(seq![p[0]] + q =~= p);
        } else {
            assert(tail =~= seq![p[1]] + (q + b));
            lemma_collapsed_from_the_front(p[1], q + b);
            assert(tail[0] == p[1]);
            assert(tail.drop_first() =~= q + b);
            assert(trim_start(tail) == trim_start(q + b));
            assert(words(tail) == words(q + b));
            assert(collapsed(s) == seq![p[0]] + " "@ + c);
            assert(collapsed(s).take(p.len() as int) =~= seq![p[0]] + " "@ + c.take(
                q.len() as int,
            ));
            assert(p[1] == ' ');
            assert(seq![p[0]] + " "@ + q =~= p);
        }
    }
}

/// A phrase that a text holds is still there once the text is flattened, in
/// whatever letter case it was written.
pub proof fn law_phrase_is_found_in_flat_text(a: Seq<char>, p: Seq<char>, b: Seq<char>)
    requires
        p.len() > 0,
        single_blanks(p),
    ensures
        has_text(collapsed(a + p + b), p),
        has_text(lower_ascii(collapsed(a + p + b)), lower_ascii(p)),
{
    lemma_phrase_stays(a, p, b);
    let c = collapsed(a + p + b);
    let i = choose|i: int| occurs_at(c, p, i);
    assert(lower_ascii(c).subrange(i, i + p.len()) =~= lower_ascii(p));
    assert(occurs_at(lower_ascii(c), lower_ascii(p), i));
}

proof fn lemma_phrase_stays(a: Seq<char>, p: Seq<char>, b: Seq<char>)
    requires
        p.len() > 0,
        single_blanks(p),
    ensures
        words(a + p + b).len() > 0,
        has_text(collapsed(a + p + b), p),
    decreases a.len(),
{
    reveal_strlit(" ");
    let s = a + p + b;
    if a.len() == 0 {
        assert(s =~= p + b);
        lemma_phrase_in_front_stays(p, b);
        assert(collapsed(s).subrange(0, p.len() as int) =~= p);
        assert(occurs_at(collapsed(s), p, 0));
    } else {
        let rest = a.drop_first() + p + b;
        lemma_phrase_stays(a.drop_first(), p, b);
        assert(s =~= seq![a[0]] + rest);
        lemma_collapsed_from_the_front(a[0], rest);
        let c = collapsed(rest);
        let i = choose|i: int| occurs_at(c, p, i);
        let n = if is_space(a[0]) {
            0int
        } else if is_space(rest[0]) {
            2int
        } else {
            1int
        };
        assert(collapsed(s).subrange(i + n, i + n + p.len()) =~= c.subrange(i, i + p.len()));
        assert(occurs_at(collapsed(s), p, i + n));
        assert(s.drop_first() =~= rest);
        if is_space(a[0]) {
            assert(trim_start(s) == trim_start(rest));
        } else {
            lemma_has_words(s);
        }
    }
}

/// Texts with the same words are flattened to the same text, whatever white
/// space stands around and between the words.
pub proof fn law_words_decide_flat_text(a: Seq<char>, b: Seq<char>)
    requires
        words(a) == words(b),
    ensures
        flat_text(a) == flat_text(b),
{
}

/// White space around a text is dropped.
pub proof fn law_surrounding_space_is_dropped(w: Seq<char>, s: Seq<char>, v: Seq<char>)
    requires
        forall|i: int| 0 <= i < w.len() ==> is_space(#[trigger] w[i]),
        forall|i: int| 0 <= i < v.len() ==> is_space(#[trigger] v[i]),
    ensures
        words(w + s + v) == words(s),
        flat_text(w + s + v) == flat_text(s),
{
    let none = Seq::<char>::empty();
    assert(words(none) =~= Seq::<Seq<char>>::empty());
    let t = s + v;
    if v.len() > 0 {
        assert(s + v + none =~= t);
        lemma_words_apart(s, v, none);
        assert(words(t) =~= words(s));
    } else {
        assert(t =~= s);
    }
    if w.len() > 0 {
        assert(none + w + t =~= w + s + v);
        lemma_words_apart(none, w, t);
        assert(words(w + s + v) =~= words(t));
    } else {
        assert(w + s + v =~= t);
    }
}

// ---------------------------------------------------------------------------
// Project patterns
// ---------------------------------------------------------------------------

/// `s` without the stars it starts with.
pub open spec fn skip_stars(s: Seq<char>) -> Seq<char>
    decreases s.len(),
{
    if s.len() > 0 && s[0] == '*' {
        skip_stars(s.drop_first())
    } else {
        s
    }
}

/// `s` without the stars it ends with.
pub open spec fn drop_stars(s: Seq<char>) -> Seq<char>
    decreases s.len(),
{
    if s.len() > 0 && s.last() == '*' {
        drop_stars(s.drop_last())
    } else {
        s
    }
}

/// A pattern without its wildcards and without white space at either end.
pub open spec fn bare(pattern: Seq<char>) -> Seq<char> {
    trim(drop_stars(skip_stars(pattern)))
}

/// The substring that a project's pattern asks for.
pub open spec fn needle_of(pattern: Seq<char>) -> Seq<char> {
    unicode_lower(bare(pattern))
}

/// The substring that a project's pattern of ASCII characters asks for.
pub open spec fn ascii_needle_of(pattern: Seq<char>) -> Seq<char> {
    lower_ascii(bare(pattern))
}

/// Whether a needle counts as found: an empty one never does.
pub open spec fn hits(flat: Seq<char>, needle: Seq<char>) -> bool {
    needle.len() > 0 && has_text(flat, needle)
}

/// `key` is the first pattern, in the order of their texts, whose needle is
/// found.
pub open spec fn first_hit(
    maps: Map<Seq<char>, EntryView>,
    flat: Seq<char>,
    needle: spec_fn(Seq<char>) -> Seq<char>,
    key: Seq<char>,
) -> bool {
    &&& maps.contains_key(key)
    &&& hits(flat, needle(key))
    &&& forall|k: Seq<char>| #[trigger]
        maps.contains_key(k) && hits(flat, needle(k)) ==> k == key || text_lt(key, k)
}

/// Class and hint that an entry stands for.
pub open spec fn entry_texts(e: EntryView) -> (Seq<char>, Seq<char>) {
    (
        e.class,
        match e.hint {
            Some(h) => h,
            None => seq![],
        },
    )
}

/// Class and hint of the first pattern whose needle is found.
pub open spec fn matched(
    maps: Map<Seq<char>, EntryView>,
    flat: Seq<char>,
    needle: spec_fn(Seq<char>) -> Seq<char>,
) -> Option<(Seq<char>, Seq<char>)> {
    if exists|key: Seq<char>| first_hit(maps, flat, needle, key) {
        Some(entry_texts(maps[choose|key: Seq<char>| first_hit(maps, flat, needle, key)]))
    } else {
        None
    }
}

/// Class and hint of the project's first pattern that is found.
pub open spec fn project_match(
    maps: Map<Seq<char>, EntryView>,
    flat: Seq<char>,
) -> Option<(Seq<char>, Seq<char>)> {
    matched(maps, flat, |p: Seq<char>| needle_of(p))
}

/// Class and hint of the project's first pattern that is found, where all
/// patterns are ASCII.
pub open spec fn ascii_project_match(
    maps: Map<Seq<char>, EntryView>,
    flat: Seq<char>,
) -> Option<(Seq<char>, Seq<char>)> {
    matched(maps, flat, |p: Seq<char>| ascii_needle_of(p))
}

/// Every pattern is ASCII.
pub open spec fn ascii_keys(maps: Map<Seq<char>, EntryView>) -> bool {
    forall|k: Seq<char>| #[trigger] maps.contains_key(k) ==> all_ascii(k)
}

proof fn lemma_matched(
    maps: Map<Seq<char>, EntryView>,
    flat: Seq<char>,
    needle: spec_fn(Seq<char>) -> Seq<char>,
    key: Seq<char>,
)
    requires
        first_hit(maps, flat, needle, key),
    ensures
        matched(maps, flat, needle) == Some(entry_texts(maps[key])),
{
    let chosen = choose|k: Seq<char>| first_hit(maps, flat, needle, k);
    assert(first_hit(maps, flat, needle, chosen));
    lemma_text_lt_total(key, chosen);
}

/// The pattern that counts is the first, in the order of their texts, of those
/// whose needle stands in the text; where none does, no pattern counts.
pub proof fn law_first_pattern_counts(
    maps: Map<Seq<char>, EntryView>,
    flat: Seq<char>,
    needle: spec_fn(Seq<char>) -> Seq<char>,
    key: Seq<char>,
)
    ensures
        maps.contains_key(key) && needle(key).len() > 0 && has_text(flat, needle(key)) && (forall|
            k: Seq<char>,
        | #[trigger]
            maps.contains_key(k) && k != key && needle(k).len() > 0 && has_text(flat, needle(k))
                ==> text_lt(key, k)) ==> matched(maps, flat, needle) == Some(
            (
                maps[key].class,
                match maps[key].hint {
                    Some(h) => h,
                    None => Seq::<char>::empty(),
                },
            ),
        ),
        (forall|k: Seq<char>| #[trigger]
            maps.contains_key(k) ==> needle(k).len() == 0 || !has_text(flat, needle(k)))
            ==> matched(maps, flat, needle) is None,
{
    if maps.contains_key(key) && needle(key).len() > 0 && has_text(flat, needle(key)) && (forall|
        k: Seq<char>,
    | #[trigger]
        maps.contains_key(k) && k != key && needle(k).len() > 0 && has_text(flat, needle(k))
            ==> text_lt(key, k)) {
        assert(first_hit(maps, flat, needle, key));
        lemma_matched(maps, flat, needle, key);
    }
}

/// Wildcards at either end of a pattern say nothing: the pattern asks for what
/// stands between them.
pub proof fn law_wildcards_are_dropped(front: nat, core: Seq<char>, back: nat)
    requires
        core.len() > 0,
        core[0] != '*',
        core.last() != '*',
    ensures
        bare(Seq::new(front, |i: int| '*') + core + Seq::new(back, |i: int| '*')) == trim(core),
{
    let tail = core + Seq::new(back, |i: int| '*');
    lemma_stars_in_front(front, tail);
    lemma_stars_behind(core, back);
    assert(Seq::new(front, |i: int| '*') + core + Seq::new(back, |i: int| '*') =~= Seq::new(
        front,
        |i: int| '*',
    ) + tail);
}

/// A pattern of nothing but wildcards asks for nothing, and so never matches.
pub proof fn law_wildcards_alone_match_nothing(n: nat, flat: Seq<char>)
    ensures
        bare(Seq::new(n, |i: int| '*')).len() == 0,
        ascii_needle_of(Seq::new(n, |i: int| '*')).len() == 0,
        !hits(flat, ascii_needle_of(Seq::new(n, |i: int| '*'))),
{
    lemma_only_stars(n);
    assert(trim(Seq::<char>::empty()) =~= Seq::<char>::empty());
}

proof fn lemma_only_stars(n: nat)
    ensures
        skip_stars(Seq::new(n, |i: int| '*')) == Seq::<char>::empty(),
    decreases n,
{
    let all = Seq::new(n, |i: int| '*');
    if n == 0 {
        assert(all =~= Seq::<char>::empty());
    } else {
        assert(all.drop_first() =~= Seq::new((n - 1) as nat, |i: int| '*'));
        lemma_only_stars((n - 1) as nat);
    }
}

proof fn lemma_stars_in_front(n: nat, s: Seq<char>)
    requires
        s.len() > 0,
        s[0] != '*',
    ensures
        skip_stars(Seq::new(n, |i: int| '*') + s) == s,
    decreases n,
{
    let all = Seq::new(n, |i: int| '*') + s;
    if n == 0 {
        assert(all =~= s);
    } else {
        assert(all.drop_first() =~= Seq::new((n - 1) as nat, |i: int| '*') + s);
        lemma_stars_in_front((n - 1) as nat, s);
    }
}

proof fn lemma_stars_behind(s: Seq<char>, n: nat)
    requires
        s.len() > 0,
        s.last() != '*',
    ensures
        drop_stars(s + Seq::new(n, |i: int| '*')) == s,
    decreases n,
{
    let all = s + Seq::new(n, |i: int| '*');
    if n == 0 {
        assert(all =~= s);
    } else {
        assert(all.drop_last() =~= s + Seq::new((n - 1) as nat, |i: int| '*'));
        lemma_stars_behind(s, (n - 1) as nat);
    }
}

/// No pattern is found in an empty text.
pub proof fn lemma_nothing_matches_nothing(
    maps: Map<Seq<char>, EntryView>,
    flat: Seq<char>,
    needle: spec_fn(Seq<char>) -> Seq<char>,
)
    requires
        flat.len() == 0,
    ensures
        matched(maps, flat, needle) is None,
{
    if exists|key: Seq<char>| first_hit(maps, flat, needle, key) {
        let key = choose|key: Seq<char>| first_hit(maps, flat, needle, key);
        let n = needle(key);
        let i = choose|i: int| occurs_at(flat, n, i);
        assert(occurs_at(flat, n, i));
    }
}

/// What is left of an ASCII pattern is ASCII.
proof fn lemma_bare_is_ascii(pattern: Seq<char>)
    requires
        all_ascii(pattern),
    ensures
        all_ascii(bare(pattern)),
{
    lemma_skip_stars_is_ascii(pattern);
    let a = skip_stars(pattern);
    lemma_drop_stars_is_ascii(a);
    let b = drop_stars(a);
    lemma_trim_start(b);
    let c = trim_start(b);
    assert forall|i: int| 0 <= i < c.len() implies (#[trigger] c[i] as u32) < 128 by {
        assert(c[i] == b[i + (b.len() - c.len())]);
    }
    lemma_trim_end(c);
    let d = trim(b);
    assert forall|i: int| 0 <= i < d.len() implies (#[trigger] d[i] as u32) < 128 by {
        assert(d[i] == c[i]);
    }
}

proof fn lemma_skip_stars_is_ascii(s: Seq<char>)
    requires
        all_ascii(s),
    ensures
        all_ascii(skip_stars(s)),
    decreases s.len(),
{
    if s.len() > 0 && s[0] == '*' {
        lemma_skip_stars_is_ascii(s.drop_first());
    }
}

proof fn lemma_drop_stars_is_ascii(s: Seq<char>)
    requires
        all_ascii(s),
    ensures
        all_ascii(drop_stars(s)),
    decreases s.len(),
{
    if s.len() > 0 && s.last() == '*' {
        lemma_drop_stars_is_ascii(s.drop_last());
    }
}

/// A pattern without its wildcards and without white space at either end.
fn bare_pattern(pattern: &str) -> (r: String)
    ensures
        r@ == bare(pattern@),
{
    let v = chars_of(pattern);
    let mut from: usize = 0;
    proof {
        assert(v@.skip(0) =~= v@);
    }
    while from < v.len() && v[from] == '*'
        invariant
            v@ == pattern@,
            from <= v.len(),
            skip_stars(v@.skip(from as int)) == skip_stars(pattern@),
        decreases v.len() - from,
    {
        proof {
            assert(v@.skip(from as int).drop_first() =~= v@.skip(from + 1));
        }
        from += 1;
    }
    let mut to: usize = v.len();
    proof {
        assert(v@.skip(from as int) =~= v@.subrange(from as int, v@.len() as int));
    }
    while to > from && v[to - 1] == '*'
        invariant
            from <= to <= v.len(),
            drop_stars(v@.subrange(from as int, to as int)) == drop_stars(skip_stars(pattern@)),
        decreases to,
    {
        proof {
            assert(v@.subrange(from as int, to as int).drop_last() =~= v@.subrange(
                from as int,
                to - 1,
            ));
        }
        to -= 1;
    }
    trimmed(text_of(&v, from, to).as_str())
}

/// The position of the first needle that is found in `flat`.
pub fn first_found(flat: &str, needles: &Vec<String>) -> (r: Option<usize>)
    ensures
        match r {
            Some(i) => i < needles.len() && hits(flat@, needles@[i as int]@) && forall|j: int|
                0 <= j < i ==> !hits(flat@, (#[trigger] needles@[j])@),
            None => forall|j: int|
                0 <= j < needles.len() ==> !hits(flat@, (#[trigger] needles@[j])@),
        },
{
    let mut i: usize = 0;
    while i < needles.len()
        invariant
            i <= needles.len(),
            forall|j: int| 0 <= j < i ==> !hits(flat@, (#[trigger] needles@[j])@),
        decreases needles.len() - i,
    {
        let needle = needles[i].as_str();
        if !is_empty_text(needle) && contains(flat, needle) {
            return Some(i);
        }
        i += 1;
    }
    None
}

/// What a project's pattern says, as views.
pub open spec fn match_texts(m: Option<(String, String)>) -> Option<(Seq<char>, Seq<char>)> {
    match m {
        Some(p) => Some((p.0@, p.1@)),
        None => None,
    }
}

/// Match a project's patterns against flattened stderr. The stars at either
/// end of a pattern are dropped; the rest is searched in either letter case.
pub fn match_recipe(flat: &str, maps: &TextMap<ErrorMapEntry>) -> (r: Option<(String, String)>)
    ensures
        match_texts(r) == project_match(deep(maps@), flat@),
        ascii_keys(deep(maps@)) ==> match_texts(r) == ascii_project_match(deep(maps@), flat@),
{
    let mut needles: Vec<String> = Vec::new();
    let n: usize = maps.len();
    let mut i: usize = 0;
    while i < n
        invariant
            n == maps.entries().len(),
            i <= n,
            needles.len() == i,
            forall|j: int|
                0 <= j < i ==> (#[trigger] needles@[j])@ == needle_of(maps.entries()[j].0),
            forall|j: int|
                0 <= j < i && all_ascii(maps.entries()[j].0) ==> (#[trigger] needles@[j])@
                    == ascii_needle_of(maps.entries()[j].0),
        decreases n - i,
    {
        let b = bare_pattern(maps.key_at(i));
        proof {
            if all_ascii(maps.entries()[i as int].0) {
                lemma_bare_is_ascii(maps.entries()[i as int].0);
            }
        }
        needles.push(to_lowercase(b.as_str()));
        i += 1;
    }
    let ghost m = deep(maps@);
    let ghost plain = |p: Seq<char>| needle_of(p);
    let ghost ascii = |p: Seq<char>| ascii_needle_of(p);
    let found = first_found(flat, &needles);
    proof {
        lemma_found_is_matched(maps.entries(), m, flat@, needles@, found, plain);
        if ascii_keys(m) {
            assert forall|j: int| 0 <= j < needles@.len() implies (#[trigger] needles@[j])@
                == ascii(maps.entries()[j].0) by {
                lemma_value_of(maps.entries(), j);
                assert(m.contains_key(maps.entries()[j].0));
            }
            lemma_found_is_matched(maps.entries(), m, flat@, needles@, found, ascii);
        }
    }
    match found {
        None => None,
        Some(i) => {
            let entry = maps.value_at(i);
            let hint = match &entry.hint {
                Some(h) => h.clone(),
                None => String::new(),
            };
            proof {
                let key = maps.entries()[i as int].0;
                lemma_value_of(maps.entries(), i as int);
                assert(maps@.contains_key(key) && maps@[key] == *entry);
            }
            Some((entry.class.clone(), hint))
        },
    }
}

/// The first needle that is found belongs to the first pattern that is.
proof fn lemma_found_is_matched(
    e: Seq<(Seq<char>, ErrorMapEntry)>,
    m: Map<Seq<char>, EntryView>,
    flat: Seq<char>,
    needles: Seq<String>,
    found: Option<usize>,
    needle: spec_fn(Seq<char>) -> Seq<char>,
)
    requires
        sorted(e),
        needles.len() == e.len(),
        forall|k: Seq<char>| #[trigger] m.contains_key(k) <==> has_key(e, k),
        forall|j: int| 0 <= j < e.len() ==> (#[trigger] needles[j])@ == needle(e[j].0),
        match found {
            Some(i) => i < needles.len() && hits(flat, needles[i as int]@) && forall|j: int|
                0 <= j < i ==> !hits(flat, (#[trigger] needles[j])@),
            None => forall|j: int| 0 <= j < needles.len() ==> !hits(flat, (#[trigger] needles[j])@),
        },
    ensures
        match found {
            Some(i) => matched(m, flat, needle) == Some(entry_texts(m[e[i as int].0])),
            None => matched(m, flat, needle) is None,
        },
{
    match found {
        None => {
            assert forall|key: Seq<char>| !first_hit(m, flat, needle, key) by {
                if m.contains_key(key) {
                    let j = choose|j: int| 0 <= j < e.len() && #[trigger] e[j].0 == key;
                    assert(!hits(flat, needles[j]@));
                }
            }
        },
        Some(i) => {
            let key = e[i as int].0;
            lemma_value_of(e, i as int);
            assert(m.contains_key(key));
            assert forall|k: Seq<char>| #[trigger]
                m.contains_key(k) && hits(flat, needle(k)) implies k == key || text_lt(key, k) by {
                let j = choose|j: int| 0 <= j < e.len() && #[trigger] e[j].0 == k;
                assert(needles[j]@ == needle(k));
                assert(j >= i);
                if j > i {
                    assert(text_lt(e[i as int].0, e[j].0));
                }
            }
            assert(first_hit(m, flat, needle, key));
            lemma_matched(m, flat, needle, key);
        },
    }
}

} // verus!
