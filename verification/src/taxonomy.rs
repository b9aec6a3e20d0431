//! Error taxonomy: stable, actionable classes that callers can branch on.
//!
//! A finished run is classified by the first of these that applies: the
//! structural cases (deadline, abort, the exit codes that POSIX shells
//! reserve), success, which has no class, the project's own patterns, the
//! built-in library. Without evidence there is no class: an explicit non-zero
//! exit is the command's own signal.

use vstd::prelude::*;

use crate::error_maps::{
    ascii_keys, ascii_needle_of, ascii_project_match, bare, builtin_table, collapsed, first_match,
    flat_text, flatten, law_first_pattern_counts, law_phrase_is_found_in_flat_text,
    lemma_nothing_matches_nothing, match_builtin, match_recipe, match_texts, needle_of,
    project_match, single_blanks,
};
use crate::recipe::{EntryView, ErrorMapEntry};
use crate::spec::{ExecResult, ResultView};
use crate::text::{
    all_ascii, contains, has_text, is_empty_text, is_space, lemma_trim_end, lemma_trim_start,
    lower_ascii, occurs_at, opt_text, to_lowercase, trim, trim_start, trimmed, unicode_lower,
};
use crate::textmap::{deep, text_lt, TextMap};

verus! {

/// Class and hint of a run.
pub type Classes = (Option<Seq<char>>, Option<Seq<char>>);

/// A class with its hint.
pub open spec fn classed(class: Seq<char>, hint: Seq<char>) -> Classes {
    (Some(class), Some(hint))
}

/// The class that a run gets.
///
/// `lower` is stderr in lower case, `flat` the flattened stderr, `project`
/// what the project's patterns say.
pub open spec fn class_of(
    r: ResultView,
    lower: Seq<char>,
    flat: Seq<char>,
    project: Option<(Seq<char>, Seq<char>)>,
) -> Classes {
    if r.timed_out {
        classed(
            "TIMEOUT"@,
            "deadline elapsed; the process tree was terminated. retry with a larger --timeout, or split the work"@,
        )
    } else if r.aborted {
        classed(
            "ABORTED"@,
            "the run was cancelled by the caller; no partial state was committed by unirun"@,
        )
    } else if r.exit_code == Some(127i32) {
        classed(
            "COMMAND_NOT_FOUND"@,
            "a command in the script does not exist on this platform, or is not on PATH. run `unirun probe` to see available tools"@,
        )
    } else if r.exit_code == Some(126i32) {
        classed(
            "PERMISSION"@,
            if has_text(lower, "permission denied"@) {
                "the script file lacks execute permission, or the command cannot be executed"@
            } else {
                "the script file exists but cannot be executed (wrong format or interpreter)"@
            },
        )
    } else if r.exit_code == Some(0i32) {
        (None, None)
    } else {
        match project {
            Some(m) => classed(m.0, m.1),
            None => evidence_class(r, flat),
        }
    }
}

/// The class that the built-in evidence gives to a run that failed.
pub open spec fn evidence_class(r: ResultView, flat: Seq<char>) -> Classes {
    match first_match(builtin_table(), flat) {
        Some(m) => classed(m.0, m.1),
        None => if has_text(flat, "module not found"@) {
            classed(
                "DEPENDENCY_MISSING"@,
                "a Python dependency is missing; sync the project environment (e.g. `uv sync` / `pip install -r requirements.txt`)"@,
            )
        } else if trim(r.stderr).len() == 0 {
            (None, None)
        } else {
            classed(
                "UNKNOWN_FAILURE"@,
                "non-zero exit with unrecognized stderr; inspect it above"@,
            )
        },
    }
}

/// The view of a class with its hint.
pub open spec fn class_texts(c: (Option<String>, Option<String>)) -> Classes {
    (opt_text(c.0), opt_text(c.1))
}

fn with_hint(class: &str, hint: &str) -> (c: (Option<String>, Option<String>))
    ensures
        class_texts(c) == classed(class@, hint@),
{
    (Some(class.to_string()), Some(hint.to_string()))
}

/// Classify a finished run by its stderr in lower case, its flattened stderr
/// and what the project's patterns say.
pub fn classify_evidence(
    r: &ExecResult,
    lower: &str,
    flat: &str,
    project: Option<(String, String)>,
) -> (c: (Option<String>, Option<String>))
    ensures
        class_texts(c) == class_of(r@, lower@, flat@, match_texts(project)),
{
    if r.timed_out {
        return with_hint(
            "TIMEOUT",
            "deadline elapsed; the process tree was terminated. retry with a larger --timeout, or split the work",
        );
    }
    if r.aborted {
        return with_hint(
            "ABORTED",
            "the run was cancelled by the caller; no partial state was committed by unirun",
        );
    }
    if r.exit_code == Some(127) {
        return with_hint(
            "COMMAND_NOT_FOUND",
            "a command in the script does not exist on this platform, or is not on PATH. run `unirun probe` to see available tools",
        );
    }
    if r.exit_code == Some(126) {
        let hint = if contains(lower, "permission denied") {
            "the script file lacks execute permission, or the command cannot be executed"
        } else {
            "the script file exists but cannot be executed (wrong format or interpreter)"
        };
        return with_hint("PERMISSION", hint);
    }
    if r.exit_code == Some(0) {
        return (None, None);
    }
    if let Some(m) = project {
        return (Some(m.0), Some(m.1));
    }
    if let Some(m) = match_builtin(flat) {
        return with_hint(m.0, m.1);
    }
    if contains(flat, "module not found") {
        return with_hint(
            "DEPENDENCY_MISSING",
            "a Python dependency is missing; sync the project environment (e.g. `uv sync` / `pip install -r requirements.txt`)",
        );
    }
    if is_empty_text(trimmed(r.stderr.as_str()).as_str()) {
        (None, None)
    } else {
        with_hint("UNKNOWN_FAILURE", "non-zero exit with unrecognized stderr; inspect it above")
    }
}

/// Class and hint of a run under a project's patterns.
pub open spec fn class_with(r: ResultView, maps: Map<Seq<char>, EntryView>) -> Classes {
    class_of(
        r,
        unicode_lower(r.stderr),
        flat_text(r.stderr),
        project_match(maps, flat_text(r.stderr)),
    )
}

/// Class and hint of a run under a project's patterns, where its stderr and the
/// patterns are ASCII.
pub open spec fn ascii_class_with(r: ResultView, maps: Map<Seq<char>, EntryView>) -> Classes {
    let flat = lower_ascii(collapsed(r.stderr));
    class_of(r, lower_ascii(r.stderr), flat, ascii_project_match(maps, flat))
}

/// Whether a run came to its own end, with an exit code that shells do not
/// reserve, and left nothing but white space on stderr.
pub open spec fn silent_exit(r: ResultView) -> bool {
    &&& !r.timed_out
    &&& !r.aborted
    &&& r.exit_code != Some(126i32)
    &&& r.exit_code != Some(127i32)
    &&& trim(r.stderr).len() == 0
}

/// Classify a finished run under a project's patterns.
pub fn classify_with(r: &ExecResult, maps: &TextMap<ErrorMapEntry>) -> (c: (
    Option<String>,
    Option<String>,
))
    ensures
        class_texts(c) == class_with(r@, deep(maps@)),
        all_ascii(r.stderr@) && ascii_keys(deep(maps@)) ==> class_texts(c) == ascii_class_with(
            r@,
            deep(maps@),
        ),
        silent_exit(r@) ==> class_texts(c) == (None::<Seq<char>>, None::<Seq<char>>),
{
    let lower = to_lowercase(r.stderr.as_str());
    let flat = flatten(r.stderr.as_str());
    proof {
        if silent_exit(r@) {
            law_explicit_exit_has_no_class(r@, lower@, deep(maps@));
            assert(flat@ =~= Seq::<char>::empty());
        }
    }
    let project = match_recipe(flat.as_str(), maps);
    classify_evidence(r, lower.as_str(), flat.as_str(), project)
}

/// Class and hint of a run without a project's patterns, where its stderr is
/// ASCII.
pub open spec fn ascii_class(r: ResultView) -> Classes {
    class_of(r, lower_ascii(r.stderr), lower_ascii(collapsed(r.stderr)), None)
}

/// Classify a finished run. No class means no confirmed error: success, or an
/// explicit non-zero exit without error evidence.
pub fn classify(r: &ExecResult) -> (c: (Option<String>, Option<String>))
    ensures
        class_texts(c) == class_with(r@, Map::empty()),
        all_ascii(r.stderr@) ==> class_texts(c) == ascii_class(r@),
        silent_exit(r@) ==> class_texts(c) == (None::<Seq<char>>, None::<Seq<char>>),
{
    let lower = to_lowercase(r.stderr.as_str());
    let flat = flatten(r.stderr.as_str());
    proof {
        if silent_exit(r@) {
            law_explicit_exit_has_no_class(r@, lower@, Map::empty());
            assert(flat@ =~= Seq::<char>::empty());
        }
        assert(project_match(Map::empty(), flat@) is None);
    }
    classify_evidence(r, lower.as_str(), flat.as_str(), None)
}

// ---------------------------------------------------------------------------
// Laws
// ---------------------------------------------------------------------------

/// A class comes with a hint, and no class without one.
pub proof fn law_class_has_hint(
    r: ResultView,
    lower: Seq<char>,
    flat: Seq<char>,
    project: Option<(Seq<char>, Seq<char>)>,
)
    ensures
        class_of(r, lower, flat, project).0 is Some <==> class_of(r, lower, flat, project).1
            is Some,
{
}

/// The deadline is the first thing that counts, then the abort: no output can
/// change their class.
pub proof fn law_termination_is_structural(
    r: ResultView,
    lower: Seq<char>,
    flat: Seq<char>,
    project: Option<(Seq<char>, Seq<char>)>,
)
    ensures
        r.timed_out ==> class_of(r, lower, flat, project).0 == Some("TIMEOUT"@),
        !r.timed_out && r.aborted ==> class_of(r, lower, flat, project).0 == Some("ABORTED"@),
{
}

/// A successful run has no class, whatever it wrote and whatever the project's
/// patterns say.
pub proof fn law_success_has_no_class(r: ResultView, maps: Map<Seq<char>, EntryView>)
    requires
        !r.timed_out,
        !r.aborted,
        r.exit_code == Some(0i32),
    ensures
        class_with(r, maps) == (None::<Seq<char>>, None::<Seq<char>>),
{
}

/// A project's pattern beats the built-in library.
pub proof fn law_project_patterns_win(
    r: ResultView,
    lower: Seq<char>,
    flat: Seq<char>,
    class: Seq<char>,
    hint: Seq<char>,
)
    requires
        !r.timed_out,
        !r.aborted,
        r.exit_code != Some(126i32),
        r.exit_code != Some(127i32),
        r.exit_code != Some(0i32),
    ensures
        class_of(r, lower, flat, Some((class, hint))) == classed(class, hint),
{
}

/// Evidence always gives a class, and the evidence that comes first decides it:
/// where some built-in pattern stands in the flattened stderr of a run that
/// failed, the run has the class and the hint of the first such pattern; and
/// where there is any stderr at all, it has some class.
pub proof fn law_evidence_gives_a_class(r: ResultView, lower: Seq<char>, flat: Seq<char>, i: int)
    requires
        !r.timed_out,
        !r.aborted,
        r.exit_code != Some(0i32),
        r.exit_code != Some(126i32),
        r.exit_code != Some(127i32),
    ensures
        0 <= i < builtin_table().len() && has_text(flat, builtin_table()[i].0) && (forall|j: int|
            0 <= j < i ==> !has_text(flat, #[trigger] builtin_table()[j].0)) ==> class_of(
            r,
            lower,
            flat,
            None,
        ) == (Some(builtin_table()[i].1), Some(builtin_table()[i].2)),
        forall|project: Option<(Seq<char>, Seq<char>)>|
            trim(r.stderr).len() > 0 ==> (#[trigger] class_of(r, lower, flat, project)).0 is Some,
{
    if 0 <= i < builtin_table().len() && has_text(flat, builtin_table()[i].0) && (forall|j: int|
        0 <= j < i ==> !has_text(flat, #[trigger] builtin_table()[j].0)) {
        lemma_first_match_is(builtin_table(), flat, i);
    }
}

proof fn lemma_first_match_is(
    table: Seq<(Seq<char>, Seq<char>, Seq<char>)>,
    flat: Seq<char>,
    i: int,
)
    requires
        0 <= i < table.len(),
        has_text(flat, table[i].0),
        forall|j: int| 0 <= j < i ==> !has_text(flat, #[trigger] table[j].0),
    ensures
        first_match(table, flat) == Some((table[i].1, table[i].2)),
    decreases i,
{
    if i > 0 {
        assert(!has_text(flat, table[0].0));
        let rest = table.drop_first();
        assert(rest[i - 1] == table[i]);
        assert forall|j: int| 0 <= j < i - 1 implies !has_text(flat, #[trigger] rest[j].0) by {
            assert(rest[j] == table[j + 1]);
        }
        lemma_first_match_is(rest, flat, i - 1);
    }
}

/// Stderr that no pattern knows is an unknown failure, never silence; a module
/// that was not found is a missing dependency where nothing else is known.
pub proof fn law_unknown_stderr_is_reported(r: ResultView, lower: Seq<char>, flat: Seq<char>)
    requires
        !r.timed_out,
        !r.aborted,
        r.exit_code != Some(0i32),
        r.exit_code != Some(126i32),
        r.exit_code != Some(127i32),
        forall|i: int|
            0 <= i < builtin_table().len() ==> !has_text(flat, #[trigger] builtin_table()[i].0),
    ensures
        has_text(flat, "module not found"@) ==> class_of(r, lower, flat, None).0 == Some(
            "DEPENDENCY_MISSING"@,
        ),
        !has_text(flat, "module not found"@) && trim(r.stderr).len() > 0 ==> class_of(
            r,
            lower,
            flat,
            None,
        ).0 == Some("UNKNOWN_FAILURE"@),
{
    lemma_match_is_found(builtin_table(), flat);
}

/// How a run failed is told by its stderr, not by its exit code: two runs that
/// wrote the same and failed with any codes but the reserved ones are classed
/// alike.
pub proof fn law_failing_codes_are_classed_alike(
    r: ResultView,
    other: ResultView,
    lower: Seq<char>,
    flat: Seq<char>,
    project: Option<(Seq<char>, Seq<char>)>,
)
    requires
        !r.timed_out && !r.aborted && !other.timed_out && !other.aborted,
        r.exit_code != Some(0i32) && r.exit_code != Some(126i32) && r.exit_code != Some(127i32),
        other.exit_code != Some(0i32) && other.exit_code != Some(126i32) && other.exit_code
            != Some(127i32),
        r.stderr == other.stderr,
    ensures
        class_of(r, lower, flat, project) == class_of(other, lower, flat, project),
{
}

/// The exit codes that POSIX shells reserve are taken at their word, whatever
/// stderr holds and whatever the project's patterns say.
pub proof fn law_reserved_codes_have_classes(
    r: ResultView,
    lower: Seq<char>,
    flat: Seq<char>,
    project: Option<(Seq<char>, Seq<char>)>,
)
    requires
        !r.timed_out,
        !r.aborted,
    ensures
        r.exit_code == Some(127i32) ==> class_of(r, lower, flat, project).0 == Some(
            "COMMAND_NOT_FOUND"@,
        ),
        r.exit_code == Some(126i32) ==> class_of(r, lower, flat, project).0 == Some("PERMISSION"@),
{
}

/// What shells and systems say in words has its class under every failing exit
/// code: a command that is missing, permission that is denied, a file that is
/// not there, a script that cannot be read.
pub proof fn law_common_errors_have_classes(r: ResultView, lower: Seq<char>, flat: Seq<char>)
    requires
        !r.timed_out,
        !r.aborted,
        r.exit_code != Some(0i32),
        r.exit_code != Some(126i32),
        r.exit_code != Some(127i32),
    ensures
        ({
            let class = class_of(r, lower, flat, None).0;
            let missing = has_text(flat, "command not found"@) || has_text(
                flat,
                "is not recognized as the name of a cmdlet"@,
            ) || has_text(flat, "is not recognized as an internal or external command"@);
            let denied = has_text(flat, "permission denied"@) || has_text(
                flat,
                "permission denied (publickey"@,
            ) || has_text(flat, "denied: requested access to the resource is denied"@);
            let absent = has_text(flat, "no such file or directory"@) || has_text(
                flat,
                "cannot find the path"@,
            ) || has_text(flat, "cannot find the file"@);
            let unread = has_text(flat, "syntax error"@) || has_text(flat, "unexpected token"@)
                || has_text(flat, "syntaxerror"@) || has_text(flat, "indentationerror"@);
            &&& missing ==> class == Some("COMMAND_NOT_FOUND"@)
            &&& !missing && denied ==> class == Some("PERMISSION"@)
            &&& !missing && !denied && absent ==> class == Some("NOT_FOUND"@)
            &&& !missing && !denied && !absent && unread ==> class == Some("SYNTAX"@)
        }),
{
    let t = builtin_table();
    let n = if has_text(flat, t[0].0) {
        0int
    } else if has_text(flat, t[1].0) {
        1int
    } else if has_text(flat, t[2].0) {
        2int
    } else if has_text(flat, t[3].0) {
        3int
    } else if has_text(flat, t[4].0) {
        4int
    } else if has_text(flat, t[5].0) {
        5int
    } else if has_text(flat, t[6].0) {
        6int
    } else if has_text(flat, t[7].0) {
        7int
    } else if has_text(flat, t[8].0) {
        8int
    } else if has_text(flat, t[9].0) {
        9int
    } else if has_text(flat, t[10].0) {
        10int
    } else if has_text(flat, t[11].0) {
        11int
    } else if has_text(flat, t[12].0) {
        12int
    } else {
        13int
    };
    if n < 13 {
        lemma_first_match_is(t, flat, n);
    }
}

/// The library has an entry that gives a pattern a class.
pub open spec fn knows(pattern: Seq<char>, class: Seq<char>) -> bool {
    exists|i: int|
        0 <= i < builtin_table().len() && (#[trigger] builtin_table()[i]).0 == pattern
            && builtin_table()[i].1 == class
}

/// What the tools of each ecosystem say when something is missing, denied, cannot
/// be compiled or cannot be reached is known under the class that says so.
pub proof fn law_library_knows_its_ecosystems()
    ensures
        knows("windows subsystem for linux has no installed distributions"@, "COMMAND_NOT_FOUND"@),
        knows("modulenotfounderror"@, "DEPENDENCY_MISSING"@),
        knows("no module named"@, "DEPENDENCY_MISSING"@),
        knows("importerror"@, "DEPENDENCY_MISSING"@),
        knows("no matching distribution found"@, "DEPENDENCY_MISSING"@),
        knows("cannot find module"@, "DEPENDENCY_MISSING"@),
        knows("error[e0432]"@, "DEPENDENCY_MISSING"@),
        knows("error[e0425]"@, "DEPENDENCY_MISSING"@),
        knows("no required module provides package"@, "DEPENDENCY_MISSING"@),
        knows("externally-managed-environment"@, "PERMISSION"@),
        knows("fatal: authentication failed"@, "PERMISSION"@),
        knows("can't open file"@, "NOT_FOUND"@),
        knows("enoent"@, "NOT_FOUND"@),
        knows("fatal: not a git repository"@, "NOT_FOUND"@),
        knows("remote: repository not found"@, "NOT_FOUND"@),
        knows("error[e"@, "COMPILE_ERROR"@),
        knows("error: could not compile"@, "COMPILE_ERROR"@),
        knows("error ts"@, "COMPILE_ERROR"@),
        knows("tsc: error"@, "COMPILE_ERROR"@),
        knows("fatal: unable to access"@, "NETWORK"@),
        knows("could not resolve host"@, "NETWORK"@),
        knows("connection refused"@, "NETWORK"@),
        knows("connection timed out"@, "NETWORK"@),
        knows("network is unreachable"@, "NETWORK"@),
        knows("temporary failure in name resolution"@, "NETWORK"@),
        knows("failed to connect to"@, "NETWORK"@),
{
    let t = builtin_table();
    assert(t[13].0 == "windows subsystem for linux has no installed distributions"@ && t[13].1 == "COMMAND_NOT_FOUND"@);
    assert(t[14].0 == "modulenotfounderror"@ && t[14].1 == "DEPENDENCY_MISSING"@);
    assert(t[15].0 == "no module named"@ && t[15].1 == "DEPENDENCY_MISSING"@);
    assert(t[16].0 == "importerror"@ && t[16].1 == "DEPENDENCY_MISSING"@);
    assert(t[17].0 == "no matching distribution found"@ && t[17].1 == "DEPENDENCY_MISSING"@);
    assert(t[20].0 == "cannot find module"@ && t[20].1 == "DEPENDENCY_MISSING"@);
    assert(t[22].0 == "error[e0432]"@ && t[22].1 == "DEPENDENCY_MISSING"@);
    assert(t[23].0 == "error[e0425]"@ && t[23].1 == "DEPENDENCY_MISSING"@);
    assert(t[26].0 == "no required module provides package"@ && t[26].1 == "DEPENDENCY_MISSING"@);
    assert(t[18].0 == "externally-managed-environment"@ && t[18].1 == "PERMISSION"@);
    assert(t[30].0 == "fatal: authentication failed"@ && t[30].1 == "PERMISSION"@);
    assert(t[19].0 == "can't open file"@ && t[19].1 == "NOT_FOUND"@);
    assert(t[21].0 == "enoent"@ && t[21].1 == "NOT_FOUND"@);
    assert(t[29].0 == "fatal: not a git repository"@ && t[29].1 == "NOT_FOUND"@);
    assert(t[32].0 == "remote: repository not found"@ && t[32].1 == "NOT_FOUND"@);
    assert(t[24].0 == "error[e"@ && t[24].1 == "COMPILE_ERROR"@);
    assert(t[25].0 == "error: could not compile"@ && t[25].1 == "COMPILE_ERROR"@);
    assert(t[27].0 == "error ts"@ && t[27].1 == "COMPILE_ERROR"@);
    assert(t[28].0 == "tsc: error"@ && t[28].1 == "COMPILE_ERROR"@);
    assert(t[31].0 == "fatal: unable to access"@ && t[31].1 == "NETWORK"@);
    assert(t[33].0 == "could not resolve host"@ && t[33].1 == "NETWORK"@);
    assert(t[34].0 == "connection refused"@ && t[34].1 == "NETWORK"@);
    assert(t[35].0 == "connection timed out"@ && t[35].1 == "NETWORK"@);
    assert(t[36].0 == "network is unreachable"@ && t[36].1 == "NETWORK"@);
    assert(t[37].0 == "temporary failure in name resolution"@ && t[37].1 == "NETWORK"@);
    assert(t[38].0 == "failed to connect to"@ && t[38].1 == "NETWORK"@);
}

/// A project's pattern is reported where it is found: a run that failed, whose
/// stderr holds what the pattern asks for in any letter case, has the class and
/// the hint that the project gives the pattern, as long as no pattern that comes
/// before it in order is found too.
pub proof fn law_project_pattern_is_reported(
    r: ResultView,
    maps: Map<Seq<char>, EntryView>,
    key: Seq<char>,
    before: Seq<char>,
    after: Seq<char>,
)
    requires
        !r.timed_out,
        !r.aborted,
        r.exit_code != Some(0i32),
        r.exit_code != Some(126i32),
        r.exit_code != Some(127i32),
        maps.contains_key(key),
        bare(key).len() > 0,
        single_blanks(bare(key)),
        r.stderr == before + bare(key) + after,
        forall|k: Seq<char>| #[trigger]
            maps.contains_key(k) && k != key && ascii_needle_of(k).len() > 0 && has_text(
                lower_ascii(collapsed(r.stderr)),
                ascii_needle_of(k),
            ) ==> text_lt(key, k),
    ensures
        ascii_class_with(r, maps) == (
            Some(maps[key].class),
            Some(
                match maps[key].hint {
                    Some(h) => h,
                    None => Seq::<char>::empty(),
                },
            ),
        ),
{
    law_phrase_is_found_in_flat_text(before, bare(key), after);
    let flat = lower_ascii(collapsed(r.stderr));
    let needle = |p: Seq<char>| ascii_needle_of(p);
    assert(needle(key) == lower_ascii(bare(key)));
    assert forall|k: Seq<char>| #[trigger]
        maps.contains_key(k) && k != key && needle(k).len() > 0 && has_text(
            flat,
            needle(k),
        ) implies text_lt(key, k) by {
        assert(ascii_needle_of(k) == needle(k));
    }
    law_first_pattern_counts(maps, flat, needle, key);
}

/// What a run writes decides its class in any letter case and however it is
/// wrapped: a built-in pattern that stands in stderr as a phrase gives a run that
/// failed a class.
pub proof fn law_phrase_in_stderr_gives_a_class(
    r: ResultView,
    maps: Map<Seq<char>, EntryView>,
    before: Seq<char>,
    phrase: Seq<char>,
    after: Seq<char>,
)
    requires
        !r.timed_out,
        !r.aborted,
        r.exit_code != Some(0i32),
        r.exit_code != Some(126i32),
        r.exit_code != Some(127i32),
        phrase.len() > 0,
        single_blanks(phrase),
        r.stderr == before + phrase + after,
    ensures
        ascii_class(r).0 is Some,
        ascii_class_with(r, maps).0 is Some,
        lower_ascii(phrase) == "command not found"@ ==> ascii_class(r).0 == Some(
            "COMMAND_NOT_FOUND"@,
        ),
{
    law_phrase_is_found_in_flat_text(before, phrase, after);
    let flat = lower_ascii(collapsed(r.stderr));
    let t = trim_start(r.stderr);
    lemma_trim_start(r.stderr);
    lemma_trim_end(t);
    if t.len() == 0 {
        let at = before.len() as int;
        assert(r.stderr[at] == phrase[0]);
        assert(is_space(r.stderr[at]));
    }
    if trim(r.stderr).len() == 0 {
        assert(is_space(t[0]));
    }
    law_evidence_gives_a_class(r, lower_ascii(r.stderr), flat, 0);
    law_common_errors_have_classes(r, lower_ascii(r.stderr), flat);
}

/// An explicit exit without stderr stays without a class, whatever the project's
/// patterns are: nothing is left of its stderr to find a pattern in, and the exit
/// code is the signal.
pub proof fn law_explicit_exit_has_no_class(
    r: ResultView,
    lower: Seq<char>,
    maps: Map<Seq<char>, EntryView>,
)
    requires
        silent_exit(r),
    ensures
        collapsed(r.stderr) == Seq::<char>::empty(),
        class_of(r, lower, collapsed(r.stderr), project_match(maps, collapsed(r.stderr))) == (
            None::<Seq<char>>,
            None::<Seq<char>>,
        ),
        ascii_class_with(r, maps) == (None::<Seq<char>>, None::<Seq<char>>),
        ascii_class(r) == (None::<Seq<char>>, None::<Seq<char>>),
{
    lemma_trim_start(r.stderr);
    lemma_trim_end(trim_start(r.stderr));
    let t = trim_start(r.stderr);
    if t.len() > 0 {
        assert(is_space(t[0]));
    }
    let flat = collapsed(r.stderr);
    assert(flat =~= Seq::<char>::empty());
    assert(lower_ascii(flat) =~= flat);
    lemma_nothing_matches_nothing(maps, flat, |p: Seq<char>| needle_of(p));
    lemma_nothing_matches_nothing(maps, flat, |p: Seq<char>| ascii_needle_of(p));
    lemma_patterns_hold_text();
    lemma_no_match(builtin_table(), flat);
    reveal_strlit("module not found");
    if has_text(flat, "module not found"@) {
        let i = choose|i: int| occurs_at(flat, "module not found"@, i);
        assert("module not found"@.len() > 0);
    }
}

/// No pattern that holds text stands in an empty text.
proof fn lemma_no_match(table: Seq<(Seq<char>, Seq<char>, Seq<char>)>, flat: Seq<char>)
    requires
        flat.len() == 0,
        forall|i: int| 0 <= i < table.len() ==> (#[trigger] table[i]).0.len() > 0,
    ensures
        first_match(table, flat) is None,
    decreases table.len(),
{
    if table.len() > 0 {
        assert(table[0].0.len() > 0);
        if has_text(flat, table[0].0) {
            let i = choose|i: int| occurs_at(flat, table[0].0, i);
            assert(false);
        }
        let rest = table.drop_first();
        assert forall|i: int| 0 <= i < rest.len() implies (#[trigger] rest[i]).0.len() > 0 by {
            assert(rest[i] == table[i + 1]);
        }
        lemma_no_match(rest, flat);
    }
}

/// No built-in pattern is empty.
proof fn lemma_patterns_hold_text()
    ensures
        forall|i: int|
            0 <= i < builtin_table().len() ==> (#[trigger] builtin_table()[i]).0.len() > 0,
{
    reveal_strlit("command not found");
    reveal_strlit("is not recognized as the name of a cmdlet");
    reveal_strlit("is not recognized as an internal or external command");
    reveal_strlit("permission denied (publickey");
    reveal_strlit("permission denied");
    reveal_strlit("denied: requested access to the resource is denied");
    reveal_strlit("no such file or directory");
    reveal_strlit("cannot find the path");
    reveal_strlit("cannot find the file");
    reveal_strlit("syntax error");
    reveal_strlit("unexpected token");
    reveal_strlit("syntaxerror");
    reveal_strlit("indentationerror");
    reveal_strlit("windows subsystem for linux has no installed distributions");
    reveal_strlit("modulenotfounderror");
    reveal_strlit("no module named");
    reveal_strlit("importerror");
    reveal_strlit("no matching distribution found");
    reveal_strlit("externally-managed-environment");
    reveal_strlit("can't open file");
    reveal_strlit("cannot find module");
    reveal_strlit("enoent");
    reveal_strlit("error[e0432]");
    reveal_strlit("error[e0425]");
    reveal_strlit("error[e");
    reveal_strlit("error: could not compile");
    reveal_strlit("no required module provides package");
    reveal_strlit("error ts");
    reveal_strlit("tsc: error");
    reveal_strlit("fatal: not a git repository");
    reveal_strlit("fatal: authentication failed");
    reveal_strlit("fatal: unable to access");
    reveal_strlit("remote: repository not found");
    reveal_strlit("could not resolve host");
    reveal_strlit("connection refused");
    reveal_strlit("connection timed out");
    reveal_strlit("network is unreachable");
    reveal_strlit("temporary failure in name resolution");
    reveal_strlit("failed to connect to");
}

/// A class other than the structural ones is never invented: the run failed,
/// and some pattern stands in the flattened stderr, or there is stderr that no
/// pattern knows.
pub proof fn law_class_needs_evidence(r: ResultView, lower: Seq<char>, flat: Seq<char>)
    requires
        !r.timed_out,
        !r.aborted,
        r.exit_code != Some(126i32),
        r.exit_code != Some(127i32),
        class_of(r, lower, flat, None).0 is Some,
    ensures
        r.exit_code != Some(0i32),
        (exists|i: int|
            0 <= i < builtin_table().len() && has_text(flat, #[trigger] builtin_table()[i].0))
            || has_text(flat, "module not found"@) || trim(r.stderr).len() > 0,
{
    lemma_match_is_found(builtin_table(), flat);
}

proof fn lemma_match_is_found(table: Seq<(Seq<char>, Seq<char>, Seq<char>)>, flat: Seq<char>)
    ensures
        first_match(table, flat) is Some ==> exists|i: int|
            0 <= i < table.len() && has_text(flat, #[trigger] table[i].0),
    decreases table.len(),
{
    if table.len() > 0 {
        if has_text(flat, table[0].0) {
            assert(has_text(flat, table[0].0));
        } else {
            let rest = table.drop_first();
            lemma_match_is_found(rest, flat);
            if first_match(table, flat) is Some {
                let i = choose|i: int| 0 <= i < rest.len() && has_text(flat, #[trigger] rest[i].0);
                assert(table[i + 1] == rest[i]);
            }
        }
    }
}

} // verus!
