//! Paths as text.
//!
//! A path may start with a prefix, which only Windows knows: a drive (`C:`), a
//! share (`\\server\share`), a device (`\\.\COM42`), or what stands behind
//! `\\?\`, which is taken verbatim. Then comes a root, where there is one, and
//! then the names, with separators between them.

use vstd::prelude::*;

use crate::text::{chars_of, join, join_texts, same_text, text_of, texts};

verus! {

broadcast use vstd::seq::group_seq_axioms;

// ---------------------------------------------------------------------------
// Separators
// ---------------------------------------------------------------------------

/// How the names of a path are told apart.
#[derive(Debug, Clone, Copy, PartialEq, Eq, Structural)]
pub enum Style {
    /// `/` separates.
    Unix,
    /// Both `/` and `\` separate.
    Windows,
    /// Only `\` separates, and `.` is a name like any other.
    Verbatim,
}

/// Whether a character separates names.
pub open spec fn separates(c: char, style: Style) -> bool {
    match style {
        Style::Unix => c == '/',
        Style::Windows => c == '/' || c == '\\',
        Style::Verbatim => c == '\\',
    }
}

/// The separator that is written between names.
pub open spec fn main_separator(windows: bool) -> char {
    if windows {
        '\\'
    } else {
        '/'
    }
}

/// The style of paths on a platform, but for verbatim ones.
pub open spec fn plain_style(windows: bool) -> Style {
    if windows {
        Style::Windows
    } else {
        Style::Unix
    }
}

/// Whether a path is taken verbatim.
pub open spec fn verbatim(p: Seq<char>, windows: bool) -> bool {
    windows && p.len() >= 4 && p[0] == '\\' && p[1] == '\\' && p[2] == '?' && p[3] == '\\'
}

/// The style of a path.
pub open spec fn style_of(p: Seq<char>, windows: bool) -> Style {
    if verbatim(p, windows) {
        Style::Verbatim
    } else {
        plain_style(windows)
    }
}

// ---------------------------------------------------------------------------
// Prefix and root
// ---------------------------------------------------------------------------

/// How many characters of `s` stand before its first separator.
pub open spec fn name_len(s: Seq<char>, style: Style) -> nat
    decreases s.len(),
{
    if s.len() == 0 || separates(s[0], style) {
        0
    } else {
        1 + name_len(s.drop_first(), style)
    }
}

/// Whether `s` starts with a drive such as `C:`.
pub open spec fn is_drive(s: Seq<char>) -> bool {
    s.len() >= 2 && s[1] == ':' && ('a' <= s[0] <= 'z' || 'A' <= s[0] <= 'Z')
}

/// Whether `s` starts with a drive that ends there or before a separator.
pub open spec fn is_exact_drive(s: Seq<char>) -> bool {
    is_drive(s) && (s.len() > 2 ==> separates(s[2], Style::Windows))
}

/// The length of a server and its share, `\` between them; a server without a
/// share stands alone.
pub open spec fn share_len(s: Seq<char>, style: Style) -> nat {
    let server = name_len(s, style);
    let share = name_len(s.skip(server as int + 1), style);
    if server < s.len() && share > 0 {
        server + 1 + share
    } else {
        server
    }
}

/// Whether a verbatim path starts with a server and a share.
pub open spec fn is_verbatim_share(p: Seq<char>, windows: bool) -> bool {
    &&& verbatim(p, windows)
    &&& p.len() >= 8 && p[4] == 'U' && p[5] == 'N' && p[6] == 'C'
    &&& separates(p[7], Style::Windows)
}

/// The length of a path's prefix.
pub open spec fn prefix_len(p: Seq<char>, windows: bool) -> nat {
    if !windows {
        0
    } else if verbatim(p, windows) {
        if is_verbatim_share(p, windows) {
            8 + share_len(p.skip(8), Style::Verbatim)
        } else if is_exact_drive(p.skip(4)) {
            6
        } else {
            4 + name_len(p.skip(4), Style::Verbatim)
        }
    } else if p.len() >= 2 && separates(p[0], Style::Windows) && separates(p[1], Style::Windows) {
        if p.len() >= 4 && p[2] == '.' && separates(p[3], Style::Windows) {
            4 + name_len(p.skip(4), Style::Windows)
        } else {
            let s = p.skip(2);
            let server = name_len(s, Style::Windows);
            if server > 0 && share_len(s, Style::Windows) > server {
                2 + share_len(s, Style::Windows)
            } else {
                0
            }
        }
    } else if is_drive(p) {
        2
    } else {
        0
    }
}

/// Whether a separator stands behind the prefix.
pub open spec fn root_stands(p: Seq<char>, windows: bool) -> bool {
    let n = prefix_len(p, windows) as int;
    n < p.len() && separates(p[n], plain_style(windows))
}

/// Whether a path starts at a root. Every prefix but a drive implies one.
pub open spec fn rooted(p: Seq<char>, windows: bool) -> bool {
    root_stands(p, windows) || prefix_len(p, windows) > 2
}

/// Whether a path says by itself where it leads: it has a root, and on Windows
/// a prefix.
pub open spec fn absolute(p: Seq<char>, windows: bool) -> bool {
    rooted(p, windows) && (windows ==> prefix_len(p, windows) > 0)
}

/// The length of prefix and root.
pub open spec fn anchor_len(p: Seq<char>, windows: bool) -> nat {
    if root_stands(p, windows) {
        prefix_len(p, windows) + 1
    } else {
        prefix_len(p, windows)
    }
}

/// ASCII upper case of one character.
pub open spec fn upper_char(c: char) -> char {
    if 'a' <= c <= 'z' {
        ((c as u32 - 32) as u32) as char
    } else {
        c
    }
}

/// A prefix as it is compared: `\` for every separator, and a drive in upper
/// case.
pub open spec fn prefix_text(p: Seq<char>, windows: bool) -> Seq<char> {
    let n = prefix_len(p, windows) as int;
    let drive = if verbatim(p, windows) {
        if n == 6 && is_drive(p.skip(4)) {
            4
        } else {
            n
        }
    } else if n == 2 {
        0
    } else {
        n
    };
    Seq::new(
        n as nat,
        |i: int|
            if i == drive {
                upper_char(p[i])
            } else if p[i] == '/' && (!verbatim(p, windows) || (i == 7 && is_verbatim_share(
                p,
                windows,
            ))) {
                '\\'
            } else {
                p[i]
            },
    )
}

// ---------------------------------------------------------------------------
// Names
// ---------------------------------------------------------------------------

/// How many characters of `s` stand up to and with its last separator.
pub open spec fn dir_len(s: Seq<char>, style: Style) -> nat
    decreases s.len(),
{
    if s.len() == 0 || separates(s.last(), style) {
        s.len()
    } else {
        dir_len(s.drop_last(), style)
    }
}

/// Whether `.` counts for nothing where `before` characters of the names stand
/// before it: everywhere but in verbatim paths and at the start of a path
/// without an anchor.
pub open spec fn dot_is_nothing(before: nat, style: Style, anchored: bool) -> bool {
    style != Style::Verbatim && (before > 0 || anchored)
}

/// `s` without the separators, and the `.` that count for nothing, at its end.
pub open spec fn stripped(s: Seq<char>, style: Style, anchored: bool) -> Seq<char>
    decreases s.len(),
{
    if s.len() == 0 {
        s
    } else if separates(s.last(), style) {
        stripped(s.drop_last(), style, anchored)
    } else {
        proof {
            lemma_dir_len(s, style);
        }
        let k = dir_len(s, style);
        if s.skip(k as int) == seq!['.'] && dot_is_nothing(k, style, anchored) {
            stripped(s.take(k as int), style, anchored)
        } else {
            s
        }
    }
}

/// The names in `s`, without empty ones and without the `.` that count for
/// nothing.
pub open spec fn names(s: Seq<char>, style: Style, anchored: bool) -> Seq<Seq<char>>
    decreases s.len(),
{
    if s.len() == 0 {
        seq![]
    } else if separates(s.last(), style) {
        names(s.drop_last(), style, anchored)
    } else {
        proof {
            lemma_dir_len(s, style);
        }
        let k = dir_len(s, style);
        let before = names(s.take(k as int), style, anchored);
        if s.skip(k as int) == seq!['.'] && dot_is_nothing(k, style, anchored) {
            before
        } else {
            before.push(s.skip(k as int))
        }
    }
}

/// What stands behind prefix and root.
pub open spec fn body(p: Seq<char>, windows: bool) -> Seq<char> {
    p.skip(anchor_len(p, windows) as int)
}

/// What stands behind prefix and root, without what counts for nothing at its
/// end. A `.` behind a drive without a root stays.
pub open spec fn bare_body(p: Seq<char>, windows: bool) -> Seq<char> {
    stripped(body(p, windows), style_of(p, windows), rooted(p, windows))
}

/// The names of a path.
pub open spec fn names_of(p: Seq<char>, windows: bool) -> Seq<Seq<char>> {
    names(body(p, windows), style_of(p, windows), anchor_len(p, windows) > 0)
}

/// Whether the root of a path is one of its components: one that a verbatim
/// prefix implies is not.
pub open spec fn root_counts(p: Seq<char>, windows: bool) -> bool {
    root_stands(p, windows) || (prefix_len(p, windows) > 2 && !verbatim(p, windows))
}

/// The components of a path: its prefix, its root, its names.
pub open spec fn components(p: Seq<char>, windows: bool) -> Seq<Seq<char>> {
    let prefix = if prefix_len(p, windows) > 0 {
        seq![prefix_text(p, windows)]
    } else {
        seq![]
    };
    let root = if root_counts(p, windows) {
        seq![seq![main_separator(windows)]]
    } else {
        seq![]
    };
    prefix + root + names_of(p, windows)
}

/// Whether `p` lies in the directory `dir`, or is it: component by component it
/// starts as `dir` does.
pub open spec fn lies_in(p: Seq<char>, dir: Seq<char>, windows: bool) -> bool {
    components(dir, windows).is_prefix_of(components(p, windows))
}

/// The last name of a path; `.` and `..` are none.
pub open spec fn file_name(p: Seq<char>, windows: bool) -> Option<Seq<char>> {
    let q = bare_body(p, windows);
    let last = q.skip(dir_len(q, style_of(p, windows)) as int);
    if q.len() == 0 || last == seq!['.'] || last == seq!['.', '.'] {
        None
    } else {
        Some(last)
    }
}

/// Whether a path is only prefix and root, or a drive and `.`.
pub open spec fn has_no_name(p: Seq<char>, windows: bool) -> bool {
    let q = bare_body(p, windows);
    q.len() == 0 || (q == seq!['.'] && prefix_len(p, windows) == 2 && !rooted(p, windows))
}

/// The path without its last name.
pub open spec fn parent(p: Seq<char>, windows: bool) -> Option<Seq<char>> {
    let style = style_of(p, windows);
    let q = bare_body(p, windows);
    if has_no_name(p, windows) {
        None
    } else {
        let left = stripped(q.take(dir_len(q, style) as int), style, rooted(p, windows));
        Some(p.take((anchor_len(p, windows) + left.len()) as int))
    }
}

/// The path and what is left as its last names are taken away one by one.
pub open spec fn ancestors(p: Seq<char>, windows: bool) -> Seq<Seq<char>>
    decreases p.len(),
{
    proof {
        lemma_parent_is_shorter(p, windows);
    }
    match parent(p, windows) {
        Some(q) => seq![p] + ancestors(q, windows),
        None => seq![p],
    }
}

/// Where the last dot of a name stands, counted from its end: the number of
/// characters behind it, or the whole length where there is no dot.
pub open spec fn after_dot(name: Seq<char>) -> nat
    decreases name.len(),
{
    if name.len() == 0 || name.last() == '.' {
        0
    } else {
        1 + after_dot(name.drop_last())
    }
}

/// What stands behind the last dot of the last name, unless there is no dot or
/// it is the first character.
pub open spec fn extension(p: Seq<char>, windows: bool) -> Option<Seq<char>> {
    match file_name(p, windows) {
        None => None,
        Some(name) => {
            let n = after_dot(name);
            if n + 1 >= name.len() {
                None
            } else {
                Some(name.skip(name.len() - n))
            }
        },
    }
}

// ---------------------------------------------------------------------------
// Joining
// ---------------------------------------------------------------------------

/// Names with one more: `.` changes nothing, `..` takes the last name away,
/// unless that is itself `.` or `..`.
pub open spec fn stepped(all: Seq<Seq<char>>, name: Seq<char>) -> Seq<Seq<char>> {
    if name == seq!['.'] {
        all
    } else if name == seq!['.', '.'] {
        if all.len() > 0 && all.last() != seq!['.'] && all.last() != seq!['.', '.'] {
            all.drop_last()
        } else {
            all
        }
    } else {
        all.push(name)
    }
}

/// Names with more names.
pub open spec fn walked(all: Seq<Seq<char>>, more: Seq<Seq<char>>) -> Seq<Seq<char>>
    decreases more.len(),
{
    if more.len() == 0 {
        all
    } else {
        stepped(walked(all, more.drop_last()), more.last())
    }
}

/// `name` inside the verbatim directory `base`: a verbatim path holds no `.` or
/// `..`, so they are resolved.
pub open spec fn joined_verbatim(base: Seq<char>, name: Seq<char>) -> Seq<char> {
    let from_root = rooted(name, true);
    let start = if from_root {
        seq![]
    } else {
        names_of(base, true)
    };
    let all = walked(start, names_of(name, true));
    let prefix = base.take(prefix_len(base, true) as int);
    if from_root || root_stands(base, true) || all.len() > 0 {
        prefix + "\\"@ + join(all, "\\"@)
    } else {
        prefix
    }
}

/// `name` inside the directory `base`. A name that is absolute, or has a prefix
/// of its own, takes the place of all of `base`; one with a root, of all but its
/// prefix.
pub open spec fn joined(base: Seq<char>, name: Seq<char>, windows: bool) -> Seq<char> {
    if base.len() == 0 || absolute(name, windows) || prefix_len(name, windows) > 0 {
        name
    } else if verbatim(base, windows) && name.len() > 0 {
        joined_verbatim(base, name)
    } else if rooted(name, windows) {
        base.take(prefix_len(base, windows) as int) + name
    } else if separates(base.last(), plain_style(windows)) || (base.len() == 2 && prefix_len(
        base,
        windows,
    ) == 2) {
        base + name
    } else {
        base.push(main_separator(windows)) + name
    }
}

// ---------------------------------------------------------------------------
// Lemmas
// ---------------------------------------------------------------------------

proof fn lemma_name_len(s: Seq<char>, style: Style)
    ensures
        name_len(s, style) <= s.len(),
        name_len(s, style) < s.len() ==> separates(s[name_len(s, style) as int], style),
        forall|i: int| 0 <= i < name_len(s, style) ==> !separates(#[trigger] s[i], style),
    decreases s.len(),
{
    if s.len() > 0 && !separates(s[0], style) {
        let rest = s.drop_first();
        lemma_name_len(rest, style);
        assert forall|i: int| 0 <= i < name_len(s, style) implies !separates(
            #[trigger] s[i],
            style,
        ) by {
            if i > 0 {
                assert(rest[i - 1] == s[i]);
            }
        }
    }
}

proof fn lemma_name_len_is(s: Seq<char>, n: int, style: Style)
    requires
        0 <= n <= s.len(),
        forall|i: int| 0 <= i < n ==> !separates(#[trigger] s[i], style),
        n < s.len() ==> separates(s[n], style),
    ensures
        name_len(s, style) == n,
{
    lemma_name_len(s, style);
    let k = name_len(s, style) as int;
    if k < n {
        assert(!separates(s[k], style));
    } else if k > n {
        assert(!separates(s[n], style));
    }
}

proof fn lemma_share_len(s: Seq<char>, style: Style)
    ensures
        share_len(s, style) <= s.len(),
{
    lemma_name_len(s, style);
    let server = name_len(s, style);
    if server < s.len() {
        lemma_name_len(s.skip(server as int + 1), style);
    }
}

/// A prefix is a part of its path; a verbatim one has four characters at least.
pub proof fn lemma_prefix_len(p: Seq<char>, windows: bool)
    ensures
        prefix_len(p, windows) <= p.len(),
        verbatim(p, windows) ==> prefix_len(p, windows) >= 4,
        !windows ==> prefix_len(p, windows) == 0,
        prefix_len(p, windows) == 2 ==> is_drive(p) && !verbatim(p, windows),
        prefix_len(p, windows) != 1,
        anchor_len(p, windows) <= p.len(),
{
    if windows {
        if verbatim(p, windows) {
            lemma_name_len(p.skip(4), Style::Verbatim);
            if p.len() >= 8 {
                lemma_share_len(p.skip(8), Style::Verbatim);
            }
        } else if p.len() >= 2 {
            lemma_share_len(p.skip(2), Style::Windows);
            if p.len() >= 4 {
                lemma_name_len(p.skip(4), Style::Windows);
            }
        }
    }
}

/// A path whose names end with no separator has a last name.
pub proof fn lemma_dir_len(s: Seq<char>, style: Style)
    ensures
        dir_len(s, style) <= s.len(),
        s.len() > 0 && !separates(s.last(), style) ==> dir_len(s, style) < s.len(),
    decreases s.len(),
{
    if s.len() > 0 && !separates(s.last(), style) {
        lemma_dir_len(s.drop_last(), style);
    }
}

proof fn lemma_stripped(s: Seq<char>, style: Style, anchored: bool)
    ensures
        stripped(s, style, anchored).len() <= s.len(),
        stripped(s, style, anchored) == s.take(stripped(s, style, anchored).len() as int),
        stripped(s, style, anchored).len() > 0 ==> !separates(
            stripped(s, style, anchored).last(),
            style,
        ),
    decreases s.len(),
{
    if s.len() == 0 {
        assert(s.take(0) =~= s);
    } else if separates(s.last(), style) {
        let q = s.drop_last();
        lemma_stripped(q, style, anchored);
        let n = stripped(q, style, anchored).len() as int;
        assert(q.take(n) =~= s.take(n));
    } else {
        lemma_dir_len(s, style);
        let k = dir_len(s, style);
        if s.skip(k as int) == seq!['.'] && dot_is_nothing(k, style, anchored) {
            let q = s.take(k as int);
            lemma_stripped(q, style, anchored);
            let n = stripped(q, style, anchored).len() as int;
            assert(q.take(n) =~= s.take(n));
        } else {
            assert(s.take(s.len() as int) =~= s);
        }
    }
}

/// A parent is shorter than its path.
pub proof fn lemma_parent_is_shorter(p: Seq<char>, windows: bool)
    ensures
        parent(p, windows) matches Some(q) ==> q.len() < p.len(),
{
    let style = style_of(p, windows);
    let from_root = rooted(p, windows);
    let q = bare_body(p, windows);
    lemma_prefix_len(p, windows);
    lemma_stripped(body(p, windows), style, from_root);
    lemma_dir_len(q, style);
    if q.len() > 0 {
        lemma_stripped(q.take(dir_len(q, style) as int), style, from_root);
    }
}

/// What starts as a path with more than a drive for a prefix has such a prefix
/// too.
proof fn lemma_prefix_stays(p: Seq<char>, r: Seq<char>)
    requires
        prefix_len(p, true) > 2,
        r.len() >= prefix_len(p, true),
        forall|i: int| 0 <= i < prefix_len(p, true) ==> #[trigger] r[i] == p[i],
    ensures
        prefix_len(r, true) > 2,
        verbatim(p, true) ==> verbatim(r, true),
{
    lemma_prefix_len(p, true);
    let n = prefix_len(p, true) as int;
    if verbatim(p, true) {
        assert(r[0] == p[0] && r[1] == p[1] && r[2] == p[2] && r[3] == p[3]);
        lemma_prefix_len(r, true);
    } else {
        assert(p.len() >= 2 && separates(p[0], Style::Windows) && separates(p[1], Style::Windows));
        assert(r[0] == p[0] && r[1] == p[1] && r[2] == p[2]);
        if p.len() >= 4 && p[2] == '.' && separates(p[3], Style::Windows) {
            assert(r[3] == p[3]);
        } else {
            let s = p.skip(2);
            let t = r.skip(2);
            lemma_name_len(s, Style::Windows);
            let server = name_len(s, Style::Windows) as int;
            assert(server > 0);
            assert(server < s.len());
            let rest = s.skip(server + 1);
            lemma_name_len(rest, Style::Windows);
            let share = name_len(rest, Style::Windows) as int;
            assert(share > 0);
            assert(n == 2 + server + 1 + share);
            assert forall|i: int| 0 <= i < server + 1 + share implies #[trigger] t[i] == s[i] by {
                assert(r[i + 2] == p[i + 2]);
            }
            assert forall|i: int| 0 <= i < server implies !separates(
                #[trigger] t[i],
                Style::Windows,
            ) by {
                assert(t[i] == s[i]);
            }
            assert(t[server] == s[server]);
            lemma_name_len_is(t, server, Style::Windows);
            let after = t.skip(server + 1);
            assert(after[0] == t[server + 1]);
            assert(t[server + 1] == s[server + 1]);
            assert(rest[0] == s[server + 1]);
            assert(!separates(rest[0], Style::Windows));
            lemma_name_len(after, Style::Windows);
            assert(name_len(after, Style::Windows) > 0);
            assert(r[3] == p[3]);
        }
    }
}

/// A name inside an absolute directory is absolute, unless it has a drive of its
/// own and no root.
pub proof fn law_joined_is_absolute(base: Seq<char>, name: Seq<char>, windows: bool)
    requires
        absolute(base, windows),
        prefix_len(name, windows) == 0 || absolute(name, windows),
    ensures
        absolute(joined(base, name, windows), windows),
{
    let r = joined(base, name, windows);
    lemma_prefix_len(base, windows);
    if base.len() > 0 && !absolute(name, windows) {
        if !windows {
            assert(r[0] == base[0]);
        } else {
            let n = prefix_len(base, true) as int;
            reveal_strlit("\\");
            assert(forall|i: int| 0 <= i < n ==> #[trigger] r[i] == base[i]);
            if n > 2 {
                lemma_prefix_stays(base, r);
            } else {
                assert(is_drive(base));
                assert(r[0] == base[0] && r[1] == base[1]);
                assert(prefix_len(r, true) == 2);
                if rooted(name, true) {
                    assert(r[2] == name[0]);
                } else {
                    assert(r[2] == base[2]);
                }
            }
        }
    }
}

/// The ancestors of a path start with the path itself, each is followed by its
/// parent, and the last has none.
pub proof fn law_ancestors_climb(p: Seq<char>, windows: bool, i: int)
    ensures
        ancestors(p, windows).len() > 0,
        ancestors(p, windows)[0] == p,
        0 <= i && i + 1 < ancestors(p, windows).len() ==> parent(ancestors(p, windows)[i], windows)
            == Some(ancestors(p, windows)[i + 1]),
        parent(ancestors(p, windows).last(), windows) is None,
    decreases p.len(),
{
    lemma_parent_is_shorter(p, windows);
    let all = ancestors(p, windows);
    if let Some(q) = parent(p, windows) {
        let rest = ancestors(q, windows);
        law_ancestors_climb(q, windows, i - 1);
        assert(all =~= seq![p] + rest);
        assert(all.last() == rest.last());
        if 0 <= i && i + 1 < all.len() {
            assert(all[i + 1] == rest[i]);
            if i > 0 {
                assert(all[i] == rest[i - 1]);
            }
        }
    }
}

/// Off Windows a path is absolute exactly if it starts with a slash. On Windows a
/// drive and a separator make an absolute path; a separator alone does not, nor
/// does a drive alone.
pub proof fn law_absolute_paths(p: Seq<char>)
    ensures
        absolute(p, false) <==> p.len() > 0 && p[0] == '/',
        is_drive(p) ==> (absolute(p, true) <==> p.len() > 2 && (p[2] == '/' || p[2] == '\\')),
        p.len() > 0 && !is_drive(p) && p[0] != '/' && p[0] != '\\' ==> !absolute(p, true),
        p.len() > 1 && (p[0] == '/' || p[0] == '\\') && p[1] != '/' && p[1] != '\\' ==> !absolute(
            p,
            true,
        ),
{
    if is_drive(p) {
        assert(prefix_len(p, true) == 2);
    }
}

/// A name that is absolute stands for itself whatever it is joined to. Off Windows
/// any other name follows the directory, behind exactly one slash more than the
/// directory ends with, where it ends with none.
pub proof fn law_joined_text(base: Seq<char>, name: Seq<char>, windows: bool)
    ensures
        absolute(name, windows) ==> joined(base, name, windows) == name,
        base.len() == 0 ==> joined(base, name, windows) == name,
        base.len() > 0 && base.last() != '/' && (name.len() == 0 || name[0] != '/') ==> joined(
            base,
            name,
            false,
        ) == base + seq!['/'] + name,
        base.len() > 0 && base.last() == '/' && (name.len() == 0 || name[0] != '/') ==> joined(
            base,
            name,
            false,
        ) == base + name,
        is_rooted_plainly(base, true) && is_single_name(name) ==> joined(base, name, true)
            == if base.last() == '/' || base.last() == '\\' {
            base + name
        } else {
            base + seq!['\\'] + name
        },
{
    assert(base.push('/') =~= base + seq!['/']);
    assert(base.push('\\') =~= base + seq!['\\']);
    if is_rooted_plainly(base, true) && is_single_name(name) {
        assert(name[0] != '/' && name[0] != '\\');
        if name.len() >= 2 {
            assert(name[1] != ':');
        }
    }
}

/// The root has no parent and no name.
pub proof fn law_root_is_the_top(drive: char)
    requires
        'a' <= drive <= 'z' || 'A' <= drive <= 'Z',
    ensures
        parent(seq!['/'], false) is None,
        file_name(seq!['/'], false) is None,
        parent(seq![drive, ':', '\\'], true) is None,
        file_name(seq![drive, ':', '\\'], true) is None,
        parent(seq![drive, ':', '.'], true) is None,
{
    let u = seq!['/'];
    let w = seq![drive, ':', '\\'];
    assert(body(u, false) =~= Seq::<char>::empty());
    assert(is_drive(w));
    assert(prefix_len(w, true) == 2);
    assert(anchor_len(w, true) == 3);
    assert(body(w, true) =~= Seq::<char>::empty());
    let d = seq![drive, ':', '.'];
    assert(is_drive(d));
    assert(prefix_len(d, true) == 2 && anchor_len(d, true) == 2);
    assert(body(d, true) =~= seq!['.']);
    assert(seq!['.'].drop_last() =~= Seq::<char>::empty());
    assert(dir_len(seq!['.'], Style::Windows) == 0) by {
        reveal_with_fuel(dir_len, 2);
    }
    assert(seq!['.'].skip(0) =~= seq!['.']);
}

/// The letter of a drive is the same drive in upper and lower case.
pub proof fn law_drives_have_no_case(low: char, rest: Seq<char>)
    requires
        'a' <= low <= 'z',
    ensures
        components(seq![low, ':'] + rest, true) == components(
            seq![upper_char(low), ':'] + rest,
            true,
        ),
{
    let p = seq![low, ':'] + rest;
    let q = seq![upper_char(low), ':'] + rest;
    assert(is_drive(p) && is_drive(q));
    assert(prefix_len(p, true) == 2 && prefix_len(q, true) == 2);
    assert(rest.len() > 0 ==> p[2] == rest[0] && q[2] == rest[0]);
    assert(p.len() == q.len());
    assert(anchor_len(p, true) == anchor_len(q, true));
    assert(body(p, true) =~= body(q, true));
    assert(prefix_text(p, true) =~= prefix_text(q, true));
    assert(components(p, true) =~= components(q, true));
}

/// What lies in a directory lies in every directory that this one lies in, and a
/// directory lies in itself.
pub proof fn law_lying_inside_goes_on(
    p: Seq<char>,
    dir: Seq<char>,
    above: Seq<char>,
    windows: bool,
)
    ensures
        lies_in(p, p, windows),
        lies_in(p, dir, windows) && lies_in(dir, above, windows) ==> lies_in(p, above, windows),
        lies_in(p, dir, windows) && lies_in(dir, p, windows) ==> components(p, windows)
            == components(dir, windows),
{
    let x = components(p, windows);
    let y = components(dir, windows);
    let z = components(above, windows);
    assert(x.subrange(0, x.len() as int) =~= x);
    if lies_in(p, dir, windows) && lies_in(dir, above, windows) {
        assert(x.subrange(0, z.len() as int) =~= y.subrange(0, z.len() as int));
    }
    if lies_in(p, dir, windows) && lies_in(dir, p, windows) {
        assert(x.len() == y.len());
        assert(x =~= y);
    }
}

/// Whether a name is a single one: no separator, no drive, not `.` or `..`.
pub open spec fn is_single_name(name: Seq<char>) -> bool {
    &&& name.len() > 0
    &&& name != seq!['.']
    &&& name != seq!['.', '.']
    &&& forall|i: int|
        0 <= i < name.len() ==> #[trigger] name[i] != '/' && name[i] != '\\' && name[i] != ':'
}

/// The names of `s` and of a single name behind a separator are those of `s` and
/// the name.
proof fn lemma_names_push(s: Seq<char>, name: Seq<char>, style: Style, anchored: bool)
    requires
        is_single_name(name),
        s.len() > 0 ==> separates(s.last(), style),
    ensures
        dir_len(s + name, style) == s.len(),
        (s + name).skip(s.len() as int) == name,
        !separates((s + name).last(), style),
        names(s + name, style, anchored) == names(s, style, anchored).push(name),
        stripped(s + name, style, anchored) == s + name,
{
    let all = s + name;
    lemma_dir_len_is(s, name, style);
    assert(all.skip(s.len() as int) =~= name);
    assert(all.take(s.len() as int) =~= s);
    assert(all.last() == name[name.len() - 1]);
}

proof fn lemma_dir_len_is(s: Seq<char>, name: Seq<char>, style: Style)
    requires
        s.len() > 0 ==> separates(s.last(), style),
        forall|i: int| 0 <= i < name.len() ==> !separates(#[trigger] name[i], style),
    ensures
        dir_len(s + name, style) == s.len(),
    decreases name.len(),
{
    let all = s + name;
    if name.len() == 0 {
        assert(all =~= s);
    } else {
        assert(all.last() == name[name.len() - 1]);
        assert(all.drop_last() =~= s + name.drop_last());
        lemma_dir_len_is(s, name.drop_last(), style);
    }
}

/// A path that starts at a root, as files are named: off Windows by `/`, on
/// Windows by a drive and a root.
pub open spec fn is_rooted_plainly(p: Seq<char>, windows: bool) -> bool {
    if windows {
        is_drive(p) && p.len() > 2 && separates(p[2], Style::Windows)
    } else {
        p.len() > 0 && p[0] == '/'
    }
}

/// A name inside a directory lies in it: its components are those of the
/// directory and the name, and the name is its last.
pub proof fn law_joined_lies_inside(dir: Seq<char>, name: Seq<char>, windows: bool)
    requires
        is_rooted_plainly(dir, windows),
        is_single_name(name),
    ensures
        components(joined(dir, name, windows), windows) == components(dir, windows).push(name),
        lies_in(joined(dir, name, windows), dir, windows),
        file_name(joined(dir, name, windows), windows) == Some(name),
        is_rooted_plainly(joined(dir, name, windows), windows),
        bare_body(dir, windows) == body(dir, windows) ==> parent(
            joined(dir, name, windows),
            windows,
        ) == Some(dir),
{
    let style = plain_style(windows);
    let p = joined(dir, name, windows);
    let n = if windows {
        2int
    } else {
        0int
    };
    assert(prefix_len(dir, windows) == n);
    assert(name[0] != '/' && name[0] != '\\');
    if windows && name.len() >= 2 {
        assert(name[1] != ':');
    }
    assert(prefix_len(name, windows) == 0);
    assert(!rooted(name, windows));
    let lead = if separates(dir.last(), style) {
        dir
    } else {
        dir.push(main_separator(windows))
    };
    assert(!verbatim(dir, windows));
    assert(p =~= lead + name);
    assert(forall|i: int| 0 <= i <= n ==> #[trigger] p[i] == dir[i]);
    assert(prefix_len(p, windows) == n);
    assert(!verbatim(p, windows));
    assert(root_stands(dir, windows) && root_stands(p, windows));
    let k = n + 1;
    let s = lead.skip(k);
    assert(body(p, windows) =~= s + name);
    assert(s.len() > 0 ==> separates(s.last(), style)) by {
        if s.len() > 0 {
            assert(s.last() == lead.last());
        }
    }
    lemma_names_push(s, name, style, true);
    let b = body(dir, windows);
    if separates(dir.last(), style) {
        assert(s =~= b);
    } else {
        assert(s =~= b.push(main_separator(windows)));
        assert(s.drop_last() =~= b);
    }
    assert(names(s, style, true) == names(b, style, true));
    assert(prefix_text(p, windows) =~= prefix_text(dir, windows));
    let whole = components(p, windows);
    let part = components(dir, windows);
    if bare_body(dir, windows) == b {
        assert((s + name).take(s.len() as int) =~= s);
        assert(stripped(s, style, true) == stripped(b, style, true));
        assert(p.take((k + b.len()) as int) =~= dir);
    }
    assert(whole =~= part.push(name));
    assert(part =~= whole.subrange(0, part.len() as int));
}

/// The extension of a file is what stands behind its last dot.
pub proof fn law_extension_is_behind_the_dot(stem: Seq<char>, ext: Seq<char>, windows: bool)
    requires
        stem.len() > 0,
        ext.len() > 0,
        is_single_name(stem + seq!['.'] + ext),
        forall|i: int| 0 <= i < ext.len() ==> #[trigger] ext[i] != '.',
    ensures
        file_name(stem + seq!['.'] + ext, windows) == Some(stem + seq!['.'] + ext),
        extension(stem + seq!['.'] + ext, windows) == Some(ext),
{
    let p = stem + seq!['.'] + ext;
    let style = plain_style(windows);
    assert(p[0] != '/' && p[0] != '\\' && p[1] != ':');
    assert(prefix_len(p, windows) == 0);
    assert(!verbatim(p, windows));
    assert(!root_stands(p, windows));
    let none = Seq::<char>::empty();
    assert(body(p, windows) =~= p);
    assert(p =~= none + p);
    lemma_names_push(none, p, style, false);
    assert(bare_body(p, windows) == p);
    lemma_after_dot(stem + seq!['.'], ext);
    assert(p.skip(p.len() - ext.len()) =~= ext);
}

/// A name without a dot has no extension, and neither has one whose only dot is its
/// first character.
pub proof fn law_names_without_extension(name: Seq<char>, windows: bool)
    requires
        name.len() > 0,
        forall|i: int| 0 < i < name.len() ==> #[trigger] name[i] != '.',
        is_single_name(name),
    ensures
        file_name(name, windows) == Some(name),
        extension(name, windows) is None,
{
    let style = plain_style(windows);
    assert(name[0] != '/' && name[0] != '\\');
    if name.len() > 1 {
        assert(name[1] != ':');
    }
    assert(prefix_len(name, windows) == 0);
    assert(!verbatim(name, windows));
    assert(!root_stands(name, windows));
    let none = Seq::<char>::empty();
    assert(body(name, windows) =~= name);
    assert(name =~= none + name);
    lemma_names_push(none, name, style, false);
    assert(bare_body(name, windows) == name);
    if name[0] == '.' {
        let ext = name.drop_first();
        assert(name =~= seq!['.'] + ext);
        lemma_after_dot(seq!['.'], ext);
    } else {
        lemma_no_dot(name);
    }
}

proof fn lemma_no_dot(name: Seq<char>)
    requires
        forall|i: int| 0 <= i < name.len() ==> #[trigger] name[i] != '.',
    ensures
        after_dot(name) == name.len(),
    decreases name.len(),
{
    if name.len() > 0 {
        assert(name[name.len() - 1] != '.');
        lemma_no_dot(name.drop_last());
    }
}

proof fn lemma_after_dot(head: Seq<char>, ext: Seq<char>)
    requires
        head.len() > 0,
        head.last() == '.',
        forall|i: int| 0 <= i < ext.len() ==> #[trigger] ext[i] != '.',
    ensures
        after_dot(head + ext) == ext.len(),
    decreases ext.len(),
{
    let all = head + ext;
    if ext.len() == 0 {
        assert(all =~= head);
    } else {
        assert(all.last() == ext[ext.len() - 1]);
        assert(all.drop_last() =~= head + ext.drop_last());
        lemma_after_dot(head, ext.drop_last());
    }
}

// ---------------------------------------------------------------------------
// Prefix and root, executable
// ---------------------------------------------------------------------------

/// Whether a character separates names.
pub fn is_separator(c: char, style: Style) -> (r: bool)
    ensures
        r == separates(c, style),
{
    match style {
        Style::Unix => c == '/',
        Style::Windows => c == '/' || c == '\\',
        Style::Verbatim => c == '\\',
    }
}

fn plain(windows: bool) -> (r: Style)
    ensures
        r == plain_style(windows),
{
    if windows {
        Style::Windows
    } else {
        Style::Unix
    }
}

fn is_verbatim(v: &Vec<char>, windows: bool) -> (r: bool)
    ensures
        r == verbatim(v@, windows),
{
    windows && v.len() >= 4 && v[0] == '\\' && v[1] == '\\' && v[2] == '?' && v[3] == '\\'
}

fn names_verbatim_share(v: &Vec<char>, windows: bool) -> (r: bool)
    ensures
        r == is_verbatim_share(v@, windows),
{
    is_verbatim(v, windows) && v.len() >= 8 && v[4] == 'U' && v[5] == 'N' && v[6] == 'C'
        && is_separator(v[7], Style::Windows)
}

fn style(v: &Vec<char>, windows: bool) -> (r: Style)
    ensures
        r == style_of(v@, windows),
{
    if is_verbatim(v, windows) {
        Style::Verbatim
    } else {
        plain(windows)
    }
}

/// The length of the name that starts at `from`.
fn name_size(v: &Vec<char>, from: usize, style: Style) -> (r: usize)
    requires
        from <= v.len(),
    ensures
        r == name_len(v@.skip(from as int), style),
        from + r <= v.len(),
{
    let mut i: usize = from;
    while i < v.len() && !is_separator(v[i], style)
        invariant
            from <= i <= v.len(),
            forall|j: int| from <= j < i ==> !separates(#[trigger] v@[j], style),
        decreases v.len() - i,
    {
        i += 1;
    }
    proof {
        let s = v@.skip(from as int);
        assert forall|j: int| 0 <= j < i - from implies !separates(#[trigger] s[j], style) by {
            assert(s[j] == v@[from + j]);
        }
        lemma_name_len_is(s, i - from, style);
    }
    i - from
}

/// The length of the server and share that start at `from`.
fn share_size(v: &Vec<char>, from: usize, style: Style) -> (r: usize)
    requires
        from <= v.len(),
    ensures
        r == share_len(v@.skip(from as int), style),
        from + r <= v.len(),
{
    let server: usize = name_size(v, from, style);
    if from + server == v.len() {
        return server;
    }
    let share: usize = name_size(v, from + server + 1, style);
    proof {
        assert(v@.skip(from as int).skip(server as int + 1) =~= v@.skip(from + server + 1));
    }
    if share > 0 {
        server + 1 + share
    } else {
        server
    }
}

fn drive_at(v: &Vec<char>, from: usize) -> (r: bool)
    requires
        from <= v.len(),
    ensures
        r == is_drive(v@.skip(from as int)),
{
    v.len() - from >= 2 && v[from + 1] == ':' && (('a' <= v[from] && v[from] <= 'z') || ('A'
        <= v[from] && v[from] <= 'Z'))
}

/// The length of a path's prefix.
fn prefix_size(v: &Vec<char>, windows: bool) -> (r: usize)
    ensures
        r == prefix_len(v@, windows),
        r <= v.len(),
{
    proof {
        lemma_prefix_len(v@, windows);
    }
    if !windows {
        return 0;
    }
    if is_verbatim(v, windows) {
        if names_verbatim_share(v, windows) {
            return 8 + share_size(v, 8, Style::Verbatim);
        }
        if drive_at(v, 4) && (v.len() == 6 || is_separator(v[6], Style::Windows)) {
            return 6;
        }
        return 4 + name_size(v, 4, Style::Verbatim);
    }
    if v.len() >= 2 && is_separator(v[0], Style::Windows) && is_separator(v[1], Style::Windows) {
        if v.len() >= 4 && v[2] == '.' && is_separator(v[3], Style::Windows) {
            return 4 + name_size(v, 4, Style::Windows);
        }
        let server: usize = name_size(v, 2, Style::Windows);
        let both: usize = share_size(v, 2, Style::Windows);
        if server > 0 && both > server {
            return 2 + both;
        }
        return 0;
    }
    proof {
        assert(v@.skip(0) =~= v@);
    }
    if drive_at(v, 0) {
        2
    } else {
        0
    }
}

/// What a path starts with.
struct Anchor {
    /// The length of its prefix.
    prefix: usize,
    /// The length of prefix and root.
    len: usize,
    rooted: bool,
    style: Style,
}

fn anchor(v: &Vec<char>, windows: bool) -> (r: Anchor)
    ensures
        r.prefix == prefix_len(v@, windows),
        r.len == anchor_len(v@, windows),
        r.rooted == rooted(v@, windows),
        r.style == style_of(v@, windows),
        r.prefix <= r.len <= v.len(),
{
    let prefix: usize = prefix_size(v, windows);
    let stands = prefix < v.len() && is_separator(v[prefix], plain(windows));
    Anchor {
        prefix,
        len: if stands {
            prefix + 1
        } else {
            prefix
        },
        rooted: stands || prefix > 2,
        style: style(v, windows),
    }
}

// ---------------------------------------------------------------------------
// Names, executable
// ---------------------------------------------------------------------------

/// Where the last name of `v[from..to]` starts.
fn name_start(v: &Vec<char>, from: usize, to: usize, style: Style) -> (r: usize)
    requires
        from <= to <= v.len(),
    ensures
        from <= r <= to,
        r - from == dir_len(v@.subrange(from as int, to as int), style),
{
    let mut k: usize = to;
    while k > from && !is_separator(v[k - 1], style)
        invariant
            from <= k <= to <= v.len(),
            dir_len(v@.subrange(from as int, to as int), style) == dir_len(
                v@.subrange(from as int, k as int),
                style,
            ),
        decreases k,
    {
        proof {
            let s = v@.subrange(from as int, k as int);
            assert(s.last() == v@[k - 1]);
            assert(s.drop_last() =~= v@.subrange(from as int, k - 1));
        }
        k -= 1;
    }
    proof {
        let s = v@.subrange(from as int, k as int);
        if k > from {
            assert(s.last() == v@[k - 1]);
        }
    }
    k
}

/// Where `v[from..to]` ends without the separators, and the `.` that count for
/// nothing, at its end.
fn stripped_end(v: &Vec<char>, from: usize, to: usize, style: Style, anchored: bool) -> (r: usize)
    requires
        from <= to <= v.len(),
    ensures
        from <= r <= to,
        stripped(v@.subrange(from as int, to as int), style, anchored) == v@.subrange(
            from as int,
            r as int,
        ),
{
    let mut n: usize = to;
    while n > from
        invariant
            from <= n <= to <= v.len(),
            stripped(v@.subrange(from as int, n as int), style, anchored) == stripped(
                v@.subrange(from as int, to as int),
                style,
                anchored,
            ),
        decreases n,
    {
        let ghost s = v@.subrange(from as int, n as int);
        proof {
            assert(s.last() == v@[n - 1]);
        }
        if is_separator(v[n - 1], style) {
            proof {
                assert(s.drop_last() =~= v@.subrange(from as int, n - 1));
            }
            n -= 1;
        } else {
            let k: usize = name_start(v, from, n, style);
            let ghost last = s.skip(k - from);
            proof {
                lemma_dir_len(s, style);
                assert(s.take(k - from) =~= v@.subrange(from as int, k as int));
            }
            if n - k == 1 && v[k] == '.' && style != Style::Verbatim && (k > from || anchored) {
                proof {
                    assert(last =~= seq!['.']);
                }
                n = k;
            } else {
                proof {
                    if last == seq!['.'] {
                        assert(last.len() == 1 && last[0] == '.');
                    }
                }
                return n;
            }
        }
    }
    n
}

/// The names in `v[from..to]`.
fn name_texts(v: &Vec<char>, from: usize, to: usize, style: Style, anchored: bool) -> (r: Vec<
    String,
>)
    requires
        from <= to <= v.len(),
    ensures
        texts(r@) == names(v@.subrange(from as int, to as int), style, anchored),
    decreases to,
{
    let ghost s = v@.subrange(from as int, to as int);
    if to == from {
        let r: Vec<String> = Vec::new();
        proof {
            assert(texts(r@) =~= names(s, style, anchored));
        }
        return r;
    }
    proof {
        assert(s.last() == v@[to - 1]);
    }
    if is_separator(v[to - 1], style) {
        proof {
            assert(s.drop_last() =~= v@.subrange(from as int, to - 1));
        }
        return name_texts(v, from, to - 1, style, anchored);
    }
    let k: usize = name_start(v, from, to, style);
    let ghost last = s.skip(k - from);
    proof {
        lemma_dir_len(s, style);
        assert(s.take(k - from) =~= v@.subrange(from as int, k as int));
        assert(last =~= v@.subrange(k as int, to as int));
    }
    let mut r = name_texts(v, from, k, style, anchored);
    if to - k == 1 && v[k] == '.' && style != Style::Verbatim && (k > from || anchored) {
        proof {
            assert(last =~= seq!['.']);
        }
        r
    } else {
        proof {
            if last == seq!['.'] {
                assert(last.len() == 1 && last[0] == '.');
            }
        }
        let ghost before = texts(r@);
        r.push(text_of(v, k, to));
        proof {
            assert(texts(r@) =~= before.push(last));
        }
        r
    }
}

/// The names of a path.
fn all_names(v: &Vec<char>, windows: bool) -> (r: Vec<String>)
    ensures
        texts(r@) == names_of(v@, windows),
{
    let a = anchor(v, windows);
    proof {
        assert(body(v@, windows) =~= v@.subrange(a.len as int, v@.len() as int));
    }
    name_texts(v, a.len, v.len(), a.style, a.len > 0)
}

/// The range of the last name of a path.
fn file_name_range(v: &Vec<char>, windows: bool) -> (r: Option<(usize, usize)>)
    ensures
        match r {
            Some(b) => b.0 <= b.1 <= v.len() && file_name(v@, windows) == Some(
                v@.subrange(b.0 as int, b.1 as int),
            ),
            None => file_name(v@, windows) is None,
        },
{
    let a = anchor(v, windows);
    let to: usize = stripped_end(v, a.len, v.len(), a.style, a.rooted);
    let ghost q = bare_body(v@, windows);
    proof {
        assert(body(v@, windows) =~= v@.subrange(a.len as int, v@.len() as int));
    }
    if to == a.len {
        return None;
    }
    let k: usize = name_start(v, a.len, to, a.style);
    let ghost last = q.skip(k - a.len);
    proof {
        assert(last =~= v@.subrange(k as int, to as int));
    }
    if to - k == 1 && v[k] == '.' {
        proof {
            assert(last =~= seq!['.']);
        }
        None
    } else if to - k == 2 && v[k] == '.' && v[k + 1] == '.' {
        proof {
            assert(last =~= seq!['.', '.']);
        }
        None
    } else {
        proof {
            if last == seq!['.'] {
                assert(last.len() == 1 && last[0] == '.');
            }
            if last == seq!['.', '.'] {
                assert(last.len() == 2 && last[0] == '.' && last[1] == '.');
            }
        }
        Some((k, to))
    }
}

/// The last name of a path.
pub fn last_component(path: &str, windows: bool) -> (r: Option<String>)
    ensures
        match r {
            Some(n) => file_name(path@, windows) == Some(n@),
            None => file_name(path@, windows) is None,
        },
{
    let v = chars_of(path);
    match file_name_range(&v, windows) {
        Some(range) => Some(text_of(&v, range.0, range.1)),
        None => None,
    }
}

/// The path without its last name.
pub fn parent_path(path: &str, windows: bool) -> (r: Option<String>)
    ensures
        match r {
            Some(q) => parent(path@, windows) == Some(q@),
            None => parent(path@, windows) is None,
        },
{
    let v = chars_of(path);
    let a = anchor(&v, windows);
    let to: usize = stripped_end(&v, a.len, v.len(), a.style, a.rooted);
    let ghost q = bare_body(v@, windows);
    proof {
        assert(body(v@, windows) =~= v@.subrange(a.len as int, v@.len() as int));
    }
    proof {
        if q == seq!['.'] {
            assert(q.len() == 1 && q[0] == '.');
        }
        if to - a.len == 1 && v@[a.len as int] == '.' {
            assert(q =~= seq!['.']);
        }
    }
    if to == a.len || (to - a.len == 1 && v[a.len] == '.' && a.prefix == 2 && !a.rooted) {
        return None;
    }
    let k: usize = name_start(&v, a.len, to, a.style);
    let m: usize = stripped_end(&v, a.len, k, a.style, a.rooted);
    proof {
        assert(q.take(k - a.len) =~= v@.subrange(a.len as int, k as int));
        assert(v@.take(m as int) =~= v@.subrange(0, m as int));
    }
    Some(text_of(&v, 0, m))
}

/// The path and its ancestors, nearest first.
pub fn ancestor_paths(path: &str, windows: bool) -> (r: Vec<String>)
    ensures
        texts(r@) == ancestors(path@, windows),
{
    let mut out: Vec<String> = Vec::new();
    let mut cur = path.to_string();
    proof {
        assert(texts(out@) + ancestors(path@, windows) =~= ancestors(path@, windows));
    }
    loop
        invariant
            texts(out@) + ancestors(cur@, windows) == ancestors(path@, windows),
        decreases cur@.len(),
    {
        let next = parent_path(cur.as_str(), windows);
        let ghost here = cur@;
        let ghost before = texts(out@);
        out.push(cur);
        proof {
            lemma_parent_is_shorter(here, windows);
            assert(texts(out@) =~= before.push(here));
        }
        match next {
            Some(q) => {
                proof {
                    assert(before + (seq![here] + ancestors(q@, windows)) =~= before.push(here)
                        + ancestors(q@, windows));
                }
                cur = q;
            },
            None => {
                proof {
                    assert(before + seq![here] =~= before.push(here));
                }
                return out;
            },
        }
    }
}

fn upper(c: char) -> (r: char)
    ensures
        r == upper_char(c),
{
    if 'a' <= c && c <= 'z' {
        ((c as u8) - 32) as char
    } else {
        c
    }
}

/// A prefix as it is compared.
fn compared_prefix(v: &Vec<char>, windows: bool) -> (r: String)
    ensures
        r@ == prefix_text(v@, windows),
{
    let n: usize = prefix_size(v, windows);
    let exact = is_verbatim(v, windows);
    let share = names_verbatim_share(v, windows);
    proof {
        lemma_prefix_len(v@, windows);
    }
    let drive: usize = if exact {
        if n == 6 && drive_at(v, 4) {
            4
        } else {
            n
        }
    } else if n == 2 {
        0
    } else {
        n
    };
    let mut out = String::new();
    let mut i: usize = 0;
    while i < n
        invariant
            i <= n <= v.len(),
            n == prefix_len(v@, windows),
            exact == verbatim(v@, windows),
            share == is_verbatim_share(v@, windows),
            drive == if exact {
                if n == 6 && is_drive(v@.skip(4)) {
                    4
                } else {
                    n as int
                }
            } else if n == 2 {
                0
            } else {
                n as int
            },
            out@ == prefix_text(v@, windows).take(i as int),
        decreases n - i,
    {
        let c = if i == drive {
            upper(v[i])
        } else if v[i] == '/' && (!exact || (i == 7 && share)) {
            '\\'
        } else {
            v[i]
        };
        proof {
            let whole = prefix_text(v@, windows);
            assert(whole[i as int] == c);
            assert(whole.take(i + 1) =~= whole.take(i as int).push(c));
        }
        out.push(c);
        i += 1;
    }
    proof {
        let whole = prefix_text(v@, windows);
        assert(whole.take(n as int) =~= whole);
    }
    out
}

/// The components of a path.
fn component_texts(v: &Vec<char>, windows: bool) -> (r: Vec<String>)
    ensures
        texts(r@) == components(v@, windows),
{
    let a = anchor(v, windows);
    let mut out: Vec<String> = Vec::new();
    if a.prefix > 0 {
        out.push(compared_prefix(v, windows));
    }
    let ghost prefix = texts(out@);
    proof {
        if a.prefix > 0 {
            assert(prefix =~= seq![prefix_text(v@, windows)]);
        } else {
            assert(prefix =~= Seq::<Seq<char>>::empty());
        }
    }
    if a.len > a.prefix || (a.prefix > 2 && !is_verbatim(v, windows)) {
        let mut root = String::new();
        if windows {
            root.push('\\');
        } else {
            root.push('/');
        }
        proof {
            assert(root@ =~= seq![main_separator(windows)]);
            assert(texts(out@.push(root)) =~= prefix + seq![seq![main_separator(windows)]]);
        }
        out.push(root);
    } else {
        proof {
            assert(prefix =~= prefix + Seq::<Seq<char>>::empty());
        }
    }
    let ghost front = texts(out@);
    let mut rest = all_names(v, windows);
    let ghost back = texts(rest@);
    out.append(&mut rest);
    proof {
        assert(texts(out@) =~= front + back);
    }
    out
}

/// Whether a path lies in a directory, or is it.
pub fn is_inside(path: &str, dir: &str, windows: bool) -> (r: bool)
    ensures
        r == lies_in(path@, dir@, windows),
{
    let p = chars_of(path);
    let d = chars_of(dir);
    let pc = component_texts(&p, windows);
    let dc = component_texts(&d, windows);
    let ghost ps = components(path@, windows);
    let ghost ds = components(dir@, windows);
    if dc.len() > pc.len() {
        return false;
    }
    let mut i: usize = 0;
    while i < dc.len()
        invariant
            i <= dc.len() <= pc.len(),
            ps == texts(pc@),
            ds == texts(dc@),
            ps == components(path@, windows),
            ds == components(dir@, windows),
            forall|j: int| 0 <= j < i ==> ps[j] == ds[j],
        decreases dc.len() - i,
    {
        if !same_text(pc[i].as_str(), dc[i].as_str()) {
            proof {
                if ds.is_prefix_of(ps) {
                    assert(ps.subrange(0, ds.len() as int)[i as int] == ps[i as int]);
                }
                assert(ps[i as int] != ds[i as int]);
            }
            return false;
        }
        proof {
            assert(ps[i as int] == ds[i as int]);
        }
        i += 1;
    }
    proof {
        assert(ds =~= ps.subrange(0, ds.len() as int));
    }
    true
}

/// The extension of a path.
pub fn file_extension(path: &str, windows: bool) -> (r: Option<String>)
    ensures
        match r {
            Some(e) => extension(path@, windows) == Some(e@),
            None => extension(path@, windows) is None,
        },
{
    let v = chars_of(path);
    match file_name_range(&v, windows) {
        None => None,
        Some(range) => {
            let from: usize = range.0;
            let to: usize = range.1;
            let ghost name = v@.subrange(from as int, to as int);
            let mut k: usize = to;
            proof {
                assert(name.take(name.len() as int) =~= name);
            }
            while k > from && v[k - 1] != '.'
                invariant
                    from <= k <= to <= v.len(),
                    name == v@.subrange(from as int, to as int),
                    after_dot(name) == (to - k) + after_dot(name.take(k - from)),
                decreases k,
            {
                proof {
                    assert(name.take(k - from).drop_last() =~= name.take(k - from - 1));
                }
                k -= 1;
            }
            if k == from || k - from == 1 {
                None
            } else {
                proof {
                    assert(name.skip(k - from) =~= v@.subrange(k as int, to as int));
                }
                Some(text_of(&v, k, to))
            }
        },
    }
}

// ---------------------------------------------------------------------------
// Joining, executable
// ---------------------------------------------------------------------------

/// Take one more name on.
fn step(all: &mut Vec<String>, name: String)
    ensures
        texts(final(all)@) == stepped(texts(old(all)@), name@),
{
    proof {
        reveal_strlit(".");
        reveal_strlit("..");
        assert("."@ =~= seq!['.']);
        assert(".."@ =~= seq!['.', '.']);
    }
    let ghost before = texts(all@);
    if same_text(name.as_str(), ".") {
        return;
    }
    if same_text(name.as_str(), "..") {
        let n: usize = all.len();
        if n > 0 {
            let last = all[n - 1].as_str();
            proof {
                assert(before.last() == last@);
            }
            if !same_text(last, ".") && !same_text(last, "..") {
                all.pop();
                proof {
                    assert(texts(all@) =~= before.drop_last());
                }
            }
        }
        return;
    }
    proof {
        assert(texts(all@.push(name)) =~= before.push(name@));
    }
    all.push(name);
}

/// `name` inside the verbatim directory `base`.
fn join_verbatim(b: &Vec<char>, n: &Vec<char>) -> (r: String)
    ensures
        r@ == joined_verbatim(b@, n@),
{
    let base = anchor(b, true);
    let name = anchor(n, true);
    let mut all: Vec<String> = if name.rooted {
        Vec::new()
    } else {
        all_names(b, true)
    };
    let ghost start = if name.rooted {
        seq![]
    } else {
        names_of(b@, true)
    };
    proof {
        assert(texts(all@) =~= start);
    }
    let more = all_names(n, true);
    let mut i: usize = 0;
    while i < more.len()
        invariant
            i <= more.len(),
            texts(all@) == walked(start, texts(more@).take(i as int)),
        decreases more.len() - i,
    {
        proof {
            let t = texts(more@).take(i + 1);
            assert(t.drop_last() =~= texts(more@).take(i as int));
            assert(t.last() == more@[i as int]@);
        }
        step(&mut all, more[i].clone());
        i += 1;
    }
    proof {
        assert(texts(more@).take(more@.len() as int) =~= texts(more@));
        assert(b@.take(base.prefix as int) =~= b@.subrange(0, base.prefix as int));
    }
    let mut out = text_of(b, 0, base.prefix);
    if name.rooted || base.len > base.prefix || all.len() > 0 {
        out.append("\\");
        out.append(join_texts(&all, "\\").as_str());
    }
    out
}

/// `name` inside the directory `base`.
pub fn join_path(base: &str, name: &str, windows: bool) -> (r: String)
    ensures
        r@ == joined(base@, name@, windows),
{
    let b = chars_of(base);
    let n = chars_of(name);
    let a = anchor(&n, windows);
    if b.len() == 0 || (a.rooted && (!windows || a.prefix > 0)) || a.prefix > 0 {
        return name.to_string();
    }
    if is_verbatim(&b, windows) && n.len() > 0 {
        return join_verbatim(&b, &n);
    }
    let prefix: usize = prefix_size(&b, windows);
    if a.rooted {
        let mut out = text_of(&b, 0, prefix);
        out.append(name);
        proof {
            assert(b@.take(prefix as int) =~= b@.subrange(0, prefix as int));
        }
        return out;
    }
    let mut out = base.to_string();
    if !(is_separator(b[b.len() - 1], plain(windows)) || (b.len() == 2 && prefix == 2)) {
        if windows {
            out.push('\\');
        } else {
            out.push('/');
        }
    }
    out.append(name);
    out
}

} // verus!
