//! Capability probing: which shells, coreutils and tools exist on a host.
//!
//! The caller says which directories are searched, where it works and which files
//! exist; what a name resolves to, and what the snapshot of the host says, follows.

use vstd::prelude::*;
use vstd::utf8::{decode_utf8, valid_utf8};

use crate::encoding::{from_utf8_lossy, utf8_lossy};
use crate::path::{
    absolute, file_name, is_inside, is_rooted_plainly, is_single_name, join_path, joined,
    last_component, law_joined_is_absolute, law_joined_lies_inside, lemma_prefix_len, lies_in,
    prefix_len,
};
use crate::spec::{shell_name, Shell};
use crate::text::{
    ascii_lowercase, contains, contains_char, has_text, law_text_is_found_where_it_stands,
    lower_ascii, opt_text, same_text, texts,
};

verus! {

broadcast use vstd::seq::group_seq_axioms;

/// A tool found on PATH, or not.
#[derive(Debug)]
pub struct ToolInfo {
    pub name: String,
    pub path: Option<String>,
}

/// A shell found on PATH, or not.
#[derive(Debug)]
pub struct ShellInfo {
    pub name: String,
    pub path: Option<String>,
}

/// Which `timeout` binaries there are.
#[derive(Debug)]
pub struct CoreutilsInfo {
    /// `timeout`, absent on stock macOS and BSD.
    pub timeout: Option<String>,
    /// `gtimeout`, the GNU one under its Homebrew name.
    pub gtimeout: Option<String>,
    /// A GNU-compatible timeout binary is reachable.
    pub gnu_timeout_available: bool,
}

/// What a host offers.
#[derive(Debug)]
pub struct Capabilities {
    pub platform: String,
    pub arch: String,
    pub shells: Vec<ShellInfo>,
    pub coreutils: CoreutilsInfo,
    pub tools: Vec<ToolInfo>,
}

// ---------------------------------------------------------------------------
// Resolving a command
// ---------------------------------------------------------------------------

/// The file names that a bare command name may stand for.
pub open spec fn executable_names(name: Seq<char>, windows: bool) -> Seq<Seq<char>> {
    if windows && !name.contains('.') {
        seq![name, name + ".exe"@, name + ".cmd"@, name + ".bat"@, name + ".ps1"@]
    } else {
        seq![name]
    }
}

/// Where a bare command name is searched: in each directory in turn, every
/// file name it may stand for. A relative directory lies in the working
/// directory.
pub open spec fn search_paths(
    name: Seq<char>,
    dirs: Seq<Seq<char>>,
    cwd: Seq<char>,
    windows: bool,
) -> Seq<Seq<char>>
    decreases dirs.len(),
{
    if dirs.len() == 0 {
        seq![]
    } else {
        search_paths(name, dirs.drop_last(), cwd, windows) + executable_names(
            name,
            windows,
        ).map_values(|n: Seq<char>| joined(joined(cwd, dirs.last(), windows), n, windows))
    }
}

/// Whether a file is Windows' launcher of the Linux subsystem, which is no
/// usable `bash`.
pub open spec fn is_shim(path: Seq<char>, windows: bool, system_root: Seq<char>) -> bool {
    &&& windows
    &&& file_name(path, windows) matches Some(n) && lower_ascii(n) == "bash.exe"@
    &&& lies_in(path, joined(system_root, "System32"@, windows), windows)
}

/// The first path that exists and is usable.
pub open spec fn first_usable(
    paths: Seq<Seq<char>>,
    files: Seq<Seq<char>>,
    windows: bool,
    system_root: Seq<char>,
) -> Option<Seq<char>>
    decreases paths.len(),
{
    if paths.len() == 0 {
        None
    } else if files.contains(paths[0]) && !is_shim(paths[0], windows, system_root) {
        Some(paths[0])
    } else {
        first_usable(paths.drop_first(), files, windows, system_root)
    }
}

/// What a command name resolves to in the working directory `cwd`, where `files`
/// are the files that exist.
pub open spec fn resolved(
    name: Seq<char>,
    dirs: Seq<Seq<char>>,
    cwd: Seq<char>,
    files: Seq<Seq<char>>,
    windows: bool,
    system_root: Seq<char>,
) -> Option<Seq<char>> {
    if name.contains('/') || name.contains('\\') {
        let path = joined(cwd, name, windows);
        if files.contains(path) {
            Some(path)
        } else {
            None
        }
    } else {
        first_usable(search_paths(name, dirs, cwd, windows), files, windows, system_root)
    }
}

/// The file names that a bare command name may stand for. Windows knows
/// commands by their extension, which a scan of the directories has to try.
pub fn executable_candidates(name: &str, windows: bool) -> (r: Vec<String>)
    ensures
        texts(r@) == executable_names(name@, windows),
{
    let r = if windows && !contains_char(name, '.') {
        let mut exe = name.to_string();
        exe.append(".exe");
        let mut cmd = name.to_string();
        cmd.append(".cmd");
        let mut bat = name.to_string();
        bat.append(".bat");
        let mut ps1 = name.to_string();
        ps1.append(".ps1");
        vec![name.to_string(), exe, cmd, bat, ps1]
    } else {
        vec![name.to_string()]
    };
    proof {
        assert(texts(r@) =~= executable_names(name@, windows));
    }
    r
}

/// The files that decide what a command name resolves to.
pub open spec fn candidate_paths(
    name: Seq<char>,
    dirs: Seq<Seq<char>>,
    cwd: Seq<char>,
    windows: bool,
) -> Seq<Seq<char>> {
    if name.contains('/') || name.contains('\\') {
        seq![joined(cwd, name, windows)]
    } else {
        search_paths(name, dirs, cwd, windows)
    }
}

/// Every file that decides what a command name resolves to, in the order in
/// which they count.
pub fn which_candidates(name: &str, dirs: &Vec<String>, cwd: &str, windows: bool) -> (r: Vec<
    String,
>)
    ensures
        texts(r@) == if name@.contains('/') || name@.contains('\\') {
            seq![joined(cwd@, name@, windows)]
        } else {
            search_paths(name@, texts(dirs@), cwd@, windows)
        },
        texts(r@) == candidate_paths(name@, texts(dirs@), cwd@, windows),
{
    let mut out: Vec<String> = Vec::new();
    if contains_char(name, '/') || contains_char(name, '\\') {
        out.push(join_path(cwd, name, windows));
        proof {
            assert(texts(out@) =~= seq![joined(cwd@, name@, windows)]);
        }
        return out;
    }
    let names = executable_candidates(name, windows);
    let ghost all = executable_names(name@, windows);
    let mut i: usize = 0;
    proof {
        assert(texts(dirs@.take(0)) =~= Seq::<Seq<char>>::empty());
        assert(texts(out@) =~= Seq::<Seq<char>>::empty());
    }
    while i < dirs.len()
        invariant
            i <= dirs.len(),
            all == executable_names(name@, windows),
            texts(names@) == all,
            texts(out@) == search_paths(name@, texts(dirs@.take(i as int)), cwd@, windows),
        decreases dirs.len() - i,
    {
        let ghost before = texts(out@);
        let dir = join_path(cwd, dirs[i].as_str(), windows);
        let ghost here = all.map_values(|n: Seq<char>| joined(dir@, n, windows));
        let mut j: usize = 0;
        while j < names.len()
            invariant
                i < dirs.len(),
                j <= names.len(),
                texts(names@) == all,
                here == all.map_values(|n: Seq<char>| joined(dir@, n, windows)),
                texts(out@) == before + here.take(j as int),
            decreases names.len() - j,
        {
            let ghost prev = texts(out@);
            let path = join_path(dir.as_str(), names[j].as_str(), windows);
            proof {
                assert(texts(names@)[j as int] == names@[j as int]@);
                assert(here[j as int] == path@);
                assert(texts(out@.push(path)) =~= prev.push(path@));
                assert(before + here.take(j + 1) =~= (before + here.take(j as int)).push(path@));
            }
            out.push(path);
            j += 1;
        }
        proof {
            let t = texts(dirs@.take(i + 1));
            assert(t.drop_last() =~= texts(dirs@.take(i as int)));
            assert(t.last() == dirs@[i as int]@);
            assert(here.take(here.len() as int) =~= here);
        }
        i += 1;
    }
    proof {
        assert(dirs@.take(dirs@.len() as int) =~= dirs@);
    }
    out
}

/// `System32\bash.exe` on Windows is always the launcher of the Linux
/// subsystem. Without a distribution installed it prints a message and fails,
/// so it counts as absent; Git Bash lives elsewhere.
pub fn is_wsl_bash_shim(path: &str, windows: bool, system_root: &str) -> (r: bool)
    ensures
        r == is_shim(path@, windows, system_root@),
{
    if !windows {
        return false;
    }
    match last_component(path, windows) {
        None => false,
        Some(n) => {
            if !same_text(ascii_lowercase(n.as_str()).as_str(), "bash.exe") {
                return false;
            }
            is_inside(path, join_path(system_root, "System32", windows).as_str(), windows)
        },
    }
}

/// Whether a text is one of a list.
pub fn is_listed(list: &Vec<String>, s: &str) -> (r: bool)
    ensures
        r == texts(list@).contains(s@),
{
    let ghost all = texts(list@);
    let mut i: usize = 0;
    while i < list.len()
        invariant
            i <= list.len(),
            all == texts(list@),
            forall|j: int| 0 <= j < i ==> all[j] != s@,
        decreases list.len() - i,
    {
        if same_text(list[i].as_str(), s) {
            proof {
                assert(all[i as int] == s@);
            }
            return true;
        }
        proof {
            assert(all[i as int] != s@);
        }
        i += 1;
    }
    false
}

/// Resolve a command name to an absolute path, or `None`. `cwd` is the working
/// directory, and `files` are the candidates that exist as files.
pub fn which(
    name: &str,
    dirs: &Vec<String>,
    cwd: &str,
    files: &Vec<String>,
    windows: bool,
    system_root: &str,
) -> (r: Option<String>)
    ensures
        opt_text(r) == resolved(name@, texts(dirs@), cwd@, texts(files@), windows, system_root@),
{
    if contains_char(name, '/') || contains_char(name, '\\') {
        let path = join_path(cwd, name, windows);
        return if is_listed(files, path.as_str()) {
            Some(path)
        } else {
            None
        };
    }
    let paths = which_candidates(name, dirs, cwd, windows);
    let ghost all = texts(paths@);
    let ghost found = first_usable(all, texts(files@), windows, system_root@);
    let mut i: usize = 0;
    proof {
        assert(all.skip(0) =~= all);
    }
    while i < paths.len()
        invariant
            i <= paths.len(),
            all == texts(paths@),
            found == first_usable(all.skip(i as int), texts(files@), windows, system_root@),
            found == resolved(name@, texts(dirs@), cwd@, texts(files@), windows, system_root@),
        decreases paths.len() - i,
    {
        let p = paths[i].as_str();
        proof {
            assert(all[i as int] == p@);
            assert(all.skip(i as int)[0] == p@);
            assert(all.skip(i as int).drop_first() =~= all.skip(i + 1));
        }
        if is_listed(files, p) && !is_wsl_bash_shim(p, windows, system_root) {
            return Some(p.to_string());
        }
        i += 1;
    }
    None
}

// ---------------------------------------------------------------------------
// The snapshot
// ---------------------------------------------------------------------------

/// The shells that a snapshot looks for.
pub open spec fn shell_list() -> Seq<Seq<char>> {
    seq!["bash"@, "sh"@, "zsh"@, "pwsh"@, "powershell"@, "cmd"@]
}

/// The tools that a snapshot looks for.
pub open spec fn tool_list() -> Seq<Seq<char>> {
    seq![
        "python3"@,
        "node"@,
        "git"@,
        "curl"@,
        "uname"@,
        "sed"@,
        "awk"@,
        "find"@,
        "rsync"@,
        "tar"@,
    ]
}

/// The shells that a snapshot looks for.
pub fn shell_names() -> (r: Vec<String>)
    ensures
        texts(r@) == shell_list(),
{
    let r = vec![
        "bash".to_string(),
        "sh".to_string(),
        "zsh".to_string(),
        "pwsh".to_string(),
        "powershell".to_string(),
        "cmd".to_string(),
    ];
    proof {
        assert(texts(r@) =~= shell_list());
    }
    r
}

/// The tools that a snapshot looks for.
pub fn tool_names() -> (r: Vec<String>)
    ensures
        texts(r@) == tool_list(),
{
    let r = vec![
        "python3".to_string(),
        "node".to_string(),
        "git".to_string(),
        "curl".to_string(),
        "uname".to_string(),
        "sed".to_string(),
        "awk".to_string(),
        "find".to_string(),
        "rsync".to_string(),
        "tar".to_string(),
    ];
    proof {
        assert(texts(r@) =~= tool_list());
    }
    r
}

/// Whether a version text is that of GNU coreutils.
pub open spec fn is_gnu_text(head: Seq<char>) -> bool {
    has_text(head, "coreutils"@) || has_text(head, "GNU"@)
}

/// Whether a version text is that of GNU coreutils.
pub fn names_gnu(head: &str) -> (r: bool)
    ensures
        r == is_gnu_text(head@),
{
    contains(head, "coreutils") || contains(head, "GNU")
}

/// Whether what a binary wrote when asked for its version is that of GNU
/// coreutils; `None` where it could not be run.
pub open spec fn is_gnu_version(version: Option<Vec<u8>>) -> bool {
    match version {
        Some(bytes) => is_gnu_text(utf8_lossy(bytes@)),
        None => false,
    }
}

/// Whether the binary that wrote `version` when asked for its version is GNU
/// coreutils; `None` where it could not be run.
pub fn is_gnu_coreutils(version: &Option<Vec<u8>>) -> (r: bool)
    ensures
        r == is_gnu_version(*version),
        version matches Some(bytes) ==> valid_utf8(bytes@) ==> r == is_gnu_text(
            decode_utf8(bytes@),
        ),
{
    match version {
        Some(bytes) => {
            let head = from_utf8_lossy(bytes.as_slice());
            names_gnu(head.as_str())
        },
        None => false,
    }
}

/// The name under which a platform is reported.
pub fn platform_name(os: &str) -> (r: String)
    ensures
        r@ == os@,
{
    os.to_string()
}

/// What a snapshot says of a list of names: each name, in order, with what it
/// resolves to.
pub open spec fn lists_names(
    names: Seq<Seq<char>>,
    found: Seq<(Seq<char>, Option<Seq<char>>)>,
    dirs: Seq<Seq<char>>,
    cwd: Seq<char>,
    files: Seq<Seq<char>>,
    windows: bool,
    system_root: Seq<char>,
) -> bool {
    found == names.map_values(
        |n: Seq<char>| (n, resolved(n, dirs, cwd, files, windows, system_root)),
    )
}

/// The views of a list of shells.
pub open spec fn shell_texts(v: Seq<ShellInfo>) -> Seq<(Seq<char>, Option<Seq<char>>)> {
    v.map_values(|s: ShellInfo| (s.name@, opt_text(s.path)))
}

/// The views of a list of tools.
pub open spec fn tool_texts(v: Seq<ToolInfo>) -> Seq<(Seq<char>, Option<Seq<char>>)> {
    v.map_values(|t: ToolInfo| (t.name@, opt_text(t.path)))
}

/// A GNU timeout is at hand.
pub open spec fn gnu_timeout(timeout: bool, gnu: bool, gtimeout: bool) -> bool {
    gtimeout || (timeout && gnu)
}

/// A GNU timeout is at hand under its own name, or as a `timeout` that says that it
/// is one, and not otherwise.
pub proof fn law_gnu_timeout_is_recognized(timeout: bool, gnu: bool, gtimeout: bool)
    ensures
        gtimeout ==> gnu_timeout(timeout, gnu, gtimeout),
        timeout && gnu ==> gnu_timeout(timeout, gnu, gtimeout),
        !gtimeout && !gnu ==> !gnu_timeout(timeout, gnu, gtimeout),
        !gtimeout && !timeout ==> !gnu_timeout(timeout, gnu, gtimeout),
{
}

/// Text that names GNU or the coreutils anywhere is that of a GNU tool, and text
/// without a `G` and a `c` is not.
pub proof fn law_gnu_text_names_gnu(a: Seq<char>, b: Seq<char>)
    ensures
        is_gnu_text(a + "GNU"@ + b),
        is_gnu_text(a + "coreutils"@ + b),
        !a.contains('G') && !a.contains('c') ==> !is_gnu_text(a),
        is_gnu_version(None) == false,
{
    reveal_strlit("GNU");
    reveal_strlit("coreutils");
    assert("GNU"@[0] == 'G' && "coreutils"@[0] == 'c');
    law_text_is_found_where_it_stands(a, "GNU"@, b, 0);
    law_text_is_found_where_it_stands(a, "coreutils"@, b, 0);
}

/// The snapshot covers every shell that a run can be given, and each of the tools.
pub proof fn law_snapshot_covers_shells_and_tools(s: Shell)
    ensures
        shell_list().contains(shell_name(s)),
        tool_list().contains("python3"@) && tool_list().contains("node"@),
        tool_list().contains("git"@) && tool_list().contains("curl"@),
        tool_list().contains("uname"@) && tool_list().contains("sed"@),
        tool_list().contains("awk"@) && tool_list().contains("find"@),
        tool_list().contains("rsync"@) && tool_list().contains("tar"@),
{
    let l = shell_list();
    assert(l[0] == "bash"@ && l[1] == "sh"@ && l[2] == "zsh"@ && l[3] == "pwsh"@);
    assert(l[4] == "powershell"@ && l[5] == "cmd"@);
    let t = tool_list();
    assert(t[0] == "python3"@ && t[1] == "node"@ && t[2] == "git"@ && t[3] == "curl"@);
    assert(t[4] == "uname"@ && t[5] == "sed"@ && t[6] == "awk"@ && t[7] == "find"@);
    assert(t[8] == "rsync"@ && t[9] == "tar"@);
}

/// Full capability snapshot. `timeout_version` is what `timeout --version`
/// wrote, where it could be run.
pub fn probe(
    platform: &str,
    arch: &str,
    dirs: &Vec<String>,
    cwd: &str,
    files: &Vec<String>,
    windows: bool,
    system_root: &str,
    timeout_version: &Option<Vec<u8>>,
) -> (r: Capabilities)
    ensures
        r.platform@ == platform@,
        r.arch@ == arch@,
        lists_names(
            shell_list(),
            shell_texts(r.shells@),
            texts(dirs@),
            cwd@,
            texts(files@),
            windows,
            system_root@,
        ),
        lists_names(
            tool_list(),
            tool_texts(r.tools@),
            texts(dirs@),
            cwd@,
            texts(files@),
            windows,
            system_root@,
        ),
        opt_text(r.coreutils.timeout) == resolved(
            "timeout"@,
            texts(dirs@),
            cwd@,
            texts(files@),
            windows,
            system_root@,
        ),
        opt_text(r.coreutils.gtimeout) == resolved(
            "gtimeout"@,
            texts(dirs@),
            cwd@,
            texts(files@),
            windows,
            system_root@,
        ),
        r.coreutils.gnu_timeout_available == (r.coreutils.gtimeout is Some || (
        r.coreutils.timeout is Some && is_gnu_version(*timeout_version))),
        r.coreutils.gnu_timeout_available == gnu_timeout(
            r.coreutils.timeout is Some,
            is_gnu_version(*timeout_version),
            r.coreutils.gtimeout is Some,
        ),
        timeout_version matches Some(bytes) ==> valid_utf8(bytes@)
            ==> r.coreutils.gnu_timeout_available == (r.coreutils.gtimeout is Some || (
        r.coreutils.timeout is Some && is_gnu_text(decode_utf8(bytes@)))),
{
    let ghost ds = texts(dirs@);
    let ghost fs = texts(files@);
    let names = shell_names();
    let mut shells: Vec<ShellInfo> = Vec::new();
    let mut i: usize = 0;
    while i < names.len()
        invariant
            i <= names.len(),
            ds == texts(dirs@),
            fs == texts(files@),
            shell_texts(shells@) == texts(names@).take(i as int).map_values(
                |n: Seq<char>| (n, resolved(n, ds, cwd@, fs, windows, system_root@)),
            ),
        decreases names.len() - i,
    {
        let path = which(names[i].as_str(), dirs, cwd, files, windows, system_root);
        let info = ShellInfo { name: names[i].clone(), path };
        proof {
            let f = |n: Seq<char>| (n, resolved(n, ds, cwd@, fs, windows, system_root@));
            let all = texts(names@);
            assert(all[i as int] == names@[i as int]@);
            assert(shell_texts(shells@.push(info)) =~= shell_texts(shells@).push(f(all[i as int])));
            assert(all.take(i + 1).map_values(f) =~= all.take(i as int).map_values(f).push(
                f(all[i as int]),
            ));
        }
        shells.push(info);
        i += 1;
    }
    let timeout = which("timeout", dirs, cwd, files, windows, system_root);
    let gtimeout = which("gtimeout", dirs, cwd, files, windows, system_root);
    let gnu_timeout_available = timeout.is_some() && is_gnu_coreutils(timeout_version)
        || gtimeout.is_some();
    let tool_words = tool_names();
    let mut tools: Vec<ToolInfo> = Vec::new();
    let mut j: usize = 0;
    while j < tool_words.len()
        invariant
            j <= tool_words.len(),
            ds == texts(dirs@),
            fs == texts(files@),
            tool_texts(tools@) == texts(tool_words@).take(j as int).map_values(
                |n: Seq<char>| (n, resolved(n, ds, cwd@, fs, windows, system_root@)),
            ),
        decreases tool_words.len() - j,
    {
        let path = which(tool_words[j].as_str(), dirs, cwd, files, windows, system_root);
        let info = ToolInfo { name: tool_words[j].clone(), path };
        proof {
            let f = |n: Seq<char>| (n, resolved(n, ds, cwd@, fs, windows, system_root@));
            let all = texts(tool_words@);
            assert(all[j as int] == tool_words@[j as int]@);
            assert(tool_texts(tools@.push(info)) =~= tool_texts(tools@).push(f(all[j as int])));
            assert(all.take(j + 1).map_values(f) =~= all.take(j as int).map_values(f).push(
                f(all[j as int]),
            ));
        }
        tools.push(info);
        j += 1;
    }
    proof {
        assert(texts(names@).take(names@.len() as int) =~= shell_list());
        assert(texts(tool_words@).take(tool_words@.len() as int) =~= tool_list());
    }
    Capabilities {
        platform: platform.to_string(),
        arch: arch.to_string(),
        shells,
        coreutils: CoreutilsInfo { timeout, gtimeout, gnu_timeout_available },
        tools,
    }
}

// ---------------------------------------------------------------------------
// Laws
// ---------------------------------------------------------------------------

proof fn lemma_first_usable(
    paths: Seq<Seq<char>>,
    files: Seq<Seq<char>>,
    windows: bool,
    system_root: Seq<char>,
)
    ensures
        first_usable(paths, files, windows, system_root) matches Some(p) ==> paths.contains(p)
            && files.contains(p) && !is_shim(p, windows, system_root),
    decreases paths.len(),
{
    if paths.len() > 0 {
        if files.contains(paths[0]) && !is_shim(paths[0], windows, system_root) {
            assert(paths.contains(paths[0]));
        } else {
            let rest = paths.drop_first();
            lemma_first_usable(rest, files, windows, system_root);
            if let Some(p) = first_usable(rest, files, windows, system_root) {
                let i = choose|i: int| 0 <= i < rest.len() && rest[i] == p;
                assert(paths[i + 1] == p);
            }
        }
    }
}

proof fn lemma_first_usable_is_first(
    paths: Seq<Seq<char>>,
    files: Seq<Seq<char>>,
    windows: bool,
    system_root: Seq<char>,
)
    ensures
        match first_usable(paths, files, windows, system_root) {
            Some(p) => exists|i: int|
                0 <= i < paths.len() && #[trigger] paths[i] == p && files.contains(p) && !is_shim(
                    p,
                    windows,
                    system_root,
                ) && forall|j: int|
                    0 <= j < i ==> !files.contains(#[trigger] paths[j]) || is_shim(
                        paths[j],
                        windows,
                        system_root,
                    ),
            None => forall|j: int|
                0 <= j < paths.len() ==> !files.contains(#[trigger] paths[j]) || is_shim(
                    paths[j],
                    windows,
                    system_root,
                ),
        },
    decreases paths.len(),
{
    if paths.len() > 0 {
        let rest = paths.drop_first();
        lemma_first_usable_is_first(rest, files, windows, system_root);
        if files.contains(paths[0]) && !is_shim(paths[0], windows, system_root) {
            assert(paths[0] == first_usable(paths, files, windows, system_root)->0);
        } else {
            match first_usable(rest, files, windows, system_root) {
                Some(p) => {
                    let i = choose|i: int|
                        0 <= i < rest.len() && #[trigger] rest[i] == p && files.contains(p)
                            && !is_shim(p, windows, system_root) && forall|j: int|
                            0 <= j < i ==> !files.contains(#[trigger] rest[j]) || is_shim(
                                rest[j],
                                windows,
                                system_root,
                            );
                    assert(paths[i + 1] == p);
                    assert forall|j: int| 0 <= j < i + 1 implies !files.contains(
                        #[trigger] paths[j],
                    ) || is_shim(paths[j], windows, system_root) by {
                        if j > 0 {
                            assert(rest[j - 1] == paths[j]);
                        }
                    }
                },
                None => {
                    assert forall|j: int| 0 <= j < paths.len() implies !files.contains(
                        #[trigger] paths[j],
                    ) || is_shim(paths[j], windows, system_root) by {
                        if j > 0 {
                            assert(rest[j - 1] == paths[j]);
                        }
                    }
                },
            }
        }
    }
}

/// A bare name resolves to the first of its candidates, in the order in which
/// they are searched, that exists and is usable: no candidate before it is both.
/// Where it resolves to nothing, no candidate is both.
pub proof fn law_first_candidate_wins(
    name: Seq<char>,
    dirs: Seq<Seq<char>>,
    cwd: Seq<char>,
    files: Seq<Seq<char>>,
    windows: bool,
    system_root: Seq<char>,
)
    requires
        !name.contains('/'),
        !name.contains('\\'),
    ensures
        ({
            let paths = search_paths(name, dirs, cwd, windows);
            match resolved(name, dirs, cwd, files, windows, system_root) {
                Some(p) => exists|i: int|
                    0 <= i < paths.len() && #[trigger] paths[i] == p && files.contains(p)
                        && !is_shim(p, windows, system_root) && forall|j: int|
                        0 <= j < i ==> !files.contains(#[trigger] paths[j]) || is_shim(
                            paths[j],
                            windows,
                            system_root,
                        ),
                None => forall|j: int|
                    0 <= j < paths.len() ==> !files.contains(#[trigger] paths[j]) || is_shim(
                        paths[j],
                        windows,
                        system_root,
                    ),
            }
        }),
{
    lemma_first_usable_is_first(
        search_paths(name, dirs, cwd, windows),
        files,
        windows,
        system_root,
    );
}

/// The directory that comes first on the search path wins: off Windows, a file
/// of the name in a directory is what the name resolves to as long as no
/// directory before it holds one.
pub proof fn law_first_directory_wins(
    name: Seq<char>,
    dirs: Seq<Seq<char>>,
    cwd: Seq<char>,
    files: Seq<Seq<char>>,
    system_root: Seq<char>,
    i: int,
)
    requires
        !name.contains('/'),
        !name.contains('\\'),
        0 <= i < dirs.len(),
        forall|j: int| 0 <= j < dirs.len() ==> absolute(#[trigger] dirs[j], false),
        files.contains(joined(dirs[i], name, false)),
        forall|j: int| 0 <= j < i ==> !files.contains(joined(#[trigger] dirs[j], name, false)),
    ensures
        resolved(name, dirs, cwd, files, false, system_root) == Some(joined(dirs[i], name, false)),
{
    law_search_follows_the_directories(name, dirs, cwd);
    law_first_candidate_wins(name, dirs, cwd, files, false, system_root);
    let paths = search_paths(name, dirs, cwd, false);
    assert(forall|j: int|
        0 <= j < dirs.len() ==> #[trigger] paths[j] == joined(dirs[j], name, false));
    assert(files.contains(paths[i]));
    match resolved(name, dirs, cwd, files, false, system_root) {
        Some(p) => {
            let k = choose|k: int|
                0 <= k < paths.len() && #[trigger] paths[k] == p && files.contains(p) && !is_shim(
                    p,
                    false,
                    system_root,
                ) && forall|j: int|
                    0 <= j < k ==> !files.contains(#[trigger] paths[j]) || is_shim(
                        paths[j],
                        false,
                        system_root,
                    );
            if k < i {
                assert(!files.contains(joined(dirs[k], name, false)));
            } else if k > i {
                assert(!files.contains(paths[i]));
            }
        },
        None => {
            assert(!files.contains(paths[i]));
        },
    }
}

/// A name with a separator is never searched for: it is the file that it names,
/// seen from the working directory, or nothing.
pub proof fn law_path_is_not_searched(
    name: Seq<char>,
    dirs: Seq<Seq<char>>,
    cwd: Seq<char>,
    files: Seq<Seq<char>>,
    windows: bool,
    system_root: Seq<char>,
)
    requires
        name.contains('/') || name.contains('\\'),
    ensures
        resolved(name, dirs, cwd, files, windows, system_root) == if files.contains(
            joined(cwd, name, windows),
        ) {
            Some(joined(cwd, name, windows))
        } else {
            None
        },
{
}

/// Directories are searched in their order: those of the front of a list before
/// those of its end, and in each every file name before the next directory.
pub proof fn law_directories_are_searched_in_order(
    name: Seq<char>,
    first: Seq<Seq<char>>,
    then: Seq<Seq<char>>,
    cwd: Seq<char>,
    windows: bool,
)
    ensures
        search_paths(name, first + then, cwd, windows) == search_paths(name, first, cwd, windows)
            + search_paths(name, then, cwd, windows),
    decreases then.len(),
{
    let all = first + then;
    if then.len() == 0 {
        assert(all =~= first);
        assert(search_paths(name, all, cwd, windows) =~= search_paths(name, first, cwd, windows)
            + search_paths(name, then, cwd, windows));
    } else {
        law_directories_are_searched_in_order(name, first, then.drop_last(), cwd, windows);
        assert(all.drop_last() =~= first + then.drop_last());
        assert(search_paths(name, all, cwd, windows) =~= search_paths(name, first, cwd, windows)
            + search_paths(name, then, cwd, windows));
    }
}

/// A bare name stands for itself first. Off Windows, and with an extension of its
/// own, it stands for nothing else; else also for the names with the extensions
/// of executables, in their order.
pub proof fn law_executable_names(name: Seq<char>, windows: bool)
    ensures
        executable_names(name, windows)[0] == name,
        !windows || name.contains('.') ==> executable_names(name, windows).len() == 1,
        windows && !name.contains('.') ==> executable_names(name, windows) == seq![
            name,
            name + ".exe"@,
            name + ".cmd"@,
            name + ".bat"@,
            name + ".ps1"@,
        ],
{
}

/// Only a `bash.exe` below `System32` counts as the launcher of the Linux
/// subsystem, and only on Windows; the real one elsewhere is usable.
pub proof fn law_only_the_launcher_is_passed_over(
    path: Seq<char>,
    windows: bool,
    system_root: Seq<char>,
)
    ensures
        is_shim(path, windows, system_root) <==> windows && file_name(path, windows) is Some
            && lower_ascii(file_name(path, windows)->0) == "bash.exe"@ && lies_in(
            path,
            joined(system_root, "System32"@, windows),
            windows,
        ),
{
}

/// The launcher is passed over wherever the system lies and in whatever letter case
/// its name is written.
pub proof fn law_launcher_is_passed_over(system_root: Seq<char>, name: Seq<char>)
    requires
        is_rooted_plainly(system_root, true),
        is_single_name(name),
        lower_ascii(name) == "bash.exe"@,
    ensures
        is_shim(joined(joined(system_root, "System32"@, true), name, true), true, system_root),
{
    reveal_strlit("System32");
    let dir = joined(system_root, "System32"@, true);
    assert("System32"@ != seq!['.']) by {
        assert("System32"@.len() == 8);
    }
    assert("System32"@ != seq!['.', '.']);
    law_joined_lies_inside(system_root, "System32"@, true);
    law_joined_lies_inside(dir, name, true);
}

/// A snapshot lists every name that it looks for, once and in order, each with
/// what it resolves to.
pub proof fn law_snapshot_lists_every_name(
    names: Seq<Seq<char>>,
    found: Seq<(Seq<char>, Option<Seq<char>>)>,
    dirs: Seq<Seq<char>>,
    cwd: Seq<char>,
    files: Seq<Seq<char>>,
    windows: bool,
    system_root: Seq<char>,
)
    requires
        lists_names(names, found, dirs, cwd, files, windows, system_root),
    ensures
        found.len() == names.len(),
        forall|i: int|
            0 <= i < names.len() ==> (#[trigger] found[i]).0 == names[i] && found[i].1 == resolved(
                names[i],
                dirs,
                cwd,
                files,
                windows,
                system_root,
            ),
{
}

/// What a command resolves to exists, and a bare name never resolves to the
/// launcher of the Linux subsystem.
pub proof fn law_resolved_exists(
    name: Seq<char>,
    dirs: Seq<Seq<char>>,
    cwd: Seq<char>,
    files: Seq<Seq<char>>,
    windows: bool,
    system_root: Seq<char>,
)
    ensures
        resolved(name, dirs, cwd, files, windows, system_root) matches Some(p) ==> files.contains(p)
            && (name.contains('/') || name.contains('\\') || !is_shim(p, windows, system_root)),
        resolved(name, dirs, cwd, files, windows, system_root) matches Some(p) ==> candidate_paths(
            name,
            dirs,
            cwd,
            windows,
        ).contains(p),
{
    if name.contains('/') || name.contains('\\') {
        assert(candidate_paths(name, dirs, cwd, windows)[0] == joined(cwd, name, windows));
    } else {
        law_first_candidate_wins(name, dirs, cwd, files, windows, system_root);
    }
    lemma_first_usable(search_paths(name, dirs, cwd, windows), files, windows, system_root);
}

/// Off Windows a bare name is looked for in each directory in turn; where they
/// are absolute, the working directory plays no part.
pub proof fn law_search_follows_the_directories(
    name: Seq<char>,
    dirs: Seq<Seq<char>>,
    cwd: Seq<char>,
)
    requires
        forall|i: int| 0 <= i < dirs.len() ==> absolute(#[trigger] dirs[i], false),
    ensures
        search_paths(name, dirs, cwd, false) == dirs.map_values(
            |d: Seq<char>| joined(d, name, false),
        ),
    decreases dirs.len(),
{
    if dirs.len() > 0 {
        law_search_follows_the_directories(name, dirs.drop_last(), cwd);
        assert(absolute(dirs[dirs.len() - 1], false));
    }
    assert(search_paths(name, dirs, cwd, false) =~= dirs.map_values(
        |d: Seq<char>| joined(d, name, false),
    ));
}

/// Whether a path is not relative to the directory of another drive, as `D:x`
/// is.
pub open spec fn not_of_a_drive(p: Seq<char>, windows: bool) -> bool {
    prefix_len(p, windows) == 0 || absolute(p, windows)
}

/// No file name that a bare name may stand for is relative to another drive,
/// where the bare name is not.
proof fn lemma_executable_names(name: Seq<char>, windows: bool)
    requires
        !name.contains('/') && !name.contains('\\'),
        not_of_a_drive(name, windows),
    ensures
        forall|i: int|
            0 <= i < executable_names(name, windows).len() ==> not_of_a_drive(
                #[trigger] executable_names(name, windows)[i],
                windows,
            ),
{
    let all = executable_names(name, windows);
    assert forall|i: int| 0 <= i < all.len() implies not_of_a_drive(#[trigger] all[i], windows) by {
        let n = all[i];
        reveal_strlit(".exe");
        reveal_strlit(".cmd");
        reveal_strlit(".bat");
        reveal_strlit(".ps1");
        lemma_prefix_len(n, windows);
        if windows && i > 0 {
            if name.len() > 0 {
                assert(n[0] == name[0]);
                assert(name.contains(name[0]));
            }
            if name.len() > 1 {
                assert(n[1] == name[1]);
                assert(name.contains(name[1]));
            }
        }
    }
}

proof fn lemma_search_paths(
    name: Seq<char>,
    dirs: Seq<Seq<char>>,
    cwd: Seq<char>,
    windows: bool,
)
    requires
        !name.contains('/') && !name.contains('\\'),
        absolute(cwd, windows),
        not_of_a_drive(name, windows),
        forall|i: int| 0 <= i < dirs.len() ==> not_of_a_drive(#[trigger] dirs[i], windows),
    ensures
        forall|p: Seq<char>| #[trigger]
            search_paths(name, dirs, cwd, windows).contains(p) ==> absolute(p, windows),
    decreases dirs.len(),
{
    if dirs.len() > 0 {
        let names = executable_names(name, windows);
        let before = search_paths(name, dirs.drop_last(), cwd, windows);
        lemma_search_paths(name, dirs.drop_last(), cwd, windows);
        lemma_executable_names(name, windows);
        let all = search_paths(name, dirs, cwd, windows);
        assert forall|p: Seq<char>| #[trigger] all.contains(p) implies absolute(p, windows) by {
            let i = choose|i: int| 0 <= i < all.len() && all[i] == p;
            if i < before.len() {
                assert(before[i] == p);
                assert(before.contains(p));
            } else {
                let n = names[i - before.len()];
                assert(not_of_a_drive(dirs.last(), windows));
                law_joined_is_absolute(cwd, dirs.last(), windows);
                law_joined_is_absolute(joined(cwd, dirs.last(), windows), n, windows);
            }
        }
    }
}

/// What a command resolves to is absolute where the working directory is, unless
/// the name or a directory is relative to a drive.
pub proof fn law_resolved_is_absolute(
    name: Seq<char>,
    dirs: Seq<Seq<char>>,
    cwd: Seq<char>,
    files: Seq<Seq<char>>,
    windows: bool,
    system_root: Seq<char>,
)
    requires
        absolute(cwd, windows),
        not_of_a_drive(name, windows),
        forall|i: int| 0 <= i < dirs.len() ==> not_of_a_drive(#[trigger] dirs[i], windows),
    ensures
        resolved(name, dirs, cwd, files, windows, system_root) matches Some(p) ==> absolute(
            p,
            windows,
        ),
{
    if name.contains('/') || name.contains('\\') {
        law_joined_is_absolute(cwd, name, windows);
    } else {
        lemma_search_paths(name, dirs, cwd, windows);
        lemma_first_usable(search_paths(name, dirs, cwd, windows), files, windows, system_root);
    }
}

} // verus!
