//! Recipes: per-project adaptation as data.
//!
//! A project's recipe lies over the registry recipes that it extends, which
//! lie over the built-in defaults; explicit flags lie over all of them. A
//! cached snapshot of the host is reused only while platform, architecture and
//! every recorded shell are still what they were.

use vstd::prelude::*;

use crate::path::{
    ancestor_paths, ancestors, components, file_name, is_rooted_plainly, is_single_name, join_path,
    joined, law_ancestors_climb, law_joined_lies_inside, lies_in,
};
use crate::probe::{is_listed, Capabilities, ShellInfo};
use crate::text::{chars_of, copy_text, copy_texts, opt_text, same_text, text_of, texts};
use crate::textmap::{deep, Duplicate, TextMap};

verus! {

broadcast use vstd::seq::group_seq_axioms;

// ---------------------------------------------------------------------------
// Data
// ---------------------------------------------------------------------------

/// What a project adapts.
pub struct Recipe {
    pub schema: Option<u32>,
    /// Registry recipes that lie underneath, the lowest first.
    pub extends: Vec<String>,
    pub toolchains: TextMap<Toolchain>,
    pub conventions: Option<Conventions>,
    pub timeouts: Option<Timeouts>,
    pub error_maps: TextMap<ErrorMapEntry>,
}

/// How scripts of one language are run.
pub struct Toolchain {
    pub runner: Option<String>,
    /// Runners to try where the first is missing.
    pub fallbacks: Vec<String>,
    pub args: Vec<String>,
}

/// Output conventions.
pub struct Conventions {
    pub line_ending: Option<String>,
    pub encoding: Option<String>,
    pub max_output_bytes: Option<u64>,
}

/// Deadlines.
#[derive(Debug, Clone, Copy, PartialEq, Eq, Structural)]
pub struct Timeouts {
    pub default_ms: Option<u64>,
    pub build_ms: Option<u64>,
}

/// What a matching error pattern says about a run.
#[derive(Debug)]
pub struct ErrorMapEntry {
    pub class: String,
    pub hint: Option<String>,
}

/// The view of a toolchain.
#[verifier::ext_equal]
pub struct ToolchainView {
    pub runner: Option<Seq<char>>,
    pub fallbacks: Seq<Seq<char>>,
    pub args: Seq<Seq<char>>,
}

/// The view of output conventions.
#[verifier::ext_equal]
pub struct ConventionsView {
    pub line_ending: Option<Seq<char>>,
    pub encoding: Option<Seq<char>>,
    pub max_output_bytes: Option<u64>,
}

/// The view of an error pattern's entry.
#[verifier::ext_equal]
pub struct EntryView {
    pub class: Seq<char>,
    pub hint: Option<Seq<char>>,
}

/// The view of a recipe.
#[verifier::ext_equal]
pub struct RecipeView {
    pub schema: Option<u32>,
    pub extends: Seq<Seq<char>>,
    pub toolchains: Map<Seq<char>, ToolchainView>,
    pub conventions: Option<ConventionsView>,
    pub timeouts: Option<Timeouts>,
    pub error_maps: Map<Seq<char>, EntryView>,
}

impl View for Toolchain {
    type V = ToolchainView;

    open spec fn view(&self) -> ToolchainView {
        ToolchainView {
            runner: opt_text(self.runner),
            fallbacks: texts(self.fallbacks@),
            args: texts(self.args@),
        }
    }
}

impl View for Conventions {
    type V = ConventionsView;

    open spec fn view(&self) -> ConventionsView {
        ConventionsView {
            line_ending: opt_text(self.line_ending),
            encoding: opt_text(self.encoding),
            max_output_bytes: self.max_output_bytes,
        }
    }
}

impl View for ErrorMapEntry {
    type V = EntryView;

    open spec fn view(&self) -> EntryView {
        EntryView { class: self.class@, hint: opt_text(self.hint) }
    }
}

/// The view of optional conventions.
pub open spec fn conventions_view(c: Option<Conventions>) -> Option<ConventionsView> {
    match c {
        Some(c) => Some(c@),
        None => None,
    }
}

impl View for Recipe {
    type V = RecipeView;

    open spec fn view(&self) -> RecipeView {
        RecipeView {
            schema: self.schema,
            extends: texts(self.extends@),
            toolchains: deep(self.toolchains@),
            conventions: conventions_view(self.conventions),
            timeouts: self.timeouts,
            error_maps: deep(self.error_maps@),
        }
    }
}

impl Duplicate for Toolchain {
    fn duplicate(&self) -> (r: Self) {
        Toolchain {
            runner: copy_text(&self.runner),
            fallbacks: copy_texts(&self.fallbacks),
            args: copy_texts(&self.args),
        }
    }
}

impl Duplicate for Conventions {
    fn duplicate(&self) -> (r: Self) {
        Conventions {
            line_ending: copy_text(&self.line_ending),
            encoding: copy_text(&self.encoding),
            max_output_bytes: self.max_output_bytes,
        }
    }
}

impl Duplicate for ErrorMapEntry {
    fn duplicate(&self) -> (r: Self) {
        ErrorMapEntry { class: self.class.clone(), hint: copy_text(&self.hint) }
    }
}

/// The recipe that says nothing.
pub open spec fn empty_recipe() -> RecipeView {
    RecipeView {
        schema: None,
        extends: seq![],
        toolchains: Map::empty(),
        conventions: None,
        timeouts: None,
        error_maps: Map::empty(),
    }
}

impl Default for Recipe {
    fn default() -> (r: Self)
        ensures
            r@ == empty_recipe(),
    {
        let toolchains: TextMap<Toolchain> = TextMap::new();
        let error_maps: TextMap<ErrorMapEntry> = TextMap::new();
        let r = Recipe {
            schema: None,
            extends: Vec::new(),
            toolchains,
            conventions: None,
            timeouts: None,
            error_maps,
        };
        proof {
            assert(deep(r.toolchains@) =~= Map::<Seq<char>, ToolchainView>::empty());
            assert(deep(r.error_maps@) =~= Map::<Seq<char>, EntryView>::empty());
            assert(texts(r.extends@) =~= Seq::<Seq<char>>::empty());
        }
        r
    }
}

// ---------------------------------------------------------------------------
// Reading a recipe
// ---------------------------------------------------------------------------

/// The runners of a toolchain in the order in which they are tried.
pub open spec fn runners(t: ToolchainView) -> Seq<Seq<char>> {
    match t.runner {
        Some(r) => seq![r] + t.fallbacks,
        None => t.fallbacks,
    }
}

/// The first text of a list that is among others.
pub open spec fn first_among(list: Seq<Seq<char>>, among: Seq<Seq<char>>) -> Option<Seq<char>>
    decreases list.len(),
{
    if list.len() == 0 {
        None
    } else if among.contains(list[0]) {
        Some(list[0])
    } else {
        first_among(list.drop_first(), among)
    }
}

/// Runner and arguments of a toolchain, where `available` are the commands
/// that resolve on the host.
pub open spec fn toolchain_of(
    r: RecipeView,
    name: Seq<char>,
    available: Seq<Seq<char>>,
) -> Option<(Seq<char>, Seq<Seq<char>>)> {
    if r.toolchains.contains_key(name) {
        match first_among(runners(r.toolchains[name]), available) {
            Some(runner) => Some((runner, r.toolchains[name].args)),
            None => None,
        }
    } else {
        None
    }
}

/// The runner of a toolchain is the first, in the order in which they are tried,
/// that the host has: its own runner where that resolves, else the first of its
/// fallbacks that does; where none does, there is none.
pub proof fn law_first_runner_wins(r: RecipeView, name: Seq<char>, available: Seq<Seq<char>>)
    requires
        r.toolchains.contains_key(name),
    ensures
        ({
            let t = r.toolchains[name];
            match toolchain_of(r, name, available) {
                Some(found) => {
                    &&& available.contains(found.0)
                    &&& found.1 == t.args
                    &&& t.runner matches Some(own) ==> (available.contains(own) ==> found.0 == own)
                    &&& exists|i: int|
                        0 <= i < runners(t).len() && #[trigger] runners(t)[i] == found.0 && forall|
                            j: int,
                        |
                            0 <= j < i ==> !available.contains(#[trigger] runners(t)[j])
                },
                None => forall|i: int|
                    0 <= i < runners(t).len() ==> !available.contains(#[trigger] runners(t)[i]),
            }
        }),
        ({
            let t = r.toolchains[name];
            &&& t.runner matches Some(own) ==> runners(t) == seq![own] + t.fallbacks
            &&& t.runner is None ==> runners(t) == t.fallbacks
        }),
{
    let t = r.toolchains[name];
    lemma_first_among(runners(t), available);
    if let Some(own) = t.runner {
        assert(runners(t)[0] == own);
    }
}

/// Only what a recipe names is a toolchain.
pub proof fn law_unknown_toolchain_has_no_runner(
    r: RecipeView,
    name: Seq<char>,
    available: Seq<Seq<char>>,
)
    requires
        !r.toolchains.contains_key(name),
    ensures
        toolchain_of(r, name, available) is None,
{
}

proof fn lemma_first_among(list: Seq<Seq<char>>, among: Seq<Seq<char>>)
    ensures
        match first_among(list, among) {
            Some(x) => among.contains(x) && exists|i: int|
                0 <= i < list.len() && #[trigger] list[i] == x && forall|j: int|
                    0 <= j < i ==> !among.contains(#[trigger] list[j]),
            None => forall|i: int| 0 <= i < list.len() ==> !among.contains(#[trigger] list[i]),
        },
    decreases list.len(),
{
    if list.len() > 0 {
        let rest = list.drop_first();
        lemma_first_among(rest, among);
        if among.contains(list[0]) {
            assert(list[0] == first_among(list, among)->0);
        } else {
            match first_among(rest, among) {
                Some(x) => {
                    let i = choose|i: int|
                        0 <= i < rest.len() && #[trigger] rest[i] == x && forall|j: int|
                            0 <= j < i ==> !among.contains(#[trigger] rest[j]);
                    assert(list[i + 1] == x);
                    assert forall|j: int| 0 <= j < i + 1 implies !among.contains(
                        #[trigger] list[j],
                    ) by {
                        if j > 0 {
                            assert(rest[j - 1] == list[j]);
                        }
                    }
                },
                None => {
                    assert forall|i: int| 0 <= i < list.len() implies !among.contains(
                        #[trigger] list[i],
                    ) by {
                        if i > 0 {
                            assert(rest[i - 1] == list[i]);
                        }
                    }
                },
            }
        }
    }
}

/// The view of a runner with its arguments.
pub open spec fn runner_texts(m: Option<(String, Vec<String>)>) -> Option<
    (Seq<char>, Seq<Seq<char>>),
> {
    match m {
        Some(p) => Some((p.0@, texts(p.1@))),
        None => None,
    }
}

impl Recipe {
    /// The runners that a toolchain names, in the order in which they are
    /// tried; none for a toolchain that the recipe does not know.
    pub fn toolchain_candidates(&self, name: &str) -> (r: Vec<String>)
        ensures
            texts(r@) == if self@.toolchains.contains_key(name@) {
                runners(self@.toolchains[name@])
            } else {
                seq![]
            },
    {
        let mut out: Vec<String> = Vec::new();
        match self.toolchains.get(name) {
            None => {
                proof {
                    assert(texts(out@) =~= Seq::<Seq<char>>::empty());
                }
                out
            },
            Some(tc) => {
                if let Some(r) = &tc.runner {
                    out.push(r.clone());
                }
                let ghost head = texts(out@);
                proof {
                    assert(tc.runner is Some ==> head =~= seq![tc.runner->0@]);
                    assert(tc.runner is None ==> head =~= Seq::<Seq<char>>::empty());
                }
                let mut i: usize = 0;
                while i < tc.fallbacks.len()
                    invariant
                        i <= tc.fallbacks.len(),
                        texts(out@) == head + texts(tc.fallbacks@).take(i as int),
                    decreases tc.fallbacks.len() - i,
                {
                    let f = tc.fallbacks[i].clone();
                    proof {
                        let all = texts(tc.fallbacks@);
                        assert(all[i as int] == f@);
                        assert(texts(out@.push(f)) =~= texts(out@).push(f@));
                        assert(head + all.take(i + 1) =~= (head + all.take(i as int)).push(f@));
                    }
                    out.push(f);
                    i += 1;
                }
                proof {
                    let all = texts(tc.fallbacks@);
                    assert(all.take(all.len() as int) =~= all);
                    assert(texts(out@) =~= runners(tc@));
                }
                out
            },
        }
    }

    /// Resolve a toolchain to the first runner that the host has, with its
    /// arguments.
    pub fn resolve_toolchain(&self, name: &str, available: &Vec<String>) -> (r: Option<
        (String, Vec<String>),
    >)
        ensures
            runner_texts(r) == toolchain_of(self@, name@, texts(available@)),
    {
        match self.toolchains.get(name) {
            None => None,
            Some(tc) => {
                let list = self.toolchain_candidates(name);
                let ghost all = texts(list@);
                let ghost among = texts(available@);
                let ghost found = first_among(all, among);
                let mut i: usize = 0;
                proof {
                    assert(all.skip(0) =~= all);
                }
                while i < list.len()
                    invariant
                        i <= list.len(),
                        all == texts(list@),
                        among == texts(available@),
                        found == first_among(all.skip(i as int), among),
                        self@.toolchains.contains_key(name@),
                        self@.toolchains[name@] == tc@,
                        found == first_among(runners(tc@), among),
                    decreases list.len() - i,
                {
                    proof {
                        assert(all[i as int] == list@[i as int]@);
                        assert(all.skip(i as int)[0] == all[i as int]);
                        assert(all.skip(i as int).drop_first() =~= all.skip(i + 1));
                    }
                    if is_listed(available, list[i].as_str()) {
                        return Some((list[i].clone(), copy_texts(&tc.args)));
                    }
                    i += 1;
                }
                None
            },
        }
    }

    /// The output cap that the recipe sets.
    pub fn max_output_bytes(&self) -> (r: Option<u64>)
        ensures
            r == match self@.conventions {
                Some(c) => c.max_output_bytes,
                None => None,
            },
    {
        match &self.conventions {
            Some(c) => c.max_output_bytes,
            None => None,
        }
    }

    /// The deadline that the recipe sets.
    pub fn default_timeout_ms(&self) -> (r: Option<u64>)
        ensures
            r == match self@.timeouts {
                Some(t) => t.default_ms,
                None => None,
            },
    {
        match &self.timeouts {
            Some(t) => t.default_ms,
            None => None,
        }
    }
}

// ---------------------------------------------------------------------------
// Finding a recipe
// ---------------------------------------------------------------------------

/// Where the recipe of a directory lies.
pub open spec fn recipe_file(dir: Seq<char>, windows: bool) -> Seq<char> {
    joined(joined(dir, ".unirun"@, windows), "recipe.toml"@, windows)
}

/// The recipe files that may apply to a directory, the nearest first.
pub open spec fn recipe_files(dir: Seq<char>, windows: bool) -> Seq<Seq<char>> {
    ancestors(dir, windows).map_values(|d: Seq<char>| recipe_file(d, windows))
}

/// A recipe is looked for in the directory itself first, and then in one directory
/// above after the other, always under the same name.
pub proof fn law_recipe_is_looked_for_upwards(dir: Seq<char>, windows: bool, i: int)
    requires
        0 <= i < ancestors(dir, windows).len(),
    ensures
        recipe_files(dir, windows).len() == ancestors(dir, windows).len(),
        recipe_files(dir, windows)[0] == recipe_file(dir, windows),
        recipe_files(dir, windows)[i] == recipe_file(ancestors(dir, windows)[i], windows),
        is_rooted_plainly(dir, windows) ==> {
            let file = recipe_file(dir, windows);
            &&& components(file, windows) == components(dir, windows).push(".unirun"@).push(
                "recipe.toml"@,
            )
            &&& file_name(file, windows) == Some("recipe.toml"@)
        },
{
    law_ancestors_climb(dir, windows, 0);
    if is_rooted_plainly(dir, windows) {
        reveal_strlit(".unirun");
        reveal_strlit("recipe.toml");
        assert(".unirun"@.len() == 7 && "recipe.toml"@.len() == 11);
        law_joined_lies_inside(dir, ".unirun"@, windows);
        law_joined_lies_inside(joined(dir, ".unirun"@, windows), "recipe.toml"@, windows);
    }
}

/// The recipe files that may apply to a directory, the nearest first: its own
/// and those of its ancestors.
pub fn recipe_candidates(dir: &str, windows: bool) -> (r: Vec<String>)
    ensures
        texts(r@) == recipe_files(dir@, windows),
        texts(r@) == ancestors(dir@, windows).map_values(
            |d: Seq<char>| recipe_file(d, windows),
        ),
{
    let dirs = ancestor_paths(dir, windows);
    let ghost all = texts(dirs@);
    let ghost f = |d: Seq<char>| recipe_file(d, windows);
    let mut out: Vec<String> = Vec::new();
    let mut i: usize = 0;
    while i < dirs.len()
        invariant
            i <= dirs.len(),
            all == texts(dirs@),
            f == (|d: Seq<char>| recipe_file(d, windows)),
            texts(out@) == all.take(i as int).map_values(f),
        decreases dirs.len() - i,
    {
        let base = join_path(dirs[i].as_str(), ".unirun", windows);
        let file = join_path(base.as_str(), "recipe.toml", windows);
        proof {
            assert(all[i as int] == dirs@[i as int]@);
            assert(texts(out@.push(file)) =~= texts(out@).push(file@));
            assert(all.take(i + 1).map_values(f) =~= all.take(i as int).map_values(f).push(file@));
        }
        out.push(file);
        i += 1;
    }
    proof {
        assert(all.take(all.len() as int) =~= all);
    }
    out
}

/// The place of the first candidate that is among the files.
pub open spec fn first_listed(candidates: Seq<Seq<char>>, files: Seq<Seq<char>>) -> Option<int>
    decreases candidates.len(),
{
    if candidates.len() == 0 {
        None
    } else if files.contains(candidates[0]) {
        Some(0)
    } else {
        match first_listed(candidates.drop_first(), files) {
            Some(i) => Some(i + 1),
            None => None,
        }
    }
}

/// The nearest recipe is there, and no nearer one is; where there is none, no
/// candidate is there.
pub proof fn law_nearest_recipe_counts(candidates: Seq<Seq<char>>, files: Seq<Seq<char>>)
    ensures
        match first_listed(candidates, files) {
            Some(i) => 0 <= i < candidates.len() && files.contains(candidates[i]) && forall|j: int|
                0 <= j < i ==> !files.contains(#[trigger] candidates[j]),
            None => forall|j: int|
                0 <= j < candidates.len() ==> !files.contains(#[trigger] candidates[j]),
        },
    decreases candidates.len(),
{
    if candidates.len() > 0 && !files.contains(candidates[0]) {
        let rest = candidates.drop_first();
        law_nearest_recipe_counts(rest, files);
        assert(forall|j: int| 0 < j < candidates.len() ==> #[trigger] candidates[j] == rest[j - 1]);
    }
}

/// The nearest recipe file: the first candidate that is among the files that
/// exist.
pub fn nearest_recipe(candidates: &Vec<String>, files: &Vec<String>) -> (r: Option<usize>)
    ensures
        match r {
            Some(i) => first_listed(texts(candidates@), texts(files@)) == Some(i as int),
            None => first_listed(texts(candidates@), texts(files@)) is None,
        },
        match r {
            Some(i) => {
                &&& i < candidates.len()
                &&& texts(files@).contains(texts(candidates@)[i as int])
                &&& forall|j: int|
                    0 <= j < i ==> !texts(files@).contains(#[trigger] texts(candidates@)[j])
            },
            None => forall|j: int|
                0 <= j < candidates.len() ==> !texts(files@).contains(
                    #[trigger] texts(candidates@)[j],
                ),
        },
{
    proof {
        law_nearest_recipe_counts(texts(candidates@), texts(files@));
    }
    let mut i: usize = 0;
    while i < candidates.len()
        invariant
            i <= candidates.len(),
            forall|j: int|
                0 <= j < i ==> !texts(files@).contains(#[trigger] texts(candidates@)[j]),
        decreases candidates.len() - i,
    {
        if is_listed(files, candidates[i].as_str()) {
            proof {
                law_nearest_recipe_counts(texts(candidates@), texts(files@));
                assert(texts(files@).contains(texts(candidates@)[i as int]));
            }
            return Some(i);
        }
        i += 1;
    }
    None
}

// ---------------------------------------------------------------------------
// Layering
// ---------------------------------------------------------------------------

/// The field of the upper layer where it has one, else that of the lower.
pub open spec fn over<T>(base: Option<T>, top: Option<T>) -> Option<T> {
    match top {
        Some(t) => Some(t),
        None => base,
    }
}

/// Conventions over conventions, field by field.
pub open spec fn over_conventions(
    base: Option<ConventionsView>,
    top: Option<ConventionsView>,
) -> Option<ConventionsView> {
    match (base, top) {
        (Some(b), Some(t)) => Some(
            ConventionsView {
                line_ending: over(b.line_ending, t.line_ending),
                encoding: over(b.encoding, t.encoding),
                max_output_bytes: over(b.max_output_bytes, t.max_output_bytes),
            },
        ),
        (b, None) => b,
        (None, t) => t,
    }
}

/// Deadlines over deadlines, field by field.
pub open spec fn over_timeouts(base: Option<Timeouts>, top: Option<Timeouts>) -> Option<Timeouts> {
    match (base, top) {
        (Some(b), Some(t)) => Some(
            Timeouts {
                default_ms: over(b.default_ms, t.default_ms),
                build_ms: over(b.build_ms, t.build_ms),
            },
        ),
        (b, None) => b,
        (None, t) => t,
    }
}

/// A recipe over a recipe: toolchains and error patterns key by key,
/// conventions and deadlines field by field. The result extends nothing.
pub open spec fn overlaid(base: RecipeView, top: RecipeView) -> RecipeView {
    RecipeView {
        schema: over(base.schema, top.schema),
        extends: seq![],
        toolchains: base.toolchains.union_prefer_right(top.toolchains),
        conventions: over_conventions(base.conventions, top.conventions),
        timeouts: over_timeouts(base.timeouts, top.timeouts),
        error_maps: base.error_maps.union_prefer_right(top.error_maps),
    }
}

fn over_text(base: &Option<String>, top: &Option<String>) -> (r: Option<String>)
    ensures
        opt_text(r) == over(opt_text(*base), opt_text(*top)),
{
    match top {
        Some(t) => Some(t.clone()),
        None => copy_text(base),
    }
}

fn over_number(base: Option<u64>, top: Option<u64>) -> (r: Option<u64>)
    ensures
        r == over(base, top),
{
    match top {
        Some(t) => Some(t),
        None => base,
    }
}

/// A recipe over a recipe.
pub fn overlay(base: &Recipe, top: &Recipe) -> (r: Recipe)
    ensures
        r@ == overlaid(base@, top@),
{
    let conventions = match (&base.conventions, &top.conventions) {
        (Some(b), Some(t)) => Some(
            Conventions {
                line_ending: over_text(&b.line_ending, &t.line_ending),
                encoding: over_text(&b.encoding, &t.encoding),
                max_output_bytes: over_number(b.max_output_bytes, t.max_output_bytes),
            },
        ),
        (Some(b), None) => Some(b.duplicate()),
        (None, Some(t)) => Some(t.duplicate()),
        (None, None) => None,
    };
    let timeouts = match (base.timeouts, top.timeouts) {
        (Some(b), Some(t)) => Some(
            Timeouts {
                default_ms: over_number(b.default_ms, t.default_ms),
                build_ms: over_number(b.build_ms, t.build_ms),
            },
        ),
        (Some(b), None) => Some(b),
        (None, t) => t,
    };
    let r = Recipe {
        schema: match top.schema {
            Some(s) => Some(s),
            None => base.schema,
        },
        extends: Vec::new(),
        toolchains: TextMap::merged(&base.toolchains, &top.toolchains),
        conventions,
        timeouts,
        error_maps: TextMap::merged(&base.error_maps, &top.error_maps),
    };
    proof {
        assert(r@.conventions == over_conventions(base@.conventions, top@.conventions));
        assert(r@ =~= overlaid(base@, top@));
    }
    r
}

/// Whatever `r` sets, `kept` has it too: each toolchain and error pattern, each
/// convention and deadline, the schema.
pub open spec fn keeps(kept: RecipeView, r: RecipeView) -> bool {
    &&& r.schema is Some ==> kept.schema == r.schema
    &&& forall|key: Seq<char>| #[trigger]
        r.toolchains.contains_key(key) ==> kept.toolchains.contains_key(key)
            && kept.toolchains[key] == r.toolchains[key]
    &&& forall|key: Seq<char>| #[trigger]
        r.error_maps.contains_key(key) ==> kept.error_maps.contains_key(key)
            && kept.error_maps[key] == r.error_maps[key]
    &&& r.conventions matches Some(c) ==> (kept.conventions matches Some(k) && {
        &&& c.line_ending is Some ==> k.line_ending == c.line_ending
        &&& c.encoding is Some ==> k.encoding == c.encoding
        &&& c.max_output_bytes is Some ==> k.max_output_bytes == c.max_output_bytes
    })
    &&& r.timeouts matches Some(t) ==> (kept.timeouts matches Some(k) && {
        &&& t.default_ms is Some ==> k.default_ms == t.default_ms
        &&& t.build_ms is Some ==> k.build_ms == t.build_ms
    })
}

/// What is left of `base` without everything that `top` says something about.
pub open spec fn unsaid(base: RecipeView, top: RecipeView) -> RecipeView {
    RecipeView {
        schema: if top.schema is Some {
            None
        } else {
            base.schema
        },
        extends: seq![],
        toolchains: base.toolchains.remove_keys(top.toolchains.dom()),
        conventions: match (base.conventions, top.conventions) {
            (Some(b), Some(t)) => Some(
                ConventionsView {
                    line_ending: if t.line_ending is Some {
                        None
                    } else {
                        b.line_ending
                    },
                    encoding: if t.encoding is Some {
                        None
                    } else {
                        b.encoding
                    },
                    max_output_bytes: if t.max_output_bytes is Some {
                        None
                    } else {
                        b.max_output_bytes
                    },
                },
            ),
            (b, _) => b,
        },
        timeouts: match (base.timeouts, top.timeouts) {
            (Some(b), Some(t)) => Some(
                Timeouts {
                    default_ms: if t.default_ms is Some {
                        None
                    } else {
                        b.default_ms
                    },
                    build_ms: if t.build_ms is Some {
                        None
                    } else {
                        b.build_ms
                    },
                },
            ),
            (b, _) => b,
        },
        error_maps: base.error_maps.remove_keys(top.error_maps.dom()),
    }
}

/// The upper layer wins wherever it says something, and where it says nothing
/// the lower one stands.
pub proof fn law_upper_layer_wins(base: RecipeView, top: RecipeView)
    ensures
        keeps(overlaid(base, top), top),
        keeps(overlaid(base, top), unsaid(base, top)),
{
}

/// Layers add nothing of their own: whatever two layers say together, one of them
/// says.
pub proof fn law_layers_add_nothing(base: RecipeView, top: RecipeView, key: Seq<char>)
    ensures
        ({
            let both = overlaid(base, top);
            &&& both.toolchains.contains_key(key) ==> {
                ||| top.toolchains.contains_key(key) && both.toolchains[key] == top.toolchains[key]
                ||| base.toolchains.contains_key(key) && both.toolchains[key]
                    == base.toolchains[key]
            }
            &&& both.error_maps.contains_key(key) ==> {
                ||| top.error_maps.contains_key(key) && both.error_maps[key] == top.error_maps[key]
                ||| base.error_maps.contains_key(key) && both.error_maps[key]
                    == base.error_maps[key]
            }
            &&& both.schema is Some ==> both.schema == top.schema || both.schema == base.schema
            &&& both.conventions is Some <==> base.conventions is Some || top.conventions is Some
            &&& both.timeouts is Some <==> base.timeouts is Some || top.timeouts is Some
            &&& both.extends.len() == 0
        }),
{
}

/// Layering is associative: it does not matter in which order layers are put
/// together, as long as they stay in place.
pub proof fn law_layering_is_associative(a: RecipeView, b: RecipeView, c: RecipeView)
    ensures
        overlaid(overlaid(a, b), c) == overlaid(a, overlaid(b, c)),
{
    assert(overlaid(overlaid(a, b), c).toolchains =~= overlaid(a, overlaid(b, c)).toolchains);
    assert(overlaid(overlaid(a, b), c).error_maps =~= overlaid(a, overlaid(b, c)).error_maps);
    assert(overlaid(overlaid(a, b), c) =~= overlaid(a, overlaid(b, c)));
}

// ---------------------------------------------------------------------------
// The registry
// ---------------------------------------------------------------------------

/// The stack of layers that are being put together holds registry names, each
/// once.
pub open spec fn stack_ok(registry: Map<Seq<char>, RecipeView>, stack: Seq<Seq<char>>) -> bool {
    &&& registry.dom().finite()
    &&& stack.no_duplicates()
    &&& forall|i: int| 0 <= i < stack.len() ==> registry.contains_key(#[trigger] stack[i])
}

/// A stack is no longer than the registry.
pub proof fn lemma_stack_len(registry: Map<Seq<char>, RecipeView>, stack: Seq<Seq<char>>)
    requires
        stack_ok(registry, stack),
    ensures
        stack.len() <= registry.dom().len(),
{
    stack.unique_seq_to_set();
    assert(stack.to_set().subset_of(registry.dom()));
    vstd::set_lib::lemma_len_subset(stack.to_set(), registry.dom());
}

/// A stack may take a registry name that it does not hold.
pub proof fn lemma_stack_push(
    registry: Map<Seq<char>, RecipeView>,
    stack: Seq<Seq<char>>,
    name: Seq<char>,
)
    requires
        stack_ok(registry, stack),
        registry.contains_key(name),
        !stack.contains(name),
    ensures
        stack_ok(registry, stack.push(name)),
        stack.len() < registry.dom().len(),
{
    let longer = stack.push(name);
    assert forall|i: int, j: int|
        0 <= i < longer.len() && 0 <= j < longer.len() && i != j implies longer[i]
        != longer[j] by {
        if i < stack.len() && j < stack.len() {
            assert(stack[i] != stack[j]);
        } else if i < stack.len() {
            assert(stack.contains(stack[i]));
        } else {
            assert(stack.contains(stack[j]));
        }
    }
    assert forall|i: int| 0 <= i < longer.len() implies registry.contains_key(
        #[trigger] longer[i],
    ) by {
        if i < stack.len() {
            assert(longer[i] == stack[i]);
        }
    }
    lemma_stack_len(registry, longer);
}

/// What is said of a layer that the registry does not have.
pub open spec fn missing_layer(name: Seq<char>) -> Seq<char> {
    "extends: no registry recipe `"@ + name + "`"@
}

/// What is said of a layer that lies, in the end, on itself.
pub open spec fn circular_layer(name: Seq<char>) -> Seq<char> {
    "extends: cycle through registry recipe `"@ + name + "`"@
}

/// The layers `names` put together, the first the lowest, and what is to be
/// said of those that were left out.
pub open spec fn layered(
    registry: Map<Seq<char>, RecipeView>,
    stack: Seq<Seq<char>>,
    names: Seq<Seq<char>>,
) -> (RecipeView, Seq<Seq<char>>)
    decreases registry.dom().len() - stack.len(), 0int, names.len(),
    when stack_ok(registry, stack)
{
    if names.len() == 0 {
        (empty_recipe(), seq![])
    } else {
        let below = layered(registry, stack, names.drop_last());
        let name = names.last();
        if !registry.contains_key(name) {
            (below.0, below.1.push(missing_layer(name)))
        } else if stack.contains(name) {
            (below.0, below.1.push(circular_layer(name)))
        } else {
            proof {
                lemma_stack_push(registry, stack, name);
            }
            let layer = effective(registry, stack.push(name), registry[name]);
            (overlaid(below.0, layer.0), below.1 + layer.1)
        }
    }
}

/// A recipe over everything that it extends. `stack` holds the registry
/// recipes that it is itself a layer of.
pub open spec fn effective(
    registry: Map<Seq<char>, RecipeView>,
    stack: Seq<Seq<char>>,
    recipe: RecipeView,
) -> (RecipeView, Seq<Seq<char>>)
    decreases registry.dom().len() - stack.len(), 1int, 0nat,
    when stack_ok(registry, stack)
{
    let below = layered(registry, stack, recipe.extends);
    (overlaid(below.0, recipe), below.1)
}

/// The registry as views.
pub open spec fn registry_view(registry: TextMap<Recipe>) -> Map<Seq<char>, RecipeView> {
    deep(registry@)
}

fn quoted(before: &str, name: &str) -> (r: String)
    ensures
        r@ == before@ + name@ + "`"@,
{
    let mut s = before.to_string();
    s.append(name);
    s.append("`");
    s
}

fn layers(registry: &TextMap<Recipe>, stack: &mut Vec<String>, names: &Vec<String>, n: usize) -> (r:
    (Recipe, Vec<String>))
    requires
        n <= names.len(),
        stack_ok(registry_view(*registry), texts(old(stack)@)),
    ensures
        texts(final(stack)@) == texts(old(stack)@),
        (r.0@, texts(r.1@)) == layered(
            registry_view(*registry),
            texts(old(stack)@),
            texts(names@).take(n as int),
        ),
    decreases registry_view(*registry).dom().len() - old(stack)@.len(), 0int, n,
{
    let ghost reg = registry_view(*registry);
    let ghost st = texts(stack@);
    let ghost wanted = texts(names@).take(n as int);
    if n == 0 {
        let warnings: Vec<String> = Vec::new();
        proof {
            assert(texts(warnings@) =~= Seq::<Seq<char>>::empty());
        }
        return (Recipe::default(), warnings);
    }
    let below = layers(registry, stack, names, n - 1);
    let recipe = below.0;
    let mut warnings = below.1;
    let name = &names[n - 1];
    let ghost said = texts(warnings@);
    proof {
        assert(wanted.drop_last() =~= texts(names@).take(n - 1));
        assert(wanted.last() == name@);
    }
    match registry.get(name.as_str()) {
        None => {
            let w = quoted("extends: no registry recipe `", name.as_str());
            proof {
                assert(texts(warnings@.push(w)) =~= said.push(w@));
            }
            warnings.push(w);
            (recipe, warnings)
        },
        Some(found) => {
            if is_listed(stack, name.as_str()) {
                let w = quoted("extends: cycle through registry recipe `", name.as_str());
                proof {
                    assert(texts(warnings@.push(w)) =~= said.push(w@));
                }
                warnings.push(w);
                (recipe, warnings)
            } else {
                proof {
                    lemma_stack_push(reg, st, name@);
                }
                let ghost before = stack@;
                stack.push(name.clone());
                proof {
                    assert(texts(stack@) =~= st.push(name@));
                }
                let layer = effective_on(registry, stack, found);
                let top = layer.0;
                let mut more = layer.1;
                let ghost extra = texts(more@);
                let _ = stack.pop();
                proof {
                    assert(texts(stack@) =~= st.push(name@).drop_last());
                    assert(st.push(name@).drop_last() =~= st);
                }
                warnings.append(&mut more);
                proof {
                    assert(texts(warnings@) =~= said + extra);
                }
                (overlay(&recipe, &top), warnings)
            }
        },
    }
}

fn effective_on(registry: &TextMap<Recipe>, stack: &mut Vec<String>, recipe: &Recipe) -> (r: (
    Recipe,
    Vec<String>,
))
    requires
        stack_ok(registry_view(*registry), texts(old(stack)@)),
    ensures
        texts(final(stack)@) == texts(old(stack)@),
        (r.0@, texts(r.1@)) == effective(
            registry_view(*registry),
            texts(old(stack)@),
            recipe@,
        ),
    decreases registry_view(*registry).dom().len() - old(stack)@.len(), 1int, 0nat,
{
    let n: usize = recipe.extends.len();
    proof {
        assert(texts(recipe.extends@).take(n as int) =~= recipe@.extends);
    }
    let below = layers(registry, stack, &recipe.extends, n);
    (overlay(&below.0, recipe), below.1)
}

/// Resolve what a recipe extends, against a registry. The warnings name the
/// layers that were left out: those that the registry does not have, and those
/// that lie on themselves.
pub fn effective_recipe(recipe: &Recipe, registry: &TextMap<Recipe>) -> (r: (Recipe, Vec<String>))
    ensures
        (r.0@, texts(r.1@)) == effective(registry_view(*registry), seq![], recipe@),
{
    let mut stack: Vec<String> = Vec::new();
    proof {
        registry.lemma_finite();
        assert(registry_view(*registry).dom() =~= registry@.dom());
        assert(texts(stack@) =~= Seq::<Seq<char>>::empty());
    }
    effective_on(registry, &mut stack, recipe)
}

/// The complaints about one registry recipe, each with its name in front.
pub open spec fn complaints(name: Seq<char>, warnings: Seq<Seq<char>>) -> Seq<Seq<char>> {
    warnings.map_values(|w: Seq<char>| "`"@ + name + "`: "@ + w)
}

/// Everything that is wrong with the recipes `names` of a registry.
pub open spec fn registry_complaints(
    registry: Map<Seq<char>, RecipeView>,
    names: Seq<Seq<char>>,
) -> Seq<Seq<char>>
    decreases names.len(),
{
    if names.len() == 0 {
        seq![]
    } else {
        let name = names.last();
        registry_complaints(registry, names.drop_last()) + complaints(
            name,
            effective(registry, seq![name], registry[name]).1,
        )
    }
}

/// The names of a registry, in order.
pub open spec fn registry_names(registry: TextMap<Recipe>) -> Seq<Seq<char>> {
    registry.entries().map_values(|e: (Seq<char>, Recipe)| e.0)
}

/// Validate a registry: `broken` says of each file that could not be read or
/// parsed why. The names of the recipes come back where nothing is wrong, else
/// what is.
pub fn check_registry(registry: &TextMap<Recipe>, broken: &Vec<String>) -> (r: Result<
    Vec<String>,
    Vec<String>,
>)
    ensures
        ({
            let all = texts(broken@) + registry_complaints(
                registry_view(*registry),
                registry_names(*registry),
            );
            match r {
                Ok(names) => all.len() == 0 && texts(names@) == registry_names(*registry),
                Err(errors) => all.len() > 0 && texts(errors@) == all,
            }
        }),
{
    let mut errors = copy_texts(broken);
    let mut names: Vec<String> = Vec::new();
    let ghost reg = registry_view(*registry);
    let ghost all = registry_names(*registry);
    let n: usize = registry.len();
    let mut i: usize = 0;
    proof {
        registry.lemma_finite();
        assert(reg.dom() =~= registry@.dom());
        assert(texts(errors@) =~= texts(broken@) + registry_complaints(reg, all.take(0)));
        assert(texts(names@) =~= all.take(0));
    }
    while i < n
        invariant
            n == registry.entries().len(),
            i <= n,
            reg == registry_view(*registry),
            reg.dom().finite(),
            all == registry_names(*registry),
            texts(names@) == all.take(i as int),
            texts(errors@) == texts(broken@) + registry_complaints(reg, all.take(i as int)),
        decreases n - i,
    {
        let name = registry.key_at(i).to_string();
        let recipe = registry.value_at(i);
        proof {
            crate::textmap::lemma_value_of(registry.entries(), i as int);
            assert(registry@.contains_key(name@) && registry@[name@] == *recipe);
            assert(reg.contains_key(name@) && reg[name@] == recipe@);
            assert(all[i as int] == name@);
        }
        let mut stack: Vec<String> = Vec::new();
        stack.push(name.clone());
        proof {
            assert(texts(stack@) =~= seq![name@]);
        }
        let found = effective_on(registry, &mut stack, recipe);
        let warnings = found.1;
        let ghost so_far = texts(errors@);
        let ghost f = |w: Seq<char>| "`"@ + name@ + "`: "@ + w;
        let mut j: usize = 0;
        proof {
            assert(texts(warnings@).take(0).map_values(f) =~= Seq::<Seq<char>>::empty());
        }
        while j < warnings.len()
            invariant
                j <= warnings.len(),
                f == (|w: Seq<char>| "`"@ + name@ + "`: "@ + w),
                texts(errors@) == so_far + texts(warnings@).take(j as int).map_values(f),
            decreases warnings.len() - j,
        {
            let mut e = "`".to_string();
            e.append(name.as_str());
            e.append("`: ");
            e.append(warnings[j].as_str());
            proof {
                let ws = texts(warnings@);
                assert(ws[j as int] == warnings@[j as int]@);
                assert(texts(errors@.push(e)) =~= texts(errors@).push(e@));
                assert(so_far + ws.take(j + 1).map_values(f) =~= (so_far + ws.take(
                    j as int,
                ).map_values(f)).push(e@));
            }
            errors.push(e);
            j += 1;
        }
        proof {
            let ws = texts(warnings@);
            assert(ws.take(ws.len() as int) =~= ws);
            let next = all.take(i + 1);
            assert(next.drop_last() =~= all.take(i as int));
            assert(next.last() == name@);
            assert(texts(errors@) =~= texts(broken@) + registry_complaints(reg, next));
            assert(texts(names@.push(name)) =~= texts(names@).push(name@));
            assert(next =~= all.take(i as int).push(name@));
        }
        names.push(name);
        i += 1;
    }
    proof {
        assert(all.take(n as int) =~= all);
    }
    if errors.len() == 0 {
        Ok(names)
    } else {
        Err(errors)
    }
}

/// What is left of a file name without its `.toml`: the name of the recipe.
pub open spec fn recipe_name(file: Seq<char>) -> Option<Seq<char>> {
    let n = file.len() - 5;
    if n > 0 && file.skip(n) == ".toml"@ {
        Some(file.take(n))
    } else {
        None
    }
}

/// The name under which the registry knows a file.
pub fn registry_name(file: &str) -> (r: Option<String>)
    ensures
        match r {
            Some(n) => recipe_name(file@) == Some(n@),
            None => recipe_name(file@) is None,
        },
{
    let v = chars_of(file);
    if v.len() <= 5 {
        return None;
    }
    let n: usize = v.len() - 5;
    let end = text_of(&v, n, v.len());
    proof {
        assert(v@.skip(n as int) =~= v@.subrange(n as int, v@.len() as int));
        assert(v@.take(n as int) =~= v@.subrange(0, n as int));
    }
    if same_text(end.as_str(), ".toml") {
        Some(text_of(&v, 0, n))
    } else {
        None
    }
}

/// The file of a registry recipe.
pub open spec fn registry_path(dir: Seq<char>, name: Seq<char>, windows: bool) -> Seq<char> {
    joined(dir, name + ".toml"@, windows)
}

/// A recipe that is put into the registry lies in it, and is found again under its
/// name.
pub proof fn law_registered_recipe_is_found_again(dir: Seq<char>, name: Seq<char>, windows: bool)
    requires
        is_rooted_plainly(dir, windows),
        is_single_name(name),
    ensures
        ({
            let file = registry_path(dir, name, windows);
            &&& lies_in(file, dir, windows)
            &&& file_name(file, windows) matches Some(n) && recipe_name(n) == Some(name)
        }),
{
    reveal_strlit(".toml");
    let file = name + ".toml"@;
    assert(".toml"@.len() == 5 && ".toml"@[0] == '.' && ".toml"@[1] == 't');
    assert(file.len() > 5);
    assert forall|i: int| 0 <= i < file.len() implies #[trigger] file[i] != '/' && file[i] != '\\'
        && file[i] != ':' by {
        if i < name.len() {
            assert(file[i] == name[i]);
        } else {
            assert(file[i] == ".toml"@[i - name.len()]);
        }
    }
    law_joined_lies_inside(dir, file, windows);
    law_registry_name_roundtrip(name);
}

/// The file of a registry recipe.
pub fn registry_file(dir: &str, name: &str, windows: bool) -> (r: String)
    ensures
        r@ == registry_path(dir@, name@, windows),
        r@ == joined(dir@, name@ + ".toml"@, windows),
{
    let mut file = name.to_string();
    file.append(".toml");
    join_path(dir, file.as_str(), windows)
}

/// The directory of all state: what the environment says, else `.unirun` in
/// the user's home.
pub open spec fn home_dir(
    unirun_home: Option<Seq<char>>,
    user_home: Seq<char>,
    windows: bool,
) -> Seq<char> {
    match unirun_home {
        Some(h) => h,
        None => joined(user_home, ".unirun"@, windows),
    }
}

/// The directory of all state.
pub fn unirun_home(env_home: &Option<String>, user_home: &str, windows: bool) -> (r: String)
    ensures
        r@ == home_dir(opt_text(*env_home), user_home@, windows),
{
    match env_home {
        Some(h) => h.clone(),
        None => join_path(user_home, ".unirun", windows),
    }
}

/// The directory of the registry.
pub fn registry_dir(home: &str, windows: bool) -> (r: String)
    ensures
        r@ == joined(home@, "recipes"@, windows),
{
    join_path(home, "recipes", windows)
}

// ---------------------------------------------------------------------------
// The capability cache
// ---------------------------------------------------------------------------

/// Every recorded shell path is still among the files that exist.
pub open spec fn shells_hold(shells: Seq<ShellInfo>, files: Seq<Seq<char>>) -> bool {
    forall|i: int|
        0 <= i < shells.len() && (#[trigger] shells[i]).path is Some ==> files.contains(
            shells[i].path->0@,
        )
}

/// Whether every recorded shell path is still among the files that exist.
pub fn shells_still_valid(shells: &Vec<ShellInfo>, files: &Vec<String>) -> (r: bool)
    ensures
        r == shells_hold(shells@, texts(files@)),
{
    let mut i: usize = 0;
    while i < shells.len()
        invariant
            i <= shells.len(),
            forall|j: int|
                0 <= j < i && (#[trigger] shells@[j]).path is Some ==> texts(files@).contains(
                    shells@[j].path->0@,
                ),
        decreases shells.len() - i,
    {
        if let Some(p) = &shells[i].path {
            if !is_listed(files, p.as_str()) {
                proof {
                    assert(shells@[i as int].path is Some);
                }
                return false;
            }
        }
        i += 1;
    }
    true
}

/// The snapshot of a host's capabilities that is kept between runs.
pub struct CapabilityCache;

/// A snapshot still describes the host.
pub open spec fn snapshot_holds(
    cached: Capabilities,
    platform: Seq<char>,
    arch: Seq<char>,
    files: Seq<Seq<char>>,
) -> bool {
    cached.platform@ == platform && cached.arch@ == arch && shells_hold(cached.shells@, files)
}

/// A snapshot of another platform or architecture, or with a shell that is gone, is
/// not used; any other is.
pub proof fn law_drifted_snapshot_is_not_used(
    cached: Capabilities,
    platform: Seq<char>,
    arch: Seq<char>,
    files: Seq<Seq<char>>,
    i: int,
)
    ensures
        cached.platform@ != platform ==> !snapshot_holds(cached, platform, arch, files),
        cached.arch@ != arch ==> !snapshot_holds(cached, platform, arch, files),
        0 <= i < cached.shells@.len() ==> (cached.shells@[i].path matches Some(p) ==> (
        !files.contains(p@) ==> !snapshot_holds(cached, platform, arch, files))),
        cached.platform@ == platform && cached.arch@ == arch && (forall|j: int|
            0 <= j < cached.shells@.len() ==> (#[trigger] cached.shells@[j]).path is None
                || files.contains(cached.shells@[j].path->0@)) ==> snapshot_holds(
            cached,
            platform,
            arch,
            files,
        ),
{
    if 0 <= i < cached.shells@.len() {
        law_cached_shells_exist(cached.shells@, files, i);
    }
}

impl CapabilityCache {
    /// Where the snapshot of a directory lies.
    pub fn cache_path(dir: &str, windows: bool) -> (r: String)
        ensures
            r@ == joined(joined(dir@, ".unirun"@, windows), "capabilities.json"@, windows),
    {
        let base = join_path(dir, ".unirun", windows);
        join_path(base.as_str(), "capabilities.json", windows)
    }

    /// The cached snapshot, where the host has not drifted since: platform
    /// and architecture are what they were, and every recorded shell is still
    /// a file.
    pub fn load_cached(
        cached: Capabilities,
        platform: &str,
        arch: &str,
        files: &Vec<String>,
    ) -> (r: Option<Capabilities>)
        ensures
            r is Some <==> snapshot_holds(cached, platform@, arch@, texts(files@)),
            match r {
                Some(c) => c == cached && cached.platform@ == platform@ && cached.arch@ == arch@
                    && shells_hold(cached.shells@, texts(files@)),
                None => !(cached.platform@ == platform@ && cached.arch@ == arch@ && shells_hold(
                    cached.shells@,
                    texts(files@),
                )),
            },
    {
        if same_text(cached.platform.as_str(), platform) && same_text(cached.arch.as_str(), arch)
            && shells_still_valid(&cached.shells, files) {
            Some(cached)
        } else {
            None
        }
    }
}

// ---------------------------------------------------------------------------
// Laws of the registry
// ---------------------------------------------------------------------------

/// Everything that is wrong with one of the recipes is reported, under the
/// recipe's name, and nothing else is.
pub proof fn law_every_fault_is_reported(
    registry: Map<Seq<char>, RecipeView>,
    names: Seq<Seq<char>>,
    k: int,
    fault: Seq<char>,
)
    requires
        0 <= k < names.len(),
    ensures
        effective(registry, seq![names[k]], registry[names[k]]).1.contains(fault)
            ==> registry_complaints(registry, names).contains(
            "`"@ + names[k] + "`: "@ + fault,
        ),
        registry_complaints(registry, names).len() == 0 ==> effective(
            registry,
            seq![names[k]],
            registry[names[k]],
        ).1.len() == 0,
        (forall|j: int|
            0 <= j < names.len() ==> effective(
                registry,
                seq![#[trigger] names[j]],
                registry[names[j]],
            ).1.len() == 0) ==> registry_complaints(registry, names).len() == 0,
    decreases names.len(),
{
    let front = names.drop_last();
    let name = names.last();
    let warnings = effective(registry, seq![name], registry[name]).1;
    let before = registry_complaints(registry, front);
    let all = registry_complaints(registry, names);
    assert(all == before + complaints(name, warnings));
    assert(forall|j: int| 0 <= j < front.len() ==> #[trigger] front[j] == names[j]);
    let line = "`"@ + names[k] + "`: "@ + fault;
    if k == names.len() - 1 {
        if warnings.contains(fault) {
            let i = choose|i: int| 0 <= i < warnings.len() && warnings[i] == fault;
            assert(complaints(name, warnings)[i] == line);
            assert(all[before.len() + i] == line);
        }
        if front.len() > 0 {
            law_every_fault_is_reported(registry, front, 0, fault);
        }
    } else {
        law_every_fault_is_reported(registry, front, k, fault);
        if before.contains(line) {
            let i = choose|i: int| 0 <= i < before.len() && before[i] == line;
            assert(all[i] == line);
        }
    }
}

/// A recipe that extends nothing is its own effective recipe, but for what it
/// no longer extends, and there is nothing to warn of.
pub proof fn law_plain_recipe_is_effective(
    registry: Map<Seq<char>, RecipeView>,
    recipe: RecipeView,
)
    requires
        registry.dom().finite(),
        recipe.extends.len() == 0,
    ensures
        effective(registry, seq![], recipe) == (
            RecipeView { extends: seq![], ..recipe },
            Seq::<Seq<char>>::empty(),
        ),
{
    let e = effective(registry, seq![], recipe);
    assert(e.0.toolchains =~= recipe.toolchains);
    assert(e.0.error_maps =~= recipe.error_maps);
    assert(e.0 =~= RecipeView { extends: seq![], ..recipe });
}

/// A project's own word always stands: whatever a recipe sets, its effective
/// recipe keeps.
pub proof fn law_project_recipe_stands(
    registry: Map<Seq<char>, RecipeView>,
    recipe: RecipeView,
)
    requires
        registry.dom().finite(),
    ensures
        keeps(effective(registry, seq![], recipe).0, recipe),
{
    law_upper_layer_wins(layered(registry, seq![], recipe.extends).0, recipe);
}

proof fn lemma_layers_are_kept(
    registry: Map<Seq<char>, RecipeView>,
    names: Seq<Seq<char>>,
    i: int,
)
    requires
        registry.dom().finite(),
        0 <= i < names.len(),
    ensures
        registry.contains_key(names[i]) ==> {
            &&& forall|key: Seq<char>| #[trigger]
                registry[names[i]].toolchains.contains_key(key) ==> layered(
                    registry,
                    seq![],
                    names,
                ).0.toolchains.contains_key(key)
            &&& forall|key: Seq<char>| #[trigger]
                registry[names[i]].error_maps.contains_key(key) ==> layered(
                    registry,
                    seq![],
                    names,
                ).0.error_maps.contains_key(key)
        },
        !registry.contains_key(names[i]) ==> layered(registry, seq![], names).1.contains(
            missing_layer(names[i]),
        ),
    decreases names.len(),
{
    let none = Seq::<Seq<char>>::empty();
    assert(stack_ok(registry, none));
    let front = names.drop_last();
    let name = names.last();
    let below = layered(registry, none, front);
    let all = layered(registry, none, names);
    if i < front.len() {
        assert(front[i] == names[i]);
        lemma_layers_are_kept(registry, front, i);
        if !registry.contains_key(names[i]) {
            let w = missing_layer(names[i]);
            let j = choose|j: int| 0 <= j < below.1.len() && below.1[j] == w;
            assert(all.1[j] == w);
        }
    } else {
        assert(names[i] == name);
        if registry.contains_key(name) {
            assert(!none.contains(name));
            lemma_stack_push(registry, none, name);
            let layer = effective(registry, none.push(name), registry[name]);
            law_upper_layer_wins(
                layered(registry, none.push(name), registry[name].extends).0,
                registry[name],
            );
            assert(all.0 == overlaid(below.0, layer.0));
        } else {
            assert(all.1.last() == missing_layer(name));
            assert(all.1[all.1.len() - 1] == missing_layer(name));
        }
    }
}

/// Nothing that an extended recipe says is lost: each of its toolchains and error
/// patterns is there, as it says or as a layer above it says; and a layer that the
/// registry does not have is named in the warnings.
pub proof fn law_extended_recipes_are_kept(
    registry: Map<Seq<char>, RecipeView>,
    recipe: RecipeView,
    i: int,
    key: Seq<char>,
)
    requires
        registry.dom().finite(),
        0 <= i < recipe.extends.len(),
    ensures
        ({
            let name = recipe.extends[i];
            let e = effective(registry, seq![], recipe);
            &&& registry.contains_key(name) && registry[name].toolchains.contains_key(key)
                ==> e.0.toolchains.contains_key(key)
            &&& registry.contains_key(name) && registry[name].error_maps.contains_key(key)
                ==> e.0.error_maps.contains_key(key)
            &&& !registry.contains_key(name) ==> e.1.contains(missing_layer(name))
        }),
{
    lemma_layers_are_kept(registry, recipe.extends, i);
}

/// The layer that is extended last lies on top of the other layers: what it says
/// itself stands wherever the recipe says nothing.
pub proof fn law_last_extended_recipe_stands(
    registry: Map<Seq<char>, RecipeView>,
    recipe: RecipeView,
)
    requires
        registry.dom().finite(),
        recipe.extends.len() > 0,
        registry.contains_key(recipe.extends.last()),
    ensures
        keeps(
            effective(registry, seq![], recipe).0,
            unsaid(registry[recipe.extends.last()], recipe),
        ),
{
    let none = Seq::<Seq<char>>::empty();
    assert(stack_ok(registry, none));
    let name = recipe.extends.last();
    assert(!none.contains(name));
    lemma_stack_push(registry, none, name);
    let layer = effective(registry, none.push(name), registry[name]);
    let lower = layered(registry, none.push(name), registry[name].extends).0;
    law_upper_layer_wins(lower, registry[name]);
    let below = layered(registry, none, recipe.extends.drop_last());
    let all = layered(registry, none, recipe.extends);
    assert(all.0 == overlaid(below.0, layer.0));
    law_upper_layer_wins(below.0, layer.0);
    law_upper_layer_wins(all.0, recipe);
}

/// A recipe over one plain registry recipe is just that: the one lies over the
/// other, and there is nothing to warn of.
pub proof fn law_single_layer_lies_underneath(
    registry: Map<Seq<char>, RecipeView>,
    recipe: RecipeView,
    name: Seq<char>,
)
    requires
        registry.dom().finite(),
        recipe.extends == seq![name],
        registry.contains_key(name),
        registry[name].extends.len() == 0,
    ensures
        effective(registry, seq![], recipe).0 == overlaid(registry[name], recipe),
        effective(registry, seq![], recipe).1.len() == 0,
{
    let none = Seq::<Seq<char>>::empty();
    assert(stack_ok(registry, none));
    assert(!none.contains(name));
    lemma_stack_push(registry, none, name);
    let layer = effective(registry, none.push(name), registry[name]);
    let nothing = layered(registry, none.push(name), registry[name].extends);
    assert(nothing == (empty_recipe(), none));
    assert(recipe.extends.drop_last() =~= none);
    let below = layered(registry, none, recipe.extends.drop_last());
    assert(below == (empty_recipe(), none));
    let all = layered(registry, none, recipe.extends);
    assert(all == (overlaid(below.0, layer.0), below.1 + layer.1));
    let e = effective(registry, none, recipe).0;
    assert(e.toolchains =~= overlaid(registry[name], recipe).toolchains);
    assert(e.error_maps =~= overlaid(registry[name], recipe).error_maps);
    assert(e =~= overlaid(registry[name], recipe));
}

/// A recipe that extends itself is said to.
pub proof fn law_circle_is_named(registry: Map<Seq<char>, RecipeView>, name: Seq<char>, i: int)
    requires
        registry.dom().finite(),
        registry.contains_key(name),
        0 <= i < registry[name].extends.len(),
        registry[name].extends[i] == name,
    ensures
        effective(registry, seq![name], registry[name]).1.contains(circular_layer(name)),
{
    let none = Seq::<Seq<char>>::empty();
    assert(stack_ok(registry, none));
    assert(!none.contains(name));
    lemma_stack_push(registry, none, name);
    assert(none.push(name) =~= seq![name]);
    assert(seq![name][0] == name);
    lemma_circle_is_named(registry, seq![name], name, registry[name].extends, i);
}

proof fn lemma_circle_is_named(
    registry: Map<Seq<char>, RecipeView>,
    stack: Seq<Seq<char>>,
    name: Seq<char>,
    names: Seq<Seq<char>>,
    i: int,
)
    requires
        stack_ok(registry, stack),
        registry.contains_key(name),
        stack.contains(name),
        0 <= i < names.len(),
        names[i] == name,
    ensures
        layered(registry, stack, names).1.contains(circular_layer(name)),
    decreases names.len(),
{
    let front = names.drop_last();
    let below = layered(registry, stack, front);
    let all = layered(registry, stack, names);
    let w = circular_layer(name);
    if i < front.len() {
        assert(front[i] == names[i]);
        lemma_circle_is_named(registry, stack, name, front, i);
        let j = choose|j: int| 0 <= j < below.1.len() && below.1[j] == w;
        assert(all.1[j] == w);
    } else {
        assert(names.last() == name);
        assert(all.1 == below.1.push(w));
        assert(all.1[all.1.len() - 1] == w);
    }
}

/// The file of a registry recipe leads back to its name.
pub proof fn law_registry_name_roundtrip(name: Seq<char>)
    requires
        name.len() > 0,
    ensures
        recipe_name(name + ".toml"@) == Some(name),
        recipe_name(".toml"@) is None,
        recipe_name(name) matches Some(n) ==> n.len() > 0 && name == n + ".toml"@,
{
    reveal_strlit(".toml");
    let file = name + ".toml"@;
    let n = file.len() - 5;
    assert(file.skip(n) =~= ".toml"@);
    assert(file.take(n) =~= name);
}

/// The environment's word on where state lies counts before the user's home.
pub proof fn law_environment_names_the_home(
    unirun_home: Option<Seq<char>>,
    user_home: Seq<char>,
    windows: bool,
)
    ensures
        unirun_home matches Some(h) ==> home_dir(unirun_home, user_home, windows) == h,
        unirun_home is None ==> home_dir(unirun_home, user_home, windows) == joined(
            user_home,
            ".unirun"@,
            windows,
        ),
{
}

/// A cached snapshot holds only while each shell that it found is still a file;
/// shells that it did not find do not count.
pub proof fn law_cached_shells_exist(shells: Seq<ShellInfo>, files: Seq<Seq<char>>, i: int)
    requires
        0 <= i < shells.len(),
    ensures
        shells[i].path matches Some(p) ==> (!files.contains(p@) ==> !shells_hold(shells, files)),
        (forall|j: int|
            0 <= j < shells.len() ==> (#[trigger] shells[j]).path is None || files.contains(
                shells[j].path->0@,
            )) ==> shells_hold(shells, files),
{
}

/// Resolving twice is resolving once, and the second time there is nothing to
/// warn of.
pub proof fn law_effective_is_resolved(
    registry: Map<Seq<char>, RecipeView>,
    recipe: RecipeView,
)
    requires
        registry.dom().finite(),
    ensures
        effective(registry, seq![], effective(registry, seq![], recipe).0).0 == effective(
            registry,
            seq![],
            recipe,
        ).0,
        effective(registry, seq![], effective(registry, seq![], recipe).0).1.len() == 0,
{
    let once = effective(registry, seq![], recipe).0;
    law_plain_recipe_is_effective(registry, once);
    assert(RecipeView { extends: seq![], ..once } =~= once);
}

} // verus!
