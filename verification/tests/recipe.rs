use unirun::probe::{probe, Capabilities};
use unirun::recipe::{
    check_registry, effective_recipe, nearest_recipe, overlay, recipe_candidates, registry_file,
    registry_name, shells_still_valid, CapabilityCache, Conventions, ErrorMapEntry, Recipe,
    Timeouts, Toolchain,
};
use unirun::textmap::TextMap;

fn texts(v: &[&str]) -> Vec<String> {
    v.iter().map(|s| s.to_string()).collect()
}

fn strings(v: Option<&toml::Value>) -> Vec<String> {
    match v.and_then(|v| v.as_array()) {
        Some(a) => a.iter().map(|s| s.as_str().unwrap().to_string()).collect(),
        None => vec![],
    }
}

fn text_in(t: &toml::Value, key: &str) -> Option<String> {
    t.get(key).and_then(|v| v.as_str()).map(String::from)
}

fn number_in(t: &toml::Value, key: &str) -> Option<u64> {
    t.get(key).and_then(|v| v.as_integer()).map(|n| n as u64)
}

/// A recipe from its TOML text.
fn recipe(text: &str) -> Recipe {
    let t: toml::Value = toml::from_str(text).unwrap();
    let mut r = Recipe::default();
    r.schema = t.get("schema").and_then(|v| v.as_integer()).map(|n| n as u32);
    r.extends = strings(t.get("extends"));
    if let Some(all) = t.get("toolchains").and_then(|v| v.as_table()) {
        for (k, v) in all {
            r.toolchains.insert(
                k.clone(),
                Toolchain {
                    runner: text_in(v, "runner"),
                    fallbacks: strings(v.get("fallbacks")),
                    args: strings(v.get("args")),
                },
            );
        }
    }
    if let Some(c) = t.get("conventions") {
        r.conventions = Some(Conventions {
            line_ending: text_in(c, "line_ending"),
            encoding: text_in(c, "encoding"),
            max_output_bytes: number_in(c, "max_output_bytes"),
        });
    }
    if let Some(c) = t.get("timeouts") {
        r.timeouts = Some(Timeouts { default_ms: number_in(c, "default_ms"), build_ms: number_in(c, "build_ms") });
    }
    if let Some(all) = t.get("error_maps").and_then(|v| v.as_table()) {
        for (k, v) in all {
            r.error_maps.insert(
                k.clone(),
                ErrorMapEntry { class: text_in(v, "class").unwrap(), hint: text_in(v, "hint") },
            );
        }
    }
    r
}

const PYTHON: &str = r#"
schema = 1
[toolchains.python]
runner = "python3"
fallbacks = ["python", "py"]
args = ["-u"]

[toolchains.node]
runner = "pnpm"
fallbacks = ["npm", "yarn"]

[conventions]
max_output_bytes = 65536

[timeouts]
default_ms = 30000

[error_maps]
"ModuleNotFoundError: *" = { class = "DEPENDENCY_MISSING", hint = "run `uv sync`" }
"#;

#[test]
fn recipe_parse_and_resolve() {
    let r = recipe(PYTHON);
    assert_eq!(r.schema, Some(1));
    assert_eq!(r.timeouts.as_ref().unwrap().default_ms, Some(30_000));
    assert_eq!(
        r.conventions.as_ref().unwrap().max_output_bytes,
        Some(65_536)
    );
    assert!(r.error_maps.get("ModuleNotFoundError: *").is_some());
    let Some((runner, args)) = r.resolve_toolchain("python", &texts(&["sh", "python3"])) else {
        panic!("python resolves");
    };
    assert_eq!(runner, "python3");
    assert_eq!(args, vec!["-u"]);
}

#[test]
fn recipe_missing_toolchain_is_none() {
    let r = Recipe::default();
    assert!(r.resolve_toolchain("python", &texts(&["python", "python3"])).is_none());
}

#[test]
fn recipe_toolchain_resolves_runner() {
    let r = recipe("schema = 1\n[toolchains.python]\nrunner = \"python3\"\nargs = []\n");
    let (runner, args) = r.resolve_toolchain("python", &texts(&["python3"])).expect("python resolves");
    assert_eq!(runner, "python3");
    assert!(args.is_empty());
}

#[test]
fn fallbacks_are_tried_in_order() {
    let r = recipe(PYTHON);
    assert_eq!(r.toolchain_candidates("node"), vec!["pnpm", "npm", "yarn"]);
    assert_eq!(r.resolve_toolchain("node", &texts(&["yarn", "npm"])).unwrap().0, "npm");
    assert!(r.resolve_toolchain("node", &vec![]).is_none());
    assert!(r.toolchain_candidates("ruby").is_empty());
    assert_eq!(r.max_output_bytes(), Some(65_536));
    assert_eq!(r.default_timeout_ms(), Some(30_000));
    assert_eq!(Recipe::default().max_output_bytes(), None);
    assert_eq!(Recipe::default().default_timeout_ms(), None);
}

fn caps() -> Capabilities {
    probe("linux", "x86_64", &texts(&["/bin"]), "/w", &texts(&["/bin/bash", "/bin/sh"]), false, "", &None)
}

#[test]
fn cache_roundtrip() {
    let files = texts(&["/bin/bash", "/bin/sh"]);
    let loaded = CapabilityCache::load_cached(caps(), "linux", "x86_64", &files);
    assert!(loaded.is_some());
    assert_eq!(loaded.unwrap().platform, caps().platform);
    assert_eq!(CapabilityCache::cache_path("/p", false), "/p/.unirun/capabilities.json");
}

#[test]
fn cache_invalidated_when_shell_missing() {
    let files = texts(&["/bin/bash", "/bin/sh"]);
    let mut c = caps();
    if let Some(s) = c.shells.iter_mut().find(|s| s.name == "bash") {
        s.path = Some("/nonexistent/bash".into());
    }
    assert!(CapabilityCache::load_cached(c, "linux", "x86_64", &files).is_none());
    assert!(CapabilityCache::load_cached(caps(), "macos", "x86_64", &files).is_none());
    assert!(CapabilityCache::load_cached(caps(), "linux", "aarch64", &files).is_none());
    assert!(!shells_still_valid(&caps().shells, &texts(&["/bin/sh"])));
    assert!(shells_still_valid(&vec![], &vec![]));
}

#[test]
fn nearest_recipe_wins() {
    let c = recipe_candidates("/a/b", false);
    assert_eq!(c, vec!["/a/b/.unirun/recipe.toml", "/a/.unirun/recipe.toml", "/.unirun/recipe.toml"]);
    assert_eq!(nearest_recipe(&c, &texts(&["/.unirun/recipe.toml", "/a/.unirun/recipe.toml"])), Some(1));
    assert_eq!(nearest_recipe(&c, &vec![]), None);
}

#[test]
fn layers_merge_key_by_key_and_field_by_field() {
    let base = recipe(PYTHON);
    let top = recipe(
        "[toolchains.python]\nrunner = \"uv\"\nargs = [\"run\"]\n[conventions]\nencoding = \"utf-8\"\n[timeouts]\nbuild_ms = 5\n[error_maps]\n\"x\" = { class = \"X\" }\n",
    );
    let r = overlay(&base, &top);
    assert_eq!(r.schema, Some(1));
    assert_eq!(r.toolchains.get("python").unwrap().runner.as_deref(), Some("uv"));
    assert!(r.toolchains.get("python").unwrap().fallbacks.is_empty());
    assert_eq!(r.toolchains.get("node").unwrap().runner.as_deref(), Some("pnpm"));
    let c = r.conventions.as_ref().unwrap();
    assert_eq!(c.max_output_bytes, Some(65_536));
    assert_eq!(c.encoding.as_deref(), Some("utf-8"));
    assert_eq!(r.timeouts, Some(Timeouts { default_ms: Some(30_000), build_ms: Some(5) }));
    assert_eq!(r.error_maps.len(), 2);
}

fn registry(entries: &[(&str, &str)]) -> TextMap<Recipe> {
    let mut m = TextMap::new();
    for (name, text) in entries {
        m.insert(name.to_string(), recipe(text));
    }
    m
}

#[test]
fn earlier_layers_lie_lower() {
    let reg = registry(&[
        ("low", "[timeouts]\ndefault_ms = 1\nbuild_ms = 1\n"),
        ("high", "extends = [\"base\"]\n[timeouts]\ndefault_ms = 2\n"),
        ("base", "[conventions]\nmax_output_bytes = 9\n"),
    ]);
    let (eff, warnings) = effective_recipe(&recipe("extends = [\"low\", \"high\"]\nschema = 3\n"), &reg);
    assert!(warnings.is_empty());
    assert_eq!(eff.timeouts, Some(Timeouts { default_ms: Some(2), build_ms: Some(1) }));
    assert_eq!(eff.max_output_bytes(), Some(9));
    assert_eq!(eff.schema, Some(3));
    assert!(eff.extends.is_empty());
}

#[test]
fn missing_and_circular_layers_are_left_out() {
    let reg = registry(&[
        ("a", "extends = [\"b\"]\n[timeouts]\ndefault_ms = 1\n"),
        ("b", "extends = [\"a\", \"nope\"]\n[timeouts]\nbuild_ms = 2\n"),
    ]);
    let (eff, warnings) = effective_recipe(&recipe("extends = [\"a\"]\n"), &reg);
    assert_eq!(eff.timeouts, Some(Timeouts { default_ms: Some(1), build_ms: Some(2) }));
    assert_eq!(
        warnings,
        vec!["extends: cycle through registry recipe `a`", "extends: no registry recipe `nope`"]
    );
}

#[test]
fn registry_check() {
    let good = registry(&[("b", "extends = [\"a\"]\n"), ("a", "")]);
    assert_eq!(check_registry(&good, &vec![]).unwrap(), vec!["a", "b"]);
    let self_made = registry(&[("x", "extends = [\"x\"]\n")]);
    let errors = check_registry(&self_made, &texts(&["`y`: bad toml"])).unwrap_err();
    assert_eq!(errors, vec!["`y`: bad toml", "`x`: extends: cycle through registry recipe `x`"]);
    assert!(check_registry(&good, &texts(&["z"])).is_err());
}

#[test]
fn registry_names() {
    assert_eq!(registry_name("python.toml").as_deref(), Some("python"));
    assert_eq!(registry_name(".toml"), None);
    assert_eq!(registry_name("python.json"), None);
    assert_eq!(registry_file("/r", "node", false), "/r/node.toml");
}
