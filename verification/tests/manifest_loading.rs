use std::hash::{DefaultHasher, Hash, Hasher};
use swiss::config_loader::{
    apply_profiles, combine_documents, include_failure, load_document, lookup_profile, manifest_not_found,
    merge_values, split_document, yaml_eq,
    IncludeVisits, YamlValue,
};

fn text(s: &str) -> YamlValue {
    YamlValue::Text(s.to_owned())
}

fn map(entries: Vec<(&str, YamlValue)>) -> YamlValue {
    YamlValue::Mapping(entries.into_iter().map(|(k, v)| (text(k), v)).collect())
}

fn list(items: &[&str]) -> YamlValue {
    YamlValue::Sequence(items.iter().map(|s| text(s)).collect())
}

fn get<'a>(value: &'a YamlValue, key: &str) -> Option<&'a YamlValue> {
    match value {
        YamlValue::Mapping(entries) => entries
            .iter()
            .find(|(k, _)| matches!(k, YamlValue::Text(s) if s == key))
            .map(|(_, v)| v),
        _ => None,
    }
}

fn keys(value: &YamlValue) -> Vec<String> {
    match value {
        YamlValue::Mapping(entries) => entries
            .iter()
            .map(|(k, _)| match k {
                YamlValue::Text(s) => s.clone(),
                _ => String::new(),
            })
            .collect(),
        _ => vec![],
    }
}

#[test]
fn includes_merge_relative_to_including_file() {
    // parts/base.yaml
    let base = map(vec![
        ("package_manager", map(vec![("linux", map(vec![("apt", map(vec![("packages", list(&["git"]))]))]))])),
        ("dependencies", map(vec![("cargo", map(vec![("ripgrep", YamlValue::Null)]))])),
    ]);
    // bootstrap.yaml, after its includes were split off
    let root = map(vec![
        ("includes", list(&["./parts/base.yaml"])),
        ("package_manager", map(vec![("linux", map(vec![("apt", map(vec![("packages", list(&["curl", "git"]))]))]))])),
        ("dependencies", map(vec![("cargo", map(vec![("bat", YamlValue::Null)]))])),
    ]);
    let (doc, includes) = split_document(root, "bootstrap.yaml").unwrap();
    assert_eq!(includes, vec![Ok("./parts/base.yaml".to_owned())]);
    assert!(get(&doc, "includes").is_none());

    let merged = combine_documents(vec![base], doc);
    let apt = get(get(get(&merged, "package_manager").unwrap(), "linux").unwrap(), "apt").unwrap();
    // include first, including file appended without duplicates
    assert!(yaml_eq(get(apt, "packages").unwrap(), &list(&["git", "curl"])));
    let cargo = get(get(&merged, "dependencies").unwrap(), "cargo").unwrap();
    assert!(get(cargo, "ripgrep").is_some());
    assert!(get(cargo, "bat").is_some());
}

#[test]
fn profiles_overlay_base_in_order() {
    let manifest = map(vec![
        ("dependencies", map(vec![("cargo", map(vec![("ripgrep", YamlValue::Null)]))])),
        (
            "profiles",
            map(vec![
                (
                    "service-host",
                    map(vec![("package_manager", map(vec![("linux", map(vec![("apt", map(vec![("packages", list(&["docker.io"]))]))]))]))]),
                ),
                ("devops", map(vec![("dependencies", map(vec![("cargo", map(vec![("bottom", YamlValue::Null)]))]))])),
            ]),
        ),
    ]);
    let merged = apply_profiles(manifest, &vec!["service-host".to_owned(), "devops".to_owned()]).unwrap();
    let cargo = get(get(&merged, "dependencies").unwrap(), "cargo").unwrap();
    assert!(get(cargo, "ripgrep").is_some());
    assert!(get(cargo, "bottom").is_some());
    assert!(get(&merged, "profiles").is_none());
    let apt = get(get(get(&merged, "package_manager").unwrap(), "linux").unwrap(), "apt").unwrap();
    assert!(yaml_eq(get(apt, "packages").unwrap(), &list(&["docker.io"])));
}

#[test]
fn unknown_profile_fails_listing_available() {
    let manifest = map(vec![(
        "profiles",
        map(vec![("workstation", map(vec![("dependencies", map(vec![("cargo", map(vec![("ripgrep", YamlValue::Null)]))]))]))]),
    )]);
    let message = apply_profiles(manifest, &vec!["nope".to_owned()]).unwrap_err();
    assert!(message.contains("Unknown profile 'nope'"));
    assert!(message.contains("workstation"));
    assert_eq!(message, "Unknown profile 'nope'. Available profiles: workstation");
}

#[test]
fn profile_without_definitions_fails() {
    assert_eq!(
        lookup_profile(None, "x").unwrap_err(),
        "Unknown profile 'x': the manifest defines no profiles"
    );
}

#[test]
fn circular_includes_are_rejected() {
    let mut visits = IncludeVisits::new();
    assert!(visits.visit("/d/a.yaml", "a.yaml").is_ok());
    assert!(visits.visit("/d/b.yaml", "./b.yaml").is_ok());
    let error = visits.visit("/d/a.yaml", "./a.yaml").unwrap_err();
    assert!(error.contains("Circular include"));
    assert_eq!(error, "Circular include detected at ./a.yaml");
}

#[test]
fn includes_must_be_a_list_of_strings() {
    let error = split_document(map(vec![("includes", text("x"))]), "m.yaml").unwrap_err();
    assert_eq!(error, "'includes' must be a list of paths in m.yaml");
    let (_, includes) = split_document(
        map(vec![("includes", YamlValue::Sequence(vec![text("a"), YamlValue::Bool(true)]))]),
        "m.yaml",
    )
    .unwrap();
    assert_eq!(
        includes,
        vec![Ok("a".to_owned()), Err("'includes' entries must be strings in m.yaml".to_owned())]
    );
}

#[test]
fn null_document_is_an_empty_mapping() {
    let (doc, includes) = split_document(YamlValue::Null, "e.yaml").unwrap();
    assert!(includes.is_empty());
    assert!(yaml_eq(&doc, &YamlValue::Mapping(vec![])));
}

#[test]
fn null_overlay_keeps_existing_value() {
    let merged = merge_values(list(&["a"]), YamlValue::Null);
    assert!(yaml_eq(&merged, &list(&["a"])));
}

#[test]
fn scalars_are_overridden_and_lists_deduplicated() {
    assert!(yaml_eq(&merge_values(text("a"), text("b")), &text("b")));
    assert!(yaml_eq(&merge_values(list(&["a", "b"]), list(&["b", "c"])), &list(&["a", "b", "c"])));
    assert!(yaml_eq(&merge_values(map(vec![]), list(&["x"])), &list(&["x"])));
}

#[test]
fn merged_key_moves_to_the_end() {
    // A key present on both sides is taken out (the last entry fills its
    // place) and put back at the end, as a YAML mapping's remove/insert does.
    let base = map(vec![("a", text("1")), ("b", text("2")), ("c", text("3"))]);
    let merged = merge_values(base, map(vec![("a", text("9"))]));
    assert_eq!(keys(&merged), vec!["c", "b", "a"]);
    assert!(yaml_eq(get(&merged, "a").unwrap(), &text("9")));
}

#[test]
fn mapping_equality_ignores_order() {
    let a = map(vec![("x", text("1")), ("y", text("2"))]);
    let b = map(vec![("y", text("2")), ("x", text("1"))]);
    assert!(yaml_eq(&a, &b));
    assert!(!yaml_eq(&a, &map(vec![("x", text("1"))])));
    assert!(!yaml_eq(&YamlValue::Number("1".to_owned()), &YamlValue::Number("1.0".to_owned())));
}

#[test]
fn untouched_base_entries_survive_a_merge() {
    let base = map(vec![("keep", text("1")), ("change", text("2"))]);
    let merged = merge_values(base, map(vec![("change", text("3")), ("new", text("4"))]));
    assert!(yaml_eq(get(&merged, "keep").unwrap(), &text("1")));
    assert!(yaml_eq(get(&merged, "change").unwrap(), &text("3")));
    assert!(yaml_eq(get(&merged, "new").unwrap(), &text("4")));
}

#[test]
fn fingerprint_is_sixteen_hex_digits_of_the_text_hash() {
    let text = "dependencies:\n  cargo:\n    ripgrep:\n";
    let mut hasher = DefaultHasher::new();
    text.hash(&mut hasher);
    let expected = format!("{:016x}", hasher.finish());
    assert_eq!(swiss::config_loader::manifest_fingerprint(text), expected);
    assert_eq!(expected.len(), 16);
    assert_ne!(
        swiss::config_loader::manifest_fingerprint(text),
        swiss::config_loader::manifest_fingerprint("dependencies:\n  cargo:\n    bat:\n")
    );
}

#[test]
fn shared_keys_merge_deeply() {
    let base = map(vec![("deps", map(vec![("cargo", list(&["git"])), ("keep", text("k"))]))]);
    let over = map(vec![("deps", map(vec![("cargo", list(&["curl", "git"]))]))]);
    let merged = merge_values(base, over);
    let deps = get(&merged, "deps").unwrap();
    assert!(yaml_eq(get(deps, "cargo").unwrap(), &list(&["git", "curl"])));
    assert!(yaml_eq(get(deps, "keep").unwrap(), &text("k")));
}

#[test]
fn invalid_yaml_error_names_the_file() {
    let error = load_document(Err("did not find expected key".to_owned()), "bootstrap.yaml").unwrap_err();
    assert_eq!(error, "Invalid YAML in bootstrap.yaml: did not find expected key");
    let (doc, includes) =
        load_document(Ok(map(vec![("includes", list(&["base.yaml"])), ("x", text("1"))])), "a.yaml").unwrap();
    assert_eq!(keys(&doc), vec!["x".to_owned()]);
    assert_eq!(includes, vec![Ok("base.yaml".to_owned())]);
}

#[test]
fn missing_include_error_names_the_include() {
    let cause = manifest_not_found("dir/missing.yaml", "No such file or directory (os error 2)");
    assert_eq!(cause, "Manifest not found: dir/missing.yaml: No such file or directory (os error 2)");
    let error = include_failure("missing.yaml", "a.yaml", &cause);
    assert!(error.starts_with("Failed to load include 'missing.yaml' from a.yaml: "));
    assert!(error.contains("missing.yaml"));
}
