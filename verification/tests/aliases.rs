use mesh_parsers::languages::ts_config::TsConfigResolver;

fn resolver(base: Option<&str>, paths: &[(&str, &[&str])]) -> TsConfigResolver {
    let paths: Vec<(String, Vec<String>)> = paths
        .iter()
        .map(|(alias, targets)| {
            (alias.to_string(), targets.iter().map(|t| t.to_string()).collect())
        })
        .collect();
    TsConfigResolver::from_paths(base, &paths)
}

#[test]
fn aliases_are_resolved_below_the_base() {
    let r = resolver(Some("./app/"), &[("@/*", &["./src/*", "other/*"]), ("~x", &[])]);
    assert_eq!(r.resolve_alias("@/a/b"), Some("./app/src/a/b".to_string()));
    assert_eq!(r.resolve_alias("~x"), None);
    assert_eq!(r.resolve_alias("@"), None);
}

#[test]
fn a_base_that_is_here_adds_nothing() {
    for base in [None, Some("."), Some("./"), Some("")] {
        let r = resolver(base, &[("@/*", &["src/*"])]);
        assert_eq!(r.resolve_alias("@/a"), Some("src/a".to_string()));
    }
}

#[test]
fn a_prefix_is_mapped_once_to_what_came_last() {
    let r = resolver(None, &[("@/*", &["a/*"]), ("@/", &["b/"])]);
    assert_eq!(r.path_mappings, [("@/".to_string(), "b/".to_string())]);
}

#[test]
fn an_empty_resolver_resolves_nothing() {
    assert_eq!(TsConfigResolver::new().resolve_alias("@/a"), None);
}

#[test]
fn comments_go_and_strings_stay() {
    let text = "{ // one\n \"a\": \"http://x/*y*/\", /* two\n */ \"b\": 1 }";
    assert_eq!(
        TsConfigResolver::strip_json_comments(text),
        "{ \n \"a\": \"http://x/*y*/\",  \"b\": 1 }"
    );
    assert_eq!(TsConfigResolver::strip_json_comments("{\"a\": 1}"), "{\"a\": 1}");
    assert_eq!(TsConfigResolver::strip_json_comments("a /* open"), "a ");
}

#[test]
fn texts_without_comments_stay_as_they_are() {
    for text in [
        r#"["\\","a//b"]"#,
        r#"{"a": "\"//", "b": "/* no */", "c": "é ü", "d": 1 / 2}"#,
        "\"open // string",
        "\"\\",
        "",
        "/",
    ] {
        assert_eq!(TsConfigResolver::strip_json_comments(text), text);
    }
    assert_eq!(TsConfigResolver::strip_json_comments(r#"["\\"] // é"#), r#"["\\"] "#);
    assert_eq!(TsConfigResolver::strip_json_comments("/*/ x */é//"), "é");
}
