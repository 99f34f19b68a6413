use mesh_parsers::languages::ts_config::TsConfigResolver;

/// The resolver of a `tsconfig.json` text.
fn load(jsonc: &str) -> Option<TsConfigResolver> {
    let json = TsConfigResolver::strip_json_comments(jsonc);
    let parsed: serde_json::Value = serde_json::from_str(&json).ok()?;
    let options = parsed.get("compilerOptions")?;
    let paths: Vec<(String, Vec<String>)> = options
        .get("paths")?
        .as_object()?
        .iter()
        .map(|(alias, targets)| {
            let targets = targets
                .as_array()
                .map(|ts| ts.iter().filter_map(|t| t.as_str().map(String::from)).collect());
            (alias.clone(), targets.unwrap_or_default())
        })
        .collect();
    let base_url = options.get("baseUrl").and_then(|b| b.as_str());
    Some(TsConfigResolver::from_paths(base_url, &paths))
}

#[test]
fn test_tsconfig_resolver_parsing() {
    let jsonc = r#"
        {
          // TSConfig comment
          "compilerOptions": {
            "baseUrl": "./",
            /* Multi-line comment */
            "paths": {
              "@/*": ["src/*"],
              "@components/*": ["src/components/*"]
            }
          }
        }
        "#;
    let resolver = load(jsonc).expect("parse tsconfig");
    assert_eq!(
        resolver.resolve_alias("@/services/User"),
        Some("src/services/User".to_string())
    );
    assert_eq!(
        resolver.resolve_alias("@components/Button"),
        Some("src/components/Button".to_string())
    );
    assert_eq!(resolver.resolve_alias("express"), None);
}
