use depg::path::{path_eq, Path};
use depg::ts_config::{AliasRule, CompilerOptions, UserTsConfig};

/// Builds a path from a slash-separated spelling.
fn sp(s: &str) -> Path {
    depg::path::parse_path(s)
}

#[test]
fn test_paths_of_empty_config() {
    let empty = UserTsConfig { compiler_options: None };
    assert!(empty.paths().is_empty());
    let no_paths = UserTsConfig {
        compiler_options: Some(CompilerOptions { paths: None }),
    };
    assert!(no_paths.paths().is_empty());
}

#[test]
fn test_paths_keeps_declaration_order() {
    let ts_config = UserTsConfig {
        compiler_options: Some(CompilerOptions {
            paths: Some(vec![
                AliasRule { key: sp("~/src/*"), targets: vec![sp("./src/*")] },
                AliasRule { key: sp("app-src/*"), targets: vec![sp("./app-src/*")] },
            ]),
        }),
    };
    let rules = ts_config.paths();
    assert_eq!(rules.len(), 2);
    assert!(path_eq(&rules[0].key, &sp("~/src/*")));
    assert!(path_eq(&rules[1].key, &sp("app-src/*")));
    assert_eq!(rules[1].targets.len(), 1);
    assert!(path_eq(&rules[1].targets[0], &sp("./app-src/*")));
}
