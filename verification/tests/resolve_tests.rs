use depg::fs_model::FileSystem;
use depg::path::{normalize, path_eq, Path};
use depg::resolve::{
    apply_alias, expand_path_with_index_or_extension, resolve, resolve_target, ResolveError,
};
use depg::ts_config::{AliasRule, CompilerOptions, UserTsConfig};

/// Builds a path from a slash-separated spelling.
fn sp(s: &str) -> Path {
    depg::path::parse_path(s)
}

fn rule(key: &str, targets: &[&str]) -> AliasRule {
    AliasRule {
        key: sp(key),
        targets: targets.iter().map(|t| sp(t)).collect(),
    }
}

fn config(rules: Vec<AliasRule>) -> UserTsConfig {
    UserTsConfig {
        compiler_options: Some(CompilerOptions { paths: Some(rules) }),
    }
}

/// The fixture tree the resolution tests run against.
fn fixture_fs() -> FileSystem {
    let mut fs = FileSystem::new();
    for d in [
        "/",
        "/fixtures",
        "/fixtures/ts",
        "/fixtures/ts/src",
        "/fixtures/ts/app-src",
        "/fixtures/ts/components",
    ] {
        fs.add_dir(sp(d));
    }
    for f in [
        "/fixtures/ts/src/index.ts",
        "/fixtures/ts/app-src/index.tsx",
        "/fixtures/ts/app-src/utils.ts",
        "/fixtures/ts/components/index.tsx",
        "/fixtures/ts/components/button.tsx",
    ] {
        fs.add_file(sp(f));
    }
    fs
}

#[test]
fn test_resolve_alias() {
    let target = sp("app-src/01/02/03/index.ts");
    let ts_config = config(vec![
        rule("~/src/*", &["./src/scripts/*"]),
        rule("app-src/*", &["./__other-src/*"]),
        rule("ui/components/*", &["./components/*"]),
        rule("not-supported", &["./something/*"]),
    ]);
    let alias = apply_alias(&ts_config, &target);
    let expected = sp("./__other-src/01/02/03/index.ts");
    assert!(path_eq(&alias.expect("alias applies"), &expected));
}

#[test]
fn test_resolve_alias_index() {
    let cwd = sp("/fixtures/ts");
    let subject_file = sp("/fixtures/ts/src/index.ts");
    let target = sp("app-src");
    let ts_config = config(vec![rule("app-src/*", &["./app-src/*"])]);
    let fs = fixture_fs();
    let resolved = resolve_target(&fs, &cwd, &subject_file, &target, &ts_config).unwrap();
    let expected = sp("/fixtures/ts/app-src/index.tsx");
    assert!(path_eq(&resolved, &expected));
}

#[test]
fn test_resolve_dir() {
    let fs = fixture_fs();
    let subject = sp("/fixtures/ts/src/index.ts");
    let target = sp("../components");
    let resolved = resolve(&fs, &subject, &target).unwrap();
    assert!(fs.is_file(&resolved));
    assert!(path_eq(&sp("/fixtures/ts/components/index.tsx"), &resolved));
}

#[test]
fn test_resolve_file_without_ext() {
    let fs = fixture_fs();
    let subject = sp("/fixtures/ts/src/index.ts");
    let target = sp("../components/button");
    let resolved = resolve(&fs, &subject, &target).unwrap();
    assert!(fs.is_file(&resolved));
    assert!(path_eq(&sp("/fixtures/ts/components/button.tsx"), &resolved));
}

#[test]
fn test_realpath() {
    let input = sp("app-src/index.tsx");
    let p = normalize(&input).unwrap();
    assert!(path_eq(&p, &sp("app-src/index.tsx")));
}

#[test]
fn test_resolve_relative() {
    let fs = fixture_fs();
    let subject = sp("/fixtures/ts/src/index.ts");
    let target = sp("../app-src/utils");
    let resolved = resolve(&fs, &subject, &target).unwrap();
    assert!(fs.is_file(&resolved));
    assert!(path_eq(&sp("/fixtures/ts/app-src/utils.ts"), &resolved));
}

#[test]
fn test_alias_rewrite_then_expansion() {
    let mut fs = FileSystem::new();
    for d in ["/", "/base", "/base/src", "/base/src/scripts"] {
        fs.add_dir(sp(d));
    }
    fs.add_file(sp("/base/src/scripts/foo.ts"));
    let ts_config = config(vec![rule("~/src/*", &["./src/scripts/*"])]);
    let target = sp("~/src/foo");
    let alias = apply_alias(&ts_config, &target).expect("alias applies");
    assert!(path_eq(&alias, &sp("./src/scripts/foo")));
    let cwd = sp("/base");
    let subject = sp("/base/main.ts");
    let resolved = resolve_target(&fs, &cwd, &subject, &target, &ts_config).unwrap();
    assert!(path_eq(&resolved, &sp("/base/src/scripts/foo.ts")));
}

#[test]
fn test_expansion_prefers_index_ts() {
    let mut fs = FileSystem::new();
    fs.add_dir(sp("/d"));
    fs.add_file(sp("/d/index.ts"));
    fs.add_file(sp("/d/index.tsx"));
    let expanded = expand_path_with_index_or_extension(&fs, &sp("/d")).unwrap();
    assert!(path_eq(&expanded, &sp("/d/index.ts")));
}

#[test]
fn test_expansion_prefers_tsx_extension() {
    let mut fs = FileSystem::new();
    fs.add_dir(sp("/d"));
    fs.add_file(sp("/d/name.tsx"));
    fs.add_file(sp("/d/name.ts"));
    let expanded = expand_path_with_index_or_extension(&fs, &sp("/d/name")).unwrap();
    assert!(path_eq(&expanded, &sp("/d/name.tsx")));
}

#[test]
fn test_resolve_not_found() {
    let fs = fixture_fs();
    let subject = sp("/fixtures/ts/src/index.ts");
    let target = sp("../missing/nothing");
    let err = resolve(&fs, &subject, &target).unwrap_err();
    assert!(matches!(err, ResolveError::NotFound));
}

#[test]
fn test_resolve_io_failure() {
    let mut fs = fixture_fs();
    fs.add_denied(sp("/fixtures/ts/locked"));
    let subject = sp("/fixtures/ts/src/index.ts");
    let target = sp("../locked");
    let err = resolve(&fs, &subject, &target).unwrap_err();
    assert!(matches!(err, ResolveError::IOFailure));
}

#[test]
fn test_absolute_specifier_bypasses_aliases() {
    let fs = fixture_fs();
    // a table that would match the specifier's first segment, were it relative
    let ts_config = config(vec![rule("fixtures/*", &["./__other-src/*"])]);
    let target = sp("/fixtures/ts/app-src/utils.ts");
    let alias = apply_alias(&ts_config, &target).expect("absolute comes back");
    assert!(path_eq(&alias, &target));
    let cwd = sp("/somewhere/else");
    let subject = sp("/another/place/main.ts");
    let resolved = resolve_target(&fs, &cwd, &subject, &target, &ts_config).unwrap();
    assert!(path_eq(&resolved, &sp("/fixtures/ts/app-src/utils.ts")));
}

#[test]
fn test_normalize_collapses_parent_segments() {
    let a = normalize(&sp("a/b/../c")).unwrap();
    let b = normalize(&sp("a/c")).unwrap();
    assert!(path_eq(&a, &b));
}

#[test]
fn test_normalize_absolute() {
    let p = normalize(&sp("/a/../b")).unwrap();
    assert!(path_eq(&p, &sp("/b")));
}

#[test]
fn test_normalize_ascent_is_an_error() {
    assert!(normalize(&sp("../x")).is_err());
    assert!(normalize(&sp("/..")).is_err());
    assert!(normalize(&sp("a/../..")).is_err());
}

#[test]
fn test_resolve_ascent_is_not_found() {
    // the joined path climbs above the start of a relative subject:
    // an error value comes back, not a crash
    let fs = fixture_fs();
    let err = resolve(&fs, &sp("relative.ts"), &sp("../../x")).unwrap_err();
    assert!(matches!(err, ResolveError::NotFound));
}

#[test]
fn test_resolve_from_directory_subject() {
    // a subject without an extension is itself the base directory
    let fs = fixture_fs();
    let subject = sp("/fixtures/ts/src");
    let target = sp("../components");
    let resolved = resolve(&fs, &subject, &target).unwrap();
    assert!(path_eq(&resolved, &sp("/fixtures/ts/components/index.tsx")));
}

#[test]
fn test_alias_key_without_wildcard_never_matches() {
    let ts_config = config(vec![rule("not-supported", &["./something/*"])]);
    assert!(apply_alias(&ts_config, &sp("not-supported")).is_none());
    assert!(apply_alias(&ts_config, &sp("not-supported/x")).is_none());
}

#[test]
fn test_alias_substitution_with_leading_wildcard_is_unusable() {
    let ts_config = config(vec![rule("a/*", &["*"])]);
    assert!(apply_alias(&ts_config, &sp("a/b")).is_none());
}

#[test]
fn test_invalid_alias_keys_are_reported() {
    let ts_config = config(vec![
        rule("~/src/*", &["./src/*"]),
        rule("not-supported", &["./something/*"]),
        rule("also/bad", &["./elsewhere/*"]),
    ]);
    let invalid = depg::resolve::invalid_alias_keys(&ts_config.paths());
    assert_eq!(invalid.len(), 2);
    assert!(path_eq(&invalid[0], &sp("not-supported")));
    assert!(path_eq(&invalid[1], &sp("also/bad")));
}

#[test]
fn test_alias_declaration_order_wins() {
    let ts_config = config(vec![
        rule("a/*", &["./first/*"]),
        rule("a/*", &["./second/*"]),
    ]);
    let alias = apply_alias(&ts_config, &sp("a/x")).expect("alias applies");
    assert!(path_eq(&alias, &sp("./first/x")));
}
