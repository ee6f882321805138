use depg::path::{parse_path, path_eq, Path};

#[test]
fn test_parse_relative() {
    let p = parse_path("app-src/01/index.ts");
    assert!(!p.absolute);
    assert_eq!(p.segments, vec!["app-src", "01", "index.ts"]);
}

#[test]
fn test_parse_absolute() {
    let p = parse_path("/fixtures/ts");
    assert!(p.absolute);
    assert_eq!(p.segments, vec!["fixtures", "ts"]);
}

#[test]
fn test_parse_keeps_only_a_leading_dot() {
    let p = parse_path("./src/./x");
    assert!(!p.absolute);
    assert_eq!(p.segments, vec![".", "src", "x"]);
    let q = parse_path("/./a");
    assert!(q.absolute);
    assert_eq!(q.segments, vec!["a"]);
}

#[test]
fn test_parse_drops_empty_pieces() {
    let p = parse_path("a//b/");
    assert_eq!(p.segments, vec!["a", "b"]);
    let root = parse_path("/");
    assert!(root.absolute);
    assert!(root.segments.is_empty());
    let empty = parse_path("");
    assert!(!empty.absolute);
    assert!(empty.segments.is_empty());
}

#[test]
fn test_parse_keeps_parent_segments() {
    let p = parse_path("../a/../b");
    assert_eq!(p.segments, vec!["..", "a", "..", "b"]);
}

#[test]
fn test_render_round_trip() {
    for s in ["/fixtures/ts/app-src/index.tsx", "a/b/c", "./src/x", "..", "/", ""] {
        let p = parse_path(s);
        let back = parse_path(&p.render());
        assert!(path_eq(&p, &back));
    }
    assert_eq!(parse_path("/a/b").render(), "/a/b");
    assert_eq!(parse_path("a").render(), "a");
}

#[test]
fn test_path_eq_distinguishes() {
    let a: Path = parse_path("/a/b");
    assert!(path_eq(&a, &parse_path("/a/b")));
    assert!(!path_eq(&a, &parse_path("a/b")));
    assert!(!path_eq(&a, &parse_path("/a/c")));
    assert!(!path_eq(&a, &parse_path("/a/b/c")));
}
