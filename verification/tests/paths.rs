use auto_skip::path::FilePath;

fn path(text: &str) -> FilePath {
    let (anchor, rest) = match text.strip_prefix('/') {
        Some(rest) => ("/", rest),
        None => ("", text),
    };
    let parts = rest.split('/').filter(|part| !part.is_empty()).map(|part| part.to_string()).collect();
    FilePath::new(anchor.to_string(), parts)
}

fn names(list: &[&str]) -> Vec<String> {
    list.iter().map(|name| name.to_string()).collect()
}

#[test]
fn display_joins_components() {
    assert_eq!(path("/w/src/lib.rs").display(), "/w/src/lib.rs");
    assert_eq!(path("src/lib.rs").display(), "src/lib.rs");
    assert_eq!(path("/").display(), "/");
    assert_eq!(path("").display(), "");
}

#[test]
fn parent_drops_the_last_component() {
    assert_eq!(path("/w/src/lib.rs").parent(), Some(path("/w/src")));
    assert_eq!(path("lib.rs").parent(), Some(path("")));
    assert_eq!(path("/").parent(), None);
    assert_eq!(path("").parent(), None);
}

#[test]
fn join_adds_a_component() {
    assert_eq!(path("/w").join("src"), path("/w/src"));
    assert_eq!(path("").join("Cargo.toml"), path("Cargo.toml"));
}

#[test]
fn join_from_adds_the_rest_of_a_list() {
    let list = names(&["crate", "model", "admin"]);
    assert_eq!(path("/w/src").join_from(&list, 1), path("/w/src/model/admin"));
    assert_eq!(path("/w/src").join_from(&list, 3), path("/w/src"));
}

#[test]
fn with_extension_replaces_the_extension() {
    assert_eq!(path("/w/src/model").with_extension("rs"), path("/w/src/model.rs"));
    assert_eq!(path("/w/serde-1.0").with_extension("rs"), path("/w/serde-1.rs"));
    assert_eq!(path("a.b.c").with_extension("rs"), path("a.b.rs"));
}

#[test]
fn with_extension_keeps_a_leading_dot() {
    assert_eq!(path("/w/.cargo").with_extension("rs"), path("/w/.cargo.rs"));
}

#[test]
fn with_extension_needs_a_file_name() {
    assert_eq!(path("/").with_extension("rs"), path("/"));
    assert_eq!(path("").with_extension("rs"), path(""));
    assert_eq!(path("..").with_extension("rs"), path(".."));
    assert_eq!(path(".").with_extension("rs"), path("."));
}

#[test]
fn path_operations_are_those_of_std() {
    for text in ["/w/src/lib.rs", "src/a.b/c", "../x", "..", "/", "", ".hidden", "/a.b", "w.x.y"] {
        let ours = path(text);
        let std = std::path::Path::new(text);
        assert_eq!(ours.display(), std.display().to_string());
        assert_eq!(
            ours.parent().map(|p| p.display()),
            std.parent().map(|p| p.display().to_string())
        );
        assert_eq!(ours.with_extension("rs").display(), std.with_extension("rs").display().to_string());
        assert_eq!(ours.with_extension("").display(), std.with_extension("").display().to_string());
        assert_eq!(ours.join("mod.rs").display(), std.join("mod.rs").display().to_string());
    }
}

#[test]
fn same_compares_anchor_and_components() {
    assert!(path("/w/src").same(&path("/w/src")));
    assert!(!path("/w/src").same(&path("w/src")));
    assert!(!path("/w/src").same(&path("/w")));
    assert!(!path("/w/src").same(&path("/w/lib")));
}

#[test]
fn only_the_empty_path_is_empty() {
    assert!(path("").is_empty());
    assert!(!path("/").is_empty());
    assert!(!path("a").is_empty());
}

#[test]
fn duplicate_is_the_same_path() {
    assert_eq!(path("/w/src").duplicate(), path("/w/src"));
}
