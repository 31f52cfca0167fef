use auto_skip::{
    answers::{Answers, Question, Step},
    path::FilePath,
    resolve::{
        collect_from_tree, collect_resolved_files, find_crate_src_dir, resolve_import,
        resolve_path_to_file, resolve_tree, resolve_use_for_type, try_module_file,
    },
    syntax::{ImportTree, SourceItem},
};

fn path(text: &str) -> FilePath {
    let (anchor, rest) = match text.strip_prefix('/') {
        Some(rest) => ("/", rest),
        None => ("", text),
    };
    let parts = rest.split('/').filter(|part| !part.is_empty()).map(|part| part.to_string()).collect();
    FilePath::new(anchor.to_string(), parts)
}

fn names(text: &str) -> Vec<String> {
    text.split("::").filter(|name| !name.is_empty()).map(|name| name.to_string()).collect()
}

/// Answers questions for files, on a disk that holds `files`, until there is a result.
fn settle<T>(files: &[&str], run: impl Fn(&Answers) -> Step<T, Question>) -> T {
    let mut answers = Answers::new();
    loop {
        let question = match run(&answers) {
            Step::Done(result) => return result,
            Step::Ask(question) => question,
        };
        match question {
            Question::IsFile { path } => {
                let is_file = files.contains(&path.display().as_str());
                answers.note_file(path, is_file);
            }
            Question::Source { path } => panic!("asked for the source of {}", path.display()),
        }
    }
}

fn tree(text: &str) -> ImportTree {
    match auto_skip::parse::parse_source(text).unwrap().pop() {
        Some(SourceItem::Import { tree }) => tree,
        _ => panic!("no import"),
    }
}

fn resolve(files: &[&str], segments: &str, current: &str) -> Option<FilePath> {
    settle(files, |answers| resolve_path_to_file(answers, &names(segments), &path(current)))
}

fn collect(files: &[&str], import: &str, current: &str) -> Vec<String> {
    let tree = tree(import);
    let found = settle(files, |answers| collect_resolved_files(answers, &tree, &path(current)));
    found.iter().map(|file| file.display()).collect()
}

#[test]
fn src_dir_of_the_innermost_manifest() {
    let files = ["/w/Cargo.toml", "/w/inner/Cargo.toml"];
    let find = |file: &str| settle(&files, |answers| find_crate_src_dir(answers, &path(file)));
    assert_eq!(find("/w/inner/src/a/b.rs"), Some(path("/w/inner/src")));
    assert_eq!(find("/w/src/lib.rs"), Some(path("/w/src")));
    assert_eq!(find("/other/lib.rs"), None);
    assert_eq!(find("/"), None);
}

#[test]
fn src_dir_of_a_relative_file() {
    let found = settle(&["Cargo.toml"], |answers| find_crate_src_dir(answers, &path("src/lib.rs")));
    assert_eq!(found, Some(path("src")));
}

#[test]
fn src_dir_asks_for_the_innermost_manifest_first() {
    let step = find_crate_src_dir(&Answers::new(), &path("/w/src/lib.rs"));
    assert_eq!(step, Step::Ask(Question::IsFile { path: path("/w/src/Cargo.toml") }));
}

#[test]
fn module_file_prefers_the_flat_one() {
    let find = |files: &[&str]| settle(files, |answers| try_module_file(answers, &path("/w/src/m")));
    assert_eq!(find(&["/w/src/m.rs", "/w/src/m/mod.rs"]), path("/w/src/m.rs"));
    assert_eq!(find(&["/w/src/m/mod.rs"]), path("/w/src/m/mod.rs"));
    assert_eq!(find(&[]), path("/w/src/m.rs"));
}

#[test]
fn crate_paths_start_at_the_src_dir() {
    let files = ["/w/Cargo.toml", "/w/src/model/admin/order.rs"];
    let found = resolve(&files, "crate::model::admin::order", "/w/src/dto/order.rs");
    assert_eq!(found, Some(path("/w/src/model/admin/order.rs")));
    assert_eq!(resolve(&[], "crate::model", "/w/src/lib.rs"), None);
}

#[test]
fn self_paths_start_at_the_directory() {
    assert_eq!(resolve(&[], "self::a::b", "/w/src/m/mod.rs"), Some(path("/w/src/m/a/b.rs")));
    assert_eq!(resolve(&["/w/src/m/mod.rs"], "self", "/w/src/m/x.rs"), Some(path("/w/src/m/mod.rs")));
    assert_eq!(resolve(&[], "self::a", "/"), None);
}

#[test]
fn super_paths_go_up() {
    assert_eq!(resolve(&[], "super::x", "/w/src/a/b.rs"), Some(path("/w/src/a/x.rs")));
    assert_eq!(resolve(&[], "super::super::x", "/w/src/a/b.rs"), Some(path("/w/src/x.rs")));
    assert_eq!(resolve(&[], "super::super::super::x", "/w/src/a/b.rs"), Some(path("/w/x.rs")));
    assert_eq!(resolve(&[], "super::super::x", "/b.rs"), None);
    assert_eq!(resolve(&[], "super::a::super", "/w/src/b.rs"), Some(path("/w/src/a/super.rs")));
    assert_eq!(resolve(&[], "super::x", "/w/src/a/b.rs"), resolve(&[], "self::x", "/w/src/a/b.rs"));
}

#[test]
fn other_paths_have_no_file() {
    assert_eq!(resolve(&["/w/Cargo.toml"], "serde::Serialize", "/w/src/lib.rs"), None);
    assert_eq!(resolve(&[], "", "/w/src/lib.rs"), None);
    let step = resolve_path_to_file(&Answers::new(), &names("serde"), &path("/w/src/lib.rs"));
    assert_eq!(step, Step::Done(None));
}

#[test]
fn collect_falls_back_to_the_parent() {
    let files = ["/w/Cargo.toml", "/w/src/entity/foo.rs", "/w/src/entity/mod.rs"];
    let found = collect(&files, "use crate::entity::foo;", "/w/src/lib.rs");
    assert_eq!(found, ["/w/src/entity/foo.rs"]);
    let found = collect(&files, "use crate::entity::foo::Model;", "/w/src/lib.rs");
    assert_eq!(found, ["/w/src/entity/foo.rs"]);
    let found = collect(&files, "use crate::entity::Model;", "/w/src/lib.rs");
    assert_eq!(found, ["/w/src/entity/mod.rs"]);
}

#[test]
fn collect_finds_one_file_per_leaf() {
    let files = ["/w/Cargo.toml", "/w/src/foo/mod.rs", "/w/src/foo/a.rs", "/w/src/foo/b.rs"];
    let found = collect(&files, "use crate::foo::{a, b};", "/w/src/lib.rs");
    assert_eq!(found, ["/w/src/foo/a.rs", "/w/src/foo/b.rs"]);
    let found = collect(&files, "use crate::foo::{a, Thing, gone::X};", "/w/src/lib.rs");
    assert_eq!(found, ["/w/src/foo/a.rs", "/w/src/foo/mod.rs"]);
}

#[test]
fn collect_goes_by_the_original_name() {
    let files = ["/w/Cargo.toml", "/w/src/a.rs", "/w/src/b.rs"];
    assert_eq!(collect(&files, "use crate::a as b;", "/w/src/lib.rs"), ["/w/src/a.rs"]);
}

#[test]
fn collect_takes_groups_leaf_by_leaf() {
    let files = ["/w/Cargo.toml", "/w/src/a.rs", "/w/src/b.rs"];
    assert_eq!(collect(&files, "use crate::{b, a};", "/w/src/lib.rs"), ["/w/src/b.rs", "/w/src/a.rs"]);
    let one_by_one: Vec<String> = ["use crate::b;", "use crate::a;"]
        .iter()
        .flat_map(|import| collect(&files, import, "/w/src/lib.rs"))
        .collect();
    assert_eq!(collect(&files, "use crate::{b, a};", "/w/src/lib.rs"), one_by_one);
}

#[test]
fn collect_ignores_globs_and_missing_files() {
    let files = ["/w/Cargo.toml", "/w/src/a.rs"];
    assert_eq!(collect(&files, "use crate::a::*;", "/w/src/lib.rs"), Vec::<String>::new());
    assert_eq!(collect(&files, "use crate::gone::Thing;", "/w/src/lib.rs"), Vec::<String>::new());
    assert_eq!(collect(&files, "use serde::Serialize;", "/w/src/lib.rs"), Vec::<String>::new());
    assert_eq!(collect(&files, "use serde;", "/w/src/lib.rs"), Vec::<String>::new());
}

#[test]
fn collect_keeps_what_came_before_a_question() {
    let mut answers = Answers::new();
    answers.note_file(path("/w/src/a.rs"), true);
    answers.note_file(path("/w/src.rs"), false);
    answers.note_file(path("/w/src/mod.rs"), false);
    let mut results = vec![path("/first")];
    let step = collect_from_tree(
        &answers,
        &tree("use self::{a, b};"),
        &[],
        &path("/w/src/lib.rs"),
        &mut results,
    );
    assert_eq!(step, Step::Ask(Question::IsFile { path: path("/w/src/b.rs") }));
    assert_eq!(results, vec![path("/first"), path("/w/src/a.rs")]);
}

#[test]
fn use_for_type_points_to_the_module() {
    let files = ["/w/Cargo.toml", "/w/src/a.rs", "/w/src/b/mod.rs"];
    let point = |import: &str, wanted: &str| {
        let tree = tree(import);
        settle(&files, |answers| resolve_use_for_type(answers, &tree, wanted, &path("/w/src/lib.rs")))
    };
    assert_eq!(point("use crate::a::Foo;", "Foo"), Some(path("/w/src/a.rs")));
    assert_eq!(point("use crate::{a::Bar, b::Foo};", "Foo"), Some(path("/w/src/b/mod.rs")));
    assert_eq!(point("use crate::a::Foo as Baz;", "Baz"), Some(path("/w/src/a.rs")));
    assert_eq!(point("use crate::a::Foo as Baz;", "Foo"), None);
    assert_eq!(point("use crate::a::*;", "Foo"), None);
    assert_eq!(point("use crate::a::Bar;", "Foo"), None);
    assert_eq!(point("use serde::Foo;", "Foo"), None);
}

#[test]
fn renamed_import_keeps_its_file_and_its_name() {
    let files = ["/w/Cargo.toml", "/w/src/foo.rs"];
    let import = |text: &str, wanted: &str| {
        let tree = tree(text);
        settle(&files, |answers| resolve_import(answers, &tree, &[], wanted, &path("/w/src/lib.rs")))
    };
    let plain = Some((path("/w/src/foo.rs"), "Bar".to_string()));
    assert_eq!(import("use crate::foo::Bar;", "Bar"), plain);
    assert_eq!(import("use crate::foo::Bar as Baz;", "Baz"), plain);
    assert_eq!(import("use crate::{x::Y, foo::{Bar as Baz}};", "Baz"), plain);
    assert_eq!(import("use crate::foo::Bar as Baz;", "Bar"), None);
}

#[test]
fn resolve_tree_starts_from_a_prefix() {
    let found = settle(&[], |answers| {
        resolve_tree(answers, &tree("use a::Foo;"), &names("self"), "Foo", &path("/w/src/lib.rs"))
    });
    assert_eq!(found, Some(path("/w/src/a.rs")));
}

#[test]
fn unrelated_imports_ask_nothing() {
    let step = resolve_use_for_type(
        &Answers::new(),
        &tree("use crate::{a::Bar, b::*};"),
        "Foo",
        &path("/w/src/lib.rs"),
    );
    assert_eq!(step, Step::Done(None));
}

#[test]
fn first_answer_counts() {
    let mut answers = Answers::new();
    assert_eq!(answers.is_file(&path("/a")), Step::Ask(Question::IsFile { path: path("/a") }));
    answers.note_file(path("/a"), true);
    answers.note_file(path("/a"), false);
    assert_eq!(answers.is_file(&path("/a")), Step::Done(true));
    assert_eq!(answers.source(&path("/a")), Step::Ask(Question::Source { path: path("/a") }));
    answers.note_source(path("/a"), None);
    assert_eq!(answers.source(&path("/a")), Step::Done(None));
}
