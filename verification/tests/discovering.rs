use auto_skip::{
    answers::{Answers, Question, Step},
    discover::{
        discover_other_type_field_info, discover_other_type_fields, discover_with_fallback,
        field_names,
    },
    fields::{extract_named_fields, extract_named_fields_with_types, FieldMap, FieldType, NameSet},
    parse::parse_source,
    path::FilePath,
    search::{
        find_definition, find_in_scope, find_named_fields_in_file,
        find_named_fields_with_types_in_file,
    },
    syntax::SourceItem,
};

fn path(text: &str) -> FilePath {
    let (anchor, rest) = match text.strip_prefix('/') {
        Some(rest) => ("/", rest),
        None => ("", text),
    };
    let parts = rest.split('/').filter(|part| !part.is_empty()).map(|part| part.to_string()).collect();
    FilePath::new(anchor.to_string(), parts)
}

fn names(text: &str) -> Vec<String> {
    text.split("::").filter(|name| !name.is_empty()).map(|name| name.to_string()).collect()
}

/// A disk: paths of files, each with its text.
type Disk<'a> = &'a [(&'a str, &'a str)];

fn text_at<'a>(disk: Disk<'a>, path: &FilePath) -> Option<&'a str> {
    disk.iter().find(|file| file.0 == path.display()).map(|file| file.1)
}

/// Notes the answer to a question.
fn look_up(disk: Disk, answers: &mut Answers, question: Question) {
    match question {
        Question::IsFile { path } => {
            let is_file = text_at(disk, &path).is_some();
            answers.note_file(path, is_file);
        }
        Question::Source { path } => {
            let source = text_at(disk, &path).and_then(parse_source);
            answers.note_source(path, source);
        }
    }
}

/// The fields as sorted lines of name and type.
fn listing(fields: &FieldMap) -> Vec<String> {
    let mut lines: Vec<String> = fields
        .names()
        .names()
        .iter()
        .map(|name| match fields.get(name) {
            Some(FieldType::Declared(ty)) => format!("{}: {}", name, short(ty)),
            Some(FieldType::Unit) => format!("{}: ()", name),
            None => panic!("{} has no type", name),
        })
        .collect();
    lines.sort();
    lines
}

/// The last name of a path type.
fn short(ty: &syn::Type) -> String {
    match ty {
        syn::Type::Path(p) => p.path.segments.last().unwrap().ident.to_string(),
        _ => "?".to_string(),
    }
}

fn sorted(set: &NameSet) -> Vec<String> {
    let mut list = set.names().clone();
    list.sort();
    list
}

/// The discovered fields and what was asked on the way.
fn discover_asking(disk: Disk, origin: &str, ty: &str) -> (Option<Vec<String>>, Vec<Question>) {
    let mut answers = Answers::new();
    let mut asked = Vec::new();
    loop {
        let question = match discover_other_type_field_info(&answers, &path(origin), &names(ty)) {
            Step::Done(found) => return (found.map(|fields| listing(&fields)), asked),
            Step::Ask(question) => question,
        };
        assert!(!asked.contains(&question), "asked twice");
        match &question {
            Question::IsFile { path } => asked.push(Question::IsFile { path: path.duplicate() }),
            Question::Source { path } => asked.push(Question::Source { path: path.duplicate() }),
        }
        look_up(disk, &mut answers, question);
    }
}

fn discover(disk: Disk, origin: &str, ty: &str) -> Option<Vec<String>> {
    discover_asking(disk, origin, ty).0
}

fn discover_names(disk: Disk, origin: &str, ty: &str) -> Option<Vec<String>> {
    let mut answers = Answers::new();
    loop {
        let question = match discover_other_type_fields(&answers, &path(origin), &names(ty)) {
            Step::Done(found) => return found.map(|set| sorted(&set)),
            Step::Ask(question) => question,
        };
        look_up(disk, &mut answers, question);
    }
}

fn list(lines: &[&str]) -> Option<Vec<String>> {
    Some(lines.iter().map(|line| line.to_string()).collect())
}

const BASIC: &str = "mod auto_skip_basic {
    use super::*;
    struct Foo { field1: String, field2: i64 }
    struct Bar { field1: String, field2: i64, id: i64, creator: Option<String> }
}
mod auto_skip_into {
    struct Foo { field1: String, field2: i64 }
}
fn main() {}";

#[test]
fn type_in_an_inline_module_of_the_file() {
    let disk = [("/w/examples/auto_skip.rs", BASIC)];
    let origin = "/w/examples/auto_skip.rs";
    assert_eq!(discover(&disk, origin, "Foo"), list(&["field1: String", "field2: i64"]));
    assert_eq!(discover_names(&disk, origin, "Foo"), list(&["field1", "field2"]));
    assert_eq!(discover_names(&disk, origin, "Bar"), list(&["creator", "field1", "field2", "id"]));
}

#[test]
fn type_in_the_module_that_is_named() {
    let text = "mod a { pub struct Foo { pub x: u8 } } mod b { pub struct Foo { pub y: u8 } }";
    let disk = [("/w/src/lib.rs", text)];
    assert_eq!(discover(&disk, "/w/src/lib.rs", "a::Foo"), list(&["x: u8"]));
    assert_eq!(discover(&disk, "/w/src/lib.rs", "b::Foo"), list(&["y: u8"]));
    assert_eq!(discover(&disk, "/w/src/lib.rs", "self::b::Foo"), list(&["y: u8"]));
    assert_eq!(discover_names(&disk, "/w/src/lib.rs", "b::Foo"), list(&["y"]));
    assert_eq!(discover(&disk, "/w/src/lib.rs", "Foo"), list(&["x: u8"]));
    assert_eq!(discover(&disk, "/w/src/lib.rs", "self::Foo"), list(&["x: u8"]));
    assert_eq!(discover(&disk, "/w/src/lib.rs", "b::FooEx"), list(&["y: u8"]));
}

#[test]
fn type_in_a_module_of_a_module() {
    let text = "struct Foo { w: u8 }
        mod a { pub struct Foo { x: u8 } pub mod b { pub struct Foo { y: u8 } } }
        mod c { pub type Foo = Bar; pub struct Bar { z: u8 } }";
    let disk = [("/w/src/lib.rs", text)];
    assert_eq!(discover(&disk, "/w/src/lib.rs", "a::b::Foo"), list(&["y: u8"]));
    assert_eq!(discover(&disk, "/w/src/lib.rs", "a::Foo"), list(&["x: u8"]));
    assert_eq!(discover(&disk, "/w/src/lib.rs", "c::Foo"), list(&["z: u8"]));
}

#[test]
fn other_paths_go_by_the_last_segment() {
    let text = "mod a { pub struct Foo { x: u8 } } mod b { pub struct Bar { y: u8 } }";
    let disk = [("/w/src/lib.rs", text)];
    assert_eq!(discover(&disk, "/w/src/lib.rs", "c::Foo"), list(&["x: u8"]));
    assert_eq!(discover(&disk, "/w/src/lib.rs", "b::Foo"), list(&["x: u8"]));
    assert_eq!(discover(&disk, "/w/src/lib.rs", "b::c::Bar"), list(&["y: u8"]));
    assert_eq!(discover(&disk, "/w/src/lib.rs", "crate::b::Bar"), list(&["y: u8"]));
}

#[test]
fn modules_nested_in_the_named_one_are_not_entered_first() {
    let text = "pub enum Foo { W } mod b { pub use super::Foo; pub mod c { pub enum Foo { Z } } }";
    let disk = [("/w/src/lib.rs", text)];
    assert_eq!(discover(&disk, "/w/src/lib.rs", "b::Foo"), list(&["W: ()"]));
    assert_eq!(discover(&disk, "/w/src/lib.rs", "b::c::Foo"), list(&["Z: ()"]));
    let disk = [
        ("/w/src/a.rs", "mod x; pub enum Foo { V }"),
        ("/w/src/a/x.rs", text),
    ];
    assert_eq!(discover(&disk, "/w/src/a/x.rs", "b::Foo"), list(&["W: ()"]));
    let text = "mod b { pub mod c { pub enum Foo { Z } } }";
    let disk = [("/w/src/lib.rs", text)];
    assert_eq!(discover(&disk, "/w/src/lib.rs", "b::Foo"), list(&["Z: ()"]));
}

#[test]
fn what_the_file_gives_wins() {
    let disk = [
        ("/w/Cargo.toml", ""),
        ("/w/src/lib.rs", "use crate::x; enum Foo { W } mod b { enum Bar { B } }"),
        ("/w/src/x.rs", "pub enum Foo { V } pub enum FooEx { V }"),
    ];
    assert_eq!(discover(&disk, "/w/src/lib.rs", "Foo"), list(&["W: ()"]));
    assert_eq!(discover(&disk, "/w/src/lib.rs", "x::Foo"), list(&["W: ()"]));
    assert_eq!(discover(&disk, "/w/src/lib.rs", "b::Foo"), list(&["W: ()"]));
    assert_eq!(discover(&disk, "/w/src/lib.rs", "FooEx"), list(&["V: ()"]));
}

#[test]
fn type_that_the_named_module_imports() {
    let text = "enum Foo { W } mod b { pub use crate::x::Foo; pub use crate::x::Foo as Bar; }";
    let disk = [
        ("/w/Cargo.toml", ""),
        ("/w/src/lib.rs", text),
        ("/w/src/x.rs", "pub enum Foo { V }"),
    ];
    assert_eq!(discover(&disk, "/w/src/lib.rs", "b::Foo"), list(&["V: ()"]));
    assert_eq!(discover(&disk, "/w/src/lib.rs", "b::Bar"), list(&["V: ()"]));
    assert_eq!(discover(&disk, "/w/src/lib.rs", "Foo"), list(&["W: ()"]));
}

#[test]
fn path_that_fits_more_than_one_module() {
    let text = "mod a { mod b { enum Foo { X } } } mod b { enum Foo { Y } }";
    let disk = [("/w/Cargo.toml", ""), ("/w/src/lib.rs", text)];
    assert_eq!(discover(&disk, "/w/src/lib.rs", "b::Foo"), list(&["X: ()"]));
    assert_eq!(discover(&disk, "/w/src/lib.rs", "self::b::Foo"), list(&["X: ()"]));
    assert_eq!(discover(&disk, "/w/src/lib.rs", "a::b::Foo"), list(&["X: ()"]));
    assert_eq!(discover(&disk, "/w/src/lib.rs", "crate::b::Foo"), list(&["Y: ()"]));
    let text = "mod a { enum Foo { X } } mod b { enum Bar { Y } } mod b { enum Foo { Z } }";
    let disk = [("/w/src/lib.rs", text)];
    assert_eq!(discover(&disk, "/w/src/lib.rs", "b::Foo"), list(&["X: ()"]));
}

#[test]
fn path_whose_first_name_may_mean_another_module() {
    let file = |outer: &str| {
        format!("struct Foo {{ w: u8 }} mod b {{ pub struct Foo {{ y: u8 }} }} {}", outer)
    };
    let found = |outer: &str, ty: &str| {
        let text = file(outer);
        discover(&[("/w/Cargo.toml", ""), ("/w/src/lib.rs", text.as_str())], "/w/src/lib.rs", ty)
    };
    let root = list(&["w: u8"]);
    let inline = list(&["y: u8"]);
    assert_eq!(found("mod outer { use crate::x::b; }", "b::Foo"), root);
    assert_eq!(found("mod outer { use crate::x::b; }", "self::b::Foo"), root);
    assert_eq!(found("mod outer { mod inner { use crate::x::{a, c as b}; } }", "b::Foo"), root);
    assert_eq!(found("mod outer { use crate::x::b::{self}; }", "b::Foo"), root);
    assert_eq!(found("mod outer { mod b; }", "b::Foo"), root);
    assert_eq!(found("mod outer { mod b {} }", "b::Foo"), root);
    assert_eq!(found("mod outer { use crate::x::b; }", "crate::b::Foo"), inline);
    assert_eq!(found("mod outer { use super::*; }", "b::Foo"), inline);
    assert_eq!(found("mod outer { use crate::b::Foo; mod c; struct b; }", "b::Foo"), inline);
    assert_eq!(found("use crate::x::c;", "b::Foo"), inline);
}

#[test]
fn names_of_what_has_been_discovered() {
    let items = parse_source("struct A { x: u8, y: u8 }").unwrap();
    let mut answers = Answers::new();
    answers.note_source(path("/f.rs"), Some(items));
    let found = discover_other_type_field_info(&answers, &path("/f.rs"), &names("A"));
    let fields = discover_other_type_fields(&answers, &path("/f.rs"), &names("A"));
    assert_eq!(field_names(found), fields);
    assert_eq!(field_names(Step::Done(None)), Step::Done(None));
    let open = Question::Source { path: path("/g.rs") };
    let asked = Question::Source { path: path("/g.rs") };
    assert_eq!(field_names(Step::Ask(open)), Step::Ask(asked));
}

#[test]
fn raw_generated_type_has_the_fields_of_its_companion() {
    let disk = [("/w/src/lib.rs", "struct r#Model { id: i64 } struct Model { no: u8 }")];
    assert_eq!(discover(&disk, "/w/src/lib.rs", "r#ModelEx"), list(&["id: i64"]));
    assert_eq!(discover(&disk, "/w/src/lib.rs", "r#Model"), list(&["id: i64"]));
    assert_eq!(discover_names(&disk, "/w/src/lib.rs", "r#ModelEx"), list(&["id"]));
    assert_eq!(discover(&disk, "/w/src/lib.rs", "r#MissingEx"), None);
}

#[test]
fn generated_type_with_a_name_beyond_ascii() {
    let disk = [("/w/src/lib.rs", "struct Modèle { id: i64 }")];
    assert_eq!(discover(&disk, "/w/src/lib.rs", "ModèleEx"), list(&["id: i64"]));
    assert_eq!(discover_names(&disk, "/w/src/lib.rs", "ModèleEx"), list(&["id"]));
}

#[test]
fn crate_path_in_the_root_of_the_crate() {
    let text = "mod a { pub struct Foo { x: u8 } } mod b { pub struct Foo { y: u8 } }";
    let disk = [
        ("/w/Cargo.toml", ""),
        ("/w/src/lib.rs", text),
        ("/w/src/main.rs", text),
        ("/w/src/other.rs", text),
        ("/w/src/m/lib.rs", text),
    ];
    assert_eq!(discover(&disk, "/w/src/lib.rs", "crate::b::Foo"), list(&["y: u8"]));
    assert_eq!(discover(&disk, "/w/src/main.rs", "crate::b::Foo"), list(&["y: u8"]));
    assert_eq!(discover(&disk, "/w/src/other.rs", "crate::b::Foo"), list(&["x: u8"]));
    assert_eq!(discover(&disk, "/w/src/m/lib.rs", "crate::b::Foo"), list(&["x: u8"]));
    assert_eq!(discover(&disk, "/w/src/other.rs", "b::Foo"), list(&["y: u8"]));
    let (found, asked) = discover_asking(&disk, "/w/src/lib.rs", "crate::Foo");
    assert_eq!(found, list(&["x: u8"]));
    assert_eq!(asked, vec![Question::Source { path: path("/w/src/lib.rs") }]);
    let (_, asked) = discover_asking(&disk, "/w/src/lib.rs", "crate::b::Foo");
    let expected = vec![
        Question::Source { path: path("/w/src/lib.rs") },
        Question::IsFile { path: path("/w/src/Cargo.toml") },
        Question::IsFile { path: path("/w/Cargo.toml") },
    ];
    assert_eq!(asked, expected);
}

#[test]
fn scope_of_a_module_leaves_its_modules_out() {
    let answers = Answers::new();
    let items = parse_source("mod m { struct A; } struct B { x: u8 } type C = B; type D = A;").unwrap();
    let find = |wanted: &str| find_in_scope(&answers, &items, &path("/f.rs"), "", wanted);
    assert_eq!(find("A"), Step::Done(None));
    assert_eq!(find("B"), Step::Done(Some(&items[1])));
    assert_eq!(find("C"), Step::Done(Some(&items[1])));
    assert!(matches!(find("D"), Step::Done(Some(SourceItem::Struct { .. }))));
}

#[test]
fn names_are_the_keys_of_the_types() {
    let disk = [("/w/examples/auto_skip.rs", BASIC)];
    for ty in ["Foo", "Bar", "Missing"] {
        let with_types = discover(&disk, "/w/examples/auto_skip.rs", ty);
        let keys = with_types.map(|lines| {
            lines.iter().map(|line| line.split(": ").next().unwrap().to_string()).collect::<Vec<_>>()
        });
        assert_eq!(discover_names(&disk, "/w/examples/auto_skip.rs", ty), keys);
    }
}

#[test]
fn type_next_to_the_reference_needs_one_file() {
    let disk = [("/w/src/lib.rs", "use crate::a::Foo; struct Foo { x: u8 }")];
    let (found, asked) = discover_asking(&disk, "/w/src/lib.rs", "Foo");
    assert_eq!(found, list(&["x: u8"]));
    assert_eq!(asked, vec![Question::Source { path: path("/w/src/lib.rs") }]);
}

#[test]
fn enum_variants_have_the_unit_type() {
    let disk = [("/w/src/lib.rs", "enum E { A, B(u8) }")];
    assert_eq!(discover(&disk, "/w/src/lib.rs", "E"), list(&["A: ()", "B: ()"]));
    assert_eq!(discover_names(&disk, "/w/src/lib.rs", "E"), list(&["A", "B"]));
}

#[test]
fn tuple_and_unit_structs_have_no_fields() {
    let disk = [("/w/src/lib.rs", "struct T(u8); struct U;")];
    assert_eq!(discover(&disk, "/w/src/lib.rs", "T"), list(&[]));
    assert_eq!(discover(&disk, "/w/src/lib.rs", "U"), list(&[]));
}

#[test]
fn aliases_are_followed() {
    let disk = [("/w/src/lib.rs", "type MemberUser = Model; struct Model { id: u64 }")];
    assert_eq!(discover(&disk, "/w/src/lib.rs", "MemberUser"), list(&["id: u64"]));
}

#[test]
fn cyclic_aliases_come_to_an_end() {
    let disk = [("/w/src/lib.rs", "type A = B; type B = A; type C = C; type D = (u8, u8);")];
    assert_eq!(discover(&disk, "/w/src/lib.rs", "A"), None);
    assert_eq!(discover(&disk, "/w/src/lib.rs", "C"), None);
    assert_eq!(discover(&disk, "/w/src/lib.rs", "D"), None);
}

#[test]
fn imported_type() {
    let disk = [
        ("/w/Cargo.toml", ""),
        ("/w/src/lib.rs", "use crate::entity::user::Model;"),
        ("/w/src/entity/user.rs", "pub struct Model { id: i64, name: String }"),
    ];
    assert_eq!(discover(&disk, "/w/src/lib.rs", "Model"), list(&["id: i64", "name: String"]));
}

#[test]
fn type_in_an_imported_module() {
    let disk = [
        ("/w/Cargo.toml", ""),
        ("/w/src/lib.rs", "use crate::entity::user;"),
        ("/w/src/entity/user.rs", "pub struct Model { id: i64 }"),
    ];
    assert_eq!(discover(&disk, "/w/src/lib.rs", "crate::entity::user::Model"), list(&["id: i64"]));
}

#[test]
fn reexported_type() {
    let disk = [
        ("/w/Cargo.toml", ""),
        ("/w/src/lib.rs", "use crate::entity::Model;"),
        ("/w/src/entity/mod.rs", "mod user; pub use self::user::Model;"),
        ("/w/src/entity/user.rs", "pub struct Model { id: i64 }"),
    ];
    assert_eq!(discover(&disk, "/w/src/lib.rs", "Model"), list(&["id: i64"]));
}

#[test]
fn renamed_type() {
    let disk = [
        ("/w/Cargo.toml", ""),
        ("/w/src/lib.rs", "use crate::foo::Bar as Baz;"),
        ("/w/src/foo.rs", "pub struct Baz { wrong: u8 } pub struct Bar { id: i64 }"),
    ];
    assert_eq!(discover(&disk, "/w/src/lib.rs", "Baz"), list(&["id: i64"]));
    let disk = [
        ("/w/Cargo.toml", ""),
        ("/w/src/lib.rs", "use crate::entity::User;"),
        ("/w/src/entity/mod.rs", "mod user; pub use self::user::Model as User;"),
        ("/w/src/entity/user.rs", "pub struct Model { id: i64 }"),
    ];
    assert_eq!(discover(&disk, "/w/src/lib.rs", "User"), list(&["id: i64"]));
}

#[test]
fn cyclic_imports_come_to_an_end() {
    let disk = [
        ("/w/Cargo.toml", ""),
        ("/w/src/lib.rs", "use crate::a::Foo;"),
        ("/w/src/a.rs", "pub use crate::b::Foo;"),
        ("/w/src/b.rs", "pub use crate::a::Foo;"),
    ];
    assert_eq!(discover(&disk, "/w/src/lib.rs", "Foo"), None);
}

#[test]
fn files_that_do_not_parse_are_passed_over() {
    let disk = [
        ("/w/Cargo.toml", ""),
        ("/w/src/lib.rs", "use crate::a; use crate::b;"),
        ("/w/src/a.rs", "struct {"),
        ("/w/src/b.rs", "struct Foo { x: u8 }"),
    ];
    assert_eq!(discover(&disk, "/w/src/lib.rs", "Foo"), list(&["x: u8"]));
}

#[test]
fn generated_type_has_the_fields_of_its_companion() {
    let disk = [
        ("/w/Cargo.toml", ""),
        ("/w/src/lib.rs", "use crate::user;"),
        ("/w/src/user.rs", "pub struct Model { id: i64, posts: HasMany<Post> }"),
    ];
    let companion = discover(&disk, "/w/src/lib.rs", "user::Model");
    assert_eq!(companion, list(&["id: i64", "posts: HasMany"]));
    assert_eq!(discover(&disk, "/w/src/lib.rs", "user::ModelEx"), companion);
}

#[test]
fn companion_in_the_file_itself() {
    let disk = [("/w/src/lib.rs", "struct Model { id: i64 }")];
    assert_eq!(discover(&disk, "/w/src/lib.rs", "ModelEx"), list(&["id: i64"]));
}

#[test]
fn type_itself_comes_before_its_companion() {
    let disk = [("/w/src/lib.rs", "struct Model { a: u8 } struct ModelEx { b: u8 }")];
    assert_eq!(discover(&disk, "/w/src/lib.rs", "ModelEx"), list(&["b: u8"]));
}

#[test]
fn fallback_is_used_as_given() {
    let mut answers = Answers::new();
    answers.note_source(path("/f.rs"), parse_source("struct A { x: u8 }"));
    let run = |fallback: Option<&str>| {
        match discover_with_fallback(&answers, &path("/f.rs"), &names(""), "B", fallback.map(|f| f.to_string())) {
            Step::Done(found) => found.map(|fields| listing(&fields)),
            Step::Ask(_) => panic!("nothing to ask"),
        }
    };
    assert_eq!(run(Some("A")), list(&["x: u8"]));
    assert_eq!(run(None), None);
    assert_eq!(run(Some("C")), None);
}

#[test]
fn nothing_is_found_without_a_file_or_a_name() {
    let disk = [("/w/src/lib.rs", "struct Foo { x: u8 }")];
    assert_eq!(discover(&disk, "/w/src/gone.rs", "Foo"), None);
    assert_eq!(discover(&disk, "", "Foo"), None);
    assert_eq!(discover(&disk, "/w/src/lib.rs", ""), None);
    assert_eq!(discover(&disk, "/w/src/lib.rs", "Missing"), None);
    assert_eq!(discover_asking(&disk, "", "Foo").1, vec![]);
}

#[test]
fn more_answers_do_not_change_a_result() {
    let mut answers = Answers::new();
    answers.note_source(path("/w/src/lib.rs"), parse_source("struct Foo { x: u8 }"));
    let run = |answers: &Answers| {
        match discover_other_type_field_info(answers, &path("/w/src/lib.rs"), &names("Foo")) {
            Step::Done(found) => found.map(|fields| listing(&fields)),
            Step::Ask(_) => panic!("nothing to ask"),
        }
    };
    let before = run(&answers);
    answers.note_file(path("/w/Cargo.toml"), true);
    answers.note_source(path("/w/src/a.rs"), parse_source("struct Foo { y: u8 }"));
    answers.note_source(path("/w/src/lib.rs"), None);
    assert_eq!(run(&answers), before);
}

#[test]
fn question_stays_open_until_it_is_answered() {
    let mut answers = Answers::new();
    answers.note_source(path("/w/src/lib.rs"), parse_source("use self::a::Foo;"));
    let ask = |answers: &Answers| {
        match discover_other_type_fields(answers, &path("/w/src/lib.rs"), &names("Foo")) {
            Step::Ask(question) => question,
            Step::Done(_) => panic!("no question"),
        }
    };
    let open = Question::IsFile { path: path("/w/src/a.rs") };
    assert_eq!(ask(&answers), open);
    answers.note_file(path("/elsewhere"), true);
    assert_eq!(ask(&answers), open);
    answers.note_file(path("/w/src/a.rs"), true);
    assert_eq!(ask(&answers), Question::Source { path: path("/w/src/a.rs") });
}

#[test]
fn modules_of_the_same_name_are_searched_once() {
    let disk = [("/w/src/lib.rs", "mod m { struct A; } mod m { struct B { x: u8 } }")];
    assert_eq!(discover(&disk, "/w/src/lib.rs", "A"), list(&[]));
    assert_eq!(discover(&disk, "/w/src/lib.rs", "B"), None);
}

#[test]
fn visited_places_are_noted_and_not_searched_again() {
    let answers = Answers::new();
    let items = parse_source("mod outer { mod inner {} } type A = B;").unwrap();
    let mut visited = NameSet::new();
    let step = find_named_fields_in_file(&answers, &items, &path("/f.rs"), "", "A", &mut visited);
    assert_eq!(step, Step::Done(None));
    let expected = [
        "/f.rs::::A",
        "/f.rs::::B",
        "/f.rs::outer::B",
        "/f.rs::outer::inner::B",
        "/f.rs::outer::A",
        "/f.rs::outer::inner::A",
    ];
    assert_eq!(*visited.names(), expected);

    let items = parse_source("struct A { x: u8 }").unwrap();
    let step = find_definition(&answers, &items, &path("/f.rs"), "", "A", &mut visited);
    assert_eq!(step, Step::Done(None));
    let step = find_definition(&answers, &items, &path("/g.rs"), "", "A", &mut visited);
    assert_eq!(step, Step::Done(Some(&items[0])));
}

#[test]
fn visits_are_listed_behind_the_earlier_ones() {
    let answers = Answers::new();
    let items = parse_source("mod m { struct A { x: u8 } }").unwrap();
    let mut visited = NameSet::new();
    visited.insert("z".to_string());
    visited.insert("/f.rs::other::A".to_string());
    let step =
        find_named_fields_with_types_in_file(&answers, &items, &path("/f.rs"), "", "A", &mut visited);
    assert!(matches!(step, Step::Done(Some(_))));
    assert_eq!(*visited.names(), ["z", "/f.rs::other::A", "/f.rs::::A", "/f.rs::m::A"]);
    let step = find_named_fields_in_file(&answers, &items, &path("/f.rs"), "", "A", &mut visited);
    assert_eq!(step, Step::Done(None));
    assert_eq!(*visited.names(), ["z", "/f.rs::other::A", "/f.rs::::A", "/f.rs::m::A"]);
}

#[test]
fn search_with_and_without_types_agree() {
    let answers = Answers::new();
    let items = parse_source("struct A { x: u8, y: String, x: u16 }").unwrap();
    let file = path("/f.rs");
    let mut first = NameSet::new();
    let mut second = NameSet::new();
    let set = find_named_fields_in_file(&answers, &items, &file, "", "A", &mut first);
    let map = find_named_fields_with_types_in_file(&answers, &items, &file, "", "A", &mut second);
    match (set, map) {
        (Step::Done(Some(set)), Step::Done(Some(map))) => {
            assert_eq!(sorted(&set), ["x", "y"]);
            assert_eq!(listing(&map), ["x: u16", "y: String"]);
        }
        _ => panic!("not found"),
    }
    assert_eq!(first, second);
}

#[test]
fn extraction_keeps_the_last_of_two_declarations() {
    let items = parse_source("struct A { x: u8, x: u16 }").unwrap();
    match &items[0] {
        SourceItem::Struct { fields, .. } => {
            assert_eq!(sorted(&extract_named_fields(fields)), ["x"]);
            assert_eq!(listing(&extract_named_fields_with_types(fields)), ["x: u16"]);
        }
        _ => panic!("no struct"),
    }
}

#[test]
fn sets_and_maps_hold_each_name_once() {
    let mut set = NameSet::new();
    set.insert("a".to_string());
    set.insert("a".to_string());
    assert_eq!(set.names().len(), 1);
    assert!(set.contains("a"));
    assert!(!set.contains("b"));
    let ty: syn::Type = syn::parse_str("u8").unwrap();
    let mut map = FieldMap::new();
    map.insert("a".to_string(), FieldType::Unit);
    map.insert("a".to_string(), FieldType::Declared(&ty));
    assert_eq!(map.get("a"), Some(FieldType::Declared(&ty)));
    assert_eq!(map.get("b"), None);
    assert_eq!(map.names().names().len(), 1);
}
