use auto_skip::{
    discover::companion_of,
    parse::{items_from, parse_source},
    syntax::{AliasTarget, FieldDecl, FieldList, ImportTree, SourceItem},
};

fn ty(text: &str) -> syn::Type {
    syn::parse_str(text).unwrap()
}

fn s(text: &str) -> String {
    text.to_string()
}

fn name(text: &str) -> ImportTree {
    ImportTree::Name { name: s(text) }
}

fn under(prefix: &str, tree: ImportTree) -> ImportTree {
    ImportTree::Path { name: s(prefix), tree: Box::new(tree) }
}

#[test]
fn struct_with_named_fields() {
    let items = parse_source("struct Foo { field1: String, field2: Option<i64> }").unwrap();
    let fields = vec![
        FieldDecl { name: Some(s("field1")), ty: ty("String") },
        FieldDecl { name: Some(s("field2")), ty: ty("Option<i64>") },
    ];
    assert_eq!(items, vec![SourceItem::Struct { name: s("Foo"), fields: FieldList::Named { fields } }]);
}

#[test]
fn structs_without_named_fields() {
    let items = parse_source("struct A(u8); struct B;").unwrap();
    assert_eq!(
        items,
        vec![
            SourceItem::Struct { name: s("A"), fields: FieldList::Unnamed },
            SourceItem::Struct { name: s("B"), fields: FieldList::Unit },
        ]
    );
}

#[test]
fn enum_variants_in_order() {
    let items = parse_source("enum E { Two(u8), One, Three { x: u8 } }").unwrap();
    assert_eq!(items, vec![SourceItem::Enum { name: s("E"), variants: vec![s("Two"), s("One"), s("Three")] }]);
}

#[test]
fn aliases_by_their_path() {
    let items = parse_source("type A = entity::user::Model; type B = (u8, u8);").unwrap();
    assert_eq!(
        items,
        vec![
            SourceItem::Alias {
                name: s("A"),
                target: AliasTarget::Path { segments: vec![s("entity"), s("user"), s("Model")] },
            },
            SourceItem::Alias { name: s("B"), target: AliasTarget::Other },
        ]
    );
}

#[test]
fn modules_with_and_without_body() {
    let items = parse_source("mod a; mod b { mod c { struct X; } }").unwrap();
    let x = SourceItem::Struct { name: s("X"), fields: FieldList::Unit };
    let c = SourceItem::Module { name: s("c"), body: Some(vec![x]) };
    assert_eq!(
        items,
        vec![
            SourceItem::Module { name: s("a"), body: None },
            SourceItem::Module { name: s("b"), body: Some(vec![c]) },
        ]
    );
}

#[test]
fn imports_of_every_shape() {
    let items = parse_source("use crate::a::{b, c as d, e::*}; use self::f;").unwrap();
    let group = ImportTree::Group {
        trees: vec![
            name("b"),
            ImportTree::Rename { name: s("c"), alias: s("d") },
            under("e", ImportTree::Glob),
        ],
    };
    assert_eq!(
        items,
        vec![
            SourceItem::Import { tree: under("crate", under("a", group)) },
            SourceItem::Import { tree: under("self", name("f")) },
        ]
    );
}

#[test]
fn other_items_hold_nothing() {
    let items = parse_source("fn f() {} const C: u8 = 1; union U { a: u8 }").unwrap();
    assert_eq!(items, vec![SourceItem::Other, SourceItem::Other, SourceItem::Other]);
}

#[test]
fn text_that_is_no_source_file() {
    assert_eq!(parse_source("struct {"), None);
    assert_eq!(parse_source(""), Some(vec![]));
}

#[test]
fn raw_identifiers_keep_their_mark() {
    let items = parse_source("struct S { r#type: u8 }").unwrap();
    let fields = vec![FieldDecl { name: Some(s("r#type")), ty: ty("u8") }];
    assert_eq!(items, vec![SourceItem::Struct { name: s("S"), fields: FieldList::Named { fields } }]);
}

#[test]
fn companion_is_the_name_without_ex() {
    assert_eq!(companion_of("ModelEx"), Some(s("Model")));
    assert_eq!(companion_of("r#ModelEx"), Some(s("r#Model")));
    assert_eq!(companion_of("r#typeEx"), Some(s("r#type")));
    assert_eq!(companion_of("r#a1Ex"), Some(s("r#a1")));
}

#[test]
fn companion_needs_the_suffix() {
    assert_eq!(companion_of("Model"), None);
    assert_eq!(companion_of("x"), None);
    assert_eq!(companion_of(""), None);
    assert_eq!(companion_of("ModelEX"), None);
}

const KEYWORDS: &str = "
    _ abstract as async await become box break const continue crate do dyn else enum extern
    false final fn for if impl in let loop macro match mod move mut override priv pub ref
    return Self self static struct super trait true try type typeof unsafe unsized use virtual
    where while yield
";

#[test]
fn companion_must_be_an_identifier() {
    assert_eq!(companion_of("Ex"), None);
    assert_eq!(companion_of("1Ex"), None);
    assert_eq!(companion_of("0xEx"), None);
    for keyword in KEYWORDS.split_whitespace() {
        assert_eq!(companion_of(&format!("{}Ex", keyword)), None, "{}", keyword);
        let longer = format!("{}1", keyword);
        assert_eq!(companion_of(&format!("{}Ex", longer)), Some(longer));
    }
    for word in ["union", "gen", "auto", "safe", "raw", "r", "b", "Ex", "a1", "__"] {
        assert_eq!(companion_of(&format!("{}Ex", word)), Some(s(word)));
    }
}

#[test]
fn items_come_from_what_is_parsed() {
    let text = "struct S { a: u8 } mod m { enum E { A } } use x::y as z; type T = S;";
    let parsed = syn::parse_file(text).unwrap().items;
    let items = items_from(&parsed);
    assert_eq!(items.len(), 4);
    assert_eq!(Some(items), parse_source(text));
    assert_eq!(items_from(&vec![]), vec![]);
}
