//! From source text to [`SourceItem`]s, by way of `syn`.
//!
//! `syn` parses; the functions here take its syntax trees apart, one node at a
//! time, and build this crate's own trees from the pieces. What a `syn` node
//! holds is named by a function without a body, and each function that opens a
//! node says how the pieces make up the whole.
use vstd::prelude::*;

use crate::path::texts;
use crate::syntax::{
    import_tree_models, item_models, AliasTarget, AliasTargetModel, FieldDecl, FieldList,
    FieldListModel, ImportTree, ImportTreeModel, SourceItem, SourceItemModel,
};

verus! {

/// `syn::Type`, the syntax of a type.
#[verifier::external_type_specification]
#[verifier::external_body]
pub struct ExType(syn::Type);

/// `syn::Fields`, the fields of a struct.
#[verifier::external_type_specification]
#[verifier::external_body]
pub struct ExFields(syn::Fields);

/// `syn::UseTree`, what a `use` declaration imports.
#[verifier::external_type_specification]
#[verifier::external_body]
pub struct ExUseTree(syn::UseTree);

/// `syn::Item`, an item of a file or of a module.
#[verifier::external_type_specification]
#[verifier::external_body]
pub struct ExItem(syn::Item);

/// The names on the path that a `syn::Type` is, or that it is no path.
pub uninterp spec fn type_contents(ty: syn::Type) -> AliasTargetModel;

/// What a `syn::Fields` holds.
pub uninterp spec fn fields_contents(fields: syn::Fields) -> FieldListModel;

/// What a `syn::UseTree` holds.
pub uninterp spec fn use_tree_contents(tree: syn::UseTree) -> ImportTreeModel;

/// What a `syn::Item` holds.
pub uninterp spec fn item_contents(item: syn::Item) -> SourceItemModel;

/// Whether `syn::parse_file` can make `parsed` of a text: the items it finds, or
/// nothing where it refuses the text.
///
/// What it makes of a text rests on the lexer that `proc-macro2` uses at the time,
/// and there can be more than one answer: the lexer of the compiler normalises
/// identifiers that are not ASCII, and that of `proc-macro2` keeps them as they are
/// written. The types of fields are what `syn` compares as equal: the tokens they are
/// made of, without their positions.
pub uninterp spec fn may_parse_to(
    text: Seq<char>,
    parsed: Option<Seq<SourceItemModel>>,
) -> bool;

/// Whether `syn::parse_str` can make the identifier `ident` of a text, or nothing,
/// with one of the lexers that `proc-macro2` may use.
pub uninterp spec fn may_read_as(text: Seq<char>, ident: Option<Seq<char>>) -> bool;

/// A `syn::UseTree`, opened.
enum UseNode<'a> {
    Path(String, &'a syn::UseTree),
    Name(String),
    Rename(String, String),
    Glob,
    Group(Vec<&'a syn::UseTree>),
}

/// A `syn::Item`, opened.
enum ItemNode<'a> {
    Struct(String, &'a syn::Fields),
    Enum(String, Vec<String>),
    Alias(String, &'a syn::Type),
    Module(String, Option<&'a Vec<syn::Item>>),
    Import(&'a syn::UseTree),
    Other,
}

/// What the trees of a sequence hold.
spec fn use_trees_contents(trees: Seq<&syn::UseTree>) -> Seq<ImportTreeModel> {
    trees.map_values(|tree: &syn::UseTree| use_tree_contents(*tree))
}

/// What the items of a sequence hold.
pub open spec fn items_contents(items: Seq<syn::Item>) -> Seq<SourceItemModel> {
    items.map_values(|item: syn::Item| item_contents(item))
}

/// Calls `syn::parse_file` and takes the items of the file it returns.
///
/// Claimed: the result is what `syn` makes of this very text with one of the lexers
/// that `proc-macro2` may use. Two calls on one text need not agree, and it is not
/// said which texts are accepted.
#[verifier::external_body]
fn parse_file(text: &str) -> (r: Option<Vec<syn::Item>>)
    ensures
        may_parse_to(
            text@,
            match r {
                Some(items) => Some(items_contents(items@)),
                None => None,
            },
        ),
{
    syn::parse_file(text).ok().map(|file| file.items)
}

/// Opens a `syn::UseTree`, which is an enum of five variants with public fields.
///
/// Claimed: the pieces make up what the tree holds, by variant, with every
/// identifier as its text and the trees of a group in their order.
#[verifier::external_body]
fn open_use_tree<'a>(tree: &'a syn::UseTree) -> (r: UseNode<'a>)
    ensures
        use_tree_contents(*tree) == (match r {
            UseNode::Path(name, inner) => ImportTreeModel::Path {
                name: name@,
                tree: Box::new(use_tree_contents(*inner)),
            },
            UseNode::Name(name) => ImportTreeModel::Name { name: name@ },
            UseNode::Rename(name, alias) => ImportTreeModel::Rename { name: name@, alias: alias@ },
            UseNode::Glob => ImportTreeModel::Glob,
            UseNode::Group(trees) => ImportTreeModel::Group { trees: use_trees_contents(trees@) },
        }),
{
    match tree {
        syn::UseTree::Path(p) => UseNode::Path(p.ident.to_string(), &p.tree),
        syn::UseTree::Name(n) => UseNode::Name(n.ident.to_string()),
        syn::UseTree::Rename(r) => UseNode::Rename(r.ident.to_string(), r.rename.to_string()),
        syn::UseTree::Glob(_) => UseNode::Glob,
        syn::UseTree::Group(g) => UseNode::Group(g.items.iter().collect()),
    }
}

/// Opens a `syn::Item`, which is an enum of item kinds with public fields.
///
/// Claimed: the pieces make up what the item holds, by kind, with every
/// identifier as its text, and variants and the items of a module in their order;
/// a kind that is none of struct, enum, type alias, module and `use` holds nothing.
#[verifier::external_body]
fn open_item<'a>(item: &'a syn::Item) -> (r: ItemNode<'a>)
    ensures
        item_contents(*item) == (match r {
            ItemNode::Struct(name, fields) => SourceItemModel::Struct {
                name: name@,
                fields: fields_contents(*fields),
            },
            ItemNode::Enum(name, variants) => SourceItemModel::Enum {
                name: name@,
                variants: texts(variants@),
            },
            ItemNode::Alias(name, ty) => SourceItemModel::Alias {
                name: name@,
                target: type_contents(*ty),
            },
            ItemNode::Module(name, body) => SourceItemModel::Module {
                name: name@,
                body: match body {
                    Some(items) => Some(items_contents(items@)),
                    None => None,
                },
            },
            ItemNode::Import(tree) => SourceItemModel::Import { tree: use_tree_contents(*tree) },
            ItemNode::Other => SourceItemModel::Other,
        }),
{
    match item {
        syn::Item::Struct(s) => ItemNode::Struct(s.ident.to_string(), &s.fields),
        syn::Item::Enum(e) => {
            ItemNode::Enum(e.ident.to_string(), e.variants.iter().map(|v| v.ident.to_string()).collect())
        },
        syn::Item::Type(t) => ItemNode::Alias(t.ident.to_string(), &t.ty),
        syn::Item::Mod(m) => ItemNode::Module(m.ident.to_string(), m.content.as_ref().map(|c| &c.1)),
        syn::Item::Use(u) => ItemNode::Import(&u.tree),
        _ => ItemNode::Other,
    }
}

/// Opens a `syn::Fields`, which is an enum of three variants with public fields.
///
/// Claimed: the result is what the fields hold; named fields come in their order,
/// each with its identifier as text and its type.
#[verifier::external_body]
fn open_fields(fields: &syn::Fields) -> (r: FieldList)
    ensures
        r@ == fields_contents(*fields),
{
    match fields {
        syn::Fields::Named(n) => FieldList::Named {
            fields: n.named.iter().map(
                |f| FieldDecl { name: f.ident.as_ref().map(|i| i.to_string()), ty: f.ty.clone() },
            ).collect(),
        },
        syn::Fields::Unnamed(_) => FieldList::Unnamed,
        syn::Fields::Unit => FieldList::Unit,
    }
}

/// Opens a `syn::Type` as far as it is a path.
///
/// Claimed: for a path type the result holds the identifiers of the path's
/// segments, as texts and in their order; any other type holds nothing.
#[verifier::external_body]
fn open_type(ty: &syn::Type) -> (r: AliasTarget)
    ensures
        r@ == type_contents(*ty),
{
    match ty {
        syn::Type::Path(p) => AliasTarget::Path {
            segments: p.path.segments.iter().map(|s| s.ident.to_string()).collect(),
        },
        _ => AliasTarget::Other,
    }
}

/// The tree of a `use` declaration.
fn use_tree_from(tree: &syn::UseTree) -> (r: ImportTree)
    ensures
        r@ == use_tree_contents(*tree),
    decreases use_tree_contents(*tree),
{
    match open_use_tree(tree) {
        UseNode::Path(name, inner) => {
            assert(decreases_to!(use_tree_contents(*tree) => use_tree_contents(*tree)->Path_tree));
            ImportTree::Path { name, tree: Box::new(use_tree_from(inner)) }
        },
        UseNode::Name(name) => ImportTree::Name { name },
        UseNode::Rename(name, alias) => ImportTree::Rename { name, alias },
        UseNode::Glob => ImportTree::Glob,
        UseNode::Group(nodes) => {
            let mut trees: Vec<ImportTree> = Vec::new();
            let mut i: usize = 0;
            while i < nodes.len()
                invariant
                    i <= nodes@.len(),
                    use_tree_contents(*tree) == (ImportTreeModel::Group {
                        trees: use_trees_contents(nodes@),
                    }),
                    import_tree_models(trees@) == use_trees_contents(nodes@).take(i as int),
                decreases nodes@.len() - i,
            {
                assert(decreases_to!(use_tree_contents(*tree) => use_tree_contents(*tree)->trees));
                assert(decreases_to!(
                    use_trees_contents(nodes@) => use_trees_contents(nodes@)[i as int]
                ));
                let ghost before = trees@;
                trees.push(use_tree_from(nodes[i]));
                i += 1;
                assert(import_tree_models(trees@) =~= import_tree_models(before).push(
                    trees@.last()@,
                ));
                assert(import_tree_models(trees@) =~= use_trees_contents(nodes@).take(i as int));
            }
            assert(use_trees_contents(nodes@).take(i as int) =~= use_trees_contents(nodes@));
            ImportTree::Group { trees }
        },
    }
}

/// The item that a `syn::Item` is.
fn item_from(item: &syn::Item) -> (r: SourceItem)
    ensures
        r@ == item_contents(*item),
    decreases item_contents(*item), 0nat,
{
    match open_item(item) {
        ItemNode::Struct(name, fields) => SourceItem::Struct { name, fields: open_fields(fields) },
        ItemNode::Enum(name, variants) => SourceItem::Enum { name, variants },
        ItemNode::Alias(name, ty) => SourceItem::Alias { name, target: open_type(ty) },
        ItemNode::Module(name, body) => match body {
            Some(items) => {
                assert(decreases_to!(item_contents(*item) => item_contents(*item)->body));
                assert(decreases_to!(item_contents(*item)->body => item_contents(*item)->body->0));
                SourceItem::Module { name, body: Some(items_from(items)) }
            },
            None => SourceItem::Module { name, body: None },
        },
        ItemNode::Import(tree) => SourceItem::Import { tree: use_tree_from(tree) },
        ItemNode::Other => SourceItem::Other,
    }
}

/// The items that `syn::Item`s are.
pub fn items_from(items: &Vec<syn::Item>) -> (r: Vec<SourceItem>)
    ensures
        item_models(r@) == items_contents(items@),
    decreases items_contents(items@), 1nat,
{
    let mut r: Vec<SourceItem> = Vec::new();
    let mut i: usize = 0;
    while i < items.len()
        invariant
            i <= items@.len(),
            item_models(r@) == items_contents(items@).take(i as int),
        decreases items@.len() - i,
    {
        assert(items_contents(items@)[i as int] == item_contents(items@[i as int]));
        let ghost before = r@;
        r.push(item_from(&items[i]));
        i += 1;
        assert(item_models(r@) =~= item_models(before).push(r@.last()@));
        assert(item_models(r@) =~= items_contents(items@).take(i as int));
    }
    assert(items_contents(items@).take(i as int) =~= items_contents(items@));
    r
}

/// The items of a source file, given its text; nothing, where the text is not
/// that of a Rust source file.
///
/// Which texts are accepted, and as what, is up to `syn`; what becomes of the items
/// that it finds is what [`items_from`] says.
pub fn parse_source(text: &str) -> (r: Option<Vec<SourceItem>>)
    ensures
        may_parse_to(
            text@,
            match r {
                Some(items) => Some(item_models(items@)),
                None => None,
            },
        ),
{
    match parse_file(text) {
        Some(items) => Some(items_from(&items)),
        None => None,
    }
}

/// Whether a text is made of ASCII letters, ASCII digits and underscores.
pub open spec fn is_word(text: Seq<char>) -> bool {
    forall|i: int|
        #![trigger text[i]]
        0 <= i < text.len() ==> {
            ||| 'a' <= text[i] <= 'z'
            ||| 'A' <= text[i] <= 'Z'
            ||| '0' <= text[i] <= '9'
            ||| text[i] == '_'
        }
}

/// Whether a text is a keyword of Rust, or the underscore.
pub open spec fn is_keyword(text: Seq<char>) -> bool {
    ||| text == "_"@
    ||| text == "abstract"@
    ||| text == "as"@
    ||| text == "async"@
    ||| text == "await"@
    ||| text == "become"@
    ||| text == "box"@
    ||| text == "break"@
    ||| text == "const"@
    ||| text == "continue"@
    ||| text == "crate"@
    ||| text == "do"@
    ||| text == "dyn"@
    ||| text == "else"@
    ||| text == "enum"@
    ||| text == "extern"@
    ||| text == "false"@
    ||| text == "final"@
    ||| text == "fn"@
    ||| text == "for"@
    ||| text == "if"@
    ||| text == "impl"@
    ||| text == "in"@
    ||| text == "let"@
    ||| text == "loop"@
    ||| text == "macro"@
    ||| text == "match"@
    ||| text == "mod"@
    ||| text == "move"@
    ||| text == "mut"@
    ||| text == "override"@
    ||| text == "priv"@
    ||| text == "pub"@
    ||| text == "ref"@
    ||| text == "return"@
    ||| text == "Self"@
    ||| text == "self"@
    ||| text == "static"@
    ||| text == "struct"@
    ||| text == "super"@
    ||| text == "trait"@
    ||| text == "true"@
    ||| text == "try"@
    ||| text == "type"@
    ||| text == "typeof"@
    ||| text == "unsafe"@
    ||| text == "unsized"@
    ||| text == "use"@
    ||| text == "virtual"@
    ||| text == "where"@
    ||| text == "while"@
    ||| text == "yield"@
}

/// Whether a word is an identifier: it does not start with a digit, and is no keyword.
pub open spec fn is_identifier(word: Seq<char>) -> bool {
    word.len() > 0 && !('0' <= word[0] <= '9') && !is_keyword(word)
}

/// Whether a text is a raw identifier made of ASCII: `r#` and a word that does not
/// start with a digit and is none of those that cannot be raw.
pub open spec fn is_raw_identifier(text: Seq<char>) -> bool {
    let word = text.skip(2);
    &&& text.len() > 2
    &&& text[0] == 'r'
    &&& text[1] == '#'
    &&& is_word(word)
    &&& !('0' <= word[0] <= '9')
    &&& word != "_"@
    &&& word != "self"@
    &&& word != "Self"@
    &&& word != "super"@
    &&& word != "crate"@
}

/// Whether a text is read the same by every lexer: as an identifier, or as none.
pub open spec fn is_plain(text: Seq<char>) -> bool {
    is_word(text) || is_raw_identifier(text)
}

/// Whether `ident` can be the identifier that a text is read as. A plain text is read
/// as itself, or as none.
pub open spec fn reads_as(text: Seq<char>, ident: Option<Seq<char>>) -> bool {
    &&& may_read_as(text, ident)
    &&& is_plain(text) ==> ident == if is_identifier(text) || is_raw_identifier(text) {
        Some(text)
    } else {
        None
    }
}

/// Calls `syn::parse_str` for an identifier.
///
/// Claimed: the result is what `syn` makes of this very text with one of the lexers
/// that `proc-macro2` may use. All of them read alike what is made of ASCII letters,
/// ASCII digits and underscores: it is accepted where it is an identifier, and is then
/// that identifier. So they do with a raw identifier of that kind, which keeps its
/// `r#`. Of any other text it is not said what it is read as.
#[verifier::external_body]
pub(crate) fn parse_ident(text: &str) -> (r: Option<String>)
    ensures
        may_read_as(
            text@,
            match r {
                Some(ident) => Some(ident@),
                None => None,
            },
        ),
        is_word(text@) ==> (match r {
            Some(ident) => is_identifier(text@) && ident@ == text@,
            None => !is_identifier(text@),
        }),
        is_raw_identifier(text@) ==> (match r {
            Some(ident) => ident@ == text@,
            None => false,
        }),
{
    syn::parse_str::<syn::Ident>(text).ok().map(|ident| ident.to_string())
}

} // verus!
