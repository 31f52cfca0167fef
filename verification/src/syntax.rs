//! The part of a Rust source file that field discovery reads.
//!
//! A file, or the body of an inline module, is a list of [`SourceItem`]s. Each type has
//! a model, its mathematical value, in which strings and vectors are sequences.
use vstd::prelude::*;

use crate::path::texts;

verus! {

/// What a `use` declaration imports.
#[derive(Debug, PartialEq, Eq)]
pub enum ImportTree {
    /// `name::tree`
    Path { name: String, tree: Box<ImportTree> },
    /// `name`
    Name { name: String },
    /// `name as alias`
    Rename { name: String, alias: String },
    /// `*`
    Glob,
    /// `{tree, tree}`
    Group { trees: Vec<ImportTree> },
}

/// The value of a [`ImportTree`].
pub enum ImportTreeModel {
    Path { name: Seq<char>, tree: Box<ImportTreeModel> },
    Name { name: Seq<char> },
    Rename { name: Seq<char>, alias: Seq<char> },
    Glob,
    Group { trees: Seq<ImportTreeModel> },
}

/// A field of a struct: its name, where it has one, and its declared type.
#[derive(Debug, PartialEq, Eq)]
pub struct FieldDecl {
    pub name: Option<String>,
    pub ty: syn::Type,
}

/// The value of a [`FieldDecl`].
pub struct FieldDeclModel {
    pub name: Option<Seq<char>>,
    pub ty: syn::Type,
}

/// The fields of a struct.
#[derive(Debug, PartialEq, Eq)]
pub enum FieldList {
    /// `{ name: Type }`
    Named { fields: Vec<FieldDecl> },
    /// `(Type)`
    Unnamed,
    /// No fields at all.
    Unit,
}

/// The value of a [`FieldList`].
pub enum FieldListModel {
    Named { fields: Seq<FieldDeclModel> },
    Unnamed,
    Unit,
}

/// What the right-hand side of a type alias looks like.
#[derive(Debug, PartialEq, Eq)]
pub enum AliasTarget {
    /// A path, by the names of its segments.
    Path { segments: Vec<String> },
    /// Any other type.
    Other,
}

/// The value of a [`AliasTarget`].
pub enum AliasTargetModel {
    Path { segments: Seq<Seq<char>> },
    Other,
}

/// An item of a file or of a module.
#[derive(Debug, PartialEq, Eq)]
pub enum SourceItem {
    /// `struct name ..`
    Struct { name: String, fields: FieldList },
    /// `enum name { Variant, .. }`
    Enum { name: String, variants: Vec<String> },
    /// `type name = target;`
    Alias { name: String, target: AliasTarget },
    /// `mod name { .. }`, or `mod name;` where there is no body.
    Module { name: String, body: Option<Vec<SourceItem>> },
    /// `use tree;`
    Import { tree: ImportTree },
    /// Any other item.
    Other,
}

/// The value of an [`SourceItem`].
pub enum SourceItemModel {
    Struct { name: Seq<char>, fields: FieldListModel },
    Enum { name: Seq<char>, variants: Seq<Seq<char>> },
    Alias { name: Seq<char>, target: AliasTargetModel },
    Module { name: Seq<char>, body: Option<Seq<SourceItemModel>> },
    Import { tree: ImportTreeModel },
    Other,
}

/// The value of a use tree.
pub open spec fn import_tree_model(tree: ImportTree) -> ImportTreeModel
    decreases tree,
{
    match tree {
        ImportTree::Path { name, tree: inner } => ImportTreeModel::Path {
            name: name@,
            tree: Box::new(import_tree_model(*inner)),
        },
        ImportTree::Name { name } => ImportTreeModel::Name { name: name@ },
        ImportTree::Rename { name, alias } => ImportTreeModel::Rename { name: name@, alias: alias@ },
        ImportTree::Glob => ImportTreeModel::Glob,
        ImportTree::Group { trees } => ImportTreeModel::Group { trees: import_tree_models(trees@) },
    }
}

/// The values of a sequence of use trees.
pub open spec fn import_tree_models(trees: Seq<ImportTree>) -> Seq<ImportTreeModel>
    decreases trees,
{
    Seq::new(
        trees.len(),
        |i: int|
            if 0 <= i < trees.len() {
                import_tree_model(trees[i])
            } else {
                arbitrary()
            },
    )
}

/// The value of the fields of a struct.
pub open spec fn field_list_model(fields: FieldList) -> FieldListModel {
    match fields {
        FieldList::Named { fields: named } => FieldListModel::Named {
            fields: named@.map_values(|field: FieldDecl| field@),
        },
        FieldList::Unnamed => FieldListModel::Unnamed,
        FieldList::Unit => FieldListModel::Unit,
    }
}

/// The value of an item.
pub open spec fn item_model(item: SourceItem) -> SourceItemModel
    decreases item,
{
    match item {
        SourceItem::Struct { name, fields } => SourceItemModel::Struct { name: name@, fields: fields@ },
        SourceItem::Enum { name, variants } => SourceItemModel::Enum { name: name@, variants: texts(variants@) },
        SourceItem::Alias { name, target } => SourceItemModel::Alias { name: name@, target: target@ },
        SourceItem::Module { name, body } => SourceItemModel::Module {
            name: name@,
            body: match body {
                Some(items) => Some(item_models(items@)),
                None => None,
            },
        },
        SourceItem::Import { tree } => SourceItemModel::Import { tree: tree@ },
        SourceItem::Other => SourceItemModel::Other,
    }
}

/// The values of a sequence of items.
pub open spec fn item_models(items: Seq<SourceItem>) -> Seq<SourceItemModel>
    decreases items,
{
    Seq::new(
        items.len(),
        |i: int|
            if 0 <= i < items.len() {
                item_model(items[i])
            } else {
                arbitrary()
            },
    )
}

impl View for ImportTree {
    type V = ImportTreeModel;

    open spec fn view(&self) -> ImportTreeModel {
        import_tree_model(*self)
    }
}

impl View for FieldDecl {
    type V = FieldDeclModel;

    open spec fn view(&self) -> FieldDeclModel {
        FieldDeclModel {
            name: match self.name {
                Some(name) => Some(name@),
                None => None,
            },
            ty: self.ty,
        }
    }
}

impl View for FieldList {
    type V = FieldListModel;

    open spec fn view(&self) -> FieldListModel {
        field_list_model(*self)
    }
}

impl View for AliasTarget {
    type V = AliasTargetModel;

    open spec fn view(&self) -> AliasTargetModel {
        match self {
            AliasTarget::Path { segments } => AliasTargetModel::Path { segments: texts(segments@) },
            AliasTarget::Other => AliasTargetModel::Other,
        }
    }
}

impl View for SourceItem {
    type V = SourceItemModel;

    open spec fn view(&self) -> SourceItemModel {
        item_model(*self)
    }
}

} // verus!
