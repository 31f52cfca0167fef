//! Sets of names, and maps from field names to types.
use vstd::prelude::*;

use crate::path::{copy_texts, same_text, texts};
use crate::syntax::{FieldDecl, FieldDeclModel, FieldList, FieldListModel, SourceItem, SourceItemModel};

verus! {

/// The type of a discovered field.
#[derive(Debug, PartialEq, Eq, Clone, Copy)]
pub enum FieldType<'a> {
    /// The type that the field was declared with.
    Declared(&'a syn::Type),
    /// The unit type, which stands for the type of an enum variant.
    Unit,
}

/// The value of a [`FieldType`].
pub enum FieldTypeModel {
    Declared(syn::Type),
    Unit,
}

/// A set of names.
#[derive(Debug, PartialEq, Eq)]
pub struct NameSet {
    names: Vec<String>,
}

/// A map from names to types.
#[derive(Debug, PartialEq, Eq)]
pub struct FieldMap<'a> {
    names: Vec<String>,
    types: Vec<FieldType<'a>>,
}

impl<'a> View for FieldType<'a> {
    type V = FieldTypeModel;

    open spec fn view(&self) -> FieldTypeModel {
        match self {
            FieldType::Declared(ty) => FieldTypeModel::Declared(**ty),
            FieldType::Unit => FieldTypeModel::Unit,
        }
    }
}

impl View for NameSet {
    type V = Set<Seq<char>>;

    open spec fn view(&self) -> Set<Seq<char>> {
        self.listing().to_set()
    }
}

impl<'a> View for FieldMap<'a> {
    type V = Map<Seq<char>, FieldTypeModel>;

    closed spec fn view(&self) -> Map<Seq<char>, FieldTypeModel> {
        Map::new(
            |name: Seq<char>| texts(self.names@).contains(name),
            |name: Seq<char>| self.types@[texts(self.names@).index_of(name)]@,
        )
    }
}

impl DeepView for NameSet {
    type V = Set<Seq<char>>;

    open spec fn deep_view(&self) -> Set<Seq<char>> {
        self@
    }
}

impl<'a> DeepView for FieldMap<'a> {
    type V = Map<Seq<char>, FieldTypeModel>;

    open spec fn deep_view(&self) -> Map<Seq<char>, FieldTypeModel> {
        self@
    }
}

/// The position of `name` in a list of names, if it is there.
fn position(names: &Vec<String>, name: &str) -> (r: Option<usize>)
    ensures
        match r {
            Some(i) => i < names@.len() && texts(names@)[i as int] == name@,
            None => !texts(names@).contains(name@),
        },
{
    let mut i: usize = 0;
    while i < names.len()
        invariant
            i <= names@.len(),
            forall|j: int| 0 <= j < i ==> texts(names@)[j] != name@,
        decreases names@.len() - i,
    {
        if same_text(names[i].as_str(), name) {
            return Some(i);
        }
        i += 1;
    }
    None
}

impl NameSet {
    /// The names in the order in which they were added.
    pub closed spec fn listing(&self) -> Seq<Seq<char>> {
        texts(self.names@)
    }

    /// Whether no name is held twice.
    pub open spec fn wf(&self) -> bool {
        self.listing().no_duplicates()
    }

    /// The empty set.
    pub fn new() -> (r: NameSet)
        ensures
            r.wf(),
            r.listing() == Seq::<Seq<char>>::empty(),
            r@ == Set::<Seq<char>>::empty(),
    {
        let r = NameSet { names: Vec::new() };
        assert(r.listing() =~= Seq::empty());
        assert(r@ =~= Set::empty());
        r
    }

    /// Adds a name behind the others, unless it is there already.
    pub fn insert(&mut self, name: String)
        requires
            old(self).wf(),
        ensures
            final(self).wf(),
            final(self)@ == old(self)@.insert(name@),
            final(self).listing() == (if old(self)@.contains(name@) {
                old(self).listing()
            } else {
                old(self).listing().push(name@)
            }),
    {
        match position(&self.names, name.as_str()) {
            Some(i) => {
                assert(texts(self.names@).contains(texts(self.names@)[i as int]));
                assert(self@ =~= old(self)@.insert(name@));
            },
            None => {
                let ghost before = texts(self.names@);
                self.names.push(name);
                let ghost after = texts(self.names@);
                assert(after =~= before.push(name@));
                assert forall|n: Seq<char>| #[trigger]
                    after.contains(n) == (before.contains(n) || n == name@) by {
                    if before.contains(n) {
                        let i = before.index_of(n);
                        assert(after[i] == n);
                    }
                    if n == name@ {
                        assert(after[before.len() as int] == n);
                    }
                }
                assert(self@ =~= old(self)@.insert(name@));
            },
        }
    }

    /// Whether the name is in the set.
    pub fn contains(&self, name: &str) -> (r: bool)
        ensures
            r == self@.contains(name@),
    {
        match position(&self.names, name) {
            Some(i) => {
                assert(texts(self.names@).contains(texts(self.names@)[i as int]));
                true
            },
            None => false,
        }
    }

    /// The names of the set, each of them once, in the order in which they were added.
    pub fn names(&self) -> (r: &Vec<String>)
        requires
            self.wf(),
        ensures
            texts(r@) == self.listing(),
            texts(r@).no_duplicates(),
            texts(r@).to_set() == self@,
    {
        &self.names
    }
}

impl<'a> FieldMap<'a> {
    /// Whether no name is held twice, and each has a type.
    pub closed spec fn wf(&self) -> bool {
        &&& texts(self.names@).no_duplicates()
        &&& self.types@.len() == self.names@.len()
    }

    /// The empty map.
    pub fn new() -> (r: FieldMap<'a>)
        ensures
            r.wf(),
            r@ == Map::<Seq<char>, FieldTypeModel>::empty(),
    {
        let r = FieldMap { names: Vec::new(), types: Vec::new() };
        assert(r@ =~= Map::empty());
        r
    }

    /// Gives `name` the type `ty`, in place of the one it had.
    pub fn insert(&mut self, name: String, ty: FieldType<'a>)
        requires
            old(self).wf(),
        ensures
            final(self).wf(),
            final(self)@ == old(self)@.insert(name@, ty@),
    {
        let ghost before = texts(self.names@);
        match position(&self.names, name.as_str()) {
            Some(i) => {
                assert(before.contains(before[i as int]));
                assert forall|n: Seq<char>| before.contains(n) implies (#[trigger] before.index_of(n)
                    == i) == (n == name@) by {}
                self.types.set(i, ty);
                assert(self@ =~= old(self)@.insert(name@, ty@));
            },
            None => {
                self.names.push(name);
                self.types.push(ty);
                let ghost after = texts(self.names@);
                assert(after =~= before.push(name@));
                assert forall|n: Seq<char>| #[trigger]
                    after.contains(n) == (before.contains(n) || n == name@) by {
                    if before.contains(n) {
                        let i = before.index_of(n);
                        assert(after[i] == n);
                    }
                    if n == name@ {
                        assert(after[before.len() as int] == n);
                    }
                }
                assert forall|n: Seq<char>| before.contains(n) implies #[trigger] after.index_of(n)
                    == before.index_of(n) by {
                    let i = before.index_of(n);
                    assert(after[i] == n);
                    assert(after.contains(n));
                }
                assert(after.index_of(name@) == before.len()) by {
                    assert(after[before.len() as int] == name@);
                    assert(after.contains(name@));
                }
                assert(self@ =~= old(self)@.insert(name@, ty@));
            },
        }
    }

    /// The type of `name`, if it has one.
    pub fn get(&self, name: &str) -> (r: Option<FieldType<'a>>)
        requires
            self.wf(),
        ensures
            match r {
                Some(ty) => self@.dom().contains(name@) && self@[name@] == ty@,
                None => !self@.dom().contains(name@),
            },
    {
        match position(&self.names, name) {
            Some(i) => {
                let ghost names = texts(self.names@);
                assert(names.contains(names[i as int]));
                assert(names.index_of(name@) == i);
                Some(self.types[i])
            },
            None => None,
        }
    }

    /// The names that have a type.
    pub fn names(&self) -> (r: NameSet)
        requires
            self.wf(),
        ensures
            r.wf(),
            r@ == self@.dom(),
    {
        let r = NameSet { names: copy_texts(self.names.as_slice()) };
        assert(r@ =~= self@.dom());
        r
    }
}

/// The names of the named fields, each with its declared type. Where a name is
/// declared twice, the last declaration counts.
pub open spec fn declared_types(fields: Seq<FieldDeclModel>) -> Map<Seq<char>, FieldTypeModel>
    decreases fields.len(),
{
    if fields.len() == 0 {
        Map::empty()
    } else {
        let rest = declared_types(fields.drop_last());
        match fields.last().name {
            Some(name) => rest.insert(name, FieldTypeModel::Declared(fields.last().ty)),
            None => rest,
        }
    }
}

/// The fields of a struct, with their types: nothing, unless they are named.
pub open spec fn typed_fields(fields: FieldListModel) -> Map<Seq<char>, FieldTypeModel> {
    match fields {
        FieldListModel::Named { fields: named } => declared_types(named),
        _ => Map::empty(),
    }
}

/// The names of the fields of a struct: nothing, unless they are named.
pub open spec fn field_names(fields: FieldListModel) -> Set<Seq<char>> {
    match fields {
        FieldListModel::Named { fields: named } => Set::new(
            |name: Seq<char>|
                exists|i: int| 0 <= i < named.len() && (#[trigger] named[i]).name == Some(name),
        ),
        _ => Set::empty(),
    }
}

/// The variants of an enum, each with the unit type.
pub open spec fn typed_variants(variants: Seq<Seq<char>>) -> Map<Seq<char>, FieldTypeModel> {
    Map::new(|name: Seq<char>| variants.contains(name), |name: Seq<char>| FieldTypeModel::Unit)
}

/// What a struct or enum definition offers, with types.
pub open spec fn definition_types(item: SourceItemModel) -> Map<Seq<char>, FieldTypeModel> {
    match item {
        SourceItemModel::Struct { name, fields } => typed_fields(fields),
        SourceItemModel::Enum { name, variants } => typed_variants(variants),
        _ => Map::empty(),
    }
}

/// The names that a struct or enum definition offers.
pub open spec fn definition_names(item: SourceItemModel) -> Set<Seq<char>> {
    match item {
        SourceItemModel::Struct { name, fields } => field_names(fields),
        SourceItemModel::Enum { name, variants } => variants.to_set(),
        _ => Set::empty(),
    }
}

/// The names of named fields are the names of the first of them and of the last.
proof fn lemma_names_push(fields: Seq<FieldDeclModel>)
    requires
        fields.len() > 0,
    ensures
        field_names(FieldListModel::Named { fields }) == (match fields.last().name {
            Some(name) => field_names(
                FieldListModel::Named { fields: fields.drop_last() },
            ).insert(name),
            None => field_names(FieldListModel::Named { fields: fields.drop_last() }),
        }),
{
    let all = field_names(FieldListModel::Named { fields });
    let front = fields.drop_last();
    let most = field_names(FieldListModel::Named { fields: front });
    assert forall|name: Seq<char>| #[trigger]
        all.contains(name) == (most.contains(name) || fields.last().name == Some(name)) by {
        if most.contains(name) {
            let i = choose|i: int| 0 <= i < front.len() && (#[trigger] front[i]).name == Some(name);
            assert(fields[i].name == Some(name));
        }
        if fields.last().name == Some(name) {
            assert(fields[fields.len() - 1].name == Some(name));
        }
        if all.contains(name) {
            let i = choose|i: int|
                0 <= i < fields.len() && (#[trigger] fields[i]).name == Some(name);
            if i < front.len() {
                assert(front[i].name == Some(name));
            }
        }
    }
    match fields.last().name {
        Some(name) => assert(all =~= most.insert(name)),
        None => assert(all =~= most),
    }
}

/// Reading fields with their types and reading their names gives the same names.
pub proof fn law_typed_fields_have_the_field_names(fields: FieldListModel)
    ensures
        typed_fields(fields).dom() == field_names(fields),
{
    match fields {
        FieldListModel::Named { fields: named } => {
            lemma_declared_names(named);
        },
        _ => {
            assert(typed_fields(fields).dom() =~= field_names(fields));
        },
    }
}

proof fn lemma_declared_names(fields: Seq<FieldDeclModel>)
    ensures
        declared_types(fields).dom() == field_names(FieldListModel::Named { fields }),
    decreases fields.len(),
{
    if fields.len() == 0 {
        assert(declared_types(fields).dom() =~= field_names(FieldListModel::Named { fields }));
    } else {
        lemma_declared_names(fields.drop_last());
        lemma_names_push(fields);
        assert(declared_types(fields).dom() =~= field_names(FieldListModel::Named { fields }));
    }
}

/// Reading a definition with types and reading its names gives the same names.
pub proof fn law_definition_types_have_the_definition_names(item: SourceItemModel)
    ensures
        definition_types(item).dom() == definition_names(item),
{
    match item {
        SourceItemModel::Struct { name, fields } => {
            law_typed_fields_have_the_field_names(fields);
        },
        _ => {
            assert(definition_types(item).dom() =~= definition_names(item));
        },
    }
}

/// The names of the named fields of a struct.
pub fn extract_named_fields(fields: &FieldList) -> (r: NameSet)
    ensures
        r.wf(),
        r@ == field_names(fields@),
{
    let mut set = NameSet::new();
    match fields {
        FieldList::Named { fields: named } => {
            let ghost models = named@.map_values(|field: FieldDecl| field@);
            let mut i: usize = 0;
            assert(set@ =~= field_names(FieldListModel::Named { fields: models.take(0) }));
            while i < named.len()
                invariant
                    i <= named@.len(),
                    models == named@.map_values(|field: FieldDecl| field@),
                    set.wf(),
                    set@ == field_names(FieldListModel::Named { fields: models.take(i as int) }),
                decreases named@.len() - i,
            {
                proof {
                    lemma_names_push(models.take(i + 1));
                    assert(models.take(i + 1).drop_last() =~= models.take(i as int));
                    assert(models.take(i + 1).last() == named@[i as int]@);
                }
                if let Some(name) = &named[i].name {
                    set.insert(name.as_str().to_owned());
                }
                i += 1;
            }
            assert(models.take(i as int) =~= models);
        },
        _ => {
            assert(set@ =~= field_names(fields@));
        },
    }
    set
}

/// The named fields of a struct, each with its declared type.
pub fn extract_named_fields_with_types<'a>(fields: &'a FieldList) -> (r: FieldMap<'a>)
    ensures
        r.wf(),
        r@ == typed_fields(fields@),
{
    let mut map: FieldMap<'a> = FieldMap::new();
    match fields {
        FieldList::Named { fields: named } => {
            let ghost models = named@.map_values(|field: FieldDecl| field@);
            let mut i: usize = 0;
            while i < named.len()
                invariant
                    i <= named@.len(),
                    models == named@.map_values(|field: FieldDecl| field@),
                    map.wf(),
                    map@ == declared_types(models.take(i as int)),
                decreases named@.len() - i,
            {
                proof {
                    assert(models.take(i + 1).drop_last() =~= models.take(i as int));
                    assert(models.take(i + 1).last() == named@[i as int]@);
                }
                if let Some(name) = &named[i].name {
                    map.insert(name.as_str().to_owned(), FieldType::Declared(&named[i].ty));
                }
                i += 1;
            }
            assert(models.take(i as int) =~= models);
        },
        _ => {},
    }
    map
}

/// The names that a struct or enum definition offers.
pub fn names_of_definition(item: &SourceItem) -> (r: NameSet)
    ensures
        r.wf(),
        r@ == definition_names(item@),
{
    match item {
        SourceItem::Struct { name: _, fields } => extract_named_fields(fields),
        SourceItem::Enum { name: _, variants } => {
            let mut set = NameSet::new();
            let ghost all = texts(variants@);
            let mut i: usize = 0;
            assert(set@ =~= all.take(0).to_set());
            while i < variants.len()
                invariant
                    i <= variants@.len(),
                    all == texts(variants@),
                    set.wf(),
                    set@ == all.take(i as int).to_set(),
                decreases variants@.len() - i,
            {
                proof {
                    lemma_take_to_set(all, i as int);
                }
                set.insert(variants[i].as_str().to_owned());
                i += 1;
            }
            assert(all.take(i as int) =~= all);
            set
        },
        _ => NameSet::new(),
    }
}

/// The elements up to and with `i` are those before it, and the one at `i`.
proof fn lemma_take_to_set(all: Seq<Seq<char>>, i: int)
    requires
        0 <= i < all.len(),
    ensures
        all.take(i + 1).to_set() == all.take(i).to_set().insert(all[i]),
{
    let more = all.take(i + 1);
    let less = all.take(i);
    assert forall|n: Seq<char>| #[trigger]
        more.to_set().contains(n) == (less.to_set().contains(n) || n == all[i]) by {
        if less.contains(n) {
            assert(more[less.index_of(n)] == n);
        }
        if n == all[i] {
            assert(more[i] == n);
        }
        if more.contains(n) {
            let j = more.index_of(n);
            if j < i {
                assert(less[j] == n);
            }
        }
    }
    assert(more.to_set() =~= less.to_set().insert(all[i]));
}

/// What a struct or enum definition offers, with types.
pub fn types_of_definition<'a>(item: &'a SourceItem) -> (r: FieldMap<'a>)
    ensures
        r.wf(),
        r@ == definition_types(item@),
{
    match item {
        SourceItem::Struct { name: _, fields } => extract_named_fields_with_types(fields),
        SourceItem::Enum { name: _, variants } => {
            let mut map: FieldMap<'a> = FieldMap::new();
            let ghost all = texts(variants@);
            let mut i: usize = 0;
            assert(map@ =~= typed_variants(all.take(0)));
            while i < variants.len()
                invariant
                    i <= variants@.len(),
                    all == texts(variants@),
                    map.wf(),
                    map@ == typed_variants(all.take(i as int)),
                decreases variants@.len() - i,
            {
                map.insert(variants[i].as_str().to_owned(), FieldType::Unit);
                proof {
                    lemma_take_to_set(all, i as int);
                    assert forall|n: Seq<char>| #[trigger]
                        all.take(i + 1).contains(n) == (all.take(i as int).contains(n) || n
                            == all[i as int]) by {
                        assert(all.take(i + 1).to_set().contains(n) == all.take(i + 1).contains(n));
                        assert(all.take(i as int).to_set().contains(n) == all.take(
                            i as int,
                        ).contains(n));
                    }
                    assert(typed_variants(all.take(i + 1)) =~= typed_variants(
                        all.take(i as int),
                    ).insert(all[i as int], FieldTypeModel::Unit));
                }
                i += 1;
            }
            assert(all.take(i as int) =~= all);
            map
        },
        _ => FieldMap::new(),
    }
}

} // verus!
