//! What the definition of a type offers: its fields, or its variants.
use vstd::prelude::*;

use crate::answers::{QuestionModel, Step};
use crate::fields::{declared_types, field_names, typed_fields, FieldTypeModel};
use crate::search::{names_found, types_found};
use crate::syntax::{FieldDeclModel, FieldListModel, SourceItemModel};

verus! {

proof fn lemma_declared_type(fields: Seq<FieldDeclModel>, i: int, name: Seq<char>)
    requires
        0 <= i < fields.len(),
        fields[i].name == Some(name),
        forall|j: int| i < j < fields.len() ==> (#[trigger] fields[j]).name != Some(name),
    ensures
        declared_types(fields).dom().contains(name),
        declared_types(fields)[name] == FieldTypeModel::Declared(fields[i].ty),
    decreases fields.len(),
{
    let last = fields.len() - 1;
    if i < last {
        let front = fields.drop_last();
        assert(front[i] == fields[i]);
        assert forall|j: int| i < j < front.len() implies (#[trigger] front[j]).name != Some(
            name,
        ) by {
            assert(fields[j].name != Some(name));
        }
        lemma_declared_type(front, i, name);
        assert(fields[last].name != Some(name));
    }
}

proof fn lemma_declared_name(fields: Seq<FieldDeclModel>, name: Seq<char>) -> (i: int)
    requires
        declared_types(fields).dom().contains(name),
    ensures
        0 <= i < fields.len(),
        fields[i].name == Some(name),
    decreases fields.len(),
{
    if fields.last().name == Some(name) {
        fields.len() - 1
    } else {
        let i = lemma_declared_name(fields.drop_last(), name);
        assert(fields.drop_last()[i] == fields[i]);
        i
    }
}

/// Each named field of a struct has the type that it is itself declared with. Where a
/// name is declared more than once, this is the last declaration.
pub proof fn law_field_has_its_declared_type(
    fields: Seq<FieldDeclModel>,
    i: int,
    name: Seq<char>,
)
    requires
        0 <= i < fields.len(),
        fields[i].name == Some(name),
        forall|j: int| i < j < fields.len() ==> (#[trigger] fields[j]).name != Some(name),
    ensures
        typed_fields(FieldListModel::Named { fields }).dom().contains(name),
        typed_fields(FieldListModel::Named { fields })[name] == FieldTypeModel::Declared(
            fields[i].ty,
        ),
{
    lemma_declared_type(fields, i, name);
}

/// A struct has no other fields than those that it names, with or without types: none
/// at all, if its fields have no names.
pub proof fn law_fields_are_those_declared(fields: FieldListModel, name: Seq<char>)
    ensures
        typed_fields(fields).dom().contains(name) <==> field_names(fields).contains(name),
        field_names(fields).contains(name) <==> (fields matches FieldListModel::Named {
            fields: named,
        } && exists|i: int| 0 <= i < named.len() && (#[trigger] named[i]).name == Some(name)),
{
    crate::fields::law_typed_fields_have_the_field_names(fields);
}

/// The fields of a struct, as a search that has come to it gives them: each with the
/// type of its last declaration, and no others.
pub proof fn law_struct_offers_its_fields(
    type_called: Seq<char>,
    fields: Seq<FieldDeclModel>,
    name: Seq<char>,
)
    ensures
        ({
            let item = SourceItemModel::Struct {
                name: type_called,
                fields: FieldListModel::Named { fields },
            };
            let step = Step::<Option<SourceItemModel>, QuestionModel>::Done(Some(item));
            let types = types_found(step)->Done_0->0;
            let names = names_found(step)->Done_0->0;
            &&& types_found(step) is Done && types_found(step)->Done_0 is Some
            &&& names_found(step) is Done && names_found(step)->Done_0 is Some
            &&& types.dom().contains(name) <==> exists|i: int|
                0 <= i < fields.len() && (#[trigger] fields[i]).name == Some(name)
            &&& names.contains(name) <==> types.dom().contains(name)
            &&& forall|i: int|
                0 <= i < fields.len() && (#[trigger] fields[i]).name == Some(name) && (forall|
                    j: int,
                |
                    i < j < fields.len() ==> (#[trigger] fields[j]).name != Some(name))
                    ==> types[name] == FieldTypeModel::Declared(fields[i].ty)
        }),
{
    law_fields_are_those_declared(FieldListModel::Named { fields }, name);
    assert forall|i: int|
        0 <= i < fields.len() && (#[trigger] fields[i]).name == Some(name) && (forall|j: int|
            i < j < fields.len() ==> (#[trigger] fields[j]).name != Some(name)) implies typed_fields(
        FieldListModel::Named { fields },
    )[name] == FieldTypeModel::Declared(fields[i].ty) by {
        lemma_declared_type(fields, i, name);
    }
}

/// A struct whose fields have no names offers none, and is found all the same.
pub proof fn law_nameless_fields_offer_nothing(type_called: Seq<char>, fields: FieldListModel)
    requires
        fields is Unnamed || fields is Unit,
    ensures
        ({
            let item = SourceItemModel::Struct { name: type_called, fields };
            let step = Step::<Option<SourceItemModel>, QuestionModel>::Done(Some(item));
            &&& types_found(step) == Step::<
                Option<Map<Seq<char>, FieldTypeModel>>,
                QuestionModel,
            >::Done(Some(Map::empty()))
            &&& names_found(step) == Step::<Option<Set<Seq<char>>>, QuestionModel>::Done(
                Some(Set::empty()),
            )
        }),
{
}

/// An enum offers its variants, each with the unit type, and nothing else.
pub proof fn law_enum_offers_its_variants(
    type_called: Seq<char>,
    variants: Seq<Seq<char>>,
    name: Seq<char>,
)
    ensures
        ({
            let item = SourceItemModel::Enum { name: type_called, variants };
            let step = Step::<Option<SourceItemModel>, QuestionModel>::Done(Some(item));
            let types = types_found(step)->Done_0->0;
            let names = names_found(step)->Done_0->0;
            &&& types_found(step) is Done && types_found(step)->Done_0 is Some
            &&& names_found(step) is Done && names_found(step)->Done_0 is Some
            &&& types.dom().contains(name) <==> exists|i: int|
                0 <= i < variants.len() && #[trigger] variants[i] == name
            &&& names.contains(name) <==> types.dom().contains(name)
            &&& types.dom().contains(name) ==> types[name] == FieldTypeModel::Unit
        }),
{
    assert(variants.to_set().contains(name) == variants.contains(name));
}

/// A search that has found nothing offers nothing, and one that is still open asks
/// its question.
pub proof fn law_nothing_found_offers_nothing(question: QuestionModel)
    ensures
        types_found(Step::Done(None)) == Step::<
            Option<Map<Seq<char>, FieldTypeModel>>,
            QuestionModel,
        >::Done(None),
        names_found(Step::Done(None)) == Step::<Option<Set<Seq<char>>>, QuestionModel>::Done(None),
        types_found(Step::Ask(question)) == Step::<
            Option<Map<Seq<char>, FieldTypeModel>>,
            QuestionModel,
        >::Ask(question),
        names_found(Step::Ask(question)) == Step::<Option<Set<Seq<char>>>, QuestionModel>::Ask(
            question,
        ),
{
}

} // verus!
