//! How discovery puts searches together, and what it gives from end to end.
use vstd::prelude::*;

use crate::answers::{AnswersModel, Question, QuestionModel, Step};
use crate::discover::{
    discovered, is_companion, is_crate_root, is_extended, may_discover, module_names,
    module_pointed_into, modules_at, named_below, named_inside, names_module,
    path_of_module, place_pointed_into, search_file, search_files, search_imports, stem,
};
use crate::fields::FieldTypeModel;
use crate::parse::{is_identifier, is_raw_identifier, is_word};
use crate::path::{FilePath, PathModel};
use crate::resolve::{
    binds, collected, crate_src_dir, paths, src_dir_from, tree_files, Harvest,
};
use crate::search::{place_at, search, search_scope, types_found, Place};
use crate::syntax::{ImportTreeModel, SourceItem, SourceItemModel};

use crate::laws::searching::{is_silent, law_silent_places_give_nothing};
use crate::laws::{defined_at, has_not, points_to_no};

verus! {

/// Searching a whole file is searching from its root, with nothing searched before.
pub proof fn law_file_is_searched_from_its_root(
    answers: AnswersModel,
    items: Seq<SourceItemModel>,
    path: PathModel,
    wanted: Seq<char>,
)
    ensures
        search_file(answers, items, path, wanted) == search(
            answers,
            Place { items, path, mod_path: Seq::empty(), wanted },
            Set::empty(),
        ).step,
{
}

/// A list of files is searched one after the other: where the first ones have nothing,
/// the others are searched as if they were alone.
pub proof fn law_files_are_searched_in_turn(
    answers: AnswersModel,
    a: Seq<PathModel>,
    b: Seq<PathModel>,
    wanted: Seq<char>,
)
    ensures
        search_files(answers, Seq::empty(), wanted) == Step::<
            Option<SourceItemModel>,
            QuestionModel,
        >::Done(None),
        search_files(answers, a + b, wanted) == (match search_files(answers, a, wanted) {
            Step::Done(None) => search_files(answers, b, wanted),
            found => found,
        }),
    decreases a.len(),
{
    if a.len() == 0 {
        assert(a + b =~= b);
    } else {
        assert((a + b).drop_first() =~= a.drop_first() + b);
        assert((a + b)[0] == a[0]);
        law_files_are_searched_in_turn(answers, a.drop_first(), b, wanted);
    }
}

/// A file that is searched alone has to be known; one that cannot be read has nothing.
pub proof fn law_file_is_read_and_searched(
    answers: AnswersModel,
    file: PathModel,
    wanted: Seq<char>,
)
    ensures
        search_files(answers, seq![file], wanted) == (match answers.source(file) {
            Step::Ask(question) => Step::Ask(question),
            Step::Done(None) => Step::Done(None),
            Step::Done(Some(items)) => search(
                answers,
                Place { items, path: file, mod_path: Seq::empty(), wanted },
                Set::empty(),
            ).step,
        }),
{
    reveal_with_fuel(search_files, 2);
    assert(seq![file].drop_first() =~= Seq::empty());
}

/// The `use` declarations of a file are followed one after the other.
pub proof fn law_imports_are_searched_in_turn(
    answers: AnswersModel,
    a: Seq<SourceItemModel>,
    b: Seq<SourceItemModel>,
    current: PathModel,
    wanted: Seq<char>,
)
    ensures
        search_imports(answers, Seq::empty(), current, wanted) == Step::<
            Option<SourceItemModel>,
            QuestionModel,
        >::Done(None),
        search_imports(answers, a + b, current, wanted) == (match search_imports(
            answers,
            a,
            current,
            wanted,
        ) {
            Step::Done(None) => search_imports(answers, b, current, wanted),
            found => found,
        }),
    decreases a.len(),
{
    if a.len() == 0 {
        assert(a + b =~= b);
    } else {
        assert((a + b).drop_first() =~= a.drop_first() + b);
        assert((a + b)[0] == a[0]);
        law_imports_are_searched_in_turn(answers, a.drop_first(), b, current, wanted);
    }
}

/// A `use` declaration alone has the files searched that it collects, once they are all
/// known; any other item has none.
pub proof fn law_import_has_its_files_searched(
    answers: AnswersModel,
    item: SourceItemModel,
    current: PathModel,
    wanted: Seq<char>,
)
    ensures
        search_imports(answers, seq![item], current, wanted) == (match item {
            SourceItemModel::Import { tree } => match tree_files(
                answers,
                tree,
                Seq::empty(),
                current,
            ).open {
                Some(question) => Step::Ask(question),
                None => search_files(
                    answers,
                    tree_files(answers, tree, Seq::empty(), current).files,
                    wanted,
                ),
            },
            _ => Step::Done(None),
        }),
{
    reveal_with_fuel(search_imports, 2);
    assert(seq![item].drop_first() =~= Seq::empty());
}

/// The file that a type is referenced in has to be known first, and be readable. Without
/// a file or without a name, nothing is discovered.
pub proof fn law_origin_comes_first(
    answers: AnswersModel,
    origin: PathModel,
    type_path: Seq<Seq<char>>,
    fallback: Option<Seq<char>>,
)
    ensures
        origin.display().len() > 0 && answers.source(origin) is Ask ==> discovered(
            answers,
            origin,
            type_path,
            fallback,
        ) == Step::<Option<SourceItemModel>, QuestionModel>::Ask(QuestionModel::Source { path: origin }),
        origin.anchor.len() == 0 && origin.parts.len() == 0 ==> discovered(
            answers,
            origin,
            type_path,
            fallback,
        ) == Step::<Option<SourceItemModel>, QuestionModel>::Done(None),
        answers.source(origin) == Step::<Option<Seq<SourceItemModel>>, QuestionModel>::Done(None)
            ==> discovered(answers, origin, type_path, fallback) == Step::<
            Option<SourceItemModel>,
            QuestionModel,
        >::Done(None),
        type_path.len() == 0 && answers.source(origin) is Done ==> discovered(
            answers,
            origin,
            type_path,
            fallback,
        ) == Step::<Option<SourceItemModel>, QuestionModel>::Done(None),
{
    if origin.anchor.len() == 0 && origin.parts.len() == 0 {
        assert(origin.display() =~= Seq::empty());
    }
}

/// Where the file has nothing for the last segment of a path, what its imports lead to
/// is discovered; and where that is nothing, what the fallback gives in the same way.
pub proof fn law_imports_come_after_the_file(
    answers: AnswersModel,
    items: Seq<SourceItemModel>,
    origin: PathModel,
    type_path: Seq<Seq<char>>,
    fallback: Option<Seq<char>>,
)
    requires
        origin.anchor.len() > 0 || origin.parts.len() > 0,
        answers.source(origin) == Step::<Option<Seq<SourceItemModel>>, QuestionModel>::Done(
            Some(items),
        ),
        type_path.len() > 0,
        points_to_no(answers, items, origin, type_path.drop_last(), type_path[type_path.len() - 1]),
        search_file(answers, items, origin, type_path[type_path.len() - 1]) == Step::<
            Option<SourceItemModel>,
            QuestionModel,
        >::Done(None),
    ensures
        ({
            let there = search_imports(answers, items, origin, type_path[type_path.len() - 1]);
            discovered(answers, origin, type_path, fallback) == (if there == Step::<
                Option<SourceItemModel>,
                QuestionModel,
            >::Done(None) {
                match fallback {
                    Some(other) => discovered(
                        answers,
                        origin,
                        type_path.drop_last().push(other),
                        None,
                    ),
                    None => Step::Done(None),
                }
            } else {
                there
            })
        }),
{
    let wanted = type_path[type_path.len() - 1];
    assert(type_path.last() == wanted);
    crate::laws::lemma_search_from_without(answers, items, origin, type_path.drop_last(), wanted);
    crate::laws::lemma_search_from_without(answers, items, origin, Seq::empty(), wanted);
    if let Some(other) = fallback {
        assert(type_path.drop_last().push(other).drop_last() =~= type_path.drop_last());
    }
}

/// Whether all files that a `use` declaration collects are known, and have been searched
/// for `wanted` to no avail; an item that is no such declaration has none.
pub open spec fn leads_nowhere(
    answers: AnswersModel,
    item: SourceItemModel,
    current: PathModel,
    wanted: Seq<char>,
) -> bool {
    item matches SourceItemModel::Import { tree } ==> {
        let harvest = tree_files(answers, tree, Seq::empty(), current);
        harvest.open is None && forall|j: int|
            0 <= j < harvest.files.len() ==> has_not(answers, #[trigger] harvest.files[j], wanted)
    }
}

proof fn lemma_files_have_not(answers: AnswersModel, files: Seq<PathModel>, wanted: Seq<char>)
    requires
        forall|j: int| 0 <= j < files.len() ==> has_not(answers, #[trigger] files[j], wanted),
    ensures
        search_files(answers, files, wanted) == Step::<
            Option<SourceItemModel>,
            QuestionModel,
        >::Done(None),
    decreases files.len(),
{
    if files.len() > 0 {
        let rest = files.drop_first();
        assert(has_not(answers, files[0], wanted));
        assert forall|j: int| 0 <= j < rest.len() implies has_not(
            answers,
            #[trigger] rest[j],
            wanted,
        ) by {
            assert(rest[j] == files[j + 1]);
        }
        lemma_files_have_not(answers, rest, wanted);
    }
}

proof fn lemma_imports_lead_nowhere(
    answers: AnswersModel,
    items: Seq<SourceItemModel>,
    current: PathModel,
    wanted: Seq<char>,
)
    requires
        forall|i: int|
            0 <= i < items.len() ==> leads_nowhere(answers, #[trigger] items[i], current, wanted),
    ensures
        search_imports(answers, items, current, wanted) == Step::<
            Option<SourceItemModel>,
            QuestionModel,
        >::Done(None),
    decreases items.len(),
{
    if items.len() > 0 {
        let rest = items.drop_first();
        assert(leads_nowhere(answers, items[0], current, wanted));
        if let SourceItemModel::Import { tree } = items[0] {
            lemma_files_have_not(
                answers,
                tree_files(answers, tree, Seq::empty(), current).files,
                wanted,
            );
        }
        assert forall|i: int| 0 <= i < rest.len() implies leads_nowhere(
            answers,
            #[trigger] rest[i],
            current,
            wanted,
        ) by {
            assert(rest[i] == items[i + 1]);
        }
        lemma_imports_lead_nowhere(answers, rest, current, wanted);
    }
}

/// The common case: a type that the file says nothing of is discovered in the first
/// file, among those that its `use` declarations collect one after the other, that
/// defines it at its root. What the declarations import is of no account.
pub proof fn law_type_in_a_collected_file_is_discovered(
    answers: AnswersModel,
    items: Seq<SourceItemModel>,
    origin: PathModel,
    type_path: Seq<Seq<char>>,
    fallback: Option<Seq<char>>,
    i: int,
    tree: ImportTreeModel,
    j: int,
    inner: Seq<SourceItemModel>,
    d: int,
)
    requires
        origin.anchor.len() > 0 || origin.parts.len() > 0,
        answers.source(origin) == Step::<Option<Seq<SourceItemModel>>, QuestionModel>::Done(
            Some(items),
        ),
        type_path.len() > 0,
        points_to_no(answers, items, origin, type_path.drop_last(), type_path[type_path.len() - 1]),
        is_silent(items, type_path[type_path.len() - 1]),
        0 <= i < items.len(),
        items[i] == (SourceItemModel::Import { tree }),
        forall|m: int|
            0 <= m < i ==> leads_nowhere(
                answers,
                #[trigger] items[m],
                origin,
                type_path[type_path.len() - 1],
            ),
        ({
            let harvest = tree_files(answers, tree, Seq::empty(), origin);
            &&& harvest.open is None
            &&& 0 <= j < harvest.files.len()
            &&& forall|m: int|
                0 <= m < j ==> has_not(
                    answers,
                    #[trigger] harvest.files[m],
                    type_path[type_path.len() - 1],
                )
            &&& answers.source(harvest.files[j]) == Step::<
                Option<Seq<SourceItemModel>>,
                QuestionModel,
            >::Done(Some(inner))
        }),
        defined_at(inner, type_path[type_path.len() - 1], d),
    ensures
        discovered(answers, origin, type_path, fallback) == Step::<
            Option<SourceItemModel>,
            QuestionModel,
        >::Done(Some(inner[d])),
{
    let wanted = type_path[type_path.len() - 1];
    let files = tree_files(answers, tree, Seq::empty(), origin).files;
    let root = Place { items, path: origin, mod_path: Seq::empty(), wanted };
    law_silent_places_give_nothing(answers, root, Set::empty());
    law_imports_come_after_the_file(answers, items, origin, type_path, fallback);
    let a = items.take(i);
    let b = items.skip(i + 1);
    assert(items =~= a + (seq![items[i]] + b));
    assert forall|m: int| 0 <= m < a.len() implies leads_nowhere(
        answers,
        #[trigger] a[m],
        origin,
        wanted,
    ) by {
        assert(a[m] == items[m]);
    }
    lemma_imports_lead_nowhere(answers, a, origin, wanted);
    law_imports_are_searched_in_turn(answers, a, seq![items[i]] + b, origin, wanted);
    law_imports_are_searched_in_turn(answers, seq![items[i]], b, origin, wanted);
    law_import_has_its_files_searched(answers, items[i], origin, wanted);
    let x = files.take(j);
    let y = files.skip(j + 1);
    assert(files =~= x + (seq![files[j]] + y));
    assert forall|m: int| 0 <= m < x.len() implies has_not(answers, #[trigger] x[m], wanted) by {
        assert(x[m] == files[m]);
    }
    lemma_files_have_not(answers, x, wanted);
    law_files_are_searched_in_turn(answers, x, seq![files[j]] + y, wanted);
    law_files_are_searched_in_turn(answers, seq![files[j]], y, wanted);
    law_file_is_read_and_searched(answers, files[j], wanted);
    crate::laws::searching::law_definition_at_the_place_comes_first(
        answers,
        Place { items: inner, path: files[j], mod_path: Seq::empty(), wanted },
        Set::empty(),
        d,
    );
}

/// Modules are looked for item by item, and name by name.
pub proof fn law_modules_are_found_item_by_item(
    a: Seq<SourceItemModel>,
    b: Seq<SourceItemModel>,
    item: SourceItemModel,
    first: Seq<char>,
    rest: Seq<Seq<char>>,
)
    ensures
        modules_at(a, Seq::empty()) == seq![a],
        modules_at(Seq::empty(), seq![first] + rest) == Seq::<Seq<SourceItemModel>>::empty(),
        modules_at(a + b, seq![first] + rest) == modules_at(a, seq![first] + rest) + modules_at(
            b,
            seq![first] + rest,
        ),
        modules_at(seq![item], seq![first] + rest) == (match item {
            SourceItemModel::Module { name, body: Some(inner) } => if name == first {
                modules_at(inner, rest)
            } else {
                Seq::empty()
            },
            _ => Seq::empty(),
        }),
    decreases b.len(),
{
    let names = seq![first] + rest;
    assert(names.drop_first() =~= rest);
    if b.len() == 0 {
        assert(a + b =~= a);
        assert(modules_at(a, names) + modules_at(b, names) =~= modules_at(a, names));
    } else {
        law_modules_are_found_item_by_item(a, b.drop_last(), item, first, rest);
        assert((a + b).drop_last() =~= a + b.drop_last());
        assert((a + b).last() == b.last());
        assert(modules_at(a + b, names) =~= modules_at(a, names) + modules_at(b, names));
    }
    reveal_with_fuel(modules_at, 2);
    assert(seq![item].drop_last() =~= Seq::empty());
    assert(seq![item].last() == item);
    let alone = modules_at(seq![item], names);
    match item {
        SourceItemModel::Module { name, body: Some(inner) } if name == first => {
            assert(alone =~= modules_at(inner, rest));
        },
        _ => {
            assert(alone =~= Seq::empty());
        },
    }
}

/// Whether `item` is an inline module that declares a module called `name`, inline or
/// not, or imports one by that name, or has such a module nested in it.
pub open spec fn knows_module(item: SourceItemModel, name: Seq<char>) -> bool {
    item matches SourceItemModel::Module { name: other, body: Some(inner) } && (named_below(
        inner,
        name,
    ) || exists|j: int|
        0 <= j < inner.len() && match #[trigger] inner[j] {
            SourceItemModel::Module { name: third, body } => third == name,
            SourceItemModel::Import { tree } => binds(tree, Seq::empty(), name),
            _ => false,
        })
}

/// A module of a name is known below the root of a file if and only if one of the inline
/// modules there knows one.
pub proof fn law_names_below_are_those_of_inline_modules(
    items: Seq<SourceItemModel>,
    name: Seq<char>,
)
    ensures
        named_below(items, name) <==> exists|i: int|
            0 <= i < items.len() && knows_module(#[trigger] items[i], name),
    decreases items.len(),
{
    if items.len() > 0 {
        let front = items.drop_last();
        let last = items[items.len() - 1];
        law_names_below_are_those_of_inline_modules(front, name);
        assert(items.last() == last);
        assert(knows_module(last, name) == named_inside(last, name)) by {
            if let SourceItemModel::Module { name: other, body: Some(inner) } = last {
                assert(names_module(inner, name) == exists|j: int|
                    0 <= j < inner.len() && match #[trigger] inner[j] {
                        SourceItemModel::Module { name: third, body } => third == name,
                        SourceItemModel::Import { tree } => binds(tree, Seq::empty(), name),
                        _ => false,
                    });
            }
        }
        if named_below(front, name) {
            let i = choose|i: int| 0 <= i < front.len() && knows_module(#[trigger] front[i], name);
            assert(knows_module(items[i], name));
        }
        if exists|i: int| 0 <= i < items.len() && knows_module(#[trigger] items[i], name) {
            let i = choose|i: int| 0 <= i < items.len() && knows_module(#[trigger] items[i], name);
            if i < front.len() {
                assert(knows_module(front[i], name));
            }
        }
    }
}

/// The names of modules in front of a type are all leading segments, but for a first
/// `self` or `crate`.
pub proof fn law_self_and_crate_are_no_modules(rest: Seq<Seq<char>>)
    ensures
        module_names(seq!["self"@] + rest) == rest,
        module_names(seq!["crate"@] + rest) == rest,
        rest.len() > 0 && rest[0] != "self"@ && rest[0] != "crate"@ ==> module_names(rest) == rest,
        module_names(Seq::empty()) == Seq::<Seq<char>>::empty(),
{
    assert((seq!["self"@] + rest).drop_first() =~= rest);
    assert((seq!["crate"@] + rest).drop_first() =~= rest);
    assert((seq!["self"@] + rest)[0] == "self"@);
    assert((seq!["crate"@] + rest)[0] == "crate"@);
}

/// The path of a module is made of the names on the way, with `::` in between.
pub proof fn law_path_of_a_module_is_made_of_names(modules: Seq<Seq<char>>, name: Seq<char>)
    ensures
        path_of_module(Seq::empty()).len() == 0,
        path_of_module(seq![name]) == name,
        modules.len() > 0 && path_of_module(modules).len() > 0 ==> path_of_module(
            modules.push(name),
        ) == path_of_module(modules) + "::"@ + name,
{
    reveal_with_fuel(path_of_module, 2);
    assert(modules.push(name).drop_last() =~= modules);
    assert(seq![name].drop_last() =~= Seq::empty());
}

/// The common case of a path: a type that is referenced as `name::wanted` is the one
/// that the only inline module of that name, at the root of the file, defines, where
/// no other module of the file knows a module of that name.
pub proof fn law_type_in_the_named_module_is_discovered(
    answers: AnswersModel,
    items: Seq<SourceItemModel>,
    origin: PathModel,
    name: Seq<char>,
    wanted: Seq<char>,
    fallback: Option<Seq<char>>,
    i: int,
    inner: Seq<SourceItemModel>,
    d: int,
)
    requires
        origin.anchor.len() > 0 || origin.parts.len() > 0,
        answers.source(origin) == Step::<Option<Seq<SourceItemModel>>, QuestionModel>::Done(
            Some(items),
        ),
        name != "self"@,
        name != "crate"@,
        0 <= i < items.len(),
        items[i] == (SourceItemModel::Module { name, body: Some(inner) }),
        forall|j: int|
            0 <= j < items.len() && j != i ==> !(#[trigger] items[j] matches SourceItemModel::Module {
                name: other,
                body: Some(_),
            } && other == name),
        !named_below(items, name),
        defined_at(inner, wanted, d),
    ensures
        discovered(answers, origin, seq![name, wanted], fallback) == Step::<
            Option<SourceItemModel>,
            QuestionModel,
        >::Done(Some(inner[d])),
        discovered(answers, origin, seq!["self"@, name, wanted], fallback) == Step::<
            Option<SourceItemModel>,
            QuestionModel,
        >::Done(Some(inner[d])),
{
    let names = seq![name];
    lemma_only_module(items, name, i, inner);
    reveal_strlit("crate");
    reveal_strlit("self");
    assert("crate"@[0] == 'c');
    assert("self"@[0] == 's');
    let plain = seq![name, wanted];
    let longer = seq!["self"@, name, wanted];
    assert(plain.drop_last() =~= names);
    assert(longer.drop_last() =~= seq!["self"@, name]);
    assert(longer.drop_last().drop_first() =~= names);
    assert(module_names(plain.drop_last()) == names);
    assert(module_names(longer.drop_last()) == names);
    crate::laws::law_referenced_type_is_discovered(
        answers,
        items,
        origin,
        plain,
        fallback,
        inner,
        d,
    );
    crate::laws::law_referenced_type_is_discovered(
        answers,
        items,
        origin,
        longer,
        fallback,
        inner,
        d,
    );
}

proof fn lemma_no_module(items: Seq<SourceItemModel>, name: Seq<char>)
    requires
        forall|j: int|
            0 <= j < items.len() ==> !(#[trigger] items[j] matches SourceItemModel::Module {
                name: other,
                body: Some(_),
            } && other == name),
    ensures
        modules_at(items, seq![name]) == Seq::<Seq<SourceItemModel>>::empty(),
    decreases items.len(),
{
    if items.len() > 0 {
        let front = items.drop_last();
        assert forall|j: int| 0 <= j < front.len() implies !(#[trigger] front[j] matches SourceItemModel::Module {
            name: other,
            body: Some(_),
        } && other == name) by {
            assert(front[j] == items[j]);
        }
        lemma_no_module(front, name);
        assert(items.last() == items[items.len() - 1]);
        assert(modules_at(items, seq![name]) =~= Seq::empty());
    }
}

proof fn lemma_only_module(
    items: Seq<SourceItemModel>,
    name: Seq<char>,
    i: int,
    inner: Seq<SourceItemModel>,
)
    requires
        0 <= i < items.len(),
        items[i] == (SourceItemModel::Module { name, body: Some(inner) }),
        forall|j: int|
            0 <= j < items.len() && j != i ==> !(#[trigger] items[j] matches SourceItemModel::Module {
                name: other,
                body: Some(_),
            } && other == name),
    ensures
        modules_at(items, seq![name]) == seq![inner],
{
    let a = items.take(i);
    let b = items.skip(i + 1);
    let none = Seq::<Seq<char>>::empty();
    assert(items =~= a + (seq![items[i]] + b));
    assert forall|j: int| 0 <= j < a.len() implies !(#[trigger] a[j] matches SourceItemModel::Module {
        name: other,
        body: Some(_),
    } && other == name) by {
        assert(a[j] == items[j]);
    }
    assert forall|j: int| 0 <= j < b.len() implies !(#[trigger] b[j] matches SourceItemModel::Module {
        name: other,
        body: Some(_),
    } && other == name) by {
        assert(b[j] == items[i + 1 + j]);
    }
    lemma_no_module(a, name);
    lemma_no_module(b, name);
    assert(seq![name] + none =~= seq![name]);
    law_modules_are_found_item_by_item(a, seq![items[i]] + b, items[i], name, none);
    law_modules_are_found_item_by_item(seq![items[i]], b, items[i], name, none);
    law_modules_are_found_item_by_item(inner, b, items[i], name, none);
    assert(modules_at(items, seq![name]) =~= seq![inner]);
}

/// The root of a crate is `src/lib.rs` or `src/main.rs` in the innermost directory, above
/// `src` or in it, that has a `Cargo.toml`; no other file is one.
pub proof fn law_crate_root_is_lib_or_main(
    answers: AnswersModel,
    dir: PathModel,
    name: Seq<char>,
    file: PathModel,
)
    ensures
        answers.is_file(dir.join("src"@).join("Cargo.toml"@)) == Step::<
            bool,
            QuestionModel,
        >::Done(false) && answers.is_file(dir.join("Cargo.toml"@)) == Step::<
            bool,
            QuestionModel,
        >::Done(true) ==> is_crate_root(answers, dir.join("src"@).join(name)) == Step::<
            bool,
            QuestionModel,
        >::Done(name == "lib.rs"@ || name == "main.rs"@),
        is_crate_root(answers, file) == Step::<bool, QuestionModel>::Done(true)
            ==> file.parts.len() >= 2 && file.parts[file.parts.len() - 2] == "src"@ && (
        file.parts[file.parts.len() - 1] == "lib.rs"@ || file.parts[file.parts.len() - 1]
            == "main.rs"@),
{
    let src = dir.join("src"@);
    assert(src.join(name).parts.drop_last() =~= src.parts);
    assert(src.parts.drop_last() =~= dir.parts);
    assert(src.join(name).parent() == Some(src));
    assert(src.parent() == Some(dir));
    reveal_with_fuel(src_dir_from, 3);
    if answers.is_file(src.join("Cargo.toml"@)) == Step::<bool, QuestionModel>::Done(false)
        && answers.is_file(dir.join("Cargo.toml"@)) == Step::<bool, QuestionModel>::Done(true) {
        assert(crate_src_dir(answers, src.join(name)) == Step::<
            Option<PathModel>,
            QuestionModel,
        >::Done(Some(src)));
        if src.join(name) == src.join("lib.rs"@) {
            assert(src.join(name).parts.last() == src.join("lib.rs"@).parts.last());
        }
        if src.join(name) == src.join("main.rs"@) {
            assert(src.join(name).parts.last() == src.join("main.rs"@).parts.last());
        }
    }
    if is_crate_root(answers, file) == Step::<bool, QuestionModel>::Done(true) {
        crate::laws::law_crate_is_innermost(answers, file);
        let found = crate_src_dir(answers, file)->Done_0->0;
        assert(found.parts[found.parts.len() - 1] == "src"@);
        assert(file.parts.drop_last() =~= found.parts);
        assert(file.parts[file.parts.len() - 2] == file.parts.drop_last()[file.parts.len() - 2]);
    }
}

/// A name ends in `Ex` if and only if it is some text with `Ex` behind it; that text is
/// its stem.
pub proof fn law_extended_names_end_in_ex(name: Seq<char>, before: Seq<char>)
    ensures
        is_extended(before + "Ex"@),
        stem(before + "Ex"@) == before,
        is_extended(name) ==> name == stem(name) + "Ex"@,
{
    reveal_strlit("Ex");
    let long = before + "Ex"@;
    assert(long[long.len() - 2] == 'E');
    assert(long[long.len() - 1] == 'x');
    assert(long.take(long.len() - 2) =~= before);
    if is_extended(name) {
        assert(name =~= stem(name) + "Ex"@);
    }
}

/// What a type called `before` with `Ex` behind it is generated from is `before`, where
/// that is an identifier; a name that does not end so has nothing to be generated from.
pub proof fn law_companion_of_a_name(before: Seq<char>, name: Seq<char>, other: Option<Seq<char>>)
    ensures
        is_companion(before + "Ex"@, other) && (is_word(before) && is_identifier(before)
            || is_raw_identifier(before)) ==> other == Some(before),
        is_companion(name, other) && (forall|text: Seq<char>| name != #[trigger] (text + "Ex"@))
            ==> other is None,
{
    law_extended_names_end_in_ex(name, before);
    if is_raw_identifier(before) {
        assert(before[1] == '#');
    }
    if is_extended(name) {
        assert(name == stem(name) + "Ex"@);
    }
}

/// What is discovered of a type are the fields of the definition that a search for its
/// name comes to, or else one for its name with `Ex` taken away.
pub proof fn law_discovery_gives_the_fields(
    answers: AnswersModel,
    origin: PathModel,
    type_path: Seq<Seq<char>>,
    found: Step<Option<Map<Seq<char>, FieldTypeModel>>, QuestionModel>,
    before: Seq<char>,
)
    requires
        may_discover(answers, origin, type_path, found),
    ensures
        type_path.len() == 0 || !is_extended(type_path[type_path.len() - 1]) ==> found
            == types_found(discovered(answers, origin, type_path, None)),
        type_path.len() > 0 && type_path[type_path.len() - 1] == before + "Ex"@ && is_word(before)
            && is_identifier(before) ==> found == types_found(
            discovered(answers, origin, type_path, Some(before)),
        ),
{
    let fallback = choose|fallback: Option<Seq<char>>|
        (type_path.len() > 0 ==> is_companion(type_path.last(), fallback)) && found
            == types_found(#[trigger] discovered(answers, origin, type_path, fallback));
    law_companion_of_a_name(before, before, fallback);
    if type_path.len() == 0 {
        assert(discovered(answers, origin, type_path, fallback) == discovered(
            answers,
            origin,
            type_path,
            None,
        ));
    }
}

/// A path points into the module that its names lead to from the root of the file, be
/// there one name or many, where that is the only one and no other module of the file
/// knows a module of the first name. The module is searched as it stands in that file.
pub proof fn law_path_points_into_the_module_it_names(
    answers: AnswersModel,
    items: Seq<SourceItemModel>,
    origin: PathModel,
    leading: Seq<Seq<char>>,
    inner: Seq<SourceItemModel>,
    wanted: Seq<char>,
)
    requires
        leading.len() > 0,
        modules_at(items, leading) == seq![inner],
        leading[0] != "self"@,
        leading[0] != "crate"@,
    ensures
        !named_below(items, leading[0]) ==> module_pointed_into(answers, items, origin, leading)
            == Step::<Option<Seq<SourceItemModel>>, QuestionModel>::Done(Some(inner)),
        !named_below(items, leading[0]) ==> module_pointed_into(
            answers,
            items,
            origin,
            seq!["self"@] + leading,
        ) == Step::<Option<Seq<SourceItemModel>>, QuestionModel>::Done(Some(inner)),
        module_pointed_into(answers, items, origin, seq!["crate"@] + leading) == (
        match is_crate_root(answers, origin) {
            Step::Ask(question) => Step::Ask(question),
            Step::Done(root) => Step::Done(
                if root {
                    Some(inner)
                } else {
                    None
                },
            ),
        }),
        place_pointed_into(inner, origin, leading, wanted).items == inner,
        place_pointed_into(inner, origin, leading, wanted).path == origin,
        place_pointed_into(inner, origin, leading, wanted).wanted == wanted,
{
    reveal_strlit("crate");
    reveal_strlit("self");
    assert("crate"@[0] == 'c');
    assert("self"@[0] == 's');
    law_self_and_crate_are_no_modules(leading);
    assert((seq!["self"@] + leading)[0] == "self"@);
    assert((seq!["crate"@] + leading)[0] == "crate"@);
    assert(seq![inner][0] == inner);
}

/// Outside the root of a crate, a path that goes by `crate` points into no module of the
/// file, and only its last segment counts.
pub proof fn law_crate_paths_elsewhere_go_by_the_last_segment(
    answers: AnswersModel,
    items: Seq<SourceItemModel>,
    origin: PathModel,
    type_path: Seq<Seq<char>>,
    fallback: Option<Seq<char>>,
)
    requires
        answers.source(origin) == Step::<Option<Seq<SourceItemModel>>, QuestionModel>::Done(
            Some(items),
        ),
        is_crate_root(answers, origin) == Step::<bool, QuestionModel>::Done(false),
        type_path.len() > 0,
    ensures
        discovered(answers, origin, seq!["crate"@] + type_path, fallback) == discovered(
            answers,
            origin,
            seq![type_path[type_path.len() - 1]],
            fallback,
        ),
{
    let longer = seq!["crate"@] + type_path;
    assert(longer.last() == type_path[type_path.len() - 1]);
    assert(longer.drop_last()[0] == "crate"@);
    crate::laws::law_other_references_go_by_the_last_segment(
        answers,
        items,
        origin,
        longer,
        fallback,
    );
}

/// Collecting keeps the files that were there, in front and in their order, and puts
/// those that are found behind them; it ends with the question that is open, if any.
pub proof fn law_collecting_keeps_what_was_there(
    before: Vec<FilePath>,
    after: Vec<FilePath>,
    step: Step<(), Question>,
    harvest: Harvest,
)
    requires
        collected(before, after, step, harvest),
    ensures
        after@.len() == before@.len() + harvest.files.len(),
        forall|i: int| 0 <= i < before@.len() ==> (#[trigger] after@[i])@ == before@[i]@,
        forall|i: int|
            before@.len() <= i < after@.len() ==> (#[trigger] after@[i])@ == harvest.files[i
                - before@.len()],
        step is Done <==> harvest.open is None,
        step matches Step::Ask(question) ==> harvest.open == Some(question.deep_view()),
{
    let (x, y) = (paths(before@), paths(after@));
    assert(y.len() == after@.len() && x.len() == before@.len());
    assert forall|i: int| 0 <= i < after@.len() implies (#[trigger] after@[i])@ == y[i] by {}
    assert forall|i: int| 0 <= i < before@.len() implies (#[trigger] before@[i])@ == x[i] by {}
    assert forall|i: int| 0 <= i < before@.len() implies (#[trigger] after@[i])@ == before@[i]@ by {
        assert(y[i] == x[i]);
    }
}

/// A search is for the name, and starts with the items, the file and the module that it
/// is given.
pub proof fn law_search_starts_where_it_is_told(
    items: Seq<SourceItem>,
    path: PathModel,
    mod_path: Seq<char>,
    wanted: Seq<char>,
)
    ensures
        place_at(items, path, mod_path, wanted).path == path,
        place_at(items, path, mod_path, wanted).mod_path == mod_path,
        place_at(items, path, mod_path, wanted).wanted == wanted,
        place_at(items, path, mod_path, wanted).items.len() == items.len(),
        forall|i: int|
            0 <= i < items.len() ==> #[trigger] place_at(items, path, mod_path, wanted).items[i]
                == items[i]@,
{
}

/// Where a search in the module that a path points into comes to nothing, the file is
/// searched for the last segment as if it stood alone; so it is for the fallback.
pub proof fn law_file_comes_after_the_module(
    answers: AnswersModel,
    items: Seq<SourceItemModel>,
    origin: PathModel,
    type_path: Seq<Seq<char>>,
    fallback: Option<Seq<char>>,
    inner: Seq<SourceItemModel>,
)
    requires
        answers.source(origin) == Step::<Option<Seq<SourceItemModel>>, QuestionModel>::Done(
            Some(items),
        ),
        type_path.len() > 0,
        module_pointed_into(answers, items, origin, type_path.drop_last()) == Step::<
            Option<Seq<SourceItemModel>>,
            QuestionModel,
        >::Done(Some(inner)),
        comes_to_nothing(
            answers,
            place_pointed_into(
                inner,
                origin,
                type_path.drop_last(),
                type_path[type_path.len() - 1],
            ),
        ),
        fallback matches Some(other) ==> comes_to_nothing(
            answers,
            place_pointed_into(inner, origin, type_path.drop_last(), other),
        ),
    ensures
        discovered(answers, origin, type_path, fallback) == discovered(
            answers,
            origin,
            seq![type_path[type_path.len() - 1]],
            fallback,
        ),
{
    assert(type_path.last() == type_path[type_path.len() - 1]);
    assert(seq![type_path.last()].drop_last() =~= Seq::empty());
}

/// Whether a search in the scope of a module comes to nothing.
pub open spec fn comes_to_nothing(answers: AnswersModel, place: Place) -> bool {
    search_scope(answers, place, set![place.key()], 0) == Step::<
        Option<SourceItemModel>,
        QuestionModel,
    >::Done(None)
}

} // verus!
