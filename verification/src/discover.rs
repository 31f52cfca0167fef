//! Discovery of the fields of a type, from where the type is referenced.
use vstd::prelude::*;

use crate::answers::{Answers, AnswersModel, Question, QuestionModel, Step};
use crate::fields::{types_of_definition, FieldMap, FieldTypeModel, NameSet};
use crate::parse::{parse_ident, reads_as};
use crate::path::{copy_texts, same_text, texts, FilePath, PathModel};
use crate::resolve::{
    binds, collect_resolved_files, crate_src_dir, find_crate_src_dir, paths, tree_binds,
    tree_files,
};
use crate::search::{
    find_in_scope, find_named_fields_with_types_in_file, nested_mod_path, nested_path, search,
    search_scope, types_found, Place,
};
use crate::syntax::{item_models, SourceItem, SourceItemModel};

verus! {

/// What a search for `wanted` in the whole file `path`, which holds `items`, comes to.
pub open spec fn search_file(
    answers: AnswersModel,
    items: Seq<SourceItemModel>,
    path: PathModel,
    wanted: Seq<char>,
) -> Step<Option<SourceItemModel>, QuestionModel> {
    search(
        answers,
        Place { items, path, mod_path: Seq::empty(), wanted },
        Set::empty(),
    ).step
}

/// What a search in the files `files`, one after the other, comes to. Files that
/// cannot be read and parsed are passed over.
pub open spec fn search_files(
    answers: AnswersModel,
    files: Seq<PathModel>,
    wanted: Seq<char>,
) -> Step<Option<SourceItemModel>, QuestionModel>
    decreases files.len(),
{
    if files.len() == 0 {
        Step::Done(None)
    } else {
        match answers.source(files[0]) {
            Step::Ask(question) => Step::Ask(question),
            Step::Done(None) => search_files(answers, files.drop_first(), wanted),
            Step::Done(Some(items)) => match search_file(answers, items, files[0], wanted) {
                Step::Done(None) => search_files(answers, files.drop_first(), wanted),
                found => found,
            },
        }
    }
}

/// What a search in the files that the `use` declarations among `items` lead to,
/// whatever they import, comes to. `current` is the file of the items.
pub open spec fn search_imports(
    answers: AnswersModel,
    items: Seq<SourceItemModel>,
    current: PathModel,
    wanted: Seq<char>,
) -> Step<Option<SourceItemModel>, QuestionModel>
    decreases items.len(),
{
    if items.len() == 0 {
        Step::Done(None)
    } else {
        match items[0] {
            SourceItemModel::Import { tree } => {
                let harvest = tree_files(answers, tree, Seq::empty(), current);
                match harvest.open {
                    Some(question) => Step::Ask(question),
                    None => match search_files(answers, harvest.files, wanted) {
                        Step::Done(None) => search_imports(
                            answers,
                            items.drop_first(),
                            current,
                            wanted,
                        ),
                        found => found,
                    },
                }
            },
            _ => search_imports(answers, items.drop_first(), current, wanted),
        }
    }
}

/// The items of each inline module that `modules` leads to from `items`, one name
/// after the other. There is more than one where modules share a name.
pub open spec fn modules_at(items: Seq<SourceItemModel>, modules: Seq<Seq<char>>) -> Seq<
    Seq<SourceItemModel>,
>
    decreases modules.len(), items.len(),
{
    if modules.len() == 0 {
        seq![items]
    } else if items.len() == 0 {
        Seq::empty()
    } else {
        modules_at(items.drop_last(), modules) + (match items.last() {
            SourceItemModel::Module { name, body: Some(inner) } if name == modules[0] =>
                modules_at(inner, modules.drop_first()),
            _ => Seq::empty(),
        })
    }
}

/// Whether one of `items` declares a module called `name`, inline or not, or is an
/// import that gives a module that name.
pub open spec fn names_module(items: Seq<SourceItemModel>, name: Seq<char>) -> bool {
    exists|i: int|
        0 <= i < items.len() && match #[trigger] items[i] {
            SourceItemModel::Module { name: other, body } => other == name,
            SourceItemModel::Import { tree } => binds(tree, Seq::empty(), name),
            _ => false,
        }
}

/// Whether one of the inline modules in `items`, at any depth, has a module called
/// `name` of its own.
pub open spec fn named_below(items: Seq<SourceItemModel>, name: Seq<char>) -> bool
    decreases items,
{
    items.len() > 0 && (named_below(items.drop_last(), name) || named_inside(items.last(), name))
}

/// Whether `item` is an inline module that, or one in it, has a module called `name`
/// of its own.
pub open spec fn named_inside(item: SourceItemModel, name: Seq<char>) -> bool
    decreases item,
{
    match item {
        SourceItemModel::Module { name: other, body: Some(inner) } => names_module(inner, name)
            || named_below(inner, name),
        _ => false,
    }
}

/// Whether `file` is the root of its crate: `lib.rs` or `main.rs` in the `src`
/// directory.
pub open spec fn is_crate_root(answers: AnswersModel, file: PathModel) -> Step<
    bool,
    QuestionModel,
> {
    match crate_src_dir(answers, file) {
        Step::Ask(question) => Step::Ask(question),
        Step::Done(None) => Step::Done(false),
        Step::Done(Some(src)) => Step::Done(
            file == src.join("lib.rs"@) || file == src.join("main.rs"@),
        ),
    }
}

/// The names of inline modules that the leading segments of a path can be: all of
/// them, or all but a leading `self` or `crate`.
pub open spec fn module_names(leading: Seq<Seq<char>>) -> Seq<Seq<char>> {
    if leading.len() > 0 && (leading[0] == "self"@ || leading[0] == "crate"@) {
        leading.drop_first()
    } else {
        leading
    }
}

/// The path of the inline module that `modules` leads to from the root of a file.
pub open spec fn path_of_module(modules: Seq<Seq<char>>) -> Seq<char>
    decreases modules.len(),
{
    if modules.len() == 0 {
        Seq::empty()
    } else {
        nested_mod_path(path_of_module(modules.drop_last()), modules.last())
    }
}

/// The items of the inline module of the file `origin`, which holds `items`, that a
/// path with the leading segments `leading` points into.
///
/// It is the only one that the segments lead to from the root of the file. Where it
/// does not go by `crate`, the path may stand in any module of the file, and there its
/// first name may mean another module: it points into an inline module only if no
/// other module of the file declares or imports a module of that name. A path that
/// goes by `crate` does so only in the root of a crate.
pub open spec fn module_pointed_into(
    answers: AnswersModel,
    items: Seq<SourceItemModel>,
    origin: PathModel,
    leading: Seq<Seq<char>>,
) -> Step<Option<Seq<SourceItemModel>>, QuestionModel> {
    let modules = module_names(leading);
    let found = modules_at(items, modules);
    if modules.len() == 0 || found.len() != 1 {
        Step::Done(None)
    } else if leading[0] == "crate"@ {
        match is_crate_root(answers, origin) {
            Step::Ask(question) => Step::Ask(question),
            Step::Done(true) => Step::Done(Some(found[0])),
            Step::Done(false) => Step::Done(None),
        }
    } else if named_below(items, modules[0]) {
        Step::Done(None)
    } else {
        Step::Done(Some(found[0]))
    }
}

/// The place where a search for `wanted` in an inline module starts that holds `items`
/// and that a path with the leading segments `leading` points into.
pub open spec fn place_pointed_into(
    items: Seq<SourceItemModel>,
    origin: PathModel,
    leading: Seq<Seq<char>>,
    wanted: Seq<char>,
) -> Place {
    Place { items, path: origin, mod_path: path_of_module(module_names(leading)), wanted }
}

/// What a search for `wanted` in the inline module that a path points into comes to:
/// in its own scope, without the modules nested in it.
pub open spec fn search_module(
    answers: AnswersModel,
    items: Seq<SourceItemModel>,
    origin: PathModel,
    leading: Seq<Seq<char>>,
    wanted: Seq<char>,
) -> Step<Option<SourceItemModel>, QuestionModel> {
    match module_pointed_into(answers, items, origin, leading) {
        Step::Ask(question) => Step::Ask(question),
        Step::Done(None) => Step::Done(None),
        Step::Done(Some(inner)) => {
            let place = place_pointed_into(inner, origin, leading, wanted);
            search_scope(answers, place, set![place.key()], 0)
        },
    }
}

/// What a search for `wanted` from the file `origin`, which holds `items`, comes to:
/// the inline module that the leading segments point into comes first, then the whole
/// file, then the files that its imports lead to.
pub open spec fn search_from(
    answers: AnswersModel,
    items: Seq<SourceItemModel>,
    origin: PathModel,
    leading: Seq<Seq<char>>,
    wanted: Seq<char>,
) -> Step<Option<SourceItemModel>, QuestionModel> {
    match search_module(answers, items, origin, leading, wanted) {
        Step::Done(None) => match search_file(answers, items, origin, wanted) {
            Step::Done(None) => search_imports(answers, items, origin, wanted),
            found => found,
        },
        found => found,
    }
}

/// What a search for `wanted`, and after that for `fallback`, comes to, where the
/// type is referenced in the file `origin` by a path with the leading segments
/// `leading`.
pub open spec fn search_with_fallback(
    answers: AnswersModel,
    origin: PathModel,
    leading: Seq<Seq<char>>,
    wanted: Seq<char>,
    fallback: Option<Seq<char>>,
) -> Step<Option<SourceItemModel>, QuestionModel> {
    match answers.source(origin) {
        Step::Ask(question) => Step::Ask(question),
        Step::Done(None) => Step::Done(None),
        Step::Done(Some(items)) => match search_from(answers, items, origin, leading, wanted) {
            Step::Done(None) => match fallback {
                Some(other) => search_from(answers, items, origin, leading, other),
                None => Step::Done(None),
            },
            found => found,
        },
    }
}

/// Whether `name` ends in `Ex`.
pub open spec fn is_extended(name: Seq<char>) -> bool {
    name.len() >= 2 && name[name.len() - 2] == 'E' && name[name.len() - 1] == 'x'
}

/// The text of a name that may be missing.
pub open spec fn name_text(name: Option<String>) -> Option<Seq<char>> {
    match name {
        Some(text) => Some(text@),
        None => None,
    }
}

/// What stands before the last two characters of `name`.
pub open spec fn stem(name: Seq<char>) -> Seq<char> {
    name.take(name.len() - 2)
}

/// Whether `other` can be the name of the type that a type called `name` is generated
/// from: what the text before `Ex` is read as, and nothing for a name that does not
/// end so.
pub open spec fn is_companion(name: Seq<char>, other: Option<Seq<char>>) -> bool {
    if is_extended(name) {
        reads_as(stem(name), other)
    } else {
        other is None
    }
}

/// What the discovery of the type that `type_path` names, referenced in the file
/// `origin`, comes to, where `fallback` is the name of the type that it is generated
/// from, if any.
pub open spec fn discovered(
    answers: AnswersModel,
    origin: PathModel,
    type_path: Seq<Seq<char>>,
    fallback: Option<Seq<char>>,
) -> Step<Option<SourceItemModel>, QuestionModel> {
    if origin.anchor.len() == 0 && origin.parts.len() == 0 {
        Step::Done(None)
    } else if type_path.len() == 0 {
        match answers.source(origin) {
            Step::Ask(question) => Step::Ask(question),
            Step::Done(_) => Step::Done(None),
        }
    } else {
        search_with_fallback(answers, origin, type_path.drop_last(), type_path.last(), fallback)
    }
}

/// Whether `found` can be what is discovered of the fields of the type that
/// `type_path` names, with one of the names that it can be generated from. For all
/// names but those with a text before `Ex` that is not plain, there is one answer.
pub open spec fn may_discover(
    answers: AnswersModel,
    origin: PathModel,
    type_path: Seq<Seq<char>>,
    found: Step<Option<Map<Seq<char>, FieldTypeModel>>, QuestionModel>,
) -> bool {
    exists|fallback: Option<Seq<char>>|
        (type_path.len() > 0 ==> is_companion(type_path.last(), fallback)) && found == types_found(
            #[trigger] discovered(answers, origin, type_path, fallback),
        )
}

/// The names of the fields among what is discovered.
pub open spec fn names_in(
    found: Step<Option<Map<Seq<char>, FieldTypeModel>>, QuestionModel>,
) -> Step<Option<Set<Seq<char>>>, QuestionModel> {
    match found {
        Step::Done(Some(types)) => Step::Done(Some(types.dom())),
        Step::Done(None) => Step::Done(None),
        Step::Ask(question) => Step::Ask(question),
    }
}

/// The fields of `wanted` in the file `path`, which holds `items`.
fn fields_in_file<'a>(
    answers: &'a Answers,
    items: &'a Vec<SourceItem>,
    path: &FilePath,
    wanted: &str,
) -> (r: Step<Option<FieldMap<'a>>, Question>)
    ensures
        r matches Step::Done(Some(types)) ==> types.wf(),
        r.deep_view() == types_found(search_file(answers@, item_models(items@), path@, wanted@)),
{
    proof {
        reveal_strlit("");
        assert(""@ =~= Seq::empty());
    }
    let mut visited = NameSet::new();
    find_named_fields_with_types_in_file(answers, items, path, "", wanted, &mut visited)
}

/// The fields of `wanted` in the files that the imports of the file `origin`, which
/// holds `items`, lead to.
fn fields_in_imports<'a>(
    answers: &'a Answers,
    items: &'a Vec<SourceItem>,
    origin: &FilePath,
    wanted: &str,
) -> (r: Step<Option<FieldMap<'a>>, Question>)
    ensures
        r matches Step::Done(Some(types)) ==> types.wf(),
        r.deep_view() == types_found(
            search_imports(answers@, item_models(items@), origin@, wanted@),
        ),
{
    let ghost models = item_models(items@);
    let ghost whole = search_imports(answers@, models, origin@, wanted@);
    let mut i: usize = 0;
    assert(models.skip(0) =~= models);
    while i < items.len()
        invariant
            i <= items@.len(),
            models == item_models(items@),
            whole == search_imports(answers@, models, origin@, wanted@),
            whole == search_imports(answers@, models.skip(i as int), origin@, wanted@),
        decreases items@.len() - i,
    {
        assert(models.skip(i as int).drop_first() =~= models.skip(i + 1));
        assert(models.skip(i as int)[0] == items@[i as int]@);
        if let SourceItem::Import { tree } = &items[i] {
            match collect_resolved_files(answers, tree, origin) {
                Step::Ask(question) => {
                    return Step::Ask(question);
                },
                Step::Done(files) => {
                    match fields_in_files(answers, &files, wanted) {
                        Step::Done(None) => {},
                        found => {
                            return found;
                        },
                    }
                },
            }
        }
        i += 1;
    }
    Step::Done(None)
}

/// The fields of `wanted` in the first of `files` that defines it.
fn fields_in_files<'a>(answers: &'a Answers, files: &Vec<FilePath>, wanted: &str) -> (r: Step<
    Option<FieldMap<'a>>,
    Question,
>)
    ensures
        r matches Step::Done(Some(types)) ==> types.wf(),
        r.deep_view() == types_found(search_files(answers@, paths(files@), wanted@)),
{
    let ghost models = paths(files@);
    let ghost whole = search_files(answers@, models, wanted@);
    let mut i: usize = 0;
    assert(models.skip(0) =~= models);
    while i < files.len()
        invariant
            i <= files@.len(),
            models == paths(files@),
            whole == search_files(answers@, models, wanted@),
            whole == search_files(answers@, models.skip(i as int), wanted@),
        decreases files@.len() - i,
    {
        assert(models.skip(i as int).drop_first() =~= models.skip(i + 1));
        assert(models.skip(i as int)[0] == files@[i as int]@);
        match answers.source(&files[i]) {
            Step::Ask(question) => {
                return Step::Ask(question);
            },
            Step::Done(None) => {},
            Step::Done(Some(content)) => {
                match fields_in_file(answers, content, &files[i], wanted) {
                    Step::Done(None) => {},
                    found => {
                        return found;
                    },
                }
            },
        }
        i += 1;
    }
    Step::Done(None)
}

/// The items of a sequence of modules.
spec fn bodies(modules: Seq<&Vec<SourceItem>>) -> Seq<Seq<SourceItemModel>> {
    modules.map_values(|items: &Vec<SourceItem>| item_models(items@))
}

/// Collects the items of each inline module that `modules[depth..]` leads to.
fn collect_modules<'a>(
    items: &'a Vec<SourceItem>,
    modules: &[String],
    depth: usize,
    found: &mut Vec<&'a Vec<SourceItem>>,
)
    requires
        depth <= modules@.len(),
    ensures
        bodies(final(found)@) == bodies(old(found)@) + modules_at(
            item_models(items@),
            texts(modules@).skip(depth as int),
        ),
    decreases modules@.len() - depth,
{
    let ghost models = item_models(items@);
    let ghost ahead = texts(modules@).skip(depth as int);
    let ghost before = bodies(found@);
    if depth == modules.len() {
        found.push(items);
        assert(bodies(found@) =~= before + modules_at(models, ahead));
        return;
    }
    let mut i: usize = 0;
    assert(before =~= before + modules_at(models.take(0), ahead));
    while i < items.len()
        invariant
            i <= items@.len(),
            depth < modules@.len(),
            models == item_models(items@),
            ahead == texts(modules@).skip(depth as int),
            bodies(found@) == before + modules_at(models.take(i as int), ahead),
        decreases items@.len() - i,
    {
        proof {
            assert(models[i as int] == items@[i as int]@);
            assert(ahead[0] == modules@[depth as int]@);
            assert(models.take(i + 1).drop_last() =~= models.take(i as int));
            assert(models.take(i + 1).last() == models[i as int]);
            assert(ahead.drop_first() =~= texts(modules@).skip(depth + 1));
        }
        if let SourceItem::Module { name, body } = &items[i] {
            if let Some(inner) = body {
                if same_text(name.as_str(), modules[depth].as_str()) {
                    collect_modules(inner, modules, depth + 1, found);
                }
            }
        }
        i += 1;
        assert(bodies(found@) =~= before + modules_at(models.take(i as int), ahead));
    }
    assert(models.take(i as int) =~= models);
}

/// Whether one of `items` declares or imports a module called `name`.
fn declares_module(items: &Vec<SourceItem>, name: &str) -> (r: bool)
    ensures
        r == names_module(item_models(items@), name@),
{
    let ghost models = item_models(items@);
    proof {
        reveal_strlit("");
        assert(""@ =~= Seq::empty());
    }
    let mut i: usize = 0;
    while i < items.len()
        invariant
            i <= items@.len(),
            models == item_models(items@),
            ""@ == Seq::<char>::empty(),
            !names_module(models.take(i as int), name@),
        decreases items@.len() - i,
    {
        assert(models[i as int] == items@[i as int]@);
        let here = match &items[i] {
            SourceItem::Module { name: other, body: _ } => same_text(other.as_str(), name),
            SourceItem::Import { tree } => tree_binds(tree, "", name),
            _ => false,
        };
        if here {
            return true;
        }
        proof {
            assert forall|j: int| 0 <= j < i + 1 implies match #[trigger] models.take(i + 1)[j] {
                SourceItemModel::Module { name: other, body } => other != name@,
                SourceItemModel::Import { tree } => !binds(tree, Seq::empty(), name@),
                _ => true,
            } by {
                if j < i {
                    assert(models.take(i as int)[j] == models.take(i + 1)[j]);
                }
            }
        }
        i += 1;
    }
    assert(models.take(i as int) =~= models);
    false
}

/// Whether one of the inline modules in `items` has a module called `name` of its own.
fn declares_below(items: &Vec<SourceItem>, name: &str) -> (r: bool)
    ensures
        r == named_below(item_models(items@), name@),
    decreases item_models(items@),
{
    let ghost models = item_models(items@);
    let mut i: usize = 0;
    let mut r: bool = false;
    while i < items.len()
        invariant
            i <= items@.len(),
            models == item_models(items@),
            r == named_below(models.take(i as int), name@),
        decreases items@.len() - i,
    {
        proof {
            assert(models[i as int] == items@[i as int]@);
            assert(models.take(i + 1).drop_last() =~= models.take(i as int));
            assert(models.take(i + 1).last() == models[i as int]);
        }
        let ghost was = r;
        if let SourceItem::Module { name: _, body } = &items[i] {
            if let Some(inner) = body {
                assert(decreases_to!(models => models[i as int]));
                assert(decreases_to!(models[i as int] => models[i as int]->body));
                assert(decreases_to!(models[i as int]->body => models[i as int]->body->0));
                if declares_module(inner, name) || declares_below(inner, name) {
                    r = true;
                }
            }
        }
        assert(r == (was || named_inside(models[i as int], name@)));
        assert(named_below(models.take(i + 1), name@) == r);
        i += 1;
    }
    assert(models.take(i as int) =~= models);
    r
}

/// Whether a file is the root of its crate.
fn at_crate_root(answers: &Answers, file: &FilePath) -> (r: Step<bool, Question>)
    ensures
        r.deep_view() == is_crate_root(answers@, file@),
{
    match find_crate_src_dir(answers, file) {
        Step::Ask(question) => Step::Ask(question),
        Step::Done(None) => Step::Done(false),
        Step::Done(Some(src)) => Step::Done(
            file.same(&src.join("lib.rs")) || file.same(&src.join("main.rs")),
        ),
    }
}

/// The path of the inline module that `modules[from..]` leads to.
fn path_to_module(modules: &[String], from: usize) -> (r: String)
    requires
        from <= modules@.len(),
    ensures
        r@ == path_of_module(texts(modules@).skip(from as int)),
{
    let ghost names = texts(modules@).skip(from as int);
    let mut r = String::new();
    let mut i: usize = from;
    assert(r@ =~= path_of_module(names.take(0)));
    while i < modules.len()
        invariant
            from <= i <= modules@.len(),
            names == texts(modules@).skip(from as int),
            r@ == path_of_module(names.take(i - from)),
        decreases modules@.len() - i,
    {
        assert(names.take(i + 1 - from).drop_last() =~= names.take(i - from));
        assert(names.take(i + 1 - from).last() == modules@[i as int]@);
        r = nested_path(r.as_str(), modules[i].as_str());
        i += 1;
    }
    assert(names.take(i - from) =~= names);
    r
}

/// Where the names of modules start among the leading segments of a path.
fn first_module(leading: &[String]) -> (r: usize)
    ensures
        r <= leading@.len(),
        texts(leading@).skip(r as int) == module_names(texts(leading@)),
{
    let ghost names = texts(leading@);
    if leading.len() > 0 {
        assert(names[0] == leading@[0]@);
        if same_text(leading[0].as_str(), "self") || same_text(leading[0].as_str(), "crate") {
            assert(names.skip(1) =~= names.drop_first());
            return 1;
        }
    }
    assert(names.skip(0) =~= names);
    0
}

/// The items of the inline module that a path with the leading segments `leading`
/// points into.
fn find_module<'a>(
    answers: &Answers,
    items: &'a Vec<SourceItem>,
    origin: &FilePath,
    leading: &[String],
) -> (r: Step<Option<&'a Vec<SourceItem>>, Question>)
    ensures
        module_pointed_into(answers@, item_models(items@), origin@, texts(leading@)) == (match r {
            Step::Ask(question) => Step::Ask(question.deep_view()),
            Step::Done(Some(inner)) => Step::Done(Some(item_models(inner@))),
            Step::Done(None) => Step::Done(None),
        }),
{
    let from: usize = first_module(leading);
    let mut found: Vec<&'a Vec<SourceItem>> = Vec::new();
    collect_modules(items, leading, from, &mut found);
    proof {
        assert(bodies(found@) =~= modules_at(item_models(items@), module_names(texts(leading@))));
        assert(bodies(found@).len() == found@.len());
    }
    if from == leading.len() || found.len() != 1 {
        return Step::Done(None);
    }
    assert(bodies(found@)[0] == item_models(found@[0]@));
    assert(texts(leading@)[0] == leading@[0]@);
    assert(module_names(texts(leading@))[0] == leading@[from as int]@);
    if same_text(leading[0].as_str(), "crate") {
        match at_crate_root(answers, origin) {
            Step::Ask(question) => Step::Ask(question),
            Step::Done(true) => Step::Done(Some(found[0])),
            Step::Done(false) => Step::Done(None),
        }
    } else if declares_below(items, leading[from].as_str()) {
        Step::Done(None)
    } else {
        Step::Done(Some(found[0]))
    }
}

/// The fields of `wanted` in the inline module that a path with the leading segments
/// `leading` points into.
fn fields_in_module<'a>(
    answers: &'a Answers,
    items: &'a Vec<SourceItem>,
    origin: &FilePath,
    leading: &[String],
    wanted: &str,
) -> (r: Step<Option<FieldMap<'a>>, Question>)
    ensures
        r matches Step::Done(Some(types)) ==> types.wf(),
        r.deep_view() == types_found(
            search_module(answers@, item_models(items@), origin@, texts(leading@), wanted@),
        ),
{
    match find_module(answers, items, origin, leading) {
        Step::Ask(question) => Step::Ask(question),
        Step::Done(None) => Step::Done(None),
        Step::Done(Some(inner)) => {
            let mod_path = path_to_module(leading, first_module(leading));
            match find_in_scope(answers, inner, origin, mod_path.as_str(), wanted) {
                Step::Ask(question) => Step::Ask(question),
                Step::Done(None) => Step::Done(None),
                Step::Done(Some(item)) => Step::Done(Some(types_of_definition(item))),
            }
        },
    }
}

/// The fields of `wanted`, searched for from the file `origin`, which holds `items`:
/// in the inline module that the leading segments point into, then everywhere.
fn fields_from<'a>(
    answers: &'a Answers,
    items: &'a Vec<SourceItem>,
    origin: &FilePath,
    leading: &[String],
    wanted: &str,
) -> (r: Step<Option<FieldMap<'a>>, Question>)
    ensures
        r matches Step::Done(Some(types)) ==> types.wf(),
        r.deep_view() == types_found(
            search_from(answers@, item_models(items@), origin@, texts(leading@), wanted@),
        ),
{
    match fields_in_module(answers, items, origin, leading, wanted) {
        Step::Done(None) => {},
        found => {
            return found;
        },
    }
    match fields_in_file(answers, items, origin, wanted) {
        Step::Done(None) => fields_in_imports(answers, items, origin, wanted),
        found => found,
    }
}

/// The fields of the type called `wanted`, or else of the one called `fallback`,
/// where the type is referenced in the file `origin` by a path with the leading
/// segments `leading`.
pub fn discover_with_fallback<'a>(
    answers: &'a Answers,
    origin: &FilePath,
    leading: &[String],
    wanted: &str,
    fallback: Option<String>,
) -> (r: Step<Option<FieldMap<'a>>, Question>)
    ensures
        r matches Step::Done(Some(types)) ==> types.wf(),
        r.deep_view() == types_found(
            search_with_fallback(
                answers@,
                origin@,
                texts(leading@),
                wanted@,
                name_text(fallback),
            ),
        ),
{
    match answers.source(origin) {
        Step::Ask(question) => Step::Ask(question),
        Step::Done(None) => Step::Done(None),
        Step::Done(Some(items)) => {
            match fields_from(answers, items, origin, leading, wanted) {
                Step::Done(None) => {},
                found => {
                    return found;
                },
            }
            match fallback {
                Some(other) => fields_from(answers, items, origin, leading, other.as_str()),
                None => Step::Done(None),
            }
        },
    }
}

/// The name of the type that the type called `name` is generated from, if its name
/// ends in `Ex`: `Model` for `ModelEx`.
pub fn companion_of(name: &str) -> (r: Option<String>)
    ensures
        is_companion(name@, name_text(r)),
{
    let len: usize = name.unicode_len();
    if len >= 2 && name.get_char(len - 2) == 'E' && name.get_char(len - 1) == 'x' {
        let before = name.substring_char(0, len - 2);
        assert(before@ =~= stem(name@));
        parse_ident(before)
    } else {
        None
    }
}

/// The segments of a path before the last.
fn leading_of(path: &[String]) -> (r: Vec<String>)
    requires
        path@.len() > 0,
    ensures
        texts(r@) == texts(path@).drop_last(),
{
    let mut r = copy_texts(path);
    assert(texts(r@).len() == r@.len());
    assert(texts(path@).len() == path@.len());
    let _ = r.pop();
    assert(texts(r@) =~= texts(path@).drop_last());
    r
}

/// Discovers the fields of the type that `type_path` names, with their declared
/// types, from the file `origin` that the type is referenced in: in the inline module
/// of that file that the path points into, in the whole file with its inline modules,
/// and in the files that its `use` declarations lead to.
///
/// A type whose name ends in `Ex` and that is nowhere to be found is taken to be
/// generated from the type of the same name without `Ex`, field for field.
///
/// The result is nothing where the file or the type cannot be found.
pub fn discover_other_type_field_info<'a>(
    answers: &'a Answers,
    origin: &FilePath,
    type_path: &[String],
) -> (r: Step<Option<FieldMap<'a>>, Question>)
    ensures
        r matches Step::Done(Some(types)) ==> types.wf(),
        may_discover(answers@, origin@, texts(type_path@), r.deep_view()),
{
    let ghost segments = texts(type_path@);
    if type_path.len() == 0 {
        let r = if origin.is_empty() {
            Step::Done(None)
        } else {
            match answers.source(origin) {
                Step::Ask(question) => Step::Ask(question),
                Step::Done(_) => Step::Done(None),
            }
        };
        assert(r.deep_view() == types_found(discovered(answers@, origin@, segments, None)));
        return r;
    }
    let last: usize = type_path.len() - 1;
    let wanted = type_path[last].as_str();
    assert(segments.last() == wanted@);
    let other = companion_of(wanted);
    let ghost fallback = name_text(other);
    if origin.is_empty() {
        let r = Step::Done(None);
        assert(r.deep_view() == types_found(discovered(answers@, origin@, segments, fallback)));
        return r;
    }
    let leading = leading_of(type_path);
    let r = discover_with_fallback(answers, origin, leading.as_slice(), wanted, other);
    assert(r.deep_view() == types_found(discovered(answers@, origin@, segments, fallback)));
    r
}

/// The names of the fields among what has been discovered.
pub fn field_names(found: Step<Option<FieldMap<'_>>, Question>) -> (r: Step<
    Option<NameSet>,
    Question,
>)
    requires
        found matches Step::Done(Some(types)) ==> types.wf(),
    ensures
        r matches Step::Done(Some(names)) ==> names.wf(),
        r.deep_view() == names_in(found.deep_view()),
{
    match found {
        Step::Ask(question) => Step::Ask(question),
        Step::Done(None) => Step::Done(None),
        Step::Done(Some(types)) => Step::Done(Some(types.names())),
    }
}

/// Discovers the names of the fields of the type that `type_path` names: exactly those
/// that [`discover_other_type_field_info`] discovers with their types.
pub fn discover_other_type_fields(
    answers: &Answers,
    origin: &FilePath,
    type_path: &[String],
) -> (r: Step<Option<NameSet>, Question>)
    ensures
        r matches Step::Done(Some(names)) ==> names.wf(),
        exists|found: Step<Option<Map<Seq<char>, FieldTypeModel>>, QuestionModel>| #[trigger]
            may_discover(answers@, origin@, texts(type_path@), found) && r.deep_view() == names_in(
                found,
            ),
{
    field_names(discover_other_type_field_info(answers, origin, type_path))
}

} // verus!
