//! The search for the definition of a type.
//!
//! A definition is looked for in a file, in the inline modules of the file, and in
//! the files that the `use` declarations on the way point to. Imports may be
//! cyclic, and so may type aliases: each place is searched at most once.
use vstd::prelude::*;

use crate::answers::{first_answer, Answers, AnswersModel, Question, QuestionModel, Step};
use crate::fields::{
    definition_names, definition_types, law_definition_types_have_the_definition_names,
    names_of_definition, types_of_definition, FieldMap, FieldTypeModel, NameSet,
};
use crate::path::{same_text, texts, FilePath, PathModel};
use crate::resolve::{first_imported_from, imported_from, resolve_import};
use crate::syntax::{
    item_models, AliasTarget, AliasTargetModel, ImportTree, ImportTreeModel, SourceItem,
    SourceItemModel,
};

verus! {

/// A place to search: the items of the inline module `mod_path` of the file `path`,
/// and the name that is looked for among them.
pub struct Place {
    pub items: Seq<SourceItemModel>,
    pub path: PathModel,
    pub mod_path: Seq<char>,
    pub wanted: Seq<char>,
}

/// What tells one place of a search from another: the file, the inline module in
/// it, and the name looked for there.
pub open spec fn search_key(path: PathModel, mod_path: Seq<char>, wanted: Seq<char>) -> Seq<char> {
    path.display() + "::"@ + mod_path + "::"@ + wanted
}

/// The path of the inline module `name` in the module `mod_path`.
pub open spec fn nested_mod_path(mod_path: Seq<char>, name: Seq<char>) -> Seq<char> {
    if mod_path.len() == 0 {
        name
    } else {
        mod_path + "::"@ + name
    }
}

/// The name of the type that an alias stands for: the last segment, where the
/// alias is for a path.
pub open spec fn target_name(target: AliasTargetModel) -> Option<Seq<char>> {
    match target {
        AliasTargetModel::Path { segments } => if segments.len() > 0 {
            Some(segments.last())
        } else {
            None
        },
        AliasTargetModel::Other => None,
    }
}

/// What an item of a place has to offer to the search.
pub enum Lead {
    /// The definition that is looked for.
    Definition { item: SourceItemModel },
    /// Another place to search.
    Elsewhere { place: Place },
    /// Nothing.
    Nothing,
    /// Something that depends on an open question.
    Open { question: QuestionModel },
}

impl Place {
    /// The key of the place.
    pub open spec fn key(self) -> Seq<char> {
        search_key(self.path, self.mod_path, self.wanted)
    }

    /// What an item offers by its name: it is the definition, or an alias for a
    /// type of another name, which may be defined in the same module.
    pub open spec fn lead_by_name(self, item: SourceItemModel) -> Lead {
        match item {
            SourceItemModel::Struct { name, fields } if name == self.wanted => Lead::Definition {
                item,
            },
            SourceItemModel::Enum { name, variants } if name == self.wanted => Lead::Definition {
                item,
            },
            SourceItemModel::Alias { name, target } if name == self.wanted => match target_name(
                target,
            ) {
                Some(aliased) => if aliased != self.wanted {
                    Lead::Elsewhere { place: Place { wanted: aliased, ..self } }
                } else {
                    Lead::Nothing
                },
                None => Lead::Nothing,
            },
            _ => Lead::Nothing,
        }
    }

    /// What an item offers as an inline module.
    pub open spec fn lead_as_module(self, item: SourceItemModel) -> Lead {
        match item {
            SourceItemModel::Module { name, body: Some(inner) } => Lead::Elsewhere {
                place: Place {
                    items: inner,
                    mod_path: nested_mod_path(self.mod_path, name),
                    ..self
                },
            },
            _ => Lead::Nothing,
        }
    }

    /// What an item offers as a `use` declaration: the file that it imports the name
    /// from, where that can be read and parsed, and the name that it has there.
    pub open spec fn lead_as_import(self, answers: AnswersModel, item: SourceItemModel) -> Lead {
        match item {
            SourceItemModel::Import { tree } => match imported_from(
                answers,
                tree,
                Seq::empty(),
                self.wanted,
                self.path,
            ) {
                Step::Ask(question) => Lead::Open { question },
                Step::Done(None) => Lead::Nothing,
                Step::Done(Some((file, name))) => match answers.source(file) {
                    Step::Ask(question) => Lead::Open { question },
                    Step::Done(None) => Lead::Nothing,
                    Step::Done(Some(items)) => Lead::Elsewhere {
                        place: Place {
                            items,
                            path: file,
                            mod_path: Seq::empty(),
                            wanted: name,
                        },
                    },
                },
            },
            _ => Lead::Nothing,
        }
    }

    /// What an item offers as a `use` declaration that goes by a `crate` path, which
    /// means the same in every module of the file.
    pub open spec fn lead_as_crate_import(
        self,
        answers: AnswersModel,
        item: SourceItemModel,
    ) -> Lead {
        match item {
            SourceItemModel::Import {
                tree: ImportTreeModel::Path { name, tree: inner },
            } if name == "crate"@ => self.lead_as_import(answers, item),
            _ => Lead::Nothing,
        }
    }

    /// The leads of the place that stay in its scope, in the order in which they are
    /// followed: of all items by name, of all items as imports by a `crate` path. The
    /// inline modules of the place are not entered.
    pub open spec fn scope_lead(self, answers: AnswersModel, n: int) -> Lead {
        let len = self.items.len();
        if n < len {
            self.lead_by_name(self.items[n])
        } else {
            self.lead_as_crate_import(answers, self.items[n - len])
        }
    }

    /// How many leads the place has to be followed.
    pub open spec fn lead_count(self) -> nat {
        3 * self.items.len()
    }

    /// The leads of the place in the order in which they are followed: of all items
    /// by name, of all items as modules, of all items as imports.
    pub open spec fn lead(self, answers: AnswersModel, n: int) -> Lead {
        let len = self.items.len();
        if n < len {
            self.lead_by_name(self.items[n])
        } else if n < 2 * len {
            self.lead_as_module(self.items[n - len])
        } else {
            self.lead_as_import(answers, self.items[n - 2 * len])
        }
    }
}

/// What a search comes to: the definition found, if any, or an open question; and
/// the keys of the places that have been searched.
pub struct Outcome {
    pub step: Step<Option<SourceItemModel>, QuestionModel>,
    pub visited: Set<Seq<char>>,
}

impl Outcome {
    /// Whether the search went through and found nothing.
    pub open spec fn is_empty_handed(self) -> bool {
        self.step == Step::<Option<SourceItemModel>, QuestionModel>::Done(None)
    }
}

/// What a search that starts at `place` comes to: nothing, where a place with the
/// same key has been searched before, else what the leads of the place come to.
pub open spec fn search(answers: AnswersModel, place: Place, visited: Set<Seq<char>>) -> Outcome
    decreases unvisited(places(answers, place), visited), 0nat, 0nat,
    via search_ends
{
    if visited.contains(place.key()) {
        Outcome { step: Step::Done(None), visited }
    } else {
        follow(answers, place, visited.insert(place.key()), 0)
    }
}

/// What following the leads of `place`, from the `n`th on, comes to: what the first
/// of them does that leads to a definition or to an open question.
pub open spec fn follow(
    answers: AnswersModel,
    place: Place,
    visited: Set<Seq<char>>,
    n: nat,
) -> Outcome
    decreases unvisited(places(answers, place), visited), 1nat, place.lead_count() - n,
    via follow_ends
{
    if n >= place.lead_count() {
        Outcome { step: Step::Done(None), visited }
    } else {
        match place.lead(answers, n as int) {
            Lead::Definition { item } => Outcome { step: Step::Done(Some(item)), visited },
            Lead::Open { question } => Outcome { step: Step::Ask(question), visited },
            Lead::Nothing => follow(answers, place, visited, n + 1),
            Lead::Elsewhere { place: next } => {
                let elsewhere = search(answers, next, visited);
                if elsewhere.is_empty_handed() {
                    follow(answers, place, visited.union(elsewhere.visited), n + 1)
                } else {
                    elsewhere
                }
            },
        }
    }
}

/// What following the leads that stay in the scope of `place`, from the `n`th on,
/// comes to: what the first of them does that leads to a definition or to an open
/// question.
pub open spec fn search_scope(
    answers: AnswersModel,
    place: Place,
    visited: Set<Seq<char>>,
    n: nat,
) -> Step<Option<SourceItemModel>, QuestionModel>
    decreases 2 * place.items.len() - n,
{
    if n >= 2 * place.items.len() {
        Step::Done(None)
    } else {
        match place.scope_lead(answers, n as int) {
            Lead::Definition { item } => Step::Done(Some(item)),
            Lead::Open { question } => Step::Ask(question),
            Lead::Nothing => search_scope(answers, place, visited, n + 1),
            Lead::Elsewhere { place: next } => {
                let elsewhere = search(answers, next, visited);
                if elsewhere.is_empty_handed() {
                    search_scope(answers, place, elsewhere.visited, n + 1)
                } else {
                    elsewhere.step
                }
            },
        }
    }
}

/// The keys of the places that a search visits, in the order in which it does.
pub open spec fn search_trail(
    answers: AnswersModel,
    place: Place,
    visited: Set<Seq<char>>,
) -> Seq<Seq<char>>
    decreases unvisited(places(answers, place), visited), 0nat, 0nat,
    via search_trail_ends
{
    if visited.contains(place.key()) {
        Seq::empty()
    } else {
        seq![place.key()] + follow_trail(answers, place, visited.insert(place.key()), 0)
    }
}

/// The keys of the places that are visited by following the leads of `place` from
/// the `n`th on.
pub open spec fn follow_trail(
    answers: AnswersModel,
    place: Place,
    visited: Set<Seq<char>>,
    n: nat,
) -> Seq<Seq<char>>
    decreases unvisited(places(answers, place), visited), 1nat, place.lead_count() - n,
    via follow_trail_ends
{
    if n >= place.lead_count() {
        Seq::empty()
    } else {
        match place.lead(answers, n as int) {
            Lead::Nothing => follow_trail(answers, place, visited, n + 1),
            Lead::Elsewhere { place: next } => {
                let elsewhere = search(answers, next, visited);
                if elsewhere.is_empty_handed() {
                    search_trail(answers, next, visited) + follow_trail(
                        answers,
                        place,
                        visited.union(elsewhere.visited),
                        n + 1,
                    )
                } else {
                    search_trail(answers, next, visited)
                }
            },
            _ => Seq::empty(),
        }
    }
}

/// Whether earlier visits stay in front, in their order, and a place that was not
/// among them comes right behind.
pub open spec fn visits_in_order(
    before: Seq<Seq<char>>,
    after: Seq<Seq<char>>,
    key: Seq<char>,
) -> bool {
    if before.contains(key) {
        after == before
    } else {
        before.push(key).is_prefix_of(after)
    }
}

/// How many of `places` are not in `visited`.
pub open spec fn unvisited(places: Set<Seq<char>>, visited: Set<Seq<char>>) -> nat {
    places.difference(visited).len()
}

/// The names that `tree` brings into scope, as they are before any renaming.
pub open spec fn import_names(tree: ImportTreeModel) -> Set<Seq<char>>
    decreases tree,
{
    match tree {
        ImportTreeModel::Path { name, tree: inner } => import_names(*inner),
        ImportTreeModel::Name { name } => set![name],
        ImportTreeModel::Rename { name, alias } => set![name],
        ImportTreeModel::Glob => Set::empty(),
        ImportTreeModel::Group { trees } => imports_names(trees),
    }
}

/// The names that `trees` bring into scope, as they are before any renaming.
pub open spec fn imports_names(trees: Seq<ImportTreeModel>) -> Set<Seq<char>>
    decreases trees,
{
    if trees.len() == 0 {
        Set::empty()
    } else {
        import_names(trees[0]).union(imports_names(trees.drop_first()))
    }
}

/// The other names that `items`, and the inline modules among them, can turn a
/// search to: those that aliases stand for and those that are imported.
pub open spec fn other_names(items: Seq<SourceItemModel>) -> Set<Seq<char>>
    decreases items,
{
    if items.len() == 0 {
        Set::empty()
    } else {
        other_names(items.drop_last()).union(item_names(items.last()))
    }
}

/// The other names that `item` can turn a search to.
pub open spec fn item_names(item: SourceItemModel) -> Set<Seq<char>>
    decreases item,
{
    match item {
        SourceItemModel::Alias { name, target } => match target_name(target) {
            Some(t) => set![t],
            None => Set::empty(),
        },
        SourceItemModel::Module { name, body: Some(inner) } => other_names(inner),
        SourceItemModel::Import { tree } => import_names(tree),
        _ => Set::empty(),
    }
}

/// The paths of the inline modules in `items`, the items of the module `mod_path`,
/// with that of the module itself.
pub open spec fn module_paths(items: Seq<SourceItemModel>, mod_path: Seq<char>) -> Set<Seq<char>>
    decreases items,
{
    if items.len() == 0 {
        set![mod_path]
    } else {
        module_paths(items.drop_last(), mod_path).union(item_module_paths(items.last(), mod_path))
    }
}

/// The paths of the inline modules in `item`.
pub open spec fn item_module_paths(item: SourceItemModel, mod_path: Seq<char>) -> Set<Seq<char>>
    decreases item,
{
    match item {
        SourceItemModel::Module { name, body: Some(inner) } => module_paths(
            inner,
            nested_mod_path(mod_path, name),
        ),
        _ => Set::empty(),
    }
}

/// The paths of the source files that are known, whether they could be read or not.
pub open spec fn source_paths(
    sources: Seq<(PathModel, Option<Seq<SourceItemModel>>)>,
) -> Set<PathModel>
    decreases sources.len(),
{
    if sources.len() == 0 {
        Set::empty()
    } else {
        source_paths(sources.drop_last()).insert(sources.last().0)
    }
}

/// The other names that the known source files can turn a search to.
pub open spec fn source_names(
    sources: Seq<(PathModel, Option<Seq<SourceItemModel>>)>,
) -> Set<Seq<char>>
    decreases sources.len(),
{
    if sources.len() == 0 {
        Set::empty()
    } else {
        source_names(sources.drop_last()).union(
            match sources.last().1 {
                Some(items) => other_names(items),
                None => Set::empty(),
            },
        )
    }
}

/// The paths of the inline modules of the known source files.
pub open spec fn source_module_paths(
    sources: Seq<(PathModel, Option<Seq<SourceItemModel>>)>,
) -> Set<Seq<char>>
    decreases sources.len(),
{
    if sources.len() == 0 {
        Set::empty()
    } else {
        source_module_paths(sources.drop_last()).union(
            match sources.last().1 {
                Some(items) => module_paths(items, Seq::empty()),
                None => Set::empty(),
            },
        )
    }
}

/// The keys made of a file of `files`, a module path of `modules` and a name of `names`.
pub open spec fn keys(
    files: Set<PathModel>,
    modules: Set<Seq<char>>,
    names: Set<Seq<char>>,
) -> Set<Seq<char>> {
    Set::new(
        |key: Seq<char>|
            exists|path: PathModel, mod_path: Seq<char>, wanted: Seq<char>|
                files.contains(path) && modules.contains(mod_path) && names.contains(wanted) && key
                    == #[trigger] search_key(path, mod_path, wanted),
    )
}

/// The keys of the places that a search from `place` can get to: any known file or
/// the one it starts in, any inline module there, and any name that an alias or an
/// import turns it to or the one it starts with.
pub open spec fn places(answers: AnswersModel, place: Place) -> Set<Seq<char>> {
    keys(
        source_paths(answers.sources).insert(place.path),
        source_module_paths(answers.sources).union(module_paths(place.items, place.mod_path)),
        source_names(answers.sources).union(other_names(place.items)).insert(place.wanted),
    )
}

/// The search comes to an end: what it goes on with leaves less to visit.
#[via_fn]
proof fn search_ends(answers: AnswersModel, place: Place, visited: Set<Seq<char>>) {
    lemma_visiting(answers, place, visited);
}

/// Following leads comes to an end: none of them leaves more to visit.
#[via_fn]
proof fn follow_ends(answers: AnswersModel, place: Place, visited: Set<Seq<char>>, n: nat) {
    lemma_visiting(answers, place, visited);
    if n < place.lead_count() {
        lemma_visiting_elsewhere(answers, place, visited, n as int);
    }
}

#[via_fn]
proof fn search_trail_ends(answers: AnswersModel, place: Place, visited: Set<Seq<char>>) {
    lemma_visiting(answers, place, visited);
}

#[via_fn]
proof fn follow_trail_ends(answers: AnswersModel, place: Place, visited: Set<Seq<char>>, n: nat) {
    lemma_visiting(answers, place, visited);
    if n < place.lead_count() {
        lemma_visiting_elsewhere(answers, place, visited, n as int);
    }
}

proof fn lemma_other_names_finite(items: Seq<SourceItemModel>)
    ensures
        other_names(items).finite(),
    decreases items,
{
    if items.len() > 0 {
        lemma_other_names_finite(items.drop_last());
        lemma_item_names_finite(items.last());
    }
}

proof fn lemma_import_names_finite(tree: ImportTreeModel)
    ensures
        import_names(tree).finite(),
    decreases tree,
{
    match tree {
        ImportTreeModel::Path { name, tree: inner } => {
            lemma_import_names_finite(*inner);
        },
        ImportTreeModel::Group { trees } => {
            lemma_imports_names_finite(trees);
        },
        _ => {},
    }
}

proof fn lemma_imports_names_finite(trees: Seq<ImportTreeModel>)
    ensures
        imports_names(trees).finite(),
    decreases trees,
{
    if trees.len() > 0 {
        lemma_import_names_finite(trees[0]);
        lemma_imports_names_finite(trees.drop_first());
    }
}

proof fn lemma_item_names_finite(item: SourceItemModel)
    ensures
        item_names(item).finite(),
    decreases item,
{
    match item {
        SourceItemModel::Import { tree } => {
            lemma_import_names_finite(tree);
        },
        SourceItemModel::Module { name, body: Some(inner) } => {
            lemma_other_names_finite(inner);
        },
        _ => {},
    }
}

proof fn lemma_module_paths_finite(items: Seq<SourceItemModel>, mod_path: Seq<char>)
    ensures
        module_paths(items, mod_path).finite(),
    decreases items,
{
    if items.len() > 0 {
        lemma_module_paths_finite(items.drop_last(), mod_path);
        lemma_item_module_paths_finite(items.last(), mod_path);
    }
}

proof fn lemma_item_module_paths_finite(item: SourceItemModel, mod_path: Seq<char>)
    ensures
        item_module_paths(item, mod_path).finite(),
    decreases item,
{
    match item {
        SourceItemModel::Module { name, body: Some(inner) } => {
            lemma_module_paths_finite(inner, nested_mod_path(mod_path, name));
        },
        _ => {},
    }
}

proof fn lemma_sources_finite(sources: Seq<(PathModel, Option<Seq<SourceItemModel>>)>)
    ensures
        source_paths(sources).finite(),
        source_names(sources).finite(),
        source_module_paths(sources).finite(),
    decreases sources.len(),
{
    if sources.len() > 0 {
        lemma_sources_finite(sources.drop_last());
        match sources.last().1 {
            Some(items) => {
                lemma_other_names_finite(items);
                lemma_module_paths_finite(items, Seq::empty());
            },
            None => {},
        }
    }
}

proof fn lemma_keys_finite(
    files: Set<PathModel>,
    modules: Set<Seq<char>>,
    names: Set<Seq<char>>,
)
    requires
        files.finite(),
        modules.finite(),
        names.finite(),
    ensures
        keys(files, modules, names).finite(),
{
    let of_module = |path: PathModel, mod_path: Seq<char>|
        names.map(|wanted: Seq<char>| search_key(path, mod_path, wanted));
    let of_file = |path: PathModel|
        modules.map(|mod_path: Seq<char>| of_module(path, mod_path)).flatten();
    let all = files.map(of_file).flatten();
    assert forall|path: PathModel| (#[trigger] of_file(path)).finite() by {
        let sets = modules.map(|mod_path: Seq<char>| of_module(path, mod_path));
        modules.lemma_map_finite(|mod_path: Seq<char>| of_module(path, mod_path));
        assert forall|s: Set<Seq<char>>| sets.contains(s) implies #[trigger] s.finite() by {
            let mod_path = choose|m: Seq<char>| modules.contains(m) && s == of_module(path, m);
            names.lemma_map_finite(|wanted: Seq<char>| search_key(path, mod_path, wanted));
        }
        sets.lemma_flatten_finite();
    }
    files.lemma_map_finite(of_file);
    assert forall|s: Set<Seq<char>>| files.map(of_file).contains(s) implies #[trigger] s.finite() by {
        let path = choose|p: PathModel| files.contains(p) && s == of_file(p);
        assert(of_file(path).finite());
    }
    files.map(of_file).lemma_flatten_finite();
    assert forall|key: Seq<char>| keys(files, modules, names).contains(key) implies all.contains(
        key,
    ) by {
        let (path, mod_path, wanted) = choose|path: PathModel, mod_path: Seq<char>, wanted: Seq<char>|
            files.contains(path) && modules.contains(mod_path) && names.contains(wanted) && key
                == #[trigger] search_key(path, mod_path, wanted);
        let inner = of_module(path, mod_path);
        assert(inner.contains(key));
        let sets = modules.map(|m: Seq<char>| of_module(path, m));
        assert(sets.contains(inner));
        assert(of_file(path).contains(key));
        assert(files.map(of_file).contains(of_file(path)));
    }
    vstd::set_lib::lemma_set_subset_finite(all, keys(files, modules, names));
}

proof fn lemma_places_finite(answers: AnswersModel, place: Place)
    ensures
        places(answers, place).finite(),
{
    lemma_sources_finite(answers.sources);
    lemma_other_names_finite(place.items);
    lemma_module_paths_finite(place.items, place.mod_path);
    lemma_keys_finite(
        source_paths(answers.sources).insert(place.path),
        source_module_paths(answers.sources).union(module_paths(place.items, place.mod_path)),
        source_names(answers.sources).union(other_names(place.items)).insert(place.wanted),
    );
}

/// Keys made of smaller sets are among the keys made of larger ones.
proof fn lemma_keys_subset(
    files: Set<PathModel>,
    modules: Set<Seq<char>>,
    names: Set<Seq<char>>,
    more_files: Set<PathModel>,
    more_modules: Set<Seq<char>>,
    more_names: Set<Seq<char>>,
)
    requires
        files.subset_of(more_files),
        modules.subset_of(more_modules),
        names.subset_of(more_names),
    ensures
        keys(files, modules, names).subset_of(keys(more_files, more_modules, more_names)),
{
}

/// Fewer places, with at least as much visited, leave no more to visit.
proof fn lemma_unvisited_le(
    fewer: Set<Seq<char>>,
    places: Set<Seq<char>>,
    visited: Set<Seq<char>>,
    more: Set<Seq<char>>,
)
    requires
        places.finite(),
        fewer.subset_of(places),
        visited.subset_of(more),
    ensures
        unvisited(fewer, more) <= unvisited(places, visited),
{
    assert(fewer.difference(more).subset_of(places.difference(visited)));
    vstd::set_lib::lemma_len_subset(fewer.difference(more), places.difference(visited));
}

/// The module that `items` are the items of is among the paths of its modules.
proof fn lemma_module_paths_self(items: Seq<SourceItemModel>, mod_path: Seq<char>)
    ensures
        module_paths(items, mod_path).contains(mod_path),
    decreases items.len(),
{
    if items.len() > 0 {
        lemma_module_paths_self(items.drop_last(), mod_path);
    }
}

/// What one item contributes is among what all of them do.
proof fn lemma_item_among(items: Seq<SourceItemModel>, mod_path: Seq<char>, i: int)
    requires
        0 <= i < items.len(),
    ensures
        item_names(items[i]).subset_of(other_names(items)),
        item_module_paths(items[i], mod_path).subset_of(module_paths(items, mod_path)),
    decreases items.len(),
{
    if i < items.len() - 1 {
        assert(items.drop_last()[i] == items[i]);
        lemma_item_among(items.drop_last(), mod_path, i);
    }
}

/// What one known source file contributes is among what all of them do.
proof fn lemma_source_among(
    sources: Seq<(PathModel, Option<Seq<SourceItemModel>>)>,
    path: PathModel,
    items: Seq<SourceItemModel>,
)
    requires
        first_answer(sources, path) == Some(Some(items)),
    ensures
        source_paths(sources).contains(path),
        other_names(items).subset_of(source_names(sources)),
        module_paths(items, Seq::empty()).subset_of(source_module_paths(sources)),
{
    let i = lemma_answer_stands(sources, path);
    lemma_row_among(sources, i);
}

/// An answer that is given stands in one of the rows.
proof fn lemma_answer_stands<T>(rows: Seq<(PathModel, T)>, path: PathModel) -> (i: int)
    requires
        first_answer(rows, path) is Some,
    ensures
        0 <= i < rows.len(),
        rows[i].0 == path,
        first_answer(rows, path) == Some(rows[i].1),
    decreases rows.len(),
{
    if rows[0].0 == path {
        0
    } else {
        let j = lemma_answer_stands(rows.drop_first(), path);
        assert(rows[j + 1] == rows.drop_first()[j]);
        j + 1
    }
}

/// What one row contributes is among what all of them do.
proof fn lemma_row_among(sources: Seq<(PathModel, Option<Seq<SourceItemModel>>)>, i: int)
    requires
        0 <= i < sources.len(),
        sources[i].1 is Some,
    ensures
        source_paths(sources).contains(sources[i].0),
        other_names(sources[i].1->0).subset_of(source_names(sources)),
        module_paths(sources[i].1->0, Seq::empty()).subset_of(source_module_paths(sources)),
    decreases sources.len(),
{
    if i < sources.len() - 1 {
        assert(sources.drop_last()[i] == sources[i]);
        lemma_row_among(sources.drop_last(), i);
    }
}

/// Visiting leaves no more to visit; visiting the place where the search stands,
/// for the first time, leaves less.
pub(crate) proof fn lemma_visiting(answers: AnswersModel, place: Place, visited: Set<Seq<char>>)
    ensures
        forall|more: Set<Seq<char>>|
            visited.subset_of(more) ==> #[trigger] unvisited(places(answers, place), more)
                <= unvisited(places(answers, place), visited),
        !visited.contains(place.key()) ==> forall|more: Set<Seq<char>>|
            visited.insert(place.key()).subset_of(more) ==> #[trigger] unvisited(
                places(answers, place),
                more,
            ) < unvisited(places(answers, place), visited),
{
    let all = places(answers, place);
    let key = place.key();
    lemma_places_finite(answers, place);
    lemma_module_paths_self(place.items, place.mod_path);
    assert(all.contains(key));
    assert forall|more: Set<Seq<char>>| visited.subset_of(more) implies #[trigger] unvisited(
        all,
        more,
    ) <= unvisited(all, visited) by {
        lemma_unvisited_le(all, all, visited, more);
    }
    if !visited.contains(key) {
        let here = visited.insert(key);
        assert(all.difference(here) =~= all.difference(visited).remove(key));
        assert forall|more: Set<Seq<char>>| here.subset_of(more) implies #[trigger] unvisited(
            all,
            more,
        ) < unvisited(all, visited) by {
            lemma_unvisited_le(all, all, here, more);
        }
    }
}

/// The name that an import is followed by is one of those that it imports.
proof fn lemma_imported_name(
    answers: AnswersModel,
    tree: ImportTreeModel,
    prefix: Seq<Seq<char>>,
    wanted: Seq<char>,
    current: PathModel,
)
    ensures
        imported_from(answers, tree, prefix, wanted, current) matches Step::Done(
            Some((file, name)),
        ) ==> import_names(tree).contains(name),
    decreases tree,
{
    match tree {
        ImportTreeModel::Path { name, tree: inner } => {
            lemma_imported_name(answers, *inner, prefix.push(name), wanted, current);
        },
        ImportTreeModel::Group { trees } => {
            lemma_first_imported_name(answers, trees, prefix, wanted, current);
        },
        _ => {},
    }
}

proof fn lemma_first_imported_name(
    answers: AnswersModel,
    trees: Seq<ImportTreeModel>,
    prefix: Seq<Seq<char>>,
    wanted: Seq<char>,
    current: PathModel,
)
    ensures
        first_imported_from(answers, trees, prefix, wanted, current) matches Step::Done(
            Some((file, name)),
        ) ==> imports_names(trees).contains(name),
    decreases trees,
{
    if trees.len() > 0 {
        lemma_imported_name(answers, trees[0], prefix, wanted, current);
        lemma_first_imported_name(answers, trees.drop_first(), prefix, wanted, current);
    }
}

/// The places that a lead goes to are among those that the search can get to.
proof fn lemma_places_elsewhere(answers: AnswersModel, place: Place, n: int)
    requires
        0 <= n < place.lead_count(),
    ensures
        place.lead(answers, n) matches Lead::Elsewhere { place: next } ==> places(
            answers,
            next,
        ).subset_of(places(answers, place)),
{
    if let Lead::Elsewhere { place: next } = place.lead(answers, n) {
        let len = place.items.len();
        let sources = answers.sources;
        if n < len {
            lemma_item_among(place.items, place.mod_path, n);
            assert(item_names(place.items[n]).contains(next.wanted));
        } else if n < 2 * len {
            lemma_item_among(place.items, place.mod_path, n - len);
        } else {
            let item = place.items[n - 2 * len];
            lemma_source_among(sources, next.path, next.items);
            lemma_item_among(place.items, place.mod_path, n - 2 * len);
            lemma_imported_name(
                answers,
                item->Import_tree,
                Seq::empty(),
                place.wanted,
                place.path,
            );
            assert(item_names(item).contains(next.wanted));
        }
        lemma_keys_subset(
            source_paths(sources).insert(next.path),
            source_module_paths(sources).union(module_paths(next.items, next.mod_path)),
            source_names(sources).union(other_names(next.items)).insert(next.wanted),
            source_paths(sources).insert(place.path),
            source_module_paths(sources).union(module_paths(place.items, place.mod_path)),
            source_names(sources).union(other_names(place.items)).insert(place.wanted),
        );
    }
}

/// Going where a lead goes leaves no more to visit.
pub(crate) proof fn lemma_visiting_elsewhere(
    answers: AnswersModel,
    place: Place,
    visited: Set<Seq<char>>,
    n: int,
)
    requires
        0 <= n < place.lead_count(),
    ensures
        place.lead(answers, n) matches Lead::Elsewhere { place: next } ==> unvisited(
            places(answers, next),
            visited,
        ) <= unvisited(places(answers, place), visited),
{
    if let Lead::Elsewhere { place: next } = place.lead(answers, n) {
        lemma_places_elsewhere(answers, place, n);
        lemma_places_finite(answers, place);
        lemma_unvisited_le(places(answers, next), places(answers, place), visited, visited);
    }
}

/// A search only ever adds to the places visited.
pub proof fn law_search_keeps_visited(answers: AnswersModel, place: Place, visited: Set<Seq<char>>)
    ensures
        visited.subset_of(search(answers, place, visited).visited),
        search(answers, place, visited).visited.contains(place.key()),
    decreases unvisited(places(answers, place), visited), 0nat, 0nat,
{
    if !visited.contains(place.key()) {
        lemma_visiting(answers, place, visited);
        lemma_follow_keeps_visited(answers, place, visited.insert(place.key()), 0);
    }
}

proof fn lemma_follow_keeps_visited(
    answers: AnswersModel,
    place: Place,
    visited: Set<Seq<char>>,
    n: nat,
)
    ensures
        visited.subset_of(follow(answers, place, visited, n).visited),
    decreases unvisited(places(answers, place), visited), 1nat, place.lead_count() - n,
{
    lemma_visiting(answers, place, visited);
    if n < place.lead_count() {
        match place.lead(answers, n as int) {
            Lead::Nothing => {
                lemma_follow_keeps_visited(answers, place, visited, n + 1);
            },
            Lead::Elsewhere { place: next } => {
                lemma_visiting_elsewhere(answers, place, visited, n as int);
                law_search_keeps_visited(answers, next, visited);
                let elsewhere = search(answers, next, visited);
                if elsewhere.is_empty_handed() {
                    lemma_follow_keeps_visited(
                        answers,
                        place,
                        visited.union(elsewhere.visited),
                        n + 1,
                    );
                }
            },
            _ => {},
        }
    }
}

/// The place made of `items`, those of the inline module `mod_path` of the file
/// `path`, and the name `wanted`.
pub open spec fn place_at(
    items: Seq<SourceItem>,
    path: PathModel,
    mod_path: Seq<char>,
    wanted: Seq<char>,
) -> Place {
    Place { items: item_models(items), path, mod_path, wanted }
}

/// The value of what a search returns.
pub open spec fn step_model(step: Step<Option<&SourceItem>, Question>) -> Step<
    Option<SourceItemModel>,
    QuestionModel,
> {
    match step {
        Step::Done(Some(item)) => Step::Done(Some(item@)),
        Step::Done(None) => Step::Done(None),
        Step::Ask(question) => Step::Ask(question.deep_view()),
    }
}

/// The text by which a place is told from others.
fn key_of(file_path: &FilePath, mod_path: &str, wanted: &str) -> (r: String)
    ensures
        r@ == search_key(file_path@, mod_path@, wanted@),
{
    let mut key = file_path.display();
    key.append("::");
    key.append(mod_path);
    key.append("::");
    key.append(wanted);
    key
}

/// The path of an inline module in another.
pub(crate) fn nested_path(mod_path: &str, name: &str) -> (r: String)
    ensures
        r@ == nested_mod_path(mod_path@, name@),
{
    if mod_path.is_empty() {
        name.to_owned()
    } else {
        let mut nested = mod_path.to_owned();
        nested.append("::");
        nested.append(name);
        nested
    }
}

/// The name of the type that an alias stands for.
fn aliased_name<'a>(target: &'a AliasTarget) -> (r: Option<&'a str>)
    ensures
        target_name(target@) == (match r {
            Some(name) => Some(name@),
            None => None,
        }),
{
    match target {
        AliasTarget::Path { segments } => {
            if segments.len() == 0 {
                None
            } else {
                let last: usize = segments.len() - 1;
                assert(texts(segments@).last() == segments@[last as int]@);
                Some(segments[last].as_str())
            }
        },
        AliasTarget::Other => None,
    }
}

/// Whether an import goes by a `crate` path.
fn starts_at_crate(tree: &ImportTree) -> (r: bool)
    ensures
        r == (tree@ matches ImportTreeModel::Path { name, tree: inner } && name == "crate"@),
{
    match tree {
        ImportTree::Path { name, tree: _ } => same_text(name.as_str(), "crate"),
        _ => false,
    }
}

/// A search that found nothing elsewhere goes on with what it has visited there.
proof fn lemma_follow_next(
    answers: AnswersModel,
    place: Place,
    visited: Set<Seq<char>>,
    n: nat,
)
    requires
        n < place.lead_count(),
    ensures
        match place.lead(answers, n as int) {
            Lead::Elsewhere { place: next } => {
                let elsewhere = search(answers, next, visited);
                &&& visited.subset_of(elsewhere.visited)
                &&& follow(answers, place, visited, n) == (if elsewhere.is_empty_handed() {
                    follow(answers, place, elsewhere.visited, n + 1)
                } else {
                    elsewhere
                })
                &&& follow_trail(answers, place, visited, n) == (if elsewhere.is_empty_handed() {
                    search_trail(answers, next, visited) + follow_trail(
                        answers,
                        place,
                        elsewhere.visited,
                        n + 1,
                    )
                } else {
                    search_trail(answers, next, visited)
                })
            },
            _ => true,
        },
{
    if let Lead::Elsewhere { place: next } = place.lead(answers, n as int) {
        let elsewhere = search(answers, next, visited);
        law_search_keeps_visited(answers, next, visited);
        assert(visited.union(elsewhere.visited) =~= elsewhere.visited);
    }
}

/// Searches for the definition of `wanted`, starting with `items`, those of the
/// inline module `mod_path` of the file `file_path`, and going on in inline
/// modules, behind aliases, and in the files that `use` declarations point to.
///
/// `visited` holds the places that have been searched; they are not searched again.
pub fn find_definition<'a>(
    answers: &'a Answers,
    items: &'a Vec<SourceItem>,
    file_path: &FilePath,
    mod_path: &str,
    wanted: &str,
    visited: &mut NameSet,
) -> (r: Step<Option<&'a SourceItem>, Question>)
    requires
        old(visited).wf(),
    ensures
        final(visited).wf(),
        ({
            let place = place_at(items@, file_path@, mod_path@, wanted@);
            let outcome = search(answers@, place, old(visited)@);
            &&& step_model(r) == outcome.step
            &&& final(visited)@ == outcome.visited
            &&& final(visited).listing() == old(visited).listing() + search_trail(
                answers@,
                place,
                old(visited)@,
            )
            &&& visits_in_order(old(visited).listing(), final(visited).listing(), place.key())
        }),
    decreases
            unvisited(
                places(answers@, place_at(items@, file_path@, mod_path@, wanted@)),
                old(visited)@,
            ),
{
    let ghost place = place_at(items@, file_path@, mod_path@, wanted@);
    let ghost outcome = search(answers@, place, visited@);
    let ghost before = visited@;
    let ghost trail = visited.listing() + search_trail(answers@, place, before);
    let key = key_of(file_path, mod_path, wanted);
    if visited.contains(key.as_str()) {
        assert(trail =~= visited.listing());
        return Step::Done(None);
    }
    visited.insert(key);
    assert(trail =~= visited.listing() + follow_trail(answers@, place, visited@, 0));
    assert(old(visited).listing().push(place.key()).is_prefix_of(trail));
    let len: usize = items.len();

    let mut i: usize = 0;
    while i < len
        invariant
            i <= len,
            len == items@.len(),
            visited.wf(),
            before == old(visited)@,
            place == place_at(items@, file_path@, mod_path@, wanted@),
            outcome == search(answers@, place, before),
            !before.contains(place.key()),
            before.insert(place.key()).subset_of(visited@),
            outcome == follow(answers@, place, visited@, i as nat),
            trail == old(visited).listing() + search_trail(answers@, place, before),
            trail == visited.listing() + follow_trail(answers@, place, visited@, i as nat),
            old(visited).listing().push(place.key()).is_prefix_of(trail),
        decreases len - i,
    {
        assert(place.lead(answers@, i as int) == place.lead_by_name(items@[i as int]@));
        match &items[i] {
            SourceItem::Struct { name, fields: _ } => {
                if same_text(name.as_str(), wanted) {
                    return Step::Done(Some(&items[i]));
                }
            },
            SourceItem::Enum { name, variants: _ } => {
                if same_text(name.as_str(), wanted) {
                    return Step::Done(Some(&items[i]));
                }
            },
            SourceItem::Alias { name, target } => {
                if same_text(name.as_str(), wanted) {
                    if let Some(aliased) = aliased_name(target) {
                        if !same_text(aliased, wanted) {
                            proof {
                                lemma_visiting(answers@, place, before);
                                lemma_visiting_elsewhere(answers@, place, visited@, i as int);
                                lemma_follow_next(answers@, place, visited@, i as nat);
                            }
                            match find_definition(
                                answers,
                                items,
                                file_path,
                                mod_path,
                                aliased,
                                visited,
                            ) {
                                Step::Done(None) => {},
                                found => {
                                    return found;
                                },
                            }
                        }
                    }
                }
            },
            _ => {},
        }
        i += 1;
    }

    let mut i: usize = 0;
    while i < len
        invariant
            i <= len,
            len == items@.len(),
            visited.wf(),
            before == old(visited)@,
            place == place_at(items@, file_path@, mod_path@, wanted@),
            outcome == search(answers@, place, before),
            !before.contains(place.key()),
            before.insert(place.key()).subset_of(visited@),
            outcome == follow(answers@, place, visited@, (len + i) as nat),
            trail == old(visited).listing() + search_trail(answers@, place, before),
            trail == visited.listing() + follow_trail(answers@, place, visited@, (len + i) as nat),
            old(visited).listing().push(place.key()).is_prefix_of(trail),
        decreases len - i,
    {
        assert(place.lead(answers@, len + i) == place.lead_as_module(items@[i as int]@));
        if let SourceItem::Module { name, body } = &items[i] {
            if let Some(inner) = body {
                let nested = nested_path(mod_path, name.as_str());
                proof {
                    lemma_visiting(answers@, place, before);
                    lemma_visiting_elsewhere(answers@, place, visited@, len + i);
                    lemma_follow_next(answers@, place, visited@, (len + i) as nat);
                }
                match find_definition(answers, inner, file_path, nested.as_str(), wanted, visited) {
                    Step::Done(None) => {},
                    found => {
                        return found;
                    },
                }
            }
        }
        i += 1;
    }

    let prefix: Vec<String> = Vec::new();
    assert(texts(prefix@) =~= Seq::empty());
    let mut i: usize = 0;
    while i < len
        invariant
            i <= len,
            len == items@.len(),
            texts(prefix@) == Seq::<Seq<char>>::empty(),
            visited.wf(),
            before == old(visited)@,
            place == place_at(items@, file_path@, mod_path@, wanted@),
            outcome == search(answers@, place, before),
            !before.contains(place.key()),
            before.insert(place.key()).subset_of(visited@),
            outcome == follow(answers@, place, visited@, (2 * len + i) as nat),
            trail == old(visited).listing() + search_trail(answers@, place, before),
            trail == visited.listing() + follow_trail(answers@, place, visited@, (2 * len + i) as nat),
            old(visited).listing().push(place.key()).is_prefix_of(trail),
        decreases len - i,
    {
        assert(place.lead(answers@, 2 * len + i) == place.lead_as_import(
            answers@,
            items@[i as int]@,
        ));
        if let SourceItem::Import { tree } = &items[i] {
            match resolve_import(answers, tree, prefix.as_slice(), wanted, file_path) {
                Step::Ask(question) => {
                    return Step::Ask(question);
                },
                Step::Done(None) => {},
                Step::Done(Some((file, name))) => {
                    match answers.source(&file) {
                        Step::Ask(question) => {
                            return Step::Ask(question);
                        },
                        Step::Done(None) => {},
                        Step::Done(Some(content)) => {
                            proof {
                                lemma_visiting(answers@, place, before);
                                lemma_visiting_elsewhere(answers@, place, visited@, 2 * len + i);
                                lemma_follow_next(answers@, place, visited@, (2 * len + i) as nat);
                                reveal_strlit("");
                                assert(""@ =~= Seq::empty());
                            }
                            match find_definition(
                                answers,
                                content,
                                &file,
                                "",
                                name.as_str(),
                                visited,
                            ) {
                                Step::Done(None) => {},
                                found => {
                                    return found;
                                },
                            }
                        },
                    }
                },
            }
        }
        i += 1;
    }
    Step::Done(None)
}

/// Searches for the definition of `wanted` in the scope of `items`, those of the
/// inline module `mod_path` of the file `file_path`: among the items themselves,
/// behind aliases, and in the files that `use` declarations by `crate` paths point to.
/// Inline modules among the items are left out.
pub fn find_in_scope<'a>(
    answers: &'a Answers,
    items: &'a Vec<SourceItem>,
    file_path: &FilePath,
    mod_path: &str,
    wanted: &str,
) -> (r: Step<Option<&'a SourceItem>, Question>)
    ensures
        ({
            let place = place_at(items@, file_path@, mod_path@, wanted@);
            step_model(r) == search_scope(answers@, place, set![place.key()], 0)
        }),
{
    let ghost place = place_at(items@, file_path@, mod_path@, wanted@);
    let ghost whole = search_scope(answers@, place, set![place.key()], 0);
    let mut visited = NameSet::new();
    visited.insert(key_of(file_path, mod_path, wanted));
    assert(visited@ =~= set![place.key()]);
    let len: usize = items.len();

    let mut i: usize = 0;
    while i < len
        invariant
            i <= len,
            len == items@.len(),
            visited.wf(),
            place == place_at(items@, file_path@, mod_path@, wanted@),
            whole == search_scope(answers@, place, set![place.key()], 0),
            whole == search_scope(answers@, place, visited@, i as nat),
        decreases len - i,
    {
        assert(place.scope_lead(answers@, i as int) == place.lead_by_name(items@[i as int]@));
        match &items[i] {
            SourceItem::Struct { name, fields: _ } => {
                if same_text(name.as_str(), wanted) {
                    return Step::Done(Some(&items[i]));
                }
            },
            SourceItem::Enum { name, variants: _ } => {
                if same_text(name.as_str(), wanted) {
                    return Step::Done(Some(&items[i]));
                }
            },
            SourceItem::Alias { name, target } => {
                if same_text(name.as_str(), wanted) {
                    if let Some(aliased) = aliased_name(target) {
                        if !same_text(aliased, wanted) {
                            match find_definition(
                                answers,
                                items,
                                file_path,
                                mod_path,
                                aliased,
                                &mut visited,
                            ) {
                                Step::Done(None) => {},
                                found => {
                                    return found;
                                },
                            }
                        }
                    }
                }
            },
            _ => {},
        }
        i += 1;
    }

    let prefix: Vec<String> = Vec::new();
    assert(texts(prefix@) =~= Seq::empty());
    let mut i: usize = 0;
    while i < len
        invariant
            i <= len,
            len == items@.len(),
            texts(prefix@) == Seq::<Seq<char>>::empty(),
            visited.wf(),
            place == place_at(items@, file_path@, mod_path@, wanted@),
            whole == search_scope(answers@, place, set![place.key()], 0),
            whole == search_scope(answers@, place, visited@, (len + i) as nat),
        decreases len - i,
    {
        assert(place.scope_lead(answers@, len + i) == place.lead_as_crate_import(
            answers@,
            items@[i as int]@,
        ));
        if let SourceItem::Import { tree } = &items[i] {
            if starts_at_crate(tree) {
                match resolve_import(answers, tree, prefix.as_slice(), wanted, file_path) {
                    Step::Ask(question) => {
                        return Step::Ask(question);
                    },
                    Step::Done(None) => {},
                    Step::Done(Some((file, name))) => {
                        match answers.source(&file) {
                            Step::Ask(question) => {
                                return Step::Ask(question);
                            },
                            Step::Done(None) => {},
                            Step::Done(Some(content)) => {
                                proof {
                                    reveal_strlit("");
                                    assert(""@ =~= Seq::empty());
                                }
                                match find_definition(
                                    answers,
                                    content,
                                    &file,
                                    "",
                                    name.as_str(),
                                    &mut visited,
                                ) {
                                    Step::Done(None) => {},
                                    found => {
                                        return found;
                                    },
                                }
                            },
                        }
                    },
                }
            }
        }
        i += 1;
    }
    Step::Done(None)
}

/// The names that the definition a search found offers.
pub open spec fn names_found(step: Step<Option<SourceItemModel>, QuestionModel>) -> Step<
    Option<Set<Seq<char>>>,
    QuestionModel,
> {
    match step {
        Step::Done(Some(item)) => Step::Done(Some(definition_names(item))),
        Step::Done(None) => Step::Done(None),
        Step::Ask(question) => Step::Ask(question),
    }
}

/// What the definition a search found offers, with types.
pub open spec fn types_found(step: Step<Option<SourceItemModel>, QuestionModel>) -> Step<
    Option<Map<Seq<char>, FieldTypeModel>>,
    QuestionModel,
> {
    match step {
        Step::Done(Some(item)) => Step::Done(Some(definition_types(item))),
        Step::Done(None) => Step::Done(None),
        Step::Ask(question) => Step::Ask(question),
    }
}

/// Searching with types and searching for names alone come to the same: the same
/// question, or nothing both times, or the same names.
pub proof fn law_types_found_have_the_names_found(
    step: Step<Option<SourceItemModel>, QuestionModel>,
)
    ensures
        names_found(step) == (match types_found(step) {
            Step::Done(Some(types)) => Step::Done(Some(types.dom())),
            Step::Done(None) => Step::Done(None),
            Step::Ask(question) => Step::Ask(question),
        }),
{
    if let Step::Done(Some(item)) = step {
        law_definition_types_have_the_definition_names(item);
    }
}

/// The names of the fields of the struct called `wanted`, or of the variants of the
/// enum, searched for as [`find_definition`] does.
pub fn find_named_fields_in_file(
    answers: &Answers,
    items: &Vec<SourceItem>,
    file_path: &FilePath,
    mod_path: &str,
    wanted: &str,
    visited: &mut NameSet,
) -> (r: Step<Option<NameSet>, Question>)
    requires
        old(visited).wf(),
    ensures
        final(visited).wf(),
        r matches Step::Done(Some(names)) ==> names.wf(),
        ({
            let place = place_at(items@, file_path@, mod_path@, wanted@);
            let outcome = search(answers@, place, old(visited)@);
            &&& r.deep_view() == names_found(outcome.step)
            &&& final(visited)@ == outcome.visited
            &&& final(visited).listing() == old(visited).listing() + search_trail(
                answers@,
                place,
                old(visited)@,
            )
            &&& visits_in_order(old(visited).listing(), final(visited).listing(), place.key())
        }),
{
    match find_definition(answers, items, file_path, mod_path, wanted, visited) {
        Step::Done(Some(item)) => Step::Done(Some(names_of_definition(item))),
        Step::Done(None) => Step::Done(None),
        Step::Ask(question) => Step::Ask(question),
    }
}

/// The fields of the struct called `wanted`, or the variants of the enum, with
/// their types, searched for as [`find_definition`] does.
pub fn find_named_fields_with_types_in_file<'a>(
    answers: &'a Answers,
    items: &'a Vec<SourceItem>,
    file_path: &FilePath,
    mod_path: &str,
    wanted: &str,
    visited: &mut NameSet,
) -> (r: Step<Option<FieldMap<'a>>, Question>)
    requires
        old(visited).wf(),
    ensures
        final(visited).wf(),
        r matches Step::Done(Some(types)) ==> types.wf(),
        ({
            let place = place_at(items@, file_path@, mod_path@, wanted@);
            let outcome = search(answers@, place, old(visited)@);
            &&& r.deep_view() == types_found(outcome.step)
            &&& final(visited)@ == outcome.visited
            &&& final(visited).listing() == old(visited).listing() + search_trail(
                answers@,
                place,
                old(visited)@,
            )
            &&& visits_in_order(old(visited).listing(), final(visited).listing(), place.key())
        }),
{
    match find_definition(answers, items, file_path, mod_path, wanted, visited) {
        Step::Done(Some(item)) => Step::Done(Some(types_of_definition(item))),
        Step::Done(None) => Step::Done(None),
        Step::Ask(question) => Step::Ask(question),
    }
}

} // verus!
