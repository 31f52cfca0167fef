//! What discovery promises as a whole.
//!
//! The laws here relate several functions, or several runs of one: what more
//! answers change and what they do not, what a search finds and what it cannot
//! miss, and how the ways of asking fit together.
//!
//! The modules below say, in terms of items, leaves of imports, paths and fields, what
//! each part of discovery comes to.
use vstd::prelude::*;

use crate::answers::{AnswersModel, QuestionModel, Step};
use crate::discover::{
    discovered, is_companion, is_crate_root, is_extended, may_discover, module_names,
    module_pointed_into, modules_at, named_below, names_in, place_pointed_into, search_file,
    search_files, search_from, search_imports, search_module, search_with_fallback, stem,
};
use crate::fields::FieldTypeModel;
use crate::parse::{is_identifier, is_plain, is_raw_identifier, is_word};
use crate::path::PathModel;
use crate::resolve::{
    crate_src_dir, existing_file, first_imported_from, group_files, imported_from, leading_supers,
    module_file, named_file, path_base, resolved_path, src_dir_from, tree_files, with_name, Harvest,
};
use crate::search::{
    follow, law_search_keeps_visited, law_types_found_have_the_names_found, lemma_visiting,
    lemma_visiting_elsewhere, names_found, places, search, search_scope, types_found, unvisited,
    Lead, Place,
};
use crate::syntax::{ImportTreeModel, SourceItemModel};

pub mod discovery;
pub mod imports;
pub mod offers;
pub mod paths;
pub mod searching;

verus! {

/// Whether `step` is a result, or a question that `answers` does not answer.
pub open spec fn stands<T>(answers: AnswersModel, step: Step<T, QuestionModel>) -> bool {
    match step {
        Step::Done(_) => true,
        Step::Ask(question) => !answers.knows(question),
    }
}

/// Whether `harvest` is complete, or its open question is one that `answers` does
/// not answer.
pub open spec fn harvest_stands(answers: AnswersModel, harvest: Harvest) -> bool {
    match harvest.open {
        None => true,
        Some(question) => !answers.knows(question),
    }
}

proof fn lemma_src_dir_stands(answers: AnswersModel, more: AnswersModel, dir: PathModel)
    ensures
        stands(answers, src_dir_from(answers, dir)),
        answers.agrees_with(more) && stands(more, src_dir_from(answers, dir)) ==> src_dir_from(
            more,
            dir,
        ) == src_dir_from(answers, dir),
    decreases dir.parts.len(),
{
    match dir.parent() {
        Some(outer) => {
            lemma_src_dir_stands(answers, more, outer);
        },
        None => {},
    }
}

proof fn lemma_module_file_stands(answers: AnswersModel, more: AnswersModel, base: PathModel)
    ensures
        stands(answers, module_file(answers, base)),
        answers.agrees_with(more) && stands(more, module_file(answers, base)) ==> module_file(
            more,
            base,
        ) == module_file(answers, base),
{
}

/// The resolution of a path asks only what is unknown; and more answers change
/// nothing of it, unless they answer what it asks.
pub proof fn law_resolution_stands(
    answers: AnswersModel,
    more: AnswersModel,
    path: Seq<Seq<char>>,
    current: PathModel,
)
    ensures
        stands(answers, resolved_path(answers, path, current)),
        answers.agrees_with(more) && stands(more, resolved_path(answers, path, current))
            ==> resolved_path(more, path, current) == resolved_path(answers, path, current),
{
    if let Some(dir) = current.parent() {
        lemma_src_dir_stands(answers, more, dir);
    }
    if let Step::Done(Some((dir, taken))) = path_base(answers, path, current) {
        lemma_module_file_stands(answers, more, dir.join_all(path.skip(taken as int)));
    }
}

proof fn lemma_existing_file_stands(
    answers: AnswersModel,
    more: AnswersModel,
    path: Seq<Seq<char>>,
    current: PathModel,
)
    ensures
        harvest_stands(answers, existing_file(answers, path, current)),
        answers.agrees_with(more) && harvest_stands(more, existing_file(answers, path, current))
            ==> existing_file(more, path, current) == existing_file(answers, path, current),
{
    law_resolution_stands(answers, more, path, current);
}

/// The collection of files asks only what is unknown; and more answers change
/// nothing of it, unless they answer what it asks.
pub proof fn law_collection_stands(
    answers: AnswersModel,
    more: AnswersModel,
    tree: ImportTreeModel,
    prefix: Seq<Seq<char>>,
    current: PathModel,
)
    ensures
        harvest_stands(answers, tree_files(answers, tree, prefix, current)),
        answers.agrees_with(more) && harvest_stands(
            more,
            tree_files(answers, tree, prefix, current),
        ) ==> tree_files(more, tree, prefix, current) == tree_files(answers, tree, prefix, current),
    decreases tree,
{
    match tree {
        ImportTreeModel::Path { name, tree: inner } => {
            law_collection_stands(answers, more, *inner, prefix.push(name), current);
        },
        ImportTreeModel::Name { name } => {
            lemma_existing_file_stands(answers, more, prefix.push(name), current);
            lemma_existing_file_stands(answers, more, prefix, current);
        },
        ImportTreeModel::Rename { name, alias } => {
            lemma_existing_file_stands(answers, more, prefix.push(name), current);
            lemma_existing_file_stands(answers, more, prefix, current);
        },
        ImportTreeModel::Glob => {},
        ImportTreeModel::Group { trees } => {
            lemma_group_stands(answers, more, trees, prefix, current);
        },
    }
}

proof fn lemma_group_stands(
    answers: AnswersModel,
    more: AnswersModel,
    trees: Seq<ImportTreeModel>,
    prefix: Seq<Seq<char>>,
    current: PathModel,
)
    ensures
        harvest_stands(answers, group_files(answers, trees, prefix, current)),
        answers.agrees_with(more) && harvest_stands(
            more,
            group_files(answers, trees, prefix, current),
        ) ==> group_files(more, trees, prefix, current) == group_files(
            answers,
            trees,
            prefix,
            current,
        ),
    decreases trees,
{
    if trees.len() > 0 {
        lemma_group_stands(answers, more, trees.drop_last(), prefix, current);
        law_collection_stands(answers, more, trees.last(), prefix, current);
    }
}

/// The resolution of an import asks only what is unknown; and more answers change
/// nothing of it, unless they answer what it asks.
pub proof fn law_import_stands(
    answers: AnswersModel,
    more: AnswersModel,
    tree: ImportTreeModel,
    prefix: Seq<Seq<char>>,
    wanted: Seq<char>,
    current: PathModel,
)
    ensures
        stands(answers, imported_from(answers, tree, prefix, wanted, current)),
        answers.agrees_with(more) && stands(
            more,
            imported_from(answers, tree, prefix, wanted, current),
        ) ==> imported_from(more, tree, prefix, wanted, current) == imported_from(
            answers,
            tree,
            prefix,
            wanted,
            current,
        ),
    decreases tree,
{
    match tree {
        ImportTreeModel::Path { name, tree: inner } => {
            law_import_stands(answers, more, *inner, prefix.push(name), wanted, current);
        },
        ImportTreeModel::Name { name } => {
            law_resolution_stands(answers, more, prefix, current);
        },
        ImportTreeModel::Rename { name, alias } => {
            law_resolution_stands(answers, more, prefix, current);
        },
        ImportTreeModel::Glob => {},
        ImportTreeModel::Group { trees } => {
            lemma_first_imported_stands(answers, more, trees, prefix, wanted, current);
        },
    }
}

proof fn lemma_first_imported_stands(
    answers: AnswersModel,
    more: AnswersModel,
    trees: Seq<ImportTreeModel>,
    prefix: Seq<Seq<char>>,
    wanted: Seq<char>,
    current: PathModel,
)
    ensures
        stands(answers, first_imported_from(answers, trees, prefix, wanted, current)),
        answers.agrees_with(more) && stands(
            more,
            first_imported_from(answers, trees, prefix, wanted, current),
        ) ==> first_imported_from(more, trees, prefix, wanted, current) == first_imported_from(
            answers,
            trees,
            prefix,
            wanted,
            current,
        ),
    decreases trees,
{
    if trees.len() > 0 {
        law_import_stands(answers, more, trees[0], prefix, wanted, current);
        lemma_first_imported_stands(answers, more, trees.drop_first(), prefix, wanted, current);
    }
}

/// A lead asks only what is unknown; and more answers change nothing of it, unless
/// they answer what it asks.
proof fn lemma_lead_stands(answers: AnswersModel, more: AnswersModel, place: Place, n: int)
    ensures
        place.lead(answers, n) matches Lead::Open { question } ==> !answers.knows(question),
        answers.agrees_with(more) && (place.lead(answers, n) matches Lead::Open { question }
            ==> !more.knows(question)) ==> place.lead(more, n) == place.lead(answers, n),
{
    let len = place.items.len();
    if n >= 2 * len {
        if let SourceItemModel::Import { tree } = place.items[n - 2 * len] {
            law_import_stands(answers, more, tree, Seq::empty(), place.wanted, place.path);
        }
    }
}

/// A search asks only what is unknown; and more answers change nothing of it, unless
/// they answer what it asks.
pub proof fn law_search_stands(
    answers: AnswersModel,
    more: AnswersModel,
    place: Place,
    visited: Set<Seq<char>>,
)
    ensures
        stands(answers, search(answers, place, visited).step),
        answers.agrees_with(more) && stands(more, search(answers, place, visited).step) ==> search(
            more,
            place,
            visited,
        ) == search(answers, place, visited),
    decreases unvisited(places(answers, place), visited), 0nat, 0nat,
{
    if !visited.contains(place.key()) {
        lemma_visiting(answers, place, visited);
        lemma_follow_stands(answers, more, place, visited.insert(place.key()), 0);
    }
}

proof fn lemma_follow_stands(
    answers: AnswersModel,
    more: AnswersModel,
    place: Place,
    visited: Set<Seq<char>>,
    n: nat,
)
    ensures
        stands(answers, follow(answers, place, visited, n).step),
        answers.agrees_with(more) && stands(more, follow(answers, place, visited, n).step)
            ==> follow(more, place, visited, n) == follow(answers, place, visited, n),
    decreases unvisited(places(answers, place), visited), 1nat, place.lead_count() - n,
{
    lemma_visiting(answers, place, visited);
    if n < place.lead_count() {
        lemma_lead_stands(answers, more, place, n as int);
        match place.lead(answers, n as int) {
            Lead::Nothing => {
                lemma_follow_stands(answers, more, place, visited, n + 1);
            },
            Lead::Elsewhere { place: next } => {
                lemma_visiting_elsewhere(answers, place, visited, n as int);
                law_search_stands(answers, more, next, visited);
                let elsewhere = search(answers, next, visited);
                if elsewhere.is_empty_handed() {
                    lemma_follow_stands(
                        answers,
                        more,
                        place,
                        visited.union(elsewhere.visited),
                        n + 1,
                    );
                }
            },
            _ => {},
        }
    }
}

proof fn lemma_search_files_stands(
    answers: AnswersModel,
    more: AnswersModel,
    files: Seq<PathModel>,
    wanted: Seq<char>,
)
    ensures
        stands(answers, search_files(answers, files, wanted)),
        answers.agrees_with(more) && stands(more, search_files(answers, files, wanted))
            ==> search_files(more, files, wanted) == search_files(answers, files, wanted),
    decreases files.len(),
{
    if files.len() > 0 {
        lemma_search_files_stands(answers, more, files.drop_first(), wanted);
        if let Step::Done(Some(items)) = answers.source(files[0]) {
            law_search_stands(
                answers,
                more,
                Place { items, path: files[0], mod_path: Seq::empty(), wanted },
                Set::empty(),
            );
        }
    }
}

proof fn lemma_search_imports_stands(
    answers: AnswersModel,
    more: AnswersModel,
    items: Seq<SourceItemModel>,
    current: PathModel,
    wanted: Seq<char>,
)
    ensures
        stands(answers, search_imports(answers, items, current, wanted)),
        answers.agrees_with(more) && stands(more, search_imports(answers, items, current, wanted))
            ==> search_imports(more, items, current, wanted) == search_imports(
            answers,
            items,
            current,
            wanted,
        ),
    decreases items.len(),
{
    if items.len() > 0 {
        lemma_search_imports_stands(answers, more, items.drop_first(), current, wanted);
        if let SourceItemModel::Import { tree } = items[0] {
            law_collection_stands(answers, more, tree, Seq::empty(), current);
            lemma_search_files_stands(
                answers,
                more,
                tree_files(answers, tree, Seq::empty(), current).files,
                wanted,
            );
        }
    }
}

proof fn lemma_scope_lead_stands(answers: AnswersModel, more: AnswersModel, place: Place, n: int)
    ensures
        place.scope_lead(answers, n) matches Lead::Open { question } ==> !answers.knows(question),
        answers.agrees_with(more) && (place.scope_lead(answers, n) matches Lead::Open { question }
            ==> !more.knows(question)) ==> place.scope_lead(more, n) == place.scope_lead(answers, n),
{
    let len = place.items.len();
    if n >= len {
        if let SourceItemModel::Import { tree } = place.items[n - len] {
            law_import_stands(answers, more, tree, Seq::empty(), place.wanted, place.path);
        }
    }
}

/// A search in the scope of a module asks only what is unknown; and more answers
/// change nothing of it, unless they answer what it asks.
pub proof fn law_scope_search_stands(
    answers: AnswersModel,
    more: AnswersModel,
    place: Place,
    visited: Set<Seq<char>>,
    n: nat,
)
    ensures
        stands(answers, search_scope(answers, place, visited, n)),
        answers.agrees_with(more) && stands(more, search_scope(answers, place, visited, n))
            ==> search_scope(more, place, visited, n) == search_scope(answers, place, visited, n),
    decreases 2 * place.items.len() - n,
{
    if n < 2 * place.items.len() {
        lemma_scope_lead_stands(answers, more, place, n as int);
        match place.scope_lead(answers, n as int) {
            Lead::Nothing => {
                law_scope_search_stands(answers, more, place, visited, n + 1);
            },
            Lead::Elsewhere { place: next } => {
                law_search_stands(answers, more, next, visited);
                law_scope_search_stands(
                    answers,
                    more,
                    place,
                    search(answers, next, visited).visited,
                    n + 1,
                );
            },
            _ => {},
        }
    }
}

proof fn lemma_search_module_stands(
    answers: AnswersModel,
    more: AnswersModel,
    items: Seq<SourceItemModel>,
    origin: PathModel,
    leading: Seq<Seq<char>>,
    wanted: Seq<char>,
)
    ensures
        stands(answers, search_module(answers, items, origin, leading, wanted)),
        answers.agrees_with(more) && stands(
            more,
            search_module(answers, items, origin, leading, wanted),
        ) ==> search_module(more, items, origin, leading, wanted) == search_module(
            answers,
            items,
            origin,
            leading,
            wanted,
        ),
{
    if let Some(dir) = origin.parent() {
        lemma_src_dir_stands(answers, more, dir);
    }
    if let Step::Done(Some(inner)) = module_pointed_into(answers, items, origin, leading) {
        let place = place_pointed_into(inner, origin, leading, wanted);
        law_scope_search_stands(answers, more, place, set![place.key()], 0);
    }
}

proof fn lemma_search_from_stands(
    answers: AnswersModel,
    more: AnswersModel,
    items: Seq<SourceItemModel>,
    origin: PathModel,
    leading: Seq<Seq<char>>,
    wanted: Seq<char>,
)
    ensures
        stands(answers, search_from(answers, items, origin, leading, wanted)),
        answers.agrees_with(more) && stands(
            more,
            search_from(answers, items, origin, leading, wanted),
        ) ==> search_from(more, items, origin, leading, wanted) == search_from(
            answers,
            items,
            origin,
            leading,
            wanted,
        ),
{
    lemma_search_module_stands(answers, more, items, origin, leading, wanted);
    law_search_stands(
        answers,
        more,
        Place { items, path: origin, mod_path: Seq::empty(), wanted },
        Set::empty(),
    );
    lemma_search_imports_stands(answers, more, items, origin, wanted);
}

proof fn lemma_fallback_stands(
    answers: AnswersModel,
    more: AnswersModel,
    origin: PathModel,
    leading: Seq<Seq<char>>,
    wanted: Seq<char>,
    fallback: Option<Seq<char>>,
)
    ensures
        stands(answers, search_with_fallback(answers, origin, leading, wanted, fallback)),
        answers.agrees_with(more) && stands(
            more,
            search_with_fallback(answers, origin, leading, wanted, fallback),
        ) ==> search_with_fallback(more, origin, leading, wanted, fallback) == search_with_fallback(
            answers,
            origin,
            leading,
            wanted,
            fallback,
        ),
{
    if let Step::Done(Some(items)) = answers.source(origin) {
        lemma_search_from_stands(answers, more, items, origin, leading, wanted);
        if let Some(other) = fallback {
            lemma_search_from_stands(answers, more, items, origin, leading, other);
        }
    }
}

/// Discovery asks only what is unknown; and more answers change nothing of its
/// outcome, unless they answer what it asks. So a result stays the same whatever
/// else becomes known, and a question stays open until it is answered.
pub proof fn law_discovery_stands(
    answers: AnswersModel,
    more: AnswersModel,
    origin: PathModel,
    type_path: Seq<Seq<char>>,
    fallback: Option<Seq<char>>,
)
    ensures
        stands(answers, discovered(answers, origin, type_path, fallback)),
        answers.agrees_with(more) && stands(more, discovered(answers, origin, type_path, fallback))
            ==> discovered(more, origin, type_path, fallback) == discovered(
            answers,
            origin,
            type_path,
            fallback,
        ),
{
    if type_path.len() > 0 {
        lemma_fallback_stands(
            answers,
            more,
            origin,
            type_path.drop_last(),
            type_path.last(),
            fallback,
        );
    }
}

/// Whether `hops` leads, one after the other, go from one place to another.
pub open spec fn reaches(answers: AnswersModel, from: Place, to: Place, hops: nat) -> bool
    decreases hops,
{
    if hops == 0 {
        from == to
    } else {
        exists|n: int|
            0 <= n < from.lead_count() && (#[trigger] from.lead(answers, n) matches Lead::Elsewhere {
                place: next,
            } && reaches(answers, next, to, (hops - 1) as nat))
    }
}

/// Whether the `n`th lead of `place` is the definition `item`.
pub open spec fn defines(
    answers: AnswersModel,
    place: Place,
    n: int,
    item: SourceItemModel,
) -> bool {
    0 <= n < place.lead_count() && place.lead(answers, n) == (Lead::Definition { item })
}

/// Where a lead goes, one hop goes.
proof fn lemma_first_hop(
    answers: AnswersModel,
    from: Place,
    n: int,
    next: Place,
    to: Place,
    hops: nat,
)
    requires
        0 <= n < from.lead_count(),
        from.lead(answers, n) == (Lead::Elsewhere { place: next }),
        reaches(answers, next, to, hops),
    ensures
        reaches(answers, from, to, hops + 1),
{
    assert(from.lead(answers, n) matches Lead::Elsewhere { place: p } && reaches(
        answers,
        p,
        to,
        hops,
    ));
}

/// What a search finds is a definition: that of a place which leads, from where the
/// search starts, go to.
pub proof fn law_what_is_found_is_reachable(
    answers: AnswersModel,
    place: Place,
    visited: Set<Seq<char>>,
)
    ensures
        search(answers, place, visited).step matches Step::Done(Some(item)) ==> exists|
            to: Place,
            hops: nat,
            n: int,
        |
            #[trigger] defines(answers, to, n, item) && #[trigger] reaches(
                answers,
                place,
                to,
                hops,
            ),
    decreases unvisited(places(answers, place), visited), 0nat, 0nat,
{
    if !visited.contains(place.key()) {
        lemma_visiting(answers, place, visited);
        lemma_what_follow_finds(answers, place, visited.insert(place.key()), 0);
    }
}

proof fn lemma_what_follow_finds(
    answers: AnswersModel,
    place: Place,
    visited: Set<Seq<char>>,
    n: nat,
)
    ensures
        follow(answers, place, visited, n).step matches Step::Done(Some(item)) ==> exists|
            to: Place,
            hops: nat,
            m: int,
        |
            #[trigger] defines(answers, to, m, item) && #[trigger] reaches(
                answers,
                place,
                to,
                hops,
            ),
    decreases unvisited(places(answers, place), visited), 1nat, place.lead_count() - n,
{
    lemma_visiting(answers, place, visited);
    if n < place.lead_count() {
        match place.lead(answers, n as int) {
            Lead::Definition { item } => {
                assert(defines(answers, place, n as int, item));
                assert(reaches(answers, place, place, 0));
            },
            Lead::Nothing => {
                lemma_what_follow_finds(answers, place, visited, n + 1);
            },
            Lead::Elsewhere { place: next } => {
                lemma_visiting_elsewhere(answers, place, visited, n as int);
                law_what_is_found_is_reachable(answers, next, visited);
                let elsewhere = search(answers, next, visited);
                if elsewhere.is_empty_handed() {
                    lemma_what_follow_finds(
                        answers,
                        place,
                        visited.union(elsewhere.visited),
                        n + 1,
                    );
                } else if let Step::Done(Some(item)) = elsewhere.step {
                    let (to, hops, m) = choose|to: Place, hops: nat, m: int|
                        #[trigger] defines(answers, to, m, item) && #[trigger] reaches(
                            answers,
                            next,
                            to,
                            hops,
                        );
                    lemma_first_hop(answers, place, n as int, next, to, hops);
                    assert(defines(answers, to, m, item));
                }
            },
            Lead::Open { question } => {},
        }
    }
}

/// Whether a lead goes nowhere, or to a place whose key is among `visited`.
pub open spec fn is_spent(lead: Lead, visited: Set<Seq<char>>) -> bool {
    match lead {
        Lead::Nothing => true,
        Lead::Elsewhere { place } => visited.contains(place.key()),
        _ => false,
    }
}

/// Whether all leads of `place` go nowhere, or to places whose keys are among `visited`.
pub open spec fn is_dead_end(answers: AnswersModel, place: Place, visited: Set<Seq<char>>) -> bool {
    forall|n: int|
        0 <= n < place.lead_count() ==> is_spent(#[trigger] place.lead(answers, n), visited)
}

/// Whether every place of `searched` is a dead end, and can be reached from `start`.
pub open spec fn all_dead_ends(
    answers: AnswersModel,
    start: Place,
    searched: Set<Place>,
    visited: Set<Seq<char>>,
) -> bool {
    forall|p: Place| #[trigger]
        searched.contains(p) ==> is_dead_end(answers, p, visited) && exists|hops: nat|
            reaches(answers, start, p, hops)
}

/// Whether every key of `visited` that is not in `before` is that of a place of `searched`.
pub open spec fn all_accounted_for(
    searched: Set<Place>,
    before: Set<Seq<char>>,
    visited: Set<Seq<char>>,
) -> bool {
    forall|key: Seq<char>| #[trigger]
        visited.contains(key) ==> before.contains(key) || exists|p: Place|
            searched.contains(p) && #[trigger] p.key() == key
}

/// The places that a search without result has been through.
proof fn lemma_search_exhausts(answers: AnswersModel, place: Place, visited: Set<Seq<char>>) -> (
searched: Set<Place>)
    ensures
        search(answers, place, visited).is_empty_handed() ==> {
            let after = search(answers, place, visited).visited;
            &&& !visited.contains(place.key()) ==> searched.contains(place)
            &&& all_dead_ends(answers, place, searched, after)
            &&& all_accounted_for(searched, visited, after)
        },
    decreases unvisited(places(answers, place), visited), 0nat, 0nat,
{
    if visited.contains(place.key()) {
        Set::empty()
    } else {
        let here = visited.insert(place.key());
        lemma_visiting(answers, place, visited);
        let inner = lemma_follow_exhausts(answers, place, here, 0);
        let searched = inner.insert(place);
        if search(answers, place, visited).is_empty_handed() {
            let after = search(answers, place, visited).visited;
            assert(reaches(answers, place, place, 0));
            assert(is_dead_end(answers, place, after));
            assert(all_dead_ends(answers, place, searched, after));
            assert forall|key: Seq<char>| #[trigger] after.contains(key) implies visited.contains(
                key,
            ) || exists|p: Place| searched.contains(p) && #[trigger] p.key() == key by {
                if key == place.key() {
                    assert(searched.contains(place) && place.key() == key);
                } else if !visited.contains(key) {
                    assert(!here.contains(key));
                    let p = choose|p: Place| inner.contains(p) && #[trigger] p.key() == key;
                    assert(searched.contains(p) && p.key() == key);
                }
            }
        }
        searched
    }
}

proof fn lemma_follow_exhausts(
    answers: AnswersModel,
    place: Place,
    visited: Set<Seq<char>>,
    n: nat,
) -> (searched: Set<Place>)
    ensures
        follow(answers, place, visited, n).is_empty_handed() ==> {
            let after = follow(answers, place, visited, n).visited;
            &&& visited.subset_of(after)
            &&& forall|m: int|
                n <= m < place.lead_count() ==> is_spent(#[trigger] place.lead(answers, m), after)
            &&& all_dead_ends(answers, place, searched, after)
            &&& all_accounted_for(searched, visited, after)
        },
    decreases unvisited(places(answers, place), visited), 1nat, place.lead_count() - n,
{
    lemma_visiting(answers, place, visited);
    if n >= place.lead_count() {
        Set::empty()
    } else {
        match place.lead(answers, n as int) {
            Lead::Nothing => lemma_follow_exhausts(answers, place, visited, n + 1),
            Lead::Elsewhere { place: next } => {
                lemma_visiting_elsewhere(answers, place, visited, n as int);
                let elsewhere = search(answers, next, visited);
                law_search_keeps_visited(answers, next, visited);
                let there = lemma_search_exhausts(answers, next, visited);
                if elsewhere.is_empty_handed() {
                    let between = visited.union(elsewhere.visited);
                    let rest = lemma_follow_exhausts(answers, place, between, n + 1);
                    let searched = there.union(rest);
                    let outcome = follow(answers, place, visited, n);
                    if outcome.is_empty_handed() {
                        let after = outcome.visited;
                        assert forall|p: Place| #[trigger] searched.contains(p) implies is_dead_end(
                            answers,
                            p,
                            after,
                        ) && exists|hops: nat| reaches(answers, place, p, hops) by {
                            if there.contains(p) {
                                assert(is_dead_end(answers, p, elsewhere.visited));
                                assert forall|m: int| 0 <= m < p.lead_count() implies is_spent(
                                    #[trigger] p.lead(answers, m),
                                    after,
                                ) by {
                                    assert(is_spent(p.lead(answers, m), elsewhere.visited));
                                }
                                let hops = choose|hops: nat| reaches(answers, next, p, hops);
                                lemma_first_hop(answers, place, n as int, next, p, hops);
                            }
                        }
                        assert forall|key: Seq<char>| #[trigger] after.contains(key) implies
                            visited.contains(key) || exists|p: Place|
                            searched.contains(p) && #[trigger] p.key() == key by {
                            if between.contains(key) {
                                if !visited.contains(key) {
                                    assert(elsewhere.visited.contains(key));
                                    let p = choose|p: Place|
                                        there.contains(p) && #[trigger] p.key() == key;
                                    assert(searched.contains(p) && p.key() == key);
                                }
                            } else {
                                let p = choose|p: Place|
                                    rest.contains(p) && #[trigger] p.key() == key;
                                assert(searched.contains(p) && p.key() == key);
                            }
                        }
                    }
                    searched
                } else {
                    Set::empty()
                }
            },
            _ => Set::empty(),
        }
    }
}

/// A search from the start that finds nothing has gone through places that are all
/// dead ends: none of them defines what it looks for, and each of their leads goes
/// to a place with the key of one of them. The place where it starts is one of them.
pub proof fn law_search_without_result_is_exhaustive(answers: AnswersModel, place: Place)
    requires
        search(answers, place, Set::empty()).is_empty_handed(),
    ensures
        ({
            let visited = search(answers, place, Set::empty()).visited;
            exists|searched: Set<Place>| #[trigger]
                searched.contains(place) && all_dead_ends(answers, place, searched, visited)
                    && all_accounted_for(searched, Set::empty(), visited)
        }),
{
    let visited = search(answers, place, Set::empty()).visited;
    let searched = lemma_search_exhausts(answers, place, Set::empty());
    assert(searched.contains(place) && all_dead_ends(answers, place, searched, visited)
        && all_accounted_for(searched, Set::empty(), visited));
}

/// Whether no two places that can be reached from `start` have the same key.
pub open spec fn keys_tell_apart(answers: AnswersModel, start: Place) -> bool {
    forall|a: Place, b: Place, i: nat, j: nat| #[trigger]
        reaches(answers, start, a, i) && #[trigger] reaches(answers, start, b, j) && a.key()
            == b.key() ==> a == b
}

/// One more lead makes one more hop.
proof fn lemma_last_hop(
    answers: AnswersModel,
    from: Place,
    to: Place,
    hops: nat,
    n: int,
    next: Place,
)
    requires
        reaches(answers, from, to, hops),
        0 <= n < to.lead_count(),
        to.lead(answers, n) == (Lead::Elsewhere { place: next }),
    ensures
        reaches(answers, from, next, hops + 1),
    decreases hops,
{
    if hops == 0 {
        assert(reaches(answers, next, next, 0));
        lemma_first_hop(answers, from, n, next, next, 0);
    } else {
        let m = choose|m: int|
            0 <= m < from.lead_count() && (#[trigger] from.lead(answers, m) matches Lead::Elsewhere {
                place: p,
            } && reaches(answers, p, to, (hops - 1) as nat));
        let second = from.lead(answers, m)->Elsewhere_place;
        lemma_last_hop(answers, second, to, (hops - 1) as nat, n, next);
        lemma_first_hop(answers, from, m, second, next, hops);
    }
}

/// From a place that was searched, only places that were searched can be reached.
proof fn lemma_reached_was_searched(
    answers: AnswersModel,
    start: Place,
    searched: Set<Place>,
    visited: Set<Seq<char>>,
    from: Place,
    to: Place,
    hops: nat,
)
    requires
        keys_tell_apart(answers, start),
        all_dead_ends(answers, start, searched, visited),
        all_accounted_for(searched, Set::empty(), visited),
        searched.contains(from),
        reaches(answers, from, to, hops),
    ensures
        searched.contains(to),
    decreases hops,
{
    if hops > 0 {
        let n = choose|n: int|
            0 <= n < from.lead_count() && (#[trigger] from.lead(answers, n) matches Lead::Elsewhere {
                place: p,
            } && reaches(answers, p, to, (hops - 1) as nat));
        let next = from.lead(answers, n)->Elsewhere_place;
        assert(is_dead_end(answers, from, visited));
        assert(is_spent(from.lead(answers, n), visited));
        let twin = choose|p: Place| searched.contains(p) && #[trigger] p.key() == next.key();
        let i = choose|i: nat| reaches(answers, start, twin, i);
        let j = choose|j: nat| reaches(answers, start, from, j);
        lemma_last_hop(answers, start, from, j, n, next);
        assert(reaches(answers, start, twin, i));
        assert(reaches(answers, start, next, j + 1));
        assert(twin == next);
        lemma_reached_was_searched(
            answers,
            start,
            searched,
            visited,
            next,
            to,
            (hops - 1) as nat,
        );
    }
}

/// A search that finds nothing has missed nothing: where keys tell places apart, no
/// place that leads go to defines what is looked for.
pub proof fn law_search_misses_nothing(
    answers: AnswersModel,
    start: Place,
    to: Place,
    hops: nat,
    n: int,
    item: SourceItemModel,
)
    requires
        keys_tell_apart(answers, start),
        search(answers, start, Set::empty()).is_empty_handed(),
        reaches(answers, start, to, hops),
    ensures
        !defines(answers, to, n, item),
{
    let visited = search(answers, start, Set::empty()).visited;
    let searched = lemma_search_exhausts(answers, start, Set::empty());
    lemma_reached_was_searched(answers, start, searched, visited, start, to, hops);
    if defines(answers, to, n, item) {
        assert(is_dead_end(answers, to, visited));
        assert(is_spent(to.lead(answers, n), visited));
    }
}

/// Whether the directory `levels` above `file` is known to hold a `Cargo.toml`, or
/// known not to.
pub open spec fn has_manifest(answers: AnswersModel, file: PathModel, levels: nat) -> Step<
    bool,
    QuestionModel,
> {
    answers.is_file(file.up(levels)->0.join("Cargo.toml"@))
}

/// The crate of a file is that of the innermost directory around the file with a
/// `Cargo.toml`; a file has none where no directory around it has a `Cargo.toml`. The
/// directories are asked for from the inside out.
pub proof fn law_crate_is_innermost(answers: AnswersModel, file: PathModel)
    ensures
        match crate_src_dir(answers, file) {
            Step::Done(Some(src)) => exists|levels: nat|
                1 <= levels <= file.parts.len() && #[trigger] has_manifest(answers, file, levels)
                    == Step::<bool, QuestionModel>::Done(true) && src == file.up(levels)->0.join(
                    "src"@,
                ) && (forall|inner: nat|
                    1 <= inner < levels ==> #[trigger] has_manifest(answers, file, inner)
                        == Step::<bool, QuestionModel>::Done(false)),
            Step::Done(None) => forall|levels: nat|
                1 <= levels <= file.parts.len() ==> #[trigger] has_manifest(answers, file, levels)
                    == Step::<bool, QuestionModel>::Done(false),
            Step::Ask(question) => exists|levels: nat|
                1 <= levels <= file.parts.len() && #[trigger] has_manifest(answers, file, levels)
                    == Step::<bool, QuestionModel>::Ask(question) && question
                    == (QuestionModel::IsFile {
                    path: file.up(levels)->0.join("Cargo.toml"@),
                }) && (forall|inner: nat|
                    1 <= inner < levels ==> #[trigger] has_manifest(answers, file, inner)
                        == Step::<bool, QuestionModel>::Done(false)),
        },
{
    if file.parts.len() > 0 {
        assert(file.parent()->0.parts =~= file.up(1)->0.parts);
        lemma_src_dir_innermost(answers, file, 1);
    }
}

proof fn lemma_src_dir_innermost(answers: AnswersModel, file: PathModel, from: nat)
    requires
        1 <= from <= file.parts.len(),
    ensures
        match src_dir_from(answers, file.up(from)->0) {
            Step::Done(Some(src)) => exists|levels: nat|
                from <= levels <= file.parts.len() && #[trigger] has_manifest(answers, file, levels)
                    == Step::<bool, QuestionModel>::Done(true) && src == file.up(levels)->0.join(
                    "src"@,
                ) && (forall|inner: nat|
                    from <= inner < levels ==> #[trigger] has_manifest(answers, file, inner)
                        == Step::<bool, QuestionModel>::Done(false)),
            Step::Done(None) => forall|levels: nat|
                from <= levels <= file.parts.len() ==> #[trigger] has_manifest(
                    answers,
                    file,
                    levels,
                ) == Step::<bool, QuestionModel>::Done(false),
            Step::Ask(question) => exists|levels: nat|
                from <= levels <= file.parts.len() && #[trigger] has_manifest(answers, file, levels)
                    == Step::<bool, QuestionModel>::Ask(question) && question
                    == (QuestionModel::IsFile {
                    path: file.up(levels)->0.join("Cargo.toml"@),
                }) && (forall|inner: nat|
                    from <= inner < levels ==> #[trigger] has_manifest(answers, file, inner)
                        == Step::<bool, QuestionModel>::Done(false)),
        },
    decreases file.parts.len() - from,
{
    let dir = file.up(from)->0;
    if has_manifest(answers, file, from) == Step::<bool, QuestionModel>::Done(false) {
        if from < file.parts.len() {
            assert(dir.parent()->0.parts =~= file.up(from + 1)->0.parts);
            lemma_src_dir_innermost(answers, file, from + 1);
            if let Step::Done(Some(src)) = src_dir_from(answers, dir) {
                let levels = choose|levels: nat|
                    from + 1 <= levels <= file.parts.len() && #[trigger] has_manifest(
                        answers,
                        file,
                        levels,
                    ) == Step::<bool, QuestionModel>::Done(true) && src == file.up(
                        levels,
                    )->0.join("src"@) && (forall|inner: nat|
                        from + 1 <= inner < levels ==> #[trigger] has_manifest(answers, file, inner)
                            == Step::<bool, QuestionModel>::Done(false));
                assert(has_manifest(answers, file, levels) == Step::<bool, QuestionModel>::Done(
                    true,
                ));
            }
            if let Step::Ask(question) = src_dir_from(answers, dir) {
                let levels = choose|levels: nat|
                    from + 1 <= levels <= file.parts.len() && #[trigger] has_manifest(
                        answers,
                        file,
                        levels,
                    ) == Step::<bool, QuestionModel>::Ask(question) && question
                        == (QuestionModel::IsFile {
                        path: file.up(levels)->0.join("Cargo.toml"@),
                    }) && (forall|inner: nat|
                        from + 1 <= inner < levels ==> #[trigger] has_manifest(answers, file, inner)
                            == Step::<bool, QuestionModel>::Done(false));
                assert(has_manifest(answers, file, levels) == Step::<bool, QuestionModel>::Ask(
                    question,
                ));
            }
        }
    } else if has_manifest(answers, file, from) == Step::<bool, QuestionModel>::Done(true) {
        assert(src_dir_from(answers, dir) == Step::<Option<PathModel>, QuestionModel>::Done(
            Some(dir.join("src"@)),
        ));
    } else {
        assert(has_manifest(answers, file, from) == Step::<bool, QuestionModel>::Ask(
            QuestionModel::IsFile { path: dir.join("Cargo.toml"@) },
        ));
    }
}

/// The file of a module is one of the two that it can be, and it is there if one of
/// them is.
pub proof fn law_module_file_is_there_if_any_is(answers: AnswersModel, base: PathModel)
    ensures
        module_file(answers, base) matches Step::Done(file) ==> {
            let flat = base.with_extension("rs"@);
            let nested = base.join("mod.rs"@);
            let there = Step::<bool, QuestionModel>::Done(true);
            &&& file == flat || file == nested
            &&& answers.is_file(flat) == there || answers.is_file(nested) == there
                ==> answers.is_file(file) == there
            &&& answers.is_file(flat) == there ==> file == flat
        },
{
}

/// A path that starts with none of `crate`, `self` and `super` leads out of the crate,
/// and has no file, whatever there is on disk; and so has the empty path.
pub proof fn law_other_crates_have_no_files(
    answers: AnswersModel,
    path: Seq<Seq<char>>,
    current: PathModel,
)
    requires
        path.len() > 0 ==> path[0] != "crate"@ && path[0] != "self"@ && path[0] != "super"@,
    ensures
        resolved_path(answers, path, current) == Step::<Option<PathModel>, QuestionModel>::Done(
            None,
        ),
{
}

proof fn lemma_leading_supers(supers: nat, rest: Seq<Seq<char>>)
    requires
        rest.len() > 0 ==> rest[0] != "super"@,
    ensures
        leading_supers(Seq::new(supers, |i: int| "super"@) + rest) == supers,
    decreases supers,
{
    let path = Seq::new(supers, |i: int| "super"@) + rest;
    if supers == 0 {
        assert(path =~= rest);
    } else {
        let less = (supers - 1) as nat;
        assert(path.drop_first() =~= Seq::new(less, |i: int| "super"@) + rest);
        lemma_leading_supers(less, rest);
    }
}

/// The first leading `super` is the directory of the current file, each further one
/// goes one directory up, and the rest of the path goes down from there.
pub proof fn law_supers_start_at_the_directory(
    answers: AnswersModel,
    supers: nat,
    rest: Seq<Seq<char>>,
    current: PathModel,
)
    requires
        supers >= 1,
        rest.len() > 0 ==> rest[0] != "super"@,
    ensures
        resolved_path(answers, Seq::new(supers, |i: int| "super"@) + rest, current) == (
        match current.up(supers) {
            Some(dir) => match module_file(answers, dir.join_all(rest)) {
                Step::Ask(question) => Step::Ask(question),
                Step::Done(file) => Step::Done(Some(file)),
            },
            None => Step::Done(None),
        }),
{
    let path = Seq::new(supers, |i: int| "super"@) + rest;
    lemma_leading_supers(supers, rest);
    reveal_strlit("crate");
    reveal_strlit("self");
    reveal_strlit("super");
    assert("super"@[1] == 'u');
    assert("crate"@[1] == 'r');
    assert("self"@[1] == 'e');
    assert(path[0] == "super"@);
    assert(path.skip(supers as int) =~= rest);
}

/// Whether there is a file at each of the paths.
pub open spec fn all_files(answers: AnswersModel, files: Seq<PathModel>) -> bool {
    forall|i: int|
        0 <= i < files.len() ==> answers.is_file(#[trigger] files[i]) == Step::<
            bool,
            QuestionModel,
        >::Done(true)
}

/// How many names an import brings into scope one by one.
pub open spec fn leaf_count(tree: ImportTreeModel) -> nat
    decreases tree,
{
    match tree {
        ImportTreeModel::Path { name, tree: inner } => leaf_count(*inner),
        ImportTreeModel::Name { name } => 1,
        ImportTreeModel::Rename { name, alias } => 1,
        ImportTreeModel::Glob => 0,
        ImportTreeModel::Group { trees } => leaves_count(trees),
    }
}

/// How many names imports bring into scope one by one.
pub open spec fn leaves_count(trees: Seq<ImportTreeModel>) -> nat
    decreases trees,
{
    if trees.len() == 0 {
        0
    } else {
        leaves_count(trees.drop_last()) + leaf_count(trees.last())
    }
}

/// The files that are collected for an import are all there, and there is at most
/// one for each name that it brings into scope.
pub proof fn law_collected_files_are_there(
    answers: AnswersModel,
    tree: ImportTreeModel,
    prefix: Seq<Seq<char>>,
    current: PathModel,
)
    ensures
        all_files(answers, tree_files(answers, tree, prefix, current).files),
        tree_files(answers, tree, prefix, current).files.len() <= leaf_count(tree),
    decreases tree,
{
    match tree {
        ImportTreeModel::Path { name, tree: inner } => {
            law_collected_files_are_there(answers, *inner, prefix.push(name), current);
        },
        ImportTreeModel::Group { trees } => {
            lemma_group_files_are_there(answers, trees, prefix, current);
        },
        _ => {},
    }
}

proof fn lemma_group_files_are_there(
    answers: AnswersModel,
    trees: Seq<ImportTreeModel>,
    prefix: Seq<Seq<char>>,
    current: PathModel,
)
    ensures
        all_files(answers, group_files(answers, trees, prefix, current).files),
        group_files(answers, trees, prefix, current).files.len() <= leaves_count(trees),
    decreases trees,
{
    if trees.len() > 0 {
        lemma_group_files_are_there(answers, trees.drop_last(), prefix, current);
        law_collected_files_are_there(answers, trees.last(), prefix, current);
    }
}

/// A group of imports collects what its imports collect, one after the other.
pub proof fn law_groups_are_collected_in_turn(
    answers: AnswersModel,
    first: Seq<ImportTreeModel>,
    second: Seq<ImportTreeModel>,
    prefix: Seq<Seq<char>>,
    current: PathModel,
)
    ensures
        tree_files(answers, ImportTreeModel::Group { trees: first + second }, prefix, current)
            == tree_files(
            answers,
            ImportTreeModel::Group { trees: first },
            prefix,
            current,
        ).followed_by(
            tree_files(answers, ImportTreeModel::Group { trees: second }, prefix, current),
        ),
{
    lemma_groups_in_turn(answers, first, second, prefix, current);
}

proof fn lemma_groups_in_turn(
    answers: AnswersModel,
    first: Seq<ImportTreeModel>,
    second: Seq<ImportTreeModel>,
    prefix: Seq<Seq<char>>,
    current: PathModel,
)
    ensures
        group_files(answers, first + second, prefix, current) == group_files(
            answers,
            first,
            prefix,
            current,
        ).followed_by(group_files(answers, second, prefix, current)),
    decreases second.len(),
{
    let a = group_files(answers, first, prefix, current);
    if second.len() == 0 {
        assert(first + second =~= first);
        assert(a.files + Harvest::nothing().files =~= a.files);
    } else {
        let b = group_files(answers, second.drop_last(), prefix, current);
        let c = tree_files(answers, second.last(), prefix, current);
        assert((first + second).drop_last() =~= first + second.drop_last());
        assert((first + second).last() == second.last());
        lemma_groups_in_turn(answers, first, second.drop_last(), prefix, current);
        assert(a.files + b.files + c.files =~= a.files + (b.files + c.files));
    }
}

/// Whether an import brings `wanted` into scope by that name.
pub open spec fn brings_in(tree: ImportTreeModel, wanted: Seq<char>) -> bool
    decreases tree,
{
    match tree {
        ImportTreeModel::Path { name, tree: inner } => brings_in(*inner, wanted),
        ImportTreeModel::Name { name } => name == wanted,
        ImportTreeModel::Rename { name, alias } => alias == wanted,
        ImportTreeModel::Glob => false,
        ImportTreeModel::Group { trees } => any_brings_in(trees, wanted),
    }
}

/// Whether one of the imports brings `wanted` into scope by that name.
pub open spec fn any_brings_in(trees: Seq<ImportTreeModel>, wanted: Seq<char>) -> bool
    decreases trees,
{
    trees.len() > 0 && (brings_in(trees[0], wanted) || any_brings_in(trees.drop_first(), wanted))
}

/// An import that does not bring a name into scope points to no file for it,
/// whatever there is on disk.
pub proof fn law_unrelated_imports_point_nowhere(
    answers: AnswersModel,
    tree: ImportTreeModel,
    prefix: Seq<Seq<char>>,
    wanted: Seq<char>,
    current: PathModel,
)
    requires
        !brings_in(tree, wanted),
    ensures
        named_file(answers, tree, prefix, wanted, current) == Step::<
            Option<PathModel>,
            QuestionModel,
        >::Done(None),
{
    lemma_unrelated_import(answers, tree, prefix, wanted, current);
}

proof fn lemma_unrelated_import(
    answers: AnswersModel,
    tree: ImportTreeModel,
    prefix: Seq<Seq<char>>,
    wanted: Seq<char>,
    current: PathModel,
)
    requires
        !brings_in(tree, wanted),
    ensures
        imported_from(answers, tree, prefix, wanted, current) == Step::<
            Option<(PathModel, Seq<char>)>,
            QuestionModel,
        >::Done(None),
    decreases tree,
{
    match tree {
        ImportTreeModel::Path { name, tree: inner } => {
            lemma_unrelated_import(answers, *inner, prefix.push(name), wanted, current);
        },
        ImportTreeModel::Group { trees } => {
            lemma_unrelated_group(answers, trees, prefix, wanted, current);
        },
        _ => {},
    }
}

proof fn lemma_unrelated_group(
    answers: AnswersModel,
    trees: Seq<ImportTreeModel>,
    prefix: Seq<Seq<char>>,
    wanted: Seq<char>,
    current: PathModel,
)
    requires
        !any_brings_in(trees, wanted),
    ensures
        first_imported_from(answers, trees, prefix, wanted, current) == Step::<
            Option<(PathModel, Seq<char>)>,
            QuestionModel,
        >::Done(None),
    decreases trees,
{
    if trees.len() > 0 {
        lemma_unrelated_import(answers, trees[0], prefix, wanted, current);
        lemma_unrelated_group(answers, trees.drop_first(), prefix, wanted, current);
    }
}

/// An import points to the same file for what it imports, whether that is renamed
/// or not, and the search goes on there with the name before the renaming.
pub proof fn law_renaming_keeps_the_file(
    answers: AnswersModel,
    prefix: Seq<Seq<char>>,
    name: Seq<char>,
    alias: Seq<char>,
    current: PathModel,
)
    ensures
        named_file(answers, ImportTreeModel::Rename { name, alias }, prefix, alias, current)
            == named_file(answers, ImportTreeModel::Name { name }, prefix, name, current),
        imported_from(answers, ImportTreeModel::Rename { name, alias }, prefix, alias, current)
            == with_name(resolved_path(answers, prefix, current), name),
{
}

/// A type that is defined in the file itself, and referenced by its name alone, is
/// found there, whatever there is on disk: neither imports nor inline modules are
/// looked at, unless an alias of the same name stands before the definition.
pub proof fn law_definition_in_the_file_comes_first(
    answers: AnswersModel,
    items: Seq<SourceItemModel>,
    origin: PathModel,
    wanted: Seq<char>,
    fallback: Option<Seq<char>>,
    i: int,
)
    requires
        answers.source(origin) == Step::<Option<Seq<SourceItemModel>>, QuestionModel>::Done(
            Some(items),
        ),
        defined_at(items, wanted, i),
    ensures
        search_with_fallback(answers, origin, Seq::empty(), wanted, fallback) == Step::<
            Option<SourceItemModel>,
            QuestionModel,
        >::Done(Some(items[i])),
{
    lemma_defined_here(
        answers,
        Place { items, path: origin, mod_path: Seq::empty(), wanted },
        i,
    );
}

proof fn lemma_follow_to_definition(
    answers: AnswersModel,
    place: Place,
    visited: Set<Seq<char>>,
    from: nat,
    i: nat,
)
    requires
        from <= i < place.items.len(),
        place.lead(answers, i as int) == (Lead::Definition { item: place.items[i as int] }),
        forall|j: int| from <= j < i ==> #[trigger] place.lead(answers, j) is Nothing,
    ensures
        follow(answers, place, visited, from).step == Step::<
            Option<SourceItemModel>,
            QuestionModel,
        >::Done(Some(place.items[i as int])),
    decreases i - from,
{
    if from < i {
        assert(place.lead(answers, from as int) is Nothing);
        lemma_follow_to_definition(answers, place, visited, from + 1, i);
    }
}

/// The fallback does not come into it where the type itself is found, or where that
/// is still open.
pub proof fn law_fallback_is_only_for_the_missing(
    answers: AnswersModel,
    origin: PathModel,
    leading: Seq<Seq<char>>,
    wanted: Seq<char>,
    fallback: Option<Seq<char>>,
)
    requires
        search_with_fallback(answers, origin, leading, wanted, None) != Step::<
            Option<SourceItemModel>,
            QuestionModel,
        >::Done(None),
    ensures
        search_with_fallback(answers, origin, leading, wanted, fallback) == search_with_fallback(
            answers,
            origin,
            leading,
            wanted,
            None,
        ),
{
}

/// A type that is nowhere to be found has the fields of its fallback.
pub proof fn law_missing_type_mirrors_its_fallback(
    answers: AnswersModel,
    origin: PathModel,
    leading: Seq<Seq<char>>,
    wanted: Seq<char>,
    fallback: Seq<char>,
)
    requires
        search_with_fallback(answers, origin, leading, wanted, None) == Step::<
            Option<SourceItemModel>,
            QuestionModel,
        >::Done(None),
    ensures
        search_with_fallback(answers, origin, leading, wanted, Some(fallback)) == search_with_fallback(
            answers,
            origin,
            leading,
            fallback,
            None,
        ),
{
}

/// Whether an item is the definition of a struct or of an enum.
pub open spec fn is_definition(item: SourceItemModel) -> bool {
    item is Struct || item is Enum
}

/// Whether a search has come to a definition, if it has come to anything.
pub open spec fn finds_only_definitions(
    step: Step<Option<SourceItemModel>, QuestionModel>,
) -> bool {
    step matches Step::Done(Some(item)) ==> is_definition(item)
}

proof fn lemma_search_finds_definitions(
    answers: AnswersModel,
    place: Place,
    visited: Set<Seq<char>>,
)
    ensures
        finds_only_definitions(search(answers, place, visited).step),
{
    law_what_is_found_is_reachable(answers, place, visited);
    if let Step::Done(Some(item)) = search(answers, place, visited).step {
        let (to, hops, n) = choose|to: Place, hops: nat, n: int|
            #[trigger] defines(answers, to, n, item) && #[trigger] reaches(
                answers,
                place,
                to,
                hops,
            );
        assert(defines(answers, to, n, item));
    }
}

proof fn lemma_search_files_finds_definitions(
    answers: AnswersModel,
    files: Seq<PathModel>,
    wanted: Seq<char>,
)
    ensures
        finds_only_definitions(search_files(answers, files, wanted)),
    decreases files.len(),
{
    if files.len() > 0 {
        lemma_search_files_finds_definitions(answers, files.drop_first(), wanted);
        if let Step::Done(Some(items)) = answers.source(files[0]) {
            lemma_search_finds_definitions(
                answers,
                Place { items, path: files[0], mod_path: Seq::empty(), wanted },
                Set::empty(),
            );
        }
    }
}

proof fn lemma_scope_finds_definitions(
    answers: AnswersModel,
    place: Place,
    visited: Set<Seq<char>>,
    n: nat,
)
    ensures
        finds_only_definitions(search_scope(answers, place, visited, n)),
    decreases 2 * place.items.len() - n,
{
    if n < 2 * place.items.len() {
        match place.scope_lead(answers, n as int) {
            Lead::Nothing => {
                lemma_scope_finds_definitions(answers, place, visited, n + 1);
            },
            Lead::Elsewhere { place: next } => {
                lemma_search_finds_definitions(answers, next, visited);
                lemma_scope_finds_definitions(
                    answers,
                    place,
                    search(answers, next, visited).visited,
                    n + 1,
                );
            },
            _ => {},
        }
    }
}

proof fn lemma_search_from_finds_definitions(
    answers: AnswersModel,
    items: Seq<SourceItemModel>,
    origin: PathModel,
    leading: Seq<Seq<char>>,
    wanted: Seq<char>,
)
    ensures
        finds_only_definitions(search_from(answers, items, origin, leading, wanted)),
{
    if let Step::Done(Some(inner)) = module_pointed_into(answers, items, origin, leading) {
        let place = place_pointed_into(inner, origin, leading, wanted);
        lemma_scope_finds_definitions(answers, place, set![place.key()], 0);
    }
    lemma_search_finds_definitions(
        answers,
        Place { items, path: origin, mod_path: Seq::empty(), wanted },
        Set::empty(),
    );
    lemma_search_imports_finds_definitions(answers, items, origin, wanted);
}

proof fn lemma_search_imports_finds_definitions(
    answers: AnswersModel,
    items: Seq<SourceItemModel>,
    current: PathModel,
    wanted: Seq<char>,
)
    ensures
        finds_only_definitions(search_imports(answers, items, current, wanted)),
    decreases items.len(),
{
    if items.len() > 0 {
        lemma_search_imports_finds_definitions(answers, items.drop_first(), current, wanted);
        if let SourceItemModel::Import { tree } = items[0] {
            lemma_search_files_finds_definitions(
                answers,
                tree_files(answers, tree, Seq::empty(), current).files,
                wanted,
            );
        }
    }
}

/// What is discovered is the definition of a struct or of an enum.
pub proof fn law_what_is_discovered_is_a_definition(
    answers: AnswersModel,
    origin: PathModel,
    type_path: Seq<Seq<char>>,
    fallback: Option<Seq<char>>,
)
    ensures
        finds_only_definitions(discovered(answers, origin, type_path, fallback)),
{
    if type_path.len() > 0 {
        if let Step::Done(Some(items)) = answers.source(origin) {
            let leading = type_path.drop_last();
            lemma_search_from_finds_definitions(answers, items, origin, leading, type_path.last());
            if let Some(other) = fallback {
                lemma_search_from_finds_definitions(answers, items, origin, leading, other);
            }
        }
    }
}

/// Whether the `i`th of `items` defines `wanted`, and nothing before it has that name.
pub open spec fn defined_at(items: Seq<SourceItemModel>, wanted: Seq<char>, i: int) -> bool {
    &&& 0 <= i < items.len()
    &&& match items[i] {
        SourceItemModel::Struct { name, fields } => name == wanted,
        SourceItemModel::Enum { name, variants } => name == wanted,
        _ => false,
    }
    &&& forall|j: int|
        0 <= j < i ==> match #[trigger] items[j] {
            SourceItemModel::Struct { name, fields } => name != wanted,
            SourceItemModel::Enum { name, variants } => name != wanted,
            SourceItemModel::Alias { name, target } => name != wanted,
            _ => true,
        }
}

proof fn lemma_defined_here(answers: AnswersModel, place: Place, i: int)
    requires
        defined_at(place.items, place.wanted, i),
    ensures
        search(answers, place, Set::empty()).step == Step::<
            Option<SourceItemModel>,
            QuestionModel,
        >::Done(Some(place.items[i])),
{
    lemma_follow_to_definition(
        answers,
        place,
        Set::<Seq<char>>::empty().insert(place.key()),
        0,
        i as nat,
    );
}

proof fn lemma_scope_to_definition(
    answers: AnswersModel,
    place: Place,
    visited: Set<Seq<char>>,
    from: nat,
    i: nat,
)
    requires
        from <= i < place.items.len(),
        place.scope_lead(answers, i as int) == (Lead::Definition { item: place.items[i as int] }),
        forall|j: int| from <= j < i ==> #[trigger] place.scope_lead(answers, j) is Nothing,
    ensures
        search_scope(answers, place, visited, from) == Step::<
            Option<SourceItemModel>,
            QuestionModel,
        >::Done(Some(place.items[i as int])),
    decreases i - from,
{
    if from < i {
        assert(place.scope_lead(answers, from as int) is Nothing);
        lemma_scope_to_definition(answers, place, visited, from + 1, i);
    }
}

/// A type that is referenced by a path into an inline module of the file, and that
/// is defined there, is the one that is discovered, whatever types of the same name
/// there are elsewhere.
pub proof fn law_referenced_type_is_discovered(
    answers: AnswersModel,
    items: Seq<SourceItemModel>,
    origin: PathModel,
    type_path: Seq<Seq<char>>,
    fallback: Option<Seq<char>>,
    inner: Seq<SourceItemModel>,
    i: int,
)
    requires
        origin.anchor.len() > 0 || origin.parts.len() > 0,
        answers.source(origin) == Step::<Option<Seq<SourceItemModel>>, QuestionModel>::Done(
            Some(items),
        ),
        type_path.len() > 0,
        module_pointed_into(answers, items, origin, type_path.drop_last()) == Step::<
            Option<Seq<SourceItemModel>>,
            QuestionModel,
        >::Done(Some(inner)),
        defined_at(inner, type_path.last(), i),
    ensures
        discovered(answers, origin, type_path, fallback) == Step::<
            Option<SourceItemModel>,
            QuestionModel,
        >::Done(Some(inner[i])),
{
    let place = place_pointed_into(inner, origin, type_path.drop_last(), type_path.last());
    lemma_scope_to_definition(answers, place, set![place.key()], 0, i as nat);
}

/// Whether one of `items` is a struct, an enum or an alias called `wanted`, or an
/// import that brings `wanted` into scope.
pub open spec fn has_in_scope(items: Seq<SourceItemModel>, wanted: Seq<char>) -> bool {
    exists|i: int|
        0 <= i < items.len() && match #[trigger] items[i] {
            SourceItemModel::Struct { name, fields } => name == wanted,
            SourceItemModel::Enum { name, variants } => name == wanted,
            SourceItemModel::Alias { name, target } => name == wanted,
            SourceItemModel::Import { tree } => brings_in(tree, wanted),
            _ => false,
        }
}

/// Whether a path with the leading segments `leading` points into no inline module
/// that has `wanted` in its scope.
pub open spec fn points_to_no(
    answers: AnswersModel,
    items: Seq<SourceItemModel>,
    origin: PathModel,
    leading: Seq<Seq<char>>,
    wanted: Seq<char>,
) -> bool {
    match module_pointed_into(answers, items, origin, leading) {
        Step::Ask(_) => false,
        Step::Done(None) => true,
        Step::Done(Some(inner)) => !has_in_scope(inner, wanted),
    }
}

proof fn lemma_scope_without(
    answers: AnswersModel,
    place: Place,
    visited: Set<Seq<char>>,
    n: nat,
)
    requires
        !has_in_scope(place.items, place.wanted),
    ensures
        search_scope(answers, place, visited, n) == Step::<
            Option<SourceItemModel>,
            QuestionModel,
        >::Done(None),
    decreases 2 * place.items.len() - n,
{
    let len = place.items.len();
    if n < 2 * len {
        if n < len {
            assert(place.scope_lead(answers, n as int) == place.lead_by_name(
                place.items[n as int],
            ));
        } else {
            let item = place.items[n - len];
            if let SourceItemModel::Import { tree } = item {
                assert(!brings_in(tree, place.wanted));
                lemma_unrelated_import(answers, tree, Seq::empty(), place.wanted, place.path);
            }
        }
        assert(place.scope_lead(answers, n as int) is Nothing);
        lemma_scope_without(answers, place, visited, n + 1);
    }
}

proof fn lemma_search_from_without(
    answers: AnswersModel,
    items: Seq<SourceItemModel>,
    origin: PathModel,
    leading: Seq<Seq<char>>,
    wanted: Seq<char>,
)
    requires
        points_to_no(answers, items, origin, leading, wanted),
    ensures
        search_from(answers, items, origin, leading, wanted) == search_from(
            answers,
            items,
            origin,
            Seq::empty(),
            wanted,
        ),
{
    if let Step::Done(Some(inner)) = module_pointed_into(answers, items, origin, leading) {
        let place = place_pointed_into(inner, origin, leading, wanted);
        lemma_scope_without(answers, place, set![place.key()], 0);
    }
}

/// Where the module that a path points into has no struct, enum, alias or import of
/// the name, or where the path points into none, only the last segment of the path
/// counts. Modules nested in the one pointed into do not come before the file.
pub proof fn law_other_references_go_by_the_last_segment(
    answers: AnswersModel,
    items: Seq<SourceItemModel>,
    origin: PathModel,
    type_path: Seq<Seq<char>>,
    fallback: Option<Seq<char>>,
)
    requires
        answers.source(origin) == Step::<Option<Seq<SourceItemModel>>, QuestionModel>::Done(
            Some(items),
        ),
        type_path.len() > 0,
        points_to_no(answers, items, origin, type_path.drop_last(), type_path.last()),
        fallback matches Some(other) ==> points_to_no(
            answers,
            items,
            origin,
            type_path.drop_last(),
            other,
        ),
    ensures
        discovered(answers, origin, type_path, fallback) == discovered(
            answers,
            origin,
            seq![type_path.last()],
            fallback,
        ),
{
    let leading = type_path.drop_last();
    assert(seq![type_path.last()].drop_last() =~= Seq::empty());
    lemma_search_from_without(answers, items, origin, leading, type_path.last());
    if let Some(other) = fallback {
        lemma_search_from_without(answers, items, origin, leading, other);
    }
}

/// What the file itself gives for the last segment of a path wins over the files that
/// its imports lead to and over the fallback, unless the path points into an inline
/// module that has the name in its scope.
pub proof fn law_what_the_file_gives_wins(
    answers: AnswersModel,
    items: Seq<SourceItemModel>,
    origin: PathModel,
    type_path: Seq<Seq<char>>,
    fallback: Option<Seq<char>>,
)
    requires
        origin.anchor.len() > 0 || origin.parts.len() > 0,
        answers.source(origin) == Step::<Option<Seq<SourceItemModel>>, QuestionModel>::Done(
            Some(items),
        ),
        type_path.len() > 0,
        points_to_no(answers, items, origin, type_path.drop_last(), type_path.last()),
        search_file(answers, items, origin, type_path.last()) != Step::<
            Option<SourceItemModel>,
            QuestionModel,
        >::Done(None),
    ensures
        discovered(answers, origin, type_path, fallback) == search_file(
            answers,
            items,
            origin,
            type_path.last(),
        ),
{
    lemma_search_from_without(answers, items, origin, type_path.drop_last(), type_path.last());
}

/// Where the leading segments of a path lead to no inline module of the file, or to
/// more than one, or where their first name may mean another module than the one at
/// the root of the file, only the last segment counts.
pub proof fn law_ambiguous_references_go_by_the_last_segment(
    answers: AnswersModel,
    items: Seq<SourceItemModel>,
    origin: PathModel,
    type_path: Seq<Seq<char>>,
    fallback: Option<Seq<char>>,
)
    requires
        answers.source(origin) == Step::<Option<Seq<SourceItemModel>>, QuestionModel>::Done(
            Some(items),
        ),
        type_path.len() > 0,
        ({
            let modules = module_names(type_path.drop_last());
            ||| modules.len() == 0
            ||| modules_at(items, modules).len() != 1
            ||| type_path[0] != "crate"@ && named_below(items, modules[0])
        }),
    ensures
        discovered(answers, origin, type_path, fallback) == discovered(
            answers,
            origin,
            seq![type_path.last()],
            fallback,
        ),
{
    law_other_references_go_by_the_last_segment(answers, items, origin, type_path, fallback);
}

/// In the root of a crate, `crate` stands for the root of the file: a path that goes
/// by `crate` is worth what it is without, where that is not ambiguous.
pub proof fn law_crate_is_the_root_of_its_file(
    answers: AnswersModel,
    items: Seq<SourceItemModel>,
    origin: PathModel,
    type_path: Seq<Seq<char>>,
    fallback: Option<Seq<char>>,
)
    requires
        answers.source(origin) == Step::<Option<Seq<SourceItemModel>>, QuestionModel>::Done(
            Some(items),
        ),
        is_crate_root(answers, origin) == Step::<bool, QuestionModel>::Done(true),
        type_path.len() > 0,
        type_path[0] != "self"@,
        type_path[0] != "crate"@,
        !named_below(items, type_path[0]),
    ensures
        discovered(answers, origin, seq!["crate"@] + type_path, fallback) == discovered(
            answers,
            origin,
            type_path,
            fallback,
        ),
{
    let longer = seq!["crate"@] + type_path;
    let leading = type_path.drop_last();
    assert(longer.last() == type_path.last());
    assert(longer.drop_last() =~= seq!["crate"@] + leading);
    assert(longer.drop_last()[0] == "crate"@);
    assert(longer.drop_last().drop_first() =~= leading);
    assert(module_names(longer.drop_last()) == leading);
    assert(leading.len() > 0 ==> leading[0] == type_path[0]);
    assert(module_names(leading) == leading);
}

/// Where the text before `Ex` is an identifier or a raw identifier made of ASCII, it
/// is the name of the type that a type is generated from; where it is any other word,
/// there is none.
pub proof fn law_companion_is_what_stands_before(name: Seq<char>, other: Option<Seq<char>>)
    requires
        is_extended(name),
        is_companion(name, other),
    ensures
        is_word(stem(name)) && is_identifier(stem(name)) ==> other == Some(stem(name)),
        is_raw_identifier(stem(name)) ==> other == Some(stem(name)),
        is_word(stem(name)) && !is_identifier(stem(name)) ==> other is None,
{
    if is_raw_identifier(stem(name)) {
        assert(stem(name)[1] == '#');
    }
}

/// A type whose name ends in `Ex`, and that is nowhere to be found, has the fields of
/// the type whose name is what the text before `Ex` is read as; it has none where that
/// type has none. This is so for every name.
pub proof fn law_generated_type_mirrors_its_companion(
    answers: AnswersModel,
    origin: PathModel,
    type_path: Seq<Seq<char>>,
    other: Seq<char>,
    further: Option<Seq<char>>,
)
    requires
        type_path.len() > 0,
        is_extended(type_path.last()),
        is_companion(type_path.last(), Some(other)),
        !is_extended(other),
        is_companion(other, further),
        discovered(answers, origin, type_path, None) == Step::<
            Option<SourceItemModel>,
            QuestionModel,
        >::Done(None),
    ensures
        discovered(answers, origin, type_path, Some(other)) == discovered(
            answers,
            origin,
            type_path.drop_last().push(other),
            further,
        ),
{
    assert(type_path.drop_last().push(other).drop_last() =~= type_path.drop_last());
}

/// Whether what a type called `name` is generated from, if anything, is the same
/// whoever reads it: the name does not end in `Ex`, or a plain text stands before.
pub open spec fn has_one_reading(name: Seq<char>) -> bool {
    is_extended(name) ==> is_plain(stem(name))
}

/// Two discoveries of the fields of one type come to the same, where its name has one
/// reading.
pub proof fn law_discovery_can_be_repeated(
    answers: AnswersModel,
    origin: PathModel,
    type_path: Seq<Seq<char>>,
    found: Step<Option<Map<Seq<char>, FieldTypeModel>>, QuestionModel>,
    again: Step<Option<Map<Seq<char>, FieldTypeModel>>, QuestionModel>,
)
    requires
        type_path.len() > 0 ==> has_one_reading(type_path.last()),
        may_discover(answers, origin, type_path, found),
        may_discover(answers, origin, type_path, again),
    ensures
        again == found,
{
}

/// Where the name of a type has one reading, the names that are discovered are exactly
/// those of the fields that are discovered with their types, and there are none if and
/// only if there are no fields.
pub proof fn law_names_are_those_of_the_fields(
    answers: AnswersModel,
    origin: PathModel,
    type_path: Seq<Seq<char>>,
    found: Step<Option<Map<Seq<char>, FieldTypeModel>>, QuestionModel>,
    names: Step<Option<Set<Seq<char>>>, QuestionModel>,
)
    requires
        type_path.len() > 0 ==> has_one_reading(type_path.last()),
        may_discover(answers, origin, type_path, found),
        exists|again: Step<Option<Map<Seq<char>, FieldTypeModel>>, QuestionModel>| #[trigger]
            may_discover(answers, origin, type_path, again) && names == names_in(again),
    ensures
        names == names_in(found),
{
    let again = choose|again: Step<Option<Map<Seq<char>, FieldTypeModel>>, QuestionModel>|
        #[trigger] may_discover(answers, origin, type_path, again) && names == names_in(again);
    law_discovery_can_be_repeated(answers, origin, type_path, found, again);
}

/// Read the same way, whatever the name, the names that a search offers are exactly
/// those of the fields that it offers with their types.
pub proof fn law_same_reading_gives_the_same_names(
    answers: AnswersModel,
    origin: PathModel,
    type_path: Seq<Seq<char>>,
    fallback: Option<Seq<char>>,
)
    ensures
        names_found(discovered(answers, origin, type_path, fallback)) == names_in(
            types_found(discovered(answers, origin, type_path, fallback)),
        ),
{
    law_types_found_have_the_names_found(discovered(answers, origin, type_path, fallback));
}

/// Whether the file `file` has been searched for `wanted` to no avail, or cannot be
/// read and parsed.
pub open spec fn has_not(answers: AnswersModel, file: PathModel, wanted: Seq<char>) -> bool {
    match answers.source(file) {
        Step::Done(Some(items)) => search_file(answers, items, file, wanted) == Step::<
            Option<SourceItemModel>,
            QuestionModel,
        >::Done(None),
        Step::Done(None) => true,
        Step::Ask(_) => false,
    }
}

proof fn lemma_no_file_has(
    answers: AnswersModel,
    files: Seq<PathModel>,
    wanted: Seq<char>,
    j: int,
)
    requires
        search_files(answers, files, wanted) == Step::<
            Option<SourceItemModel>,
            QuestionModel,
        >::Done(None),
        0 <= j < files.len(),
    ensures
        has_not(answers, files[j], wanted),
    decreases files.len(),
{
    if j > 0 {
        assert(files.drop_first()[j - 1] == files[j]);
        lemma_no_file_has(answers, files.drop_first(), wanted, j - 1);
    }
}

proof fn lemma_no_import_has(
    answers: AnswersModel,
    items: Seq<SourceItemModel>,
    current: PathModel,
    wanted: Seq<char>,
    i: int,
    j: int,
)
    requires
        search_imports(answers, items, current, wanted) == Step::<
            Option<SourceItemModel>,
            QuestionModel,
        >::Done(None),
        0 <= i < items.len(),
        items[i] is Import,
        0 <= j < tree_files(answers, items[i]->Import_tree, Seq::empty(), current).files.len(),
    ensures
        has_not(
            answers,
            tree_files(answers, items[i]->Import_tree, Seq::empty(), current).files[j],
            wanted,
        ),
    decreases items.len(),
{
    if i == 0 {
        lemma_no_file_has(
            answers,
            tree_files(answers, items[0]->Import_tree, Seq::empty(), current).files,
            wanted,
            j,
        );
    } else {
        assert(items.drop_first()[i - 1] == items[i]);
        lemma_no_import_has(answers, items.drop_first(), current, wanted, i - 1, j);
    }
}

/// Where nothing is discovered, the type is nowhere: neither in the file that it is
/// referenced in, nor in any file that the `use` declarations there lead to.
pub proof fn law_nothing_discovered_is_nowhere(
    answers: AnswersModel,
    items: Seq<SourceItemModel>,
    origin: PathModel,
    leading: Seq<Seq<char>>,
    wanted: Seq<char>,
    fallback: Option<Seq<char>>,
    i: int,
    j: int,
)
    requires
        answers.source(origin) == Step::<Option<Seq<SourceItemModel>>, QuestionModel>::Done(
            Some(items),
        ),
        search_with_fallback(answers, origin, leading, wanted, fallback) == Step::<
            Option<SourceItemModel>,
            QuestionModel,
        >::Done(None),
    ensures
        has_not(answers, origin, wanted),
        0 <= i < items.len() && items[i] is Import && 0 <= j < tree_files(
            answers,
            items[i]->Import_tree,
            Seq::empty(),
            origin,
        ).files.len() ==> has_not(
            answers,
            tree_files(answers, items[i]->Import_tree, Seq::empty(), origin).files[j],
            wanted,
        ),
{
    if 0 <= i < items.len() && items[i] is Import && 0 <= j < tree_files(
        answers,
        items[i]->Import_tree,
        Seq::empty(),
        origin,
    ).files.len() {
        lemma_no_import_has(answers, items, origin, wanted, i, j);
    }
}

} // verus!
