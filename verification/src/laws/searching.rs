//! Where a search goes, and what it comes back with, in terms of the items of the
//! places on its way.
use vstd::prelude::*;

use crate::answers::{AnswersModel, QuestionModel, Step};
use crate::path::PathModel;
use crate::resolve::{imported_from, resolved_path};
use crate::search::{
    follow, follow_trail, law_search_keeps_visited, lemma_visiting, lemma_visiting_elsewhere, places,
    search, search_key, search_scope, search_trail, unvisited, Lead, Place,
};
use crate::syntax::{AliasTargetModel, ImportTreeModel, SourceItemModel};

use crate::laws::imports::{
    is_visible, law_import_points_nowhere_else, law_import_points_to_the_module_in_front,
    law_imports_bring_in_their_leaves, leaves, Leaf,
};
use crate::laws::{
    defined_at, defines, is_dead_end, is_spent, keys_tell_apart, reaches,
};

verus! {

/// Whether the `i`th item of `from` is an alias for the wanted name, and leads to `to`:
/// the same items, where the last segment of its target is wanted.
pub open spec fn alias_leads(from: Place, to: Place, i: int) -> bool {
    &&& 0 <= i < from.items.len()
    &&& from.items[i] matches SourceItemModel::Alias {
        name,
        target: AliasTargetModel::Path { segments },
    }
    &&& name == from.wanted
    &&& segments.len() > 0
    &&& segments[segments.len() - 1] != from.wanted
    &&& to == (Place {
        items: from.items,
        path: from.path,
        mod_path: from.mod_path,
        wanted: segments[segments.len() - 1],
    })
}

/// Whether the `i`th item of `from` is an inline module, and `to` is that module, where
/// the same name is wanted.
pub open spec fn module_leads(from: Place, to: Place, i: int) -> bool {
    &&& 0 <= i < from.items.len()
    &&& from.items[i] matches SourceItemModel::Module { name, body: Some(inner) }
    &&& to == (Place {
        items: inner,
        path: from.path,
        mod_path: if from.mod_path.len() == 0 {
            name
        } else {
            from.mod_path + "::"@ + name
        },
        wanted: from.wanted,
    })
}

/// Whether the `k`th of `leaves` is the first that is visible as `wanted` in the file
/// `current` and whose path in front names a module.
pub open spec fn is_first_leaf(
    answers: AnswersModel,
    leaves: Seq<Leaf>,
    wanted: Seq<char>,
    current: PathModel,
    k: int,
) -> bool {
    &&& 0 <= k < leaves.len()
    &&& leaves[k].visible == wanted
    &&& forall|j: int|
        0 <= j < k && (#[trigger] leaves[j]).visible == wanted ==> resolved_path(
            answers,
            leaves[j].before,
            current,
        ) == Step::<Option<PathModel>, QuestionModel>::Done(None)
}

/// Whether the `i`th item of `from`, in whatever module of its file, is a `use`
/// declaration whose `k`th leaf brings the wanted name into scope, and `to` is the file
/// that it is imported from, known and readable, where the name that it has there is
/// wanted.
pub open spec fn import_leads(
    answers: AnswersModel,
    from: Place,
    to: Place,
    i: int,
    k: int,
) -> bool {
    &&& 0 <= i < from.items.len()
    &&& from.items[i] matches SourceItemModel::Import { tree }
    &&& is_first_leaf(answers, leaves(tree), from.wanted, from.path, k)
    &&& resolved_path(answers, leaves(tree)[k].before, from.path) == Step::<
        Option<PathModel>,
        QuestionModel,
    >::Done(Some(to.path))
    &&& answers.source(to.path) == Step::<Option<Seq<SourceItemModel>>, QuestionModel>::Done(
        Some(to.items),
    )
    &&& to.mod_path.len() == 0
    &&& to.wanted == leaves(tree)[k].name
}

/// Whether an item of `from` leads to `to`.
pub open spec fn leads_to(answers: AnswersModel, from: Place, to: Place) -> bool {
    ||| exists|i: int| alias_leads(from, to, i)
    ||| exists|i: int| module_leads(from, to, i)
    ||| exists|i: int, k: int| import_leads(answers, from, to, i, k)
}

/// Whether `hops` items, one after the other, lead from one place to another.
pub open spec fn leads_in(answers: AnswersModel, from: Place, to: Place, hops: nat) -> bool
    decreases hops,
{
    if hops == 0 {
        from == to
    } else {
        exists|next: Place| #[trigger]
            leads_to(answers, from, next) && leads_in(answers, next, to, (hops - 1) as nat)
    }
}

/// Whether `item` is one of the items of `place`, and the struct or the enum that is
/// wanted there.
pub open spec fn holds(place: Place, item: SourceItemModel) -> bool {
    exists|i: int|
        0 <= i < place.items.len() && #[trigger] place.items[i] == item && match item {
            SourceItemModel::Struct { name, fields } => name == place.wanted,
            SourceItemModel::Enum { name, variants } => name == place.wanted,
            _ => false,
        }
}

proof fn lemma_import_lead(
    answers: AnswersModel,
    from: Place,
    tree: ImportTreeModel,
    k: int,
)
    requires
        is_first_leaf(answers, leaves(tree), from.wanted, from.path, k),
    ensures
        match resolved_path(answers, leaves(tree)[k].before, from.path) {
            Step::Done(Some(file)) => imported_from(
                answers,
                tree,
                Seq::empty(),
                from.wanted,
                from.path,
            ) == Step::<Option<(PathModel, Seq<char>)>, QuestionModel>::Done(
                Some((file, leaves(tree)[k].name)),
            ),
            Step::Ask(question) => imported_from(
                answers,
                tree,
                Seq::empty(),
                from.wanted,
                from.path,
            ) == Step::<Option<(PathModel, Seq<char>)>, QuestionModel>::Ask(question),
            Step::Done(None) => true,
        },
{
    let none = Seq::<Seq<char>>::empty();
    assert forall|j: int|
        0 <= j < k && (#[trigger] leaves(tree)[j]).visible == from.wanted implies resolved_path(
        answers,
        none + leaves(tree)[j].before,
        from.path,
    ) == Step::<Option<PathModel>, QuestionModel>::Done(None) by {
        assert(none + leaves(tree)[j].before =~= leaves(tree)[j].before);
    }
    assert(none + leaves(tree)[k].before =~= leaves(tree)[k].before);
    law_import_points_to_the_module_in_front(answers, tree, none, from.wanted, from.path, k);
}

/// Where an import points somewhere, there is a leaf that it does so by.
proof fn lemma_import_leaf(
    answers: AnswersModel,
    leaves: Seq<Leaf>,
    wanted: Seq<char>,
    current: PathModel,
    from: int,
) -> (k: int)
    requires
        0 <= from <= leaves.len(),
        forall|j: int|
            0 <= j < from && (#[trigger] leaves[j]).visible == wanted ==> resolved_path(
                answers,
                leaves[j].before,
                current,
            ) == Step::<Option<PathModel>, QuestionModel>::Done(None),
    ensures
        (is_first_leaf(answers, leaves, wanted, current, k) && resolved_path(
            answers,
            leaves[k].before,
            current,
        ) != Step::<Option<PathModel>, QuestionModel>::Done(None)) || forall|j: int|
            0 <= j < leaves.len() && (#[trigger] leaves[j]).visible == wanted ==> resolved_path(
                answers,
                leaves[j].before,
                current,
            ) == Step::<Option<PathModel>, QuestionModel>::Done(None),
    decreases leaves.len() - from,
{
    if from == leaves.len() {
        0
    } else if leaves[from].visible == wanted && resolved_path(
        answers,
        leaves[from].before,
        current,
    ) != Step::<Option<PathModel>, QuestionModel>::Done(None) {
        from
    } else {
        lemma_import_leaf(answers, leaves, wanted, current, from + 1)
    }
}

/// An item leads to a place if and only if one of the leads of the search does.
proof fn lemma_leads_are_leads(answers: AnswersModel, from: Place, to: Place)
    ensures
        leads_to(answers, from, to) <==> exists|n: int|
            0 <= n < from.lead_count() && #[trigger] from.lead(answers, n) == (Lead::Elsewhere {
                place: to,
            }),
{
    let len = from.items.len();
    if exists|i: int| alias_leads(from, to, i) {
        let i = choose|i: int| alias_leads(from, to, i);
        let segments = from.items[i]->target->segments;
        assert(segments.last() == segments[segments.len() - 1]);
        assert(from.lead(answers, i) == (Lead::Elsewhere { place: to }));
    }
    if exists|i: int| module_leads(from, to, i) {
        let i = choose|i: int| module_leads(from, to, i);
        assert(from.lead(answers, len + i) == (Lead::Elsewhere { place: to }));
    }
    if exists|i: int, k: int| import_leads(answers, from, to, i, k) {
        let (i, k) = choose|i: int, k: int| import_leads(answers, from, to, i, k);
        lemma_import_lead(answers, from, from.items[i]->Import_tree, k);
        assert(to.mod_path =~= Seq::empty());
        assert(from.lead(answers, 2 * len + i) == (Lead::Elsewhere { place: to }));
    }
    if exists|n: int|
        0 <= n < from.lead_count() && #[trigger] from.lead(answers, n) == (Lead::Elsewhere {
            place: to,
        }) {
        let n = choose|n: int|
            0 <= n < from.lead_count() && #[trigger] from.lead(answers, n) == (Lead::Elsewhere {
                place: to,
            });
        if n < len {
            let segments = from.items[n]->target->segments;
            assert(segments.last() == segments[segments.len() - 1]);
            assert(alias_leads(from, to, n));
        } else if n < 2 * len {
            assert(module_leads(from, to, n - len));
        } else {
            let i = n - 2 * len;
            let tree = from.items[i]->Import_tree;
            let none = Seq::<Seq<char>>::empty();
            let k = lemma_import_leaf(answers, leaves(tree), from.wanted, from.path, 0);
            if is_first_leaf(answers, leaves(tree), from.wanted, from.path, k) && resolved_path(
                answers,
                leaves(tree)[k].before,
                from.path,
            ) != Step::<Option<PathModel>, QuestionModel>::Done(None) {
                lemma_import_lead(answers, from, tree, k);
                assert(import_leads(answers, from, to, i, k));
            } else {
                assert forall|j: int|
                    0 <= j < leaves(tree).len() && (#[trigger] leaves(tree)[j]).visible
                        == from.wanted implies resolved_path(
                    answers,
                    none + leaves(tree)[j].before,
                    from.path,
                ) == Step::<Option<PathModel>, QuestionModel>::Done(None) by {
                    assert(none + leaves(tree)[j].before =~= leaves(tree)[j].before);
                }
                law_import_points_nowhere_else(answers, tree, none, from.wanted, from.path);
            }
        }
    }
}

proof fn lemma_hops_are_hops(answers: AnswersModel, from: Place, to: Place, hops: nat)
    ensures
        leads_in(answers, from, to, hops) <==> reaches(answers, from, to, hops),
    decreases hops,
{
    if hops > 0 {
        let less = (hops - 1) as nat;
        if leads_in(answers, from, to, hops) {
            let next = choose|next: Place| #[trigger]
                leads_to(answers, from, next) && leads_in(answers, next, to, less);
            lemma_leads_are_leads(answers, from, next);
            lemma_hops_are_hops(answers, next, to, less);
            let n = choose|n: int|
                0 <= n < from.lead_count() && #[trigger] from.lead(answers, n)
                    == (Lead::Elsewhere { place: next });
            assert(from.lead(answers, n) matches Lead::Elsewhere { place: p } && reaches(
                answers,
                p,
                to,
                less,
            ));
        }
        if reaches(answers, from, to, hops) {
            let n = choose|n: int|
                0 <= n < from.lead_count() && (#[trigger] from.lead(
                    answers,
                    n,
                ) matches Lead::Elsewhere { place: p } && reaches(answers, p, to, less));
            let next = from.lead(answers, n)->Elsewhere_place;
            assert(from.lead(answers, n) == (Lead::Elsewhere { place: next }));
            lemma_leads_are_leads(answers, from, next);
            lemma_hops_are_hops(answers, next, to, less);
            assert(leads_to(answers, from, next) && leads_in(answers, next, to, less));
        }
    }
}

proof fn lemma_held_is_defined(answers: AnswersModel, place: Place, item: SourceItemModel)
    ensures
        holds(place, item) <==> exists|n: int| defines(answers, place, n, item),
{
    if holds(place, item) {
        let i = choose|i: int| 0 <= i < place.items.len() && #[trigger] place.items[i] == item;
        assert(defines(answers, place, i, item));
    }
    if exists|n: int| defines(answers, place, n, item) {
        let n = choose|n: int| defines(answers, place, n, item);
        assert(n < place.items.len());
        assert(place.items[n] == item);
    }
}

/// Whether no place but `to` that items lead to from `start` has the key of `to`.
pub open spec fn has_own_key(answers: AnswersModel, start: Place, to: Place) -> bool {
    forall|other: Place, hops: nat| #[trigger]
        leads_in(answers, start, other, hops) && other.key() == to.key() ==> other == to
}

/// Whether no two places that items lead to from `start` have the same key.
pub open spec fn all_have_own_keys(answers: AnswersModel, start: Place) -> bool {
    forall|to: Place, hops: nat| #[trigger]
        leads_in(answers, start, to, hops) ==> has_own_key(answers, start, to)
}

/// What one item leads to is not missed: where an alias, an inline module or a `use`
/// declaration among the items of a place, be that the root of a file or any of its
/// inline modules, leads to a place that holds the definition that is wanted there, a
/// search from the place does not come back empty-handed.
pub proof fn law_search_goes_where_an_item_leads(
    answers: AnswersModel,
    place: Place,
    to: Place,
    item: SourceItemModel,
)
    requires
        leads_to(answers, place, to),
        holds(to, item),
        has_own_key(answers, place, to),
    ensures
        !search(answers, place, Set::empty()).is_empty_handed(),
{
    if search(answers, place, Set::empty()).is_empty_handed() {
        let visited = search(answers, place, Set::empty()).visited;
        let searched = crate::laws::lemma_search_exhausts(answers, place, Set::empty());
        lemma_leads_are_leads(answers, place, to);
        let n = choose|n: int|
            0 <= n < place.lead_count() && #[trigger] place.lead(answers, n) == (Lead::Elsewhere {
                place: to,
            });
        assert(is_dead_end(answers, place, visited));
        assert(is_spent(place.lead(answers, n), visited));
        let twin = choose|p: Place| searched.contains(p) && #[trigger] p.key() == to.key();
        let hops = choose|hops: nat| reaches(answers, place, twin, hops);
        lemma_hops_are_hops(answers, place, twin, hops);
        assert(leads_in(answers, place, twin, hops));
        assert(twin == to);
        lemma_held_is_defined(answers, to, item);
        let m = choose|m: int| defines(answers, to, m, item);
        assert(is_dead_end(answers, to, visited));
        assert(is_spent(to.lead(answers, m), visited));
    }
}

/// A `use` declaration is followed wherever it stands: where one of the items of a
/// place, at the root of a file or in an inline module at any depth, brings the wanted
/// name into scope from a file that is known and readable, and that file has a struct
/// or an enum of the name at its root, the search does not come back empty-handed.
pub proof fn law_imports_are_followed_in_every_module(
    answers: AnswersModel,
    place: Place,
    i: int,
    k: int,
    file: PathModel,
    inner: Seq<SourceItemModel>,
    d: int,
)
    requires
        0 <= i < place.items.len(),
        place.items[i] is Import,
        ({
            let all = leaves(place.items[i]->Import_tree);
            &&& is_first_leaf(answers, all, place.wanted, place.path, k)
            &&& resolved_path(answers, all[k].before, place.path) == Step::<
                Option<PathModel>,
                QuestionModel,
            >::Done(Some(file))
            &&& answers.source(file) == Step::<
                Option<Seq<SourceItemModel>>,
                QuestionModel,
            >::Done(Some(inner))
            &&& 0 <= d < inner.len()
            &&& match inner[d] {
                SourceItemModel::Struct { name, fields } => name == all[k].name,
                SourceItemModel::Enum { name, variants } => name == all[k].name,
                _ => false,
            }
            &&& has_own_key(
                answers,
                place,
                Place { items: inner, path: file, mod_path: Seq::empty(), wanted: all[k].name },
            )
        }),
    ensures
        !search(answers, place, Set::empty()).is_empty_handed(),
{
    let name = leaves(place.items[i]->Import_tree)[k].name;
    let to = Place { items: inner, path: file, mod_path: Seq::empty(), wanted: name };
    assert(import_leads(answers, place, to, i, k));
    assert(to.items[d] == inner[d]);
    assert(holds(to, inner[d]));
    law_search_goes_where_an_item_leads(answers, place, to, inner[d]);
}

proof fn lemma_own_keys(answers: AnswersModel, start: Place)
    requires
        all_have_own_keys(answers, start),
    ensures
        keys_tell_apart(answers, start),
{
    assert forall|a: Place, b: Place, i: nat, j: nat| #[trigger]
        reaches(answers, start, a, i) && #[trigger] reaches(answers, start, b, j) && a.key()
            == b.key() implies a == b by {
        lemma_hops_are_hops(answers, start, a, i);
        lemma_hops_are_hops(answers, start, b, j);
        assert(leads_in(answers, start, b, j));
        assert(has_own_key(answers, start, b));
        assert(leads_in(answers, start, a, i));
    }
}

/// What any number of items lead to, one after the other, is not missed either, where
/// the places on the way have keys of their own.
pub proof fn law_search_goes_all_the_way(
    answers: AnswersModel,
    start: Place,
    to: Place,
    hops: nat,
    item: SourceItemModel,
)
    requires
        leads_in(answers, start, to, hops),
        holds(to, item),
        all_have_own_keys(answers, start),
    ensures
        !search(answers, start, Set::empty()).is_empty_handed(),
{
    lemma_own_keys(answers, start);
    lemma_hops_are_hops(answers, start, to, hops);
    lemma_held_is_defined(answers, to, item);
    if search(answers, start, Set::empty()).is_empty_handed() {
        let n = choose|n: int| defines(answers, to, n, item);
        crate::laws::law_search_misses_nothing(answers, start, to, hops, n, item);
    }
}

/// What a search finds is held by a place that items lead to from where it starts.
pub proof fn law_what_is_found_is_held(
    answers: AnswersModel,
    place: Place,
    visited: Set<Seq<char>>,
)
    ensures
        search(answers, place, visited).step matches Step::Done(Some(item)) ==> exists|
            to: Place,
            hops: nat,
        |
            #[trigger] leads_in(answers, place, to, hops) && #[trigger] holds(to, item),
{
    crate::laws::law_what_is_found_is_reachable(answers, place, visited);
    if let Step::Done(Some(item)) = search(answers, place, visited).step {
        let (to, hops, n) = choose|to: Place, hops: nat, n: int|
            #[trigger] defines(answers, to, n, item) && #[trigger] reaches(
                answers,
                place,
                to,
                hops,
            );
        lemma_hops_are_hops(answers, place, to, hops);
        lemma_held_is_defined(answers, to, item);
        assert(leads_in(answers, place, to, hops) && holds(to, item));
    }
}

/// A definition among the items of a place is what a search there finds, before it
/// goes anywhere else, unless an alias of the name stands before it.
pub proof fn law_definition_at_the_place_comes_first(
    answers: AnswersModel,
    place: Place,
    visited: Set<Seq<char>>,
    i: int,
)
    requires
        !visited.contains(place.key()),
        defined_at(place.items, place.wanted, i),
    ensures
        search(answers, place, visited).step == Step::<
            Option<SourceItemModel>,
            QuestionModel,
        >::Done(Some(place.items[i])),
{
    crate::laws::lemma_follow_to_definition(
        answers,
        place,
        visited.insert(place.key()),
        0,
        i as nat,
    );
}

/// A place that has been searched is not searched again: nothing is found there, and
/// nothing is visited.
pub proof fn law_visited_places_are_left_alone(
    answers: AnswersModel,
    place: Place,
    visited: Set<Seq<char>>,
)
    requires
        visited.contains(place.key()),
    ensures
        search(answers, place, visited).is_empty_handed(),
        search(answers, place, visited).visited == visited,
        search_trail(answers, place, visited).len() == 0,
{
}

/// Whether none of the first `n` items is a struct, an enum or an alias called `wanted`.
pub open spec fn unnamed_before(items: Seq<SourceItemModel>, wanted: Seq<char>, n: int) -> bool {
    forall|j: int|
        0 <= j < n && j < items.len() ==> match #[trigger] items[j] {
            SourceItemModel::Struct { name, fields } => name != wanted,
            SourceItemModel::Enum { name, variants } => name != wanted,
            SourceItemModel::Alias { name, target } => name != wanted,
            _ => true,
        }
}

proof fn lemma_follow_skips_nothing(
    answers: AnswersModel,
    place: Place,
    visited: Set<Seq<char>>,
    from: nat,
    n: nat,
)
    requires
        from <= n <= place.lead_count(),
        forall|j: int| from <= j < n ==> #[trigger] place.lead(answers, j) is Nothing,
    ensures
        follow(answers, place, visited, from) == follow(answers, place, visited, n),
    decreases n - from,
{
    if from < n {
        assert(place.lead(answers, from as int) is Nothing);
        lemma_follow_skips_nothing(answers, place, visited, from + 1, n);
    }
}

/// Keys of one module for different names are different.
pub proof fn law_keys_tell_names_apart(
    path: PathModel,
    mod_path: Seq<char>,
    a: Seq<char>,
    b: Seq<char>,
)
    ensures
        search_key(path, mod_path, a) == search_key(path, mod_path, b) <==> a == b,
{
    let front = path.display() + "::"@ + mod_path + "::"@;
    let x = search_key(path, mod_path, a);
    let y = search_key(path, mod_path, b);
    assert(x.skip(front.len() as int) =~= a);
    assert(y.skip(front.len() as int) =~= b);
}

/// Whether a text has no `:`.
pub open spec fn is_colonless(text: Seq<char>) -> bool {
    forall|i: int| 0 <= i < text.len() ==> #[trigger] text[i] != ':'
}

/// Keys tell files, modules and names apart: they are the same only for the same text
/// of a path, the same module and the same name, whatever the items are.
pub proof fn law_keys_tell_places_apart(a: Place, b: Place)
    requires
        is_colonless(a.path.display()),
        is_colonless(b.path.display()),
        is_colonless(a.wanted),
        is_colonless(b.wanted),
    ensures
        a.key() == b.key() <==> a.path.display() == b.path.display() && a.mod_path == b.mod_path
            && a.wanted == b.wanted,
{
    if a.key() == b.key() {
        reveal_strlit("::");
        let key = a.key();
        let (d, e) = (a.path.display(), b.path.display());
        assert(key[d.len() as int] == ':');
        assert(key[e.len() as int] == ':');
        assert(key.take(d.len() as int) =~= d);
        assert(key.take(e.len() as int) =~= e);
        if d.len() < e.len() {
            assert(e[d.len() as int] == key[d.len() as int]);
        }
        if e.len() < d.len() {
            assert(d[e.len() as int] == key[e.len() as int]);
        }
        let (w, v) = (a.wanted, b.wanted);
        assert(key[key.len() - w.len() - 1] == ':');
        assert(key[key.len() - v.len() - 1] == ':');
        assert(key.skip(key.len() - w.len()) =~= w);
        assert(key.skip(key.len() - v.len()) =~= v);
        if w.len() < v.len() {
            assert(v[v.len() - w.len() - 1] == key[key.len() - w.len() - 1]);
        }
        if v.len() < w.len() {
            assert(w[w.len() - v.len() - 1] == key[key.len() - v.len() - 1]);
        }
        assert(d == e && w == v);
        assert(key.subrange(d.len() as int + 2, key.len() - w.len() - 2) =~= a.mod_path);
        assert(key.subrange(d.len() as int + 2, key.len() - w.len() - 2) =~= b.mod_path);
    }
}

/// An alias stands for the type that the last segment of its target names: where the
/// first item of the wanted name is an alias, a search comes to what a search for the
/// last segment among the same items comes to, where that is not nothing.
pub proof fn law_alias_stands_for_its_target(
    answers: AnswersModel,
    place: Place,
    visited: Set<Seq<char>>,
    i: int,
    segments: Seq<Seq<char>>,
)
    requires
        !visited.contains(place.key()),
        0 <= i < place.items.len(),
        unnamed_before(place.items, place.wanted, i),
        place.items[i] == (SourceItemModel::Alias {
            name: place.wanted,
            target: AliasTargetModel::Path { segments },
        }),
        segments.len() > 0,
        segments[segments.len() - 1] != place.wanted,
    ensures
        ({
            let there = search(
                answers,
                Place { wanted: segments[segments.len() - 1], ..place },
                visited.insert(place.key()),
            );
            !there.is_empty_handed() ==> search(answers, place, visited) == there
        }),
{
    assert(segments.last() == segments[segments.len() - 1]);
    assert forall|j: int| 0 <= j < i implies #[trigger] place.lead(answers, j) is Nothing by {
        assert(place.lead(answers, j) == place.lead_by_name(place.items[j]));
    }
    lemma_follow_skips_nothing(answers, place, visited.insert(place.key()), 0, i as nat);
    assert(place.lead(answers, i) == place.lead_by_name(place.items[i]));
}

/// An alias for a path of any length leads to the definition of its last segment among
/// the same items, where nothing of that name stands before the definition.
pub proof fn law_alias_leads_to_the_definition_beside_it(
    answers: AnswersModel,
    place: Place,
    i: int,
    segments: Seq<Seq<char>>,
    d: int,
)
    requires
        0 <= i < place.items.len(),
        unnamed_before(place.items, place.wanted, i),
        place.items[i] == (SourceItemModel::Alias {
            name: place.wanted,
            target: AliasTargetModel::Path { segments },
        }),
        segments.len() > 0,
        segments[segments.len() - 1] != place.wanted,
        defined_at(place.items, segments[segments.len() - 1], d),
    ensures
        search(answers, place, Set::empty()).step == Step::<
            Option<SourceItemModel>,
            QuestionModel,
        >::Done(Some(place.items[d])),
{
    let visited = Set::<Seq<char>>::empty().insert(place.key());
    let last = segments[segments.len() - 1];
    let there = Place { wanted: last, ..place };
    law_keys_tell_names_apart(place.path, place.mod_path, place.wanted, last);
    law_definition_at_the_place_comes_first(answers, there, visited, d);
    law_alias_stands_for_its_target(answers, place, Set::empty(), i, segments);
}

/// Whether `items` say nothing of `wanted`, and neither do the inline modules among
/// them: none of them is a struct, an enum or an alias of that name, and no import
/// brings it into scope.
pub open spec fn is_silent(items: Seq<SourceItemModel>, wanted: Seq<char>) -> bool
    decreases items,
{
    items.len() > 0 ==> is_silent(items.drop_last(), wanted) && is_silent_item(
        items.last(),
        wanted,
    )
}

/// Whether `item` says nothing of `wanted`.
pub open spec fn is_silent_item(item: SourceItemModel, wanted: Seq<char>) -> bool
    decreases item,
{
    match item {
        SourceItemModel::Struct { name, fields } => name != wanted,
        SourceItemModel::Enum { name, variants } => name != wanted,
        SourceItemModel::Alias { name, target } => name != wanted,
        SourceItemModel::Module { name, body: Some(inner) } => is_silent(inner, wanted),
        SourceItemModel::Import { tree } => !is_visible(leaves(tree), wanted),
        _ => true,
    }
}

proof fn lemma_silent_at(items: Seq<SourceItemModel>, wanted: Seq<char>, i: int)
    requires
        is_silent(items, wanted),
        0 <= i < items.len(),
    ensures
        is_silent_item(items[i], wanted),
    decreases items.len(),
{
    if i < items.len() - 1 {
        assert(items.drop_last()[i] == items[i]);
        lemma_silent_at(items.drop_last(), wanted, i);
    }
}

proof fn lemma_silent_import(answers: AnswersModel, place: Place, tree: ImportTreeModel)
    requires
        !is_visible(leaves(tree), place.wanted),
    ensures
        place.lead_as_import(answers, SourceItemModel::Import { tree }) is Nothing,
{
    law_imports_bring_in_their_leaves(tree, place.wanted);
    crate::laws::lemma_unrelated_import(answers, tree, Seq::empty(), place.wanted, place.path);
}

proof fn lemma_silent_lead(answers: AnswersModel, place: Place, n: int)
    requires
        is_silent(place.items, place.wanted),
        0 <= n < place.lead_count(),
    ensures
        place.lead(answers, n) is Nothing || (place.lead(answers, n) matches Lead::Elsewhere {
            place: next,
        } && is_silent(next.items, next.wanted)),
{
    let len = place.items.len();
    let i = if n < len {
        n
    } else if n < 2 * len {
        n - len
    } else {
        n - 2 * len
    };
    lemma_silent_at(place.items, place.wanted, i);
    if n >= 2 * len {
        if let SourceItemModel::Import { tree } = place.items[i] {
            lemma_silent_import(answers, place, tree);
        }
    }
}

/// A place that says nothing of a name gives nothing for it, and asks nothing.
pub proof fn law_silent_places_give_nothing(
    answers: AnswersModel,
    place: Place,
    visited: Set<Seq<char>>,
)
    requires
        is_silent(place.items, place.wanted),
    ensures
        search(answers, place, visited).is_empty_handed(),
    decreases unvisited(places(answers, place), visited), 0nat, 0nat,
{
    if !visited.contains(place.key()) {
        lemma_visiting(answers, place, visited);
        lemma_silent_follow(answers, place, visited.insert(place.key()), 0);
    }
}

proof fn lemma_silent_follow(
    answers: AnswersModel,
    place: Place,
    visited: Set<Seq<char>>,
    n: nat,
)
    requires
        is_silent(place.items, place.wanted),
    ensures
        follow(answers, place, visited, n).is_empty_handed(),
    decreases unvisited(places(answers, place), visited), 1nat, place.lead_count() - n,
{
    lemma_visiting(answers, place, visited);
    if n < place.lead_count() {
        lemma_silent_lead(answers, place, n as int);
        match place.lead(answers, n as int) {
            Lead::Elsewhere { place: next } => {
                lemma_visiting_elsewhere(answers, place, visited, n as int);
                law_silent_places_give_nothing(answers, next, visited);
                lemma_silent_follow(
                    answers,
                    place,
                    visited.union(search(answers, next, visited).visited),
                    n + 1,
                );
            },
            _ => {
                lemma_silent_follow(answers, place, visited, n + 1);
            },
        }
    }
}

/// Whether each key of `visited` is that of a place which items lead to from `start`,
/// and which holds nothing that is wanted there.
spec fn all_in_vain(answers: AnswersModel, start: Place, visited: Set<Seq<char>>) -> bool {
    forall|key: Seq<char>| #[trigger]
        visited.contains(key) ==> exists|p: Place, hops: nat| #[trigger]
            leads_in(answers, start, p, hops) && p.key() == key && (forall|item: SourceItemModel|
                !#[trigger] holds(p, item))
}

proof fn lemma_dead_end_holds_nothing(
    answers: AnswersModel,
    place: Place,
    visited: Set<Seq<char>>,
)
    requires
        is_dead_end(answers, place, visited),
    ensures
        forall|item: SourceItemModel| !#[trigger] holds(place, item),
{
    assert forall|item: SourceItemModel| !#[trigger] holds(place, item) by {
        if holds(place, item) {
            lemma_held_is_defined(answers, place, item);
            let n = choose|n: int| defines(answers, place, n, item);
            assert(is_spent(place.lead(answers, n), visited));
        }
    }
}

/// Following leads that come to nothing, up to the first that does not.
proof fn lemma_follow_in_vain(
    answers: AnswersModel,
    start: Place,
    visited: Set<Seq<char>>,
    m: nat,
    n: nat,
    to: Place,
    d: int,
)
    requires
        m <= n < start.lead_count(),
        all_in_vain(answers, start, visited),
        forall|j: int|
            m <= j < n ==> (#[trigger] start.lead(answers, j) is Nothing || (start.lead(
                answers,
                j,
            ) matches Lead::Elsewhere { place: p } && is_silent(p.items, p.wanted))),
        start.lead(answers, n as int) == (Lead::Elsewhere { place: to }),
        has_own_key(answers, start, to),
        defined_at(to.items, to.wanted, d),
    ensures
        follow(answers, start, visited, m).step == Step::<
            Option<SourceItemModel>,
            QuestionModel,
        >::Done(Some(to.items[d])),
    decreases n - m,
{
    if m == n {
        if visited.contains(to.key()) {
            let (p, hops) = choose|p: Place, hops: nat| #[trigger]
                leads_in(answers, start, p, hops) && p.key() == to.key() && (forall|
                    item: SourceItemModel,
                |
                    !#[trigger] holds(p, item));
            assert(p == to);
            assert(to.items[d] == to.items[d]);
            assert(holds(to, to.items[d]));
        }
        law_definition_at_the_place_comes_first(answers, to, visited, d);
    } else {
        assert(start.lead(answers, m as int) is Nothing || (start.lead(
            answers,
            m as int,
        ) matches Lead::Elsewhere { place: p } && is_silent(p.items, p.wanted)));
        match start.lead(answers, m as int) {
            Lead::Elsewhere { place: p } => {
                law_silent_places_give_nothing(answers, p, visited);
                law_search_keeps_visited(answers, p, visited);
                let searched = crate::laws::lemma_search_exhausts(answers, p, visited);
                let after = search(answers, p, visited).visited;
                let both = visited.union(after);
                assert forall|key: Seq<char>| #[trigger] both.contains(key) implies exists|
                    q: Place,
                    hops: nat,
                | #[trigger]
                    leads_in(answers, start, q, hops) && q.key() == key && (forall|
                        item: SourceItemModel,
                    |
                        !#[trigger] holds(q, item)) by {
                    if !visited.contains(key) {
                        assert(after.contains(key));
                        let q = choose|q: Place| searched.contains(q) && #[trigger] q.key() == key;
                        let hops = choose|hops: nat| reaches(answers, p, q, hops);
                        crate::laws::lemma_first_hop(answers, start, m as int, p, q, hops);
                        lemma_hops_are_hops(answers, start, q, hops + 1);
                        lemma_dead_end_holds_nothing(answers, q, after);
                        assert(leads_in(answers, start, q, hops + 1));
                    }
                }
                lemma_follow_in_vain(answers, start, both, m + 1, n, to, d);
            },
            _ => {
                lemma_follow_in_vain(answers, start, visited, m + 1, n, to, d);
            },
        }
    }
}

proof fn lemma_start_in_vain(answers: AnswersModel, start: Place)
    requires
        unnamed_before(start.items, start.wanted, start.items.len() as int),
    ensures
        all_in_vain(answers, start, Set::<Seq<char>>::empty().insert(start.key())),
{
    assert forall|item: SourceItemModel| !#[trigger] holds(start, item) by {
        if holds(start, item) {
            let i = choose|i: int| 0 <= i < start.items.len() && #[trigger] start.items[i] == item;
            assert(start.items[i] == item);
        }
    }
    assert(leads_in(answers, start, start, 0));
}

/// Where nothing among the items of a place has the wanted name, the first inline
/// module that does not keep silent about it is where the definition is found; before
/// any import is followed.
pub proof fn law_inline_modules_come_next(
    answers: AnswersModel,
    place: Place,
    i: int,
    to: Place,
    d: int,
)
    requires
        unnamed_before(place.items, place.wanted, place.items.len() as int),
        module_leads(place, to, i),
        forall|j: int|
            0 <= j < i ==> (#[trigger] place.items[j] matches SourceItemModel::Module {
                name,
                body: Some(inner),
            } ==> is_silent(inner, place.wanted)),
        defined_at(to.items, to.wanted, d),
        has_own_key(answers, place, to),
    ensures
        search(answers, place, Set::empty()).step == Step::<
            Option<SourceItemModel>,
            QuestionModel,
        >::Done(Some(to.items[d])),
{
    let len = place.items.len();
    let n = (len + i) as nat;
    assert(place.lead(answers, len + i) == (Lead::Elsewhere { place: to }));
    assert forall|j: int| 0 <= j < n implies (#[trigger] place.lead(answers, j) is Nothing || (
    place.lead(answers, j) matches Lead::Elsewhere { place: p } && is_silent(p.items, p.wanted))) by {
        if j < len {
            assert(place.lead(answers, j) == place.lead_by_name(place.items[j]));
        } else {
            assert(place.lead(answers, j) == place.lead_as_module(place.items[j - len]));
        }
    }
    lemma_start_in_vain(answers, place);
    lemma_follow_in_vain(
        answers,
        place,
        Set::<Seq<char>>::empty().insert(place.key()),
        0,
        n,
        to,
        d,
    );
}

/// Where nothing among the items of a place has the wanted name, and its inline
/// modules keep silent about it, the first `use` declaration that brings the name into
/// scope leads to the definition, in the file that it imports it from, by the name that
/// it has there. This is so in every module of a file.
pub proof fn law_imports_come_last(
    answers: AnswersModel,
    place: Place,
    i: int,
    k: int,
    to: Place,
    d: int,
)
    requires
        unnamed_before(place.items, place.wanted, place.items.len() as int),
        forall|j: int|
            0 <= j < place.items.len() ==> (#[trigger] place.items[j] matches SourceItemModel::Module {
                name,
                body: Some(inner),
            } ==> is_silent(inner, place.wanted)),
        forall|j: int|
            0 <= j < i ==> (#[trigger] place.items[j] matches SourceItemModel::Import { tree }
                ==> !is_visible(leaves(tree), place.wanted)),
        import_leads(answers, place, to, i, k),
        defined_at(to.items, to.wanted, d),
        has_own_key(answers, place, to),
    ensures
        search(answers, place, Set::empty()).step == Step::<
            Option<SourceItemModel>,
            QuestionModel,
        >::Done(Some(to.items[d])),
{
    let len = place.items.len();
    let n = (2 * len + i) as nat;
    lemma_import_lead(answers, place, place.items[i]->Import_tree, k);
    assert(to.mod_path =~= Seq::empty());
    assert(place.lead(answers, 2 * len + i) == (Lead::Elsewhere { place: to }));
    assert forall|j: int| 0 <= j < n implies (#[trigger] place.lead(answers, j) is Nothing || (
    place.lead(answers, j) matches Lead::Elsewhere { place: p } && is_silent(p.items, p.wanted))) by {
        if j < len {
            assert(place.lead(answers, j) == place.lead_by_name(place.items[j]));
        } else if j < 2 * len {
            assert(place.lead(answers, j) == place.lead_as_module(place.items[j - len]));
        } else {
            let item = place.items[j - 2 * len];
            if let SourceItemModel::Import { tree } = item {
                lemma_silent_import(answers, place, tree);
            }
        }
    }
    lemma_start_in_vain(answers, place);
    lemma_follow_in_vain(
        answers,
        place,
        Set::<Seq<char>>::empty().insert(place.key()),
        0,
        n,
        to,
        d,
    );
}

/// The places that are visited are those visited before and those on the trail; the
/// trail starts where the search does, and comes by no place twice.
pub proof fn law_trail_is_what_is_visited(
    answers: AnswersModel,
    place: Place,
    visited: Set<Seq<char>>,
)
    ensures
        ({
            let trail = search_trail(answers, place, visited);
            &&& search(answers, place, visited).visited == visited.union(trail.to_set())
            &&& trail.no_duplicates()
            &&& forall|i: int| 0 <= i < trail.len() ==> !visited.contains(#[trigger] trail[i])
            &&& !visited.contains(place.key()) ==> trail.len() > 0 && trail[0] == place.key()
        }),
    decreases unvisited(places(answers, place), visited), 0nat, 0nat,
{
    let trail = search_trail(answers, place, visited);
    if visited.contains(place.key()) {
        assert(visited.union(trail.to_set()) =~= visited);
    } else {
        let here = visited.insert(place.key());
        lemma_visiting(answers, place, visited);
        lemma_follow_trail(answers, place, here, 0);
        let rest = follow_trail(answers, place, here, 0);
        lemma_joined_trail(seq![place.key()], rest, visited);
        assert(visited.union(seq![place.key()].to_set()) =~= here) by {
            assert(seq![place.key()][0] == place.key());
        }
    }
}

/// A trail after a trail.
proof fn lemma_joined_trail(a: Seq<Seq<char>>, b: Seq<Seq<char>>, visited: Set<Seq<char>>)
    requires
        a.no_duplicates(),
        b.no_duplicates(),
        forall|i: int| 0 <= i < a.len() ==> !visited.contains(#[trigger] a[i]),
        forall|i: int|
            0 <= i < b.len() ==> !visited.union(a.to_set()).contains(#[trigger] b[i]),
    ensures
        (a + b).no_duplicates(),
        forall|i: int| 0 <= i < (a + b).len() ==> !visited.contains(#[trigger] (a + b)[i]),
        visited.union((a + b).to_set()) == visited.union(a.to_set()).union(b.to_set()),
{
    let all = a + b;
    assert forall|i: int| 0 <= i < all.len() implies !visited.contains(#[trigger] all[i]) by {
        if i < a.len() {
            assert(all[i] == a[i]);
        } else {
            assert(all[i] == b[i - a.len()]);
        }
    }
    assert forall|i: int, j: int|
        0 <= i < all.len() && 0 <= j < all.len() && i != j implies #[trigger] all[i]
        != #[trigger] all[j] by {
        if i < a.len() && j >= a.len() {
            assert(a.to_set().contains(a[i]));
            assert(!visited.union(a.to_set()).contains(b[j - a.len()]));
        } else if j < a.len() && i >= a.len() {
            assert(a.to_set().contains(a[j]));
            assert(!visited.union(a.to_set()).contains(b[i - a.len()]));
        }
    }
    assert forall|key: Seq<char>| #[trigger]
        all.to_set().contains(key) == (a.to_set().contains(key) || b.to_set().contains(key)) by {
        if a.contains(key) {
            assert(all[a.index_of(key)] == key);
        }
        if b.contains(key) {
            assert(all[a.len() + b.index_of(key)] == key);
        }
        if all.contains(key) {
            let i = all.index_of(key);
            if i < a.len() {
                assert(a[i] == key);
            } else {
                assert(b[i - a.len()] == key);
            }
        }
    }
    assert(visited.union(all.to_set()) =~= visited.union(a.to_set()).union(b.to_set()));
}

proof fn lemma_follow_trail(
    answers: AnswersModel,
    place: Place,
    visited: Set<Seq<char>>,
    n: nat,
)
    ensures
        ({
            let trail = follow_trail(answers, place, visited, n);
            &&& follow(answers, place, visited, n).visited == visited.union(trail.to_set())
            &&& trail.no_duplicates()
            &&& forall|i: int| 0 <= i < trail.len() ==> !visited.contains(#[trigger] trail[i])
        }),
    decreases unvisited(places(answers, place), visited), 1nat, place.lead_count() - n,
{
    lemma_visiting(answers, place, visited);
    let trail = follow_trail(answers, place, visited, n);
    if n >= place.lead_count() {
        assert(visited.union(trail.to_set()) =~= visited);
    } else {
        match place.lead(answers, n as int) {
            Lead::Nothing => {
                lemma_follow_trail(answers, place, visited, n + 1);
            },
            Lead::Elsewhere { place: next } => {
                lemma_visiting_elsewhere(answers, place, visited, n as int);
                law_trail_is_what_is_visited(answers, next, visited);
                let elsewhere = search(answers, next, visited);
                if elsewhere.is_empty_handed() {
                    let there = search_trail(answers, next, visited);
                    let both = visited.union(elsewhere.visited);
                    assert(both =~= visited.union(there.to_set()));
                    lemma_follow_trail(answers, place, both, n + 1);
                    lemma_joined_trail(
                        there,
                        follow_trail(answers, place, both, n + 1),
                        visited,
                    );
                }
            },
            _ => {
                assert(visited.union(trail.to_set()) =~= visited);
            },
        }
    }
}

/// Every place that is visited is one that items lead to.
pub proof fn law_only_places_that_items_lead_to_are_visited(
    answers: AnswersModel,
    place: Place,
    visited: Set<Seq<char>>,
    key: Seq<char>,
)
    requires
        search(answers, place, visited).visited.contains(key),
        !visited.contains(key),
    ensures
        exists|to: Place, hops: nat| #[trigger]
            leads_in(answers, place, to, hops) && to.key() == key,
    decreases unvisited(places(answers, place), visited), 0nat, 0nat,
{
    let here = visited.insert(place.key());
    if key == place.key() {
        assert(leads_in(answers, place, place, 0));
    } else {
        lemma_visiting(answers, place, visited);
        lemma_only_led_to(answers, place, here, 0, key);
    }
}

proof fn lemma_only_led_to(
    answers: AnswersModel,
    place: Place,
    visited: Set<Seq<char>>,
    n: nat,
    key: Seq<char>,
)
    requires
        follow(answers, place, visited, n).visited.contains(key),
        !visited.contains(key),
    ensures
        exists|to: Place, hops: nat| #[trigger]
            leads_in(answers, place, to, hops) && to.key() == key,
    decreases unvisited(places(answers, place), visited), 1nat, place.lead_count() - n,
{
    lemma_visiting(answers, place, visited);
    if n < place.lead_count() {
        match place.lead(answers, n as int) {
            Lead::Nothing => {
                lemma_only_led_to(answers, place, visited, n + 1, key);
            },
            Lead::Elsewhere { place: next } => {
                lemma_visiting_elsewhere(answers, place, visited, n as int);
                let elsewhere = search(answers, next, visited);
                if elsewhere.visited.contains(key) {
                    law_only_places_that_items_lead_to_are_visited(answers, next, visited, key);
                    let (to, hops) = choose|to: Place, hops: nat| #[trigger]
                        leads_in(answers, next, to, hops) && to.key() == key;
                    lemma_hops_are_hops(answers, next, to, hops);
                    crate::laws::lemma_first_hop(answers, place, n as int, next, to, hops);
                    lemma_hops_are_hops(answers, place, to, hops + 1);
                    assert(leads_in(answers, place, to, hops + 1));
                } else {
                    lemma_only_led_to(
                        answers,
                        place,
                        visited.union(elsewhere.visited),
                        n + 1,
                        key,
                    );
                }
            },
            _ => {},
        }
    }
}

/// A search in the scope of a module finds a definition among the items first.
pub proof fn law_definition_in_scope_comes_first(
    answers: AnswersModel,
    place: Place,
    visited: Set<Seq<char>>,
    i: int,
)
    requires
        defined_at(place.items, place.wanted, i),
    ensures
        search_scope(answers, place, visited, 0) == Step::<
            Option<SourceItemModel>,
            QuestionModel,
        >::Done(Some(place.items[i])),
{
    crate::laws::lemma_scope_to_definition(answers, place, visited, 0, i as nat);
}

proof fn lemma_scope_skips_nothing(
    answers: AnswersModel,
    place: Place,
    visited: Set<Seq<char>>,
    from: nat,
    n: nat,
)
    requires
        from <= n <= 2 * place.items.len(),
        forall|j: int| from <= j < n ==> #[trigger] place.scope_lead(answers, j) is Nothing,
    ensures
        search_scope(answers, place, visited, from) == search_scope(answers, place, visited, n),
    decreases n - from,
{
    if from < n {
        assert(place.scope_lead(answers, from as int) is Nothing);
        lemma_scope_skips_nothing(answers, place, visited, from + 1, n);
    }
}

/// An alias in the scope of a module leads to the definition of its last segment among
/// the same items.
pub proof fn law_alias_in_scope_leads_to_the_definition_beside_it(
    answers: AnswersModel,
    place: Place,
    i: int,
    segments: Seq<Seq<char>>,
    d: int,
)
    requires
        0 <= i < place.items.len(),
        unnamed_before(place.items, place.wanted, i),
        place.items[i] == (SourceItemModel::Alias {
            name: place.wanted,
            target: AliasTargetModel::Path { segments },
        }),
        segments.len() > 0,
        segments[segments.len() - 1] != place.wanted,
        defined_at(place.items, segments[segments.len() - 1], d),
    ensures
        search_scope(answers, place, set![place.key()], 0) == Step::<
            Option<SourceItemModel>,
            QuestionModel,
        >::Done(Some(place.items[d])),
{
    let last = segments[segments.len() - 1];
    let visited = set![place.key()];
    assert(segments.last() == last);
    assert forall|j: int| 0 <= j < i implies #[trigger] place.scope_lead(answers, j) is Nothing by {
        assert(place.scope_lead(answers, j) == place.lead_by_name(place.items[j]));
    }
    lemma_scope_skips_nothing(answers, place, visited, 0, i as nat);
    law_keys_tell_names_apart(place.path, place.mod_path, place.wanted, last);
    law_definition_at_the_place_comes_first(
        answers,
        Place { wanted: last, ..place },
        visited,
        d,
    );
    assert(place.scope_lead(answers, i) == place.lead_by_name(place.items[i]));
}

/// Whether `item` is a `use` declaration that goes by a `crate` path and brings
/// `wanted` into scope.
pub open spec fn imports_by_crate(item: SourceItemModel, wanted: Seq<char>) -> bool {
    &&& item matches SourceItemModel::Import { tree }
    &&& tree matches ImportTreeModel::Path { name, tree: inner }
    &&& name == "crate"@
    &&& is_visible(leaves(tree), wanted)
}

/// Where nothing in the scope of a module has the wanted name but a `use` declaration
/// by a `crate` path, that leads to the definition in the file that it imports it from.
pub proof fn law_crate_imports_in_scope_are_followed(
    answers: AnswersModel,
    place: Place,
    i: int,
    k: int,
    to: Place,
    d: int,
)
    requires
        unnamed_before(place.items, place.wanted, place.items.len() as int),
        forall|j: int| 0 <= j < i ==> !imports_by_crate(#[trigger] place.items[j], place.wanted),
        imports_by_crate(place.items[i], place.wanted),
        import_leads(answers, place, to, i, k),
        to.key() != place.key(),
        defined_at(to.items, to.wanted, d),
    ensures
        search_scope(answers, place, set![place.key()], 0) == Step::<
            Option<SourceItemModel>,
            QuestionModel,
        >::Done(Some(to.items[d])),
{
    let len = place.items.len();
    let visited = set![place.key()];
    lemma_import_lead(answers, place, place.items[i]->Import_tree, k);
    assert(to.mod_path =~= Seq::empty());
    assert forall|j: int| 0 <= j < len + i implies #[trigger] place.scope_lead(
        answers,
        j,
    ) is Nothing by {
        lemma_scope_lead_nothing(answers, place, j);
    }
    lemma_scope_skips_nothing(answers, place, visited, 0, (len + i) as nat);
    assert(place.scope_lead(answers, len + i) == place.lead_as_crate_import(
        answers,
        place.items[i],
    ));
    law_definition_at_the_place_comes_first(answers, to, visited, d);
}

proof fn lemma_scope_lead_nothing(answers: AnswersModel, place: Place, n: int)
    requires
        0 <= n < 2 * place.items.len(),
        unnamed_before(place.items, place.wanted, place.items.len() as int),
        n >= place.items.len() ==> !imports_by_crate(
            place.items[n - place.items.len()],
            place.wanted,
        ),
    ensures
        place.scope_lead(answers, n) is Nothing,
{
    let len = place.items.len();
    if n < len {
        assert(place.scope_lead(answers, n) == place.lead_by_name(place.items[n]));
    } else {
        let item = place.items[n - len];
        assert(place.scope_lead(answers, n) == place.lead_as_crate_import(answers, item));
        if let SourceItemModel::Import { tree } = item {
            if let ImportTreeModel::Path { name, tree: inner } = tree {
                if name == "crate"@ {
                    lemma_silent_import(answers, place, tree);
                }
            }
        }
    }
}

/// There is nothing else in the scope of a module: modules nested in it are not
/// entered, and other imports are not followed.
pub proof fn law_nothing_else_is_in_scope(
    answers: AnswersModel,
    place: Place,
    visited: Set<Seq<char>>,
)
    requires
        unnamed_before(place.items, place.wanted, place.items.len() as int),
        forall|j: int|
            0 <= j < place.items.len() ==> !imports_by_crate(
                #[trigger] place.items[j],
                place.wanted,
            ),
    ensures
        search_scope(answers, place, visited, 0) == Step::<
            Option<SourceItemModel>,
            QuestionModel,
        >::Done(None),
{
    let n = 2 * place.items.len();
    assert forall|j: int| 0 <= j < n implies #[trigger] place.scope_lead(answers, j) is Nothing by {
        lemma_scope_lead_nothing(answers, place, j);
    }
    lemma_scope_skips_nothing(answers, place, visited, 0, n as nat);
}

proof fn lemma_scope_comes_by_definition(
    answers: AnswersModel,
    place: Place,
    visited: Set<Seq<char>>,
    m: nat,
    n: nat,
)
    requires
        m <= n < 2 * place.items.len(),
        place.scope_lead(answers, n as int) is Definition,
    ensures
        search_scope(answers, place, visited, m) != Step::<
            Option<SourceItemModel>,
            QuestionModel,
        >::Done(None),
    decreases n - m,
{
    if m < n {
        match place.scope_lead(answers, m as int) {
            Lead::Elsewhere { place: p } => {
                lemma_scope_comes_by_definition(
                    answers,
                    place,
                    search(answers, p, visited).visited,
                    m + 1,
                    n,
                );
            },
            _ => {
                lemma_scope_comes_by_definition(answers, place, visited, m + 1, n);
            },
        }
    }
}

proof fn lemma_held_is_found(
    answers: AnswersModel,
    place: Place,
    visited: Set<Seq<char>>,
    item: SourceItemModel,
)
    requires
        holds(place, item),
        !visited.contains(place.key()),
    ensures
        !search(answers, place, visited).is_empty_handed(),
{
    let searched = crate::laws::lemma_search_exhausts(answers, place, visited);
    if search(answers, place, visited).is_empty_handed() {
        let after = search(answers, place, visited).visited;
        assert(searched.contains(place));
        lemma_dead_end_holds_nothing(answers, place, after);
    }
}

proof fn lemma_scope_lead_is_lead(answers: AnswersModel, place: Place, n: int) -> (m: int)
    requires
        0 <= n < 2 * place.items.len(),
    ensures
        place.scope_lead(answers, n) is Elsewhere ==> 0 <= m < place.lead_count() && place.lead(
            answers,
            m,
        ) == place.scope_lead(answers, n),
{
    let len = place.items.len();
    if n < len {
        n
    } else {
        assert(place.lead(answers, n + len) == place.lead_as_import(
            answers,
            place.items[n - len],
        ));
        n + len
    }
}

proof fn lemma_scope_in_vain(
    answers: AnswersModel,
    place: Place,
    visited: Set<Seq<char>>,
    m: nat,
    n: nat,
    to: Place,
    item: SourceItemModel,
)
    requires
        m <= n < 2 * place.items.len(),
        all_in_vain(answers, place, visited),
        place.scope_lead(answers, n as int) == (Lead::Elsewhere { place: to }),
        has_own_key(answers, place, to),
        holds(to, item),
    ensures
        search_scope(answers, place, visited, m) != Step::<
            Option<SourceItemModel>,
            QuestionModel,
        >::Done(None),
    decreases n - m,
{
    if m == n {
        if visited.contains(to.key()) {
            let (p, hops) = choose|p: Place, hops: nat| #[trigger]
                leads_in(answers, place, p, hops) && p.key() == to.key() && (forall|
                    x: SourceItemModel,
                |
                    !#[trigger] holds(p, x));
            assert(p == to);
        }
        lemma_held_is_found(answers, to, visited, item);
    } else {
        match place.scope_lead(answers, m as int) {
            Lead::Nothing => {
                lemma_scope_in_vain(answers, place, visited, m + 1, n, to, item);
            },
            Lead::Elsewhere { place: p } => {
                if search(answers, p, visited).is_empty_handed() {
                    let l = lemma_scope_lead_is_lead(answers, place, m as int);
                    let searched = crate::laws::lemma_search_exhausts(answers, p, visited);
                    let after = search(answers, p, visited).visited;
                    assert forall|key: Seq<char>| #[trigger] after.contains(key) implies exists|
                        q: Place,
                        hops: nat,
                    | #[trigger]
                        leads_in(answers, place, q, hops) && q.key() == key && (forall|
                            x: SourceItemModel,
                        |
                            !#[trigger] holds(q, x)) by {
                        if !visited.contains(key) {
                            let q = choose|q: Place|
                                searched.contains(q) && #[trigger] q.key() == key;
                            let hops = choose|hops: nat| reaches(answers, p, q, hops);
                            crate::laws::lemma_first_hop(answers, place, l, p, q, hops);
                            lemma_hops_are_hops(answers, place, q, hops + 1);
                            lemma_dead_end_holds_nothing(answers, q, after);
                            assert(leads_in(answers, place, q, hops + 1));
                        }
                    }
                    lemma_scope_in_vain(answers, place, after, m + 1, n, to, item);
                }
            },
            _ => {},
        }
    }
}

/// What an alias or a `use` declaration by a `crate` path in the scope of a module leads
/// to is not missed, whatever the others lead to: where it holds the definition that is
/// wanted there, a search in the scope does not come back empty-handed.
pub proof fn law_scope_search_goes_where_an_item_leads(
    answers: AnswersModel,
    place: Place,
    to: Place,
    i: int,
    k: int,
    item: SourceItemModel,
)
    requires
        alias_leads(place, to, i) || imports_by_crate(place.items[i], place.wanted) && import_leads(
            answers,
            place,
            to,
            i,
            k,
        ),
        holds(to, item),
        has_own_key(answers, place, to),
    ensures
        search_scope(answers, place, set![place.key()], 0) != Step::<
            Option<SourceItemModel>,
            QuestionModel,
        >::Done(None),
{
    let len = place.items.len();
    let visited = set![place.key()];
    if exists|x: SourceItemModel| holds(place, x) {
        let x = choose|x: SourceItemModel| holds(place, x);
        let d = choose|d: int| 0 <= d < len && #[trigger] place.items[d] == x;
        assert(place.scope_lead(answers, d) == place.lead_by_name(place.items[d]));
        lemma_scope_comes_by_definition(answers, place, visited, 0, d as nat);
    } else {
        assert(leads_in(answers, place, place, 0));
        assert(all_in_vain(answers, place, visited));
        if alias_leads(place, to, i) {
            let segments = place.items[i]->target->segments;
            assert(segments.last() == segments[segments.len() - 1]);
            assert(place.scope_lead(answers, i) == (Lead::Elsewhere { place: to }));
            lemma_scope_in_vain(answers, place, visited, 0, i as nat, to, item);
        } else {
            lemma_import_lead(answers, place, place.items[i]->Import_tree, k);
            assert(to.mod_path =~= Seq::empty());
            assert(place.scope_lead(answers, len + i) == place.lead_as_crate_import(
                answers,
                place.items[i],
            ));
            lemma_scope_in_vain(answers, place, visited, 0, (len + i) as nat, to, item);
        }
    }
}

} // verus!
