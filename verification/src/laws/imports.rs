//! What an import comes to: the names that it brings into scope, one by one, each with
//! the path in front of it.
use vstd::prelude::*;

use crate::answers::{AnswersModel, QuestionModel, Step};
use crate::path::PathModel;
use crate::resolve::{
    any_binds, binds, crate_src_dir, existing_file, first_imported_from, group_files, imported_from, module_file,
    named_file, resolved_path, tree_files, Harvest,
};
use crate::syntax::ImportTreeModel;

use crate::laws::{any_brings_in, brings_in};

verus! {

/// A name that an import brings into scope: the path in front of it, the name itself,
/// and the name under which it is visible, which is another one where it is renamed.
pub struct Leaf {
    pub before: Seq<Seq<char>>,
    pub name: Seq<char>,
    pub visible: Seq<char>,
}

/// Leaves with one more segment in front.
pub open spec fn under(segment: Seq<char>, leaves: Seq<Leaf>) -> Seq<Leaf> {
    leaves.map_values(|leaf: Leaf| Leaf { before: seq![segment] + leaf.before, ..leaf })
}

/// The leaves of an import, in their order.
pub open spec fn leaves(tree: ImportTreeModel) -> Seq<Leaf>
    decreases tree,
{
    match tree {
        ImportTreeModel::Path { name, tree: inner } => under(name, leaves(*inner)),
        ImportTreeModel::Name { name } => seq![Leaf { before: Seq::empty(), name, visible: name }],
        ImportTreeModel::Rename { name, alias } => seq![
            Leaf { before: Seq::empty(), name, visible: alias },
        ],
        ImportTreeModel::Glob => Seq::empty(),
        ImportTreeModel::Group { trees } => leaves_of(trees),
    }
}

/// The leaves of imports, one after the other.
pub open spec fn leaves_of(trees: Seq<ImportTreeModel>) -> Seq<Leaf>
    decreases trees,
{
    if trees.len() == 0 {
        Seq::empty()
    } else {
        leaves_of(trees.drop_last()) + leaves(trees.last())
    }
}

proof fn lemma_leaves_of_first(trees: Seq<ImportTreeModel>)
    requires
        trees.len() > 0,
    ensures
        leaves_of(trees) == leaves(trees[0]) + leaves_of(trees.drop_first()),
    decreases trees.len(),
{
    let rest = trees.drop_first();
    if trees.len() == 1 {
        assert(trees.drop_last() =~= Seq::empty());
        assert(rest =~= Seq::empty());
        assert(leaves_of(trees) =~= leaves(trees[0]) + leaves_of(rest));
    } else {
        lemma_leaves_of_first(trees.drop_last());
        assert(trees.drop_last().drop_first() =~= rest.drop_last());
        assert(leaves_of(trees) =~= leaves(trees[0]) + leaves_of(rest));
    }
}

/// What the first of `leaves` that is visible as `wanted`, and whose path in front
/// names a module, comes to.
spec fn scan(
    answers: AnswersModel,
    leaves: Seq<Leaf>,
    prefix: Seq<Seq<char>>,
    wanted: Seq<char>,
    current: PathModel,
) -> Step<Option<(PathModel, Seq<char>)>, QuestionModel>
    decreases leaves.len(),
{
    if leaves.len() == 0 {
        Step::Done(None)
    } else if leaves[0].visible == wanted {
        match resolved_path(answers, prefix + leaves[0].before, current) {
            Step::Done(Some(file)) => Step::Done(Some((file, leaves[0].name))),
            Step::Ask(question) => Step::Ask(question),
            Step::Done(None) => scan(answers, leaves.drop_first(), prefix, wanted, current),
        }
    } else {
        scan(answers, leaves.drop_first(), prefix, wanted, current)
    }
}

proof fn lemma_scan_in_turn(
    answers: AnswersModel,
    a: Seq<Leaf>,
    b: Seq<Leaf>,
    prefix: Seq<Seq<char>>,
    wanted: Seq<char>,
    current: PathModel,
)
    ensures
        scan(answers, a + b, prefix, wanted, current) == (match scan(
            answers,
            a,
            prefix,
            wanted,
            current,
        ) {
            Step::Done(None) => scan(answers, b, prefix, wanted, current),
            found => found,
        }),
    decreases a.len(),
{
    if a.len() == 0 {
        assert(a + b =~= b);
    } else {
        assert((a + b).drop_first() =~= a.drop_first() + b);
        assert((a + b)[0] == a[0]);
        lemma_scan_in_turn(answers, a.drop_first(), b, prefix, wanted, current);
    }
}

proof fn lemma_scan_under(
    answers: AnswersModel,
    segment: Seq<char>,
    leaves: Seq<Leaf>,
    prefix: Seq<Seq<char>>,
    wanted: Seq<char>,
    current: PathModel,
)
    ensures
        scan(answers, under(segment, leaves), prefix, wanted, current) == scan(
            answers,
            leaves,
            prefix.push(segment),
            wanted,
            current,
        ),
    decreases leaves.len(),
{
    if leaves.len() > 0 {
        assert(under(segment, leaves).drop_first() =~= under(segment, leaves.drop_first()));
        assert(prefix + (seq![segment] + leaves[0].before) =~= prefix.push(segment)
            + leaves[0].before);
        lemma_scan_under(answers, segment, leaves.drop_first(), prefix, wanted, current);
    }
}

proof fn lemma_import_is_scan(
    answers: AnswersModel,
    tree: ImportTreeModel,
    prefix: Seq<Seq<char>>,
    wanted: Seq<char>,
    current: PathModel,
)
    ensures
        imported_from(answers, tree, prefix, wanted, current) == scan(
            answers,
            leaves(tree),
            prefix,
            wanted,
            current,
        ),
    decreases tree,
{
    reveal_with_fuel(scan, 2);
    match tree {
        ImportTreeModel::Path { name, tree: inner } => {
            lemma_import_is_scan(answers, *inner, prefix.push(name), wanted, current);
            lemma_scan_under(answers, name, leaves(*inner), prefix, wanted, current);
        },
        ImportTreeModel::Name { name } => {
            assert(prefix + Seq::<Seq<char>>::empty() =~= prefix);
        },
        ImportTreeModel::Rename { name, alias } => {
            assert(prefix + Seq::<Seq<char>>::empty() =~= prefix);
        },
        ImportTreeModel::Glob => {},
        ImportTreeModel::Group { trees } => {
            lemma_imports_are_scan(answers, trees, prefix, wanted, current);
        },
    }
}

proof fn lemma_imports_are_scan(
    answers: AnswersModel,
    trees: Seq<ImportTreeModel>,
    prefix: Seq<Seq<char>>,
    wanted: Seq<char>,
    current: PathModel,
)
    ensures
        first_imported_from(answers, trees, prefix, wanted, current) == scan(
            answers,
            leaves_of(trees),
            prefix,
            wanted,
            current,
        ),
    decreases trees,
{
    if trees.len() > 0 {
        lemma_import_is_scan(answers, trees[0], prefix, wanted, current);
        lemma_imports_are_scan(answers, trees.drop_first(), prefix, wanted, current);
        lemma_leaves_of_first(trees);
        lemma_scan_in_turn(
            answers,
            leaves(trees[0]),
            leaves_of(trees.drop_first()),
            prefix,
            wanted,
            current,
        );
    }
}

proof fn lemma_scan_at(
    answers: AnswersModel,
    leaves: Seq<Leaf>,
    prefix: Seq<Seq<char>>,
    wanted: Seq<char>,
    current: PathModel,
    i: int,
)
    requires
        0 <= i < leaves.len(),
        leaves[i].visible == wanted,
        forall|j: int|
            0 <= j < i && (#[trigger] leaves[j]).visible == wanted ==> resolved_path(
                answers,
                prefix + leaves[j].before,
                current,
            ) == Step::<Option<PathModel>, QuestionModel>::Done(None),
    ensures
        match resolved_path(answers, prefix + leaves[i].before, current) {
            Step::Done(Some(file)) => scan(answers, leaves, prefix, wanted, current) == Step::<
                Option<(PathModel, Seq<char>)>,
                QuestionModel,
            >::Done(Some((file, leaves[i].name))),
            Step::Ask(question) => scan(answers, leaves, prefix, wanted, current) == Step::<
                Option<(PathModel, Seq<char>)>,
                QuestionModel,
            >::Ask(question),
            Step::Done(None) => true,
        },
    decreases i,
{
    if i > 0 {
        let rest = leaves.drop_first();
        assert(rest[i - 1] == leaves[i]);
        assert forall|j: int| 0 <= j < i - 1 && (#[trigger] rest[j]).visible == wanted implies
            resolved_path(answers, prefix + rest[j].before, current) == Step::<
            Option<PathModel>,
            QuestionModel,
        >::Done(None) by {
            assert(rest[j] == leaves[j + 1]);
        }
        assert(leaves[0].visible == wanted ==> resolved_path(
            answers,
            prefix + leaves[0].before,
            current,
        ) == Step::<Option<PathModel>, QuestionModel>::Done(None));
        lemma_scan_at(answers, rest, prefix, wanted, current, i - 1);
    }
}

proof fn lemma_scan_without(
    answers: AnswersModel,
    leaves: Seq<Leaf>,
    prefix: Seq<Seq<char>>,
    wanted: Seq<char>,
    current: PathModel,
)
    requires
        forall|j: int|
            0 <= j < leaves.len() && (#[trigger] leaves[j]).visible == wanted ==> resolved_path(
                answers,
                prefix + leaves[j].before,
                current,
            ) == Step::<Option<PathModel>, QuestionModel>::Done(None),
    ensures
        scan(answers, leaves, prefix, wanted, current) == Step::<
            Option<(PathModel, Seq<char>)>,
            QuestionModel,
        >::Done(None),
    decreases leaves.len(),
{
    if leaves.len() > 0 {
        let rest = leaves.drop_first();
        assert forall|j: int| 0 <= j < rest.len() && (#[trigger] rest[j]).visible == wanted implies
            resolved_path(answers, prefix + rest[j].before, current) == Step::<
            Option<PathModel>,
            QuestionModel,
        >::Done(None) by {
            assert(rest[j] == leaves[j + 1]);
        }
        assert(leaves[0].visible == wanted ==> resolved_path(
            answers,
            prefix + leaves[0].before,
            current,
        ) == Step::<Option<PathModel>, QuestionModel>::Done(None));
        lemma_scan_without(answers, rest, prefix, wanted, current);
    }
}

/// An import that brings a name into scope points to the file of the module that the
/// path in front of the leaf names, and to the name that the leaf has there. It does
/// so wherever the leaf stands, in groups of any length and nested in any way; where
/// several leaves are visible by that name, the first counts whose path names a module.
pub proof fn law_import_points_to_the_module_in_front(
    answers: AnswersModel,
    tree: ImportTreeModel,
    prefix: Seq<Seq<char>>,
    wanted: Seq<char>,
    current: PathModel,
    i: int,
)
    requires
        0 <= i < leaves(tree).len(),
        leaves(tree)[i].visible == wanted,
        forall|j: int|
            0 <= j < i && (#[trigger] leaves(tree)[j]).visible == wanted ==> resolved_path(
                answers,
                prefix + leaves(tree)[j].before,
                current,
            ) == Step::<Option<PathModel>, QuestionModel>::Done(None),
    ensures
        match resolved_path(answers, prefix + leaves(tree)[i].before, current) {
            Step::Done(Some(file)) => {
                &&& imported_from(answers, tree, prefix, wanted, current) == Step::<
                    Option<(PathModel, Seq<char>)>,
                    QuestionModel,
                >::Done(Some((file, leaves(tree)[i].name)))
                &&& named_file(answers, tree, prefix, wanted, current) == Step::<
                    Option<PathModel>,
                    QuestionModel,
                >::Done(Some(file))
            },
            Step::Ask(question) => {
                &&& imported_from(answers, tree, prefix, wanted, current) == Step::<
                    Option<(PathModel, Seq<char>)>,
                    QuestionModel,
                >::Ask(question)
                &&& named_file(answers, tree, prefix, wanted, current) == Step::<
                    Option<PathModel>,
                    QuestionModel,
                >::Ask(question)
            },
            Step::Done(None) => true,
        },
{
    lemma_import_is_scan(answers, tree, prefix, wanted, current);
    lemma_scan_at(answers, leaves(tree), prefix, wanted, current, i);
}

/// An import points nowhere for a name that none of its leaves is visible by, or only
/// leaves are whose paths name no module.
pub proof fn law_import_points_nowhere_else(
    answers: AnswersModel,
    tree: ImportTreeModel,
    prefix: Seq<Seq<char>>,
    wanted: Seq<char>,
    current: PathModel,
)
    requires
        forall|j: int|
            0 <= j < leaves(tree).len() && (#[trigger] leaves(tree)[j]).visible == wanted
                ==> resolved_path(answers, prefix + leaves(tree)[j].before, current) == Step::<
                Option<PathModel>,
                QuestionModel,
            >::Done(None),
    ensures
        imported_from(answers, tree, prefix, wanted, current) == Step::<
            Option<(PathModel, Seq<char>)>,
            QuestionModel,
        >::Done(None),
        named_file(answers, tree, prefix, wanted, current) == Step::<
            Option<PathModel>,
            QuestionModel,
        >::Done(None),
{
    lemma_import_is_scan(answers, tree, prefix, wanted, current);
    lemma_scan_without(answers, leaves(tree), prefix, wanted, current);
}

proof fn lemma_first_imported_at(
    answers: AnswersModel,
    trees: Seq<ImportTreeModel>,
    prefix: Seq<Seq<char>>,
    wanted: Seq<char>,
    current: PathModel,
    i: int,
)
    requires
        0 <= i < trees.len(),
        forall|j: int| 0 <= j < i ==> !brings_in(#[trigger] trees[j], wanted),
        imported_from(answers, trees[i], prefix, wanted, current) != Step::<
            Option<(PathModel, Seq<char>)>,
            QuestionModel,
        >::Done(None) || forall|j: int|
            i < j < trees.len() ==> !brings_in(#[trigger] trees[j], wanted),
    ensures
        first_imported_from(answers, trees, prefix, wanted, current) == imported_from(
            answers,
            trees[i],
            prefix,
            wanted,
            current,
        ),
    decreases trees.len(),
{
    let rest = trees.drop_first();
    if i > 0 {
        assert(!brings_in(trees[0], wanted));
        crate::laws::lemma_unrelated_import(answers, trees[0], prefix, wanted, current);
        assert(rest[i - 1] == trees[i]);
        assert forall|j: int| 0 <= j < i - 1 implies !brings_in(#[trigger] rest[j], wanted) by {
            assert(rest[j] == trees[j + 1]);
        }
        if forall|j: int| i < j < trees.len() ==> !brings_in(#[trigger] trees[j], wanted) {
            assert forall|j: int| i - 1 < j < rest.len() implies !brings_in(
                #[trigger] rest[j],
                wanted,
            ) by {
                assert(rest[j] == trees[j + 1]);
            }
        }
        lemma_first_imported_at(answers, rest, prefix, wanted, current, i - 1);
    } else if imported_from(answers, trees[0], prefix, wanted, current) == Step::<
        Option<(PathModel, Seq<char>)>,
        QuestionModel,
    >::Done(None) {
        assert forall|j: int| 0 <= j < rest.len() implies !brings_in(#[trigger] rest[j], wanted) by {
            assert(rest[j] == trees[j + 1]);
        }
        lemma_none_brings_in(rest, wanted);
        crate::laws::lemma_unrelated_group(answers, rest, prefix, wanted, current);
    }
}

proof fn lemma_none_brings_in(trees: Seq<ImportTreeModel>, wanted: Seq<char>)
    requires
        forall|j: int| 0 <= j < trees.len() ==> !brings_in(#[trigger] trees[j], wanted),
    ensures
        !any_brings_in(trees, wanted),
    decreases trees.len(),
{
    if trees.len() > 0 {
        let rest = trees.drop_first();
        assert(!brings_in(trees[0], wanted));
        assert forall|j: int| 0 <= j < rest.len() implies !brings_in(#[trigger] rest[j], wanted) by {
            assert(rest[j] == trees[j + 1]);
        }
        lemma_none_brings_in(rest, wanted);
    }
}

/// A group gives for a name what the first of its imports that brings it into scope
/// gives alone, wherever in the group that stands; unless that names no module and a
/// later import brings the name in, too.
pub proof fn law_group_gives_what_its_import_gives(
    answers: AnswersModel,
    trees: Seq<ImportTreeModel>,
    prefix: Seq<Seq<char>>,
    wanted: Seq<char>,
    current: PathModel,
    i: int,
)
    requires
        0 <= i < trees.len(),
        forall|j: int| 0 <= j < i ==> !brings_in(#[trigger] trees[j], wanted),
        imported_from(answers, trees[i], prefix, wanted, current) != Step::<
            Option<(PathModel, Seq<char>)>,
            QuestionModel,
        >::Done(None) || forall|j: int|
            i < j < trees.len() ==> !brings_in(#[trigger] trees[j], wanted),
    ensures
        imported_from(answers, ImportTreeModel::Group { trees }, prefix, wanted, current)
            == imported_from(answers, trees[i], prefix, wanted, current),
        named_file(answers, ImportTreeModel::Group { trees }, prefix, wanted, current)
            == named_file(answers, trees[i], prefix, wanted, current),
{
    lemma_first_imported_at(answers, trees, prefix, wanted, current, i);
}

/// Whether one of `leaves` is visible as `wanted`.
pub open spec fn is_visible(leaves: Seq<Leaf>, wanted: Seq<char>) -> bool {
    exists|i: int| 0 <= i < leaves.len() && (#[trigger] leaves[i]).visible == wanted
}

/// An import brings a name into scope if and only if one of its leaves is visible by it.
pub proof fn law_imports_bring_in_their_leaves(tree: ImportTreeModel, wanted: Seq<char>)
    ensures
        brings_in(tree, wanted) <==> is_visible(leaves(tree), wanted),
    decreases tree,
{
    match tree {
        ImportTreeModel::Path { name, tree: inner } => {
            law_imports_bring_in_their_leaves(*inner, wanted);
            let all = leaves(tree);
            let some = leaves(*inner);
            assert(all == under(name, some));
            assert(brings_in(tree, wanted) == brings_in(*inner, wanted));
            if brings_in(tree, wanted) {
                let i = choose|i: int| 0 <= i < some.len() && (#[trigger] some[i]).visible == wanted;
                assert(all[i].visible == wanted);
            }
            if is_visible(all, wanted) {
                let i = choose|i: int| 0 <= i < all.len() && (#[trigger] all[i]).visible == wanted;
                assert(all[i].visible == some[i].visible);
                assert(some[i].visible == wanted);
                assert(brings_in(*inner, wanted));
            }
        },
        ImportTreeModel::Group { trees } => {
            lemma_groups_bring_in_their_leaves(trees, wanted);
        },
        ImportTreeModel::Name { name } => {
            assert(leaves(tree)[0].visible == name);
        },
        ImportTreeModel::Rename { name, alias } => {
            assert(leaves(tree)[0].visible == alias);
        },
        ImportTreeModel::Glob => {},
    }
}

proof fn lemma_groups_bring_in_their_leaves(trees: Seq<ImportTreeModel>, wanted: Seq<char>)
    ensures
        any_brings_in(trees, wanted) <==> is_visible(leaves_of(trees), wanted),
    decreases trees,
{
    if trees.len() > 0 {
        let a = leaves(trees[0]);
        let b = leaves_of(trees.drop_first());
        law_imports_bring_in_their_leaves(trees[0], wanted);
        lemma_groups_bring_in_their_leaves(trees.drop_first(), wanted);
        lemma_leaves_of_first(trees);
        let all = leaves_of(trees);
        if brings_in(trees[0], wanted) {
            let i = choose|i: int| 0 <= i < a.len() && (#[trigger] a[i]).visible == wanted;
            assert(all[i].visible == wanted);
        }
        if any_brings_in(trees.drop_first(), wanted) {
            let i = choose|i: int| 0 <= i < b.len() && (#[trigger] b[i]).visible == wanted;
            assert(all[a.len() + i] == b[i]);
            assert(all[a.len() + i].visible == wanted);
        }
        if is_visible(all, wanted) {
            let i = choose|i: int| 0 <= i < all.len() && (#[trigger] all[i]).visible == wanted;
            if i < a.len() {
                assert(a[i].visible == wanted);
            } else {
                assert(b[i - a.len()].visible == wanted);
            }
        }
    }
}

/// Whether a leaf, right under the segment `parent` and its own path, gives a module
/// the name `name`: it is visible by it, or it is `self` behind that name.
pub open spec fn leaf_binds(leaf: Leaf, parent: Seq<char>, name: Seq<char>) -> bool {
    ||| leaf.visible == name
    ||| leaf.visible == "self"@ && leaf.name == "self"@ && (if leaf.before.len() == 0 {
        parent == name
    } else {
        leaf.before[leaf.before.len() - 1] == name
    })
}

/// Whether one of `leaves` gives a module the name `name`.
pub open spec fn any_leaf_binds(leaves: Seq<Leaf>, parent: Seq<char>, name: Seq<char>) -> bool {
    exists|i: int| 0 <= i < leaves.len() && leaf_binds(#[trigger] leaves[i], parent, name)
}

/// An import gives a module a name if and only if one of its leaves does.
pub proof fn law_imports_name_modules_by_their_leaves(
    tree: ImportTreeModel,
    parent: Seq<char>,
    name: Seq<char>,
)
    requires
        no_self_alias(tree),
    ensures
        binds(tree, parent, name) <==> any_leaf_binds(leaves(tree), parent, name),
    decreases tree,
{
    match tree {
        ImportTreeModel::Path { name: segment, tree: inner } => {
            law_imports_name_modules_by_their_leaves(*inner, segment, name);
            let all = leaves(tree);
            let some = leaves(*inner);
            assert(all == under(segment, some));
            assert(binds(tree, parent, name) == binds(*inner, segment, name));
            assert forall|i: int| 0 <= i < all.len() implies leaf_binds(
                #[trigger] all[i],
                parent,
                name,
            ) == leaf_binds(some[i], segment, name) by {
                let before = all[i].before;
                assert(before == seq![segment] + some[i].before);
                if some[i].before.len() == 0 {
                    assert(before[before.len() - 1] == segment);
                } else {
                    assert(before[before.len() - 1] == some[i].before[some[i].before.len() - 1]);
                }
            }
            if binds(tree, parent, name) {
                let i = choose|i: int|
                    0 <= i < some.len() && leaf_binds(#[trigger] some[i], segment, name);
                assert(leaf_binds(all[i], parent, name));
            }
            if any_leaf_binds(all, parent, name) {
                let i = choose|i: int|
                    0 <= i < all.len() && leaf_binds(#[trigger] all[i], parent, name);
                assert(leaf_binds(some[i], segment, name));
            }
        },
        ImportTreeModel::Group { trees } => {
            lemma_groups_name_modules_by_their_leaves(trees, parent, name);
        },
        ImportTreeModel::Name { name: leaf } => {
            assert(leaves(tree)[0].visible == leaf);
        },
        ImportTreeModel::Rename { name: leaf, alias } => {
            assert(leaves(tree)[0].visible == alias);
        },
        ImportTreeModel::Glob => {},
    }
}

/// Whether an import renames nothing to `self`, which is no name that can be given.
pub open spec fn no_self_alias(tree: ImportTreeModel) -> bool
    decreases tree,
{
    match tree {
        ImportTreeModel::Path { name, tree: inner } => no_self_alias(*inner),
        ImportTreeModel::Rename { name, alias } => alias != "self"@,
        ImportTreeModel::Group { trees } => no_self_aliases(trees),
        _ => true,
    }
}

/// Whether imports rename nothing to `self`.
pub open spec fn no_self_aliases(trees: Seq<ImportTreeModel>) -> bool
    decreases trees,
{
    trees.len() > 0 ==> no_self_aliases(trees.drop_last()) && no_self_alias(trees.last())
}

proof fn lemma_groups_name_modules_by_their_leaves(
    trees: Seq<ImportTreeModel>,
    parent: Seq<char>,
    name: Seq<char>,
)
    requires
        no_self_aliases(trees),
    ensures
        any_binds(trees, parent, name) <==> any_leaf_binds(leaves_of(trees), parent, name),
    decreases trees,
{
    if trees.len() > 0 {
        let a = leaves_of(trees.drop_last());
        let b = leaves(trees.last());
        let all = leaves_of(trees);
        lemma_groups_name_modules_by_their_leaves(trees.drop_last(), parent, name);
        law_imports_name_modules_by_their_leaves(trees.last(), parent, name);
        if any_binds(trees.drop_last(), parent, name) {
            let i = choose|i: int| 0 <= i < a.len() && leaf_binds(#[trigger] a[i], parent, name);
            assert(all[i] == a[i]);
            assert(leaf_binds(all[i], parent, name));
        }
        if binds(trees.last(), parent, name) {
            let i = choose|i: int| 0 <= i < b.len() && leaf_binds(#[trigger] b[i], parent, name);
            assert(all[a.len() + i] == b[i]);
            assert(leaf_binds(all[a.len() + i], parent, name));
        }
        if any_leaf_binds(all, parent, name) {
            let i = choose|i: int| 0 <= i < all.len() && leaf_binds(#[trigger] all[i], parent, name);
            if i < a.len() {
                assert(a[i] == all[i]);
                assert(leaf_binds(a[i], parent, name));
            } else {
                assert(b[i - a.len()] == all[i]);
                assert(leaf_binds(b[i - a.len()], parent, name));
            }
        }
    }
}

/// What looking for the files of leaves, one after the other, collects, up to the first
/// question that is open; each leaf is looked for as if it were imported alone.
pub open spec fn one_by_one(
    answers: AnswersModel,
    leaves: Seq<Leaf>,
    prefix: Seq<Seq<char>>,
    current: PathModel,
) -> (Seq<PathModel>, Option<QuestionModel>)
    decreases leaves.len(),
{
    if leaves.len() == 0 {
        (Seq::empty(), None)
    } else {
        let front = one_by_one(answers, leaves.drop_last(), prefix, current);
        let last = leaves[leaves.len() - 1];
        let alone = tree_files(
            answers,
            ImportTreeModel::Name { name: last.name },
            prefix + last.before,
            current,
        );
        if front.1 is Some {
            front
        } else {
            (front.0 + alone.files, alone.open)
        }
    }
}

proof fn lemma_one_by_one_in_turn(
    answers: AnswersModel,
    a: Seq<Leaf>,
    b: Seq<Leaf>,
    prefix: Seq<Seq<char>>,
    current: PathModel,
)
    ensures
        ({
            let first = one_by_one(answers, a, prefix, current);
            let second = one_by_one(answers, b, prefix, current);
            one_by_one(answers, a + b, prefix, current) == if first.1 is Some {
                first
            } else {
                (first.0 + second.0, second.1)
            }
        }),
    decreases b.len(),
{
    let first = one_by_one(answers, a, prefix, current);
    if b.len() == 0 {
        assert(a + b =~= a);
        assert(first.0 + Seq::<PathModel>::empty() =~= first.0);
    } else {
        assert((a + b).drop_last() =~= a + b.drop_last());
        assert((a + b)[(a + b).len() - 1] == b[b.len() - 1]);
        lemma_one_by_one_in_turn(answers, a, b.drop_last(), prefix, current);
        let middle = one_by_one(answers, b.drop_last(), prefix, current);
        let last = b[b.len() - 1];
        let alone = tree_files(
            answers,
            ImportTreeModel::Name { name: last.name },
            prefix + last.before,
            current,
        );
        assert(first.0 + middle.0 + alone.files =~= first.0 + (middle.0 + alone.files));
    }
}

proof fn lemma_one_by_one_under(
    answers: AnswersModel,
    segment: Seq<char>,
    leaves: Seq<Leaf>,
    prefix: Seq<Seq<char>>,
    current: PathModel,
)
    ensures
        one_by_one(answers, under(segment, leaves), prefix, current) == one_by_one(
            answers,
            leaves,
            prefix.push(segment),
            current,
        ),
    decreases leaves.len(),
{
    if leaves.len() > 0 {
        let last = leaves[leaves.len() - 1];
        assert(under(segment, leaves).drop_last() =~= under(segment, leaves.drop_last()));
        assert(prefix + (seq![segment] + last.before) =~= prefix.push(segment) + last.before);
        lemma_one_by_one_under(answers, segment, leaves.drop_last(), prefix, current);
    }
}

/// An import collects what its leaves collect, imported alone one after the other:
/// groups and nesting change nothing, and neither does renaming.
pub proof fn law_import_collects_leaf_by_leaf(
    answers: AnswersModel,
    tree: ImportTreeModel,
    prefix: Seq<Seq<char>>,
    current: PathModel,
)
    ensures
        tree_files(answers, tree, prefix, current).files == one_by_one(
            answers,
            leaves(tree),
            prefix,
            current,
        ).0,
        tree_files(answers, tree, prefix, current).open == one_by_one(
            answers,
            leaves(tree),
            prefix,
            current,
        ).1,
    decreases tree,
{
    reveal_with_fuel(one_by_one, 2);
    match tree {
        ImportTreeModel::Path { name, tree: inner } => {
            law_import_collects_leaf_by_leaf(answers, *inner, prefix.push(name), current);
            lemma_one_by_one_under(answers, name, leaves(*inner), prefix, current);
        },
        ImportTreeModel::Name { name } => {
            assert(prefix + Seq::<Seq<char>>::empty() =~= prefix);
            assert(leaves(tree).drop_last() =~= Seq::empty());
            let files = tree_files(answers, tree, prefix, current).files;
            assert(Seq::<PathModel>::empty() + files =~= files);
        },
        ImportTreeModel::Rename { name, alias } => {
            assert(prefix + Seq::<Seq<char>>::empty() =~= prefix);
            assert(leaves(tree).drop_last() =~= Seq::empty());
            let files = tree_files(answers, tree, prefix, current).files;
            assert(Seq::<PathModel>::empty() + files =~= files);
        },
        ImportTreeModel::Glob => {},
        ImportTreeModel::Group { trees } => {
            lemma_group_collects_leaf_by_leaf(answers, trees, prefix, current);
        },
    }
}

proof fn lemma_group_collects_leaf_by_leaf(
    answers: AnswersModel,
    trees: Seq<ImportTreeModel>,
    prefix: Seq<Seq<char>>,
    current: PathModel,
)
    ensures
        group_files(answers, trees, prefix, current).files == one_by_one(
            answers,
            leaves_of(trees),
            prefix,
            current,
        ).0,
        group_files(answers, trees, prefix, current).open == one_by_one(
            answers,
            leaves_of(trees),
            prefix,
            current,
        ).1,
    decreases trees,
{
    if trees.len() > 0 {
        lemma_group_collects_leaf_by_leaf(answers, trees.drop_last(), prefix, current);
        law_import_collects_leaf_by_leaf(answers, trees.last(), prefix, current);
        lemma_one_by_one_in_turn(
            answers,
            leaves_of(trees.drop_last()),
            leaves(trees.last()),
            prefix,
            current,
        );
    }
}

/// Whether a path that is used in the file `current` names a module whose file is there.
pub open spec fn has_file(
    answers: AnswersModel,
    path: Seq<Seq<char>>,
    current: PathModel,
    file: PathModel,
) -> bool {
    &&& resolved_path(answers, path, current) == Step::<Option<PathModel>, QuestionModel>::Done(
        Some(file),
    )
    &&& answers.is_file(file) == Step::<bool, QuestionModel>::Done(true)
}

/// Whether a path that is used in the file `current` is known to name no module whose
/// file is there.
pub open spec fn has_no_file(
    answers: AnswersModel,
    path: Seq<Seq<char>>,
    current: PathModel,
) -> bool {
    match resolved_path(answers, path, current) {
        Step::Done(Some(file)) => answers.is_file(file) == Step::<bool, QuestionModel>::Done(false),
        Step::Done(None) => true,
        Step::Ask(_) => false,
    }
}

/// The first question that is open on the way to the file of the module that a path
/// names: which file that is, and whether there is a file.
pub open spec fn first_question(
    answers: AnswersModel,
    path: Seq<Seq<char>>,
    current: PathModel,
) -> Option<QuestionModel> {
    match resolved_path(answers, path, current) {
        Step::Ask(question) => Some(question),
        Step::Done(Some(file)) => match answers.is_file(file) {
            Step::Ask(question) => Some(question),
            Step::Done(_) => None,
        },
        Step::Done(None) => None,
    }
}

/// A name collects the file of the module that the whole path names, where that is
/// there; else that of the module that the path in front of it names, where that is
/// there; else nothing. So it does when it is renamed.
pub proof fn law_leaf_collects_its_file(
    answers: AnswersModel,
    prefix: Seq<Seq<char>>,
    name: Seq<char>,
    alias: Seq<char>,
    current: PathModel,
    file: PathModel,
)
    ensures
        ({
            let plain = tree_files(answers, ImportTreeModel::Name { name }, prefix, current);
            let renamed = tree_files(
                answers,
                ImportTreeModel::Rename { name, alias },
                prefix,
                current,
            );
            let whole = prefix.push(name);
            let found = (Harvest { files: seq![file], open: None });
            let nothing = (Harvest { files: Seq::empty(), open: None });
            &&& renamed == plain
            &&& has_file(answers, whole, current, file) ==> plain == found
            &&& has_no_file(answers, whole, current) && prefix.len() > 0 && has_file(
                answers,
                prefix,
                current,
                file,
            ) ==> plain == found
            &&& has_no_file(answers, whole, current) && (prefix.len() == 0 || has_no_file(
                answers,
                prefix,
                current,
            )) ==> plain == nothing
            &&& plain.open is Some ==> plain.files.len() == 0
            &&& first_question(answers, whole, current) is Some ==> plain.open == first_question(
                answers,
                whole,
                current,
            )
            &&& has_no_file(answers, whole, current) && prefix.len() > 0 && first_question(
                answers,
                prefix,
                current,
            ) is Some ==> plain.open == first_question(answers, prefix, current)
            &&& plain.open is None && plain.files.len() > 0 ==> plain.files.len() == 1 && (has_file(
                answers,
                whole,
                current,
                plain.files[0],
            ) || has_no_file(answers, whole, current) && has_file(
                answers,
                prefix,
                current,
                plain.files[0],
            ))
        }),
{
    let whole = existing_file(answers, prefix.push(name), current);
    let outer = existing_file(answers, prefix, current);
    let nothing = Harvest::nothing();
    assert(nothing.files.len() == 0);
    if whole.open is None && whole.files.len() == 0 {
        assert(whole.files =~= nothing.files);
        assert(whole == nothing);
    }
    if has_file(answers, prefix.push(name), current, file) {
        assert(whole.files == seq![file]);
        assert(whole != nothing);
    }
}

proof fn lemma_one_by_one_has(
    answers: AnswersModel,
    leaves: Seq<Leaf>,
    prefix: Seq<Seq<char>>,
    current: PathModel,
    i: int,
    file: PathModel,
)
    requires
        0 <= i < leaves.len(),
        one_by_one(answers, leaves, prefix, current).1 is None,
        tree_files(
            answers,
            ImportTreeModel::Name { name: leaves[i].name },
            prefix + leaves[i].before,
            current,
        ).files.contains(file),
    ensures
        one_by_one(answers, leaves, prefix, current).0.contains(file),
    decreases leaves.len(),
{
    let front = one_by_one(answers, leaves.drop_last(), prefix, current);
    let all = one_by_one(answers, leaves, prefix, current);
    let last = leaves[leaves.len() - 1];
    let alone = tree_files(
        answers,
        ImportTreeModel::Name { name: last.name },
        prefix + last.before,
        current,
    );
    if i == leaves.len() - 1 {
        let k = choose|k: int| 0 <= k < alone.files.len() && alone.files[k] == file;
        assert(all.0[front.0.len() + k] == file);
    } else {
        assert(leaves.drop_last()[i] == leaves[i]);
        lemma_one_by_one_has(answers, leaves.drop_last(), prefix, current, i, file);
        let k = choose|k: int| 0 <= k < front.0.len() && front.0[k] == file;
        assert(all.0[k] == file);
    }
}

proof fn lemma_one_by_one_comes_from(
    answers: AnswersModel,
    leaves: Seq<Leaf>,
    prefix: Seq<Seq<char>>,
    current: PathModel,
    k: int,
) -> (i: int)
    requires
        0 <= k < one_by_one(answers, leaves, prefix, current).0.len(),
    ensures
        0 <= i < leaves.len(),
        tree_files(
            answers,
            ImportTreeModel::Name { name: leaves[i].name },
            prefix + leaves[i].before,
            current,
        ).files.contains(one_by_one(answers, leaves, prefix, current).0[k]),
    decreases leaves.len(),
{
    let front = one_by_one(answers, leaves.drop_last(), prefix, current);
    if k < front.0.len() {
        let i = lemma_one_by_one_comes_from(answers, leaves.drop_last(), prefix, current, k);
        assert(leaves.drop_last()[i] == leaves[i]);
        i
    } else {
        let last = leaves[leaves.len() - 1];
        let alone = tree_files(
            answers,
            ImportTreeModel::Name { name: last.name },
            prefix + last.before,
            current,
        );
        assert(one_by_one(answers, leaves, prefix, current).0[k] == alone.files[k
            - front.0.len()]);
        leaves.len() - 1
    }
}

/// Nothing is left out: once no question is open, the files collected for an import
/// have, for each of its leaves, the file of the module that the whole path names, or
/// else that of the module that the path in front of the leaf names.
pub proof fn law_collection_is_complete(
    answers: AnswersModel,
    tree: ImportTreeModel,
    prefix: Seq<Seq<char>>,
    current: PathModel,
    i: int,
    file: PathModel,
)
    requires
        tree_files(answers, tree, prefix, current).open is None,
        0 <= i < leaves(tree).len(),
        ({
            let before = prefix + leaves(tree)[i].before;
            let whole = before.push(leaves(tree)[i].name);
            ||| has_file(answers, whole, current, file)
            ||| before.len() > 0 && has_no_file(answers, whole, current) && has_file(
                answers,
                before,
                current,
                file,
            )
        }),
    ensures
        tree_files(answers, tree, prefix, current).files.contains(file),
{
    let leaf = leaves(tree)[i];
    law_import_collects_leaf_by_leaf(answers, tree, prefix, current);
    law_leaf_collects_its_file(
        answers,
        prefix + leaf.before,
        leaf.name,
        leaf.visible,
        current,
        file,
    );
    assert(seq![file][0] == file);
    lemma_one_by_one_has(answers, leaves(tree), prefix, current, i, file);
}

/// Nothing is made up: each file that is collected for an import is that of a leaf.
pub proof fn law_collection_is_sound(
    answers: AnswersModel,
    tree: ImportTreeModel,
    prefix: Seq<Seq<char>>,
    current: PathModel,
    k: int,
)
    requires
        0 <= k < tree_files(answers, tree, prefix, current).files.len(),
    ensures
        exists|i: int|
            0 <= i < leaves(tree).len() && {
                let leaf = #[trigger] leaves(tree)[i];
                let before = prefix + leaf.before;
                let whole = before.push(leaf.name);
                let file = tree_files(answers, tree, prefix, current).files[k];
                ||| has_file(answers, whole, current, file)
                ||| has_no_file(answers, whole, current) && has_file(answers, before, current, file)
            },
{
    law_import_collects_leaf_by_leaf(answers, tree, prefix, current);
    let i = lemma_one_by_one_comes_from(answers, leaves(tree), prefix, current, k);
    let leaf = leaves(tree)[i];
    let file = tree_files(answers, tree, prefix, current).files[k];
    law_leaf_collects_its_file(
        answers,
        prefix + leaf.before,
        leaf.name,
        leaf.visible,
        current,
        file,
    );
}

/// A path that goes by `crate` starts in the `src` directory of the crate, and the
/// rest of it goes down from there.
pub proof fn law_crate_paths_start_in_src(
    answers: AnswersModel,
    rest: Seq<Seq<char>>,
    current: PathModel,
)
    ensures
        resolved_path(answers, seq!["crate"@] + rest, current) == (match crate_src_dir(
            answers,
            current,
        ) {
            Step::Ask(question) => Step::Ask(question),
            Step::Done(None) => Step::Done(None),
            Step::Done(Some(src)) => match module_file(answers, src.join_all(rest)) {
                Step::Ask(question) => Step::Ask(question),
                Step::Done(file) => Step::Done(Some(file)),
            },
        }),
{
    let path = seq!["crate"@] + rest;
    assert(path[0] == "crate"@);
    assert(path.skip(1) =~= rest);
}

/// A path that goes by `self` starts in the directory of the current file.
pub proof fn law_self_paths_start_in_the_directory(
    answers: AnswersModel,
    rest: Seq<Seq<char>>,
    current: PathModel,
)
    ensures
        resolved_path(answers, seq!["self"@] + rest, current) == (match current.parent() {
            None => Step::Done(None),
            Some(dir) => match module_file(answers, dir.join_all(rest)) {
                Step::Ask(question) => Step::Ask(question),
                Step::Done(file) => Step::Done(Some(file)),
            },
        }),
{
    let path = seq!["self"@] + rest;
    reveal_strlit("crate");
    reveal_strlit("self");
    assert("crate"@[0] == 'c');
    assert("self"@[0] == 's');
    assert(path[0] == "self"@);
    assert(path.skip(1) =~= rest);
    if let Some(dir) = current.parent() {
        assert(current.up(1)->0.parts =~= dir.parts);
    }
}

} // verus!
