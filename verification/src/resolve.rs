//! From the paths of `use` declarations to source files.
use vstd::prelude::*;

use crate::answers::{Answers, AnswersModel, Question, QuestionModel, Step};
use crate::path::{copy_texts, lemma_texts_push, same_text, texts, FilePath, PathModel};
use crate::syntax::{import_tree_models, ImportTree, ImportTreeModel};

verus! {

/// The `src` directory of the innermost directory, from `dir` outwards, that
/// holds a `Cargo.toml`.
pub open spec fn src_dir_from(answers: AnswersModel, dir: PathModel) -> Step<
    Option<PathModel>,
    QuestionModel,
>
    decreases dir.parts.len(),
{
    match answers.is_file(dir.join("Cargo.toml"@)) {
        Step::Ask(question) => Step::Ask(question),
        Step::Done(true) => Step::Done(Some(dir.join("src"@))),
        Step::Done(false) => match dir.parent() {
            Some(outer) => src_dir_from(answers, outer),
            None => Step::Done(None),
        },
    }
}

/// The `src` directory of the crate that `file` belongs to.
pub open spec fn crate_src_dir(answers: AnswersModel, file: PathModel) -> Step<
    Option<PathModel>,
    QuestionModel,
> {
    match file.parent() {
        Some(dir) => src_dir_from(answers, dir),
        None => Step::Done(None),
    }
}

/// The file of the module at `base`: `base.rs` where there is such a file, else
/// `base/mod.rs` where there is that one, else `base.rs` again.
pub open spec fn module_file(answers: AnswersModel, base: PathModel) -> Step<
    PathModel,
    QuestionModel,
> {
    match answers.is_file(base.with_extension("rs"@)) {
        Step::Ask(question) => Step::Ask(question),
        Step::Done(true) => Step::Done(base.with_extension("rs"@)),
        Step::Done(false) => match answers.is_file(base.join("mod.rs"@)) {
            Step::Ask(question) => Step::Ask(question),
            Step::Done(true) => Step::Done(base.join("mod.rs"@)),
            Step::Done(false) => Step::Done(base.with_extension("rs"@)),
        },
    }
}

/// How many `super` segments `path` starts with: the first stands for the directory
/// of the current file, and each further one goes one directory up.
pub open spec fn leading_supers(path: Seq<Seq<char>>) -> nat
    decreases path.len(),
{
    if path.len() > 0 && path[0] == "super"@ {
        1 + leading_supers(path.drop_first())
    } else {
        0
    }
}

/// Where `path`, used in the file `current`, starts out: the directory that it is
/// relative to, and how many of its segments that takes up. A path that starts
/// with the name of another crate starts nowhere, and so does an empty one.
pub open spec fn path_base(
    answers: AnswersModel,
    path: Seq<Seq<char>>,
    current: PathModel,
) -> Step<Option<(PathModel, nat)>, QuestionModel> {
    if path.len() == 0 {
        Step::Done(None)
    } else if path[0] == "crate"@ {
        match crate_src_dir(answers, current) {
            Step::Ask(question) => Step::Ask(question),
            Step::Done(Some(dir)) => Step::Done(Some((dir, 1))),
            Step::Done(None) => Step::Done(None),
        }
    } else if path[0] == "self"@ {
        match current.up(1) {
            Some(dir) => Step::Done(Some((dir, 1))),
            None => Step::Done(None),
        }
    } else if path[0] == "super"@ {
        match current.up(leading_supers(path)) {
            Some(dir) => Step::Done(Some((dir, leading_supers(path)))),
            None => Step::Done(None),
        }
    } else {
        Step::Done(None)
    }
}

/// The file of the module that `path` names in the file `current`.
pub open spec fn resolved_path(
    answers: AnswersModel,
    path: Seq<Seq<char>>,
    current: PathModel,
) -> Step<Option<PathModel>, QuestionModel> {
    match path_base(answers, path, current) {
        Step::Ask(question) => Step::Ask(question),
        Step::Done(None) => Step::Done(None),
        Step::Done(Some((dir, taken))) => match module_file(
            answers,
            dir.join_all(path.skip(taken as int)),
        ) {
            Step::Ask(question) => Step::Ask(question),
            Step::Done(file) => Step::Done(Some(file)),
        },
    }
}

/// Files found one after the other, up to the first question that was open.
pub struct Harvest {
    pub files: Seq<PathModel>,
    pub open: Option<QuestionModel>,
}

impl Harvest {
    /// Nothing found, nothing open.
    pub open spec fn nothing() -> Harvest {
        Harvest { files: Seq::empty(), open: None }
    }

    /// What is found by looking for `self` and then, if nothing was open, for `next`.
    pub open spec fn followed_by(self, next: Harvest) -> Harvest {
        if self.open is Some {
            self
        } else {
            Harvest { files: self.files + next.files, open: next.open }
        }
    }
}

/// The values of a sequence of paths.
pub open spec fn paths(files: Seq<FilePath>) -> Seq<PathModel> {
    files.map_values(|file: FilePath| file@)
}

/// Whether going from `before` to `after`, with the outcome `step`, adds what
/// `harvest` says.
pub open spec fn collected(
    before: Vec<FilePath>,
    after: Vec<FilePath>,
    step: Step<(), Question>,
    harvest: Harvest,
) -> bool {
    &&& paths(after@) == paths(before@) + harvest.files
    &&& match step {
        Step::Done(_) => harvest.open is None,
        Step::Ask(question) => harvest.open == Some(question.deep_view()),
    }
}

/// The file that `path` names, if it names one and that is there.
pub open spec fn existing_file(
    answers: AnswersModel,
    path: Seq<Seq<char>>,
    current: PathModel,
) -> Harvest {
    match resolved_path(answers, path, current) {
        Step::Ask(question) => Harvest { files: Seq::empty(), open: Some(question) },
        Step::Done(None) => Harvest::nothing(),
        Step::Done(Some(file)) => match answers.is_file(file) {
            Step::Ask(question) => Harvest { files: Seq::empty(), open: Some(question) },
            Step::Done(true) => Harvest { files: seq![file], open: None },
            Step::Done(false) => Harvest::nothing(),
        },
    }
}

/// The file that may define `name`, imported from `prefix`: that of the module
/// `prefix::name` where that is there, else that of the module `prefix`.
pub open spec fn leaf_files(
    answers: AnswersModel,
    prefix: Seq<Seq<char>>,
    name: Seq<char>,
    current: PathModel,
) -> Harvest {
    let whole = existing_file(answers, prefix.push(name), current);
    if whole == Harvest::nothing() && prefix.len() > 0 {
        existing_file(answers, prefix, current)
    } else {
        whole
    }
}

/// The files that may define what `tree` imports, leaf by leaf.
pub open spec fn tree_files(
    answers: AnswersModel,
    tree: ImportTreeModel,
    prefix: Seq<Seq<char>>,
    current: PathModel,
) -> Harvest
    decreases tree,
{
    match tree {
        ImportTreeModel::Path { name, tree: inner } => tree_files(
            answers,
            *inner,
            prefix.push(name),
            current,
        ),
        ImportTreeModel::Name { name } => leaf_files(answers, prefix, name, current),
        ImportTreeModel::Rename { name, alias } => leaf_files(answers, prefix, name, current),
        ImportTreeModel::Glob => Harvest::nothing(),
        ImportTreeModel::Group { trees } => group_files(answers, trees, prefix, current),
    }
}

/// The files that may define what `trees` import, tree by tree.
pub open spec fn group_files(
    answers: AnswersModel,
    trees: Seq<ImportTreeModel>,
    prefix: Seq<Seq<char>>,
    current: PathModel,
) -> Harvest
    decreases trees,
{
    if trees.len() == 0 {
        Harvest::nothing()
    } else {
        group_files(answers, trees.drop_last(), prefix, current).followed_by(
            tree_files(answers, trees.last(), prefix, current),
        )
    }
}

/// A resolved file, if there is one, with the name that is defined there.
pub open spec fn with_name(
    step: Step<Option<PathModel>, QuestionModel>,
    name: Seq<char>,
) -> Step<Option<(PathModel, Seq<char>)>, QuestionModel> {
    match step {
        Step::Done(Some(file)) => Step::Done(Some((file, name))),
        Step::Done(None) => Step::Done(None),
        Step::Ask(question) => Step::Ask(question),
    }
}

/// Where the first leaf of `tree` that brings `wanted` into scope imports it from:
/// the file of the module, and the name there, which for a renamed leaf is the one
/// before the renaming.
pub open spec fn imported_from(
    answers: AnswersModel,
    tree: ImportTreeModel,
    prefix: Seq<Seq<char>>,
    wanted: Seq<char>,
    current: PathModel,
) -> Step<Option<(PathModel, Seq<char>)>, QuestionModel>
    decreases tree,
{
    match tree {
        ImportTreeModel::Path { name, tree: inner } => imported_from(
            answers,
            *inner,
            prefix.push(name),
            wanted,
            current,
        ),
        ImportTreeModel::Name { name } => if name == wanted {
            with_name(resolved_path(answers, prefix, current), name)
        } else {
            Step::Done(None)
        },
        ImportTreeModel::Rename { name, alias } => if alias == wanted {
            with_name(resolved_path(answers, prefix, current), name)
        } else {
            Step::Done(None)
        },
        ImportTreeModel::Glob => Step::Done(None),
        ImportTreeModel::Group { trees } => first_imported_from(
            answers,
            trees,
            prefix,
            wanted,
            current,
        ),
    }
}

/// Where the first of `trees` that can tell imports `wanted` from.
pub open spec fn first_imported_from(
    answers: AnswersModel,
    trees: Seq<ImportTreeModel>,
    prefix: Seq<Seq<char>>,
    wanted: Seq<char>,
    current: PathModel,
) -> Step<Option<(PathModel, Seq<char>)>, QuestionModel>
    decreases trees,
{
    if trees.len() == 0 {
        Step::Done(None)
    } else {
        match imported_from(answers, trees[0], prefix, wanted, current) {
            Step::Done(None) => first_imported_from(
                answers,
                trees.drop_first(),
                prefix,
                wanted,
                current,
            ),
            found => found,
        }
    }
}

/// Whether `tree`, which stands right under the path segment `parent`, gives a module
/// the name `name`: by a leaf of that name, by renaming, or by `self`.
pub open spec fn binds(tree: ImportTreeModel, parent: Seq<char>, name: Seq<char>) -> bool
    decreases tree,
{
    match tree {
        ImportTreeModel::Path { name: segment, tree: inner } => binds(*inner, segment, name),
        ImportTreeModel::Name { name: leaf } => leaf == name || leaf == "self"@ && parent == name,
        ImportTreeModel::Rename { name: leaf, alias } => alias == name,
        ImportTreeModel::Glob => false,
        ImportTreeModel::Group { trees } => any_binds(trees, parent, name),
    }
}

/// Whether one of `trees`, which stand right under the path segment `parent`, gives a
/// module the name `name`.
pub open spec fn any_binds(
    trees: Seq<ImportTreeModel>,
    parent: Seq<char>,
    name: Seq<char>,
) -> bool
    decreases trees,
{
    trees.len() > 0 && (any_binds(trees.drop_last(), parent, name) || binds(
        trees.last(),
        parent,
        name,
    ))
}

/// The file that the first leaf of `tree` which brings `wanted` into scope imports
/// it from.
pub open spec fn named_file(
    answers: AnswersModel,
    tree: ImportTreeModel,
    prefix: Seq<Seq<char>>,
    wanted: Seq<char>,
    current: PathModel,
) -> Step<Option<PathModel>, QuestionModel> {
    match imported_from(answers, tree, prefix, wanted, current) {
        Step::Done(Some((file, name))) => Step::Done(Some(file)),
        Step::Done(None) => Step::Done(None),
        Step::Ask(question) => Step::Ask(question),
    }
}

/// The `src` directory of the crate that `file` belongs to: that of the innermost
/// directory around `file` that holds a `Cargo.toml`.
pub fn find_crate_src_dir(answers: &Answers, file: &FilePath) -> (r: Step<
    Option<FilePath>,
    Question,
>)
    ensures
        r.deep_view() == crate_src_dir(answers@, file@),
{
    let mut dir = match file.parent() {
        Some(dir) => dir,
        None => {
            return Step::Done(None);
        },
    };
    loop
        invariant
            crate_src_dir(answers@, file@) == src_dir_from(answers@, dir@),
        decreases dir@.parts.len(),
    {
        match answers.is_file(&dir.join("Cargo.toml")) {
            Step::Ask(question) => {
                return Step::Ask(question);
            },
            Step::Done(true) => {
                return Step::Done(Some(dir.join("src")));
            },
            Step::Done(false) => {},
        }
        match dir.parent() {
            Some(outer) => {
                dir = outer;
            },
            None => {
                return Step::Done(None);
            },
        }
    }
}

/// The file of the module at `p`, which is either `p.rs` or `p/mod.rs`.
pub fn try_module_file(answers: &Answers, p: &FilePath) -> (r: Step<FilePath, Question>)
    ensures
        r.deep_view() == module_file(answers@, p@),
{
    let as_rs = p.with_extension("rs");
    match answers.is_file(&as_rs) {
        Step::Ask(question) => {
            return Step::Ask(question);
        },
        Step::Done(true) => {
            return Step::Done(as_rs);
        },
        Step::Done(false) => {},
    }
    let mod_rs = p.join("mod.rs");
    match answers.is_file(&mod_rs) {
        Step::Ask(question) => Step::Ask(question),
        Step::Done(true) => Step::Done(mod_rs),
        Step::Done(false) => Step::Done(as_rs),
    }
}

/// The file of the module at `p`, as a result that may be missing.
fn try_base(answers: &Answers, p: &FilePath) -> (r: Step<Option<FilePath>, Question>)
    ensures
        r.deep_view() == (match module_file(answers@, p@) {
            Step::Ask(question) => Step::Ask(question),
            Step::Done(file) => Step::Done(Some(file)),
        }),
{
    match try_module_file(answers, p) {
        Step::Ask(question) => Step::Ask(question),
        Step::Done(file) => Step::Done(Some(file)),
    }
}

/// The file of the module that `path` names in the file `current_file`.
///
/// - `crate::...` is relative to the crate's `src` directory.
/// - `self::...` is relative to the directory of the current file.
/// - `super::...` is relative to the directory of the current file, too, and each
///   further leading `super` goes one level up from there.
/// - Any other path names something in another crate, which gives no file.
pub fn resolve_path_to_file(answers: &Answers, path: &[String], current_file: &FilePath) -> (r: Step<
    Option<FilePath>,
    Question,
>)
    ensures
        r.deep_view() == resolved_path(answers@, texts(path@), current_file@),
{
    if path.len() == 0 {
        return Step::Done(None);
    }
    let first = path[0].as_str();
    assert(first@ == texts(path@)[0]);
    if same_text(first, "crate") {
        match find_crate_src_dir(answers, current_file) {
            Step::Ask(question) => Step::Ask(question),
            Step::Done(None) => Step::Done(None),
            Step::Done(Some(src_dir)) => try_base(answers, &src_dir.join_from(path, 1)),
        }
    } else if same_text(first, "self") {
        match current_file.parent() {
            None => Step::Done(None),
            Some(dir) => try_base(answers, &dir.join_from(path, 1)),
        }
    } else if same_text(first, "super") {
        let mut p = match current_file.parent() {
            None => {
                return Step::Done(None);
            },
            Some(dir) => dir,
        };
        let mut i: usize = 1;
        proof {
            assert(texts(path@).skip(1) =~= texts(path@).drop_first());
            assert(p@.parts =~= current_file@.up(1)->0.parts);
        }
        while i < path.len() && same_text(path[i].as_str(), "super")
            invariant
                1 <= i <= path@.len(),
                texts(path@)[0] != "crate"@,
                texts(path@)[0] != "self"@,
                texts(path@)[0] == "super"@,
                leading_supers(texts(path@)) == i + leading_supers(texts(path@).skip(i as int)),
                current_file@.up(i as nat) == Some(p@),
            decreases path@.len() - i,
        {
            assert(texts(path@).skip(i as int).drop_first() =~= texts(path@).skip(i + 1));
            match p.parent() {
                None => {
                    return Step::Done(None);
                },
                Some(outer) => {
                    assert(outer@.parts =~= current_file@.up(1 + i as nat)->0.parts);
                    p = outer;
                },
            }
            i += 1;
        }
        assert(leading_supers(texts(path@).skip(i as int)) == 0);
        try_base(answers, &p.join_from(path, i))
    } else {
        Step::Done(None)
    }
}

/// Adds to `results` the file that `path` names, if it names one and that is there.
fn push_existing(
    answers: &Answers,
    path: &[String],
    current_file: &FilePath,
    results: &mut Vec<FilePath>,
) -> (r: Step<(), Question>)
    ensures
        collected(
            *old(results),
            *final(results),
            r,
            existing_file(answers@, texts(path@), current_file@),
        ),
{
    match resolve_path_to_file(answers, path, current_file) {
        Step::Ask(question) => {
            return Step::Ask(question);
        },
        Step::Done(None) => {},
        Step::Done(Some(file)) => {
            match answers.is_file(&file) {
                Step::Ask(question) => {
                    return Step::Ask(question);
                },
                Step::Done(true) => {
                    results.push(file);
                },
                Step::Done(false) => {},
            }
        },
    }
    assert(paths(results@) =~= paths(old(results)@) + existing_file(
        answers@,
        texts(path@),
        current_file@,
    ).files);
    Step::Done(())
}

/// Adds to `results` the file that may define `name`, imported from `prefix`.
fn push_leaf(
    answers: &Answers,
    prefix: &[String],
    name: &str,
    current_file: &FilePath,
    results: &mut Vec<FilePath>,
) -> (r: Step<(), Question>)
    ensures
        collected(
            *old(results),
            *final(results),
            r,
            leaf_files(answers@, texts(prefix@), name@, current_file@),
        ),
{
    let full_path = extended(prefix, name);
    let count: usize = results.len();
    match push_existing(answers, full_path.as_slice(), current_file, results) {
        Step::Ask(question) => {
            return Step::Ask(question);
        },
        Step::Done(_) => {},
    }
    let ghost whole = existing_file(answers@, texts(prefix@).push(name@), current_file@);
    assert(paths(results@).len() == results@.len());
    assert(paths(old(results)@).len() == old(results)@.len());
    if results.len() == count && prefix.len() > 0 {
        assert(whole.files =~= Harvest::nothing().files);
        assert(paths(results@) =~= paths(old(results)@));
        push_existing(answers, prefix, current_file, results)
    } else {
        Step::Done(())
    }
}

/// `prefix` with `name` behind it.
fn extended(prefix: &[String], name: &str) -> (r: Vec<String>)
    ensures
        texts(r@) == texts(prefix@).push(name@),
{
    let mut r = copy_texts(prefix);
    let last = name.to_owned();
    proof {
        lemma_texts_push(r@, last);
    }
    r.push(last);
    r
}

/// Adds to `results` the files that may define what `tree` imports, where `prefix`
/// stands before it: for each leaf the file of the module that the whole path
/// names, or else that of the module that the path up to the leaf names, if one of
/// them is there. A glob adds nothing. Stops at the first open question.
pub fn collect_from_tree(
    answers: &Answers,
    tree: &ImportTree,
    prefix: &[String],
    current_file: &FilePath,
    results: &mut Vec<FilePath>,
) -> (r: Step<(), Question>)
    ensures
        collected(
            *old(results),
            *final(results),
            r,
            tree_files(answers@, tree@, texts(prefix@), current_file@),
        ),
    decreases tree@,
{
    match tree {
        ImportTree::Path { name, tree: inner } => {
            assert(decreases_to!(tree@ => tree@->Path_tree));
            let new_prefix = extended(prefix, name.as_str());
            collect_from_tree(answers, inner, new_prefix.as_slice(), current_file, results)
        },
        ImportTree::Name { name } => push_leaf(answers, prefix, name.as_str(), current_file, results),
        ImportTree::Rename { name, alias: _ } => push_leaf(
            answers,
            prefix,
            name.as_str(),
            current_file,
            results,
        ),
        ImportTree::Glob => {
            assert(paths(results@) =~= paths(old(results)@) + Harvest::nothing().files);
            Step::Done(())
        },
        ImportTree::Group { trees } => {
            let ghost before = *results;
            let ghost models = import_tree_models(trees@);
            let ghost first = group_files(answers@, models.take(0), texts(prefix@), current_file@);
            assert(paths(results@) =~= paths(before@) + first.files);
            let mut i: usize = 0;
            while i < trees.len()
                invariant
                    i <= trees@.len(),
                    tree@ == (ImportTreeModel::Group { trees: models }),
                    models == import_tree_models(trees@),
                    before == *old(results),
                    paths(results@) == paths(before@) + group_files(
                        answers@,
                        models.take(i as int),
                        texts(prefix@),
                        current_file@,
                    ).files,
                    group_files(
                        answers@,
                        models.take(i as int),
                        texts(prefix@),
                        current_file@,
                    ).open is None,
                decreases trees@.len() - i,
            {
                assert(decreases_to!(tree@ => tree@->trees));
                assert(decreases_to!(models => models[i as int]));
                let ghost done = group_files(
                    answers@,
                    models.take(i as int),
                    texts(prefix@),
                    current_file@,
                );
                let ghost more = tree_files(
                    answers@,
                    models[i as int],
                    texts(prefix@),
                    current_file@,
                );
                assert(models.take(i + 1).drop_last() =~= models.take(i as int));
                let step = collect_from_tree(answers, &trees[i], prefix, current_file, results);
                assert(paths(results@) =~= paths(before@) + (done.files + more.files));
                match step {
                    Step::Ask(question) => {
                        proof {
                            lemma_group_stops(
                                answers@,
                                models,
                                texts(prefix@),
                                current_file@,
                                i + 1,
                            );
                        }
                        return Step::Ask(question);
                    },
                    Step::Done(_) => {},
                }
                i += 1;
            }
            assert(models.take(i as int) =~= models);
            Step::Done(())
        },
    }
}

/// Once a question is open, the trees that follow add nothing.
proof fn lemma_group_stops(
    answers: AnswersModel,
    trees: Seq<ImportTreeModel>,
    prefix: Seq<Seq<char>>,
    current: PathModel,
    n: int,
)
    requires
        0 <= n <= trees.len(),
        group_files(answers, trees.take(n), prefix, current).open is Some,
    ensures
        group_files(answers, trees, prefix, current) == group_files(
            answers,
            trees.take(n),
            prefix,
            current,
        ),
    decreases trees.len(),
{
    if n == trees.len() {
        assert(trees.take(n) =~= trees);
    } else {
        assert(trees.drop_last().take(n) =~= trees.take(n));
        lemma_group_stops(answers, trees.drop_last(), prefix, current, n);
    }
}

/// The files that may define what a `use` declaration imports.
pub fn collect_resolved_files(answers: &Answers, tree: &ImportTree, current_file: &FilePath) -> (r:
    Step<Vec<FilePath>, Question>)
    ensures
        ({
            let harvest = tree_files(answers@, tree@, Seq::empty(), current_file@);
            match r {
                Step::Done(files) => harvest.open is None && paths(files@) == harvest.files,
                Step::Ask(question) => harvest.open == Some(question.deep_view()),
            }
        }),
{
    let mut results: Vec<FilePath> = Vec::new();
    let prefix: Vec<String> = Vec::new();
    assert(texts(prefix@) =~= Seq::empty());
    let ghost before = paths(results@);
    match collect_from_tree(answers, tree, prefix.as_slice(), current_file, &mut results) {
        Step::Ask(question) => Step::Ask(question),
        Step::Done(_) => {
            assert(paths(results@) =~= tree_files(
                answers@,
                tree@,
                Seq::empty(),
                current_file@,
            ).files);
            Step::Done(results)
        },
    }
}

/// A resolved file, if there is one, with the name that is defined there.
fn and_name(step: Step<Option<FilePath>, Question>, name: &str) -> (r: Step<
    Option<(FilePath, String)>,
    Question,
>)
    ensures
        r.deep_view() == with_name(step.deep_view(), name@),
{
    match step {
        Step::Done(Some(file)) => Step::Done(Some((file, name.to_owned()))),
        Step::Done(None) => Step::Done(None),
        Step::Ask(question) => Step::Ask(question),
    }
}

/// Where the first leaf of `tree` that brings `wanted` into scope imports it from,
/// where `prefix` stands before the tree: the file of the module, and the name that
/// `wanted` has there.
pub fn resolve_import(
    answers: &Answers,
    tree: &ImportTree,
    prefix: &[String],
    wanted: &str,
    current_file: &FilePath,
) -> (r: Step<Option<(FilePath, String)>, Question>)
    ensures
        r.deep_view() == imported_from(answers@, tree@, texts(prefix@), wanted@, current_file@),
    decreases tree@,
{
    match tree {
        ImportTree::Path { name, tree: inner } => {
            assert(decreases_to!(tree@ => tree@->Path_tree));
            let new_prefix = extended(prefix, name.as_str());
            resolve_import(answers, inner, new_prefix.as_slice(), wanted, current_file)
        },
        ImportTree::Name { name } => {
            if same_text(name.as_str(), wanted) {
                and_name(resolve_path_to_file(answers, prefix, current_file), name.as_str())
            } else {
                Step::Done(None)
            }
        },
        ImportTree::Rename { name, alias } => {
            if same_text(alias.as_str(), wanted) {
                and_name(resolve_path_to_file(answers, prefix, current_file), name.as_str())
            } else {
                Step::Done(None)
            }
        },
        ImportTree::Glob => Step::Done(None),
        ImportTree::Group { trees } => {
            let ghost models = import_tree_models(trees@);
            let mut i: usize = 0;
            assert(models.skip(0) =~= models);
            while i < trees.len()
                invariant
                    i <= trees@.len(),
                    tree@ == (ImportTreeModel::Group { trees: models }),
                    models == import_tree_models(trees@),
                    imported_from(answers@, tree@, texts(prefix@), wanted@, current_file@)
                        == first_imported_from(
                        answers@,
                        models.skip(i as int),
                        texts(prefix@),
                        wanted@,
                        current_file@,
                    ),
                decreases trees@.len() - i,
            {
                assert(decreases_to!(tree@ => tree@->trees));
                assert(decreases_to!(models => models[i as int]));
                assert(models.skip(i as int).drop_first() =~= models.skip(i + 1));
                match resolve_import(answers, &trees[i], prefix, wanted, current_file) {
                    Step::Done(None) => {},
                    found => {
                        return found;
                    },
                }
                i += 1;
            }
            Step::Done(None)
        },
    }
}

/// Whether an import, which stands right under the path segment `parent`, gives a
/// module the name `name`.
pub(crate) fn tree_binds(tree: &ImportTree, parent: &str, name: &str) -> (r: bool)
    ensures
        r == binds(tree@, parent@, name@),
    decreases tree@,
{
    match tree {
        ImportTree::Path { name: segment, tree: inner } => {
            assert(decreases_to!(tree@ => tree@->Path_tree));
            tree_binds(inner, segment.as_str(), name)
        },
        ImportTree::Name { name: leaf } => {
            same_text(leaf.as_str(), name) || same_text(leaf.as_str(), "self") && same_text(
                parent,
                name,
            )
        },
        ImportTree::Rename { name: _, alias } => same_text(alias.as_str(), name),
        ImportTree::Glob => false,
        ImportTree::Group { trees } => {
            let ghost models = import_tree_models(trees@);
            let mut r: bool = false;
            let mut i: usize = 0;
            while i < trees.len()
                invariant
                    i <= trees@.len(),
                    tree@ == (ImportTreeModel::Group { trees: models }),
                    models == import_tree_models(trees@),
                    r == any_binds(models.take(i as int), parent@, name@),
                decreases trees@.len() - i,
            {
                assert(decreases_to!(tree@ => tree@->trees));
                assert(decreases_to!(models => models[i as int]));
                assert(models.take(i + 1).drop_last() =~= models.take(i as int));
                assert(models.take(i + 1).last() == models[i as int]);
                if tree_binds(&trees[i], parent, name) {
                    r = true;
                }
                assert(r == any_binds(models.take(i + 1), parent@, name@));
                i += 1;
            }
            assert(models.take(i as int) =~= models);
            r
        },
    }
}

/// The file that the first leaf of `tree` which brings `wanted` into scope imports
/// it from, where `prefix` stands before the tree.
pub fn resolve_tree(
    answers: &Answers,
    tree: &ImportTree,
    prefix: &[String],
    wanted: &str,
    current_file: &FilePath,
) -> (r: Step<Option<FilePath>, Question>)
    ensures
        r.deep_view() == named_file(answers@, tree@, texts(prefix@), wanted@, current_file@),
{
    match resolve_import(answers, tree, prefix, wanted, current_file) {
        Step::Done(Some((file, _))) => Step::Done(Some(file)),
        Step::Done(None) => Step::Done(None),
        Step::Ask(question) => Step::Ask(question),
    }
}

/// The file that a `use` declaration imports `wanted` from, if it brings that name
/// into scope.
pub fn resolve_use_for_type(
    answers: &Answers,
    tree: &ImportTree,
    wanted: &str,
    current_file: &FilePath,
) -> (r: Step<Option<FilePath>, Question>)
    ensures
        r.deep_view() == named_file(answers@, tree@, Seq::empty(), wanted@, current_file@),
{
    let prefix: Vec<String> = Vec::new();
    assert(texts(prefix@) =~= Seq::empty());
    resolve_tree(answers, tree, prefix.as_slice(), wanted, current_file)
}

} // verus!
