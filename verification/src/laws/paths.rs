//! What holds of paths, whatever they are made of.
use vstd::prelude::*;

use crate::answers::{AnswersModel, Step};
use crate::path::{joined, last_dot, PathModel};
use crate::resolve::module_file;

verus! {

/// Taking the last component away undoes joining one, and what was joined is the last.
pub proof fn law_parent_undoes_join(path: PathModel, name: Seq<char>)
    ensures
        path.join(name).parent() == Some(path),
        path.join(name).parts.len() == path.parts.len() + 1,
        path.join(name).parts[path.parts.len() as int] == name,
        path.join(name).anchor == path.anchor,
        path.parent() is None <==> path.parts.len() == 0,
{
    assert(path.join(name).parts.drop_last() =~= path.parts);
}

/// Joining several components is joining them one after the other.
pub proof fn law_join_all_is_join_by_join(path: PathModel, names: Seq<Seq<char>>, name: Seq<char>)
    ensures
        path.join_all(Seq::empty()) == path,
        path.join_all(names.push(name)) == path.join_all(names).join(name),
{
    assert(path.parts + Seq::empty() =~= path.parts);
    assert(path.parts + names.push(name) =~= (path.parts + names).push(name));
}

/// Going up several levels is taking the last component away as many times.
pub proof fn law_up_is_parent_by_parent(path: PathModel, levels: nat)
    ensures
        path.up(0) == Some(path),
        path.up(levels + 1) == (match path.up(levels) {
            Some(outer) => outer.parent(),
            None => None,
        }),
{
    assert(path.parts.take(path.parts.len() as int) =~= path.parts);
    if levels < path.parts.len() {
        assert(path.parts.take(path.parts.len() - levels).drop_last() =~= path.parts.take(
            path.parts.len() - levels - 1,
        ));
    }
}

/// The text of a path grows by `/` and the component that is joined; the first
/// component stands right behind the anchor.
pub proof fn law_display_grows_by_the_component(path: PathModel, name: Seq<char>)
    ensures
        path.parts.len() == 0 ==> path.display() == path.anchor,
        path.parts.len() == 0 ==> path.join(name).display() == path.anchor + name,
        path.parts.len() > 0 ==> path.join(name).display() == path.display() + "/"@ + name,
{
    reveal_strlit("/");
    assert("/"@ =~= seq!['/']);
    let parts = path.parts.push(name);
    assert(parts.drop_last() =~= path.parts);
    if path.parts.len() == 0 {
        assert(path.display() =~= path.anchor);
        assert(parts[0] == name);
    } else {
        assert(path.join(name).display() =~= path.display() + "/"@ + name);
    }
}

/// Whether a text is a component as it stands in a path: not empty, and without `/`.
pub open spec fn is_component(name: Seq<char>) -> bool {
    name.len() > 0 && forall|i: int| 0 <= i < name.len() ==> #[trigger] name[i] != '/'
}

proof fn lemma_joined_nonempty(parts: Seq<Seq<char>>)
    requires
        parts.len() > 0,
        forall|i: int| 0 <= i < parts.len() ==> is_component(#[trigger] parts[i]),
    ensures
        joined(parts).len() > 0,
{
    assert(is_component(parts[0]));
    assert(is_component(parts.last()));
}

proof fn lemma_joined_apart(a: Seq<Seq<char>>, b: Seq<Seq<char>>)
    requires
        forall|i: int| 0 <= i < a.len() ==> is_component(#[trigger] a[i]),
        forall|i: int| 0 <= i < b.len() ==> is_component(#[trigger] b[i]),
        joined(a) == joined(b),
    ensures
        a == b,
    decreases a.len(),
{
    if a.len() == 0 {
        if b.len() > 0 {
            lemma_joined_nonempty(b);
        }
        assert(a =~= b);
    } else if b.len() == 0 {
        lemma_joined_nonempty(a);
    } else {
        let text = joined(a);
        let x = a.last();
        let y = b.last();
        assert(is_component(x) && is_component(y));
        assert(text.skip(text.len() - x.len()) =~= x);
        assert(text.skip(text.len() - y.len()) =~= y);
        if a.len() > 1 {
            assert(text[text.len() - x.len() - 1] == '/');
        }
        if b.len() > 1 {
            assert(text[text.len() - y.len() - 1] == '/');
        }
        if x.len() < y.len() {
            assert(y[y.len() - x.len() - 1] == text[text.len() - x.len() - 1]);
            assert(a.len() > 1);
            assert(false);
        }
        if y.len() < x.len() {
            assert(x[x.len() - y.len() - 1] == text[text.len() - y.len() - 1]);
            assert(b.len() > 1);
            assert(false);
        }
        assert(x == y);
        if a.len() == 1 {
            if b.len() > 1 {
                assert(text.len() > y.len());
            }
            assert(a =~= b);
        } else {
            assert(b.len() > 1) by {
                if b.len() == 1 {
                    assert(text.len() == y.len());
                }
            }
            assert(text.take(text.len() - x.len() - 1) =~= joined(a.drop_last()));
            assert(text.take(text.len() - x.len() - 1) =~= joined(b.drop_last()));
            lemma_joined_apart(a.drop_last(), b.drop_last());
            assert(a =~= a.drop_last().push(x));
            assert(b =~= b.drop_last().push(y));
        }
    }
}

/// Paths with the same anchor have the same text only if they are the same.
pub proof fn law_display_tells_paths_apart(a: PathModel, b: PathModel)
    requires
        a.anchor == b.anchor,
        forall|i: int| 0 <= i < a.parts.len() ==> is_component(#[trigger] a.parts[i]),
        forall|i: int| 0 <= i < b.parts.len() ==> is_component(#[trigger] b.parts[i]),
        a.display() == b.display(),
    ensures
        a == b,
{
    let text = a.display();
    assert(text.skip(a.anchor.len() as int) =~= joined(a.parts));
    assert(text.skip(a.anchor.len() as int) =~= joined(b.parts));
    lemma_joined_apart(a.parts, b.parts);
}

/// Whether a text has no `.`.
pub open spec fn is_dotless(name: Seq<char>) -> bool {
    forall|i: int| 0 <= i < name.len() ==> #[trigger] name[i] != '.'
}

proof fn lemma_no_dot(name: Seq<char>)
    requires
        is_dotless(name),
    ensures
        last_dot(name) == -1,
    decreases name.len(),
{
    if name.len() > 0 {
        assert(name[name.len() - 1] != '.');
        assert forall|i: int| 0 <= i < name.drop_last().len() implies #[trigger] name.drop_last()[i]
            != '.' by {
            assert(name[i] != '.');
        }
        lemma_no_dot(name.drop_last());
    }
}

proof fn lemma_dot_before(front: Seq<char>, end: Seq<char>)
    requires
        is_dotless(end),
    ensures
        last_dot(front + seq!['.'] + end) == front.len(),
    decreases end.len(),
{
    let name = front + seq!['.'] + end;
    if end.len() == 0 {
        assert(name.last() == '.');
    } else {
        assert(end[end.len() - 1] != '.');
        assert(name.last() == end.last());
        assert(name.drop_last() =~= front + seq!['.'] + end.drop_last());
        assert forall|i: int| 0 <= i < end.drop_last().len() implies #[trigger] end.drop_last()[i]
            != '.' by {
            assert(end[i] != '.');
        }
        lemma_dot_before(front, end.drop_last());
    }
}

/// A file name without `.` gets the extension behind it; one with an extension gets
/// the new one in its place. The rest of the path stays.
pub proof fn law_extension_is_what_stands_behind_the_last_dot(
    dir: PathModel,
    front: Seq<char>,
    old_extension: Seq<char>,
    extension: Seq<char>,
)
    requires
        front.len() > 0,
        is_dotless(old_extension),
        extension.len() > 0,
    ensures
        is_dotless(front) ==> dir.join(front).with_extension(extension) == dir.join(
            front + "."@ + extension,
        ),
        front != "."@ ==> dir.join(front + "."@ + old_extension).with_extension(extension)
            == dir.join(front + "."@ + extension),
{
    reveal_strlit(".");
    assert("."@ =~= seq!['.']);
    let made = front + "."@ + extension;
    if is_dotless(front) {
        lemma_no_dot(front);
        assert(front[0] != '.');
        assert(dir.join(front).parts.drop_last().push(made) =~= dir.parts.push(made));
    }
    if front != "."@ {
        let name = front + "."@ + old_extension;
        lemma_dot_before(front, old_extension);
        assert(name.take(front.len() as int) =~= front);
        assert(name != seq!['.']);
        if name == seq!['.', '.'] {
            assert(front[0] == name[0]);
            assert(front.len() == 1);
            assert(front =~= seq!['.']);
        }
        assert(dir.join(name).parts.drop_last().push(made) =~= dir.parts.push(made));
    }
}

/// A `.` in front is no extension, and neither `.` nor `..` is a file name; an extension
/// that is taken away leaves what stands before its dot.
pub proof fn law_leading_dot_is_no_extension(
    dir: PathModel,
    front: Seq<char>,
    name: Seq<char>,
    extension: Seq<char>,
)
    requires
        front.len() > 0,
        name.len() > 0,
        is_dotless(name),
        extension.len() > 0,
    ensures
        dir.join("."@ + name).with_extension(extension) == dir.join(
            "."@ + name + "."@ + extension,
        ),
        dir.join("."@).with_extension(extension) == dir.join("."@),
        dir.join(".."@).with_extension(extension) == dir.join(".."@),
        dir.parts.len() == 0 ==> dir.with_extension(extension) == dir,
        front != "."@ ==> dir.join(front + "."@ + name).with_extension(Seq::empty()) == dir.join(
            front,
        ),
{
    reveal_strlit(".");
    reveal_strlit("..");
    assert("."@ =~= seq!['.']);
    assert(".."@ =~= seq!['.', '.']);
    let none = Seq::<char>::empty();
    let hidden = "."@ + name;
    lemma_dot_before(none, name);
    assert(none + seq!['.'] + name =~= hidden);
    assert(name[0] != '.');
    assert(hidden[1] != '.');
    let made = hidden + "."@ + extension;
    assert(dir.join(hidden).parts.drop_last().push(made) =~= dir.parts.push(made));
    let full = front + "."@ + name;
    lemma_dot_before(front, name);
    assert(full.take(front.len() as int) =~= front);
    assert(full.len() > 2);
    assert(dir.join(full).parts.drop_last().push(front) =~= dir.parts.push(front));
}

/// The module `name` of a directory is in `name.rs` there, or else in `name/mod.rs`.
/// The first of the two that there is a file at is the file of the module, and
/// `name.rs` stands for it where there is neither. The two are asked for in turn.
pub proof fn law_module_is_in_its_file(answers: AnswersModel, dir: PathModel, name: Seq<char>)
    requires
        name.len() > 0,
        is_dotless(name),
    ensures
        ({
            let flat = dir.join(name + ".rs"@);
            let nested = dir.join(name).join("mod.rs"@);
            module_file(answers, dir.join(name)) == (match answers.is_file(flat) {
                Step::Ask(question) => Step::Ask(question),
                Step::Done(true) => Step::Done(flat),
                Step::Done(false) => match answers.is_file(nested) {
                    Step::Ask(question) => Step::Ask(question),
                    Step::Done(there) => Step::Done(
                        if there {
                            nested
                        } else {
                            flat
                        },
                    ),
                },
            })
        }),
{
    reveal_strlit(".");
    reveal_strlit("rs");
    reveal_strlit(".rs");
    assert("."@ + "rs"@ =~= ".rs"@);
    assert(name + "."@ + "rs"@ =~= name + ".rs"@);
    law_extension_is_what_stands_behind_the_last_dot(dir, name, Seq::empty(), "rs"@);
}

} // verus!
