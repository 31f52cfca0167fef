//! File paths as sequences of components.
//!
//! A path is its anchor (what stands before the first component: the root, or
//! nothing for a relative path) and the components after it. This is the
//! decomposition that `std::path::Path::components` gives, and the operations
//! below are those of `std::path` on it. What is joined to a path is a single
//! component: a file name, or an identifier.
use vstd::prelude::*;

verus! {

/// A file path, taken apart into components.
#[derive(Debug, PartialEq, Eq)]
pub struct FilePath {
    /// What stands before the first component: `/` for an absolute path, empty for a relative one.
    pub anchor: String,
    /// The components, outermost first; `.` and `..` stand for themselves.
    pub parts: Vec<String>,
}

/// The value of a [`FilePath`].
pub struct PathModel {
    pub anchor: Seq<char>,
    pub parts: Seq<Seq<char>>,
}

/// The texts of a sequence of strings.
pub open spec fn texts(strings: Seq<String>) -> Seq<Seq<char>> {
    strings.map_values(|s: String| s@)
}

/// Pushing a string pushes its text.
pub(crate) proof fn lemma_texts_push(strings: Seq<String>, s: String)
    ensures
        texts(strings.push(s)) == texts(strings).push(s@),
{
    assert(texts(strings.push(s)) =~= texts(strings).push(s@));
}

/// The position of the last `.` of `name`, or -1 where it has none.
pub open spec fn last_dot(name: Seq<char>) -> int
    decreases name.len(),
{
    if name.len() == 0 {
        -1
    } else if name.last() == '.' {
        name.len() - 1
    } else {
        last_dot(name.drop_last())
    }
}

/// The part of a file name before its extension: all of it, where it has no `.`
/// or only a leading one.
pub open spec fn file_stem(name: Seq<char>) -> Seq<char> {
    if last_dot(name) > 0 {
        name.take(last_dot(name))
    } else {
        name
    }
}

/// The components one after the other, with a `/` between neighbours.
pub open spec fn joined(parts: Seq<Seq<char>>) -> Seq<char>
    decreases parts.len(),
{
    if parts.len() == 0 {
        Seq::empty()
    } else if parts.len() == 1 {
        parts[0]
    } else {
        joined(parts.drop_last()) + seq!['/'] + parts.last()
    }
}

impl PathModel {
    /// The path without its last component, where it has one.
    pub open spec fn parent(self) -> Option<PathModel> {
        if self.parts.len() == 0 {
            None
        } else {
            Some(PathModel { anchor: self.anchor, parts: self.parts.drop_last() })
        }
    }

    /// The path with one more component.
    pub open spec fn join(self, name: Seq<char>) -> PathModel {
        PathModel { anchor: self.anchor, parts: self.parts.push(name) }
    }

    /// The path with several more components.
    pub open spec fn join_all(self, names: Seq<Seq<char>>) -> PathModel {
        PathModel { anchor: self.anchor, parts: self.parts + names }
    }

    /// The path without its last `levels` components, where it has that many.
    pub open spec fn up(self, levels: nat) -> Option<PathModel> {
        if levels <= self.parts.len() {
            Some(
                PathModel {
                    anchor: self.anchor,
                    parts: self.parts.take(self.parts.len() - levels),
                },
            )
        } else {
            None
        }
    }

    /// Whether the path ends in a name, not in `.`, `..`, or its anchor.
    pub open spec fn has_file_name(self) -> bool {
        &&& self.parts.len() > 0
        &&& self.parts.last() != seq!['.']
        &&& self.parts.last() != seq!['.', '.']
    }

    /// The path with the extension of its file name replaced by `extension`, or
    /// taken away where that is empty; the path itself, where it has no file name.
    pub open spec fn with_extension(self, extension: Seq<char>) -> PathModel {
        if self.has_file_name() {
            PathModel {
                anchor: self.anchor,
                parts: self.parts.drop_last().push(
                    if extension.len() == 0 {
                        file_stem(self.parts.last())
                    } else {
                        file_stem(self.parts.last()) + seq!['.'] + extension
                    },
                ),
            }
        } else {
            self
        }
    }

    /// The path as text.
    pub open spec fn display(self) -> Seq<char> {
        self.anchor + joined(self.parts)
    }
}

impl View for FilePath {
    type V = PathModel;

    open spec fn view(&self) -> PathModel {
        PathModel { anchor: self.anchor@, parts: texts(self.parts@) }
    }
}

impl DeepView for FilePath {
    type V = PathModel;

    open spec fn deep_view(&self) -> PathModel {
        self@
    }
}

/// Whether two strings hold the same text.
pub(crate) fn same_text(a: &str, b: &str) -> (r: bool)
    ensures
        r == (a@ == b@),
{
    a.to_owned() == b.to_owned()
}

/// A copy of a list of strings.
pub(crate) fn copy_texts(strings: &[String]) -> (r: Vec<String>)
    ensures
        texts(r@) == texts(strings@),
{
    let mut r: Vec<String> = Vec::new();
    let mut i: usize = 0;
    while i < strings.len()
        invariant
            i <= strings@.len(),
            texts(r@) == texts(strings@).take(i as int),
        decreases strings@.len() - i,
    {
        let copy = strings[i].as_str().to_owned();
        proof {
            lemma_texts_push(r@, copy);
        }
        r.push(copy);
        i += 1;
        assert(texts(r@) =~= texts(strings@).take(i as int));
    }
    assert(texts(strings@).take(i as int) =~= texts(strings@));
    r
}

impl FilePath {
    /// The path made of an anchor and components.
    pub fn new(anchor: String, parts: Vec<String>) -> (r: FilePath)
        ensures
            r@ == (PathModel { anchor: anchor@, parts: texts(parts@) }),
    {
        FilePath { anchor, parts }
    }

    /// A copy of the path.
    pub fn duplicate(&self) -> (r: FilePath)
        ensures
            r@ == self@,
    {
        FilePath { anchor: self.anchor.as_str().to_owned(), parts: copy_texts(self.parts.as_slice()) }
    }

    /// Whether the two paths have the same anchor and the same components.
    pub fn same(&self, other: &FilePath) -> (r: bool)
        ensures
            r == (self@ == other@),
    {
        if self.anchor != other.anchor || self.parts.len() != other.parts.len() {
            assert(texts(self.parts@).len() == self.parts@.len());
            assert(texts(other.parts@).len() == other.parts@.len());
            return false;
        }
        let mut i: usize = 0;
        while i < self.parts.len()
            invariant
                i <= self.parts@.len(),
                self.parts@.len() == other.parts@.len(),
                forall|j: int| 0 <= j < i ==> texts(self.parts@)[j] == texts(other.parts@)[j],
            decreases self.parts@.len() - i,
        {
            if self.parts[i] != other.parts[i] {
                assert(texts(self.parts@)[i as int] != texts(other.parts@)[i as int]);
                return false;
            }
            i += 1;
        }
        assert(texts(self.parts@) =~= texts(other.parts@));
        true
    }

    /// Whether the path is the empty path.
    pub fn is_empty(&self) -> (r: bool)
        ensures
            r == (self@.anchor.len() == 0 && self@.parts.len() == 0),
    {
        self.anchor.as_str().is_empty() && self.parts.len() == 0
    }

    /// The path without its last component, where it has one.
    pub fn parent(&self) -> (r: Option<FilePath>)
        ensures
            r is Some == self@.parent() is Some,
            r matches Some(p) ==> self@.parent() == Some(p@),
    {
        if self.parts.len() == 0 {
            return None;
        }
        let mut parts = copy_texts(self.parts.as_slice());
        assert(texts(parts@).len() == parts@.len());
        assert(texts(self.parts@).len() == self.parts@.len());
        let _ = parts.pop();
        assert(texts(parts@) =~= texts(self.parts@).drop_last());
        Some(FilePath { anchor: self.anchor.as_str().to_owned(), parts })
    }

    /// The path with one more component.
    pub fn join(&self, name: &str) -> (r: FilePath)
        ensures
            r@ == self@.join(name@),
    {
        let mut parts = copy_texts(self.parts.as_slice());
        parts.push(name.to_owned());
        assert(texts(parts@) =~= texts(self.parts@).push(name@));
        FilePath { anchor: self.anchor.as_str().to_owned(), parts }
    }

    /// The path with the components `names[from..]` added.
    pub fn join_from(&self, names: &[String], from: usize) -> (r: FilePath)
        requires
            from <= names@.len(),
        ensures
            r@ == self@.join_all(texts(names@).skip(from as int)),
    {
        let mut parts = copy_texts(self.parts.as_slice());
        let mut i: usize = from;
        assert(texts(parts@) =~= texts(self.parts@) + texts(names@).subrange(from as int, i as int));
        while i < names.len()
            invariant
                from <= i <= names@.len(),
                texts(parts@) == texts(self.parts@) + texts(names@).subrange(from as int, i as int),
            decreases names@.len() - i,
        {
            let copy = names[i].as_str().to_owned();
            proof {
                lemma_texts_push(parts@, copy);
            }
            parts.push(copy);
            i += 1;
            assert(texts(parts@) =~= texts(self.parts@) + texts(names@).subrange(
                from as int,
                i as int,
            ));
        }
        assert(texts(names@).subrange(from as int, i as int) =~= texts(names@).skip(from as int));
        FilePath { anchor: self.anchor.as_str().to_owned(), parts }
    }

    /// The path with the extension of its file name replaced by `extension`.
    pub fn with_extension(&self, extension: &str) -> (r: FilePath)
        ensures
            r@ == self@.with_extension(extension@),
    {
        let parts = copy_texts(self.parts.as_slice());
        assert(texts(parts@).len() == parts@.len());
        assert(texts(self.parts@).len() == self.parts@.len());
        let mut r = FilePath { anchor: self.anchor.as_str().to_owned(), parts };
        match r.parts.pop() {
            None => {},
            Some(last) => {
                assert(last@ == self@.parts.last());
                proof {
                    reveal_strlit(".");
                    reveal_strlit("..");
                    assert("."@ =~= seq!['.']);
                    assert(".."@ =~= seq!['.', '.']);
                }
                if same_text(last.as_str(), ".") || same_text(last.as_str(), "..") {
                    r.parts.push(last);
                } else {
                    let mut name = stem_of(last.as_str());
                    if !extension.is_empty() {
                        name.append(".");
                        name.append(extension);
                    }
                    r.parts.push(name);
                }
            },
        }
        assert(texts(r.parts@) =~= self@.with_extension(extension@).parts);
        r
    }

    /// The path as text.
    pub fn display(&self) -> (r: String)
        ensures
            r@ == self@.display(),
    {
        let mut r = self.anchor.as_str().to_owned();
        let ghost parts = texts(self.parts@);
        let mut i: usize = 0;
        while i < self.parts.len()
            invariant
                i <= self.parts@.len(),
                parts == texts(self.parts@),
                r@ == self.anchor@ + joined(parts.take(i as int)),
            decreases self.parts@.len() - i,
        {
            proof {
                reveal_strlit("/");
                assert("/"@ =~= seq!['/']);
                assert(parts.take(i + 1).drop_last() =~= parts.take(i as int));
            }
            if i > 0 {
                r.append("/");
            }
            r.append(self.parts[i].as_str());
            i += 1;
            assert(r@ =~= self.anchor@ + joined(parts.take(i as int)));
        }
        assert(parts.take(i as int) =~= parts);
        r
    }
}

/// The part of a file name before its extension.
fn stem_of(name: &str) -> (r: String)
    ensures
        r@ == file_stem(name@),
{
    let len: usize = name.unicode_len();
    let mut end: usize = len;
    assert(name@.take(end as int) =~= name@);
    while end > 0
        invariant
            end <= len,
            len == name@.len(),
            last_dot(name@) == last_dot(name@.take(end as int)),
        decreases end,
    {
        assert(name@.take(end as int).drop_last() =~= name@.take(end - 1));
        if name.get_char(end - 1) == '.' {
            if end > 1 {
                return name.substring_char(0, end - 1).to_owned();
            }
            return name.to_owned();
        }
        end -= 1;
    }
    name.to_owned()
}

} // verus!
