//! What is known of the file system.
//!
//! Discovery never touches a disk. It works on the [`Answers`] that it has been
//! given, and where it cannot go on without one that is missing, it stops and
//! says which [`Question`] is open. Whoever runs it looks the answer up, notes
//! it, and starts again.
use vstd::prelude::*;

use crate::path::{FilePath, PathModel};
use crate::syntax::{item_models, SourceItem, SourceItemModel};

verus! {

/// Where a computation on incomplete answers has got to.
#[derive(Debug, PartialEq, Eq)]
pub enum Step<T, Q> {
    /// The answers were enough; this is the result.
    Done(T),
    /// The answer to this question is needed first.
    Ask(Q),
}

/// Something to be looked up on disk.
#[derive(Debug, PartialEq, Eq)]
pub enum Question {
    /// Is there a regular file at this path?
    IsFile { path: FilePath },
    /// What are the items of the Rust source file at this path, if it can be read and parsed?
    Source { path: FilePath },
}

/// The value of a [`Question`].
pub enum QuestionModel {
    IsFile { path: PathModel },
    Source { path: PathModel },
}

/// The answers known so far. Where a question was answered twice, the first answer counts.
#[derive(Debug, PartialEq, Eq)]
pub struct Answers {
    files: Vec<(FilePath, bool)>,
    sources: Vec<(FilePath, Option<Vec<SourceItem>>)>,
}

/// The value of an [`Answers`]: for each kind of question, what was answered, in order.
pub struct AnswersModel {
    pub files: Seq<(PathModel, bool)>,
    pub sources: Seq<(PathModel, Option<Seq<SourceItemModel>>)>,
}

/// The first answer that `rows` gives for `path`.
pub open spec fn first_answer<T>(rows: Seq<(PathModel, T)>, path: PathModel) -> Option<T>
    decreases rows.len(),
{
    if rows.len() == 0 {
        None
    } else if rows[0].0 == path {
        Some(rows[0].1)
    } else {
        first_answer(rows.drop_first(), path)
    }
}

/// The value of what was answered about a source file.
pub open spec fn source_model(source: Option<Vec<SourceItem>>) -> Option<Seq<SourceItemModel>> {
    match source {
        Some(items) => Some(item_models(items@)),
        None => None,
    }
}

impl DeepView for Question {
    type V = QuestionModel;

    open spec fn deep_view(&self) -> QuestionModel {
        match self {
            Question::IsFile { path } => QuestionModel::IsFile { path: path@ },
            Question::Source { path } => QuestionModel::Source { path: path@ },
        }
    }
}

impl<T: DeepView, Q: DeepView> DeepView for Step<T, Q> {
    type V = Step<T::V, Q::V>;

    open spec fn deep_view(&self) -> Step<T::V, Q::V> {
        match self {
            Step::Done(value) => Step::Done(value.deep_view()),
            Step::Ask(question) => Step::Ask(question.deep_view()),
        }
    }
}

impl AnswersModel {
    /// Whether there is a regular file at `path`.
    pub open spec fn is_file(self, path: PathModel) -> Step<bool, QuestionModel> {
        match first_answer(self.files, path) {
            Some(answer) => Step::Done(answer),
            None => Step::Ask(QuestionModel::IsFile { path }),
        }
    }

    /// The items of the source file at `path`.
    pub open spec fn source(self, path: PathModel) -> Step<
        Option<Seq<SourceItemModel>>,
        QuestionModel,
    > {
        match first_answer(self.sources, path) {
            Some(answer) => Step::Done(answer),
            None => Step::Ask(QuestionModel::Source { path }),
        }
    }

    /// Whether the answer to `question` is known.
    pub open spec fn knows(self, question: QuestionModel) -> bool {
        match question {
            QuestionModel::IsFile { path } => self.is_file(path) is Done,
            QuestionModel::Source { path } => self.source(path) is Done,
        }
    }

    /// Whether every answer known to `self` is known to `more`, and the same there.
    pub open spec fn agrees_with(self, more: AnswersModel) -> bool {
        &&& forall|path: PathModel|
            #![trigger more.is_file(path)]
            self.is_file(path) is Done ==> more.is_file(path) == self.is_file(path)
        &&& forall|path: PathModel|
            #![trigger more.source(path)]
            self.source(path) is Done ==> more.source(path) == self.source(path)
    }
}

impl View for Answers {
    type V = AnswersModel;

    closed spec fn view(&self) -> AnswersModel {
        AnswersModel {
            files: self.files@.map_values(|row: (FilePath, bool)| (row.0@, row.1)),
            sources: self.sources@.map_values(
                |row: (FilePath, Option<Vec<SourceItem>>)| (row.0@, source_model(row.1)),
            ),
        }
    }
}

/// An answer that stands at `i`, with none for the same path before it, is the first.
proof fn lemma_first_answer<T>(rows: Seq<(PathModel, T)>, path: PathModel, i: int)
    requires
        0 <= i < rows.len(),
        rows[i].0 == path,
        forall|j: int| 0 <= j < i ==> (#[trigger] rows[j]).0 != path,
    ensures
        first_answer(rows, path) == Some(rows[i].1),
    decreases rows.len(),
{
    if i > 0 {
        assert(rows[0].0 != path);
        assert forall|j: int| 0 <= j < i - 1 implies (#[trigger] rows.drop_first()[j]).0 != path by {
            assert(rows[j + 1].0 != path);
        }
        lemma_first_answer(rows.drop_first(), path, i - 1);
    }
}

/// Where no row is for `path`, there is no answer.
proof fn lemma_no_answer<T>(rows: Seq<(PathModel, T)>, path: PathModel)
    requires
        forall|j: int| 0 <= j < rows.len() ==> (#[trigger] rows[j]).0 != path,
    ensures
        first_answer(rows, path) is None,
    decreases rows.len(),
{
    if rows.len() > 0 {
        assert(rows[0].0 != path);
        assert forall|j: int| 0 <= j < rows.len() - 1 implies (#[trigger] rows.drop_first()[j]).0
            != path by {
            assert(rows[j + 1].0 != path);
        }
        lemma_no_answer(rows.drop_first(), path);
    }
}

/// A row noted last answers for its own path, where that had no answer, and for no other.
proof fn lemma_answer_noted<T>(rows: Seq<(PathModel, T)>, row: (PathModel, T), path: PathModel)
    ensures
        first_answer(rows.push(row), path) == (if first_answer(rows, path) is None && row.0
            == path {
            Some(row.1)
        } else {
            first_answer(rows, path)
        }),
    decreases rows.len(),
{
    reveal_with_fuel(first_answer, 2);
    if rows.len() == 0 {
        assert(rows.push(row).drop_first() =~= Seq::empty());
        assert(rows.push(row)[0] == row);
    } else {
        assert(rows.push(row).drop_first() =~= rows.drop_first().push(row));
        assert(rows.push(row)[0] == rows[0]);
        lemma_answer_noted(rows.drop_first(), row, path);
    }
}

impl Answers {
    /// No answers yet.
    pub fn new() -> (r: Answers)
        ensures
            r@ == (AnswersModel { files: Seq::empty(), sources: Seq::empty() }),
    {
        let r = Answers { files: Vec::new(), sources: Vec::new() };
        assert(r@.files =~= Seq::empty());
        assert(r@.sources =~= Seq::empty());
        r
    }

    /// Notes whether there is a regular file at `path`.
    pub fn note_file(&mut self, path: FilePath, is_file: bool)
        ensures
            final(self)@.files == old(self)@.files.push((path@, is_file)),
            final(self)@.sources == old(self)@.sources,
    {
        self.files.push((path, is_file));
        assert(self@.files =~= old(self)@.files.push((path@, is_file)));
    }

    /// Notes the items of the source file at `path`, or that it cannot be read or parsed.
    pub fn note_source(&mut self, path: FilePath, source: Option<Vec<SourceItem>>)
        ensures
            final(self)@.sources == old(self)@.sources.push((path@, source_model(source))),
            final(self)@.files == old(self)@.files,
    {
        self.sources.push((path, source));
        assert(self@.sources =~= old(self)@.sources.push((path@, source_model(source))));
    }

    /// Whether there is a regular file at `path`.
    pub fn is_file(&self, path: &FilePath) -> (r: Step<bool, Question>)
        ensures
            r.deep_view() == self@.is_file(path@),
    {
        let mut i: usize = 0;
        while i < self.files.len()
            invariant
                i <= self.files@.len(),
                self@.files.len() == self.files@.len(),
                forall|j: int| 0 <= j < i ==> (#[trigger] self@.files[j]).0 != path@,
            decreases self.files@.len() - i,
        {
            if self.files[i].0.same(path) {
                proof {
                    lemma_first_answer(self@.files, path@, i as int);
                }
                return Step::Done(self.files[i].1);
            }
            i += 1;
        }
        proof {
            lemma_no_answer(self@.files, path@);
        }
        Step::Ask(Question::IsFile { path: path.duplicate() })
    }

    /// The items of the source file at `path`, or nothing where it cannot be read or parsed.
    pub fn source<'a>(&'a self, path: &FilePath) -> (r: Step<Option<&'a Vec<SourceItem>>, Question>)
        ensures
            self@.source(path@) == (match r {
                Step::Done(Some(items)) => Step::Done(Some(item_models(items@))),
                Step::Done(None) => Step::Done(None),
                Step::Ask(question) => Step::Ask(question.deep_view()),
            }),
    {
        let mut i: usize = 0;
        while i < self.sources.len()
            invariant
                i <= self.sources@.len(),
                self@.sources.len() == self.sources@.len(),
                forall|j: int| 0 <= j < i ==> (#[trigger] self@.sources[j]).0 != path@,
            decreases self.sources@.len() - i,
        {
            if self.sources[i].0.same(path) {
                proof {
                    lemma_first_answer(self@.sources, path@, i as int);
                }
                return match &self.sources[i].1 {
                    Some(items) => Step::Done(Some(items)),
                    None => Step::Done(None),
                };
            }
            i += 1;
        }
        proof {
            lemma_no_answer(self@.sources, path@);
        }
        Step::Ask(Question::Source { path: path.duplicate() })
    }
}

/// Noting whether there is a file at a path answers that question, where it was
/// open, and changes no answer that was known.
pub proof fn law_noting_a_file_answers(answers: AnswersModel, path: PathModel, is_file: bool)
    ensures
        ({
            let more = AnswersModel { files: answers.files.push((path, is_file)), ..answers };
            &&& answers.agrees_with(more)
            &&& more.knows(QuestionModel::IsFile { path })
            &&& answers.is_file(path) is Ask ==> more.is_file(path) == Step::<
                bool,
                QuestionModel,
            >::Done(is_file)
        }),
{
    let more = AnswersModel { files: answers.files.push((path, is_file)), ..answers };
    assert forall|p: PathModel| #[trigger]
        more.is_file(p) == (if p == path && answers.is_file(p) is Ask {
            Step::Done(is_file)
        } else {
            answers.is_file(p)
        }) by {
        lemma_answer_noted(answers.files, (path, is_file), p);
    }
}

/// Noting the items of a source file answers that question, where it was open,
/// and changes no answer that was known.
pub proof fn law_noting_a_source_answers(
    answers: AnswersModel,
    path: PathModel,
    source: Option<Seq<SourceItemModel>>,
)
    ensures
        ({
            let more = AnswersModel { sources: answers.sources.push((path, source)), ..answers };
            &&& answers.agrees_with(more)
            &&& more.knows(QuestionModel::Source { path })
            &&& answers.source(path) is Ask ==> more.source(path) == Step::<
                Option<Seq<SourceItemModel>>,
                QuestionModel,
            >::Done(source)
        }),
{
    let more = AnswersModel { sources: answers.sources.push((path, source)), ..answers };
    assert forall|p: PathModel| #[trigger]
        more.source(p) == (if p == path && answers.source(p) is Ask {
            Step::Done(source)
        } else {
            answers.source(p)
        }) by {
        lemma_answer_noted(answers.sources, (path, source), p);
    }
}

/// A question is answered by the first row for its path, and open where there is none.
pub proof fn law_first_answer_counts(answers: AnswersModel, path: PathModel, i: int)
    ensures
        0 <= i < answers.files.len() && answers.files[i].0 == path && (forall|j: int|
            0 <= j < i ==> (#[trigger] answers.files[j]).0 != path) ==> answers.is_file(path)
            == Step::<bool, QuestionModel>::Done(answers.files[i].1),
        0 <= i < answers.sources.len() && answers.sources[i].0 == path && (forall|j: int|
            0 <= j < i ==> (#[trigger] answers.sources[j]).0 != path) ==> answers.source(path)
            == Step::<Option<Seq<SourceItemModel>>, QuestionModel>::Done(answers.sources[i].1),
        (forall|j: int| 0 <= j < answers.files.len() ==> (#[trigger] answers.files[j]).0 != path)
            ==> answers.is_file(path) == Step::<bool, QuestionModel>::Ask(
            QuestionModel::IsFile { path },
        ),
        (forall|j: int| 0 <= j < answers.sources.len() ==> (#[trigger] answers.sources[j]).0 != path)
            ==> answers.source(path) == Step::<Option<Seq<SourceItemModel>>, QuestionModel>::Ask(
            QuestionModel::Source { path },
        ),
{
    if 0 <= i < answers.files.len() && answers.files[i].0 == path && (forall|j: int|
        0 <= j < i ==> (#[trigger] answers.files[j]).0 != path) {
        lemma_first_answer(answers.files, path, i);
    }
    if 0 <= i < answers.sources.len() && answers.sources[i].0 == path && (forall|j: int|
        0 <= j < i ==> (#[trigger] answers.sources[j]).0 != path) {
        lemma_first_answer(answers.sources, path, i);
    }
    if forall|j: int| 0 <= j < answers.files.len() ==> (#[trigger] answers.files[j]).0 != path {
        lemma_no_answer(answers.files, path);
    }
    if forall|j: int| 0 <= j < answers.sources.len() ==> (#[trigger] answers.sources[j]).0 != path {
        lemma_no_answer(answers.sources, path);
    }
}

} // verus!
