//! The question bank: question kinds, answer payloads, grading ranges, and
//! the automatic scoring and answer-rendering rules.

use vstd::prelude::*;

verus! {

/// Inclusive range `[min, max]` of grades available for one question.
#[derive(Clone, Copy, Debug)]
pub struct GradeRange {
    pub min: usize,
    pub max: usize,
}

impl GradeRange {
    /// The lower bound never exceeds the upper bound.
    pub open spec fn wf(self) -> bool {
        self.min <= self.max
    }

    pub fn new(min: usize, max: usize) -> (r: GradeRange)
        ensures
            r == (GradeRange { min, max }),
    {
        GradeRange { min, max }
    }

    /// Both bounds of the range, lower bound first.
    pub fn range(&self) -> (r: (usize, usize))
        ensures
            r == (self.min, self.max),
    {
        (self.min, self.max)
    }

    /// Whether `grade` lies inside the range.
    pub fn contains(&self, grade: usize) -> (r: bool)
        ensures
            r == (self.min <= grade && grade <= self.max),
    {
        self.min <= grade && grade <= self.max
    }
}

/// The three kinds of question, each carrying its answer key.
#[derive(Clone, Debug)]
pub enum QuestionType {
    MultiChoice { options: Vec<String>, answer: usize },
    MultiOption { options: Vec<String>, answers: Vec<usize> },
    Open,
}

/// `a` and `b` are the same kind of question with equal options and keys.
pub open spec fn qt_like(a: QuestionType, b: QuestionType) -> bool {
    match (a, b) {
        (
            QuestionType::MultiChoice { options: o1, answer: a1 },
            QuestionType::MultiChoice { options: o2, answer: a2 },
        ) => o1@ == o2@ && a1 == a2,
        (
            QuestionType::MultiOption { options: o1, answers: a1 },
            QuestionType::MultiOption { options: o2, answers: a2 },
        ) => o1@ == o2@ && a1@ == a2@,
        (QuestionType::Open, QuestionType::Open) => true,
        _ => false,
    }
}

impl QuestionType {
    /// A copy of this question type equal to the original in every field.
    pub fn duplicate(&self) -> (r: QuestionType)
        ensures
            qt_like(r, *self),
    {
        match self {
            QuestionType::MultiChoice { options, answer } => {
                let o = clone_string_vec(options);
                QuestionType::MultiChoice { options: o, answer: *answer }
            },
            QuestionType::MultiOption { options, answers } => {
                let o = clone_string_vec(options);
                QuestionType::MultiOption { options: o, answers: answers.clone() }
            },
            QuestionType::Open => QuestionType::Open,
        }
    }
}

/// A copy of a vector of strings whose elements equal the originals.
pub fn clone_string_vec(v: &Vec<String>) -> (r: Vec<String>)
    ensures
        r@ == v@,
{
    let r = v.clone();
    proof {
        assert forall|i: int| 0 <= i < r@.len() implies r@[i] == v@[i] by {
            assert(cloned::<String>(v@[i], r@[i]));
        }
        assert(r@ =~= v@);
    }
    r
}

/// A question as sent to participants: the options only, never the key.
#[derive(Clone, Debug)]
pub enum QuestionSendType {
    MultiChoice(Vec<String>),
    MultiOption(Vec<String>),
    Open,
}

/// `st` is the participant-facing form of `qt`: same kind, same options.
pub open spec fn qst_matches(st: QuestionSendType, qt: QuestionType) -> bool {
    match (st, qt) {
        (QuestionSendType::MultiChoice(o1), QuestionType::MultiChoice { options: o2, .. }) => o1@
            == o2@,
        (QuestionSendType::MultiOption(o1), QuestionType::MultiOption { options: o2, .. }) => o1@
            == o2@,
        (QuestionSendType::Open, QuestionType::Open) => true,
        _ => false,
    }
}

impl QuestionSendType {
    /// Strip the answer key from a question type for broadcasting.
    pub fn from_type(qt: &QuestionType) -> (r: QuestionSendType)
        ensures
            qst_matches(r, *qt),
    {
        match qt {
            QuestionType::MultiChoice { options, .. } => QuestionSendType::MultiChoice(
                clone_string_vec(options),
            ),
            QuestionType::MultiOption { options, .. } => QuestionSendType::MultiOption(
                clone_string_vec(options),
            ),
            QuestionType::Open => QuestionSendType::Open,
        }
    }
}

/// A submitted answer payload; its shape should match the question kind.
#[derive(Clone, Debug)]
pub enum AnswerType {
    MultiChoice(usize),
    MultiOption(Vec<usize>),
    Open(String),
}

/// The separator printed between selected options.
pub open spec fn option_separator() -> Seq<char> {
    seq![',', ' ']
}

/// The rendering of the selected `picks` out of `options`: the picked
/// options joined by a comma and space, a pick out of range contributing
/// an empty segment.
pub open spec fn joined_options(options: Seq<String>, picks: Seq<usize>) -> Seq<char>
    decreases picks.len(),
{
    if picks.len() == 0 {
        Seq::<char>::empty()
    } else {
        let opt = if (picks.last() as int) < options.len() {
            options[picks.last() as int]@
        } else {
            Seq::<char>::empty()
        };
        if picks.len() == 1 {
            opt
        } else {
            joined_options(options, picks.drop_last()) + option_separator() + opt
        }
    }
}

/// Render the options selected by `answers`, separated by ", ".
pub fn stringify_answers(options: &Vec<String>, answers: &Vec<usize>) -> (r: String)
    ensures
        r@ == joined_options(options@, answers@),
{
    let mut out = String::new();
    let mut i: usize = 0;
    while i < answers.len()
        invariant
            i <= answers.len(),
            out@ == joined_options(options@, answers@.take(i as int)),
        decreases answers.len() - i,
    {
        if i > 0 {
            out.append(", ");
            proof {
                reveal_strlit(", ");
                assert(", "@ =~= option_separator());
            }
        }
        let pick = answers[i];
        if pick < options.len() {
            out.append(options[pick].as_str());
        }
        proof {
            let taken = answers@.take(i as int + 1);
            assert(taken.drop_last() =~= answers@.take(i as int));
            assert(taken.last() == answers@[i as int]);
        }
        i += 1;
    }
    proof {
        assert(answers@.take(answers@.len() as int) =~= answers@);
    }
    out
}

/// One quiz question: a unique title, an optional image path, the grading
/// range, and the kind of answer expected.
#[derive(Clone, Debug)]
pub struct Question {
    pub title: String,
    pub image: Option<String>,
    pub grade_range: GradeRange,
    pub type_spec: QuestionType,
}

/// The automatic score for `ans` on question `q`: full credit for an exact
/// match of the key, zero for any other answer of the right shape, and no
/// automatic score for open questions or mismatched shapes.
pub open spec fn spec_calculate_score(q: Question, ans: AnswerType) -> Option<usize> {
    match (q.type_spec, ans) {
        (QuestionType::MultiChoice { answer: correct, .. }, AnswerType::MultiChoice(given)) => Some(
            if given == correct {
                q.grade_range.max
            } else {
                0usize
            },
        ),
        (QuestionType::MultiOption { answers: correct, .. }, AnswerType::MultiOption(given)) => Some(
            if given@ == correct@ {
                q.grade_range.max
            } else {
                0usize
            },
        ),
        _ => None,
    }
}

/// The display text of `ans` on question `q`: the picked option text for
/// choice questions, the free text for open questions, and empty for a
/// payload whose shape does not fit the question.
pub open spec fn spec_answer_text(q: Question, ans: AnswerType) -> Seq<char> {
    match (q.type_spec, ans) {
        (QuestionType::MultiChoice { options, .. }, AnswerType::MultiChoice(pick)) => if (
        pick as int) < options@.len() {
            options@[pick as int]@
        } else {
            Seq::<char>::empty()
        },
        (QuestionType::MultiOption { options, .. }, AnswerType::MultiOption(picks)) => joined_options(
            options@,
            picks@,
        ),
        (QuestionType::Open, AnswerType::Open(text)) => text@,
        _ => Seq::<char>::empty(),
    }
}

impl Question {
    pub fn new(title: String, image: Option<String>, grade_range: GradeRange, type_spec: QuestionType) -> (r: Question)
        ensures
            r == (Question { title, image, grade_range, type_spec }),
    {
        Question { title, image, grade_range, type_spec }
    }

    pub fn title(&self) -> (r: &String)
        ensures
            *r == self.title,
    {
        &self.title
    }

    pub fn image(&self) -> (r: Option<&String>)
        ensures
            match self.image {
                Some(s) => r matches Some(p) && *p == s,
                None => r is None,
            },
    {
        self.image.as_ref()
    }

    pub fn grade_range(&self) -> (r: GradeRange)
        ensures
            r == self.grade_range,
    {
        self.grade_range
    }

    pub fn type_spec(&self) -> (r: &QuestionType)
        ensures
            *r == self.type_spec,
    {
        &self.type_spec
    }

    /// The highest grade this question can contribute.
    pub fn max_score(&self) -> (r: usize)
        ensures
            r == self.grade_range.max,
    {
        self.grade_range.max
    }

    /// The automatic score of `answer` on this question, per
    /// `spec_calculate_score`.
    pub fn calculate_score(&self, answer: &AnswerType) -> (r: Option<usize>)
        ensures
            r == spec_calculate_score(*self, *answer),
    {
        match (&self.type_spec, answer) {
            (
                QuestionType::MultiChoice { answer: correct, .. },
                AnswerType::MultiChoice(given),
            ) => if *given == *correct {
                Some(self.grade_range.max)
            } else {
                Some(0)
            },
            (
                QuestionType::MultiOption { answers: correct, .. },
                AnswerType::MultiOption(given),
            ) => if usize_vec_eq(given, correct) {
                Some(self.grade_range.max)
            } else {
                Some(0)
            },
            _ => None,
        }
    }

    /// The display text of `answer` on this question, per `spec_answer_text`.
    pub fn get_answer_string(&self, answer: &AnswerType) -> (r: String)
        ensures
            r@ == spec_answer_text(*self, *answer),
    {
        match (&self.type_spec, answer) {
            (QuestionType::MultiChoice { options, .. }, AnswerType::MultiChoice(pick)) => if *pick
                < options.len() {
                options[*pick].clone()
            } else {
                String::new()
            },
            (QuestionType::MultiOption { options, .. }, AnswerType::MultiOption(picks)) => {
                stringify_answers(options, picks)
            },
            (QuestionType::Open, AnswerType::Open(text)) => text.clone(),
            _ => String::new(),
        }
    }
}

/// Whether two index vectors hold the same indices in the same order.
pub fn usize_vec_eq(a: &Vec<usize>, b: &Vec<usize>) -> (r: bool)
    ensures
        r == (a@ == b@),
{
    if a.len() != b.len() {
        return false;
    }
    let mut i: usize = 0;
    while i < a.len()
        invariant
            i <= a.len(),
            a@.len() == b@.len(),
            forall|j: int| 0 <= j < i ==> a@[j] == b@[j],
        decreases a.len() - i,
    {
        if a[i] != b[i] {
            return false;
        }
        i += 1;
    }
    proof {
        assert(a@ =~= b@);
    }
    true
}

/// A submitted answer: who answered, which question, and the payload.
#[derive(Clone, Debug)]
pub struct Answer {
    pub user: String,
    pub question: String,
    pub answer: AnswerType,
}

impl Answer {
    pub fn new(user: String, question: String, answer: AnswerType) -> (r: Answer)
        ensures
            r == (Answer { user, question, answer }),
    {
        Answer { user, question, answer }
    }

    pub fn user(&self) -> (r: &String)
        ensures
            *r == self.user,
    {
        &self.user
    }

    pub fn question(&self) -> (r: &String)
        ensures
            *r == self.question,
    {
        &self.question
    }

    pub fn answer(&self) -> (r: &AnswerType)
        ensures
            *r == self.answer,
    {
        &self.answer
    }
}

} // verus!
