//! Scores, the quiz state machine's status, rankings, and the outbound
//! events broadcast to participants.

use vstd::prelude::*;
use crate::question::{qst_matches, Question, QuestionSendType};

verus! {

/// Grade state of one stored answer.
#[derive(Clone, Copy, Debug, PartialEq, Eq, Structural)]
pub enum Score {
    Ungraded,
    Grade(usize),
}

impl Score {
    /// Whether this score still awaits manual grading.
    pub fn is_ungraded(&self) -> (r: bool)
        ensures
            r == (*self is Ungraded),
    {
        match self {
            Score::Ungraded => true,
            _ => false,
        }
    }

    /// The score an automatic grading yields: a grade when one was
    /// computed, ungraded otherwise.
    pub fn from_option(opt: Option<usize>) -> (r: Score)
        ensures
            r == (match opt {
                Some(s) => Score::Grade(s),
                None => Score::Ungraded,
            }),
    {
        match opt {
            Some(s) => Score::Grade(s),
            None => Score::Ungraded,
        }
    }
}

/// Where the quiz stands: waiting for logins, on a live question (possibly
/// locked against new submissions), or finished.
#[derive(Clone, Copy, Debug, PartialEq, Eq, Structural)]
pub enum QuizStatus {
    Lobby,
    Question { id: usize, locked: bool },
    Done,
}

impl QuizStatus {
    /// The live question's index, if any.
    pub open spec fn spec_question(self) -> Option<usize> {
        match self {
            QuizStatus::Question { id, .. } => Some(id),
            _ => None,
        }
    }

    pub fn is_lobby(&self) -> (r: bool)
        ensures
            r == (*self is Lobby),
    {
        match self {
            QuizStatus::Lobby => true,
            _ => false,
        }
    }

    pub fn question(&self) -> (r: Option<usize>)
        ensures
            r == self.spec_question(),
    {
        match self {
            QuizStatus::Question { id, .. } => Some(*id),
            _ => None,
        }
    }

    pub fn _is_done(&self) -> (r: bool)
        ensures
            r == (*self is Done),
    {
        match self {
            QuizStatus::Done => true,
            _ => false,
        }
    }
}

/// The ranking shared with participants: every user's total paired with
/// the highest total the question bank allows.
#[derive(Clone, Debug)]
pub struct Ranking {
    pub max_score: usize,
    pub scores: Vec<(String, i128)>,
}

/// `ev` announces question `q` at position `index` of `total`: it carries
/// the question's title, image and participant-facing type, but never the
/// answer key.
pub open spec fn is_question_event(ev: Event, q: Question, index: int, total: int) -> bool {
    match ev {
        Event::Question { title, id, total: t, image, question_type } => {
            &&& title@ == q.title@
            &&& id == index
            &&& t == total
            &&& match (image, q.image) {
                (Some(a), Some(b)) => a@ == b@,
                (None, None) => true,
                _ => false,
            }
            &&& qst_matches(question_type, q.type_spec)
        },
        _ => false,
    }
}

/// A notification pushed to every connected participant.
#[derive(Clone, Debug)]
pub enum Event {
    Lobby { users: Vec<String> },
    Question {
        title: String,
        id: usize,
        total: usize,
        image: Option<String>,
        question_type: QuestionSendType,
    },
    Ranking(Ranking),
    Finished,
    Closed,
}

} // verus!
