//! The strict reader of snapshot documents: the exact inverse of the
//! writer in `codec`, defined first as spec-level parsing functions over
//! character sequences, then as executable code proved to mirror them.
//! The round-trip law at the end states that reading back a written
//! snapshot reproduces the aggregate exactly.

use vstd::prelude::*;
use crate::codec::{
    dec_digits, digit_char, esc_char, json_escaped, json_int, json_string, json_state,
};
use crate::question::{AnswerType, QuestionType};
use crate::state::{AnswerEntry, QuizState, UserEntry};
use crate::status::{QuizStatus, Score};

verus! {

// ----- the parsed shape of a snapshot, at the specification level -----

/// A question type as read back: option texts and keys.
pub enum QtV {
    MultiChoice { options: Seq<Seq<char>>, answer: usize },
    MultiOption { options: Seq<Seq<char>>, answers: Seq<usize> },
    Open,
}

/// A question as read back.
pub struct QuestionV {
    pub title: Seq<char>,
    pub image: Option<Seq<char>>,
    pub min: usize,
    pub max: usize,
    pub type_spec: QtV,
}

/// An answer payload as read back.
pub enum AtV {
    MultiChoice(usize),
    MultiOption(Seq<usize>),
    Open(Seq<char>),
}

/// One stored answer as read back.
pub struct EntryV {
    pub question: Seq<char>,
    pub answer: AtV,
    pub score: Score,
}

/// One user as read back.
pub struct UserV {
    pub name: Seq<char>,
    pub bonus: i64,
    pub answers: Seq<EntryV>,
}

/// A whole snapshot as read back.
pub struct StateV {
    pub title: Seq<char>,
    pub questions: Seq<QuestionV>,
    pub status: QuizStatus,
    pub users: Seq<UserV>,
}

/// The parsed shape of a live question type.
pub open spec fn qt_v(qt: QuestionType) -> QtV {
    match qt {
        QuestionType::MultiChoice { options, answer } => QtV::MultiChoice {
            options: options@.map_values(|s: String| s@),
            answer,
        },
        QuestionType::MultiOption { options, answers } => QtV::MultiOption {
            options: options@.map_values(|s: String| s@),
            answers: answers@,
        },
        QuestionType::Open => QtV::Open,
    }
}

/// The parsed shape of a live question.
pub open spec fn question_v(q: crate::question::Question) -> QuestionV {
    QuestionV {
        title: q.title@,
        image: match q.image {
            Some(s) => Some(s@),
            None => None,
        },
        min: q.grade_range.min,
        max: q.grade_range.max,
        type_spec: qt_v(q.type_spec),
    }
}

/// The parsed shape of a live answer payload.
pub open spec fn at_v(a: AnswerType) -> AtV {
    match a {
        AnswerType::MultiChoice(p) => AtV::MultiChoice(p),
        AnswerType::MultiOption(ps) => AtV::MultiOption(ps@),
        AnswerType::Open(t) => AtV::Open(t@),
    }
}

/// The parsed shape of a live answer entry.
pub open spec fn entry_v(e: AnswerEntry) -> EntryV {
    EntryV { question: e.question@, answer: at_v(e.answer), score: e.score }
}

/// The parsed shape of a live user record.
pub open spec fn user_v(u: UserEntry) -> UserV {
    UserV {
        name: u.name@,
        bonus: u.bonus,
        answers: u.answers@.map_values(|e: AnswerEntry| entry_v(e)),
    }
}

/// The parsed shape of a live state aggregate. The root path is not part
/// of a snapshot.
pub open spec fn state_v(s: QuizState) -> StateV {
    StateV {
        title: s.config.title@,
        questions: s.config.questions@.map_values(|q: crate::question::Question| question_v(q)),
        status: s.status,
        users: s.users@.map_values(|u: UserEntry| user_v(u)),
    }
}

// ----- spec-level parsing primitives -----

/// Whether `c` is a decimal digit.
pub open spec fn is_digit(c: char) -> bool {
    48 <= (c as u32) && (c as u32) <= 57
}

/// The value of the digit `c`.
pub open spec fn digit_val(c: char) -> nat {
    ((c as u32) - 48) as nat
}

/// Consume the exact characters `lit` at `i`, yielding the position after
/// them.
pub open spec fn p_lit(s: Seq<char>, i: int, lit: Seq<char>) -> Option<int> {
    if 0 <= i && i + lit.len() <= s.len() && s.subrange(i, i + lit.len()) == lit {
        Some(i + lit.len())
    } else {
        None
    }
}

/// The position of the first non-digit at or after `i`.
pub open spec fn digit_run_end(s: Seq<char>, i: int) -> int
    decreases s.len() - i,
{
    if i < 0 {
        0
    } else if i < s.len() && is_digit(s[i]) {
        digit_run_end(s, i + 1)
    } else {
        i
    }
}

/// The value of the digits of `s` from `i` (inclusive) to `j` (exclusive).
pub open spec fn num_val(s: Seq<char>, i: int, j: int) -> nat
    decreases j - i,
{
    if j <= i {
        0
    } else {
        num_val(s, i, j - 1) * 10 + digit_val(s[j - 1])
    }
}

/// Consume a run of digits at `i`, yielding its value. Fails without a
/// leading digit.
pub open spec fn p_num(s: Seq<char>, i: int) -> Option<(nat, int)> {
    if 0 <= i < s.len() && is_digit(s[i]) {
        let j = digit_run_end(s, i);
        Some((num_val(s, i, j), j))
    } else {
        None
    }
}

/// Consume a run of digits whose value fits a machine word.
pub open spec fn p_usize(s: Seq<char>, i: int) -> Option<(usize, int)> {
    match p_num(s, i) {
        Some((n, j)) => if n <= usize::MAX {
            Some((n as usize, j))
        } else {
            None
        },
        None => None,
    }
}

/// Consume an optionally negated run of digits whose value fits an `i64`.
pub open spec fn p_i64(s: Seq<char>, i: int) -> Option<(i64, int)> {
    if 0 <= i < s.len() && s[i] == '-' {
        match p_num(s, i + 1) {
            Some((n, j)) => if n <= 0x8000_0000_0000_0000 {
                Some(((-(n as int)) as i64, j))
            } else {
                None
            },
            None => None,
        }
    } else {
        match p_num(s, i) {
            Some((n, j)) => if n <= 0x7fff_ffff_ffff_ffff {
                Some((n as i64, j))
            } else {
                None
            },
            None => None,
        }
    }
}

/// Consume the body of a JSON string up to and including its closing
/// quote, undoing the escapes the writer makes.
pub open spec fn p_str_body(s: Seq<char>, i: int) -> Option<(Seq<char>, int)>
    decreases s.len() - i,
{
    if i < 0 || i >= s.len() {
        None
    } else if s[i] == '"' {
        Some((Seq::<char>::empty(), i + 1))
    } else if s[i] == '\\' {
        if i + 1 < s.len() {
            let e = s[i + 1];
            let decoded: Option<char> = if e == '"' {
                Some('"')
            } else if e == '\\' {
                Some('\\')
            } else if e == 'n' {
                Some('\n')
            } else if e == 'r' {
                Some('\r')
            } else if e == 't' {
                Some('\t')
            } else {
                None
            };
            match decoded {
                Some(c) => match p_str_body(s, i + 2) {
                    Some((rest, j)) => Some((seq![c] + rest, j)),
                    None => None,
                },
                None => None,
            }
        } else {
            None
        }
    } else {
        match p_str_body(s, i + 1) {
            Some((rest, j)) => Some((seq![s[i]] + rest, j)),
            None => None,
        }
    }
}

/// Consume a quoted JSON string.
pub open spec fn p_string(s: Seq<char>, i: int) -> Option<(Seq<char>, int)> {
    if 0 <= i < s.len() && s[i] == '"' {
        p_str_body(s, i + 1)
    } else {
        None
    }
}

/// Consume a quoted string or the word `null`.
pub open spec fn p_opt_string(s: Seq<char>, i: int) -> Option<(Option<Seq<char>>, int)> {
    if 0 <= i < s.len() && s[i] == '"' {
        match p_string(s, i) {
            Some((t, j)) => Some((Some(t), j)),
            None => None,
        }
    } else {
        match p_lit(s, i, "null"@) {
            Some(j) => Some((None, j)),
            None => None,
        }
    }
}

/// Consume the rest of a string array after its opening bracket: quoted
/// strings separated by commas, closed by a bracket.
pub open spec fn p_str_items(s: Seq<char>, i: int, fuel: nat) -> Option<(Seq<Seq<char>>, int)>
    decreases fuel,
{
    if !(0 <= i < s.len()) {
        None
    } else if s[i] == ']' {
        Some((Seq::<Seq<char>>::empty(), i + 1))
    } else {
        match p_string(s, i) {
            Some((t, j)) => if 0 <= j < s.len() && s[j] == ',' {
                if fuel == 0 {
                    None
                } else {
                    match p_str_items(s, j + 1, (fuel - 1) as nat) {
                        Some((rest, k)) => Some((seq![t] + rest, k)),
                        None => None,
                    }
                }
            } else if 0 <= j < s.len() && s[j] == ']' {
                Some((seq![t], j + 1))
            } else {
                None
            },
            None => None,
        }
    }
}

/// Consume the rest of a number array after its opening bracket.
pub open spec fn p_usize_items(s: Seq<char>, i: int, fuel: nat) -> Option<(Seq<usize>, int)>
    decreases fuel,
{
    if !(0 <= i < s.len()) {
        None
    } else if s[i] == ']' {
        Some((Seq::<usize>::empty(), i + 1))
    } else {
        match p_usize(s, i) {
            Some((n, j)) => if 0 <= j < s.len() && s[j] == ',' {
                if fuel == 0 {
                    None
                } else {
                    match p_usize_items(s, j + 1, (fuel - 1) as nat) {
                        Some((rest, k)) => Some((seq![n] + rest, k)),
                        None => None,
                    }
                }
            } else if 0 <= j < s.len() && s[j] == ']' {
                Some((seq![n], j + 1))
            } else {
                None
            },
            None => None,
        }
    }
}

/// Consume a question type, tagged by kind.
pub open spec fn p_question_type(s: Seq<char>, i: int) -> Option<(QtV, int)> {
    if p_lit(s, i, "\"Open\""@) is Some {
        Some((QtV::Open, p_lit(s, i, "\"Open\""@).unwrap()))
    } else if p_lit(s, i, "{\"MultiChoice\":{\"options\":["@) is Some {
        let j = p_lit(s, i, "{\"MultiChoice\":{\"options\":["@).unwrap();
        match p_str_items(s, j, s.len()) {
            Some((options, j)) => match p_lit(s, j, ",\"answer\":"@) {
                Some(j) => match p_usize(s, j) {
                    Some((answer, j)) => match p_lit(s, j, "}}"@) {
                        Some(j) => Some((QtV::MultiChoice { options, answer }, j)),
                        None => None,
                    },
                    None => None,
                },
                None => None,
            },
            None => None,
        }
    } else if p_lit(s, i, "{\"MultiOption\":{\"options\":["@) is Some {
        let j = p_lit(s, i, "{\"MultiOption\":{\"options\":["@).unwrap();
        match p_str_items(s, j, s.len()) {
            Some((options, j)) => match p_lit(s, j, ",\"answers\":["@) {
                Some(j) => match p_usize_items(s, j, s.len()) {
                    Some((answers, j)) => match p_lit(s, j, "}}"@) {
                        Some(j) => Some((QtV::MultiOption { options, answers }, j)),
                        None => None,
                    },
                    None => None,
                },
                None => None,
            },
            None => None,
        }
    } else {
        None
    }
}

/// Consume one question of the bank.
pub open spec fn p_question(s: Seq<char>, i: int) -> Option<(QuestionV, int)> {
    match p_lit(s, i, "{\"title\":"@) {
        Some(j) => match p_string(s, j) {
            Some((title, j)) => match p_lit(s, j, ",\"image\":"@) {
                Some(j) => match p_opt_string(s, j) {
                    Some((image, j)) => match p_lit(s, j, ",\"min\":"@) {
                        Some(j) => match p_usize(s, j) {
                            Some((min, j)) => match p_lit(s, j, ",\"max\":"@) {
                                Some(j) => match p_usize(s, j) {
                                    Some((max, j)) => match p_lit(s, j, ",\"type_spec\":"@) {
                                        Some(j) => match p_question_type(s, j) {
                                            Some((type_spec, j)) => match p_lit(s, j, "}"@) {
                                                Some(j) => Some(
                                                    (
                                                        QuestionV {
                                                            title,
                                                            image,
                                                            min,
                                                            max,
                                                            type_spec,
                                                        },
                                                        j,
                                                    ),
                                                ),
                                                None => None,
                                            },
                                            None => None,
                                        },
                                        None => None,
                                    },
                                    None => None,
                                },
                                None => None,
                            },
                            None => None,
                        },
                        None => None,
                    },
                    None => None,
                },
                None => None,
            },
            None => None,
        },
        None => None,
    }
}

/// Consume the rest of a question array after its opening bracket.
pub open spec fn p_question_items(s: Seq<char>, i: int, fuel: nat) -> Option<
    (Seq<QuestionV>, int),
>
    decreases fuel,
{
    if !(0 <= i < s.len()) {
        None
    } else if s[i] == ']' {
        Some((Seq::<QuestionV>::empty(), i + 1))
    } else {
        match p_question(s, i) {
            Some((q, j)) => if 0 <= j < s.len() && s[j] == ',' {
                if fuel == 0 {
                    None
                } else {
                    match p_question_items(s, j + 1, (fuel - 1) as nat) {
                        Some((rest, k)) => Some((seq![q] + rest, k)),
                        None => None,
                    }
                }
            } else if 0 <= j < s.len() && s[j] == ']' {
                Some((seq![q], j + 1))
            } else {
                None
            },
            None => None,
        }
    }
}

/// Consume a status value.
pub open spec fn p_status(s: Seq<char>, i: int) -> Option<(QuizStatus, int)> {
    if p_lit(s, i, "\"Lobby\""@) is Some {
        Some((QuizStatus::Lobby, p_lit(s, i, "\"Lobby\""@).unwrap()))
    } else if p_lit(s, i, "\"Done\""@) is Some {
        Some((QuizStatus::Done, p_lit(s, i, "\"Done\""@).unwrap()))
    } else if p_lit(s, i, "{\"Question\":{\"id\":"@) is Some {
        let j = p_lit(s, i, "{\"Question\":{\"id\":"@).unwrap();
        match p_usize(s, j) {
            Some((id, j)) => match p_lit(s, j, ",\"locked\":"@) {
                Some(j) => {
                    let locked: Option<(bool, int)> = if p_lit(s, j, "true"@) is Some {
                        Some((true, p_lit(s, j, "true"@).unwrap()))
                    } else if p_lit(s, j, "false"@) is Some {
                        Some((false, p_lit(s, j, "false"@).unwrap()))
                    } else {
                        None
                    };
                    match locked {
                        Some((locked, j)) => match p_lit(s, j, "}}"@) {
                            Some(j) => Some((QuizStatus::Question { id, locked }, j)),
                            None => None,
                        },
                        None => None,
                    }
                },
                None => None,
            },
            None => None,
        }
    } else {
        None
    }
}

/// Consume an answer payload, tagged by kind.
pub open spec fn p_answer_type(s: Seq<char>, i: int) -> Option<(AtV, int)> {
    if p_lit(s, i, "{\"Open\":"@) is Some {
        let j = p_lit(s, i, "{\"Open\":"@).unwrap();
        match p_string(s, j) {
            Some((text, j)) => match p_lit(s, j, "}"@) {
                Some(j) => Some((AtV::Open(text), j)),
                None => None,
            },
            None => None,
        }
    } else if p_lit(s, i, "{\"MultiChoice\":"@) is Some {
        let j = p_lit(s, i, "{\"MultiChoice\":"@).unwrap();
        match p_usize(s, j) {
            Some((pick, j)) => match p_lit(s, j, "}"@) {
                Some(j) => Some((AtV::MultiChoice(pick), j)),
                None => None,
            },
            None => None,
        }
    } else if p_lit(s, i, "{\"MultiOption\":["@) is Some {
        let j = p_lit(s, i, "{\"MultiOption\":["@).unwrap();
        match p_usize_items(s, j, s.len()) {
            Some((picks, j)) => match p_lit(s, j, "}"@) {
                Some(j) => Some((AtV::MultiOption(picks), j)),
                None => None,
            },
            None => None,
        }
    } else {
        None
    }
}

/// Consume a score.
pub open spec fn p_score(s: Seq<char>, i: int) -> Option<(Score, int)> {
    if p_lit(s, i, "\"Ungraded\""@) is Some {
        Some((Score::Ungraded, p_lit(s, i, "\"Ungraded\""@).unwrap()))
    } else if p_lit(s, i, "{\"Grade\":"@) is Some {
        let j = p_lit(s, i, "{\"Grade\":"@).unwrap();
        match p_usize(s, j) {
            Some((g, j)) => match p_lit(s, j, "}"@) {
                Some(j) => Some((Score::Grade(g), j)),
                None => None,
            },
            None => None,
        }
    } else {
        None
    }
}

/// Consume one stored answer.
pub open spec fn p_entry(s: Seq<char>, i: int) -> Option<(EntryV, int)> {
    match p_lit(s, i, "{\"question\":"@) {
        Some(j) => match p_string(s, j) {
            Some((question, j)) => match p_lit(s, j, ",\"answer\":"@) {
                Some(j) => match p_answer_type(s, j) {
                    Some((answer, j)) => match p_lit(s, j, ",\"score\":"@) {
                        Some(j) => match p_score(s, j) {
                            Some((score, j)) => match p_lit(s, j, "}"@) {
                                Some(j) => Some((EntryV { question, answer, score }, j)),
                                None => None,
                            },
                            None => None,
                        },
                        None => None,
                    },
                    None => None,
                },
                None => None,
            },
            None => None,
        },
        None => None,
    }
}

/// Consume the rest of an answer array after its opening bracket.
pub open spec fn p_entry_items(s: Seq<char>, i: int, fuel: nat) -> Option<(Seq<EntryV>, int)>
    decreases fuel,
{
    if !(0 <= i < s.len()) {
        None
    } else if s[i] == ']' {
        Some((Seq::<EntryV>::empty(), i + 1))
    } else {
        match p_entry(s, i) {
            Some((e, j)) => if 0 <= j < s.len() && s[j] == ',' {
                if fuel == 0 {
                    None
                } else {
                    match p_entry_items(s, j + 1, (fuel - 1) as nat) {
                        Some((rest, k)) => Some((seq![e] + rest, k)),
                        None => None,
                    }
                }
            } else if 0 <= j < s.len() && s[j] == ']' {
                Some((seq![e], j + 1))
            } else {
                None
            },
            None => None,
        }
    }
}

/// Consume one user record.
pub open spec fn p_user(s: Seq<char>, i: int) -> Option<(UserV, int)> {
    match p_lit(s, i, "{\"name\":"@) {
        Some(j) => match p_string(s, j) {
            Some((name, j)) => match p_lit(s, j, ",\"bonus\":"@) {
                Some(j) => match p_i64(s, j) {
                    Some((bonus, j)) => match p_lit(s, j, ",\"answers\":["@) {
                        Some(j) => match p_entry_items(s, j, s.len()) {
                            Some((answers, j)) => match p_lit(s, j, "}"@) {
                                Some(j) => Some((UserV { name, bonus, answers }, j)),
                                None => None,
                            },
                            None => None,
                        },
                        None => None,
                    },
                    None => None,
                },
                None => None,
            },
            None => None,
        },
        None => None,
    }
}

/// Consume the rest of a user array after its opening bracket.
pub open spec fn p_user_items(s: Seq<char>, i: int, fuel: nat) -> Option<(Seq<UserV>, int)>
    decreases fuel,
{
    if !(0 <= i < s.len()) {
        None
    } else if s[i] == ']' {
        Some((Seq::<UserV>::empty(), i + 1))
    } else {
        match p_user(s, i) {
            Some((u, j)) => if 0 <= j < s.len() && s[j] == ',' {
                if fuel == 0 {
                    None
                } else {
                    match p_user_items(s, j + 1, (fuel - 1) as nat) {
                        Some((rest, k)) => Some((seq![u] + rest, k)),
                        None => None,
                    }
                }
            } else if 0 <= j < s.len() && s[j] == ']' {
                Some((seq![u], j + 1))
            } else {
                None
            },
            None => None,
        }
    }
}

/// Consume a whole snapshot document, which must span the entire input.
pub open spec fn p_state_doc(s: Seq<char>) -> Option<StateV> {
    match p_lit(s, 0, "{\"config\":{\"title\":"@) {
        Some(j) => match p_string(s, j) {
            Some((title, j)) => match p_lit(s, j, ",\"questions\":["@) {
                Some(j) => match p_question_items(s, j, s.len()) {
                    Some((questions, j)) => match p_lit(s, j, "},\"status\":"@) {
                        Some(j) => match p_status(s, j) {
                            Some((status, j)) => match p_lit(s, j, ",\"users\":["@) {
                                Some(j) => match p_user_items(s, j, s.len()) {
                                    Some((users, j)) => match p_lit(s, j, "}"@) {
                                        Some(j) => if j == s.len() {
                                            Some(StateV { title, questions, status, users })
                                        } else {
                                            None
                                        },
                                        None => None,
                                    },
                                    None => None,
                                },
                                None => None,
                            },
                            None => None,
                        },
                        None => None,
                    },
                    None => None,
                },
                None => None,
            },
            None => None,
        },
        None => None,
    }
}

// ----- completeness of the primitives on what the writer emits -----

/// Splitting a consumed region: when the characters at `i` are `x`
/// followed by `y`, each part stands at its own position.
pub proof fn lemma_split(s: Seq<char>, i: int, x: Seq<char>, y: Seq<char>)
    requires
        0 <= i,
        i + x.len() + y.len() <= s.len(),
        s.subrange(i, i + x.len() + y.len()) == x + y,
    ensures
        s.subrange(i, i + x.len()) == x,
        s.subrange(i + x.len(), i + x.len() + y.len()) == y,
{
    assert(s.subrange(i, i + x.len()) =~= x) by {
        assert forall|k: int| 0 <= k < x.len() implies s.subrange(i, i + x.len())[k] == x[k] by {
            assert(s.subrange(i, i + x.len() + y.len())[k] == (x + y)[k]);
        }
    }
    assert(s.subrange(i + x.len(), i + x.len() + y.len()) =~= y) by {
        assert forall|k: int| 0 <= k < y.len() implies s.subrange(
            i + x.len(),
            i + x.len() + y.len(),
        )[k] == y[k] by {
            assert(s.subrange(i + x.len(), i + x.len() + y.len())[k] == s[i + x.len() + k]);
            assert(s.subrange(i, i + x.len() + y.len())[x.len() + k] == s[i + x.len() + k]);
            assert((x + y)[x.len() + k] == y[k]);
        }
    }
}

/// A literal standing at `i` is consumed.
pub proof fn lemma_p_lit(s: Seq<char>, i: int, lit: Seq<char>)
    requires
        0 <= i,
        i + lit.len() <= s.len(),
        s.subrange(i, i + lit.len()) == lit,
    ensures
        p_lit(s, i, lit) == Some(i + lit.len()),
{
}

/// Every character the decimal writer emits is a digit, and the leading
/// one comes first.
pub proof fn lemma_dec_digits_are_digits(n: nat)
    ensures
        dec_digits(n).len() >= 1,
        forall|k: int| 0 <= k < dec_digits(n).len() ==> is_digit(#[trigger] dec_digits(n)[k]),
    decreases n,
{
    if n < 10 {
        assert(is_digit(digit_char(n as int)));
    } else {
        lemma_dec_digits_are_digits(n / 10);
        assert(is_digit(digit_char((n % 10) as int)));
    }
}

/// The digit run starting where the decimal writer wrote ends exactly at
/// the first position after it, provided no digit follows.
proof fn lemma_digit_run_end(s: Seq<char>, i: int, j: int)
    requires
        0 <= i <= j <= s.len(),
        forall|k: int| i <= k < j ==> is_digit(s[k]),
        j < s.len() ==> !is_digit(s[j]),
    ensures
        digit_run_end(s, i) == j,
    decreases j - i,
{
    if i < j {
        lemma_digit_run_end(s, i + 1, j);
    }
}

/// Reading back the digits the decimal writer wrote yields the value.
proof fn lemma_num_val(s: Seq<char>, i: int, n: nat)
    requires
        0 <= i,
        i + dec_digits(n).len() <= s.len(),
        s.subrange(i, i + dec_digits(n).len()) == dec_digits(n),
    ensures
        num_val(s, i, i + dec_digits(n).len()) == n,
    decreases n,
{
    let d = dec_digits(n);
    if n < 10 {
        assert(s.subrange(i, i + 1)[0] == d[0]);
        assert(s[i] == digit_char(n as int));
        assert(num_val(s, i, i) == 0);
        assert(num_val(s, i, i + 1) == digit_val(digit_char(n as int)));
        assert(digit_val(digit_char(n as int)) == n);
    } else {
        let dp = dec_digits(n / 10);
        assert(d == dp.push(digit_char((n % 10) as int)));
        assert(d =~= dp + seq![digit_char((n % 10) as int)]);
        lemma_split(s, i, dp, seq![digit_char((n % 10) as int)]);
        lemma_num_val(s, i, n / 10);
        assert(s[i + dp.len()] == digit_char((n % 10) as int)) by {
            assert(s.subrange(i + dp.len(), i + dp.len() + 1)[0] == digit_char((n % 10) as int));
        }
        assert(num_val(s, i, i + d.len()) == num_val(s, i, i + dp.len()) * 10 + digit_val(
            digit_char((n % 10) as int),
        ));
        assert(digit_val(digit_char((n % 10) as int)) == n % 10);
        assert((n / 10) * 10 + n % 10 == n) by (nonlinear_arith);
    }
}

/// A number the decimal writer wrote, not followed by another digit, is
/// read back as itself.
pub proof fn lemma_p_num(s: Seq<char>, i: int, n: nat)
    requires
        0 <= i,
        i + dec_digits(n).len() <= s.len(),
        s.subrange(i, i + dec_digits(n).len()) == dec_digits(n),
        i + dec_digits(n).len() < s.len() ==> !is_digit(s[i + dec_digits(n).len()]),
    ensures
        p_num(s, i) == Some((n, i + dec_digits(n).len())),
{
    let d = dec_digits(n);
    lemma_dec_digits_are_digits(n);
    assert forall|k: int| i <= k < i + d.len() implies is_digit(s[k]) by {
        assert(s.subrange(i, i + d.len())[k - i] == d[k - i]);
    }
    assert(s[i] == d[0]);
    lemma_digit_run_end(s, i, i + d.len());
    lemma_num_val(s, i, n);
}

/// Escaping distributes over concatenation.
pub proof fn lemma_escaped_concat(a: Seq<char>, b: Seq<char>)
    ensures
        json_escaped(a + b) == json_escaped(a) + json_escaped(b),
    decreases b.len(),
{
    if b.len() == 0 {
        assert(a + b =~= a);
        assert(json_escaped(a) + json_escaped(b) =~= json_escaped(a));
    } else {
        lemma_escaped_concat(a, b.drop_last());
        assert((a + b).drop_last() =~= a + b.drop_last());
        assert((a + b).last() == b.last());
        assert(json_escaped(a + b) =~= json_escaped(a) + json_escaped(b));
    }
}

/// A string body the writer escaped, closed by its quote, is read back as
/// the original text.
pub proof fn lemma_p_str_body(s: Seq<char>, i: int, t: Seq<char>)
    requires
        0 <= i,
        i + json_escaped(t).len() + 1 <= s.len(),
        s.subrange(i, i + json_escaped(t).len() + 1) == json_escaped(t) + seq!['"'],
    ensures
        p_str_body(s, i) == Some((t, i + json_escaped(t).len() + 1)),
    decreases t.len(),
{
    if t.len() == 0 {
        assert(s[i] == '"') by {
            assert(s.subrange(i, i + 1)[0] == (json_escaped(t) + seq!['"'])[0]);
        }
        assert(p_str_body(s, i) == Some((Seq::<char>::empty(), i + 1)));
        assert(t =~= Seq::<char>::empty());
    } else {
        let c = t[0];
        let rest = t.drop_first();
        assert(t =~= seq![c] + rest);
        lemma_escaped_concat(seq![c], rest);
        assert(json_escaped(seq![c]) =~= esc_char(c)) by {
            assert(seq![c].drop_last() =~= Seq::<char>::empty());
            assert(seq![c].last() == c);
            assert(json_escaped(Seq::<char>::empty()) + esc_char(c) =~= esc_char(c));
        }
        let e = esc_char(c);
        let tail = json_escaped(rest) + seq!['"'];
        assert(json_escaped(t) + seq!['"'] =~= e + tail);
        lemma_split(s, i, e, tail);
        lemma_p_str_body(s, i + e.len(), rest);
        reveal_strlit("\\\"");
        reveal_strlit("\\\\");
        reveal_strlit("\\n");
        reveal_strlit("\\r");
        reveal_strlit("\\t");
        if c == '"' || c == '\\' || c == '\n' || c == '\r' || c == '\t' {
            assert(e.len() == 2);
            assert(s[i] == e[0] && s[i + 1] == e[1]) by {
                assert(s.subrange(i, i + 2)[0] == e[0]);
                assert(s.subrange(i, i + 2)[1] == e[1]);
            }
            assert(s[i] == '\\');
            assert(seq![c] + rest =~= t);
        } else {
            assert(e =~= seq![c]);
            assert(s[i] == c) by {
                assert(s.subrange(i, i + 1)[0] == e[0]);
            }
            assert(s[i] != '"' && s[i] != '\\');
            assert(seq![c] + rest =~= t);
        }
    }
}

/// A string the writer wrote is read back as the original text.
pub proof fn lemma_p_string(s: Seq<char>, i: int, t: Seq<char>)
    requires
        0 <= i,
        i + json_string(t).len() <= s.len(),
        s.subrange(i, i + json_string(t).len()) == json_string(t),
    ensures
        p_string(s, i) == Some((t, i + json_string(t).len())),
{
    reveal_strlit("\"");
    let body = json_escaped(t) + seq!['"'];
    assert(json_string(t) =~= seq!['"'] + body);
    lemma_split(s, i, seq!['"'], body);
    assert(s[i] == '"') by {
        assert(s.subrange(i, i + 1)[0] == '"');
    }
    lemma_p_str_body(s, i + 1, t);
}

/// A comma-joined sequence decomposes at its first element.
pub proof fn lemma_join_first(m: Seq<Seq<char>>)
    requires
        m.len() >= 1,
    ensures
        crate::codec::json_join(m) == (if m.len() == 1 {
            m[0]
        } else {
            m[0] + ","@ + crate::codec::json_join(m.drop_first())
        }),
    decreases m.len(),
{
    if m.len() == 1 {
        assert(m.last() == m[0]);
    } else if m.len() == 2 {
        assert(m.drop_last()[0] == m[0]);
        assert(m.drop_last().len() == 1);
        assert(crate::codec::json_join(m) == crate::codec::json_join(m.drop_last()) + ","@
            + m.last());
        assert(crate::codec::json_join(m.drop_last()) == m.drop_last().last());
        assert(m.drop_last().last() == m[0]);
        assert(m.drop_first() =~= seq![m[1]]);
        assert(crate::codec::json_join(seq![m[1]]) == seq![m[1]].last());
        assert(crate::codec::json_join(m.drop_first()) == m[1]);
        assert(m.last() == m[1]);
        assert(crate::codec::json_join(m) =~= m[0] + ","@ + crate::codec::json_join(
            m.drop_first(),
        ));
    } else {
        lemma_join_first(m.drop_last());
        assert(m.drop_last()[0] == m[0]);
        assert(m.drop_last().drop_first() =~= m.drop_first().drop_last());
        assert(m.drop_first().last() == m.last());
        assert(m.drop_first().len() >= 2);
        let x = crate::codec::json_join(m.drop_first().drop_last());
        assert(crate::codec::json_join(m) == crate::codec::json_join(m.drop_last()) + ","@
            + m.last());
        assert(crate::codec::json_join(m.drop_last()) == m[0] + ","@ + x);
        assert(crate::codec::json_join(m.drop_first()) == x + ","@ + m.drop_first().last());
        assert(crate::codec::json_join(m) =~= m[0] + ","@ + crate::codec::json_join(
            m.drop_first(),
        ));
    }
}

/// An optional string the writer wrote is read back as itself.
pub proof fn lemma_p_opt_string(s: Seq<char>, i: int, img: Option<String>)
    requires
        0 <= i,
        i + crate::codec::json_opt_string(img).len() <= s.len(),
        s.subrange(i, i + crate::codec::json_opt_string(img).len()) == crate::codec::json_opt_string(
            img,
        ),
    ensures
        p_opt_string(s, i) == Some(
            (
                match img {
                    Some(t) => Some(t@),
                    None => None,
                },
                i + crate::codec::json_opt_string(img).len(),
            ),
        ),
{
    reveal_strlit("\"");
    reveal_strlit("null");
    match img {
        Some(t) => {
            let r = crate::codec::json_string(t@);
            assert(s[i] == r[0]) by {
                assert(s.subrange(i, i + r.len())[0] == r[0]);
            }
            assert(r[0] == '"') by {
                assert(r =~= "\""@ + json_escaped(t@) + "\""@);
            }
            lemma_p_string(s, i, t@);
        },
        None => {
            assert(s[i] == 'n') by {
                assert(s.subrange(i, i + 4)[0] == "null"@[0]);
            }
            assert(s[i] != '"');
            lemma_p_lit(s, i, "null"@);
        },
    }
}

/// A string array body the writer wrote is read back as the original
/// texts.
pub proof fn lemma_p_str_items(s: Seq<char>, i: int, items: Seq<String>, fuel: nat)
    requires
        fuel >= items.len(),
        0 <= i,
        ({
            let m = items.map_values(|x: String| crate::codec::json_string(x@));
            &&& i + crate::codec::json_join(m).len() + 1 <= s.len()
            &&& s.subrange(i, i + crate::codec::json_join(m).len() + 1) == crate::codec::json_join(
                m,
            ) + seq![']']
        }),
    ensures
        ({
            let m = items.map_values(|x: String| crate::codec::json_string(x@));
            p_str_items(s, i, fuel) == Some(
                (
                    items.map_values(|x: String| x@),
                    i + crate::codec::json_join(m).len() + 1,
                ),
            )
        }),
    decreases items.len(),
{
    reveal_strlit("\"");
    reveal_strlit(",");
    let m = items.map_values(|x: String| crate::codec::json_string(x@));
    let jl = crate::codec::json_join(m).len() as int;
    if items.len() == 0 {
        assert(crate::codec::json_join(m) =~= Seq::<char>::empty());
        assert(s[i] == ']') by {
            assert(s.subrange(i, i + 1)[0] == ']');
        }
        assert(items.map_values(|x: String| x@) =~= Seq::<Seq<char>>::empty());
    } else {
        lemma_join_first(m);
        let first = crate::codec::json_string(items[0]@);
        assert(m[0] == first);
        assert(first[0] == '"') by {
            assert(first =~= "\""@ + json_escaped(items[0]@) + "\""@);
        }
        if items.len() == 1 {
            assert(crate::codec::json_join(m) == first);
            lemma_split(s, i, first, seq![']']);
            lemma_p_string(s, i, items[0]@);
            let j = i + first.len();
            assert(s[j] == ']') by {
                assert(s.subrange(j, j + 1)[0] == ']');
            }
            assert(s[i] == '"') by {
                assert(s.subrange(i, i + first.len())[0] == first[0]);
            }
            assert(s[i] != ']' && s[j] != ',');
            assert(seq![items[0]@] =~= items.map_values(|x: String| x@));
        } else {
            let rest_join = crate::codec::json_join(m.drop_first());
            let tail = ","@ + rest_join + seq![']'];
            assert(crate::codec::json_join(m) + seq![']'] =~= first + tail);
            lemma_split(s, i, first, tail);
            lemma_p_string(s, i, items[0]@);
            let j = i + first.len();
            assert(tail =~= ","@ + (rest_join + seq![']']));
            lemma_split(s, j, ","@, rest_join + seq![']']);
            assert(s[j] == ',') by {
                assert(s.subrange(j, j + 1)[0] == ","@[0]);
            }
            assert(s[i] == '"') by {
                assert(s.subrange(i, i + first.len())[0] == first[0]);
            }
            assert(s[i] != ']');
            assert(m.drop_first() =~= items.drop_first().map_values(
                |x: String| crate::codec::json_string(x@),
            ));
            lemma_p_str_items(s, j + 1, items.drop_first(), (fuel - 1) as nat);
            assert(seq![items[0]@] + items.drop_first().map_values(|x: String| x@)
                =~= items.map_values(|x: String| x@));
            assert(i + jl + 1 == j + 1 + crate::codec::json_join(m.drop_first()).len() + 1);
        }
    }
}

/// A number array body the writer wrote is read back as the original
/// numbers.
pub proof fn lemma_p_usize_items(s: Seq<char>, i: int, items: Seq<usize>, fuel: nat)
    requires
        fuel >= items.len(),
        0 <= i,
        ({
            let m = items.map_values(|n: usize| dec_digits(n as nat));
            &&& i + crate::codec::json_join(m).len() + 1 <= s.len()
            &&& s.subrange(i, i + crate::codec::json_join(m).len() + 1) == crate::codec::json_join(
                m,
            ) + seq![']']
        }),
    ensures
        ({
            let m = items.map_values(|n: usize| dec_digits(n as nat));
            p_usize_items(s, i, fuel) == Some(
                (items, i + crate::codec::json_join(m).len() + 1),
            )
        }),
    decreases items.len(),
{
    reveal_strlit(",");
    let m = items.map_values(|n: usize| dec_digits(n as nat));
    let jl = crate::codec::json_join(m).len() as int;
    if items.len() == 0 {
        assert(crate::codec::json_join(m) =~= Seq::<char>::empty());
        assert(s[i] == ']') by {
            assert(s.subrange(i, i + 1)[0] == ']');
        }
        assert(items =~= Seq::<usize>::empty());
    } else {
        lemma_join_first(m);
        let first = dec_digits(items[0] as nat);
        assert(m[0] == first);
        lemma_dec_digits_are_digits(items[0] as nat);
        if items.len() == 1 {
            assert(crate::codec::json_join(m) == first);
            lemma_split(s, i, first, seq![']']);
            let j = i + first.len();
            assert(s[j] == ']') by {
                assert(s.subrange(j, j + 1)[0] == ']');
            }
            assert(!is_digit(s[j]));
            lemma_p_num(s, i, items[0] as nat);
            assert(s[i] == first[0]) by {
                assert(s.subrange(i, i + first.len())[0] == first[0]);
            }
            assert(is_digit(s[i]));
            assert(s[i] != ']' && s[j] != ',');
            assert(seq![items[0]] =~= items);
        } else {
            let rest_join = crate::codec::json_join(m.drop_first());
            let tail = ","@ + rest_join + seq![']'];
            assert(crate::codec::json_join(m) + seq![']'] =~= first + tail);
            lemma_split(s, i, first, tail);
            let j = i + first.len();
            assert(tail =~= ","@ + (rest_join + seq![']']));
            lemma_split(s, j, ","@, rest_join + seq![']']);
            assert(s[j] == ',') by {
                assert(s.subrange(j, j + 1)[0] == ","@[0]);
            }
            assert(!is_digit(s[j]));
            lemma_p_num(s, i, items[0] as nat);
            assert(s[i] == first[0]) by {
                assert(s.subrange(i, i + first.len())[0] == first[0]);
            }
            assert(is_digit(s[i]));
            assert(s[i] != ']');
            assert(m.drop_first() =~= items.drop_first().map_values(
                |n: usize| dec_digits(n as nat),
            ));
            lemma_p_usize_items(s, j + 1, items.drop_first(), (fuel - 1) as nat);
            assert(seq![items[0]] + items.drop_first() =~= items);
            assert(i + jl + 1 == j + 1 + crate::codec::json_join(m.drop_first()).len() + 1);
        }
    }
}

/// A literal that disagrees with the input at one position is not
/// consumed.
pub proof fn lemma_p_lit_none(s: Seq<char>, i: int, lit: Seq<char>, k: int)
    requires
        0 <= k < lit.len(),
        0 <= i,
        i + k < s.len(),
        s[i + k] != lit[k],
    ensures
        p_lit(s, i, lit) is None,
{
    if p_lit(s, i, lit) is Some {
        assert(s.subrange(i, i + lit.len())[k] == lit[k]);
        assert(false);
    }
}

/// A join of non-empty pieces is at least as long as it has pieces.
pub proof fn lemma_join_len(m: Seq<Seq<char>>)
    requires
        forall|k: int| 0 <= k < m.len() ==> (#[trigger] m[k]).len() >= 1,
    ensures
        crate::codec::json_join(m).len() >= m.len(),
    decreases m.len(),
{
    if m.len() > 1 {
        lemma_join_len(m.drop_last());
        assert(forall|k: int|
            0 <= k < m.drop_last().len() ==> (#[trigger] m.drop_last()[k]).len() >= 1);
    }
}

/// A question type the writer wrote is read back as its parsed shape.
pub proof fn lemma_p_question_type(s: Seq<char>, i: int, qt: QuestionType)
    requires
        0 <= i,
        i + crate::codec::json_question_type(qt).len() <= s.len(),
        s.subrange(i, i + crate::codec::json_question_type(qt).len())
            == crate::codec::json_question_type(qt),
    ensures
        p_question_type(s, i) == Some((qt_v(qt), i + crate::codec::json_question_type(qt).len())),
{
    reveal_strlit("\"Open\"");
    reveal_strlit("\"");
    assert(("\""@).len() == 1);
    reveal_strlit("{\"MultiChoice\":{\"options\":");
    reveal_strlit("{\"MultiChoice\":{\"options\":[");
    reveal_strlit("{\"MultiOption\":{\"options\":");
    reveal_strlit("{\"MultiOption\":{\"options\":[");
    reveal_strlit("[");
    reveal_strlit("]");
    reveal_strlit(",\"answer\":");
    reveal_strlit(",\"answers\":");
    reveal_strlit(",\"answers\":[");
    reveal_strlit("}}");
    let enc = crate::codec::json_question_type(qt);
    match qt {
        QuestionType::Open => {
            lemma_p_lit(s, i, "\"Open\""@);
        },
        QuestionType::MultiChoice { options, answer } => {
            let m = options@.map_values(|x: String| crate::codec::json_string(x@));
            let join = crate::codec::json_join(m);
            let biglit = "{\"MultiChoice\":{\"options\":["@;
            let lit2 = ",\"answer\":"@;
            let dd = dec_digits(answer as nat);
            assert(enc =~= biglit + ((join + seq![']']) + (lit2 + (dd + "}}"@))));
            assert(s[i] == '{') by {
                assert(s.subrange(i, i + enc.len())[0] == enc[0]);
            }
            lemma_p_lit_none(s, i, "\"Open\""@, 0);
            lemma_split(s, i, biglit, (join + seq![']']) + (lit2 + (dd + "}}"@)));
            lemma_p_lit(s, i, biglit);
            let j1 = i + biglit.len();
            lemma_split(s, j1, join + seq![']'], lit2 + (dd + "}}"@));
            assert forall|k: int| 0 <= k < m.len() implies (#[trigger] m[k]).len() >= 1 by {
                assert(m[k] == crate::codec::json_string(options@[k]@));
            }
            lemma_join_len(m);
            lemma_p_str_items(s, j1, options@, s.len());
            let j2 = j1 + join.len() + 1;
            lemma_split(s, j2, lit2, dd + "}}"@);
            lemma_p_lit(s, j2, lit2);
            let j3 = j2 + lit2.len();
            lemma_split(s, j3, dd, "}}"@);
            let j4 = j3 + dd.len();
            assert(s[j4] == '}') by {
                assert(s.subrange(j4, j4 + 2)[0] == "}}"@[0]);
            }
            lemma_p_num(s, j3, answer as nat);
            lemma_p_lit(s, j4, "}}"@);
            assert(p_question_type(s, i) == Some((qt_v(qt), i + enc.len())));
        },
        QuestionType::MultiOption { options, answers } => {
            let m = options@.map_values(|x: String| crate::codec::json_string(x@));
            let join = crate::codec::json_join(m);
            let ma = answers@.map_values(|n: usize| dec_digits(n as nat));
            let joina = crate::codec::json_join(ma);
            let biglit = "{\"MultiOption\":{\"options\":["@;
            let lit2 = ",\"answers\":["@;
            assert(enc =~= biglit + ((join + seq![']']) + (lit2 + ((joina + seq![']'])
                + "}}"@))));
            assert(s[i] == '{') by {
                assert(s.subrange(i, i + enc.len())[0] == enc[0]);
            }
            lemma_p_lit_none(s, i, "\"Open\""@, 0);
            assert(s[i + 7] == 'O') by {
                assert(s.subrange(i, i + enc.len())[7] == enc[7]);
            }
            lemma_p_lit_none(s, i, "{\"MultiChoice\":{\"options\":["@, 7);
            lemma_split(s, i, biglit, (join + seq![']']) + (lit2 + ((joina + seq![']']) + "}}"@)));
            lemma_p_lit(s, i, biglit);
            let j1 = i + biglit.len();
            lemma_split(s, j1, join + seq![']'], lit2 + ((joina + seq![']']) + "}}"@));
            assert forall|k: int| 0 <= k < m.len() implies (#[trigger] m[k]).len() >= 1 by {
                assert(m[k] == crate::codec::json_string(options@[k]@));
            }
            lemma_join_len(m);
            lemma_p_str_items(s, j1, options@, s.len());
            let j2 = j1 + join.len() + 1;
            lemma_split(s, j2, lit2, (joina + seq![']']) + "}}"@);
            lemma_p_lit(s, j2, lit2);
            let j3 = j2 + lit2.len();
            lemma_split(s, j3, joina + seq![']'], "}}"@);
            assert forall|k: int| 0 <= k < ma.len() implies (#[trigger] ma[k]).len() >= 1 by {
                assert(ma[k] == dec_digits(answers@[k] as nat));
                lemma_dec_digits_are_digits(answers@[k] as nat);
            }
            lemma_join_len(ma);
            lemma_p_usize_items(s, j3, answers@, s.len());
            let j4 = j3 + joina.len() + 1;
            lemma_p_lit(s, j4, "}}"@);
            assert(p_question_type(s, i) == Some((qt_v(qt), i + enc.len())));
        },
    }
}

/// A score the writer wrote is read back as itself.
pub proof fn lemma_p_score(s: Seq<char>, i: int, sc: Score)
    requires
        0 <= i,
        i + crate::codec::json_score(sc).len() <= s.len(),
        s.subrange(i, i + crate::codec::json_score(sc).len()) == crate::codec::json_score(sc),
    ensures
        p_score(s, i) == Some((sc, i + crate::codec::json_score(sc).len())),
{
    reveal_strlit("\"Ungraded\"");
    reveal_strlit("{\"Grade\":");
    reveal_strlit("}");
    let enc = crate::codec::json_score(sc);
    match sc {
        Score::Ungraded => {
            lemma_p_lit(s, i, "\"Ungraded\""@);
        },
        Score::Grade(g) => {
            let lit1 = "{\"Grade\":"@;
            let dd = dec_digits(g as nat);
            assert(enc =~= lit1 + (dd + "}"@));
            assert(s[i] == '{') by {
                assert(s.subrange(i, i + enc.len())[0] == enc[0]);
            }
            lemma_p_lit_none(s, i, "\"Ungraded\""@, 0);
            lemma_split(s, i, lit1, dd + "}"@);
            lemma_p_lit(s, i, lit1);
            let j1 = i + lit1.len();
            lemma_split(s, j1, dd, "}"@);
            let j2 = j1 + dd.len();
            assert(s[j2] == '}') by {
                assert(s.subrange(j2, j2 + 1)[0] == "}"@[0]);
            }
            lemma_p_num(s, j1, g as nat);
            lemma_p_lit(s, j2, "}"@);
        },
    }
}

/// An answer payload the writer wrote is read back as its parsed shape.
pub proof fn lemma_p_answer_type(s: Seq<char>, i: int, a: AnswerType)
    requires
        0 <= i,
        i + crate::codec::json_answer_type(a).len() <= s.len(),
        s.subrange(i, i + crate::codec::json_answer_type(a).len()) == crate::codec::json_answer_type(
            a,
        ),
    ensures
        p_answer_type(s, i) == Some((at_v(a), i + crate::codec::json_answer_type(a).len())),
{
    reveal_strlit("{\"Open\":");
    reveal_strlit("{\"MultiChoice\":");
    reveal_strlit("{\"MultiOption\":");
    reveal_strlit("{\"MultiOption\":[");
    reveal_strlit("[");
    reveal_strlit("]");
    reveal_strlit("}");
    let enc = crate::codec::json_answer_type(a);
    match a {
        AnswerType::Open(text) => {
            let lit1 = "{\"Open\":"@;
            let js = crate::codec::json_string(text@);
            assert(enc =~= lit1 + (js + "}"@));
            lemma_split(s, i, lit1, js + "}"@);
            lemma_p_lit(s, i, lit1);
            let j1 = i + lit1.len();
            lemma_split(s, j1, js, "}"@);
            lemma_p_string(s, j1, text@);
            lemma_p_lit(s, j1 + js.len(), "}"@);
        },
        AnswerType::MultiChoice(pick) => {
            let lit1 = "{\"MultiChoice\":"@;
            let dd = dec_digits(pick as nat);
            assert(enc =~= lit1 + (dd + "}"@));
            assert(s[i + 2] == 'M') by {
                assert(s.subrange(i, i + enc.len())[2] == enc[2]);
            }
            lemma_p_lit_none(s, i, "{\"Open\":"@, 2);
            lemma_split(s, i, lit1, dd + "}"@);
            lemma_p_lit(s, i, lit1);
            let j1 = i + lit1.len();
            lemma_split(s, j1, dd, "}"@);
            let j2 = j1 + dd.len();
            assert(s[j2] == '}') by {
                assert(s.subrange(j2, j2 + 1)[0] == "}"@[0]);
            }
            lemma_p_num(s, j1, pick as nat);
            lemma_p_lit(s, j2, "}"@);
        },
        AnswerType::MultiOption(picks) => {
            let lit1 = "{\"MultiOption\":["@;
            let ma = picks@.map_values(|n: usize| dec_digits(n as nat));
            let joina = crate::codec::json_join(ma);
            assert(enc =~= lit1 + ((joina + seq![']']) + "}"@));
            assert(s[i + 2] == 'M') by {
                assert(s.subrange(i, i + enc.len())[2] == enc[2]);
            }
            lemma_p_lit_none(s, i, "{\"Open\":"@, 2);
            assert(s[i + 7] == 'O') by {
                assert(s.subrange(i, i + enc.len())[7] == enc[7]);
            }
            lemma_p_lit_none(s, i, "{\"MultiChoice\":"@, 7);
            lemma_split(s, i, lit1, (joina + seq![']']) + "}"@);
            lemma_p_lit(s, i, lit1);
            let j1 = i + lit1.len();
            lemma_split(s, j1, joina + seq![']'], "}"@);
            assert forall|k: int| 0 <= k < ma.len() implies (#[trigger] ma[k]).len() >= 1 by {
                assert(ma[k] == dec_digits(picks@[k] as nat));
                lemma_dec_digits_are_digits(picks@[k] as nat);
            }
            lemma_join_len(ma);
            lemma_p_usize_items(s, j1, picks@, s.len());
            let j2 = j1 + joina.len() + 1;
            lemma_p_lit(s, j2, "}"@);
        },
    }
}

/// A status the writer wrote is read back as itself.
pub proof fn lemma_p_status(s: Seq<char>, i: int, st: QuizStatus)
    requires
        0 <= i,
        i + crate::codec::json_status(st).len() <= s.len(),
        s.subrange(i, i + crate::codec::json_status(st).len()) == crate::codec::json_status(st),
    ensures
        p_status(s, i) == Some((st, i + crate::codec::json_status(st).len())),
{
    reveal_strlit("\"Lobby\"");
    reveal_strlit("\"Done\"");
    reveal_strlit("{\"Question\":{\"id\":");
    reveal_strlit(",\"locked\":");
    reveal_strlit("true");
    reveal_strlit("false");
    reveal_strlit("}}");
    let enc = crate::codec::json_status(st);
    match st {
        QuizStatus::Lobby => {
            lemma_p_lit(s, i, "\"Lobby\""@);
        },
        QuizStatus::Done => {
            assert(s[i + 1] == 'D') by {
                assert(s.subrange(i, i + enc.len())[1] == enc[1]);
            }
            lemma_p_lit_none(s, i, "\"Lobby\""@, 1);
            lemma_p_lit(s, i, "\"Done\""@);
        },
        QuizStatus::Question { id, locked } => {
            let lit1 = "{\"Question\":{\"id\":"@;
            let dd = dec_digits(id as nat);
            let lit2 = ",\"locked\":"@;
            let b: Seq<char> = if locked {
                "true"@
            } else {
                "false"@
            };
            assert(enc =~= lit1 + (dd + (lit2 + (b + "}}"@))));
            assert(s[i] == '{') by {
                assert(s.subrange(i, i + enc.len())[0] == enc[0]);
            }
            lemma_p_lit_none(s, i, "\"Lobby\""@, 0);
            lemma_p_lit_none(s, i, "\"Done\""@, 0);
            lemma_split(s, i, lit1, dd + (lit2 + (b + "}}"@)));
            lemma_p_lit(s, i, lit1);
            let j1 = i + lit1.len();
            lemma_split(s, j1, dd, lit2 + (b + "}}"@));
            let j2 = j1 + dd.len();
            assert(s[j2] == ',') by {
                assert(s.subrange(j2, j2 + lit2.len())[0] == lit2[0]);
            }
            lemma_p_num(s, j1, id as nat);
            lemma_split(s, j2, lit2, b + "}}"@);
            lemma_p_lit(s, j2, lit2);
            let j3 = j2 + lit2.len();
            lemma_split(s, j3, b, "}}"@);
            lemma_p_lit(s, j3, b);
            if !locked {
                assert(s[j3] == 'f') by {
                    assert(s.subrange(j3, j3 + b.len())[0] == b[0]);
                }
                lemma_p_lit_none(s, j3, "true"@, 0);
            }
            let j4 = j3 + b.len();
            lemma_p_lit(s, j4, "}}"@);
        },
    }
}

/// An integer the writer wrote, not followed by a digit, is read back as
/// itself.
pub proof fn lemma_p_i64(s: Seq<char>, i: int, v: i64)
    requires
        0 <= i,
        i + json_int(v as int).len() <= s.len(),
        s.subrange(i, i + json_int(v as int).len()) == json_int(v as int),
        i + json_int(v as int).len() < s.len() ==> !is_digit(s[i + json_int(v as int).len()]),
    ensures
        p_i64(s, i) == Some((v, i + json_int(v as int).len())),
{
    reveal_strlit("-");
    if v < 0 {
        let d = dec_digits((-(v as int)) as nat);
        assert(json_int(v as int) =~= "-"@ + d);
        lemma_split(s, i, "-"@, d);
        assert(s[i] == '-') by {
            assert(s.subrange(i, i + 1)[0] == '-');
        }
        lemma_p_num(s, i + 1, (-(v as int)) as nat);
        lemma_dec_digits_are_digits((-(v as int)) as nat);
    } else {
        let d = dec_digits(v as nat);
        assert(json_int(v as int) =~= d);
        lemma_p_num(s, i, v as nat);
        lemma_dec_digits_are_digits(v as nat);
        assert(s[i] == d[0]) by {
            assert(s.subrange(i, i + d.len())[0] == d[0]);
        }
        assert(is_digit(s[i]));
        assert(s[i] != '-');
    }
}

/// A question the writer wrote is read back as its parsed shape.
pub proof fn lemma_p_question(s: Seq<char>, i: int, q: crate::question::Question)
    requires
        0 <= i,
        i + crate::codec::json_question(q).len() <= s.len(),
        s.subrange(i, i + crate::codec::json_question(q).len()) == crate::codec::json_question(q),
    ensures
        p_question(s, i) == Some((question_v(q), i + crate::codec::json_question(q).len())),
{
    reveal_strlit("{\"title\":");
    reveal_strlit(",\"image\":");
    reveal_strlit(",\"min\":");
    reveal_strlit(",\"max\":");
    reveal_strlit(",\"type_spec\":");
    reveal_strlit("}");
    let enc = crate::codec::json_question(q);
    let lit1 = "{\"title\":"@;
    let t = crate::codec::json_string(q.title@);
    let lit2 = ",\"image\":"@;
    let im = crate::codec::json_opt_string(q.image);
    let lit3 = ",\"min\":"@;
    let dmin = dec_digits(q.grade_range.min as nat);
    let lit4 = ",\"max\":"@;
    let dmax = dec_digits(q.grade_range.max as nat);
    let lit5 = ",\"type_spec\":"@;
    let ts = crate::codec::json_question_type(q.type_spec);
    assert(enc =~= lit1 + (t + (lit2 + (im + (lit3 + (dmin + (lit4 + (dmax + (lit5 + (ts
        + "}"@))))))))));
    lemma_split(s, i, lit1, t + (lit2 + (im + (lit3 + (dmin + (lit4 + (dmax + (lit5 + (ts
        + "}"@)))))))));
    lemma_p_lit(s, i, lit1);
    let j1 = i + lit1.len();
    lemma_split(s, j1, t, lit2 + (im + (lit3 + (dmin + (lit4 + (dmax + (lit5 + (ts + "}"@))))))));
    lemma_p_string(s, j1, q.title@);
    let j2 = j1 + t.len();
    lemma_split(s, j2, lit2, im + (lit3 + (dmin + (lit4 + (dmax + (lit5 + (ts + "}"@)))))));
    lemma_p_lit(s, j2, lit2);
    let j3 = j2 + lit2.len();
    lemma_split(s, j3, im, lit3 + (dmin + (lit4 + (dmax + (lit5 + (ts + "}"@))))));
    lemma_p_opt_string(s, j3, q.image);
    let j4 = j3 + im.len();
    lemma_split(s, j4, lit3, dmin + (lit4 + (dmax + (lit5 + (ts + "}"@)))));
    lemma_p_lit(s, j4, lit3);
    let j5 = j4 + lit3.len();
    lemma_split(s, j5, dmin, lit4 + (dmax + (lit5 + (ts + "}"@))));
    let j6 = j5 + dmin.len();
    assert(s[j6] == ',') by {
        assert(s.subrange(j6, j6 + lit4.len())[0] == lit4[0]);
    }
    lemma_p_num(s, j5, q.grade_range.min as nat);
    lemma_split(s, j6, lit4, dmax + (lit5 + (ts + "}"@)));
    lemma_p_lit(s, j6, lit4);
    let j7 = j6 + lit4.len();
    lemma_split(s, j7, dmax, lit5 + (ts + "}"@));
    let j8 = j7 + dmax.len();
    assert(s[j8] == ',') by {
        assert(s.subrange(j8, j8 + lit5.len())[0] == lit5[0]);
    }
    lemma_p_num(s, j7, q.grade_range.max as nat);
    lemma_split(s, j8, lit5, ts + "}"@);
    lemma_p_lit(s, j8, lit5);
    let j9 = j8 + lit5.len();
    lemma_split(s, j9, ts, "}"@);
    lemma_p_question_type(s, j9, q.type_spec);
    let j10 = j9 + ts.len();
    lemma_p_lit(s, j10, "}"@);
    assert(p_question(s, i) == Some((question_v(q), i + enc.len())));
}

/// A question array body the writer wrote is read back as the original
/// questions.
#[verifier::rlimit(60)]
pub proof fn lemma_p_question_items(
    s: Seq<char>,
    i: int,
    items: Seq<crate::question::Question>,
    fuel: nat,
)
    requires
        fuel >= items.len(),
        0 <= i,
        ({
            let m = items.map_values(|q: crate::question::Question| crate::codec::json_question(q));
            &&& i + crate::codec::json_join(m).len() + 1 <= s.len()
            &&& s.subrange(i, i + crate::codec::json_join(m).len() + 1) == crate::codec::json_join(
                m,
            ) + seq![']']
        }),
    ensures
        ({
            let m = items.map_values(|q: crate::question::Question| crate::codec::json_question(q));
            p_question_items(s, i, fuel) == Some(
                (
                    items.map_values(|q: crate::question::Question| question_v(q)),
                    i + crate::codec::json_join(m).len() + 1,
                ),
            )
        }),
    decreases items.len(),
{
    reveal_strlit("{\"title\":");
    reveal_strlit(",");
    let m = items.map_values(|q: crate::question::Question| crate::codec::json_question(q));
    let jl = crate::codec::json_join(m).len() as int;
    if items.len() == 0 {
        assert(crate::codec::json_join(m) =~= Seq::<char>::empty());
        assert(s[i] == ']') by {
            assert(s.subrange(i, i + 1)[0] == ']');
        }
        assert(items.map_values(|q: crate::question::Question| question_v(q))
            =~= Seq::<QuestionV>::empty());
    } else {
        lemma_join_first(m);
        let first = crate::codec::json_question(items[0]);
        assert(m[0] == first);
        assert(first[0] == '{') by {
            assert(first =~= "{\"title\":"@ + first.subrange(9, first.len() as int));
        }
        if items.len() == 1 {
            assert(crate::codec::json_join(m) == first);
            lemma_split(s, i, first, seq![']']);
            lemma_p_question(s, i, items[0]);
            let j = i + first.len();
            assert(s[j] == ']') by {
                assert(s.subrange(j, j + 1)[0] == ']');
            }
            assert(s[i] == '{') by {
                assert(s.subrange(i, i + first.len())[0] == first[0]);
            }
            assert(s[i] != ']' && s[j] != ',');
            assert(seq![question_v(items[0])] =~= items.map_values(
                |q: crate::question::Question| question_v(q),
            ));
        } else {
            let rest_join = crate::codec::json_join(m.drop_first());
            let tail = ","@ + rest_join + seq![']'];
            assert(crate::codec::json_join(m) + seq![']'] =~= first + tail);
            lemma_split(s, i, first, tail);
            lemma_p_question(s, i, items[0]);
            let j = i + first.len();
            assert(tail =~= ","@ + (rest_join + seq![']']));
            lemma_split(s, j, ","@, rest_join + seq![']']);
            assert(s[j] == ',') by {
                assert(s.subrange(j, j + 1)[0] == ","@[0]);
            }
            assert(s[i] == '{') by {
                assert(s.subrange(i, i + first.len())[0] == first[0]);
            }
            assert(s[i] != ']');
            assert(m.drop_first() =~= items.drop_first().map_values(
                |q: crate::question::Question| crate::codec::json_question(q),
            ));
            lemma_p_question_items(s, j + 1, items.drop_first(), (fuel - 1) as nat);
            assert(seq![question_v(items[0])] + items.drop_first().map_values(
                |q: crate::question::Question| question_v(q),
            ) =~= items.map_values(|q: crate::question::Question| question_v(q)));
            assert(i + jl + 1 == j + 1 + crate::codec::json_join(m.drop_first()).len() + 1);
        }
    }
}

/// A stored answer the writer wrote is read back as its parsed shape.
pub proof fn lemma_p_entry(s: Seq<char>, i: int, e: AnswerEntry)
    requires
        0 <= i,
        i + crate::codec::json_answer_entry(e).len() <= s.len(),
        s.subrange(i, i + crate::codec::json_answer_entry(e).len())
            == crate::codec::json_answer_entry(e),
    ensures
        p_entry(s, i) == Some((entry_v(e), i + crate::codec::json_answer_entry(e).len())),
{
    reveal_strlit("{\"question\":");
    reveal_strlit(",\"answer\":");
    reveal_strlit(",\"score\":");
    reveal_strlit("}");
    let enc = crate::codec::json_answer_entry(e);
    let lit1 = "{\"question\":"@;
    let t = crate::codec::json_string(e.question@);
    let lit2 = ",\"answer\":"@;
    let a = crate::codec::json_answer_type(e.answer);
    let lit3 = ",\"score\":"@;
    let sc = crate::codec::json_score(e.score);
    assert(enc =~= lit1 + (t + (lit2 + (a + (lit3 + (sc + "}"@))))));
    lemma_split(s, i, lit1, t + (lit2 + (a + (lit3 + (sc + "}"@)))));
    lemma_p_lit(s, i, lit1);
    let j1 = i + lit1.len();
    lemma_split(s, j1, t, lit2 + (a + (lit3 + (sc + "}"@))));
    lemma_p_string(s, j1, e.question@);
    let j2 = j1 + t.len();
    lemma_split(s, j2, lit2, a + (lit3 + (sc + "}"@)));
    lemma_p_lit(s, j2, lit2);
    let j3 = j2 + lit2.len();
    lemma_split(s, j3, a, lit3 + (sc + "}"@));
    lemma_p_answer_type(s, j3, e.answer);
    let j4 = j3 + a.len();
    lemma_split(s, j4, lit3, sc + "}"@);
    lemma_p_lit(s, j4, lit3);
    let j5 = j4 + lit3.len();
    lemma_split(s, j5, sc, "}"@);
    lemma_p_score(s, j5, e.score);
    let j6 = j5 + sc.len();
    lemma_p_lit(s, j6, "}"@);
    assert(p_entry(s, i) == Some((entry_v(e), i + enc.len())));
}

/// An answer array body the writer wrote is read back as the original
/// entries.
pub proof fn lemma_p_entry_items(s: Seq<char>, i: int, items: Seq<AnswerEntry>, fuel: nat)
    requires
        fuel >= items.len(),
        0 <= i,
        ({
            let m = items.map_values(|e: AnswerEntry| crate::codec::json_answer_entry(e));
            &&& i + crate::codec::json_join(m).len() + 1 <= s.len()
            &&& s.subrange(i, i + crate::codec::json_join(m).len() + 1) == crate::codec::json_join(
                m,
            ) + seq![']']
        }),
    ensures
        ({
            let m = items.map_values(|e: AnswerEntry| crate::codec::json_answer_entry(e));
            p_entry_items(s, i, fuel) == Some(
                (
                    items.map_values(|e: AnswerEntry| entry_v(e)),
                    i + crate::codec::json_join(m).len() + 1,
                ),
            )
        }),
    decreases items.len(),
{
    reveal_strlit("{\"question\":");
    reveal_strlit(",");
    let m = items.map_values(|e: AnswerEntry| crate::codec::json_answer_entry(e));
    let jl = crate::codec::json_join(m).len() as int;
    if items.len() == 0 {
        assert(crate::codec::json_join(m) =~= Seq::<char>::empty());
        assert(s[i] == ']') by {
            assert(s.subrange(i, i + 1)[0] == ']');
        }
        assert(items.map_values(|e: AnswerEntry| entry_v(e)) =~= Seq::<EntryV>::empty());
    } else {
        lemma_join_first(m);
        let first = crate::codec::json_answer_entry(items[0]);
        assert(m[0] == first);
        assert(first[0] == '{') by {
            assert(first =~= "{\"question\":"@ + first.subrange(12, first.len() as int));
        }
        if items.len() == 1 {
            assert(crate::codec::json_join(m) == first);
            lemma_split(s, i, first, seq![']']);
            lemma_p_entry(s, i, items[0]);
            let j = i + first.len();
            assert(s[j] == ']') by {
                assert(s.subrange(j, j + 1)[0] == ']');
            }
            assert(s[i] == '{') by {
                assert(s.subrange(i, i + first.len())[0] == first[0]);
            }
            assert(s[i] != ']' && s[j] != ',');
            assert(seq![entry_v(items[0])] =~= items.map_values(|e: AnswerEntry| entry_v(e)));
        } else {
            let rest_join = crate::codec::json_join(m.drop_first());
            let tail = ","@ + rest_join + seq![']'];
            assert(crate::codec::json_join(m) + seq![']'] =~= first + tail);
            lemma_split(s, i, first, tail);
            lemma_p_entry(s, i, items[0]);
            let j = i + first.len();
            assert(tail =~= ","@ + (rest_join + seq![']']));
            lemma_split(s, j, ","@, rest_join + seq![']']);
            assert(s[j] == ',') by {
                assert(s.subrange(j, j + 1)[0] == ","@[0]);
            }
            assert(s[i] == '{') by {
                assert(s.subrange(i, i + first.len())[0] == first[0]);
            }
            assert(s[i] != ']');
            assert(m.drop_first() =~= items.drop_first().map_values(
                |e: AnswerEntry| crate::codec::json_answer_entry(e),
            ));
            lemma_p_entry_items(s, j + 1, items.drop_first(), (fuel - 1) as nat);
            assert(seq![entry_v(items[0])] + items.drop_first().map_values(
                |e: AnswerEntry| entry_v(e),
            ) =~= items.map_values(|e: AnswerEntry| entry_v(e)));
            assert(i + jl + 1 == j + 1 + crate::codec::json_join(m.drop_first()).len() + 1);
        }
    }
}

/// A user record the writer wrote is read back as its parsed shape.
pub proof fn lemma_p_user(s: Seq<char>, i: int, u: UserEntry)
    requires
        0 <= i,
        i + crate::codec::json_user(u).len() <= s.len(),
        s.subrange(i, i + crate::codec::json_user(u).len()) == crate::codec::json_user(u),
    ensures
        p_user(s, i) == Some((user_v(u), i + crate::codec::json_user(u).len())),
{
    reveal_strlit("{\"name\":");
    reveal_strlit(",\"bonus\":");
    reveal_strlit(",\"answers\":[");
    reveal_strlit("[");
    reveal_strlit("]");
    reveal_strlit("]}");
    reveal_strlit("}");
    let enc = crate::codec::json_user(u);
    let lit1 = "{\"name\":"@;
    let t = crate::codec::json_string(u.name@);
    let lit2 = ",\"bonus\":"@;
    let b = json_int(u.bonus as int);
    let lit3 = ",\"answers\":["@;
    let m = u.answers@.map_values(|e: AnswerEntry| crate::codec::json_answer_entry(e));
    let join = crate::codec::json_join(m);
    assert(enc =~= lit1 + (t + (lit2 + (b + (lit3 + ((join + seq![']']) + "}"@))))));
    lemma_split(s, i, lit1, t + (lit2 + (b + (lit3 + ((join + seq![']']) + "}"@)))));
    lemma_p_lit(s, i, lit1);
    let j1 = i + lit1.len();
    lemma_split(s, j1, t, lit2 + (b + (lit3 + ((join + seq![']']) + "}"@))));
    lemma_p_string(s, j1, u.name@);
    let j2 = j1 + t.len();
    lemma_split(s, j2, lit2, b + (lit3 + ((join + seq![']']) + "}"@)));
    lemma_p_lit(s, j2, lit2);
    let j3 = j2 + lit2.len();
    lemma_split(s, j3, b, lit3 + ((join + seq![']']) + "}"@));
    let j4 = j3 + b.len();
    assert(s[j4] == ',') by {
        assert(s.subrange(j4, j4 + lit3.len())[0] == lit3[0]);
    }
    assert(!is_digit(s[j4]));
    lemma_p_i64(s, j3, u.bonus);
    lemma_split(s, j4, lit3, (join + seq![']']) + "}"@);
    lemma_p_lit(s, j4, lit3);
    let j5 = j4 + lit3.len();
    lemma_split(s, j5, join + seq![']'], "}"@);
    assert forall|k: int| 0 <= k < m.len() implies (#[trigger] m[k]).len() >= 1 by {
        assert(m[k] == crate::codec::json_answer_entry(u.answers@[k]));
    }
    lemma_join_len(m);
    lemma_p_entry_items(s, j5, u.answers@, s.len());
    let j6 = j5 + join.len() + 1;
    lemma_p_lit(s, j6, "}"@);
    assert(p_user(s, i) == Some((user_v(u), i + enc.len())));
}

/// A user array body the writer wrote is read back as the original users.
#[verifier::rlimit(60)]
pub proof fn lemma_p_user_items(s: Seq<char>, i: int, items: Seq<UserEntry>, fuel: nat)
    requires
        fuel >= items.len(),
        0 <= i,
        ({
            let m = items.map_values(|u: UserEntry| crate::codec::json_user(u));
            &&& i + crate::codec::json_join(m).len() + 1 <= s.len()
            &&& s.subrange(i, i + crate::codec::json_join(m).len() + 1) == crate::codec::json_join(
                m,
            ) + seq![']']
        }),
    ensures
        ({
            let m = items.map_values(|u: UserEntry| crate::codec::json_user(u));
            p_user_items(s, i, fuel) == Some(
                (
                    items.map_values(|u: UserEntry| user_v(u)),
                    i + crate::codec::json_join(m).len() + 1,
                ),
            )
        }),
    decreases items.len(),
{
    reveal_strlit("{\"name\":");
    reveal_strlit(",");
    let m = items.map_values(|u: UserEntry| crate::codec::json_user(u));
    let jl = crate::codec::json_join(m).len() as int;
    if items.len() == 0 {
        assert(crate::codec::json_join(m) =~= Seq::<char>::empty());
        assert(s[i] == ']') by {
            assert(s.subrange(i, i + 1)[0] == ']');
        }
        assert(items.map_values(|u: UserEntry| user_v(u)) =~= Seq::<UserV>::empty());
    } else {
        lemma_join_first(m);
        let first = crate::codec::json_user(items[0]);
        assert(m[0] == first);
        assert(first[0] == '{') by {
            assert(first =~= "{\"name\":"@ + first.subrange(8, first.len() as int));
        }
        if items.len() == 1 {
            assert(crate::codec::json_join(m) == first);
            lemma_split(s, i, first, seq![']']);
            lemma_p_user(s, i, items[0]);
            let j = i + first.len();
            assert(s[j] == ']') by {
                assert(s.subrange(j, j + 1)[0] == ']');
            }
            assert(s[i] == '{') by {
                assert(s.subrange(i, i + first.len())[0] == first[0]);
            }
            assert(s[i] != ']' && s[j] != ',');
            assert(seq![user_v(items[0])] =~= items.map_values(|u: UserEntry| user_v(u)));
        } else {
            let rest_join = crate::codec::json_join(m.drop_first());
            let tail = ","@ + rest_join + seq![']'];
            assert(crate::codec::json_join(m) + seq![']'] =~= first + tail);
            lemma_split(s, i, first, tail);
            lemma_p_user(s, i, items[0]);
            let j = i + first.len();
            assert(tail =~= ","@ + (rest_join + seq![']']));
            lemma_split(s, j, ","@, rest_join + seq![']']);
            assert(s[j] == ',') by {
                assert(s.subrange(j, j + 1)[0] == ","@[0]);
            }
            assert(s[i] == '{') by {
                assert(s.subrange(i, i + first.len())[0] == first[0]);
            }
            assert(s[i] != ']');
            assert(m.drop_first() =~= items.drop_first().map_values(
                |u: UserEntry| crate::codec::json_user(u),
            ));
            lemma_p_user_items(s, j + 1, items.drop_first(), (fuel - 1) as nat);
            assert(seq![user_v(items[0])] + items.drop_first().map_values(
                |u: UserEntry| user_v(u),
            ) =~= items.map_values(|u: UserEntry| user_v(u)));
            assert(i + jl + 1 == j + 1 + crate::codec::json_join(m.drop_first()).len() + 1);
        }
    }
}

/// The snapshot document decomposes into its eight fragments.
#[verifier::rlimit(100)]
proof fn lemma_state_doc_shape(st: QuizState)
    ensures
        ({
            let mq = st.config.questions@.map_values(
                |q: crate::question::Question| crate::codec::json_question(q),
            );
            let mu = st.users@.map_values(|u: UserEntry| crate::codec::json_user(u));
            json_state(st) == "{\"config\":{\"title\":"@ + (crate::codec::json_string(
                st.config.title@,
            ) + (",\"questions\":["@ + ((crate::codec::json_join(mq) + seq![']']) + ("},\"status\":"@
                + (crate::codec::json_status(st.status) + (",\"users\":["@ + ((
            crate::codec::json_join(mu) + seq![']']) + "}"@)))))))
        }),
{
    reveal_strlit("{\"config\":");
    reveal_strlit("{\"title\":");
    reveal_strlit("{\"config\":{\"title\":");
    reveal_strlit(",\"questions\":[");
    reveal_strlit("]}");
    reveal_strlit("},\"status\":");
    reveal_strlit(",\"status\":");
    reveal_strlit(",\"users\":[");
    reveal_strlit("}");
    reveal_strlit("]");
    reveal_strlit("[");
    let mq = st.config.questions@.map_values(
        |q: crate::question::Question| crate::codec::json_question(q),
    );
    let mu = st.users@.map_values(|u: UserEntry| crate::codec::json_user(u));
    assert(json_state(st) =~= "{\"config\":{\"title\":"@ + (crate::codec::json_string(
        st.config.title@,
    ) + (",\"questions\":["@ + ((crate::codec::json_join(mq) + seq![']']) + ("},\"status\":"@ + (
    crate::codec::json_status(st.status) + (",\"users\":["@ + ((crate::codec::json_join(mu)
        + seq![']']) + "}"@))))))));
}

/// The eight fragments of the snapshot document each stand at their own
/// position.
#[verifier::rlimit(100)]
proof fn lemma_state_doc_splits(st: QuizState)
    ensures
        ({
            let s = json_state(st);
            let stat = crate::codec::json_status(st.status);
            let mq = st.config.questions@.map_values(
                |q: crate::question::Question| crate::codec::json_question(q),
            );
            let joinq = crate::codec::json_join(mq);
            let mu = st.users@.map_values(|u: UserEntry| crate::codec::json_user(u));
            let joinu = crate::codec::json_join(mu);
            let lit1 = "{\"config\":{\"title\":"@;
            let t = crate::codec::json_string(st.config.title@);
            let lit2 = ",\"questions\":["@;
            let lit3 = "},\"status\":"@;
            let lit4 = ",\"users\":["@;
            let j1 = lit1.len() as int;
            let j2 = j1 + t.len();
            let j3 = j2 + lit2.len();
            let j4 = j3 + joinq.len() + 1;
            let j5 = j4 + lit3.len();
            let j6 = j5 + stat.len();
            let j7 = j6 + lit4.len();
            let j8 = j7 + joinu.len() + 1;
            &&& s.len() == j8 + 1
            &&& s.subrange(0, j1) == lit1
            &&& s.subrange(j1, j2) == t
            &&& s.subrange(j2, j3) == lit2
            &&& s.subrange(j3, j4) == joinq + seq![']']
            &&& s.subrange(j4, j5) == lit3
            &&& s.subrange(j5, j6) == stat
            &&& s.subrange(j6, j7) == lit4
            &&& s.subrange(j7, j8) == joinu + seq![']']
            &&& s.subrange(j8, j8 + 1) == "}"@
        }),
{
    reveal_strlit("{\"config\":{\"title\":");
    reveal_strlit(",\"questions\":[");
    reveal_strlit("},\"status\":");
    reveal_strlit(",\"users\":[");
    reveal_strlit("}");
    let s = json_state(st);
    assert(s.subrange(0, s.len() as int) =~= s);
    let stat = crate::codec::json_status(st.status);
    let mq = st.config.questions@.map_values(
        |q: crate::question::Question| crate::codec::json_question(q),
    );
    let joinq = crate::codec::json_join(mq);
    let mu = st.users@.map_values(|u: UserEntry| crate::codec::json_user(u));
    let joinu = crate::codec::json_join(mu);
    let lit1 = "{\"config\":{\"title\":"@;
    let t = crate::codec::json_string(st.config.title@);
    let lit2 = ",\"questions\":["@;
    let lit3 = "},\"status\":"@;
    let lit4 = ",\"users\":["@;
    lemma_state_doc_shape(st);
    lemma_split(s, 0, lit1, t + (lit2 + ((joinq + seq![']']) + (lit3 + (stat + (lit4 + ((joinu
        + seq![']']) + "}"@)))))));
    let j1 = lit1.len() as int;
    lemma_split(s, j1, t, lit2 + ((joinq + seq![']']) + (lit3 + (stat + (lit4 + ((joinu
        + seq![']']) + "}"@))))));
    let j2 = j1 + t.len();
    lemma_split(s, j2, lit2, (joinq + seq![']']) + (lit3 + (stat + (lit4 + ((joinu + seq![']'])
        + "}"@)))));
    let j3 = j2 + lit2.len();
    lemma_split(s, j3, joinq + seq![']'], lit3 + (stat + (lit4 + ((joinu + seq![']']) + "}"@))));
    let j4 = j3 + joinq.len() + 1;
    lemma_split(s, j4, lit3, stat + (lit4 + ((joinu + seq![']']) + "}"@)));
    let j5 = j4 + lit3.len();
    lemma_split(s, j5, stat, lit4 + ((joinu + seq![']']) + "}"@));
    let j6 = j5 + stat.len();
    lemma_split(s, j6, lit4, (joinu + seq![']']) + "}"@);
    let j7 = j6 + lit4.len();
    lemma_split(s, j7, joinu + seq![']'], "}"@);
}

/// Law: reading back a written snapshot reproduces the aggregate exactly —
/// the same title, questions, status and per-user answers and scores.
#[verifier::rlimit(100)]
pub proof fn lemma_snapshot_roundtrip(st: QuizState)
    ensures
        p_state_doc(json_state(st)) == Some(state_v(st)),
{
    let s = json_state(st);
    let stat = crate::codec::json_status(st.status);
    let mq = st.config.questions@.map_values(
        |q: crate::question::Question| crate::codec::json_question(q),
    );
    let joinq = crate::codec::json_join(mq);
    let mu = st.users@.map_values(|u: UserEntry| crate::codec::json_user(u));
    let joinu = crate::codec::json_join(mu);
    let lit1 = "{\"config\":{\"title\":"@;
    let t = crate::codec::json_string(st.config.title@);
    let lit2 = ",\"questions\":["@;
    let lit3 = "},\"status\":"@;
    let lit4 = ",\"users\":["@;
    let j1 = lit1.len() as int;
    let j2 = j1 + t.len();
    let j3 = j2 + lit2.len();
    let j4 = j3 + joinq.len() + 1;
    let j5 = j4 + lit3.len();
    let j6 = j5 + stat.len();
    let j7 = j6 + lit4.len();
    let j8 = j7 + joinu.len() + 1;
    lemma_state_doc_splits(st);
    lemma_p_lit(s, 0, lit1);
    lemma_p_string(s, j1, st.config.title@);
    lemma_p_lit(s, j2, lit2);
    assert forall|k: int| 0 <= k < mq.len() implies (#[trigger] mq[k]).len() >= 1 by {
        assert(mq[k] == crate::codec::json_question(st.config.questions@[k]));
    }
    lemma_join_len(mq);
    lemma_p_question_items(s, j3, st.config.questions@, s.len());
    lemma_p_lit(s, j4, lit3);
    lemma_p_status(s, j5, st.status);
    lemma_p_lit(s, j6, lit4);
    assert forall|k: int| 0 <= k < mu.len() implies (#[trigger] mu[k]).len() >= 1 by {
        assert(mu[k] == crate::codec::json_user(st.users@[k]));
    }
    lemma_join_len(mu);
    lemma_p_user_items(s, j7, st.users@, s.len());
    lemma_p_lit(s, j8, "}"@);
    assert(j8 + 1 == s.len());
    assert(p_state_doc(s) == Some(state_v(st)));
}

// ----- the executable reader, a mirror of the spec-level parser -----

/// Values only grow as a digit run extends.
proof fn lemma_num_val_ge(s: Seq<char>, i: int, k: int, j: int)
    requires
        i <= k <= j,
    ensures
        num_val(s, i, j) >= num_val(s, i, k),
    decreases j - k,
{
    if k < j {
        lemma_num_val_ge(s, i, k, j - 1);
    }
}

/// A digit run never ends before it starts.
proof fn lemma_run_end_ge_start(s: Seq<char>, i: int)
    requires
        0 <= i <= s.len(),
    ensures
        digit_run_end(s, i) >= i,
    decreases s.len() - i,
{
    if i < s.len() && is_digit(s[i]) {
        lemma_run_end_ge_start(s, i + 1);
    }
}

/// The digit run from `i` reaches past any all-digit stretch.
proof fn lemma_run_end_ge(s: Seq<char>, i: int, m: int)
    requires
        0 <= i <= m <= s.len(),
        forall|k: int| i <= k < m ==> is_digit(s[k]),
    ensures
        digit_run_end(s, i) >= m,
    decreases m - i,
{
    if i < m {
        lemma_run_end_ge(s, i + 1, m);
    } else {
        lemma_run_end_ge_start(s, i);
    }
}

/// Match `lit` at position `i`.
fn e_lit(s: &str, i: usize, lit: &str) -> (r: Option<usize>)
    ensures
        match r {
            Some(j) => p_lit(s@, i as int, lit@) == Some(j as int) && i <= j <= s@.len(),
            None => p_lit(s@, i as int, lit@) is None,
        },
{
    let n = s.unicode_len();
    let m = lit.unicode_len();
    if i > n || m > n - i {
        return None;
    }
    let mut k: usize = 0;
    while k < m
        invariant
            n == s@.len(),
            m == lit@.len(),
            i + m <= n,
            k <= m,
            forall|l: int| 0 <= l < k ==> s@[i + l] == lit@[l],
        decreases m - k,
    {
        if s.get_char(i + k) != lit.get_char(k) {
            proof {
                if p_lit(s@, i as int, lit@) is Some {
                    assert(s@.subrange(i as int, i + m) =~= lit@);
                    assert(s@[i + k] == lit@[k as int]);
                }
            }
            return None;
        }
        k += 1;
    }
    proof {
        assert(s@.subrange(i as int, i + m) =~= lit@);
    }
    Some(i + m)
}

/// Whether the character at `k` is a decimal digit.
fn digit_at(s: &str, k: usize) -> (r: bool)
    requires
        k < s@.len(),
    ensures
        r == is_digit(s@[k as int]),
{
    let d = s.get_char(k) as u32;
    48 <= d && d <= 57
}

/// Read a digit run as a number, when its value fits 128 bits.
fn e_num(s: &str, i: usize) -> (r: Option<(u128, usize)>)
    ensures
        match r {
            Some((v, j)) => p_num(s@, i as int) == Some((v as nat, j as int)) && i < j
                <= s@.len(),
            None => p_num(s@, i as int) is None || (p_num(s@, i as int) matches Some((nv, _))
                && nv > u128::MAX),
        },
{
    let n = s.unicode_len();
    if i >= n {
        return None;
    }
    let c0 = s.get_char(i) as u32;
    if c0 < 48 || c0 > 57 {
        return None;
    }
    let mut acc: u128 = (c0 - 48) as u128;
    let mut k: usize = i + 1;
    proof {
        assert(num_val(s@, i as int, i as int) == 0);
        assert(acc as nat == num_val(s@, i as int, i as int + 1));
    }
    while k < n && digit_at(s, k)
        invariant
            n == s@.len(),
            i < k <= n,
            acc as nat == num_val(s@, i as int, k as int),
            forall|l: int| i <= l < k ==> is_digit(s@[l]),
        decreases n - k,
    {
        let d = (s.get_char(k) as u32 - 48) as u128;
        let next = match acc.checked_mul(10) {
            Some(m) => m.checked_add(d),
            None => None,
        };
        match next {
            Some(v) => {
                acc = v;
            },
            None => {
                proof {
                    assert(num_val(s@, i as int, k as int + 1) == acc * 10 + digit_val(s@[
                        k as int
                    ]));
                    assert(acc * 10 + d > u128::MAX);
                    lemma_run_end_ge(s@, i as int, k as int + 1);
                    lemma_num_val_ge(s@, i as int, k as int + 1, digit_run_end(s@, i as int));
                }
                return None;
            },
        }
        k += 1;
    }
    proof {
        lemma_digit_run_end(s@, i as int, k as int);
    }
    Some((acc, k))
}

/// Read a number that fits a machine word.
fn e_usize(s: &str, i: usize) -> (r: Option<(usize, usize)>)
    ensures
        match r {
            Some((v, j)) => p_usize(s@, i as int) == Some((v, j as int)) && i < j <= s@.len(),
            None => p_usize(s@, i as int) is None,
        },
{
    match e_num(s, i) {
        Some((v, j)) => {
            if v <= usize::MAX as u128 {
                Some((v as usize, j))
            } else {
                None
            }
        },
        None => None,
    }
}

/// Read an optionally negated number that fits an `i64`.
fn e_i64(s: &str, i: usize) -> (r: Option<(i64, usize)>)
    ensures
        match r {
            Some((v, j)) => p_i64(s@, i as int) == Some((v, j as int)) && i < j <= s@.len(),
            None => p_i64(s@, i as int) is None,
        },
{
    let n = s.unicode_len();
    if i < n && s.get_char(i) == '-' {
        match e_num(s, i + 1) {
            Some((v, j)) => {
                if v <= 0x8000_0000_0000_0000u128 {
                    let x: i64 = if v == 0x8000_0000_0000_0000u128 {
                        i64::MIN
                    } else {
                        -(v as i64)
                    };
                    Some((x, j))
                } else {
                    None
                }
            },
            None => None,
        }
    } else {
        match e_num(s, i) {
            Some((v, j)) => {
                if v <= 0x7fff_ffff_ffff_ffffu128 {
                    Some((v as i64, j))
                } else {
                    None
                }
            },
            None => None,
        }
    }
}

/// Read a string body through its closing quote, undoing escapes.
fn e_str_body(s: &str, i: usize) -> (r: Option<(String, usize)>)
    ensures
        match r {
            Some((t, j)) => p_str_body(s@, i as int) == Some((t@, j as int)) && i < j
                <= s@.len(),
            None => p_str_body(s@, i as int) is None,
        },
    decreases s@.len() - i,
{
    let n = s.unicode_len();
    if i >= n {
        return None;
    }
    let c = s.get_char(i);
    if c == '"' {
        return Some((String::new(), i + 1));
    }
    if c == '\\' {
        if i + 1 >= n {
            return None;
        }
        let e = s.get_char(i + 1);
        let dec: char = if e == '"' {
            '"'
        } else if e == '\\' {
            '\\'
        } else if e == 'n' {
            '\n'
        } else if e == 'r' {
            '\r'
        } else if e == 't' {
            '\t'
        } else {
            return None;
        };
        match e_str_body(s, i + 2) {
            None => None,
            Some((rest, j)) => {
                let mut out = String::new();
                crate::codec::push_char(&mut out, dec);
                out.append(rest.as_str());
                proof {
                    assert(out@ =~= seq![dec] + rest@);
                }
                Some((out, j))
            },
        }
    } else {
        match e_str_body(s, i + 1) {
            None => None,
            Some((rest, j)) => {
                let mut out = String::new();
                crate::codec::push_char(&mut out, c);
                out.append(rest.as_str());
                proof {
                    assert(out@ =~= seq![s@[i as int]] + rest@);
                }
                Some((out, j))
            },
        }
    }
}

/// Read a quoted string.
fn e_string(s: &str, i: usize) -> (r: Option<(String, usize)>)
    ensures
        match r {
            Some((t, j)) => p_string(s@, i as int) == Some((t@, j as int)) && i < j <= s@.len(),
            None => p_string(s@, i as int) is None,
        },
{
    let n = s.unicode_len();
    if i < n && s.get_char(i) == '"' {
        e_str_body(s, i + 1)
    } else {
        None
    }
}

/// Read a quoted string or the word `null`.
fn e_opt_string(s: &str, i: usize) -> (r: Option<(Option<String>, usize)>)
    ensures
        match r {
            Some((t, j)) => p_opt_string(s@, i as int) == Some(
                (
                    match t {
                        Some(x) => Some(x@),
                        None => None,
                    },
                    j as int,
                ),
            ) && i < j <= s@.len(),
            None => p_opt_string(s@, i as int) is None,
        },
{
    let n = s.unicode_len();
    if i < n && s.get_char(i) == '"' {
        match e_string(s, i) {
            Some((t, j)) => Some((Some(t), j)),
            None => None,
        }
    } else {
        match e_lit(s, i, "null") {
            Some(j) => {
                proof {
                    reveal_strlit("null");
                    assert(("null"@).len() == 4);
                }
                Some((None, j))
            },
            None => None,
        }
    }
}

/// Read the rest of a string array after its opening bracket.
fn e_str_items(s: &str, i: usize, fuel: usize) -> (r: Option<(Vec<String>, usize)>)
    ensures
        match r {
            Some((items, j)) => p_str_items(s@, i as int, fuel as nat) == Some(
                (items@.map_values(|x: String| x@), j as int),
            ) && i < j <= s@.len(),
            None => p_str_items(s@, i as int, fuel as nat) is None,
        },
    decreases fuel,
{
    let n = s.unicode_len();
    if i >= n {
        return None;
    }
    if s.get_char(i) == ']' {
        let items: Vec<String> = Vec::new();
        proof {
            assert(items@.map_values(|x: String| x@) =~= Seq::<Seq<char>>::empty());
        }
        return Some((items, i + 1));
    }
    match e_string(s, i) {
        None => None,
        Some((t, j)) => {
            if j < n && s.get_char(j) == ',' {
                if fuel == 0 {
                    None
                } else {
                    match e_str_items(s, j + 1, fuel - 1) {
                        None => None,
                        Some((mut rest, k)) => {
                            let ghost old_rest = rest@;
                            rest.insert(0, t);
                            proof {
                                assert(rest@.map_values(|x: String| x@) =~= seq![t@]
                                    + old_rest.map_values(|x: String| x@));
                            }
                            Some((rest, k))
                        },
                    }
                }
            } else if j < n && s.get_char(j) == ']' {
                let mut items: Vec<String> = Vec::new();
                items.push(t);
                proof {
                    assert(items@.map_values(|x: String| x@) =~= seq![items@[0]@]);
                }
                Some((items, j + 1))
            } else {
                None
            }
        },
    }
}

/// Read the rest of a number array after its opening bracket.
fn e_usize_items(s: &str, i: usize, fuel: usize) -> (r: Option<(Vec<usize>, usize)>)
    ensures
        match r {
            Some((items, j)) => p_usize_items(s@, i as int, fuel as nat) == Some(
                (items@, j as int),
            ) && i < j <= s@.len(),
            None => p_usize_items(s@, i as int, fuel as nat) is None,
        },
    decreases fuel,
{
    let n = s.unicode_len();
    if i >= n {
        return None;
    }
    if s.get_char(i) == ']' {
        let items: Vec<usize> = Vec::new();
        proof {
            assert(items@ =~= Seq::<usize>::empty());
        }
        return Some((items, i + 1));
    }
    match e_usize(s, i) {
        None => None,
        Some((v, j)) => {
            if j < n && s.get_char(j) == ',' {
                if fuel == 0 {
                    None
                } else {
                    match e_usize_items(s, j + 1, fuel - 1) {
                        None => None,
                        Some((mut rest, k)) => {
                            let ghost old_rest = rest@;
                            rest.insert(0, v);
                            proof {
                                assert(rest@ =~= seq![v] + old_rest);
                            }
                            Some((rest, k))
                        },
                    }
                }
            } else if j < n && s.get_char(j) == ']' {
                let mut items: Vec<usize> = Vec::new();
                items.push(v);
                proof {
                    assert(items@ =~= seq![v]);
                }
                Some((items, j + 1))
            } else {
                None
            }
        },
    }
}

/// Read a question type.
fn e_question_type(s: &str, i: usize) -> (r: Option<(QuestionType, usize)>)
    ensures
        match r {
            Some((qt, j)) => p_question_type(s@, i as int) == Some((qt_v(qt), j as int)) && i < j
                <= s@.len(),
            None => p_question_type(s@, i as int) is None,
        },
{
    let n = s.unicode_len();
    if let Some(j) = e_lit(s, i, "\"Open\"") {
        proof {
            reveal_strlit("\"Open\"");
        }
        return Some((QuestionType::Open, j));
    }
    if let Some(j) = e_lit(s, i, "{\"MultiChoice\":{\"options\":[") {
        proof {
            reveal_strlit("{\"MultiChoice\":{\"options\":[");
        }
        match e_str_items(s, j, n) {
            Some((options, j)) => match e_lit(s, j, ",\"answer\":") {
                Some(j) => match e_usize(s, j) {
                    Some((answer, j)) => match e_lit(s, j, "}}") {
                        Some(j) => {
                            let qt = QuestionType::MultiChoice { options, answer };
                            proof {
                                assert(qt_v(qt) matches QtV::MultiChoice { .. });
                            }
                            return Some((qt, j));
                        },
                        None => {
                            return None;
                        },
                    },
                    None => {
                        return None;
                    },
                },
                None => {
                    return None;
                },
            },
            None => {
                return None;
            },
        }
    }
    if let Some(j) = e_lit(s, i, "{\"MultiOption\":{\"options\":[") {
        proof {
            reveal_strlit("{\"MultiOption\":{\"options\":[");
        }
        match e_str_items(s, j, n) {
            Some((options, j)) => match e_lit(s, j, ",\"answers\":[") {
                Some(j) => match e_usize_items(s, j, n) {
                    Some((answers, j)) => match e_lit(s, j, "}}") {
                        Some(j) => {
                            let qt = QuestionType::MultiOption { options, answers };
                            return Some((qt, j));
                        },
                        None => {
                            return None;
                        },
                    },
                    None => {
                        return None;
                    },
                },
                None => {
                    return None;
                },
            },
            None => {
                return None;
            },
        }
    }
    None
}

/// Read a status.
fn e_status(s: &str, i: usize) -> (r: Option<(QuizStatus, usize)>)
    ensures
        match r {
            Some((st, j)) => p_status(s@, i as int) == Some((st, j as int)) && i < j <= s@.len(),
            None => p_status(s@, i as int) is None,
        },
{
    if let Some(j) = e_lit(s, i, "\"Lobby\"") {
        proof {
            reveal_strlit("\"Lobby\"");
        }
        return Some((QuizStatus::Lobby, j));
    }
    if let Some(j) = e_lit(s, i, "\"Done\"") {
        proof {
            reveal_strlit("\"Done\"");
        }
        return Some((QuizStatus::Done, j));
    }
    if let Some(j) = e_lit(s, i, "{\"Question\":{\"id\":") {
        proof {
            reveal_strlit("{\"Question\":{\"id\":");
        }
        match e_usize(s, j) {
            Some((id, j)) => match e_lit(s, j, ",\"locked\":") {
                Some(j) => {
                    let locked_parse: Option<(bool, usize)> = match e_lit(s, j, "true") {
                        Some(j) => Some((true, j)),
                        None => match e_lit(s, j, "false") {
                            Some(j) => Some((false, j)),
                            None => None,
                        },
                    };
                    match locked_parse {
                        Some((locked, j)) => match e_lit(s, j, "}}") {
                            Some(j) => {
                                return Some((QuizStatus::Question { id, locked }, j));
                            },
                            None => {
                                return None;
                            },
                        },
                        None => {
                            return None;
                        },
                    }
                },
                None => {
                    return None;
                },
            },
            None => {
                return None;
            },
        }
    }
    None
}

/// Read an answer payload.
fn e_answer_type(s: &str, i: usize) -> (r: Option<(AnswerType, usize)>)
    ensures
        match r {
            Some((a, j)) => p_answer_type(s@, i as int) == Some((at_v(a), j as int)) && i < j
                <= s@.len(),
            None => p_answer_type(s@, i as int) is None,
        },
{
    let n = s.unicode_len();
    if let Some(j) = e_lit(s, i, "{\"Open\":") {
        proof {
            reveal_strlit("{\"Open\":");
        }
        match e_string(s, j) {
            Some((text, j)) => match e_lit(s, j, "}") {
                Some(j) => {
                    return Some((AnswerType::Open(text), j));
                },
                None => {
                    return None;
                },
            },
            None => {
                return None;
            },
        }
    }
    if let Some(j) = e_lit(s, i, "{\"MultiChoice\":") {
        proof {
            reveal_strlit("{\"MultiChoice\":");
        }
        match e_usize(s, j) {
            Some((pick, j)) => match e_lit(s, j, "}") {
                Some(j) => {
                    return Some((AnswerType::MultiChoice(pick), j));
                },
                None => {
                    return None;
                },
            },
            None => {
                return None;
            },
        }
    }
    if let Some(j) = e_lit(s, i, "{\"MultiOption\":[") {
        proof {
            reveal_strlit("{\"MultiOption\":[");
        }
        match e_usize_items(s, j, n) {
            Some((picks, j)) => match e_lit(s, j, "}") {
                Some(j) => {
                    return Some((AnswerType::MultiOption(picks), j));
                },
                None => {
                    return None;
                },
            },
            None => {
                return None;
            },
        }
    }
    None
}

/// Read a score.
fn e_score(s: &str, i: usize) -> (r: Option<(Score, usize)>)
    ensures
        match r {
            Some((sc, j)) => p_score(s@, i as int) == Some((sc, j as int)) && i < j <= s@.len(),
            None => p_score(s@, i as int) is None,
        },
{
    if let Some(j) = e_lit(s, i, "\"Ungraded\"") {
        proof {
            reveal_strlit("\"Ungraded\"");
        }
        return Some((Score::Ungraded, j));
    }
    if let Some(j) = e_lit(s, i, "{\"Grade\":") {
        proof {
            reveal_strlit("{\"Grade\":");
        }
        match e_usize(s, j) {
            Some((g, j)) => match e_lit(s, j, "}") {
                Some(j) => {
                    return Some((Score::Grade(g), j));
                },
                None => {
                    return None;
                },
            },
            None => {
                return None;
            },
        }
    }
    None
}

/// Read one question.
fn e_question(s: &str, i: usize) -> (r: Option<(crate::question::Question, usize)>)
    ensures
        match r {
            Some((q, j)) => p_question(s@, i as int) == Some((question_v(q), j as int)) && i < j
                <= s@.len(),
            None => p_question(s@, i as int) is None,
        },
{
    let j = match e_lit(s, i, "{\"title\":") {
        Some(j) => j,
        None => {
            return None;
        },
    };
    let (title, j) = match e_string(s, j) {
        Some(x) => x,
        None => {
            return None;
        },
    };
    let j = match e_lit(s, j, ",\"image\":") {
        Some(j) => j,
        None => {
            return None;
        },
    };
    let (image, j) = match e_opt_string(s, j) {
        Some(x) => x,
        None => {
            return None;
        },
    };
    let j = match e_lit(s, j, ",\"min\":") {
        Some(j) => j,
        None => {
            return None;
        },
    };
    let (min, j) = match e_usize(s, j) {
        Some(x) => x,
        None => {
            return None;
        },
    };
    let j = match e_lit(s, j, ",\"max\":") {
        Some(j) => j,
        None => {
            return None;
        },
    };
    let (max, j) = match e_usize(s, j) {
        Some(x) => x,
        None => {
            return None;
        },
    };
    let j = match e_lit(s, j, ",\"type_spec\":") {
        Some(j) => j,
        None => {
            return None;
        },
    };
    let (type_spec, j) = match e_question_type(s, j) {
        Some(x) => x,
        None => {
            return None;
        },
    };
    let j = match e_lit(s, j, "}") {
        Some(j) => j,
        None => {
            return None;
        },
    };
    let q = crate::question::Question {
        title,
        image,
        grade_range: crate::question::GradeRange { min, max },
        type_spec,
    };
    Some((q, j))
}

/// Read the rest of a question array after its opening bracket.
fn e_question_items(s: &str, i: usize, fuel: usize) -> (r: Option<
    (Vec<crate::question::Question>, usize),
>)
    ensures
        match r {
            Some((items, j)) => p_question_items(s@, i as int, fuel as nat) == Some(
                (
                    items@.map_values(|q: crate::question::Question| question_v(q)),
                    j as int,
                ),
            ) && i < j <= s@.len(),
            None => p_question_items(s@, i as int, fuel as nat) is None,
        },
    decreases fuel,
{
    let n = s.unicode_len();
    if i >= n {
        return None;
    }
    if s.get_char(i) == ']' {
        let items: Vec<crate::question::Question> = Vec::new();
        proof {
            assert(items@.map_values(|q: crate::question::Question| question_v(q))
                =~= Seq::<QuestionV>::empty());
        }
        return Some((items, i + 1));
    }
    match e_question(s, i) {
        None => None,
        Some((q, j)) => {
            if j < n && s.get_char(j) == ',' {
                if fuel == 0 {
                    None
                } else {
                    match e_question_items(s, j + 1, fuel - 1) {
                        None => None,
                        Some((mut rest, k)) => {
                            let ghost old_rest = rest@;
                            let ghost qv = question_v(q);
                            rest.insert(0, q);
                            proof {
                                assert(rest@.map_values(
                                    |q: crate::question::Question| question_v(q),
                                ) =~= seq![qv] + old_rest.map_values(
                                    |q: crate::question::Question| question_v(q),
                                ));
                            }
                            Some((rest, k))
                        },
                    }
                }
            } else if j < n && s.get_char(j) == ']' {
                let ghost qv = question_v(q);
                let mut items: Vec<crate::question::Question> = Vec::new();
                items.push(q);
                proof {
                    assert(items@.map_values(|q: crate::question::Question| question_v(q))
                        =~= seq![qv]);
                }
                Some((items, j + 1))
            } else {
                None
            }
        },
    }
}

/// Read one stored answer.
fn e_entry(s: &str, i: usize) -> (r: Option<(AnswerEntry, usize)>)
    ensures
        match r {
            Some((e, j)) => p_entry(s@, i as int) == Some((entry_v(e), j as int)) && i < j
                <= s@.len(),
            None => p_entry(s@, i as int) is None,
        },
{
    let j = match e_lit(s, i, "{\"question\":") {
        Some(j) => j,
        None => {
            return None;
        },
    };
    let (question, j) = match e_string(s, j) {
        Some(x) => x,
        None => {
            return None;
        },
    };
    let j = match e_lit(s, j, ",\"answer\":") {
        Some(j) => j,
        None => {
            return None;
        },
    };
    let (answer, j) = match e_answer_type(s, j) {
        Some(x) => x,
        None => {
            return None;
        },
    };
    let j = match e_lit(s, j, ",\"score\":") {
        Some(j) => j,
        None => {
            return None;
        },
    };
    let (score, j) = match e_score(s, j) {
        Some(x) => x,
        None => {
            return None;
        },
    };
    let j = match e_lit(s, j, "}") {
        Some(j) => j,
        None => {
            return None;
        },
    };
    Some((AnswerEntry { question, answer, score }, j))
}

/// Read the rest of an answer array after its opening bracket.
fn e_entry_items(s: &str, i: usize, fuel: usize) -> (r: Option<(Vec<AnswerEntry>, usize)>)
    ensures
        match r {
            Some((items, j)) => p_entry_items(s@, i as int, fuel as nat) == Some(
                (items@.map_values(|e: AnswerEntry| entry_v(e)), j as int),
            ) && i < j <= s@.len(),
            None => p_entry_items(s@, i as int, fuel as nat) is None,
        },
    decreases fuel,
{
    let n = s.unicode_len();
    if i >= n {
        return None;
    }
    if s.get_char(i) == ']' {
        let items: Vec<AnswerEntry> = Vec::new();
        proof {
            assert(items@.map_values(|e: AnswerEntry| entry_v(e)) =~= Seq::<EntryV>::empty());
        }
        return Some((items, i + 1));
    }
    match e_entry(s, i) {
        None => None,
        Some((e, j)) => {
            if j < n && s.get_char(j) == ',' {
                if fuel == 0 {
                    None
                } else {
                    match e_entry_items(s, j + 1, fuel - 1) {
                        None => None,
                        Some((mut rest, k)) => {
                            let ghost old_rest = rest@;
                            let ghost ev = entry_v(e);
                            rest.insert(0, e);
                            proof {
                                assert(rest@.map_values(|e: AnswerEntry| entry_v(e)) =~= seq![ev]
                                    + old_rest.map_values(|e: AnswerEntry| entry_v(e)));
                            }
                            Some((rest, k))
                        },
                    }
                }
            } else if j < n && s.get_char(j) == ']' {
                let ghost ev = entry_v(e);
                let mut items: Vec<AnswerEntry> = Vec::new();
                items.push(e);
                proof {
                    assert(items@.map_values(|e: AnswerEntry| entry_v(e)) =~= seq![ev]);
                }
                Some((items, j + 1))
            } else {
                None
            }
        },
    }
}

/// Read one user record.
fn e_user(s: &str, i: usize) -> (r: Option<(UserEntry, usize)>)
    ensures
        match r {
            Some((u, j)) => p_user(s@, i as int) == Some((user_v(u), j as int)) && i < j
                <= s@.len(),
            None => p_user(s@, i as int) is None,
        },
{
    let n = s.unicode_len();
    let j = match e_lit(s, i, "{\"name\":") {
        Some(j) => j,
        None => {
            return None;
        },
    };
    let (name, j) = match e_string(s, j) {
        Some(x) => x,
        None => {
            return None;
        },
    };
    let j = match e_lit(s, j, ",\"bonus\":") {
        Some(j) => j,
        None => {
            return None;
        },
    };
    let (bonus, j) = match e_i64(s, j) {
        Some(x) => x,
        None => {
            return None;
        },
    };
    let j = match e_lit(s, j, ",\"answers\":[") {
        Some(j) => j,
        None => {
            return None;
        },
    };
    let (answers, j) = match e_entry_items(s, j, n) {
        Some(x) => x,
        None => {
            return None;
        },
    };
    let j = match e_lit(s, j, "}") {
        Some(j) => j,
        None => {
            return None;
        },
    };
    Some((UserEntry { name, bonus, answers }, j))
}

/// Read the rest of a user array after its opening bracket.
fn e_user_items(s: &str, i: usize, fuel: usize) -> (r: Option<(Vec<UserEntry>, usize)>)
    ensures
        match r {
            Some((items, j)) => p_user_items(s@, i as int, fuel as nat) == Some(
                (items@.map_values(|u: UserEntry| user_v(u)), j as int),
            ) && i < j <= s@.len(),
            None => p_user_items(s@, i as int, fuel as nat) is None,
        },
    decreases fuel,
{
    let n = s.unicode_len();
    if i >= n {
        return None;
    }
    if s.get_char(i) == ']' {
        let items: Vec<UserEntry> = Vec::new();
        proof {
            assert(items@.map_values(|u: UserEntry| user_v(u)) =~= Seq::<UserV>::empty());
        }
        return Some((items, i + 1));
    }
    match e_user(s, i) {
        None => None,
        Some((u, j)) => {
            if j < n && s.get_char(j) == ',' {
                if fuel == 0 {
                    None
                } else {
                    match e_user_items(s, j + 1, fuel - 1) {
                        None => None,
                        Some((mut rest, k)) => {
                            let ghost old_rest = rest@;
                            let ghost uv = user_v(u);
                            rest.insert(0, u);
                            proof {
                                assert(rest@.map_values(|u: UserEntry| user_v(u)) =~= seq![uv]
                                    + old_rest.map_values(|u: UserEntry| user_v(u)));
                            }
                            Some((rest, k))
                        },
                    }
                }
            } else if j < n && s.get_char(j) == ']' {
                let ghost uv = user_v(u);
                let mut items: Vec<UserEntry> = Vec::new();
                items.push(u);
                proof {
                    assert(items@.map_values(|u: UserEntry| user_v(u)) =~= seq![uv]);
                }
                Some((items, j + 1))
            } else {
                None
            }
        },
    }
}

/// Read a whole snapshot document back into a state aggregate, per the
/// spec-level parser; the root path of the result is empty and is up to
/// the caller, since a snapshot never carries one.
pub fn parse_snapshot(data: &str) -> (r: Option<QuizState>)
    ensures
        match r {
            Some(c) => p_state_doc(data@) == Some(state_v(c)) && c.root@ == Seq::<char>::empty(),
            None => p_state_doc(data@) is None,
        },
{
    let n = data.unicode_len();
    let j = match e_lit(data, 0, "{\"config\":{\"title\":") {
        Some(j) => j,
        None => {
            return None;
        },
    };
    let (title, j) = match e_string(data, j) {
        Some(x) => x,
        None => {
            return None;
        },
    };
    let j = match e_lit(data, j, ",\"questions\":[") {
        Some(j) => j,
        None => {
            return None;
        },
    };
    let (questions, j) = match e_question_items(data, j, n) {
        Some(x) => x,
        None => {
            return None;
        },
    };
    let j = match e_lit(data, j, "},\"status\":") {
        Some(j) => j,
        None => {
            return None;
        },
    };
    let (status, j) = match e_status(data, j) {
        Some(x) => x,
        None => {
            return None;
        },
    };
    let j = match e_lit(data, j, ",\"users\":[") {
        Some(j) => j,
        None => {
            return None;
        },
    };
    let (users, j) = match e_user_items(data, j, n) {
        Some(x) => x,
        None => {
            return None;
        },
    };
    let j = match e_lit(data, j, "}") {
        Some(j) => j,
        None => {
            return None;
        },
    };
    if j != n {
        return None;
    }
    let state = QuizState {
        config: crate::state::Config { title, questions },
        root: String::new(),
        status,
        users,
    };
    proof {
        assert(p_state_doc(data@) == Some(state_v(state)));
    }
    Some(state)
}

} // verus!
