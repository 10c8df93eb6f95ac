//! The JSON wire format: events as tagged JSON objects, and the state
//! snapshot as a single JSON document. The spec functions here define the
//! exact character sequence produced; the builders are proved to emit it.

use vstd::prelude::*;
use crate::question::{AnswerType, Question, QuestionSendType, QuestionType};
use crate::state::{AnswerEntry, Config, QuizState, UserEntry};
use crate::status::{Event, QuizStatus, Ranking, Score};

verus! {

/// The decimal digit character for `d`.
pub open spec fn digit_char(d: int) -> char {
    if d == 0 {
        '0'
    } else if d == 1 {
        '1'
    } else if d == 2 {
        '2'
    } else if d == 3 {
        '3'
    } else if d == 4 {
        '4'
    } else if d == 5 {
        '5'
    } else if d == 6 {
        '6'
    } else if d == 7 {
        '7'
    } else if d == 8 {
        '8'
    } else {
        '9'
    }
}

/// The decimal digits of `n`, most significant first, no leading zeros
/// (a single zero for zero).
pub open spec fn dec_digits(n: nat) -> Seq<char>
    decreases n,
{
    if n < 10 {
        seq![digit_char(n as int)]
    } else {
        dec_digits(n / 10).push(digit_char((n % 10) as int))
    }
}

/// The decimal form of `v`, a minus sign leading a negative value.
pub open spec fn json_int(v: int) -> Seq<char> {
    if v < 0 {
        "-"@ + dec_digits((-v) as nat)
    } else {
        dec_digits(v as nat)
    }
}

/// How one character appears inside a JSON string: quote, backslash and
/// the common control characters are escaped; everything else stands as
/// itself.
pub open spec fn esc_char(c: char) -> Seq<char> {
    if c == '"' {
        "\\\""@
    } else if c == '\\' {
        "\\\\"@
    } else if c == '\n' {
        "\\n"@
    } else if c == '\r' {
        "\\r"@
    } else if c == '\t' {
        "\\t"@
    } else {
        seq![c]
    }
}

/// `s` with every character escaped for a JSON string body.
pub open spec fn json_escaped(s: Seq<char>) -> Seq<char>
    decreases s.len(),
{
    if s.len() == 0 {
        Seq::<char>::empty()
    } else {
        json_escaped(s.drop_last()) + esc_char(s.last())
    }
}

/// `s` as a quoted, escaped JSON string.
pub open spec fn json_string(s: Seq<char>) -> Seq<char> {
    "\""@ + json_escaped(s) + "\""@
}

/// `items` joined by commas.
pub open spec fn json_join(items: Seq<Seq<char>>) -> Seq<char>
    decreases items.len(),
{
    if items.len() == 0 {
        Seq::<char>::empty()
    } else if items.len() == 1 {
        items.last()
    } else {
        json_join(items.drop_last()) + ","@ + items.last()
    }
}

/// A JSON array of strings.
pub open spec fn json_str_array(items: Seq<String>) -> Seq<char> {
    "["@ + json_join(items.map_values(|s: String| json_string(s@))) + "]"@
}

/// A JSON array of numbers.
pub open spec fn json_usize_array(items: Seq<usize>) -> Seq<char> {
    "["@ + json_join(items.map_values(|n: usize| dec_digits(n as nat))) + "]"@
}

/// A string or JSON null.
pub open spec fn json_opt_string(s: Option<String>) -> Seq<char> {
    match s {
        Some(t) => json_string(t@),
        None => "null"@,
    }
}

/// A question type with its key, tagged by kind.
pub open spec fn json_question_type(qt: QuestionType) -> Seq<char> {
    match qt {
        QuestionType::MultiChoice { options, answer } => "{\"MultiChoice\":{\"options\":"@
            + json_str_array(options@) + ",\"answer\":"@ + dec_digits(answer as nat) + "}}"@,
        QuestionType::MultiOption { options, answers } => "{\"MultiOption\":{\"options\":"@
            + json_str_array(options@) + ",\"answers\":"@ + json_usize_array(answers@) + "}}"@,
        QuestionType::Open => "\"Open\""@,
    }
}

/// One question of the bank.
pub open spec fn json_question(q: Question) -> Seq<char> {
    "{\"title\":"@ + json_string(q.title@) + ",\"image\":"@ + json_opt_string(q.image)
        + ",\"min\":"@ + dec_digits(q.grade_range.min as nat) + ",\"max\":"@ + dec_digits(
        q.grade_range.max as nat,
    ) + ",\"type_spec\":"@ + json_question_type(q.type_spec) + "}"@
}

/// The configuration: title and question bank.
pub open spec fn json_config(c: Config) -> Seq<char> {
    "{\"title\":"@ + json_string(c.title@) + ",\"questions\":["@ + json_join(
        c.questions@.map_values(|q: Question| json_question(q)),
    ) + "]}"@
}

/// The status of the state machine.
pub open spec fn json_status(st: QuizStatus) -> Seq<char> {
    match st {
        QuizStatus::Lobby => "\"Lobby\""@,
        QuizStatus::Question { id, locked } => "{\"Question\":{\"id\":"@ + dec_digits(id as nat)
            + ",\"locked\":"@ + (if locked {
            "true"@
        } else {
            "false"@
        }) + "}}"@,
        QuizStatus::Done => "\"Done\""@,
    }
}

/// A submitted answer payload, tagged by kind.
pub open spec fn json_answer_type(a: AnswerType) -> Seq<char> {
    match a {
        AnswerType::MultiChoice(pick) => "{\"MultiChoice\":"@ + dec_digits(pick as nat) + "}"@,
        AnswerType::MultiOption(picks) => "{\"MultiOption\":"@ + json_usize_array(picks@) + "}"@,
        AnswerType::Open(text) => "{\"Open\":"@ + json_string(text@) + "}"@,
    }
}

/// A score: a grade, or still ungraded.
pub open spec fn json_score(s: Score) -> Seq<char> {
    match s {
        Score::Ungraded => "\"Ungraded\""@,
        Score::Grade(g) => "{\"Grade\":"@ + dec_digits(g as nat) + "}"@,
    }
}

/// One stored answer of one user.
pub open spec fn json_answer_entry(e: AnswerEntry) -> Seq<char> {
    "{\"question\":"@ + json_string(e.question@) + ",\"answer\":"@ + json_answer_type(e.answer)
        + ",\"score\":"@ + json_score(e.score) + "}"@
}

/// One registered user with all stored answers.
pub open spec fn json_user(u: UserEntry) -> Seq<char> {
    "{\"name\":"@ + json_string(u.name@) + ",\"bonus\":"@ + json_int(u.bonus as int)
        + ",\"answers\":["@ + json_join(u.answers@.map_values(|e: AnswerEntry| json_answer_entry(e)))
        + "]}"@
}

/// The whole snapshot document: configuration, status, users.
pub open spec fn json_state(s: QuizState) -> Seq<char> {
    "{\"config\":"@ + json_config(s.config) + ",\"status\":"@ + json_status(s.status)
        + ",\"users\":["@ + json_join(s.users@.map_values(|u: UserEntry| json_user(u))) + "]}"@
}

/// A participant-facing question type, tagged by kind.
pub open spec fn json_send_type(st: QuestionSendType) -> Seq<char> {
    match st {
        QuestionSendType::MultiChoice(options) => "{\"MultiChoice\":"@ + json_str_array(options@)
            + "}"@,
        QuestionSendType::MultiOption(options) => "{\"MultiOption\":"@ + json_str_array(options@)
            + "}"@,
        QuestionSendType::Open => "\"Open\""@,
    }
}

/// One ranking row: name and total as a two-element array.
pub open spec fn json_score_pair(p: (String, i128)) -> Seq<char> {
    "["@ + json_string(p.0@) + ","@ + json_int(p.1 as int) + "]"@
}

/// The ranking: the reachable maximum and the ordered rows.
pub open spec fn json_ranking(r: Ranking) -> Seq<char> {
    "{\"max_score\":"@ + dec_digits(r.max_score as nat) + ",\"scores\":["@ + json_join(
        r.scores@.map_values(|p: (String, i128)| json_score_pair(p)),
    ) + "]}"@
}

/// An outbound event as a tagged JSON value.
pub open spec fn json_event(e: Event) -> Seq<char> {
    match e {
        Event::Lobby { users } => "{\"Lobby\":{\"users\":"@ + json_str_array(users@) + "}}"@,
        Event::Question { title, id, total, image, question_type } => "{\"Question\":{\"title\":"@
            + json_string(title@) + ",\"id\":"@ + dec_digits(id as nat) + ",\"total\":"@
            + dec_digits(total as nat) + ",\"image\":"@ + json_opt_string(image)
            + ",\"question_type\":"@ + json_send_type(question_type) + "}}"@,
        Event::Ranking(r) => "{\"Ranking\":"@ + json_ranking(r) + "}"@,
        Event::Finished => "\"Finished\""@,
        Event::Closed => "\"Closed\""@,
    }
}

/// Relies on String::push: appends exactly the one character `c`.
#[verifier::external_body]
pub(crate) fn push_char(s: &mut String, c: char)
    ensures
        final(s)@ == old(s)@.push(c),
{
    s.push(c);
}

/// The decimal digit character for `d`.
fn digit_char_exec(d: u128) -> (c: char)
    requires
        d < 10,
    ensures
        c == digit_char(d as int),
{
    if d == 0 {
        '0'
    } else if d == 1 {
        '1'
    } else if d == 2 {
        '2'
    } else if d == 3 {
        '3'
    } else if d == 4 {
        '4'
    } else if d == 5 {
        '5'
    } else if d == 6 {
        '6'
    } else if d == 7 {
        '7'
    } else if d == 8 {
        '8'
    } else {
        '9'
    }
}

/// Append the decimal digits of `n`.
fn append_u128(out: &mut String, n: u128)
    ensures
        final(out)@ == old(out)@ + dec_digits(n as nat),
    decreases n,
{
    if n >= 10 {
        append_u128(out, n / 10);
    }
    let c = digit_char_exec(n % 10);
    push_char(out, c);
    proof {
        assert(out@ =~= old(out)@ + dec_digits(n as nat));
    }
}

/// Append the decimal form of `v`, sign included.
fn append_i128(out: &mut String, v: i128)
    ensures
        final(out)@ == old(out)@ + json_int(v as int),
{
    if v < 0 {
        out.append("-");
        let m: u128 = ((-(v + 1)) as u128) + 1;
        proof {
            assert(m as nat == (-(v as int)) as nat);
        }
        append_u128(out, m);
        proof {
            assert(out@ =~= old(out)@ + json_int(v as int));
        }
    } else {
        append_u128(out, v as u128);
    }
}

/// Append the body of a JSON string: `s` with every character escaped.
fn append_escaped(out: &mut String, s: &str)
    ensures
        final(out)@ == old(out)@ + json_escaped(s@),
{
    let len = s.unicode_len();
    let mut i: usize = 0;
    while i < len
        invariant
            len == s@.len(),
            i <= len,
            out@ == old(out)@ + json_escaped(s@.take(i as int)),
        decreases len - i,
    {
        let c = s.get_char(i);
        if c == '"' {
            out.append("\\\"");
        } else if c == '\\' {
            out.append("\\\\");
        } else if c == '\n' {
            out.append("\\n");
        } else if c == '\r' {
            out.append("\\r");
        } else if c == '\t' {
            out.append("\\t");
        } else {
            push_char(out, c);
        }
        proof {
            assert(s@.take(i as int + 1).drop_last() =~= s@.take(i as int));
            assert(s@.take(i as int + 1).last() == s@[i as int]);
            assert(out@ =~= old(out)@ + json_escaped(s@.take(i as int + 1)));
        }
        i += 1;
    }
    proof {
        assert(s@.take(s@.len() as int) =~= s@);
    }
}

/// Append `s` as a quoted, escaped JSON string.
fn append_json_string(out: &mut String, s: &String)
    ensures
        final(out)@ == old(out)@ + json_string(s@),
{
    out.append("\"");
    append_escaped(out, s.as_str());
    out.append("\"");
    proof {
        assert(out@ =~= old(out)@ + json_string(s@));
    }
}

/// Append a JSON array of strings.
fn append_str_array(out: &mut String, items: &Vec<String>)
    ensures
        final(out)@ == old(out)@ + json_str_array(items@),
{
    let ghost mapped = items@.map_values(|s: String| json_string(s@));
    out.append("[");
    let mut i: usize = 0;
    while i < items.len()
        invariant
            i <= items@.len(),
            mapped == items@.map_values(|s: String| json_string(s@)),
            out@ == old(out)@ + "["@ + json_join(mapped.take(i as int)),
        decreases items@.len() - i,
    {
        if i > 0 {
            out.append(",");
        }
        append_json_string(out, &items[i]);
        proof {
            assert(mapped.take(i as int + 1).drop_last() =~= mapped.take(i as int));
            assert(mapped.take(i as int + 1).last() == mapped[i as int]);
            assert(out@ =~= old(out)@ + "["@ + json_join(mapped.take(i as int + 1)));
        }
        i += 1;
    }
    out.append("]");
    proof {
        assert(mapped.take(mapped.len() as int) =~= mapped);
        assert(out@ =~= old(out)@ + json_str_array(items@));
    }
}

/// Append a JSON array of numbers.
fn append_usize_array(out: &mut String, items: &Vec<usize>)
    ensures
        final(out)@ == old(out)@ + json_usize_array(items@),
{
    let ghost mapped = items@.map_values(|n: usize| dec_digits(n as nat));
    out.append("[");
    let mut i: usize = 0;
    while i < items.len()
        invariant
            i <= items@.len(),
            mapped == items@.map_values(|n: usize| dec_digits(n as nat)),
            out@ == old(out)@ + "["@ + json_join(mapped.take(i as int)),
        decreases items@.len() - i,
    {
        if i > 0 {
            out.append(",");
        }
        append_u128(out, items[i] as u128);
        proof {
            assert(mapped.take(i as int + 1).drop_last() =~= mapped.take(i as int));
            assert(mapped.take(i as int + 1).last() == mapped[i as int]);
            assert(out@ =~= old(out)@ + "["@ + json_join(mapped.take(i as int + 1)));
        }
        i += 1;
    }
    out.append("]");
    proof {
        assert(mapped.take(mapped.len() as int) =~= mapped);
        assert(out@ =~= old(out)@ + json_usize_array(items@));
    }
}

/// Append a string or JSON null.
fn append_opt_string(out: &mut String, s: &Option<String>)
    ensures
        final(out)@ == old(out)@ + json_opt_string(*s),
{
    match s {
        Some(t) => append_json_string(out, t),
        None => out.append("null"),
    }
}

/// Append a question type with its key.
fn append_question_type(out: &mut String, qt: &QuestionType)
    ensures
        final(out)@ == old(out)@ + json_question_type(*qt),
{
    match qt {
        QuestionType::MultiChoice { options, answer } => {
            out.append("{\"MultiChoice\":{\"options\":");
            append_str_array(out, options);
            out.append(",\"answer\":");
            append_u128(out, *answer as u128);
            out.append("}}");
            proof {
                assert(out@ =~= old(out)@ + json_question_type(*qt));
            }
        },
        QuestionType::MultiOption { options, answers } => {
            out.append("{\"MultiOption\":{\"options\":");
            append_str_array(out, options);
            out.append(",\"answers\":");
            append_usize_array(out, answers);
            out.append("}}");
            proof {
                assert(out@ =~= old(out)@ + json_question_type(*qt));
            }
        },
        QuestionType::Open => {
            out.append("\"Open\"");
        },
    }
}

/// Append one question of the bank.
fn append_question(out: &mut String, q: &Question)
    ensures
        final(out)@ == old(out)@ + json_question(*q),
{
    out.append("{\"title\":");
    append_json_string(out, &q.title);
    out.append(",\"image\":");
    append_opt_string(out, &q.image);
    out.append(",\"min\":");
    append_u128(out, q.grade_range.min as u128);
    out.append(",\"max\":");
    append_u128(out, q.grade_range.max as u128);
    out.append(",\"type_spec\":");
    append_question_type(out, &q.type_spec);
    out.append("}");
    proof {
        assert(out@ =~= old(out)@ + json_question(*q));
    }
}

/// Append the configuration.
fn append_config(out: &mut String, c: &Config)
    ensures
        final(out)@ == old(out)@ + json_config(*c),
{
    let ghost mapped = c.questions@.map_values(|q: Question| json_question(q));
    out.append("{\"title\":");
    append_json_string(out, &c.title);
    out.append(",\"questions\":[");
    let ghost mid = out@;
    let mut i: usize = 0;
    while i < c.questions.len()
        invariant
            i <= c.questions@.len(),
            mapped == c.questions@.map_values(|q: Question| json_question(q)),
            out@ == mid + json_join(mapped.take(i as int)),
        decreases c.questions@.len() - i,
    {
        if i > 0 {
            out.append(",");
        }
        append_question(out, &c.questions[i]);
        proof {
            assert(mapped.take(i as int + 1).drop_last() =~= mapped.take(i as int));
            assert(mapped.take(i as int + 1).last() == mapped[i as int]);
            assert(out@ =~= mid + json_join(mapped.take(i as int + 1)));
        }
        i += 1;
    }
    out.append("]}");
    proof {
        assert(mapped.take(mapped.len() as int) =~= mapped);
        assert(out@ =~= old(out)@ + json_config(*c));
    }
}

/// Append the status of the state machine.
fn append_status(out: &mut String, st: &QuizStatus)
    ensures
        final(out)@ == old(out)@ + json_status(*st),
{
    match st {
        QuizStatus::Lobby => out.append("\"Lobby\""),
        QuizStatus::Question { id, locked } => {
            out.append("{\"Question\":{\"id\":");
            append_u128(out, *id as u128);
            out.append(",\"locked\":");
            if *locked {
                out.append("true");
            } else {
                out.append("false");
            }
            out.append("}}");
            proof {
                assert(out@ =~= old(out)@ + json_status(*st));
            }
        },
        QuizStatus::Done => out.append("\"Done\""),
    }
}

/// Append a submitted answer payload.
fn append_answer_type(out: &mut String, a: &AnswerType)
    ensures
        final(out)@ == old(out)@ + json_answer_type(*a),
{
    match a {
        AnswerType::MultiChoice(pick) => {
            out.append("{\"MultiChoice\":");
            append_u128(out, *pick as u128);
            out.append("}");
            proof {
                assert(out@ =~= old(out)@ + json_answer_type(*a));
            }
        },
        AnswerType::MultiOption(picks) => {
            out.append("{\"MultiOption\":");
            append_usize_array(out, picks);
            out.append("}");
            proof {
                assert(out@ =~= old(out)@ + json_answer_type(*a));
            }
        },
        AnswerType::Open(text) => {
            out.append("{\"Open\":");
            append_json_string(out, text);
            out.append("}");
            proof {
                assert(out@ =~= old(out)@ + json_answer_type(*a));
            }
        },
    }
}

/// Append a score.
fn append_score(out: &mut String, s: &Score)
    ensures
        final(out)@ == old(out)@ + json_score(*s),
{
    match s {
        Score::Ungraded => out.append("\"Ungraded\""),
        Score::Grade(g) => {
            out.append("{\"Grade\":");
            append_u128(out, *g as u128);
            out.append("}");
            proof {
                assert(out@ =~= old(out)@ + json_score(*s));
            }
        },
    }
}

/// Append one stored answer of one user.
fn append_answer_entry(out: &mut String, e: &AnswerEntry)
    ensures
        final(out)@ == old(out)@ + json_answer_entry(*e),
{
    out.append("{\"question\":");
    append_json_string(out, &e.question);
    out.append(",\"answer\":");
    append_answer_type(out, &e.answer);
    out.append(",\"score\":");
    append_score(out, &e.score);
    out.append("}");
    proof {
        assert(out@ =~= old(out)@ + json_answer_entry(*e));
    }
}

/// Append one registered user with all stored answers.
fn append_user(out: &mut String, u: &UserEntry)
    ensures
        final(out)@ == old(out)@ + json_user(*u),
{
    let ghost mapped = u.answers@.map_values(|e: AnswerEntry| json_answer_entry(e));
    out.append("{\"name\":");
    append_json_string(out, &u.name);
    out.append(",\"bonus\":");
    append_i128(out, u.bonus as i128);
    out.append(",\"answers\":[");
    let ghost mid = out@;
    let mut i: usize = 0;
    while i < u.answers.len()
        invariant
            i <= u.answers@.len(),
            mapped == u.answers@.map_values(|e: AnswerEntry| json_answer_entry(e)),
            out@ == mid + json_join(mapped.take(i as int)),
        decreases u.answers@.len() - i,
    {
        if i > 0 {
            out.append(",");
        }
        append_answer_entry(out, &u.answers[i]);
        proof {
            assert(mapped.take(i as int + 1).drop_last() =~= mapped.take(i as int));
            assert(mapped.take(i as int + 1).last() == mapped[i as int]);
            assert(out@ =~= mid + json_join(mapped.take(i as int + 1)));
        }
        i += 1;
    }
    out.append("]}");
    proof {
        assert(mapped.take(mapped.len() as int) =~= mapped);
        assert(out@ =~= old(out)@ + json_user(*u));
    }
}

/// Append a participant-facing question type.
fn append_send_type(out: &mut String, st: &QuestionSendType)
    ensures
        final(out)@ == old(out)@ + json_send_type(*st),
{
    match st {
        QuestionSendType::MultiChoice(options) => {
            out.append("{\"MultiChoice\":");
            append_str_array(out, options);
            out.append("}");
            proof {
                assert(out@ =~= old(out)@ + json_send_type(*st));
            }
        },
        QuestionSendType::MultiOption(options) => {
            out.append("{\"MultiOption\":");
            append_str_array(out, options);
            out.append("}");
            proof {
                assert(out@ =~= old(out)@ + json_send_type(*st));
            }
        },
        QuestionSendType::Open => out.append("\"Open\""),
    }
}

/// Append the ranking.
fn append_ranking(out: &mut String, r: &Ranking)
    ensures
        final(out)@ == old(out)@ + json_ranking(*r),
{
    let ghost mapped = r.scores@.map_values(|p: (String, i128)| json_score_pair(p));
    out.append("{\"max_score\":");
    append_u128(out, r.max_score as u128);
    out.append(",\"scores\":[");
    let ghost mid = out@;
    let mut i: usize = 0;
    while i < r.scores.len()
        invariant
            i <= r.scores@.len(),
            mapped == r.scores@.map_values(|p: (String, i128)| json_score_pair(p)),
            out@ == mid + json_join(mapped.take(i as int)),
        decreases r.scores@.len() - i,
    {
        if i > 0 {
            out.append(",");
        }
        out.append("[");
        append_json_string(out, &r.scores[i].0);
        out.append(",");
        append_i128(out, r.scores[i].1);
        out.append("]");
        proof {
            assert(mapped.take(i as int + 1).drop_last() =~= mapped.take(i as int));
            assert(mapped.take(i as int + 1).last() == mapped[i as int]);
            assert(out@ =~= mid + json_join(mapped.take(i as int + 1)));
        }
        i += 1;
    }
    out.append("]}");
    proof {
        assert(mapped.take(mapped.len() as int) =~= mapped);
        assert(out@ =~= old(out)@ + json_ranking(*r));
    }
}

/// Append an event as a tagged JSON value.
fn append_event(out: &mut String, e: &Event)
    ensures
        final(out)@ == old(out)@ + json_event(*e),
{
    match e {
        Event::Lobby { users } => {
            out.append("{\"Lobby\":{\"users\":");
            append_str_array(out, users);
            out.append("}}");
            proof {
                assert(out@ =~= old(out)@ + json_event(*e));
            }
        },
        Event::Question { title, id, total, image, question_type } => {
            out.append("{\"Question\":{\"title\":");
            append_json_string(out, title);
            out.append(",\"id\":");
            append_u128(out, *id as u128);
            out.append(",\"total\":");
            append_u128(out, *total as u128);
            out.append(",\"image\":");
            append_opt_string(out, image);
            out.append(",\"question_type\":");
            append_send_type(out, question_type);
            out.append("}}");
            proof {
                assert(out@ =~= old(out)@ + json_event(*e));
            }
        },
        Event::Ranking(r) => {
            out.append("{\"Ranking\":");
            append_ranking(out, r);
            out.append("}");
            proof {
                assert(out@ =~= old(out)@ + json_event(*e));
            }
        },
        Event::Finished => out.append("\"Finished\""),
        Event::Closed => out.append("\"Closed\""),
    }
}

impl Event {
    /// The JSON wire form of this event, per `json_event`.
    pub fn to_string(&self) -> (r: String)
        ensures
            r@ == json_event(*self),
    {
        let mut out = String::new();
        append_event(&mut out, self);
        proof {
            assert(out@ =~= json_event(*self));
        }
        out
    }
}

impl QuizState {
    /// The snapshot of this whole state as one JSON document, per
    /// `json_state`.
    pub fn snapshot_string(&self) -> (r: String)
        ensures
            r@ == json_state(*self),
    {
        let ghost mapped = self.users@.map_values(|u: UserEntry| json_user(u));
        let mut out = String::new();
        out.append("{\"config\":");
        append_config(&mut out, &self.config);
        out.append(",\"status\":");
        append_status(&mut out, &self.status);
        out.append(",\"users\":[");
        let ghost mid = out@;
        let mut i: usize = 0;
        while i < self.users.len()
            invariant
                i <= self.users@.len(),
                mapped == self.users@.map_values(|u: UserEntry| json_user(u)),
                out@ == mid + json_join(mapped.take(i as int)),
            decreases self.users@.len() - i,
        {
            if i > 0 {
                out.append(",");
            }
            append_user(&mut out, &self.users[i]);
            proof {
                assert(mapped.take(i as int + 1).drop_last() =~= mapped.take(i as int));
                assert(mapped.take(i as int + 1).last() == mapped[i as int]);
                assert(out@ =~= mid + json_join(mapped.take(i as int + 1)));
            }
            i += 1;
        }
        out.append("]}");
        proof {
            assert(mapped.take(mapped.len() as int) =~= mapped);
            assert(out@ =~= json_state(*self));
        }
        out
    }
}

} // verus!
