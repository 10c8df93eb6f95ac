use quiz_server::error::Error;
use quiz_server::question::{Answer, AnswerType, GradeRange, Question, QuestionType};
use quiz_server::state::{Config, QuizState};
use quiz_server::status::{Event, QuizStatus, Score};

fn mc_question(title: &str, options: Vec<&str>, answer: usize, max: usize) -> Question {
    Question::new(
        title.to_string(),
        None,
        GradeRange::new(0, max),
        QuestionType::MultiChoice {
            options: options.into_iter().map(|s| s.to_string()).collect(),
            answer,
        },
    )
}

fn open_question(title: &str, max: usize) -> Question {
    Question::new(title.to_string(), None, GradeRange::new(0, max), QuestionType::Open)
}

fn two_question_state() -> QuizState {
    let config = Config::new(
        "Pub quiz".to_string(),
        vec![mc_question("Q0", vec!["red", "blue"], 0, 10), open_question("Q1", 10)],
    );
    QuizState::new("root".to_string(), config).unwrap()
}

fn submit(state: &mut QuizState, user: &str, question: &str, answer: AnswerType) -> Result<String, String> {
    state.submit_answer(Answer::new(user.to_string(), question.to_string(), answer))
}

#[test]
fn full_quiz_scenario() {
    let mut s = two_question_state();
    s.add_user("alice".to_string()).unwrap();
    s.add_user("bob".to_string()).unwrap();

    let started = s.start().expect("start should announce the first question");
    match started {
        Event::Question { title, id, total, .. } => {
            assert_eq!(title, "Q0");
            assert_eq!(id, 0);
            assert_eq!(total, 2);
        },
        other => panic!("expected a question event, got {:?}", other),
    }

    assert!(submit(&mut s, "alice", "Q0", AnswerType::MultiChoice(0)).is_ok());
    assert!(submit(&mut s, "bob", "Q0", AnswerType::MultiChoice(1)).is_ok());

    match s.next().expect("next should announce the second question") {
        Event::Question { id, .. } => assert_eq!(id, 1),
        other => panic!("expected a question event, got {:?}", other),
    }

    assert!(submit(&mut s, "alice", "Q1", AnswerType::Open("essay".to_string())).is_ok());
    assert_eq!(s.ungraded_answers(), vec![1]);

    s.update_grade(&"alice".to_string(), &"Q1".to_string(), 7);
    assert_eq!(s.ungraded_answers(), Vec::<usize>::new());

    let ranking = s.ranking();
    assert_eq!(ranking.max_score, 20);
    assert_eq!(ranking.scores, vec![("alice".to_string(), 17i128), ("bob".to_string(), 0i128)]);
}

#[test]
fn add_user_rejects_empty_and_duplicate_names() {
    let mut s = two_question_state();
    assert!(s.add_user(String::new()).is_err());
    assert!(s.add_user("alice".to_string()).is_ok());
    assert!(s.add_user("alice".to_string()).is_err());
    assert_eq!(s.user_count(), 1);
    assert!(s.user_exists(&"alice".to_string()));
    assert!(!s.user_exists(&"bob".to_string()));
}

#[test]
fn start_twice_is_a_no_op() {
    let mut s = two_question_state();
    s.add_user("alice".to_string()).unwrap();
    assert!(s.start().is_some());
    let snapshot = s.snapshot_string();
    assert!(s.start().is_none());
    assert_eq!(s.snapshot_string(), snapshot);
}

#[test]
fn start_requires_a_user() {
    let mut s = two_question_state();
    assert!(s.start().is_none());
    assert!(matches!(s.status(), QuizStatus::Lobby));
}

#[test]
fn next_past_the_last_question_finishes_and_then_stalls() {
    let mut s = two_question_state();
    s.add_user("alice".to_string()).unwrap();
    s.start().unwrap();
    assert!(matches!(s.next(), Some(Event::Question { id: 1, .. })));
    assert!(matches!(s.next(), Some(Event::Finished)));
    assert!(matches!(s.status(), QuizStatus::Done));
    let snapshot = s.snapshot_string();
    assert!(s.next().is_none());
    assert_eq!(s.snapshot_string(), snapshot);
}

#[test]
fn redo_out_of_range_is_a_no_op() {
    let mut s = two_question_state();
    s.add_user("alice".to_string()).unwrap();
    s.start().unwrap();
    let snapshot = s.snapshot_string();
    assert!(s.redo(2).is_none());
    assert_eq!(s.snapshot_string(), snapshot);
    assert!(matches!(s.redo(1), Some(Event::Question { id: 1, .. })));
}

#[test]
fn locked_question_rejects_submissions_and_redo_unlocks() {
    let mut s = two_question_state();
    s.add_user("alice".to_string()).unwrap();
    s.start().unwrap();
    s.lock_question();
    let refused = submit(&mut s, "alice", "Q0", AnswerType::MultiChoice(0));
    assert_eq!(refused, Err("Could not submit answer: question is locked.".to_string()));
    assert!(matches!(s.redo(0), Some(Event::Question { id: 0, .. })));
    assert!(submit(&mut s, "alice", "Q0", AnswerType::MultiChoice(0)).is_ok());
}

#[test]
fn submitting_to_the_wrong_question_fails() {
    let mut s = two_question_state();
    s.add_user("alice".to_string()).unwrap();
    s.start().unwrap();
    let refused = submit(&mut s, "alice", "Q1", AnswerType::Open("early".to_string()));
    assert_eq!(refused, Err("Could not submit answer: no question open.".to_string()));
    let unknown_user = submit(&mut s, "mallory", "Q0", AnswerType::MultiChoice(0));
    assert_eq!(unknown_user, Err("Could not submit answer: server error.".to_string()));
    let unknown_question = submit(&mut s, "alice", "Q9", AnswerType::MultiChoice(0));
    assert_eq!(unknown_question, Err("Could not submit answer: server error.".to_string()));
}

#[test]
fn resubmitting_overwrites_the_previous_answer() {
    let mut s = two_question_state();
    s.add_user("alice".to_string()).unwrap();
    s.start().unwrap();
    submit(&mut s, "alice", "Q0", AnswerType::MultiChoice(1)).unwrap();
    assert_eq!(s.ranking().scores[0].1, 0);
    submit(&mut s, "alice", "Q0", AnswerType::MultiChoice(0)).unwrap();
    assert_eq!(s.ranking().scores[0].1, 10);
    let (rows, range) = s.answers(0).unwrap();
    assert_eq!(range, (0, 10));
    assert_eq!(rows.len(), 1);
    assert_eq!(rows[0].0, "alice");
    assert_eq!(rows[0].1, ("red".to_string(), Score::Grade(10)));
}

#[test]
fn update_grade_ignores_missing_answers_and_out_of_range_grades() {
    let mut s = two_question_state();
    s.add_user("alice".to_string()).unwrap();
    s.start().unwrap();
    s.next().unwrap();
    submit(&mut s, "alice", "Q1", AnswerType::Open("essay".to_string())).unwrap();
    let snapshot = s.snapshot_string();
    s.update_grade(&"bob".to_string(), &"Q1".to_string(), 5);
    s.update_grade(&"alice".to_string(), &"Q9".to_string(), 5);
    s.update_grade(&"alice".to_string(), &"Q1".to_string(), 11);
    assert_eq!(s.snapshot_string(), snapshot);
    s.update_grade(&"alice".to_string(), &"Q1".to_string(), 10);
    assert_eq!(s.ranking().scores, vec![("alice".to_string(), 10i128)]);
}

#[test]
fn ranking_sorts_descending_and_keeps_login_order_on_ties() {
    let mut s = two_question_state();
    for name in ["ann", "ben", "cat"] {
        s.add_user(name.to_string()).unwrap();
    }
    s.start().unwrap();
    submit(&mut s, "ben", "Q0", AnswerType::MultiChoice(0)).unwrap();
    let ranking = s.ranking();
    assert_eq!(
        ranking.scores,
        vec![
            ("ben".to_string(), 10i128),
            ("ann".to_string(), 0i128),
            ("cat".to_string(), 0i128),
        ]
    );
}

#[test]
fn bonus_adjusts_totals_in_either_direction() {
    let mut s = two_question_state();
    s.add_user("alice".to_string()).unwrap();
    s.add_user("bob".to_string()).unwrap();
    assert!(s.add_bonus(&"alice".to_string(), 3).is_ok());
    assert!(s.add_bonus(&"bob".to_string(), -4).is_ok());
    assert!(s.add_bonus(&"mallory".to_string(), 1).is_err());
    let ranking = s.ranking();
    assert_eq!(
        ranking.scores,
        vec![("alice".to_string(), 3i128), ("bob".to_string(), -4i128)]
    );
}

#[test]
fn no_answer_users_lists_only_silent_users() {
    let mut s = two_question_state();
    s.add_user("alice".to_string()).unwrap();
    s.add_user("bob".to_string()).unwrap();
    assert_eq!(s.no_answer_users(), Vec::<String>::new());
    s.start().unwrap();
    assert_eq!(s.no_answer_users(), vec!["alice".to_string(), "bob".to_string()]);
    submit(&mut s, "bob", "Q0", AnswerType::MultiChoice(1)).unwrap();
    assert_eq!(s.no_answer_users(), vec!["alice".to_string()]);
}

#[test]
fn lobby_event_lists_users_only_in_the_lobby() {
    let mut s = two_question_state();
    s.add_user("alice".to_string()).unwrap();
    match s.lobby() {
        Some(Event::Lobby { users }) => assert_eq!(users, vec!["alice".to_string()]),
        other => panic!("expected a lobby event, got {:?}", other),
    }
    s.start().unwrap();
    assert!(s.lobby().is_none());
}

#[test]
fn import_with_matching_roster_restores_the_aggregate() {
    let mut live = two_question_state();
    live.add_user("alice".to_string()).unwrap();

    let mut other = two_question_state();
    other.add_user("alice".to_string()).unwrap();
    other.start().unwrap();
    submit(&mut other, "alice", "Q0", AnswerType::MultiChoice(0)).unwrap();
    let expected = other.snapshot_string();

    match live.import_state(other) {
        Ok(Some(Event::Question { id, .. })) => assert_eq!(id, 0),
        other => panic!("expected the live question event, got {:?}", other),
    }
    assert_eq!(live.snapshot_string(), expected);
    assert_eq!(live.root(), "root");
}

#[test]
fn import_with_differing_roster_is_rejected_and_changes_nothing() {
    let mut live = two_question_state();
    live.add_user("alice".to_string()).unwrap();
    let before = live.snapshot_string();

    let mut other = two_question_state();
    other.add_user("alice".to_string()).unwrap();
    other.add_user("bob".to_string()).unwrap();

    match live.import_state(other) {
        Err(Error::Message(m)) => {
            assert_eq!(m, "Current users and imported users do not match");
        },
        other => panic!("expected a roster mismatch error, got {:?}", other),
    }
    assert_eq!(live.snapshot_string(), before);
}

#[test]
fn remove_user_drops_the_roster_entry() {
    let mut s = two_question_state();
    s.add_user("alice".to_string()).unwrap();
    s.add_user("bob".to_string()).unwrap();
    assert!(s.remove_user(&"alice".to_string()).is_ok());
    assert!(s.remove_user(&"alice".to_string()).is_err());
    assert_eq!(s.users(), vec!["bob".to_string()]);
}

#[test]
fn config_checks_reject_bad_banks() {
    let flipped = Config::new(
        "bad".to_string(),
        vec![Question::new(
            "Q0".to_string(),
            None,
            GradeRange { min: 5, max: 2 },
            QuestionType::Open,
        )],
    );
    assert!(QuizState::new("root".to_string(), flipped).is_err());
    let duplicated = Config::new(
        "bad".to_string(),
        vec![open_question("Q0", 5), open_question("Q0", 5)],
    );
    assert!(QuizState::new("root".to_string(), duplicated).is_err());
}

#[test]
fn questions_lists_titles_in_order() {
    let s = two_question_state();
    let qs = s.questions();
    assert_eq!(qs.len(), 2);
    assert_eq!(qs[0].0, "Q0");
    assert_eq!(qs[1].0, "Q1");
    assert!(matches!(qs[1].1, QuestionType::Open));
    assert_eq!(s.title(), "Pub quiz");
    assert_eq!(s.question(1).unwrap().title(), "Q1");
    assert!(s.question(2).is_none());
}

#[test]
fn answers_view_is_absent_for_an_unknown_question() {
    let mut s = two_question_state();
    s.add_user("alice".to_string()).unwrap();
    assert!(s.answers(2).is_none());
    let (rows, range) = s.answers(1).unwrap();
    assert_eq!(range, (0, 10));
    assert_eq!(rows, vec![("alice".to_string(), ("".to_string(), Score::Ungraded))]);
}

#[test]
fn question_event_announces_the_finish_past_the_bank() {
    let s = two_question_state();
    assert!(matches!(s.question_event(0), Some(Event::Question { id: 0, .. })));
    assert!(matches!(s.question_event(2), Some(Event::Finished)));
    assert!(s.question_event(3).is_none());
}

#[test]
fn answer_strings_render_selected_options() {
    let q = Question::new(
        "multi".to_string(),
        None,
        GradeRange::new(0, 4),
        QuestionType::MultiOption {
            options: vec!["a".to_string(), "b".to_string(), "c".to_string()],
            answers: vec![0, 2],
        },
    );
    assert_eq!(q.get_answer_string(&AnswerType::MultiOption(vec![0, 2])), "a, c");
    assert_eq!(q.get_answer_string(&AnswerType::MultiOption(vec![1])), "b");
    assert_eq!(q.get_answer_string(&AnswerType::MultiOption(vec![])), "");
    assert_eq!(q.calculate_score(&AnswerType::MultiOption(vec![0, 2])), Some(4));
    assert_eq!(q.calculate_score(&AnswerType::MultiOption(vec![2, 0])), Some(0));
    assert_eq!(q.calculate_score(&AnswerType::Open("text".to_string())), None);
}
