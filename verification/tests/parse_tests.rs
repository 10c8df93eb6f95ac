use quiz_server::parse::parse_snapshot;
use quiz_server::question::{Answer, AnswerType, GradeRange, Question, QuestionType};
use quiz_server::state::{Config, QuizState};
use quiz_server::status::{Event, QuizStatus};

fn rich_state() -> QuizState {
    let config = Config::new(
        "A \"tricky\"\ttitle\n".to_string(),
        vec![
            Question::new(
                "Q\\0".to_string(),
                Some("img.png".to_string()),
                GradeRange::new(1, 10),
                QuestionType::MultiChoice {
                    options: vec!["y\"es".to_string(), "no".to_string()],
                    answer: 0,
                },
            ),
            Question::new(
                "Q1".to_string(),
                None,
                GradeRange::new(0, 7),
                QuestionType::MultiOption {
                    options: vec!["a".to_string(), "b".to_string()],
                    answers: vec![0, 1],
                },
            ),
            Question::new("Q2".to_string(), None, GradeRange::new(0, 5), QuestionType::Open),
        ],
    );
    let mut s = QuizState::new("root".to_string(), config).unwrap();
    s.add_user("al\"ice".to_string()).unwrap();
    s.add_user("bob".to_string()).unwrap();
    s.add_bonus(&"bob".to_string(), -3).unwrap();
    s.start().unwrap();
    s
        .submit_answer(Answer::new(
            "al\"ice".to_string(),
            "Q\\0".to_string(),
            AnswerType::MultiChoice(0),
        ))
        .unwrap();
    s.next().unwrap();
    s
        .submit_answer(Answer::new(
            "bob".to_string(),
            "Q1".to_string(),
            AnswerType::MultiOption(vec![1, 0]),
        ))
        .unwrap();
    s.next().unwrap();
    s
        .submit_answer(Answer::new(
            "al\"ice".to_string(),
            "Q2".to_string(),
            AnswerType::Open("multi\nline \\ \"answer\"".to_string()),
        ))
        .unwrap();
    s.update_grade(&"al\"ice".to_string(), &"Q2".to_string(), 4);
    s
}

#[test]
fn snapshot_round_trips_byte_for_byte() {
    let s = rich_state();
    let doc = s.snapshot_string();
    let restored = parse_snapshot(&doc).expect("a written snapshot must read back");
    assert_eq!(restored.snapshot_string(), doc);
    assert_eq!(restored.users(), s.users());
    assert_eq!(restored.status(), s.status());
    assert_eq!(restored.title(), s.title());
    assert!(restored.check_wf());
}

#[test]
fn backup_then_import_reproduces_the_aggregate() {
    let s = rich_state();
    let doc = s.snapshot_string();

    let mut live = {
        // A fresh session with the same roster but none of the progress.
        let config = Config::new(
            "other".to_string(),
            vec![Question::new(
                "Qx".to_string(),
                None,
                GradeRange::new(0, 1),
                QuestionType::Open,
            )],
        );
        let mut live = QuizState::new("elsewhere".to_string(), config).unwrap();
        live.add_user("al\"ice".to_string()).unwrap();
        live.add_user("bob".to_string()).unwrap();
        live
    };

    let candidate = parse_snapshot(&doc).unwrap();
    match live.import_state(candidate) {
        Ok(Some(Event::Question { id, .. })) => assert_eq!(id, 2),
        other => panic!("expected the live question event, got {:?}", other),
    }
    assert_eq!(live.snapshot_string(), doc);
    assert_eq!(live.root(), "elsewhere");
    assert!(matches!(live.status(), QuizStatus::Question { id: 2, locked: false }));
}

#[test]
fn parse_rejects_malformed_documents() {
    assert!(parse_snapshot("").is_none());
    assert!(parse_snapshot("{}").is_none());
    assert!(parse_snapshot("{\"config\":{\"title\":\"t\"}").is_none());
    let doc = rich_state().snapshot_string();
    let mut trailing = doc.clone();
    trailing.push(' ');
    assert!(parse_snapshot(&trailing).is_none());
    let truncated = &doc[..doc.len() - 1];
    assert!(parse_snapshot(truncated).is_none());
}

#[test]
fn parse_reads_a_minimal_document() {
    let doc = "{\"config\":{\"title\":\"t\",\"questions\":[]},\"status\":\"Lobby\",\"users\":[]}";
    let s = parse_snapshot(doc).expect("the minimal document is well formed");
    assert_eq!(s.title(), "t");
    assert_eq!(s.user_count(), 0);
    assert!(matches!(s.status(), QuizStatus::Lobby));
    assert_eq!(s.snapshot_string(), doc);
}

#[test]
fn import_rejects_a_candidate_that_breaks_the_invariant() {
    let mut live = {
        let config = Config::new("live".to_string(), vec![]);
        QuizState::new("root".to_string(), config).unwrap()
    };
    let before = live.snapshot_string();
    // A candidate whose live question index points past its empty bank.
    let broken = QuizState {
        config: Config::new("broken".to_string(), vec![]),
        root: String::new(),
        status: QuizStatus::Question { id: 0, locked: false },
        users: vec![],
    };
    assert!(live.import_state(broken).is_err());
    assert_eq!(live.snapshot_string(), before);
}

#[test]
fn parse_accepts_only_machine_sized_numbers() {
    let s = rich_state();
    let doc = s.snapshot_string();
    let huge = doc.replace("\"bonus\":-3", "\"bonus\":99999999999999999999999999999999999999990");
    assert!(parse_snapshot(&huge).is_none());
}
