use quiz_server::broadcast::Broadcaster;
use quiz_server::question::{Answer, AnswerType, GradeRange, Question, QuestionType};
use quiz_server::state::{Config, QuizState};
use quiz_server::status::{Event, Ranking};

fn sample_state() -> QuizState {
    let config = Config::new(
        "Quiz \"night\"".to_string(),
        vec![
            Question::new(
                "Q0".to_string(),
                Some("img/one.png".to_string()),
                GradeRange::new(0, 10),
                QuestionType::MultiChoice {
                    options: vec!["red".to_string(), "blue".to_string()],
                    answer: 0,
                },
            ),
            Question::new("Q1".to_string(), None, GradeRange::new(0, 5), QuestionType::Open),
        ],
    );
    QuizState::new("root".to_string(), config).unwrap()
}

#[test]
fn plain_events_encode_to_bare_json_strings() {
    assert_eq!(Event::Finished.to_string(), "\"Finished\"");
    assert_eq!(Event::Closed.to_string(), "\"Closed\"");
}

#[test]
fn lobby_event_encodes_users_in_order() {
    let ev = Event::Lobby { users: vec!["alice".to_string(), "bob".to_string()] };
    assert_eq!(ev.to_string(), "{\"Lobby\":{\"users\":[\"alice\",\"bob\"]}}");
}

#[test]
fn ranking_event_encodes_rows_as_pairs() {
    let ev = Event::Ranking(Ranking {
        max_score: 20,
        scores: vec![("alice".to_string(), 17), ("bob".to_string(), -2)],
    });
    assert_eq!(
        ev.to_string(),
        "{\"Ranking\":{\"max_score\":20,\"scores\":[[\"alice\",17],[\"bob\",-2]]}}"
    );
}

#[test]
fn question_event_carries_no_answer_key() {
    let mut s = sample_state();
    s.add_user("alice".to_string()).unwrap();
    let ev = s.start().unwrap();
    let json = ev.to_string();
    assert_eq!(
        json,
        "{\"Question\":{\"title\":\"Q0\",\"id\":0,\"total\":2,\"image\":\"img/one.png\",\
         \"question_type\":{\"MultiChoice\":[\"red\",\"blue\"]}}}"
    );
    assert!(!json.contains("answer"));
}

#[test]
fn event_json_is_well_formed() {
    let mut s = sample_state();
    s.add_user("al\"ice\n".to_string()).unwrap();
    let ev = s.lobby().unwrap();
    let parsed: serde_json::Value = serde_json::from_str(&ev.to_string()).unwrap();
    let users = parsed["Lobby"]["users"].as_array().unwrap();
    assert_eq!(users[0].as_str().unwrap(), "al\"ice\n");
}

#[test]
fn snapshot_is_a_single_json_document() {
    let mut s = sample_state();
    s.add_user("alice".to_string()).unwrap();
    s.start().unwrap();
    s
        .submit_answer(Answer::new(
            "alice".to_string(),
            "Q0".to_string(),
            AnswerType::MultiChoice(1),
        ))
        .unwrap();
    let doc = s.snapshot_string();
    let parsed: serde_json::Value = serde_json::from_str(&doc).unwrap();
    assert_eq!(parsed["config"]["title"].as_str().unwrap(), "Quiz \"night\"");
    assert_eq!(parsed["config"]["questions"].as_array().unwrap().len(), 2);
    assert_eq!(parsed["status"]["Question"]["id"].as_u64().unwrap(), 0);
    assert_eq!(parsed["users"][0]["name"].as_str().unwrap(), "alice");
    assert_eq!(parsed["users"][0]["answers"][0]["score"]["Grade"].as_u64().unwrap(), 0);
}

#[test]
fn broadcaster_prunes_exactly_the_failed_clients() {
    let mut b: Broadcaster<u32> = Broadcaster::new();
    assert!(b.last_event().is_none());
    b.add_client(10);
    b.add_client(20);
    b.add_client(30);
    assert_eq!(b.client_count(), 3);

    let frame = b.begin_publish(Event::Finished);
    assert_eq!(frame, "data:\"Finished\"\n\n");
    b.prune(&vec![true, false, true]);
    assert_eq!(b.clients, vec![10, 30]);
    assert!(matches!(b.last_event(), Some(Event::Finished)));

    let frame = b.begin_publish(Event::Closed);
    assert_eq!(frame, "data:\"Closed\"\n\n");
    b.prune(&vec![true, true]);
    assert_eq!(b.clients, vec![10, 30]);
    b.clear_clients();
    assert_eq!(b.client_count(), 0);
    assert!(matches!(b.last_event(), Some(Event::Closed)));
}
