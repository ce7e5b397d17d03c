use dailyq::{DQError, Listed, Partition, Question, QuestionDB, Walked};

fn q(user: &str, week: u8, text: &str) -> Question {
    Question::new(user.to_string(), week, text.to_string())
}

fn json_error() -> serde_json::Error {
    serde_json::from_str::<Vec<u8>>("not json").unwrap_err()
}

fn io_error() -> std::io::Error {
    std::io::Error::new(std::io::ErrorKind::PermissionDenied, "denied")
}

fn partition(name: &str, qs: Vec<Question>) -> Walked {
    Walked::Entry { name: name.to_string(), is_file: true, contents: Partition::Questions(qs) }
}

#[test]
fn paths_follow_root_user_and_week() {
    let db = QuestionDB::new("db".to_string());
    assert_eq!(db.root(), "db");
    assert_eq!(db.user_dir("alice"), "db/alice");
    assert_eq!(db.path_buf("alice", 3), "db/alice/3");
    assert_eq!(db.path_buf("bob", 0), "db/bob/0");
    assert_eq!(db.path_buf("bob", 255), "db/bob/255");
}

#[test]
fn set_writes_the_whole_list_as_pretty_json() {
    let mut db = QuestionDB::new("db".to_string());
    let w = db
        .set_questions("alice", 3, vec![q("alice", 3, "why?"), q("alice", 3, "how?")])
        .unwrap();
    assert_eq!(w.dir, "db/alice");
    assert_eq!(w.path, "db/alice/3");
    let expected = "[\n  {\n    \"user\": \"alice\",\n    \"week\": 3,\n    \"text\": \"why?\"\n  },\n  {\n    \"user\": \"alice\",\n    \"week\": 3,\n    \"text\": \"how?\"\n  }\n]";
    assert_eq!(w.text, expected);
}

#[test]
fn set_of_no_questions_writes_an_empty_list() {
    let mut db = QuestionDB::new("db".to_string());
    let w = db.set_questions("carol", 9, vec![]).unwrap();
    assert_eq!(w.text, "[]");
    assert_eq!(w.path, "db/carol/9");
}

#[test]
fn set_rejects_a_question_of_another_user() {
    let mut db = QuestionDB::new("db".to_string());
    let r = db.set_questions("alice", 3, vec![q("alice", 3, "a"), q("bob", 3, "b")]);
    assert!(matches!(r, Err(DQError::QuestionsDisagree)));
    assert_eq!(db.root(), "db");
}

#[test]
fn set_rejects_a_question_of_another_week() {
    let mut db = QuestionDB::new("db".to_string());
    let r = db.set_questions("alice", 3, vec![q("alice", 4, "a")]);
    assert!(matches!(r, Err(DQError::QuestionsDisagree)));
}

#[test]
fn written_text_reads_back_as_the_same_questions() {
    let mut db = QuestionDB::new("db".to_string());
    let qs = vec![q("alice", 3, "say \"hi\"\nthen\\go"), q("alice", 3, "été ✓")];
    let w = db.set_questions("alice", 3, qs.clone()).unwrap();
    let v: serde_json::Value = serde_json::from_str(&w.text).unwrap();
    let items = v.as_array().unwrap();
    assert_eq!(items.len(), 2);
    for (item, q) in items.iter().zip(qs.iter()) {
        assert_eq!(item["user"].as_str().unwrap(), q.user);
        assert_eq!(item["week"].as_u64().unwrap(), q.week as u64);
        assert_eq!(item["text"].as_str().unwrap(), q.text);
    }
}

#[test]
fn strings_are_escaped_in_the_written_text() {
    let mut db = QuestionDB::new("db".to_string());
    let w = db.set_questions("a\"b", 1, vec![q("a\"b", 1, "x\ny")]).unwrap();
    assert!(w.text.contains("\"user\": \"a\\\"b\""));
    assert!(w.text.contains("\"text\": \"x\\ny\""));
}

#[test]
fn second_write_replaces_the_first() {
    let mut db = QuestionDB::new("db".to_string());
    let first = db.set_questions("u", 2, vec![q("u", 2, "old")]).unwrap();
    let second = db.set_questions("u", 2, vec![q("u", 2, "new")]).unwrap();
    assert_eq!(first.path, second.path);
    assert!(!second.text.contains("old"));
    assert!(second.text.contains("new"));
}

#[test]
fn missing_partition_reads_as_empty() {
    let db = QuestionDB::new("db".to_string());
    let r = db.get_questions(Partition::Missing).unwrap();
    assert!(r.is_empty());
}

#[test]
fn present_partition_reads_as_its_questions() {
    let db = QuestionDB::new("db".to_string());
    let qs = vec![q("alice", 3, "a"), q("alice", 3, "b")];
    let r = db.get_questions(Partition::Questions(qs.clone())).unwrap();
    assert!(r == qs);
}

#[test]
fn unreadable_partition_is_an_io_error() {
    let db = QuestionDB::new("db".to_string());
    let r = db.get_questions(Partition::Unreadable(io_error()));
    assert!(matches!(r, Err(DQError::IO(_))));
}

#[test]
fn malformed_partition_is_a_json_error() {
    let db = QuestionDB::new("db".to_string());
    let r = db.get_questions(Partition::Malformed(json_error()));
    assert!(matches!(r, Err(DQError::Json(_))));
}

#[test]
fn users_are_the_directories_of_the_root() {
    let db = QuestionDB::new("db".to_string());
    let listing = vec![
        Listed::Entry { name: "alice".to_string(), is_dir: true },
        Listed::Entry { name: "README".to_string(), is_dir: false },
        Listed::Entry { name: "bob".to_string(), is_dir: true },
    ];
    let users = db.get_users(listing).unwrap();
    assert_eq!(users, vec!["alice".to_string(), "bob".to_string()]);
}

#[test]
fn users_of_an_empty_root_are_none() {
    let db = QuestionDB::new("db".to_string());
    assert!(db.get_users(vec![]).unwrap().is_empty());
}

#[test]
fn failed_listing_of_users_is_an_io_error() {
    let db = QuestionDB::new("db".to_string());
    let listing = vec![
        Listed::Entry { name: "alice".to_string(), is_dir: true },
        Listed::Failed(io_error()),
    ];
    assert!(matches!(db.get_users(listing), Err(DQError::IO(_))));
}

#[test]
fn all_questions_gather_every_partition() {
    let db = QuestionDB::new("db".to_string());
    let a = vec![q("alice", 1, "a1"), q("alice", 1, "a2")];
    let b = vec![q("bob", 2, "b1")];
    let walk = vec![
        partition("1", a.clone()),
        Walked::Entry { name: "notes".to_string(), is_file: true, contents: Partition::Missing },
        partition("2", b.clone()),
    ];
    let all = db.get_all_questions(walk).unwrap();
    let mut expected = a;
    expected.extend(b);
    assert!(all == expected);
}

#[test]
fn all_questions_skip_entries_that_are_not_partitions() {
    let db = QuestionDB::new("db".to_string());
    let walk = vec![
        Walked::Entry { name: "x".to_string(), is_file: true, contents: Partition::Malformed(json_error()) },
        Walked::Entry { name: "4".to_string(), is_file: false, contents: Partition::Unreadable(io_error()) },
        Walked::Entry { name: "300".to_string(), is_file: true, contents: Partition::Malformed(json_error()) },
        partition("+5", vec![q("c", 5, "c")]),
    ];
    let all = db.get_all_questions(walk).unwrap();
    assert!(all == vec![q("c", 5, "c")]);
}

#[test]
fn all_questions_of_an_empty_store_are_none() {
    let db = QuestionDB::new("db".to_string());
    assert!(db.get_all_questions(vec![]).unwrap().is_empty());
}

#[test]
fn all_questions_stop_at_a_malformed_partition() {
    let db = QuestionDB::new("db".to_string());
    let walk = vec![
        partition("1", vec![q("a", 1, "x")]),
        Walked::Entry { name: "2".to_string(), is_file: true, contents: Partition::Malformed(json_error()) },
        Walked::Failed(io_error()),
    ];
    assert!(matches!(db.get_all_questions(walk), Err(DQError::Json(_))));
}

#[test]
fn all_questions_stop_at_a_failed_listing() {
    let db = QuestionDB::new("db".to_string());
    let walk = vec![Walked::Failed(io_error()), partition("1", vec![q("a", 1, "x")])];
    assert!(matches!(db.get_all_questions(walk), Err(DQError::IO(_))));
}

#[test]
fn all_questions_stop_at_an_unreadable_partition() {
    let db = QuestionDB::new("db".to_string());
    let walk = vec![Walked::Entry {
        name: "7".to_string(),
        is_file: true,
        contents: Partition::Unreadable(io_error()),
    }];
    assert!(matches!(db.get_all_questions(walk), Err(DQError::IO(_))));
}

#[test]
fn partition_entries_are_files_named_by_a_week() {
    let db = QuestionDB::new("db".to_string());
    assert!(db.is_partition_entry("3", true));
    assert!(db.is_partition_entry("255", true));
    assert!(!db.is_partition_entry("256", true));
    assert!(!db.is_partition_entry("3", false));
    assert!(!db.is_partition_entry("3.tmp", true));
}

#[test]
fn errors_convert_from_their_causes() {
    assert!(matches!(DQError::from(io_error()), DQError::IO(_)));
    assert!(matches!(DQError::from(json_error()), DQError::Json(_)));
}

#[test]
fn users_come_in_any_listing_order() {
    let db = QuestionDB::new("db".to_string());
    let listing = vec![
        Listed::Entry { name: "bob".to_string(), is_dir: true },
        Listed::Entry { name: "alice".to_string(), is_dir: true },
    ];
    let mut users = db.get_users(listing).unwrap();
    users.sort();
    assert_eq!(users, vec!["alice".to_string(), "bob".to_string()]);
}
