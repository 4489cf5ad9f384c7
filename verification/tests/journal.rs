use kafka_json_processor::consumer::build_assignments;
use kafka_json_processor::journal::{file_name_to_offset_key, MessageOffsetHolder, OffsetKey};
use kafka_json_processor::MessageOffset;

fn sorted_entries(mut v: Vec<(OffsetKey, i64)>) -> Vec<(String, i32, i64)> {
    let mut out: Vec<(String, i32, i64)> = v
        .drain(..)
        .map(|(k, off)| (k.0, k.1, off))
        .collect();
    out.sort();
    out
}

#[test]
fn file_names_parse_into_topic_and_partition() {
    let k = file_name_to_offset_key("sampletopic.1").unwrap();
    assert_eq!(k.0, "sampletopic");
    assert_eq!(k.1, 1);
    assert!(file_name_to_offset_key("nodothere").is_none());
    assert!(file_name_to_offset_key("topic.notanumber").is_none());
}

#[test]
fn offsets_survive_a_flush_and_reload() {
    let mut journal = MessageOffsetHolder::new("dir".to_string(), true, vec![]);
    journal.update(MessageOffset { topic: "alpha".to_string(), partition: 0, offset: 5 });
    journal.update(MessageOffset { topic: "alpha".to_string(), partition: 1, offset: 7 });
    journal.update(MessageOffset { topic: "beta".to_string(), partition: 0, offset: -1 });
    journal.update(MessageOffset { topic: "alpha".to_string(), partition: 0, offset: 9 });

    let files = journal.flush();
    assert_eq!(files.len(), 3);

    let reloaded = MessageOffsetHolder::new("dir".to_string(), true, files);
    assert_eq!(
        sorted_entries(reloaded.offsets()),
        vec![
            ("alpha".to_string(), 0, 9),
            ("alpha".to_string(), 1, 7),
            ("beta".to_string(), 0, -1),
        ]
    );
}

#[test]
fn a_disabled_journal_holds_and_writes_nothing() {
    let mut journal = MessageOffsetHolder::new("dir".to_string(), false, vec![
        ("alpha.0".to_string(), "5".to_string()),
    ]);
    journal.update(MessageOffset { topic: "alpha".to_string(), partition: 0, offset: 5 });
    assert!(journal.offsets().is_empty());
    assert!(journal.flush().is_empty());
}

#[test]
fn unreadable_journal_files_are_skipped_on_load() {
    let journal = MessageOffsetHolder::new("dir".to_string(), true, vec![
        ("topicA.0".to_string(), "42".to_string()),
        ("garbagefile".to_string(), "1".to_string()),
        ("topicB.1".to_string(), "not a number".to_string()),
    ]);
    assert_eq!(
        sorted_entries(journal.offsets()),
        vec![("topicA".to_string(), 0, 42)]
    );
}

#[test]
fn subscription_is_seeded_from_the_journal() {
    let journal = MessageOffsetHolder::new("dir".to_string(), true, vec![
        ("topicA.0".to_string(), "42".to_string()),
        ("other.3".to_string(), "7".to_string()),
    ]);
    let topics = vec!["topicA".to_string(), "topicB".to_string()];
    let (assigned, unassigned) = build_assignments(journal.offsets(), &topics);
    assert_eq!(sorted_entries(assigned), vec![("topicA".to_string(), 0, 42)]);
    assert_eq!(unassigned, vec!["topicB".to_string()]);
}
