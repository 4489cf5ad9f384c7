use kafka_json_processor::config::{key_value, should_ignore, Config};

#[test]
fn defaults_match_the_documented_table() {
    let config = Config::new();
    assert_eq!(config.internal_config.worker_threads, 4);
    assert_eq!(config.internal_config.channel_capacity, 50);
    assert_eq!(config.internal_config.queue_size, 100_000);
    assert_eq!(config.internal_config.queue_slowdown_ms, 10_000);
    assert!(config.internal_config.journal_enabled);
    assert_eq!(config.internal_config.journal_path, "./kjp_journal");
}

#[test]
fn comments_and_blank_lines_are_ignored() {
    assert!(should_ignore("# a comment"));
    assert!(should_ignore(""));
    assert!(should_ignore("   \t"));
    assert!(!should_ignore("key=value"));
}

#[test]
fn key_value_splits_on_the_first_equals() {
    let (k, v) = key_value("a=b").unwrap();
    assert_eq!(k, "a");
    assert_eq!(v, "b");
    let (k, v) = key_value("a=b=c").unwrap();
    assert_eq!(k, "a");
    assert_eq!(v, "b");
    assert!(key_value("no separator").is_err());
}

#[test]
fn prefixes_route_settings_to_the_right_client() {
    let lines: Vec<String> = [
        "# broker",
        "consumer.group.id=workers",
        "producer.linger.ms=5",
        "bootstrap.servers=localhost:9092",
        "",
        "processor.channel.capacity=7",
        "processor.journal.enabled=false",
        "processor.journal.path=/tmp/journal",
        "processor.queue.size=123",
        "processor.queue.slowdown.ms=456",
        "processor.worker.threads=2",
        "processor.unknown.option=ignored",
    ]
    .iter()
    .map(|s| s.to_string())
    .collect();
    let config = Config::read_from(&lines).unwrap();

    assert_eq!(config.consumer_config.entries, vec![
        ("group.id".to_string(), "workers".to_string()),
        ("bootstrap.servers".to_string(), "localhost:9092".to_string()),
    ]);
    assert_eq!(config.producer_config.entries, vec![
        ("linger.ms".to_string(), "5".to_string()),
        ("bootstrap.servers".to_string(), "localhost:9092".to_string()),
    ]);
    assert_eq!(config.internal_config.channel_capacity, 7);
    assert!(!config.internal_config.journal_enabled);
    assert_eq!(config.internal_config.journal_path, "/tmp/journal");
    assert_eq!(config.internal_config.queue_size, 123);
    assert_eq!(config.internal_config.queue_slowdown_ms, 456);
    assert_eq!(config.internal_config.worker_threads, 2);
}

#[test]
fn a_malformed_processor_value_is_rejected() {
    let lines: Vec<String> = ["processor.worker.threads=many"]
        .iter()
        .map(|s| s.to_string())
        .collect();
    assert!(Config::read_from(&lines).is_err());
}

#[test]
fn leading_whitespace_is_trimmed_before_parsing() {
    let lines: Vec<String> = ["   processor.worker.threads=9"]
        .iter()
        .map(|s| s.to_string())
        .collect();
    let config = Config::read_from(&lines).unwrap();
    assert_eq!(config.internal_config.worker_threads, 9);
}
