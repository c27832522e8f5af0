use abundantis::source::dotenv::{remove_from_text, set_in_text};
use abundantis::source::{EnvSource, MemorySource};

#[test]
fn smoke_memory_source_round_trip() {
    let mut source = MemorySource::new();
    source.set("KEY1", "value1");
    source.set("KEY2", "value2");
    let snapshot = source.load().unwrap();
    assert_eq!(snapshot.variables.len(), 2);
    assert_eq!(snapshot.variables[0].key.as_str(), "KEY1");
    assert_eq!(snapshot.version, Some(2));
}

#[test]
fn smoke_set_in_text_changes_one_line() {
    let text = set_in_text("KEY=value1\nOTHER=123\n", "KEY", "value2").unwrap();
    assert_eq!(text, "KEY=value2\nOTHER=123");
    assert!(set_in_text("KEY=value1", "MISSING", "x").is_err());
    assert_eq!(remove_from_text("KEY=value1\nOTHER=123\n", "KEY"), "OTHER=123");
}
