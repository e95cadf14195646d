use toroidal_tql::ast::{Duration, StreamDef, StreamSchema, StreamWindowSpec};
use toroidal_tql::stream_processor::{StreamEvent, StreamProcessor, StreamRecord};

const NOW: u64 = 1_700_000_000_000;

fn def(name: &str) -> StreamDef {
    StreamDef { name: name.to_string(), topic: format!("{name}.topic"), schema: StreamSchema { fields: vec![] }, retention: None }
}

fn record(id: &str, data: &str, timestamp: u64, event_time: Option<u64>) -> StreamRecord {
    StreamRecord { id: id.to_string(), data: data.to_string(), timestamp, event_time, watermark: None }
}

#[test]
fn test_register_stream() {
    let mut processor = StreamProcessor::new();
    assert!(processor.register_stream(def("test_stream")).is_ok());
    let stats = processor.get_stream_stats("test_stream").unwrap();
    assert_eq!(stats.name, "test_stream");
    assert_eq!(stats.record_count, 0);
    assert_eq!(stats.watermark, 0);
}

#[test]
fn test_ingest_record() {
    let mut processor = StreamProcessor::new();
    processor.register_stream(def("test_stream")).unwrap();
    let events = processor.ingest("test_stream", record("1", "{\"value\":42}", NOW, None), NOW).unwrap();
    assert_eq!(events.len(), 1);
    assert!(matches!(&events[0], StreamEvent::Record { stream_name, record } if stream_name == "test_stream" && record.id == "1"));
    assert_eq!(processor.get_stream_stats("test_stream").unwrap().record_count, 1);
}

#[test]
fn test_stream_query() {
    let mut processor = StreamProcessor::new();
    processor.register_stream(def("clicks")).unwrap();
    for i in 0..5 {
        let data = format!("{{\"user_id\":1,\"value\":{}}}", i * 10);
        processor.ingest("clicks", record(&i.to_string(), &data, NOW, None), NOW).unwrap();
    }
    let results = processor.query_records("clicks", &None, NOW).unwrap();
    assert_eq!(results.len(), 5);
}

#[test]
fn stream_unknown_name() {
    let mut processor = StreamProcessor::new();
    assert_eq!(processor.ingest("nope", record("1", "{}", NOW, None), NOW).unwrap_err(), "Stream 'nope' not found");
    assert_eq!(processor.query_records("nope", &None, NOW).unwrap_err(), "Stream 'nope' not found");
    assert!(processor.get_stream_stats("nope").is_none());
}

#[test]
fn stream_watermark_only_advances() {
    let mut processor = StreamProcessor::new();
    processor.register_stream(def("s")).unwrap();
    let events = processor.ingest("s", record("a", "{}", NOW, Some(NOW - 10)), NOW).unwrap();
    assert_eq!(events.len(), 2);
    assert!(matches!(events[0], StreamEvent::Watermark { watermark, .. } if watermark == NOW - 10));
    let events = processor.ingest("s", record("b", "{}", NOW, Some(NOW - 500)), NOW).unwrap();
    assert_eq!(events.len(), 1);
    assert_eq!(processor.get_stream_stats("s").unwrap().watermark, NOW - 10);
}

#[test]
fn stream_retention_drops_old_front_records() {
    let mut processor = StreamProcessor::new();
    processor.register_stream(def("s")).unwrap();
    let hour = 3_600_000;
    processor.ingest("s", record("old", "{}", NOW - hour - 1, None), NOW - hour - 1).unwrap();
    processor.ingest("s", record("mid", "{}", NOW - hour, None), NOW - hour).unwrap();
    assert_eq!(processor.get_stream_stats("s").unwrap().record_count, 2);
    processor.ingest("s", record("new", "{}", NOW, None), NOW).unwrap();
    let kept = processor.query_records("s", &None, NOW).unwrap();
    let ids: Vec<&str> = kept.iter().map(|r| r.id.as_str()).collect();
    assert_eq!(ids, vec!["mid", "new"]);
}

#[test]
fn stream_window_selects_by_record_time() {
    let mut processor = StreamProcessor::new();
    processor.register_stream(def("s")).unwrap();
    processor.ingest("s", record("a", "{}", NOW - 90_000, None), NOW).unwrap();
    processor.ingest("s", record("b", "{}", NOW, Some(NOW - 30_000)), NOW).unwrap();
    processor.ingest("s", record("c", "{}", NOW - 59_999, None), NOW).unwrap();
    let minute = StreamWindowSpec { duration: Duration { value: 1, unit: "m".to_string() }, slide: None, watermark: None };
    let ids: Vec<String> = processor.query_records("s", &Some(minute), NOW).unwrap().into_iter().map(|r| r.id).collect();
    assert_eq!(ids, vec!["b".to_string(), "c".to_string()]);
    assert_eq!(StreamProcessor::duration_multiplier("h"), 3_600_000);
    assert_eq!(StreamProcessor::duration_multiplier("d"), 86_400_000);
    assert_eq!(StreamProcessor::duration_multiplier("weeks"), 1000);
}
