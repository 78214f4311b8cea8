use ecs_logger::ecs::{Event, Level, LogRecord, Timestamp};
use ecs_logger::extra_fields::{
    clear_extra_fields, merge_extra_fields, set_extra_fields, ExtraFields, SetExtraFieldsError,
};
use ecs_logger::json::{Json, JsonMap, JsonNumber};
use ecs_logger::logger::{format_line, Builder};

const MOCK_TIMESTAMP: &str = "2023-03-31T09:25:06.576136800Z";

fn mock_now() -> Timestamp {
    Timestamp { secs: 1680254706, nanos: 576136800 }
}

fn create_example_record() -> LogRecord {
    LogRecord {
        level: Level::Error,
        message: "hello world".to_string(),
        target: "example".to_string(),
        file: Some("tests/example.rs".to_string()),
        line: Some(13),
        module: Some("example::tests".to_string()),
    }
}

fn num(n: &str) -> Json {
    Json::Number(JsonNumber::new(n.to_string()).unwrap())
}

fn map(entries: Vec<(&str, Json)>) -> JsonMap {
    JsonMap { entries: entries.into_iter().map(|(k, v)| (k.to_string(), v)).collect() }
}

fn example_extra() -> Json {
    Json::Object(map(vec![
        ("a", num("1")),
        ("b", Json::Object(map(vec![("c", num("2"))]))),
    ]))
}

fn standard_line() -> String {
    format!(
        r#"{{"@timestamp":"{}","log.level":"ERROR","message":"hello world","ecs.version":"1.12.1","log.origin":{{"file":{{"line":13,"name":"example.rs"}},"rust":{{"target":"example","module_path":"example::tests","file_path":"tests/example.rs"}}}}"#,
        MOCK_TIMESTAMP
    )
}

#[test]
fn test_format() {
    let mut store = ExtraFields::new();
    clear_extra_fields(&mut store);

    let event = Event::new(mock_now(), &create_example_record());
    let log_line = format_line(&event, &store).unwrap();
    assert_eq!(log_line, standard_line() + "}\n");
}

#[test]
fn test_format_with_extra_fields() {
    let mut store = ExtraFields::new();
    assert!(set_extra_fields(&mut store, Ok(example_extra())).is_ok());

    let event = Event::new(mock_now(), &create_example_record());
    let log_line = format_line(&event, &store).unwrap();
    assert_eq!(log_line, standard_line() + r#","a":1,"b":{"c":2}}"# + "\n");
}

#[test]
fn extra_fields_that_are_not_an_object_are_refused() {
    let mut store = ExtraFields::new();
    assert!(set_extra_fields(&mut store, Ok(example_extra())).is_ok());
    let r = set_extra_fields(&mut store, Ok(Json::Array(vec![])));
    assert!(matches!(r, Err(SetExtraFieldsError::NotObject)));
    let r = set_extra_fields(&mut store, Ok(num("3")));
    assert!(matches!(r, Err(SetExtraFieldsError::NotObject)));
    // the earlier fields stay
    let event = Event::new(mock_now(), &create_example_record());
    assert!(format_line(&event, &store).unwrap().ends_with("\"b\":{\"c\":2}}\n"));
}

#[test]
fn extra_fields_that_failed_to_convert_are_refused() {
    let mut store = ExtraFields::new();
    let r = set_extra_fields(&mut store, Err("key must be a string".to_string()));
    match r {
        Err(SetExtraFieldsError::InvalidJson(msg)) => assert_eq!(msg, "key must be a string"),
        _ => panic!("expected InvalidJson"),
    }
    assert!(store.fields.is_none());
}

#[test]
fn cleared_extra_fields_are_gone() {
    let mut store = ExtraFields::new();
    assert!(set_extra_fields(&mut store, Ok(example_extra())).is_ok());
    clear_extra_fields(&mut store);
    clear_extra_fields(&mut store);
    let event = Event::new(mock_now(), &create_example_record());
    assert_eq!(format_line(&event, &store).unwrap(), standard_line() + "}\n");
}

#[test]
fn extra_fields_override_standard_fields() {
    let mut store = ExtraFields::new();
    let extra = Json::Object(map(vec![
        ("message", Json::Str("replaced".to_string())),
        ("log.origin", Json::Object(map(vec![("file", Json::Object(map(vec![("line", num("99"))])))]))),
    ]));
    assert!(set_extra_fields(&mut store, Ok(extra)).is_ok());
    let doc = Event::new(mock_now(), &create_example_record()).to_json().unwrap();
    let merged = merge_extra_fields(&store, doc);
    let mut out = String::new();
    ecs_logger::json::write_map(&merged, &mut out);
    let v: serde_json::Value = serde_json::from_str(&out).unwrap();
    assert_eq!(v["message"], "replaced");
    assert_eq!(v["log.origin"]["file"]["line"], 99);
    assert_eq!(v["log.origin"]["file"]["name"], "example.rs");
    assert_eq!(v["log.origin"]["rust"]["target"], "example");
}

#[test]
fn default_filter_passes_error_only() {
    let logger = Builder::new().writer(Vec::<u8>::new()).build();
    let store = ExtraFields::new();
    let mut debug = create_example_record();
    debug.level = Level::Debug;
    assert!(logger.log_at(&debug, mock_now(), &store).is_none());
    let line = logger.log_at(&create_example_record(), mock_now(), &store).unwrap();
    assert_eq!(line, standard_line() + "}\n");
    assert_eq!(line.matches('\n').count(), 1);
    assert!(logger.enabled(Level::Error, "any"));
    assert!(!logger.enabled(Level::Warn, "any"));
    assert!(!logger.enabled(Level::Info, "any"));
    assert!(!logger.enabled(Level::Trace, "any"));
}

#[test]
fn filter_directives_by_level_and_target() {
    let logger = Builder::new().filter("info,my_app=debug").build();
    assert!(logger.enabled(Level::Info, "other"));
    assert!(!logger.enabled(Level::Debug, "other"));
    assert!(logger.enabled(Level::Debug, "my_app::db"));
    assert!(!logger.enabled(Level::Trace, "my_app::db"));
    // the same question gets the same answer
    for _ in 0..3 {
        assert!(logger.enabled(Level::Debug, "my_app"));
        assert!(!logger.enabled(Level::Trace, "my_app"));
    }
}

#[test]
fn test_logs() {
    let logger = Builder::new().filter("trace").writer(Vec::<u8>::new()).build();
    let store = ExtraFields::new();
    let levels = [
        (Level::Error, "ERROR", "error 123!"),
        (Level::Warn, "WARN", "foo"),
        (Level::Info, "INFO", "456"),
        (Level::Debug, "DEBUG", "bar abc"),
        (Level::Trace, "TRACE", "baz false"),
    ];
    let mut output = String::new();
    for (level, _, message) in levels.iter() {
        let record = LogRecord {
            level: *level,
            message: message.to_string(),
            target: "log::tests".to_string(),
            file: Some("tests/log.rs".to_string()),
            line: Some(64),
            module: Some("log::tests".to_string()),
        };
        output.push_str(&logger.log(&record, &store).unwrap());
    }
    assert!(output.ends_with('\n'));
    let lines: Vec<&str> = output.lines().collect();
    assert_eq!(lines.len(), 5);
    for (line, (_, name, message)) in lines.iter().zip(levels.iter()) {
        let v: serde_json::Value = serde_json::from_str(line).unwrap();
        assert_eq!(v["log.level"], *name);
        assert_eq!(v["message"], *message);
        assert_eq!(v["ecs.version"], "1.12.1");
        assert_eq!(v["log.origin"]["file"]["name"], "log.rs");
        assert_eq!(v["log.origin"]["rust"]["target"], "log::tests");
        assert_eq!(v["log.origin"]["rust"]["file_path"], "tests/log.rs");
        assert_eq!(v["log.origin"]["rust"]["module_path"], "log::tests");
        assert_eq!(v["log.origin"]["file"]["line"], 64);
        assert!(v["@timestamp"].as_str().unwrap().ends_with('Z'));
    }
}

#[test]
fn test_target() {
    let logger = Builder::new().filter("trace").build();
    let store = ExtraFields::new();
    let record = LogRecord {
        level: Level::Info,
        message: format!("log with {:?}!", "custom target".to_string()),
        target: "example_target".to_string(),
        file: Some("tests/log.rs".to_string()),
        line: Some(88),
        module: Some("log::tests".to_string()),
    };
    let line = logger.log_at(&record, mock_now(), &store).unwrap();
    assert_eq!(
        line,
        format!(
            r#"{{"@timestamp":"{}","log.level":"INFO","message":"log with \"custom target\"!","ecs.version":"1.12.1","log.origin":{{"file":{{"line":88,"name":"log.rs"}},"rust":{{"target":"example_target","module_path":"log::tests","file_path":"tests/log.rs"}}}}}}"#,
            MOCK_TIMESTAMP
        ) + "\n"
    );
}

#[test]
fn empty_directives_pass_error_only() {
    let logger = Builder::new().filter("").build();
    assert!(logger.enabled(Level::Error, "x"));
    assert!(!logger.enabled(Level::Warn, "x"));
}

#[test]
fn message_with_line_break_stays_on_one_line() {
    let logger = Builder::new().build();
    let store = ExtraFields::new();
    let mut record = create_example_record();
    record.message = "two\nlines".to_string();
    let line = logger.log(&record, &store).unwrap();
    assert_eq!(line.matches('\n').count(), 1);
    assert!(line.ends_with('\n'));
    assert!(line.contains(r#""message":"two\nlines""#));
}
