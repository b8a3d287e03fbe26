use ftail::Exclude;
use ftail::Include;
use ftail::JsonReader;
use ftail::Pattern;
use ftail::ReadError;
use ftail::Reader;
use ftail::RegexReader;
use ftail::Source;
use ftail::SourceType;

fn file_source() -> Source {
    Source::new(SourceType::File("test".to_string()))
}

fn json_reader_keeping_all() -> JsonReader {
    JsonReader::new(
        file_source(),
        Exclude::ExcludeMany(Vec::new()),
        Include::IncludeMany(Vec::new()),
    )
}

#[test]
fn regex_reader() {
    let data = "Ela Snow\nAlice";

    let source = file_source();

    // first_name + optional space + optional last_name
    let re = Pattern::compile(r"^(?P<first_name>[a-zA-Z]+)[ ]?(?P<last_name>[a-zA-Z]+)?").unwrap();
    let mut reader = RegexReader::new(re, source);

    let fields = reader.read_fields(Some(data)).unwrap();
    let first_name = fields.get("first_name").unwrap();
    let last_name = fields.get("last_name").unwrap();
    assert_eq!("first_name", first_name.name);
    assert_eq!("Ela", first_name.value);
    assert_eq!("last_name", last_name.name);
    assert_eq!("Snow", last_name.value);

    let fields = reader.read_fields(Some(data)).unwrap();
    let first_name = fields.get("first_name").unwrap();
    assert_eq!("first_name", first_name.name);
    assert_eq!("Alice", first_name.value);
    assert_eq!(true, fields.get("last_name").is_none());
}

#[test]
fn regex_reader_capture_names() {
    let re = Pattern::compile(r"^(?P<first_name>[a-zA-Z]+)[ ]?(?P<last_name>[a-zA-Z]+)?").unwrap();
    let reader = RegexReader::new(re, file_source());
    let names = reader.capture_names();
    assert_eq!(2, names.len());
    assert_eq!("first_name", names[0]);
    assert_eq!("last_name", names[1]);
}

#[test]
fn regex_reader_no_match_is_parse_fail() {
    let re = Pattern::compile(r"^(?P<num>[0-9]+)$").unwrap();
    let mut reader = RegexReader::new(re, file_source());
    let r = reader.read_fields(Some("letters\n42"));
    assert!(matches!(r, Err(ReadError::ParseFail(_))));
    // the bad line is consumed; the next read parses the next line
    let rec = reader.read_fields(Some("letters\n42")).unwrap();
    assert_eq!("42", rec.get("num").unwrap().value);
}

#[test]
fn json_all_fields_kept() {
    let mut reader = json_reader_keeping_all();
    let data = "{\"a\":\"1\",\"b\":2,\"c\":true,\"d\":{\"x\":1}}\n";
    let rec = reader.read_fields(Some(data)).unwrap();
    assert_eq!(4, rec.len());
    assert_eq!("\"1\"", rec.get("a").unwrap().value);
    assert_eq!("2", rec.get("b").unwrap().value);
    assert_eq!("true", rec.get("c").unwrap().value);
    assert_eq!("{\"x\":1}", rec.get("d").unwrap().value);
    assert_eq!("a", rec.get("a").unwrap().name);
    assert!(matches!(reader.read_fields(Some(data)), Err(ReadError::Eof)));
}

#[test]
fn json_line_is_trimmed_before_parsing() {
    let mut reader = json_reader_keeping_all();
    let rec = reader.read_fields(Some("   {\"a\":1}   \n")).unwrap();
    assert_eq!(1, rec.len());
    assert_eq!("1", rec.get("a").unwrap().value);
}

#[test]
fn json_non_object_prefix_is_parse_fail() {
    let data = "hello\n[1,2,3]\n42\n\n{\"ok\":1}";
    let mut reader = json_reader_keeping_all();
    // every line that does not start with '{' fails as malformed input,
    // never as the unsupported-shape kind
    for _ in 0..4 {
        let r = reader.read_fields(Some(data));
        assert!(matches!(r, Err(ReadError::ParseFail(_))));
        assert!(!matches!(r, Err(ReadError::Internal(_))));
    }
    let rec = reader.read_fields(Some(data)).unwrap();
    assert_eq!("1", rec.get("ok").unwrap().value);
}

#[test]
fn json_invalid_text_is_parse_fail() {
    let mut reader = json_reader_keeping_all();
    let r = reader.read_fields(Some("{not json}\n"));
    assert!(matches!(r, Err(ReadError::ParseFail(_))));
}

#[test]
fn json_exclude_all_yields_empty_record() {
    let mut reader = JsonReader::new(
        file_source(),
        Exclude::ExcludeOne("all".to_string()),
        Include::IncludeMany(Vec::new()),
    );
    let rec = reader.read_fields(Some("{\"a\":\"1\",\"b\":\"2\"}")).unwrap();
    assert_eq!(0, rec.len());
    assert!(rec.get("a").is_none());
    assert!(rec.get("b").is_none());
}

#[test]
fn json_exclude_list_drops_named_fields() {
    let mut reader = JsonReader::new(
        file_source(),
        Exclude::ExcludeMany(vec!["b".to_string()]),
        Include::IncludeMany(Vec::new()),
    );
    let rec = reader.read_fields(Some("{\"a\":\"1\",\"b\":\"2\"}")).unwrap();
    assert_eq!(1, rec.len());
    assert_eq!("\"1\"", rec.get("a").unwrap().value);
    assert!(rec.get("b").is_none());
}

#[test]
fn json_keep_list_takes_precedence_over_exclude() {
    let mut reader = JsonReader::new(
        file_source(),
        Exclude::ExcludeMany(vec!["a".to_string()]),
        Include::IncludeOne("a".to_string()),
    );
    let rec = reader.read_fields(Some("{\"a\":\"1\",\"b\":\"2\"}")).unwrap();
    assert_eq!(1, rec.len());
    assert_eq!("\"1\"", rec.get("a").unwrap().value);
    assert!(rec.get("b").is_none());
}

#[test]
fn json_single_exclude_that_is_not_the_sentinel() {
    let mut reader = JsonReader::new(
        file_source(),
        Exclude::ExcludeOne("b".to_string()),
        Include::IncludeMany(Vec::new()),
    );
    let rec = reader.read_fields(Some("{\"a\":\"1\",\"b\":\"2\"}")).unwrap();
    assert_eq!(1, rec.len());
    assert!(rec.get("b").is_none());
}

#[test]
fn reader_reports_its_source_type() {
    let reader = json_reader_keeping_all();
    assert!(reader.source_type() == SourceType::File("test".to_string()));
    let stdin_reader = JsonReader::new(
        Source::new(SourceType::Stdin),
        Exclude::ExcludeMany(Vec::new()),
        Include::IncludeMany(Vec::new()),
    );
    assert!(stdin_reader.source_type() == SourceType::Stdin);
}

#[test]
fn read_errors_compare_by_kind() {
    assert!(ReadError::ParseFail("a".to_string()) == ReadError::ParseFail("b".to_string()));
    assert!(ReadError::Internal("a".to_string()) == ReadError::Internal("b".to_string()));
    assert!(ReadError::Eof == ReadError::Eof);
    assert!(ReadError::Eof != ReadError::ParseFail("a".to_string()));
    assert!(ReadError::ParseFail("a".to_string()) != ReadError::Internal("a".to_string()));
}

#[test]
fn read_error_messages() {
    assert_eq!(
        "read error: no input received (EOF)",
        ReadError::Eof.message()
    );
    assert_eq!(
        "read error: parse fail: bad line",
        ReadError::ParseFail("bad line".to_string()).message()
    );
    assert_eq!(
        "read error: internal error: oops",
        ReadError::Internal("oops".to_string()).message()
    );
}
