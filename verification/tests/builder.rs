use ftail::BuildError;
use ftail::Config;
use ftail::Fields;
use ftail::Format;
use ftail::Reader;
use ftail::ReaderBuilder;
use ftail::SourceType;

fn no_fields() -> Fields {
    Fields { message: None, timestamp: None, stacktrace: None, exclude: None, keep: None }
}

fn json_format() -> Format {
    Format::JsonFormat { fields: no_fields() }
}

fn regex_format(pattern: &str) -> Format {
    Format::RegexFormat { format: pattern.to_string(), fields: no_fields() }
}

#[test]
fn path_pattern_resolution_picks_first_match_then_default() {
    let config = Config {
        formats: vec![
            ("nginx".to_string(), regex_format(r"^(?P<all>.*)$")),
            ("json".to_string(), json_format()),
        ],
        default_format: Some("json".to_string()),
        path_matches: vec![("nginx".to_string(), r".*access\.log$".to_string())],
    };
    let builder = ReaderBuilder::new(config).unwrap();
    assert_eq!(
        "nginx",
        builder.format_name_from_file_path("/var/log/access.log").unwrap()
    );
    assert_eq!(
        "json",
        builder.format_name_from_file_path("/var/log/other.txt").unwrap()
    );
}

#[test]
fn no_path_match_and_no_default_is_fatal() {
    let config = Config {
        formats: vec![("json".to_string(), json_format())],
        default_format: None,
        path_matches: Vec::new(),
    };
    let builder = ReaderBuilder::new(config).unwrap();
    let e = builder.format_name_from_file_path("/var/log/app.log").unwrap_err();
    assert!(matches!(e, BuildError::NoPathMatch(_)));
    assert_eq!(
        "no path matches found for /var/log/app.log. there is no default_format set either. exiting.",
        e.message()
    );
}

#[test]
fn build_binds_each_requested_input() {
    let config = Config {
        formats: vec![
            ("app".to_string(), json_format()),
            ("web".to_string(), regex_format(r"^(?P<line>.*)$")),
        ],
        default_format: None,
        path_matches: Vec::new(),
    };
    let mut builder = ReaderBuilder::new(config).unwrap();
    let readers = builder
        .build(vec!["app:x.log".to_string(), "web:y.log".to_string()], false)
        .unwrap();
    assert_eq!(2, readers.len());
    assert!(readers[0].source_type() == SourceType::File("x.log".to_string()));
    assert!(readers[1].source_type() == SourceType::File("y.log".to_string()));
}

#[test]
fn format_name_reuse_is_rejected() {
    let config = Config {
        formats: vec![("app".to_string(), json_format())],
        default_format: None,
        path_matches: Vec::new(),
    };
    let mut builder = ReaderBuilder::new(config).unwrap();
    let e = builder
        .build(vec!["app:x.log".to_string(), "app:y.log".to_string()], false)
        .unwrap_err();
    assert!(matches!(e, BuildError::NoSuchFormat(_)));
    assert_eq!("there's no format with name: app", e.message());
}

#[test]
fn unknown_format_name_is_rejected() {
    let config = Config {
        formats: vec![("app".to_string(), json_format())],
        default_format: None,
        path_matches: Vec::new(),
    };
    let mut builder = ReaderBuilder::new(config).unwrap();
    let e = builder.build(vec!["nope:x.log".to_string()], false).unwrap_err();
    assert!(matches!(e, BuildError::NoSuchFormat(_)));
    assert_eq!("there's no format with name: nope", e.message());
}

#[test]
fn connected_stdin_is_auto_attached_under_the_default_format() {
    let config = Config {
        formats: vec![("json".to_string(), json_format())],
        default_format: Some("json".to_string()),
        path_matches: Vec::new(),
    };
    let mut builder = ReaderBuilder::new(config).unwrap();
    let readers = builder.build(Vec::new(), true).unwrap();
    assert_eq!(1, readers.len());
    assert!(readers[0].source_type() == SourceType::Stdin);
}

#[test]
fn connected_stdin_without_default_format_is_fatal() {
    let config = Config {
        formats: vec![("json".to_string(), json_format())],
        default_format: None,
        path_matches: Vec::new(),
    };
    let mut builder = ReaderBuilder::new(config).unwrap();
    let e = builder.build(Vec::new(), true).unwrap_err();
    assert!(matches!(e, BuildError::NoStdinFormat));
    assert_eq!("stdin is used but there's no format defined for it", e.message());
}

#[test]
fn explicitly_claimed_stdin_is_not_attached_twice() {
    let config = Config {
        formats: vec![("json".to_string(), json_format())],
        default_format: Some("json".to_string()),
        path_matches: Vec::new(),
    };
    let mut builder = ReaderBuilder::new(config).unwrap();
    let readers = builder.build(vec!["json:stdin".to_string()], true).unwrap();
    assert_eq!(1, readers.len());
    assert!(readers[0].source_type() == SourceType::Stdin);
}

#[test]
fn stdin_requested_but_not_connected_is_fatal() {
    let config = Config {
        formats: vec![("json".to_string(), json_format())],
        default_format: None,
        path_matches: Vec::new(),
    };
    let mut builder = ReaderBuilder::new(config).unwrap();
    let e = builder.build(vec!["json:stdin".to_string()], false).unwrap_err();
    assert!(matches!(e, BuildError::StdinNotConnected));
    assert_eq!("stdin was defined but it is not in use", e.message());
}

#[test]
fn disconnected_stdin_is_not_attached() {
    let config = Config {
        formats: vec![("json".to_string(), json_format())],
        default_format: Some("json".to_string()),
        path_matches: Vec::new(),
    };
    let mut builder = ReaderBuilder::new(config).unwrap();
    let readers = builder.build(Vec::new(), false).unwrap();
    assert_eq!(0, readers.len());
}

#[test]
fn invalid_path_pattern_is_rejected() {
    let config = Config {
        formats: vec![("json".to_string(), json_format())],
        default_format: None,
        path_matches: vec![("json".to_string(), "(".to_string())],
    };
    let e = ReaderBuilder::new(config).unwrap_err();
    assert!(matches!(e, BuildError::InvalidPattern(_)));
    assert!(e.message().starts_with("invalid regex: `(` because: "));
}

#[test]
fn invalid_format_pattern_is_rejected() {
    let config = Config {
        formats: vec![("bad".to_string(), regex_format("("))],
        default_format: None,
        path_matches: Vec::new(),
    };
    let mut builder = ReaderBuilder::new(config).unwrap();
    let e = builder.build(vec!["bad:x.log".to_string()], false).unwrap_err();
    assert!(matches!(e, BuildError::InvalidPattern(_)));
    assert!(e.message().starts_with("regex failed for `(` because "));
}

#[test]
fn resolved_path_input_reads_with_the_matched_format() {
    let config = Config {
        formats: vec![("csv".to_string(), regex_format(r"^(?P<a>[^,]*),(?P<b>[^,]*)$"))],
        default_format: None,
        path_matches: vec![("csv".to_string(), r".*\.csv$".to_string())],
    };
    let mut builder = ReaderBuilder::new(config).unwrap();
    let mut readers = builder.build(vec!["data.csv".to_string()], false).unwrap();
    assert_eq!(1, readers.len());
    let rec = readers[0].read_fields(Some("x,y\n")).unwrap();
    assert_eq!("x", rec.get("a").unwrap().value);
    assert_eq!("y", rec.get("b").unwrap().value);
}
