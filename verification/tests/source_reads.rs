use ftail::Source;
use ftail::SourceType;

fn file_source() -> Source {
    Source::new(SourceType::File("log".to_string()))
}

#[test]
fn lines_come_in_order_without_loss() {
    let data = "one\ntwo\nthree";
    let mut s = file_source();
    assert_eq!("one", s.read_line(Some(data)).unwrap());
    assert_eq!("two", s.read_line(Some(data)).unwrap());
    assert_eq!("three", s.read_line(Some(data)).unwrap());
    assert!(s.read_line(Some(data)).is_none());
    assert!(s.read_line(Some(data)).is_none());
}

#[test]
fn trailing_line_feed_is_stripped() {
    let data = "alpha\n";
    let mut s = file_source();
    assert_eq!("alpha", s.read_line(Some(data)).unwrap());
    assert!(s.read_line(Some(data)).is_none());
}

#[test]
fn empty_lines_are_delivered() {
    let data = "a\n\nb";
    let mut s = file_source();
    assert_eq!("a", s.read_line(Some(data)).unwrap());
    assert_eq!("", s.read_line(Some(data)).unwrap());
    assert_eq!("b", s.read_line(Some(data)).unwrap());
}

#[test]
fn transient_failure_does_not_advance_position() {
    let data = "one\ntwo";
    let mut s = file_source();
    assert_eq!("one", s.read_line(Some(data)).unwrap());
    let p = s.position();
    // a failed underlying read yields nothing and keeps the offset
    assert!(s.read_line(None).is_none());
    assert_eq!(p, s.position());
    assert!(s.read_line(None).is_none());
    assert_eq!(p, s.position());
    // the retry resumes from the same offset
    assert_eq!("two", s.read_line(Some(data)).unwrap());
}

#[test]
fn append_resumes_after_old_end() {
    let before = "a\nb\n";
    let mut s = file_source();
    assert_eq!("a", s.read_line(Some(before)).unwrap());
    assert_eq!("b", s.read_line(Some(before)).unwrap());
    assert!(s.read_line(Some(before)).is_none());
    // the file grows; only the appended lines are delivered
    let after = "a\nb\nc\nd\n";
    assert_eq!("c", s.read_line(Some(after)).unwrap());
    assert_eq!("d", s.read_line(Some(after)).unwrap());
    assert!(s.read_line(Some(after)).is_none());
}

#[test]
fn reads_interleaved_with_appends_never_rewind() {
    let first = "a\nb";
    let mut s = file_source();
    assert_eq!("a", s.read_line(Some(first)).unwrap());
    // the unterminated tail is delivered as far as it goes
    assert_eq!("b", s.read_line(Some(first)).unwrap());
    // a writer extends the file; the continuation comes next, never "a" or
    // "b" again
    let grown = "a\nbc\nd";
    assert_eq!("c", s.read_line(Some(grown)).unwrap());
    assert_eq!("d", s.read_line(Some(grown)).unwrap());
    assert!(s.read_line(Some(grown)).is_none());
}

#[test]
fn source_type_is_kept() {
    let s = Source::new(SourceType::File("p.log".to_string()));
    assert!(s.source_type() == SourceType::File("p.log".to_string()));
    assert!(s.source_type() != SourceType::File("q.log".to_string()));
    let s2 = Source::new(SourceType::Stdin);
    assert!(s2.source_type() == SourceType::Stdin);
}
