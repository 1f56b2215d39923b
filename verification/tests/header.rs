use menemen::request::Header;

#[test]
fn parse_header() {
    let header = Header::parse("Content-Type: text/html; charset=utf-8").unwrap();
    assert_eq!(header.name.clone(), "Content-Type");
    assert_eq!(header.value, "text/html; charset=utf-8");
}

#[test]
fn header_line_without_colon_is_refused() {
    assert_eq!(
        Header::parse("no colon here").unwrap_err(),
        menemen::error::ParseError::MissingColon
    );
    assert!(Header::parse("").is_err());
}

#[test]
fn header_line_with_colon_but_no_blank_is_all_name() {
    let header = Header::parse("Name:value").unwrap();
    assert_eq!(header.name, "Name:value");
    assert_eq!(header.value, "");
}

#[test]
fn header_line_is_cut_at_the_first_colon_blank() {
    let header = Header::parse("Date: Tue: 10:00").unwrap();
    assert_eq!(header.name, "Date");
    assert_eq!(header.value, "Tue: 10:00");
}

#[test]
fn header_line_may_have_an_empty_value() {
    let header = Header::parse("X-Empty: ").unwrap();
    assert_eq!(header.name, "X-Empty");
    assert_eq!(header.value, "");
    let header = Header::parse(": v").unwrap();
    assert_eq!(header.name, "");
    assert_eq!(header.value, "v");
}

#[test]
fn header_clone_keeps_both_fields() {
    let header = Header::parse("A: b").unwrap();
    let copy = header.clone();
    assert_eq!(copy.name, "A");
    assert_eq!(copy.value, "b");
}
