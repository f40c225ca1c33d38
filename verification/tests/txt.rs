use nmea0183::{Cause, ErrorKind, Fields, MessageType, Source, TXT};

#[test]
fn message_type_codes() {
    assert_eq!(MessageType::parse(Some("00")), Ok(Some(MessageType::Error)));
    assert_eq!(MessageType::parse(Some("01")), Ok(Some(MessageType::Warning)));
    assert_eq!(MessageType::parse(Some("02")), Ok(Some(MessageType::Notice)));
    assert_eq!(MessageType::parse(Some("07")), Ok(Some(MessageType::User)));
    assert_eq!(MessageType::parse(Some("")), Ok(None));
    assert_eq!(MessageType::parse(None), Ok(None));
    assert_eq!(
        MessageType::parse(Some("99")),
        Err(ErrorKind::MalformedField(Cause::UnsupportedCode))
    );
}

#[test]
fn message_type_codes_match_exactly() {
    let unsupported = Err(ErrorKind::MalformedField(Cause::UnsupportedCode));
    for code in ["03", "04", "05", "06", "08", "10", "0", "2", "002", "02 ", " 02", "0x", "+2", "Notice"] {
        assert_eq!(MessageType::parse(Some(code)), unsupported, "code {:?}", code);
    }
}

#[test]
fn txt_end_to_end() {
    let mut fields = Fields::new("2,1,02,System,ready");
    let txt = TXT::parse(Source::GPS, &mut fields).unwrap().unwrap();
    assert_eq!(txt.source, Source::GPS);
    assert_eq!(txt.sentences, 2);
    assert_eq!(txt.number, 1);
    assert_eq!(txt.type_, MessageType::Notice);
    assert_eq!(txt.text.as_str(), "System,ready");
    assert!(fields.is_empty());
}

#[test]
fn txt_with_empty_mandatory_fields_is_no_record() {
    let mut fields = Fields::new(",,");
    assert_eq!(TXT::parse(Source::GPS, &mut fields), Ok(None));
}

#[test]
fn txt_without_fields_is_no_record() {
    let mut fields = Fields::empty();
    assert_eq!(TXT::parse(Source::GNSS, &mut fields), Ok(None));
    assert!(fields.is_empty());

    let mut fields = Fields::new("");
    assert_eq!(TXT::parse(Source::GNSS, &mut fields), Ok(None));
}

#[test]
fn txt_is_all_or_none() {
    for body in [
        ",1,02,text",
        "2,,02,text",
        "2,1,,text",
        "2,1",
        "2",
        ",,02",
        "2,,",
        ",1,",
    ] {
        let mut fields = Fields::new(body);
        assert_eq!(TXT::parse(Source::GPS, &mut fields), Ok(None), "body {:?}", body);
    }
}

#[test]
fn txt_without_a_mandatory_field_leaves_the_text_unread() {
    let body = format!("2,,02,{}", "a".repeat(100));
    let mut fields = Fields::new(&body);
    assert_eq!(TXT::parse(Source::GPS, &mut fields), Ok(None));
    assert_eq!(fields.next().map(str::len), Some(100));
}

#[test]
fn txt_malformed_mandatory_field_is_an_error() {
    let number = Err(ErrorKind::MalformedField(Cause::Number));
    let code = Err(ErrorKind::MalformedField(Cause::UnsupportedCode));

    let mut fields = Fields::new("x,1,02,text");
    assert_eq!(TXT::parse(Source::GPS, &mut fields), number);
    assert_eq!(fields.next(), Some("1"));

    let mut fields = Fields::new("2,256,02,text");
    assert_eq!(TXT::parse(Source::GPS, &mut fields), number);
    assert_eq!(fields.next(), Some("02"));

    let mut fields = Fields::new("2,1,99,text");
    assert_eq!(TXT::parse(Source::GPS, &mut fields), code);
    assert_eq!(fields.next(), Some("text"));

    let mut fields = Fields::new(",abc,02");
    assert_eq!(TXT::parse(Source::GPS, &mut fields), number);

    let mut fields = Fields::new(",,99");
    assert_eq!(TXT::parse(Source::GPS, &mut fields), code);
}

#[test]
fn txt_text_may_be_empty() {
    let mut fields = Fields::new("1,1,00");
    let txt = TXT::parse(Source::Beidou, &mut fields).unwrap().unwrap();
    assert_eq!(txt.type_, MessageType::Error);
    assert_eq!(txt.text.as_str(), "");

    let mut fields = Fields::new("1,1,07,");
    let txt = TXT::parse(Source::Beidou, &mut fields).unwrap().unwrap();
    assert_eq!(txt.type_, MessageType::User);
    assert_eq!(txt.text.as_str(), "");
}

#[test]
fn txt_text_of_exactly_the_capacity() {
    let body = format!("1,1,01,{}", "x".repeat(69));
    let mut fields = Fields::new(&body);
    let txt = TXT::parse(Source::Galileo, &mut fields).unwrap().unwrap();
    assert_eq!(txt.type_, MessageType::Warning);
    assert_eq!(txt.text.len(), 69);
    assert_eq!(txt.text.as_str(), "x".repeat(69));
}

#[test]
fn txt_text_over_the_capacity_is_an_error() {
    let body = format!("1,1,01,{}", "x".repeat(70));
    let mut fields = Fields::new(&body);
    assert_eq!(
        TXT::parse(Source::Galileo, &mut fields),
        Err(ErrorKind::MalformedField(Cause::TextTooLong))
    );

    let body = format!("1,1,01,{},{}", "x".repeat(40), "y".repeat(29));
    let mut fields = Fields::new(&body);
    assert_eq!(
        TXT::parse(Source::Galileo, &mut fields),
        Err(ErrorKind::MalformedField(Cause::TextTooLong))
    );
}

#[test]
fn txt_clone_equals_the_record() {
    let mut fields = Fields::new("3,2,07,antenna,ok");
    let txt = TXT::parse(Source::GLONASS, &mut fields).unwrap().unwrap();
    let copy = txt.clone();
    assert_eq!(copy, txt);
    assert_eq!(copy.text.as_str(), "antenna,ok");
    assert_eq!(copy.source, Source::GLONASS);
    assert_eq!(copy.sentences, 3);
    assert_eq!(copy.number, 2);
    assert_eq!(copy.type_, MessageType::User);
}
