use nmea0183::text::collect_text;
use nmea0183::{Cause, ErrorKind, Fields};

#[test]
fn cursor_hands_out_fields_in_order() {
    let mut fields = Fields::new("2,1,02,System,ready");
    assert!(!fields.is_empty());
    assert_eq!(fields.next(), Some("2"));
    assert_eq!(fields.next(), Some("1"));
    assert_eq!(fields.next(), Some("02"));
    assert_eq!(fields.next(), Some("System"));
    assert!(!fields.is_empty());
    assert_eq!(fields.next(), Some("ready"));
    assert!(fields.is_empty());
    assert_eq!(fields.next(), None);
    assert_eq!(fields.next(), None);
    assert!(fields.is_empty());
}

#[test]
fn cursor_keeps_empty_fields() {
    let mut fields = Fields::new(",,");
    assert_eq!(fields.next(), Some(""));
    assert_eq!(fields.next(), Some(""));
    assert!(!fields.is_empty());
    assert_eq!(fields.next(), Some(""));
    assert_eq!(fields.next(), None);

    let mut fields = Fields::new("a,,b,");
    assert_eq!(fields.next(), Some("a"));
    assert_eq!(fields.next(), Some(""));
    assert_eq!(fields.next(), Some("b"));
    assert_eq!(fields.next(), Some(""));
    assert_eq!(fields.next(), None);
}

#[test]
fn empty_body_is_one_empty_field() {
    let mut fields = Fields::new("");
    assert!(!fields.is_empty());
    assert_eq!(fields.next(), Some(""));
    assert!(fields.is_empty());
    assert_eq!(fields.next(), None);
}

#[test]
fn empty_cursor_has_no_field() {
    let mut fields = Fields::empty();
    assert!(fields.is_empty());
    assert_eq!(fields.next(), None);
    assert!(fields.is_empty());
}

#[test]
fn cursor_agrees_with_std_split() {
    let bodies = [
        "",
        ",",
        "a",
        "a,b",
        ",a",
        "a,",
        ",,,",
        "GPTXT,01,01,02,u-blox ag - www.u-blox.com",
        "gr\u{fc}\u{df}e,\u{20ac},\u{1f600},x",
        "\u{20ac}\u{20ac},,\u{20ac}",
    ];
    for body in bodies {
        let mut fields = Fields::new(body);
        for expected in body.split(',') {
            assert_eq!(fields.next(), Some(expected), "in {:?}", body);
        }
        assert_eq!(fields.next(), None, "in {:?}", body);
    }
}

#[test]
fn fields_reassemble_to_the_text() {
    let mut fields = Fields::new("hello,world");
    let text = collect_text(&mut fields).unwrap();
    assert_eq!(text.as_str(), "hello,world");
    assert!(fields.is_empty());
}

#[test]
fn collected_text_has_no_trailing_delimiter() {
    let mut fields = Fields::new("one");
    assert_eq!(collect_text(&mut fields).unwrap().as_str(), "one");

    let mut fields = Fields::new("a,b,c");
    assert_eq!(collect_text(&mut fields).unwrap().as_str(), "a,b,c");

    let mut fields = Fields::new("a,,");
    assert_eq!(collect_text(&mut fields).unwrap().as_str(), "a,,");

    let mut fields = Fields::new("");
    assert_eq!(collect_text(&mut fields).unwrap().as_str(), "");

    let mut fields = Fields::empty();
    assert_eq!(collect_text(&mut fields).unwrap().as_str(), "");
}

#[test]
fn collected_text_starts_at_the_cursor() {
    let mut fields = Fields::new("x,y,hello,world");
    fields.next();
    fields.next();
    assert_eq!(collect_text(&mut fields).unwrap().as_str(), "hello,world");
}

#[test]
fn text_of_exactly_the_capacity_is_collected() {
    let body = "a".repeat(69);
    let mut fields = Fields::new(&body);
    assert_eq!(collect_text(&mut fields).unwrap().as_str(), body);

    let body = format!("{},{}", "a".repeat(34), "b".repeat(34));
    assert_eq!(body.len(), 69);
    let mut fields = Fields::new(&body);
    assert_eq!(collect_text(&mut fields).unwrap().as_str(), body);
    assert!(fields.is_empty());
}

#[test]
fn text_one_byte_over_the_capacity_is_refused() {
    let too_long = Err(ErrorKind::MalformedField(Cause::TextTooLong));

    let body = "a".repeat(70);
    let mut fields = Fields::new(&body);
    assert_eq!(collect_text(&mut fields), too_long);

    let body = format!("{},{}", "a".repeat(34), "b".repeat(35));
    assert_eq!(body.len(), 70);
    let mut fields = Fields::new(&body);
    assert_eq!(collect_text(&mut fields), too_long);

    let body = format!("{},", "a".repeat(69));
    let mut fields = Fields::new(&body);
    assert_eq!(collect_text(&mut fields), too_long);
}

#[test]
fn capacity_counts_bytes() {
    let body = "\u{20ac}".repeat(23);
    assert_eq!(body.len(), 69);
    let mut fields = Fields::new(&body);
    assert_eq!(collect_text(&mut fields).unwrap().as_str(), body);

    let body = "\u{20ac}".repeat(24);
    let mut fields = Fields::new(&body);
    assert_eq!(
        collect_text(&mut fields),
        Err(ErrorKind::MalformedField(Cause::TextTooLong))
    );
}

#[test]
fn overflow_stops_at_the_part_that_did_not_fit() {
    let body = format!("{},{},tail,end", "a".repeat(60), "b".repeat(9));
    let mut fields = Fields::new(&body);
    assert!(collect_text(&mut fields).is_err());
    assert_eq!(fields.next(), Some("tail"));

    let body = format!("{},{},tail,end", "a".repeat(60), "b".repeat(8));
    let mut fields = Fields::new(&body);
    assert!(collect_text(&mut fields).is_err());
    assert_eq!(fields.next(), Some("tail"));

    let body = format!("{},{},tail,end", "a".repeat(60), "b".repeat(3));
    let mut fields = Fields::new(&body);
    assert!(collect_text(&mut fields).is_err());
    assert_eq!(fields.next(), Some("end"));

    let body = format!("{},tail", "a".repeat(70));
    let mut fields = Fields::new(&body);
    assert!(collect_text(&mut fields).is_err());
    assert_eq!(fields.next(), Some("tail"));
}

#[test]
fn peek_leaves_the_field_under_the_cursor() {
    let mut fields = Fields::new("a,b");
    assert_eq!(fields.peek(), Some("a"));
    assert_eq!(fields.peek(), Some("a"));
    assert_eq!(fields.next(), Some("a"));
    assert_eq!(fields.peek(), Some("b"));
    assert_eq!(fields.next(), Some("b"));
    assert_eq!(fields.peek(), None);
    assert_eq!(fields.next(), None);
    assert_eq!(Fields::empty().peek(), None);
    assert_eq!(Fields::new("").peek(), Some(""));
}
