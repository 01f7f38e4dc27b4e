use upwork_rss::nesting::{advance, is_shallow, Mode, Scan, MAX_NESTING};

fn scan(text: &str) -> Scan {
    let mut s = Scan { mode: Mode::Text, aux: 0, slash: false, depth: 0 };
    for b in text.bytes() {
        s = advance(s, b);
    }
    s
}

#[test]
fn open_tags_are_counted() {
    assert_eq!(scan("").depth, 0);
    assert_eq!(scan("<a><b>").depth, 2);
    assert_eq!(scan("<a><b></b>").depth, 1);
    assert_eq!(scan("<a><b></b></a>").depth, 0);
    assert_eq!(scan("<a><b>").mode, Mode::Text);
}

#[test]
fn empty_elements_close_themselves() {
    assert_eq!(scan("<a><b/><c x='1' />").depth, 1);
    assert_eq!(scan("<a><b x='/'>").depth, 2);
}

#[test]
fn end_tags_never_count_below_zero() {
    assert_eq!(scan("</a></a><b>").depth, 1);
}

#[test]
fn sections_comments_and_instructions_hold_no_tags() {
    assert_eq!(scan("<a><![CDATA[<b><c></a></a>]]>").depth, 1);
    assert_eq!(scan("<a><![CDATA[ ]] > ]>]]]>").depth, 1);
    assert_eq!(scan("<a><![CDATA[ ]] > ]>]]]><b>").depth, 2);
    assert_eq!(scan("<a><!-- - -- > ---><b>").depth, 2);
    assert_eq!(scan("<?xml version=\"1.0\"?><a>").depth, 1);
    assert_eq!(scan("<?> ?><a>").depth, 1);
    assert_eq!(scan("<a><![CDATA[ ").mode, Mode::Cdata);
}

#[test]
fn doubtful_markup_is_refused() {
    assert_eq!(scan("<a <b>").mode, Mode::Refused);
    assert_eq!(scan("<a x=\">\">").mode, Mode::Refused);
    assert_eq!(scan("</a x='>'>").mode, Mode::Refused);
    assert_eq!(scan("<!-- <a> -->").mode, Mode::Refused);
    assert_eq!(scan("<!--->--><a>").depth, 1);
    assert_eq!(scan("<?pi <a> ?>").mode, Mode::Refused);
    assert_eq!(scan("<!DOCTYPE rss>").mode, Mode::Refused);
    assert_eq!(scan("<![cdata[x]]>").mode, Mode::Refused);
    assert_eq!(scan("<!-x-->").mode, Mode::Refused);
    assert_eq!(scan("<!DOCTYPE rss><a></a>").mode, Mode::Refused);
}

#[test]
fn the_limit_is_the_last_depth_taken() {
    assert_eq!(MAX_NESTING, 64);
    assert!(is_shallow(&"<a>".repeat(64)));
    assert!(!is_shallow(&"<a>".repeat(65)));
    assert!(is_shallow(&"<a></a>".repeat(10_000)));
    assert!(is_shallow(&"<a/>".repeat(10_000)));
    assert!(is_shallow("plain text > with marks"));
    assert!(is_shallow(""));
}
