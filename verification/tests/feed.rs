use upwork_rss::error::PollError;
use upwork_rss::feed::{decimal_text, read_feed, search_url, with_search_params};

fn document(items: &[(&str, &str, &str)]) -> String {
    let mut text = String::from(
        "<?xml version=\"1.0\" encoding=\"UTF-8\"?><rss version=\"2.0\"><channel>\
         <title>Jobs</title><link>https://example.org/</link><description>All jobs</description>",
    );
    for (link, title, description) in items {
        text.push_str(&format!(
            "<item><title>{}</title><link>{}</link><description><![CDATA[{}]]></description></item>",
            title, link, description
        ));
    }
    text.push_str("</channel></rss>");
    text
}

#[test]
fn decimal_text_of_small_and_large_numbers() {
    assert_eq!(decimal_text(0), "0");
    assert_eq!(decimal_text(7), "7");
    assert_eq!(decimal_text(10), "10");
    assert_eq!(decimal_text(25), "25");
    assert_eq!(decimal_text(3000), "3000");
    assert_eq!(decimal_text(1234567890), "1234567890");
    assert_eq!(decimal_text(usize::MAX), usize::MAX.to_string());
}

#[test]
fn search_url_encodes_query_order_and_window() {
    assert_eq!(
        search_url("rust", 25).unwrap(),
        "https://www.upwork.com/ab/feed/jobs/rss?q=rust&sort=recency&paging=0%3B25"
    );
}

#[test]
fn search_url_encodes_spaces_and_signs() {
    assert_eq!(
        search_url("rust developer & c++", 3).unwrap(),
        "https://www.upwork.com/ab/feed/jobs/rss?q=rust+developer+%26+c%2B%2B&sort=recency&paging=0%3B3"
    );
}

#[test]
fn search_url_with_empty_query() {
    assert_eq!(
        search_url("", 0).unwrap(),
        "https://www.upwork.com/ab/feed/jobs/rss?q=&sort=recency&paging=0%3B0"
    );
}

#[test]
fn search_params_follow_an_existing_query() {
    let base = url::Url::parse("https://example.org/feed?lang=en").unwrap();
    assert_eq!(
        with_search_params(base, "go", 10).unwrap(),
        "https://example.org/feed?lang=en&q=go&sort=recency&paging=0%3B10"
    );
}

#[test]
fn feed_entries_come_in_document_order() {
    let text = document(&[
        ("https://example.org/1", "First", "<p>one</p>"),
        ("https://example.org/2", "Second", "<p>two</p>"),
    ]);
    let entries = read_feed(&text).unwrap();
    assert_eq!(entries.len(), 2);
    assert_eq!(entries[0].link.as_deref(), Some("https://example.org/1"));
    assert_eq!(entries[0].title.as_deref(), Some("First"));
    assert_eq!(entries[0].description.as_deref(), Some("<p>one</p>"));
    assert_eq!(entries[1].link.as_deref(), Some("https://example.org/2"));
    assert_eq!(entries[1].title.as_deref(), Some("Second"));
}

#[test]
fn feed_without_items_is_empty() {
    let entries = read_feed(&document(&[])).unwrap();
    assert!(entries.is_empty());
}

#[test]
fn absent_fields_are_none() {
    let text = "<rss version=\"2.0\"><channel><title>t</title><link>l</link>\
                <description>d</description><item><title>Only a title</title></item></channel></rss>";
    let entries = read_feed(text).unwrap();
    assert_eq!(entries.len(), 1);
    assert_eq!(entries[0].link, None);
    assert_eq!(entries[0].title.as_deref(), Some("Only a title"));
    assert_eq!(entries[0].description, None);
}

#[test]
fn malformed_document_is_a_parse_error() {
    assert!(matches!(read_feed("this is no feed"), Err(PollError::Parse { .. })));
    assert!(matches!(read_feed(""), Err(PollError::Parse { .. })));
    assert!(matches!(read_feed("<html><body>nothing</body></html>"), Err(PollError::Parse { .. })));
}

#[test]
fn parse_error_names_its_cause() {
    match read_feed("<rss><channel></rss>") {
        Err(PollError::Parse { cause }) => assert!(!cause.is_empty()),
        other => panic!("expected a parse error, got {:?}", other),
    }
}

#[test]
fn search_params_go_before_a_fragment() {
    let base = url::Url::parse("https://example.org/feed#top").unwrap();
    assert_eq!(
        with_search_params(base, "a b", 1).unwrap(),
        "https://example.org/feed?q=a+b&sort=recency&paging=0%3B1#top"
    );
}

fn nested(depth: usize) -> String {
    let mut text = String::from(
        "<rss version=\"2.0\"><channel><title>t</title><link>l</link>\
         <description>d</description><item><link>deep</link><a:b>",
    );
    for _ in 0..depth {
        text.push_str("<c>");
    }
    for _ in 0..depth {
        text.push_str("</c>");
    }
    text.push_str("</a:b></item></channel></rss>");
    text
}

#[test]
fn nesting_up_to_the_limit_is_read() {
    let entries = read_feed(&nested(60)).unwrap();
    assert_eq!(entries.len(), 1);
    assert_eq!(entries[0].link.as_deref(), Some("deep"));
}

#[test]
fn nesting_over_the_limit_is_a_parse_error() {
    match read_feed(&nested(61)) {
        Err(PollError::Parse { cause }) => assert_eq!(cause, "the document is nested too deeply"),
        other => panic!("expected a parse error, got {:?}", other),
    }
}

#[test]
fn very_deep_nesting_is_a_parse_error() {
    assert!(matches!(read_feed(&nested(100_000)), Err(PollError::Parse { .. })));
}

#[test]
fn unclosed_deep_nesting_is_a_parse_error() {
    let mut text = String::from("<rss version=\"2.0\"><channel><item><a:b>");
    for _ in 0..50_000 {
        text.push_str("<c><!--</c>--><![CDATA[</c>]]>");
    }
    assert!(matches!(read_feed(&text), Err(PollError::Parse { .. })));
}

#[test]
fn markup_inside_character_data_is_not_nesting() {
    let mut body = String::new();
    for _ in 0..500 {
        body.push_str("<p><b>bold<br>");
    }
    let text = document(&[("https://example.org/1", "First", &body)]);
    let entries = read_feed(&text).unwrap();
    assert_eq!(entries.len(), 1);
    assert_eq!(entries[0].description.as_deref(), Some(body.as_str()));
}

#[test]
fn empty_elements_and_declaration_are_read() {
    let mut text = String::from(
        "<?xml version=\"1.0\" encoding=\"UTF-8\"?><!-- a plain comment -->\
         <rss version=\"2.0\" xmlns:atom=\"http://www.w3.org/2005/Atom\"><channel>\
         <title>t</title><link>l</link><description>d</description>",
    );
    for n in 0..200 {
        text.push_str(&format!(
            "<atom:link href=\"https://example.org/{}\" rel='self' /><item><link>{}</link></item>",
            n, n
        ));
    }
    text.push_str("</channel></rss>");
    let entries = read_feed(&text).unwrap();
    assert_eq!(entries.len(), 200);
    assert_eq!(entries[199].link.as_deref(), Some("199"));
}

#[test]
fn tags_inside_a_comment_are_refused() {
    let text = "<rss version=\"2.0\"><channel><title>t</title><link>l</link>\
                <description>d</description><!-- <item></item> --></channel></rss>";
    assert!(matches!(read_feed(text), Err(PollError::Parse { .. })));
}

#[test]
fn a_document_type_is_refused() {
    let text = "<!DOCTYPE rss><rss version=\"2.0\"><channel><title>t</title><link>l</link>\
                <description>d</description></channel></rss>";
    assert!(matches!(read_feed(text), Err(PollError::Parse { .. })));
}

#[test]
fn a_quoted_tag_end_is_refused() {
    let text = "<rss version=\"2.0\"><channel><title>t</title><link>l</link>\
                <description>d</description><item a=\">\"><link>x</link></item></channel></rss>";
    assert!(matches!(read_feed(text), Err(PollError::Parse { .. })));
}
