use upwork_rss::markup::{attribute_from_capture, extract_attribute, normalize_markup};

#[test]
fn attribute_is_found_after_the_label() {
    let found = extract_attribute("<p>Budget: $50<br><b>Country</b>: France<br>Skills: Rust</p>");
    assert_eq!(found, Some("France".to_string()));
}

#[test]
fn attribute_is_absent_without_the_label() {
    assert_eq!(extract_attribute("<p>Budget: $50<br>Skills: Rust</p>"), None);
    assert_eq!(extract_attribute(""), None);
}

#[test]
fn attribute_is_trimmed() {
    let found = extract_attribute("<b>Country</b>:  \t United States \n<br>");
    assert_eq!(found, Some("United States".to_string()));
}

#[test]
fn attribute_runs_to_the_end_without_a_tag() {
    assert_eq!(extract_attribute("<b>Country</b>: Spain"), Some("Spain".to_string()));
}

#[test]
fn attribute_of_white_space_only_is_empty() {
    assert_eq!(extract_attribute("<b>Country</b>: <br>"), Some(String::new()));
}

#[test]
fn label_directly_before_a_tag_is_no_match() {
    assert_eq!(extract_attribute("<b>Country</b>:<br>France"), None);
}

#[test]
fn first_label_wins() {
    let found = extract_attribute("<b>Country</b>: France<br><b>Country</b>: Germany<br>");
    assert_eq!(found, Some("France".to_string()));
}

#[test]
fn label_is_case_sensitive() {
    assert_eq!(extract_attribute("<b>country</b>: France<br>"), None);
}

#[test]
fn capture_without_match_gives_nothing() {
    assert_eq!(attribute_from_capture(None), None);
}

#[test]
fn capture_without_group_gives_empty_text() {
    assert_eq!(attribute_from_capture(Some(None)), Some(String::new()));
}

#[test]
fn capture_is_trimmed_at_both_ends() {
    let found = attribute_from_capture(Some(Some("\u{a0} New Zealand\u{3000}\r\n".to_string())));
    assert_eq!(found, Some("New Zealand".to_string()));
}

#[test]
fn capture_keeps_inner_white_space() {
    let found = attribute_from_capture(Some(Some("a  b".to_string())));
    assert_eq!(found, Some("a  b".to_string()));
}

#[test]
fn markup_is_rendered_as_a_fragment() {
    assert_eq!(
        normalize_markup("<p>Hello <b>World</b></p>"),
        "<html><p>Hello <b>World</b></p></html>"
    );
}

#[test]
fn plain_text_is_wrapped_and_escaped() {
    assert_eq!(normalize_markup("a & b"), "<html>a &amp; b</html>");
}

#[test]
fn unclosed_tags_are_closed() {
    assert_eq!(normalize_markup("<b>bold"), "<html><b>bold</b></html>");
}

#[test]
fn line_breaks_are_rendered_without_a_slash() {
    assert_eq!(normalize_markup("one<br />two"), "<html>one<br>two</html>");
}

#[test]
fn empty_markup_renders_to_an_empty_root() {
    assert_eq!(normalize_markup(""), "<html></html>");
}
