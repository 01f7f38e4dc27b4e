//! Normalising an entry's embedded markup and reading the labelled attribute
//! out of it.
//!
//! Markup is re-rendered by `scraper`; the attribute is found by a `regex`
//! pattern for the label, then trimmed.

use vstd::prelude::*;

verus! {

/// `regex::Regex`, carried as an opaque value.
#[verifier::external_type_specification]
#[verifier::external_body]
pub struct ExRegex(regex::Regex);

/// `regex::Error`, carried as an opaque value.
#[verifier::external_type_specification]
#[verifier::external_body]
pub struct ExRegexError(regex::Error);

/// The markup that `scraper` renders for a fragment parsed from `markup`.
pub uninterp spec fn fragment_markup(markup: Seq<char>) -> Seq<char>;

/// Whether `regex::Regex::new` accepts `pattern`.
pub uninterp spec fn pattern_compiles(pattern: Seq<char>) -> bool;

/// The pattern that a compiled expression was made from.
pub uninterp spec fn pattern_of(re: regex::Regex) -> Seq<char>;

/// What the leftmost match of `pattern` in `hay` gives for the group numbered
/// `group`: `None` where nothing matches, `Some(None)` where the match leaves
/// the group out, else the group's text.
pub uninterp spec fn group_of_first_match(pattern: Seq<char>, hay: Seq<char>, group: nat) -> Option<
    Option<Seq<char>>,
>;

/// The characters of Unicode's property `White_Space`.
pub open spec fn is_white_space(c: char) -> bool {
    let n = c as u32;
    ||| 0x09 <= n <= 0x0D
    ||| n == 0x20
    ||| n == 0x85
    ||| n == 0xA0
    ||| n == 0x1680
    ||| 0x2000 <= n <= 0x200A
    ||| n == 0x2028
    ||| n == 0x2029
    ||| n == 0x202F
    ||| n == 0x205F
    ||| n == 0x3000
}

/// `s` without the white space it begins with.
pub open spec fn trimmed_start(s: Seq<char>) -> Seq<char>
    decreases s.len(),
{
    if s.len() > 0 && is_white_space(s[0]) {
        trimmed_start(s.drop_first())
    } else {
        s
    }
}

/// `s` without the white space it ends with.
pub open spec fn trimmed_end(s: Seq<char>) -> Seq<char>
    decreases s.len(),
{
    if s.len() > 0 && is_white_space(s.last()) {
        trimmed_end(s.drop_last())
    } else {
        s
    }
}

/// `s` without the white space at either end.
pub open spec fn trimmed(s: Seq<char>) -> Seq<char> {
    trimmed_end(trimmed_start(s))
}

/// Whether a text neither begins nor ends with white space.
pub open spec fn clean_ends(s: Seq<char>) -> bool {
    s.len() > 0 ==> !is_white_space(s[0]) && !is_white_space(s.last())
}

/// What is left of a text without the white space it begins with does not
/// begin with white space.
pub proof fn lemma_trimmed_start_clean(s: Seq<char>)
    ensures
        trimmed_start(s).len() > 0 ==> !is_white_space(trimmed_start(s)[0]),
    decreases s.len(),
{
    if s.len() > 0 && is_white_space(s[0]) {
        lemma_trimmed_start_clean(s.drop_first());
    }
}

/// What is left of a text without the white space it ends with does not
/// end with white space, and begins as the text does.
pub proof fn lemma_trimmed_end_clean(s: Seq<char>)
    ensures
        trimmed_end(s).len() > 0 ==> !is_white_space(trimmed_end(s).last()),
        trimmed_end(s).len() > 0 ==> trimmed_end(s)[0] == s[0],
        trimmed_end(s).len() <= s.len(),
    decreases s.len(),
{
    if s.len() > 0 && is_white_space(s.last()) {
        lemma_trimmed_end_clean(s.drop_last());
    }
}

/// A trimmed text neither begins nor ends with white space, and trimming
/// it again changes nothing.
pub proof fn lemma_trimmed_clean(s: Seq<char>)
    ensures
        clean_ends(trimmed(s)),
        trimmed(trimmed(s)) == trimmed(s),
{
    let inner = trimmed_start(s);
    let t = trimmed(s);
    lemma_trimmed_start_clean(s);
    lemma_trimmed_end_clean(inner);
    if t.len() > 0 {
        assert(trimmed_start(t) == t);
        assert(trimmed_end(t) == t);
    } else {
        assert(trimmed_start(t) == t);
        assert(trimmed_end(t) == t);
    }
}

/// The pattern for the label: the bold word `Country`, a colon, and then
/// everything up to the next tag, which must be at least one character.
pub open spec fn label_pattern() -> Seq<char> {
    "<b>Country</b>:([^<]+)"@
}

/// A captured group by its characters.
pub open spec fn capture_view(capture: Option<Option<String>>) -> Option<Option<Seq<char>>> {
    match capture {
        None => None,
        Some(None) => Some(None),
        Some(Some(text)) => Some(Some(text@)),
    }
}

/// An optional text by its characters.
pub open spec fn text_view(text: Option<String>) -> Option<Seq<char>> {
    match text {
        None => None,
        Some(t) => Some(t@),
    }
}

/// The attribute that a capture stands for: none without a match, the empty
/// text where the match left the group out, else the group's text trimmed.
pub open spec fn attribute_from(capture: Option<Option<Seq<char>>>) -> Option<Seq<char>> {
    match capture {
        None => None,
        Some(None) => Some(Seq::<char>::empty()),
        Some(Some(text)) => Some(trimmed(text)),
    }
}

/// What the label's pattern captures in `markup` as its first group; nothing
/// where the pattern is not accepted.
pub open spec fn labelled_value(markup: Seq<char>) -> Option<Option<Seq<char>>> {
    if pattern_compiles(label_pattern()) {
        group_of_first_match(label_pattern(), markup, 1)
    } else {
        None
    }
}

/// The attribute that `markup` carries under the label, if any.
pub open spec fn attribute_in(markup: Seq<char>) -> Option<Seq<char>> {
    attribute_from(labelled_value(markup))
}

/// Calls `scraper::Html::parse_fragment` and `Html::html` on the outcome:
/// the fragment parsed and rendered again. The rendering depends on the text
/// alone.
#[verifier::external_body]
fn render_fragment(markup: &str) -> (rendered: String)
    ensures
        rendered@ == fragment_markup(markup@),
{
    scraper::Html::parse_fragment(markup).html()
}

/// Calls `regex::Regex::new`. Whether a pattern is accepted depends on the
/// pattern alone, and the expression made keeps the pattern.
#[verifier::external_body]
fn compile(pattern: &str) -> (r: Result<regex::Regex, regex::Error>)
    ensures
        r is Ok <==> pattern_compiles(pattern@),
        r matches Ok(re) ==> pattern_of(re) == pattern@,
{
    regex::Regex::new(pattern)
}

/// Calls `regex::Regex::captures` and `Captures::get`: the text of one group
/// in the leftmost match, which depends on the pattern, the text searched and
/// the group's number alone.
#[verifier::external_body]
fn capture_group(re: &regex::Regex, hay: &str, group: usize) -> (capture: Option<Option<String>>)
    ensures
        capture_view(capture) == group_of_first_match(pattern_of(*re), hay@, group as nat),
{
    re.captures(hay).map(|found| found.get(group).map(|part| part.as_str().to_string()))
}

/// Calls `str::trim`, which removes the leading and trailing characters that
/// have Unicode's property `White_Space`.
#[verifier::external_body]
pub(crate) fn trim_text(text: &str) -> (inner: &str)
    ensures
        inner@ == trimmed(text@),
{
    text.trim()
}

/// The label's pattern as text.
fn label_pattern_text() -> (pattern: &'static str)
    ensures
        pattern@ == label_pattern(),
{
    "<b>Country</b>:([^<]+)"
}

/// Re-renders an entry's embedded markup into normalised markup.
pub fn normalize_markup(markup: &str) -> (rendered: String)
    ensures
        rendered@ == fragment_markup(markup@),
{
    render_fragment(markup)
}

/// Turns what the label's pattern captured into the attribute.
pub fn attribute_from_capture(capture: Option<Option<String>>) -> (attribute: Option<String>)
    ensures
        text_view(attribute) == attribute_from(capture_view(capture)),
        attribute matches Some(a) ==> clean_ends(a@),
{
    match capture {
        None => None,
        Some(None) => Some(String::new()),
        Some(Some(text)) => {
            proof {
                lemma_trimmed_clean(text@);
            }
            Some(String::from_str(trim_text(text.as_str())))
        },
    }
}

/// Scans `markup` for the label and gives the value that follows it, up to
/// the next tag and without surrounding white space; `None` where the label
/// does not occur.
pub fn extract_attribute(markup: &str) -> (attribute: Option<String>)
    ensures
        text_view(attribute) == attribute_in(markup@),
        attribute matches Some(a) ==> clean_ends(a@),
{
    match compile(label_pattern_text()) {
        Err(_) => None,
        Ok(re) => attribute_from_capture(capture_group(&re, markup, 1)),
    }
}

} // verus!
