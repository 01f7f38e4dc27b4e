//! The feed as the watcher meets it: the address that is asked for a query,
//! and the entries that a retrieved document holds.
//!
//! Addresses are built by `url`, documents are read by `rss`.

use vstd::prelude::*;
use crate::error::PollError;
use crate::nesting::{is_shallow, shallow};

verus! {

/// `url::Url`, carried as an opaque value.
#[verifier::external_type_specification]
#[verifier::external_body]
pub struct ExUrl(url::Url);

/// `url::ParseError`, carried as an opaque value.
#[verifier::external_type_specification]
#[verifier::external_body]
pub struct ExUrlParseError(url::ParseError);

/// `rss::Error`, carried as an opaque value.
#[verifier::external_type_specification]
#[verifier::external_body]
pub struct ExRssError(rss::Error);

/// One raw record of a feed document. A field that the document leaves out
/// is `None`.
#[derive(Debug)]
pub struct RawEntry {
    pub link: Option<String>,
    pub title: Option<String>,
    pub description: Option<String>,
}

/// A raw record by the characters of its fields.
pub struct EntryView {
    pub link: Option<Seq<char>>,
    pub title: Option<Seq<char>>,
    pub description: Option<Seq<char>>,
}

impl View for RawEntry {
    type V = EntryView;

    open spec fn view(&self) -> EntryView {
        EntryView {
            link: crate::markup::text_view(self.link),
            title: crate::markup::text_view(self.title),
            description: crate::markup::text_view(self.description),
        }
    }
}

/// Raw records, each by its view.
pub open spec fn entries_view(entries: Seq<RawEntry>) -> Seq<EntryView> {
    entries.map_values(|e: RawEntry| e@)
}

/// The address as `url` writes it.
pub uninterp spec fn url_text(address: url::Url) -> Seq<char>;

/// The address that `url` reads from `text`, as it writes it; `None` where it
/// refuses the text.
pub uninterp spec fn parsed_url(text: Seq<char>) -> Option<Seq<char>>;

/// The address `before` after `url` appended the pair of `name` and `value`
/// to its query.
pub uninterp spec fn url_with_pair(before: Seq<char>, name: Seq<char>, value: Seq<char>) -> Seq<
    char,
>;

/// The items that `rss` finds in a document, in the document's order; `None`
/// where it refuses the document.
pub uninterp spec fn feed_items(document: Seq<char>) -> Option<Seq<EntryView>>;

/// The number of bytes that `text` takes.
pub open spec fn byte_len(text: Seq<char>) -> nat {
    vstd::utf8::encode_utf8(text).len()
}

/// Whether the address `before` has room for the pair of `name` and `value`:
/// with every byte of the pair written as three, and the two marks that set
/// the pair off, the address stays within the length that `url` can hold.
pub open spec fn pair_fits(before: Seq<char>, name: Seq<char>, value: Seq<char>) -> bool {
    byte_len(before) + 3 * (byte_len(name) + byte_len(value)) + 2 <= u32::MAX
}

/// The items of a document that is taken for reading: `None` where the
/// document is nested too deeply to be read, or is no feed.
pub open spec fn readable_items(document: Seq<char>) -> Option<Seq<EntryView>> {
    if shallow(document) {
        feed_items(document)
    } else {
        None
    }
}

/// Calls `url::Url::parse`. Whether a text is accepted, and the address that
/// is made of it, depend on the text alone.
#[verifier::external_body]
fn parse_address(text: &str) -> (r: Result<url::Url, url::ParseError>)
    ensures
        r is Ok <==> parsed_url(text@) is Some,
        r matches Ok(address) ==> Some(url_text(address)) == parsed_url(text@),
{
    url::Url::parse(text)
}

/// Calls `url::Url::query_pairs_mut` and `append_pair` on the serializer it
/// gives: the pair is encoded and appended to the address's query. The new
/// address depends on the old one, the name and the value alone. An address
/// that the pair would bring over the length that `url` can hold is left out.
#[verifier::external_body]
fn append_pair(address: &mut url::Url, name: &str, value: &str)
    requires
        pair_fits(url_text(*old(address)), name@, value@),
    ensures
        url_text(*final(address)) == url_with_pair(url_text(*old(address)), name@, value@),
{
    address.query_pairs_mut().append_pair(name, value);
}

/// Calls `url::Url::as_str`, the address as text.
#[verifier::external_body]
fn address_text(address: &url::Url) -> (text: String)
    ensures
        text@ == url_text(*address),
{
    address.as_str().to_string()
}

/// Calls `rss::Channel::read_from` on the document's bytes and hands out the
/// link, title and description of each item of `Channel::items`, in order.
/// Whether a document is accepted, and what its items are, depend on the
/// document alone. The reader calls itself for each tag nested in an
/// extension element, so a document whose tags are nested too deeply is left
/// out.
#[verifier::external_body]
fn read_channel(document: &str) -> (r: Result<Vec<RawEntry>, rss::Error>)
    requires
        shallow(document@),
    ensures
        r is Ok <==> feed_items(document@) is Some,
        r matches Ok(entries) ==> Some(entries_view(entries@)) == feed_items(document@),
{
    let channel = rss::Channel::read_from(document.as_bytes())?;
    Ok(
        channel.items().iter().map(
            |item|
                RawEntry {
                    link: item.link().map(str::to_string),
                    title: item.title().map(str::to_string),
                    description: item.description().map(str::to_string),
                },
        ).collect(),
    )
}

/// Puts `rss::Error` into words, by its `Display`.
#[verifier::external_body]
fn channel_error_text(error: &rss::Error) -> (text: String) {
    error.to_string()
}

/// The decimal digit for `d`.
pub open spec fn digit_char(d: nat) -> char
    recommends
        d < 10,
{
    if d == 0 {
        '0'
    } else if d == 1 {
        '1'
    } else if d == 2 {
        '2'
    } else if d == 3 {
        '3'
    } else if d == 4 {
        '4'
    } else if d == 5 {
        '5'
    } else if d == 6 {
        '6'
    } else if d == 7 {
        '7'
    } else if d == 8 {
        '8'
    } else {
        '9'
    }
}

/// `n` in decimal digits, without leading zeros.
pub open spec fn decimal(n: nat) -> Seq<char>
    decreases n,
{
    if n < 10 {
        seq![digit_char(n)]
    } else {
        decimal(n / 10).push(digit_char(n % 10))
    }
}

/// Where the feed is served.
pub open spec fn feed_base() -> Seq<char> {
    "https://www.upwork.com/ab/feed/jobs/rss"@
}

/// The paging window from the first entry to `paging`.
pub open spec fn paging_window(paging: nat) -> Seq<char> {
    "0;"@ + decimal(paging)
}

/// The address `before` with the pair of `name` and `value` appended;
/// `None` where there was no address, or no room for the pair.
pub open spec fn with_pair(before: Option<Seq<char>>, name: Seq<char>, value: Seq<char>) -> Option<
    Seq<char>,
> {
    match before {
        None => None,
        Some(text) => if pair_fits(text, name, value) {
            Some(url_with_pair(text, name, value))
        } else {
            None
        },
    }
}

/// The address `base` with the query, the order by recency and the paging
/// window appended; `None` where the address would grow too long.
pub open spec fn search_address(base: Seq<char>, query: Seq<char>, paging: nat) -> Option<
    Seq<char>,
> {
    with_pair(
        with_pair(with_pair(Some(base), "q"@, query), "sort"@, "recency"@),
        "paging"@,
        paging_window(paging),
    )
}

/// The address to ask for `query` with a window of `paging` entries; `None`
/// where the feed's base is no address, or the address would grow too long.
pub open spec fn feed_address(query: Seq<char>, paging: nat) -> Option<Seq<char>> {
    match parsed_url(feed_base()) {
        None => None,
        Some(base) => search_address(base, query, paging),
    }
}

fn digit_text(d: usize) -> (text: &'static str)
    requires
        d < 10,
    ensures
        text@ == seq![digit_char(d as nat)],
{
    proof {
        reveal_strlit("0");
        reveal_strlit("1");
        reveal_strlit("2");
        reveal_strlit("3");
        reveal_strlit("4");
        reveal_strlit("5");
        reveal_strlit("6");
        reveal_strlit("7");
        reveal_strlit("8");
        reveal_strlit("9");
    }
    let text = if d == 0 {
        "0"
    } else if d == 1 {
        "1"
    } else if d == 2 {
        "2"
    } else if d == 3 {
        "3"
    } else if d == 4 {
        "4"
    } else if d == 5 {
        "5"
    } else if d == 6 {
        "6"
    } else if d == 7 {
        "7"
    } else if d == 8 {
        "8"
    } else {
        "9"
    };
    assert(text@ =~= seq![digit_char(d as nat)]);
    text
}

/// Writes `n` in decimal digits.
pub fn decimal_text(n: usize) -> (text: String)
    ensures
        text@ == decimal(n as nat),
    decreases n,
{
    if n < 10 {
        String::from_str(digit_text(n))
    } else {
        let text = decimal_text(n / 10).concat(digit_text(n % 10));
        assert(text@ =~= decimal(n as nat));
        text
    }
}

/// Appends the pair of `name` and `value` to the query of `address` where
/// there is room for it, and tells whether there was.
fn try_append(address: &mut url::Url, name: &str, value: &str) -> (done: bool)
    ensures
        done == pair_fits(url_text(*old(address)), name@, value@),
        done ==> url_text(*final(address)) == url_with_pair(
            url_text(*old(address)),
            name@,
            value@,
        ),
        !done ==> *final(address) == *old(address),
{
    let text = address_text(address);
    let held = text.as_str().as_bytes().len();
    let n = name.as_bytes().len();
    let v = value.as_bytes().len();
    if held as u128 + 3 * (n as u128 + v as u128) + 2 <= 0xFFFF_FFFFu128 {
        append_pair(address, name, value);
        true
    } else {
        false
    }
}

/// Appends the three parameters of a search to `base`: the query, the order
/// by recency, and the paging window. Fails where the address would grow
/// too long.
pub fn with_search_params(base: url::Url, query: &str, paging: usize) -> (r: Result<
    String,
    PollError,
>)
    ensures
        r is Ok <==> search_address(url_text(base), query@, paging as nat) is Some,
        r matches Ok(text) ==> Some(text@) == search_address(
            url_text(base),
            query@,
            paging as nat,
        ),
        r matches Err(e) ==> e is Fetch,
{
    let mut address = base;
    let window = String::from_str("0;").concat(decimal_text(paging).as_str());
    if try_append(&mut address, "q", query) && try_append(&mut address, "sort", "recency")
        && try_append(&mut address, "paging", window.as_str()) {
        Ok(address_text(&address))
    } else {
        Err(PollError::Fetch { cause: String::from_str("the query is too long for an address") })
    }
}

/// The address to ask for `query` with a window of `paging` entries.
pub fn search_url(query: &str, paging: usize) -> (r: Result<String, PollError>)
    ensures
        r is Ok <==> feed_address(query@, paging as nat) is Some,
        r matches Ok(text) ==> Some(text@) == feed_address(query@, paging as nat),
        r matches Err(e) ==> e is Fetch,
{
    match parse_address("https://www.upwork.com/ab/feed/jobs/rss") {
        Ok(base) => with_search_params(base, query, paging),
        Err(_) => Err(PollError::Fetch { cause: String::from_str("the feed's address is not valid") }),
    }
}

/// Reads a retrieved document into its entries, in the document's order. A
/// document whose tags are nested too deeply to be read safely is refused
/// like one that is no feed.
pub fn read_feed(document: &str) -> (r: Result<Vec<RawEntry>, PollError>)
    ensures
        r is Ok <==> readable_items(document@) is Some,
        r matches Ok(entries) ==> Some(entries_view(entries@)) == readable_items(document@),
        r matches Err(e) ==> e is Parse,
{
    if !is_shallow(document) {
        return Err(
            PollError::Parse { cause: String::from_str("the document is nested too deeply") },
        );
    }
    match read_channel(document) {
        Ok(entries) => Ok(entries),
        Err(error) => Err(PollError::Parse { cause: channel_error_text(&error) }),
    }
}

} // verus!
