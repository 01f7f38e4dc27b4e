//! What the operator sets before the watcher starts.

use vstd::prelude::*;
use std::time::Duration;
use std::num::ParseIntError;
use crate::markup::{is_white_space, text_view, trim_text, trimmed};

verus! {

/// `std::num::ParseIntError`, carried as an opaque value.
#[verifier::external_type_specification]
#[verifier::external_body]
pub struct ExParseIntError(ParseIntError);

/// The settings of one watcher.
#[derive(Debug)]
pub struct Config {
    /// The pause between two cycles.
    pub interval: Duration,
    /// The number of entries asked of the feed in one cycle.
    pub paging: usize,
    /// The search that is watched.
    pub query: String,
    pub smtp_server: String,
    pub smtp_port: u16,
    pub smtp_username: String,
    pub smtp_password: String,
    /// Where the notifications go.
    pub recipient: String,
    /// Whether the backlog is withheld at the start.
    pub first_run: bool,
    /// The countries whose postings are forwarded; empty for all.
    pub countries: Vec<String>,
}

/// A word that is no country code, in capitals.
#[derive(Debug)]
pub struct InvalidCountry {
    pub code: String,
}

/// The whole seconds of a duration, as `Duration::as_secs` gives them.
pub uninterp spec fn whole_seconds(d: Duration) -> nat;

/// What a duration holds beyond its whole seconds, in nanoseconds, as
/// `Duration::subsec_nanos` gives it.
pub uninterp spec fn fraction_nanos(d: Duration) -> nat;

/// Whether `c` is one of the ten decimal digits.
pub open spec fn is_digit(c: char) -> bool {
    0x30 <= c as u32 <= 0x39
}

/// The number that a decimal digit stands for.
pub open spec fn digit_value(c: char) -> nat
    recommends
        is_digit(c),
{
    (c as u32 - 0x30) as nat
}

/// The number that a run of decimal digits stands for.
pub open spec fn digits_value(digits: Seq<char>) -> nat
    decreases digits.len(),
{
    if digits.len() == 0 {
        0
    } else {
        digits_value(digits.drop_last()) * 10 + digit_value(digits.last())
    }
}

/// `text` without one leading plus sign.
pub open spec fn unsigned_digits(text: Seq<char>) -> Seq<char> {
    if text.len() > 0 && text[0] == '+' {
        text.drop_first()
    } else {
        text
    }
}

/// Whether `text` writes a number of seconds: an optional plus sign, then one
/// or more decimal digits and nothing else, for a number that fits 64 bits.
pub open spec fn is_seconds(text: Seq<char>) -> bool {
    let digits = unsigned_digits(text);
    &&& digits.len() > 0
    &&& forall|i: int| 0 <= i < digits.len() ==> is_digit(#[trigger] digits[i])
    &&& digits_value(digits) <= u64::MAX
}

/// `text` in capitals, as `str::to_uppercase` writes it.
pub uninterp spec fn uppercased(text: Seq<char>) -> Seq<char>;

/// The English short name that `rust_iso3166` lists for the two-letter code
/// `code`; `None` where it lists none.
pub uninterp spec fn country_name(code: Seq<char>) -> Option<Seq<char>>;

/// The words of `text` that are complete, and the word that its end is in.
pub open spec fn words_within(text: Seq<char>) -> (Seq<Seq<char>>, Seq<char>)
    decreases text.len(),
{
    if text.len() == 0 {
        (Seq::<Seq<char>>::empty(), Seq::<char>::empty())
    } else {
        let (done, word) = words_within(text.drop_last());
        if !is_white_space(text.last()) {
            (done, word.push(text.last()))
        } else if word.len() > 0 {
            (done.push(word), Seq::<char>::empty())
        } else {
            (done, word)
        }
    }
}

/// The words of `text`: its longest runs of characters that are no white
/// space, in order.
pub open spec fn words(text: Seq<char>) -> Seq<Seq<char>> {
    let (done, word) = words_within(text);
    if word.len() > 0 {
        done.push(word)
    } else {
        done
    }
}

/// `text` with each occurrence of `from` replaced by `to`, the occurrences
/// taken from the left and not overlapping.
pub open spec fn replaced(text: Seq<char>, from: Seq<char>, to: Seq<char>) -> Seq<char>
    decreases text.len(),
{
    if from.len() == 0 || text.len() == 0 {
        text
    } else if from.is_prefix_of(text) {
        to + replaced(text.skip(from.len() as int), from, to)
    } else {
        seq![text[0]] + replaced(text.drop_first(), from, to)
    }
}

/// The country code that a word stands for: the word in capitals.
pub open spec fn country_code(word: Seq<char>) -> Seq<char> {
    uppercased(trimmed(word))
}

/// The name under which the country of a word is looked for in postings:
/// its English short name, without ` of America`.
pub open spec fn country_label(word: Seq<char>) -> Option<Seq<char>> {
    match country_name(country_code(word)) {
        None => None,
        Some(name) => Some(replaced(name, " of America"@, ""@)),
    }
}

/// Calls `str::split_whitespace` and copies each piece: the longest runs of
/// characters without Unicode's property `White_Space`, in order.
#[verifier::external_body]
fn split_words(text: &str) -> (pieces: Vec<String>)
    ensures
        pieces@.len() == words(text@).len(),
        forall|i: int| 0 <= i < pieces@.len() ==> (#[trigger] pieces@[i])@ == words(text@)[i],
{
    text.split_whitespace().map(str::to_string).collect()
}

/// Calls `str::to_uppercase`, whose result depends on the text alone.
#[verifier::external_body]
fn upper_text(text: &str) -> (upper: String)
    ensures
        upper@ == uppercased(text@),
{
    text.to_uppercase()
}

/// Calls `str::replace` with a pattern that is not empty: every occurrence
/// of the pattern, found from the left without overlap, gives way to `to`.
#[verifier::external_body]
fn replace_text(text: &str, from: &str, to: &str) -> (out: String)
    requires
        from@.len() > 0,
    ensures
        out@ == replaced(text@, from@, to@),
{
    text.replace(from, to)
}

/// Calls `rust_iso3166::from_alpha2` and hands out the name of the country
/// found, which depends on the code alone.
#[verifier::external_body]
fn name_by_code(code: &str) -> (name: Option<String>)
    ensures
        text_view(name) == country_name(code@),
{
    rust_iso3166::from_alpha2(code).map(|country| country.name.to_string())
}

/// Turns the name that the country list has for a code into the one looked
/// for in postings.
pub fn label_of_name(name: Option<String>) -> (label: Option<String>)
    ensures
        text_view(label) == match text_view(name) {
            None => None::<Seq<char>>,
            Some(n) => Some(replaced(n, " of America"@, ""@)),
        },
{
    match name {
        None => None,
        Some(n) => {
            proof {
                reveal_strlit(" of America");
            }
            Some(replace_text(n.as_str(), " of America", ""))
        },
    }
}

/// Reads an allow-list given as two-letter country codes between white
/// space, in either case, into the names looked for in postings. The first
/// word that is no country code is handed back, in capitals.
pub fn parse_countries(arg: &str) -> (r: Result<Vec<String>, InvalidCountry>)
    ensures
        r is Ok <==> forall|i: int|
            0 <= i < words(arg@).len() ==> country_label(#[trigger] words(arg@)[i]) is Some,
        r matches Ok(names) ==> names@.len() == words(arg@).len() && forall|i: int|
            0 <= i < names@.len() ==> Some((#[trigger] names@[i])@) == country_label(
                words(arg@)[i],
            ),
        r matches Err(e) ==> exists|k: int|
            0 <= k < words(arg@).len() && country_label(#[trigger] words(arg@)[k]) is None
                && e.code@ == country_code(words(arg@)[k]) && forall|j: int|
                0 <= j < k ==> country_label(#[trigger] words(arg@)[j]) is Some,
{
    let pieces = split_words(arg);
    let mut names: Vec<String> = Vec::new();
    let mut i: usize = 0;
    while i < pieces.len()
        invariant
            i <= pieces.len(),
            pieces@.len() == words(arg@).len(),
            forall|k: int| 0 <= k < pieces@.len() ==> (#[trigger] pieces@[k])@ == words(arg@)[k],
            names@.len() == i,
            forall|k: int|
                0 <= k < i ==> Some((#[trigger] names@[k])@) == country_label(words(arg@)[k]),
        decreases pieces.len() - i,
    {
        let code = upper_text(trim_text(pieces[i].as_str()));
        assert(code@ == country_code(words(arg@)[i as int]));
        match label_of_name(name_by_code(code.as_str())) {
            None => {
                assert(country_label(words(arg@)[i as int]) is None);
                assert forall|j: int| 0 <= j < i implies country_label(
                    #[trigger] words(arg@)[j],
                ) is Some by {
                    assert(Some(names@[j]@) == country_label(words(arg@)[j]));
                }
                return Err(InvalidCountry { code });
            },
            Some(label) => {
                names.push(label);
            },
        }
        i += 1;
    }
    assert forall|k: int| 0 <= k < words(arg@).len() implies country_label(
        #[trigger] words(arg@)[k],
    ) is Some by {
        assert(Some(names@[k]@) == country_label(words(arg@)[k]));
    }
    Ok(names)
}

/// Calls `str::parse` for `u64`, which accepts an optional plus sign followed
/// by decimal digits only, and refuses the empty text, any other character,
/// and a number too large for the type.
#[verifier::external_body]
fn parse_u64(text: &str) -> (r: Result<u64, ParseIntError>)
    ensures
        r is Ok <==> is_seconds(text@),
        r matches Ok(n) ==> n == digits_value(unsigned_digits(text@)),
{
    text.parse::<u64>()
}

/// Calls `Duration::from_secs`: that many whole seconds and nothing more.
#[verifier::external_body]
fn duration_of_secs(secs: u64) -> (d: Duration)
    ensures
        whole_seconds(d) == secs,
        fraction_nanos(d) == 0,
{
    Duration::from_secs(secs)
}

/// Reads an interval given as a whole number of seconds.
pub fn parse_duration(arg: &str) -> (r: Result<Duration, ParseIntError>)
    ensures
        r is Ok <==> is_seconds(arg@),
        r matches Ok(d) ==> whole_seconds(d) == digits_value(unsigned_digits(arg@))
            && fraction_nanos(d) == 0,
{
    match parse_u64(arg) {
        Ok(secs) => Ok(duration_of_secs(secs)),
        Err(e) => Err(e),
    }
}

} // verus!
