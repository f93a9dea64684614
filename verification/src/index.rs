//! The bracketed indices in a concrete path, such as the 3 of
//! `authorships[3]`.

use vstd::prelude::*;
use crate::crossref::owned_text;
use crate::text::chars_of;

verus! {

/// The outside crate's compiled pattern; opaque here.
#[verifier::external_type_specification]
#[verifier::external_body]
pub struct ExRegex(regex::Regex);

/// What the first capture group of the leftmost match of the regular
/// expression `pattern` in `text` holds, as `regex::Regex::captures` finds
/// it. `None` where nothing matches or the group takes no part.
pub uninterp spec fn first_capture(pattern: Seq<char>, text: Seq<char>) -> Option<Seq<char>>;

/// Whether `regex::Regex::new` accepts `pattern` as a regular expression,
/// under its default size limit.
pub uninterp spec fn regex_accepts(pattern: Seq<char>) -> bool;

/// A compiled pattern for one kind of index.
pub struct IndexPattern {
    source: String,
    matcher: regex::Regex,
}

/// Compiles the pattern with `regex::Regex::new`. The result is the
/// compiled pattern beside its source where the crate accepts the source,
/// and `None` where it refuses it.
#[verifier::external_body]
fn compile(source: &str) -> (r: Option<IndexPattern>)
    ensures
        r is Some == regex_accepts(source@),
        r matches Some(pattern) ==> pattern.source@ == source@,
{
    match regex::Regex::new(source) {
        Ok(matcher) => Some(IndexPattern { source: source.to_string(), matcher }),
        Err(_) => None,
    }
}

/// Calls `regex::Regex::captures` and takes the text of group 1 with
/// `Captures::get` and `Match::as_str`.
#[verifier::external_body]
fn capture(pattern: &IndexPattern, text: &str) -> (r: Option<String>)
    ensures
        owned_text(r) == first_capture(pattern.source@, text@),
{
    match pattern.matcher.captures(text) {
        Some(found) => found.get(1).map(|group| group.as_str().to_string()),
        None => None,
    }
}

/// The pattern of an author index in an OpenAlex path.
pub open spec fn authorship_pattern() -> Seq<char> {
    "authorships\\[(\\d+)\\]"@
}

/// The pattern of an affiliation index in an OpenAlex path.
pub open spec fn affiliation_pattern() -> Seq<char> {
    "affiliations\\[(\\d+)\\]"@
}

/// The pattern of an institution index in an OpenAlex path.
pub open spec fn institution_pattern() -> Seq<char> {
    "institutions\\[(\\d+)\\]"@
}

/// The pattern of an author index in a Crossref path.
pub open spec fn author_pattern() -> Seq<char> {
    "author\\[(\\d+)\\]"@
}

/// The pattern of an affiliation index in a Crossref path.
pub open spec fn author_affiliation_pattern() -> Seq<char> {
    "affiliation\\[(\\d+)\\]"@
}

/// Whether `c` is one of the digits `0` to `9`.
pub open spec fn is_digit(c: char) -> bool {
    '0' <= c <= '9'
}

/// The number that the decimal digits `digits` write.
pub open spec fn decimal_value(digits: Seq<char>) -> nat
    decreases digits.len(),
{
    if digits.len() == 0 {
        0
    } else {
        decimal_value(digits.drop_last()) * 10 + (digits.last() as nat - '0' as nat) as nat
    }
}

/// The index that `text` writes: `text` is one or more of the digits `0` to
/// `9`, and the number is at most `u32::MAX`. `None` for any other text.
pub open spec fn index_value(text: Seq<char>) -> Option<u32> {
    if text.len() > 0 && (forall|i: int| 0 <= i < text.len() ==> is_digit(#[trigger] text[i]))
        && decimal_value(text) <= u32::MAX {
        Some(decimal_value(text) as u32)
    } else {
        None
    }
}

/// A bracketed index that is no number that fits.
#[derive(Debug, PartialEq, Eq)]
pub struct IndexParseError {
    /// The text between the brackets.
    pub text: String,
}

proof fn lemma_value_grows(digits: Seq<char>, n: int)
    requires
        0 <= n <= digits.len(),
        forall|i: int| 0 <= i < digits.len() ==> is_digit(#[trigger] digits[i]),
    ensures
        decimal_value(digits.take(n)) <= decimal_value(digits),
    decreases digits.len() - n,
{
    if n < digits.len() {
        lemma_value_grows(digits, n + 1);
        assert(digits.take(n + 1).drop_last() =~= digits.take(n));
        assert(digits.take(n + 1).last() == digits[n]);
    } else {
        assert(digits.take(n) =~= digits);
    }
}

/// Reads a bracketed index.
pub fn parse_index(text: &str) -> (r: Result<u32, IndexParseError>)
    ensures
        match r {
            Ok(n) => index_value(text@) == Some(n),
            Err(e) => index_value(text@) is None && e.text@ == text@,
        },
{
    let digits = chars_of(text);
    if digits.len() == 0 {
        return Err(IndexParseError { text: text.to_owned() });
    }
    let mut value: u64 = 0;
    let mut i: usize = 0;
    while i < digits.len()
        invariant
            i <= digits.len(),
            digits@ == text@,
            forall|k: int| 0 <= k < i ==> is_digit(#[trigger] digits@[k]),
            value == decimal_value(digits@.take(i as int)),
            value <= u32::MAX,
        decreases digits.len() - i,
    {
        let c = digits[i];
        if !('0' <= c && c <= '9') {
            return Err(IndexParseError { text: text.to_owned() });
        }
        proof {
            assert(digits@.take(i + 1).drop_last() =~= digits@.take(i as int));
            assert(digits@.take(i + 1).last() == c);
        }
        let digit: u64 = (c as u8 - 48) as u64;
        let next = value * 10 + digit;
        if next > u32::MAX as u64 {
            proof {
                if forall|k: int| 0 <= k < digits@.len() ==> is_digit(#[trigger] digits@[k]) {
                    lemma_value_grows(digits@, i + 1);
                }
            }
            return Err(IndexParseError { text: text.to_owned() });
        }
        value = next;
        i += 1;
    }
    assert(digits@.take(digits.len() as int) =~= digits@);
    Ok(value as u32)
}

impl IndexPattern {
    /// The regular expression that was compiled.
    pub closed spec fn source(&self) -> Seq<char> {
        self.source@
    }

    /// Compiles a regular expression whose first group holds an index.
    /// `None` where it is no regular expression.
    pub fn new(source: &str) -> (r: Option<IndexPattern>)
        ensures
            r is Some == regex_accepts(source@),
            r matches Some(pattern) ==> pattern.source() == source@,
    {
        compile(source)
    }

    /// The text of the first index of this kind in `path`, if there is one.
    pub fn find(&self, path: &str) -> (r: Option<String>)
        ensures
            owned_text(r) == first_capture(self.source(), path@),
    {
        capture(self, path)
    }
}

/// What the index of a kind is in a path, given the text `found` between
/// the brackets: nothing where the path has no such index, the number where
/// the text writes one, and an error otherwise.
pub open spec fn index_of(found: Option<Seq<char>>) -> Result<Option<u32>, Seq<char>> {
    match found {
        None => Ok(None),
        Some(text) => match index_value(text) {
            Some(n) => Ok(Some(n)),
            None => Err(text),
        },
    }
}

/// The index that was found in a path, from the text between the brackets.
pub fn read_index(found: Option<String>) -> (r: Result<Option<u32>, IndexParseError>)
    ensures
        match r {
            Ok(index) => index_of(owned_text(found)) == Ok::<Option<u32>, Seq<char>>(index),
            Err(e) => index_of(owned_text(found)) == Err::<Option<u32>, Seq<char>>(e.text@),
        },
{
    match found {
        None => Ok(None),
        Some(text) => match parse_index(text.as_str()) {
            Ok(n) => Ok(Some(n)),
            Err(e) => Err(e),
        },
    }
}

} // verus!
