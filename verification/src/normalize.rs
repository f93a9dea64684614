//! Text normalization for names and affiliations: transliterated to ASCII,
//! lowercased, without punctuation, trimmed.

use vstd::prelude::*;
use crate::text::{chars_of, lemma_trimmed, string_of, trim, trim_text, white_space};

verus! {

/// The ASCII transliteration that `deunicode::deunicode` gives for `text`.
pub uninterp spec fn ascii_transliteration(text: Seq<char>) -> Seq<char>;

/// Whether every character of `text` is an ASCII character.
pub open spec fn all_ascii(text: Seq<char>) -> bool {
    forall|i: int| 0 <= i < text.len() ==> (#[trigger] text[i]) <= '\u{7f}'
}

/// Whether every character of `text` is an ASCII character other than
/// U+007F.
pub open spec fn plain_ascii(text: Seq<char>) -> bool {
    forall|i: int| 0 <= i < text.len() ==> (#[trigger] text[i]) < '\u{7f}'
}

/// Calls `deunicode::deunicode`. The result is the transliteration that the
/// crate gives for `text`. It is ASCII only: what the crate copies is below
/// U+007F, and its tables hold ASCII. A text that holds nothing but
/// characters below U+007F comes back as it is; from the first other
/// character on the crate goes by its tables, which drop U+007F and the
/// control characters.
#[verifier::external_body]
fn transliterate(text: &str) -> (out: String)
    ensures
        out@ == ascii_transliteration(text@),
        all_ascii(out@),
        plain_ascii(text@) ==> out@ == text@,
{
    deunicode::deunicode(text)
}

/// `c` in lower case, where it is one of the letters `A` to `Z`.
pub open spec fn lowered(c: char) -> char {
    if 'A' <= c <= 'Z' {
        ((c as u8 + 32) as u8) as char
    } else {
        c
    }
}

/// Whether normalization keeps `c`: letters, digits and white space stay.
pub open spec fn kept(c: char) -> bool {
    ('a' <= c <= 'z') || ('A' <= c <= 'Z') || ('0' <= c <= '9') || white_space(c)
}

/// The characters of `text` in lower case, without those that are neither
/// letters nor digits nor white space.
pub open spec fn cleaned(text: Seq<char>) -> Seq<char>
    decreases text.len(),
{
    if text.len() == 0 {
        Seq::empty()
    } else {
        let before = cleaned(text.drop_last());
        let c = lowered(text.last());
        if kept(c) {
            before.push(c)
        } else {
            before
        }
    }
}

/// The normal form of a transliterated text: lower case, letters, digits
/// and white space only, no white space at either end.
pub open spec fn normal_form(ascii: Seq<char>) -> Seq<char> {
    trim_text(cleaned(ascii))
}

/// The normal form of `text`: that of its ASCII transliteration.
pub open spec fn normalized(text: Seq<char>) -> Seq<char> {
    normal_form(ascii_transliteration(text))
}

/// Whether normalization leaves `c` as it is: it is kept, and no capital.
pub open spec fn clean(c: char) -> bool {
    kept(c) && !('A' <= c <= 'Z')
}

/// A character in lower case is no capital, and is ASCII where the character
/// is.
pub proof fn lemma_lowered(c: char)
    ensures
        !('A' <= lowered(c) <= 'Z'),
        c <= '\u{7f}' ==> lowered(c) <= '\u{7f}',
{
    if 'A' <= c <= 'Z' {
        let n = c as u8;
        assert(65 <= n <= 90);
        let m = (n + 32) as u8;
        assert(97 <= m <= 122);
        assert(lowered(c) == m as char);
        assert(m as char as u8 == m);
    }
}

/// Every character of a cleaned text is clean, and an ASCII text stays ASCII.
pub proof fn lemma_cleaned(text: Seq<char>)
    ensures
        forall|i: int| 0 <= i < cleaned(text).len() ==> clean(#[trigger] cleaned(text)[i]),
        all_ascii(text) ==> all_ascii(cleaned(text)),
    decreases text.len(),
{
    if text.len() > 0 {
        let front = text.drop_last();
        lemma_cleaned(front);
        lemma_lowered(text.last());
        assert forall|i: int| 0 <= i < cleaned(text).len() implies clean(
            #[trigger] cleaned(text)[i],
        ) by {
            if i < cleaned(front).len() {
                assert(cleaned(text)[i] == cleaned(front)[i]);
            }
        }
        if all_ascii(text) {
            assert forall|i: int| 0 <= i < front.len() implies (#[trigger] front[i]) <= '\u{7f}' by {
                assert(front[i] == text[i]);
            }
            assert(text.last() == text[text.len() - 1]);
        }
    }
}

/// Cleaning a text of clean characters changes nothing.
pub proof fn lemma_clean_stays(text: Seq<char>)
    requires
        forall|i: int| 0 <= i < text.len() ==> clean(#[trigger] text[i]),
    ensures
        cleaned(text) == text,
    decreases text.len(),
{
    if text.len() > 0 {
        let front = text.drop_last();
        assert forall|i: int| 0 <= i < front.len() implies clean(#[trigger] front[i]) by {
            assert(front[i] == text[i]);
        }
        lemma_clean_stays(front);
        assert(clean(text[text.len() - 1]));
        assert(front.push(text.last()) =~= text);
    } else {
        assert(cleaned(text) =~= text);
    }
}

/// The normal form is normal: bringing it into normal form again changes
/// nothing. It holds only clean characters, and is ASCII where the text was.
pub proof fn lemma_normal_form(text: Seq<char>)
    ensures
        normal_form(normal_form(text)) == normal_form(text),
        forall|i: int| 0 <= i < normal_form(text).len() ==> clean(#[trigger] normal_form(text)[i]),
        all_ascii(text) ==> all_ascii(normal_form(text)),
{
    let x = cleaned(text);
    let t = trim_text(x);
    lemma_cleaned(text);
    lemma_trimmed(x);
    assert forall|i: int| 0 <= i < t.len() implies clean(#[trigger] t[i]) by {
        let c = t[i];
        assert(x.contains(c));
        let k = choose|k: int| 0 <= k < x.len() && x[k] == c;
        assert(clean(x[k]));
    }
    lemma_clean_stays(t);
    if all_ascii(text) {
        assert forall|i: int| 0 <= i < t.len() implies (#[trigger] t[i]) <= '\u{7f}' by {
            let c = t[i];
            assert(x.contains(c));
            let k = choose|k: int| 0 <= k < x.len() && x[k] == c;
            assert(x[k] <= '\u{7f}');
        }
    }
}

fn lower(c: char) -> (r: char)
    ensures
        r == lowered(c),
{
    if 'A' <= c && c <= 'Z' {
        ((c as u8) + 32) as char
    } else {
        c
    }
}

fn keeps(c: char) -> (r: bool)
    ensures
        r == kept(c),
{
    ('a' <= c && c <= 'z') || ('A' <= c && c <= 'Z') || ('0' <= c && c <= '9')
        || c.is_whitespace()
}

/// Brings a transliterated text into normal form.
pub fn normalize_ascii(ascii: &str) -> (out: String)
    ensures
        out@ == normal_form(ascii@),
{
    let chars = chars_of(ascii);
    let mut clean: Vec<char> = Vec::new();
    let mut i: usize = 0;
    while i < chars.len()
        invariant
            i <= chars.len(),
            clean@ == cleaned(chars@.take(i as int)),
        decreases chars.len() - i,
    {
        proof {
            assert(chars@.take(i + 1).drop_last() =~= chars@.take(i as int));
            assert(chars@.take(i + 1).last() == chars@[i as int]);
        }
        let c = lower(chars[i]);
        if keeps(c) {
            clean.push(c);
        }
        i += 1;
    }
    assert(chars@.take(chars.len() as int) =~= chars@);
    string_of(&trim(&clean))
}

/// Brings a name or an affiliation into normal form. The result is ASCII;
/// for a text of ASCII characters other than U+007F it is the normal form
/// of the text itself.
pub fn normalize_text(text: &str) -> (out: String)
    ensures
        out@ == normalized(text@),
        all_ascii(out@),
        plain_ascii(text@) ==> out@ == normal_form(text@),
{
    let ascii = transliterate(text);
    proof {
        lemma_normal_form(ascii@);
    }
    normalize_ascii(ascii.as_str())
}

} // verus!
