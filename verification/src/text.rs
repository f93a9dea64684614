//! Character-level text utilities shared by the parsers.

use vstd::prelude::*;

verus! {

/// `String::push` appends one character.
pub assume_specification[ String::push ](s: &mut String, ch: char)
    ensures
        final(s)@ == old(s)@.push(ch),
;

/// `str` equality compares the two character sequences.
pub assume_specification[ <str as PartialEq>::eq ](a: &str, b: &str) -> (r: bool)
    ensures
        r == (a@ == b@),
;

/// Whether `c` has the Unicode `White_Space` property: the controls U+0009
/// to U+000D and U+0085, the spaces U+0020, U+00A0, U+1680, U+2000 to
/// U+200A, U+202F, U+205F and U+3000, and the separators U+2028 and U+2029.
pub open spec fn white_space(c: char) -> bool {
    ||| '\u{9}' <= c <= '\u{d}'
    ||| c == ' '
    ||| c == '\u{85}'
    ||| c == '\u{a0}'
    ||| c == '\u{1680}'
    ||| '\u{2000}' <= c <= '\u{200a}'
    ||| c == '\u{2028}'
    ||| c == '\u{2029}'
    ||| c == '\u{202f}'
    ||| c == '\u{205f}'
    ||| c == '\u{3000}'
}

/// `char::is_whitespace` tests the Unicode `White_Space` property.
pub assume_specification[ char::is_whitespace ](c: char) -> (b: bool)
    ensures
        b == white_space(c),
;

/// The texts that a sequence of strings holds.
pub open spec fn strs(v: Seq<String>) -> Seq<Seq<char>> {
    Seq::new(v.len(), |i: int| v[i]@)
}

/// The texts of a sequence with one more string are the texts of the
/// sequence with one more text.
pub proof fn lemma_strs_push(v: Seq<String>, s: String)
    ensures
        strs(v.push(s)) == strs(v).push(s@),
{
    assert(strs(v.push(s)) =~= strs(v).push(s@));
}

/// Whether two string slices hold the same text.
pub fn same_text(a: &str, b: &str) -> (r: bool)
    ensures
        r == (a@ == b@),
{
    str::eq(a, b)
}

/// The characters of `s`, in order.
pub fn chars_of(s: &str) -> (out: Vec<char>)
    ensures
        out@ == s@,
{
    let mut out: Vec<char> = Vec::new();
    for c in it: s.chars()
        invariant
            out@ == it.seq().take(it.index() as int),
            it.seq() == s@,
    {
        out.push(c);
    }
    out
}

/// The string made of the characters `v[from..to]`.
pub fn string_of_range(v: &Vec<char>, from: usize, to: usize) -> (out: String)
    requires
        from <= to <= v.len(),
    ensures
        out@ == v@.subrange(from as int, to as int),
{
    let mut out = String::new();
    let mut i: usize = from;
    while i < to
        invariant
            from <= i <= to <= v.len(),
            out@ == v@.subrange(from as int, i as int),
        decreases to - i,
    {
        out.push(v[i]);
        assert(v@.subrange(from as int, i + 1) =~= v@.subrange(from as int, i as int).push(
            v@[i as int],
        ));
        i += 1;
    }
    out
}

/// The string made of the characters of `v`, in order.
pub fn string_of(v: &Vec<char>) -> (out: String)
    ensures
        out@ == v@,
{
    let out = string_of_range(v, 0, v.len());
    assert(v@.subrange(0, v.len() as int) =~= v@);
    out
}

/// The character for the decimal digit `d`.
pub open spec fn digit_char(d: nat) -> char
    recommends
        d < 10,
{
    ((48 + d) as u8) as char
}

/// The decimal rendering of `n`, without sign or leading zeros.
pub open spec fn decimal_text(n: nat) -> Seq<char>
    decreases n,
{
    if n < 10 {
        seq![digit_char(n)]
    } else {
        decimal_text(n / 10).push(digit_char(n % 10))
    }
}

/// Renders `n` in decimal.
pub fn decimal(n: u64) -> (out: String)
    ensures
        out@ == decimal_text(n as nat),
{
    let mut digits: Vec<char> = Vec::new();
    let mut rest: u64 = n;
    while rest >= 10
        invariant
            decimal_text(n as nat) == decimal_text(rest as nat) + digits@.reverse(),
        decreases rest,
    {
        let d: u8 = (rest % 10) as u8;
        let ghost before = digits@;
        digits.push((48 + d) as char);
        proof {
            assert(digits@.reverse() =~= seq![digit_char((rest % 10) as nat)] + before.reverse());
            assert(decimal_text(rest as nat) == decimal_text((rest / 10) as nat).push(
                digit_char((rest % 10) as nat),
            ));
            assert(decimal_text(rest as nat) + before.reverse() =~= decimal_text(
                (rest / 10) as nat,
            ) + digits@.reverse());
        }
        rest = rest / 10;
    }
    let mut out = String::new();
    out.push((48 + (rest as u8)) as char);
    let mut i: usize = digits.len();
    while i > 0
        invariant
            i <= digits.len(),
            out@ == decimal_text(rest as nat) + digits@.reverse().take(digits.len() - i),
            rest < 10,
        decreases i,
    {
        i -= 1;
        out.push(digits[i]);
        assert(digits@.reverse().take(digits.len() - i) =~= digits@.reverse().take(
            digits.len() - i - 1,
        ).push(digits@[i as int]));
    }
    assert(digits@.reverse().take(digits.len() as int) =~= digits@.reverse());
    out
}

/// The pieces of `s` between occurrences of `sep`; always at least one piece.
pub open spec fn split_text(s: Seq<char>, sep: char) -> Seq<Seq<char>>
    decreases s.len(),
{
    if s.len() == 0 {
        seq![Seq::empty()]
    } else {
        let before = split_text(s.drop_last(), sep);
        if s.last() == sep {
            before.push(Seq::empty())
        } else {
            before.drop_last().push(before.last().push(s.last()))
        }
    }
}

/// A split gives at least one piece.
pub proof fn lemma_split_nonempty(s: Seq<char>, sep: char)
    ensures
        split_text(s, sep).len() >= 1,
    decreases s.len(),
{
    if s.len() > 0 {
        lemma_split_nonempty(s.drop_last(), sep);
    }
}

/// Splits `s` at every occurrence of `sep`.
pub fn split(s: &Vec<char>, sep: char) -> (out: Vec<String>)
    ensures
        strs(out@) == split_text(s@, sep),
{
    let mut done: Vec<String> = Vec::new();
    let mut start: usize = 0;
    let mut i: usize = 0;
    proof {
        assert(s@.subrange(0, 0) =~= Seq::<char>::empty());
        assert(strs(done@).push(Seq::<char>::empty()) =~= seq![Seq::<char>::empty()]);
    }
    while i < s.len()
        invariant
            start <= i <= s.len(),
            strs(done@).push(s@.subrange(start as int, i as int)) == split_text(
                s@.take(i as int),
                sep,
            ),
        decreases s.len() - i,
    {
        proof {
            assert(s@.take(i + 1).drop_last() =~= s@.take(i as int));
            assert(s@.take(i + 1).last() == s@[i as int]);
        }
        if s[i] == sep {
            let piece = string_of_range(s, start, i);
            proof {
                lemma_strs_push(done@, piece);
            }
            done.push(piece);
            start = i + 1;
            assert(s@.subrange(start as int, i + 1) =~= Seq::<char>::empty());
        } else {
            proof {
                let before = strs(done@).push(s@.subrange(start as int, i as int));
                assert(before.drop_last() =~= strs(done@));
                assert(s@.subrange(start as int, i + 1) =~= s@.subrange(start as int, i as int).push(
                    s@[i as int],
                ));
            }
        }
        i += 1;
    }
    let piece = string_of_range(s, start, i);
    proof {
        lemma_strs_push(done@, piece);
        assert(s@.take(s.len() as int) =~= s@);
    }
    done.push(piece);
    done
}

/// `s` without its leading white space.
pub open spec fn trim_start_text(s: Seq<char>) -> Seq<char>
    decreases s.len(),
{
    if s.len() > 0 && white_space(s.first()) {
        trim_start_text(s.drop_first())
    } else {
        s
    }
}

/// `s` without its trailing white space.
pub open spec fn trim_end_text(s: Seq<char>) -> Seq<char>
    decreases s.len(),
{
    if s.len() > 0 && white_space(s.last()) {
        trim_end_text(s.drop_last())
    } else {
        s
    }
}

/// `s` without leading and trailing white space.
pub open spec fn trim_text(s: Seq<char>) -> Seq<char> {
    trim_end_text(trim_start_text(s))
}

/// Trimming at the start leaves a tail of the text that does not begin with
/// white space.
pub proof fn lemma_trimmed_start(s: Seq<char>)
    ensures
        trim_start_text(s).len() <= s.len(),
        trim_start_text(s) == s.skip(s.len() - trim_start_text(s).len()),
        trim_start_text(s).len() > 0 ==> !white_space(trim_start_text(s).first()),
    decreases s.len(),
{
    if s.len() > 0 && white_space(s.first()) {
        let t = s.drop_first();
        lemma_trimmed_start(t);
        assert(t.skip(t.len() - trim_start_text(t).len()) =~= s.skip(
            s.len() - trim_start_text(s).len(),
        ));
    } else {
        assert(s.skip(0) =~= s);
    }
}

/// Trimming at the end leaves a head of the text that does not end with
/// white space.
pub proof fn lemma_trimmed_end(s: Seq<char>)
    ensures
        trim_end_text(s).len() <= s.len(),
        trim_end_text(s) == s.take(trim_end_text(s).len() as int),
        trim_end_text(s).len() > 0 ==> !white_space(trim_end_text(s).last()),
    decreases s.len(),
{
    if s.len() > 0 && white_space(s.last()) {
        let t = s.drop_last();
        lemma_trimmed_end(t);
        assert(t.take(trim_end_text(t).len() as int) =~= s.take(trim_end_text(s).len() as int));
    } else {
        assert(s.take(s.len() as int) =~= s);
    }
}

/// A trimmed text is a part of the text, without white space at either end;
/// trimming it again changes nothing.
pub proof fn lemma_trimmed(s: Seq<char>)
    ensures
        forall|i: int| 0 <= i < trim_text(s).len() ==> s.contains(#[trigger] trim_text(s)[i]),
        trim_text(s).len() > 0 ==> !white_space(trim_text(s).first()) && !white_space(
            trim_text(s).last(),
        ),
        trim_text(trim_text(s)) == trim_text(s),
{
    let y = trim_start_text(s);
    let t = trim_end_text(y);
    lemma_trimmed_start(s);
    lemma_trimmed_end(y);
    assert forall|i: int| 0 <= i < t.len() implies s.contains(#[trigger] t[i]) by {
        assert(t[i] == y[i]);
        assert(y[i] == s[s.len() - y.len() + i]);
    }
    if t.len() > 0 {
        assert(t.first() == y.first());
    }
}

proof fn lemma_trim_start(s: Seq<char>, lo: int)
    requires
        0 <= lo <= s.len(),
        forall|k: int| 0 <= k < lo ==> white_space(#[trigger] s[k]),
        lo < s.len() ==> !white_space(s[lo]),
    ensures
        trim_start_text(s) == s.subrange(lo, s.len() as int),
    decreases s.len(),
{
    if lo == 0 {
        assert(s.subrange(0, s.len() as int) =~= s);
    } else {
        assert(white_space(s[0]));
        let t = s.drop_first();
        assert forall|k: int| 0 <= k < lo - 1 implies white_space(#[trigger] t[k]) by {
            assert(t[k] == s[k + 1]);
        }
        lemma_trim_start(t, lo - 1);
        assert(t.subrange(lo - 1, t.len() as int) =~= s.subrange(lo, s.len() as int));
    }
}

proof fn lemma_trim_end(s: Seq<char>, hi: int)
    requires
        0 <= hi <= s.len(),
        forall|k: int| hi <= k < s.len() ==> white_space(#[trigger] s[k]),
        hi > 0 ==> !white_space(s[hi - 1]),
    ensures
        trim_end_text(s) == s.subrange(0, hi),
    decreases s.len(),
{
    if hi == s.len() {
        assert(s.subrange(0, s.len() as int) =~= s);
    } else {
        assert(white_space(s[s.len() - 1]));
        let t = s.drop_last();
        lemma_trim_end(t, hi);
        assert(t.subrange(0, hi) =~= s.subrange(0, hi));
    }
}

/// Removes leading and trailing white space.
pub fn trim(s: &Vec<char>) -> (out: Vec<char>)
    ensures
        out@ == trim_text(s@),
{
    let mut lo: usize = 0;
    while lo < s.len() && s[lo].is_whitespace()
        invariant
            lo <= s.len(),
            forall|k: int| 0 <= k < lo ==> white_space(#[trigger] s@[k]),
        decreases s.len() - lo,
    {
        lo += 1;
    }
    let mut hi: usize = s.len();
    while hi > lo && s[hi - 1].is_whitespace()
        invariant
            lo <= hi <= s.len(),
            forall|k: int| hi <= k < s.len() ==> white_space(#[trigger] s@[k]),
        decreases hi,
    {
        hi -= 1;
    }
    let mut out: Vec<char> = Vec::new();
    let mut i: usize = lo;
    while i < hi
        invariant
            lo <= i <= hi <= s.len(),
            out@ == s@.subrange(lo as int, i as int),
        decreases hi - i,
    {
        out.push(s[i]);
        assert(s@.subrange(lo as int, i + 1) =~= s@.subrange(lo as int, i as int).push(
            s@[i as int],
        ));
        i += 1;
    }
    proof {
        lemma_trim_start(s@, lo as int);
        let t = s@.subrange(lo as int, s.len() as int);
        assert forall|k: int| hi - lo <= k < t.len() implies white_space(#[trigger] t[k]) by {
            assert(t[k] == s@[k + lo]);
        }
        lemma_trim_end(t, hi - lo);
        assert(t.subrange(0, hi - lo) =~= s@.subrange(lo as int, hi as int));
    }
    out
}

/// The texts of `parts` with `sep` between each two neighbours.
pub open spec fn join_text(parts: Seq<Seq<char>>, sep: char) -> Seq<char>
    decreases parts.len(),
{
    if parts.len() == 0 {
        Seq::empty()
    } else if parts.len() == 1 {
        parts[0]
    } else {
        join_text(parts.drop_last(), sep).push(sep) + parts.last()
    }
}

/// Joins `parts` with `sep` between each two neighbours.
pub fn join(parts: &Vec<String>, sep: char) -> (out: String)
    ensures
        out@ == join_text(strs(parts@), sep),
{
    let mut out = String::new();
    let mut i: usize = 0;
    while i < parts.len()
        invariant
            i <= parts.len(),
            out@ == join_text(strs(parts@).take(i as int), sep),
        decreases parts.len() - i,
    {
        proof {
            let next = strs(parts@).take(i + 1);
            assert(next.drop_last() =~= strs(parts@).take(i as int));
            assert(next.last() == parts@[i as int]@);
            if i == 0 {
                assert(Seq::<char>::empty() + parts@[0]@ =~= parts@[0]@);
            }
        }
        if i > 0 {
            out.push(sep);
        }
        out.append(parts[i].as_str());
        i += 1;
    }
    assert(strs(parts@).take(parts.len() as int) =~= strs(parts@));
    out
}

/// The position of the first `c` in `s`, if there is one.
pub fn find_char(s: &Vec<char>, c: char) -> (r: Option<usize>)
    ensures
        match r {
            Some(i) => i < s.len() && s@[i as int] == c && !s@.take(i as int).contains(c),
            None => !s@.contains(c),
        },
{
    let mut i: usize = 0;
    while i < s.len()
        invariant
            i <= s.len(),
            !s@.take(i as int).contains(c),
        decreases s.len() - i,
    {
        if s[i] == c {
            return Some(i);
        }
        proof {
            let next = s@.take(i + 1);
            assert forall|k: int| 0 <= k < next.len() implies next[k] != c by {
                if k < i {
                    assert(s@.take(i as int)[k] == next[k]);
                    assert(s@.take(i as int).contains(next[k]));
                }
            }
        }
        i += 1;
    }
    assert(s@.take(s.len() as int) =~= s@);
    None
}

/// The part of `s` before the first `c`; `None` where `s` holds no `c`.
pub open spec fn before_first(s: Seq<char>, c: char) -> Option<Seq<char>>
    decreases s.len(),
{
    if s.len() == 0 {
        None
    } else {
        match before_first(s.drop_last(), c) {
            Some(head) => Some(head),
            None => if s.last() == c {
                Some(s.drop_last())
            } else {
                None
            },
        }
    }
}

proof fn lemma_before_first(s: Seq<char>, c: char)
    ensures
        match before_first(s, c) {
            Some(head) => head.len() < s.len() && s[head.len() as int] == c && head == s.take(
                head.len() as int,
            ) && !head.contains(c),
            None => !s.contains(c),
        },
    decreases s.len(),
{
    if s.len() > 0 {
        let front = s.drop_last();
        lemma_before_first(front, c);
        match before_first(front, c) {
            Some(head) => {
                assert(front.take(head.len() as int) =~= s.take(head.len() as int));
            },
            None => {
                if s.last() == c {
                    assert(front =~= s.take(front.len() as int));
                } else {
                    assert forall|k: int| 0 <= k < s.len() implies s[k] != c by {
                        if k < front.len() {
                            assert(front[k] == s[k]);
                            assert(front.contains(front[k]));
                        }
                    }
                }
            },
        }
    }
}

/// The part of `s` before the first `c`.
pub fn prefix_before(s: &str, c: char) -> (r: Option<String>)
    ensures
        r is Some == before_first(s@, c) is Some,
        r matches Some(head) ==> Some(head@) == before_first(s@, c),
{
    let chars = chars_of(s);
    proof {
        lemma_before_first(s@, c);
    }
    match find_char(&chars, c) {
        Some(i) => {
            let head = string_of_range(&chars, 0, i);
            proof {
                let found = before_first(s@, c);
                assert(s@.contains(c));
                let head_len = found->0.len() as int;
                if head_len < i {
                    assert(s@.take(i as int)[head_len] == c);
                    assert(s@.take(i as int).contains(c));
                }
                if head_len > i {
                    assert(found->0[i as int] == c);
                    assert(found->0.contains(c));
                }
                assert(s@.subrange(0, i as int) =~= s@.take(i as int));
            }
            Some(head)
        },
        None => None,
    }
}

/// `s` without `prefix` at its start; `s` itself where it does not begin
/// with `prefix`.
pub open spec fn without_prefix(s: Seq<char>, prefix: Seq<char>) -> Seq<char> {
    if prefix.is_prefix_of(s) {
        s.skip(prefix.len() as int)
    } else {
        s
    }
}

/// Removes `prefix` from the start of `s`, where `s` begins with it.
pub fn strip_prefix(s: &str, prefix: &str) -> (out: String)
    ensures
        out@ == without_prefix(s@, prefix@),
{
    let chars = chars_of(s);
    let lead = chars_of(prefix);
    if starts_with(&chars, &lead) {
        let out = string_of_range(&chars, lead.len(), chars.len());
        assert(s@.subrange(lead.len() as int, chars.len() as int) =~= s@.skip(prefix@.len() as int));
        out
    } else {
        s.to_owned()
    }
}

/// Whether `s` begins with `prefix`.
pub fn starts_with(s: &Vec<char>, prefix: &Vec<char>) -> (r: bool)
    ensures
        r == prefix@.is_prefix_of(s@),
{
    if prefix.len() > s.len() {
        return false;
    }
    let mut i: usize = 0;
    while i < prefix.len()
        invariant
            i <= prefix.len() <= s.len(),
            forall|k: int| 0 <= k < i ==> s@[k] == prefix@[k],
        decreases prefix.len() - i,
    {
        if s[i] != prefix[i] {
            assert(s@.subrange(0, prefix.len() as int)[i as int] != prefix@[i as int]);
            return false;
        }
        i += 1;
    }
    assert(prefix@ =~= s@.subrange(0, prefix.len() as int));
    true
}

} // verus!
