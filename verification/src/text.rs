//! Text as a sequence of characters: trimming, splitting, searching, joining.

use vstd::prelude::*;
use vstd::slice::slice_subrange;

verus! {

/// `String::push` appends one character to the end of the string.
pub assume_specification[ String::push ](s: &mut String, c: char)
    ensures
        final(s)@ == old(s)@.push(c),
;

/// `str` equality compares two string slices character by character.
pub assume_specification[ <str as PartialEq>::eq ](a: &str, b: &str) -> (same: bool)
    ensures
        same == (a@ == b@),
;

/// The characters with the Unicode property `White_Space`.
pub open spec fn is_white(c: char) -> bool {
    ||| '\u{9}' <= c <= '\u{d}'
    ||| c == '\u{20}'
    ||| c == '\u{85}'
    ||| c == '\u{a0}'
    ||| c == '\u{1680}'
    ||| '\u{2000}' <= c <= '\u{200a}'
    ||| c == '\u{2028}'
    ||| c == '\u{2029}'
    ||| c == '\u{202f}'
    ||| c == '\u{205f}'
    ||| c == '\u{3000}'
}

/// Which characters a trim takes off both ends of a text.
#[derive(Clone, Copy)]
pub enum Trim {
    /// White space.
    White,
    /// Double quotes.
    Quotes,
}

impl Trim {
    pub open spec fn takes(self, c: char) -> bool {
        match self {
            Trim::White => is_white(c),
            Trim::Quotes => c == '"',
        }
    }

    pub fn is_taken(self, c: char) -> (taken: bool)
        ensures
            taken == self.takes(c),
    {
        match self {
            Trim::White => {
                ('\u{9}' <= c && c <= '\u{d}') || c == '\u{20}' || c == '\u{85}' || c == '\u{a0}'
                    || c == '\u{1680}' || ('\u{2000}' <= c && c <= '\u{200a}') || c == '\u{2028}'
                    || c == '\u{2029}' || c == '\u{202f}' || c == '\u{205f}' || c == '\u{3000}'
            },
            Trim::Quotes => c == '"',
        }
    }
}

/// `s` without the leading characters that `by` takes.
pub open spec fn trimmed_start(s: Seq<char>, by: Trim) -> Seq<char>
    decreases s.len(),
{
    if s.len() > 0 && by.takes(s.first()) {
        trimmed_start(s.drop_first(), by)
    } else {
        s
    }
}

/// `s` without the trailing characters that `by` takes.
pub open spec fn trimmed_end(s: Seq<char>, by: Trim) -> Seq<char>
    decreases s.len(),
{
    if s.len() > 0 && by.takes(s.last()) {
        trimmed_end(s.drop_last(), by)
    } else {
        s
    }
}

/// `s` without the characters that `by` takes at either end.
pub open spec fn trimmed(s: Seq<char>, by: Trim) -> Seq<char> {
    trimmed_end(trimmed_start(s, by), by)
}

/// The position of the first `c` in `s`, or the length of `s` where there is none.
pub open spec fn first_at(s: Seq<char>, c: char) -> nat
    decreases s.len(),
{
    if s.len() == 0 || s.first() == c {
        0
    } else {
        1 + first_at(s.drop_first(), c)
    }
}

/// The pieces of `s` between the occurrences of `c`: at most `limit` of them, the last of
/// which holds everything that is left.
pub open spec fn split_at_most(s: Seq<char>, c: char, limit: nat) -> Seq<Seq<char>>
    decreases limit,
{
    let n = first_at(s, c) as int;
    if limit == 0 {
        seq![]
    } else if limit == 1 || n >= s.len() {
        seq![s]
    } else {
        seq![s.take(n)] + split_at_most(s.skip(n + 1), c, (limit - 1) as nat)
    }
}

/// All pieces of `s` between the occurrences of `c`.
pub open spec fn split_all(s: Seq<char>, c: char) -> Seq<Seq<char>>
    decreases s.len(),
{
    let n = first_at(s, c) as int;
    if n >= s.len() {
        seq![s]
    } else {
        seq![s.take(n)] + split_all(s.skip(n + 1), c)
    }
}

/// The parts of `s` before and after the first `c`, where there is one.
pub open spec fn split_once(s: Seq<char>, c: char) -> Option<(Seq<char>, Seq<char>)> {
    let n = first_at(s, c) as int;
    if n < s.len() {
        Some((s.take(n), s.skip(n + 1)))
    } else {
        None
    }
}

/// A line without the carriage return that its line feed may follow.
pub open spec fn without_return(line: Seq<char>) -> Seq<char> {
    if line.len() > 0 && line.last() == '\r' {
        line.drop_last()
    } else {
        line
    }
}

/// The lines of `s`. Each ends at a line feed, or at a carriage return with a line feed, which
/// is not part of it; what follows the last line feed is a line unless it is empty.
pub open spec fn lines_of(s: Seq<char>) -> Seq<Seq<char>>
    decreases s.len(),
{
    let n = first_at(s, '\n') as int;
    if s.len() == 0 {
        seq![]
    } else if n >= s.len() {
        seq![s]
    } else {
        seq![without_return(s.take(n))] + lines_of(s.skip(n + 1))
    }
}

/// Whether `part` occurs somewhere in `s`.
pub open spec fn has_part(s: Seq<char>, part: Seq<char>) -> bool {
    exists|i: int|
        0 <= i <= s.len() - part.len() && #[trigger] s.subrange(i, i + part.len()) == part
}

/// The texts of `list` one after another, with `sep` between any two.
pub open spec fn joined(list: Seq<Seq<char>>, sep: Seq<char>) -> Seq<char>
    decreases list.len(),
{
    if list.len() == 0 {
        seq![]
    } else if list.len() == 1 {
        list[0]
    } else {
        joined(list.drop_last(), sep) + sep + list.last()
    }
}

/// What a list of character slices holds.
pub open spec fn slice_views(list: Seq<&[char]>) -> Seq<Seq<char>> {
    list.map_values(|part: &[char]| part@)
}

/// What a list of strings holds.
pub open spec fn string_views(list: Seq<String>) -> Seq<Seq<char>> {
    list.map_values(|part: String| part@)
}

/// What a list of pairs of texts holds.
pub open spec fn pair_views(list: Seq<(String, String)>) -> Seq<(Seq<char>, Seq<char>)> {
    list.map_values(|p: (String, String)| (p.0@, p.1@))
}

/// What an optional string holds.
pub open spec fn option_view(text: Option<String>) -> Option<Seq<char>> {
    match text {
        Some(s) => Some(s@),
        None => None,
    }
}

/// `first_at` is the first position that holds `c`.
pub proof fn lemma_first_at(s: Seq<char>, c: char)
    ensures
        first_at(s, c) <= s.len(),
        forall|i: int| 0 <= i < first_at(s, c) ==> s[i] != c,
        first_at(s, c) < s.len() ==> s[first_at(s, c) as int] == c,
    decreases s.len(),
{
    if s.len() > 0 && s.first() != c {
        lemma_first_at(s.drop_first(), c);
        assert forall|i: int| 0 <= i < first_at(s, c) implies s[i] != c by {
            if i > 0 {
                assert(s[i] == s.drop_first()[i - 1]);
            }
        }
    }
}

/// The characters of a string slice.
pub fn chars_of(s: &str) -> (chars: Vec<char>)
    ensures
        chars@ == s@,
{
    let mut chars: Vec<char> = Vec::new();
    for c in it: s.chars()
        invariant
            it.seq() == s@,
            chars@ == it.seq().take(it.index() as int),
    {
        chars.push(c);
    }
    chars
}

/// The string of the given characters.
pub fn text_of(chars: &[char]) -> (text: String)
    ensures
        text@ == chars@,
{
    let mut text = String::new();
    let mut i: usize = 0;
    while i < chars.len()
        invariant
            i <= chars@.len(),
            text@ == chars@.take(i as int),
        decreases chars@.len() - i,
    {
        text.push(chars[i]);
        i += 1;
    }
    text
}

/// Whether two slices hold the same characters.
pub fn same_chars(a: &[char], b: &[char]) -> (same: bool)
    ensures
        same == (a@ == b@),
{
    if a.len() != b.len() {
        return false;
    }
    let mut i: usize = 0;
    while i < a.len()
        invariant
            a@.len() == b@.len(),
            i <= a@.len(),
            forall|j: int| 0 <= j < i ==> a@[j] == b@[j],
        decreases a@.len() - i,
    {
        if a[i] != b[i] {
            return false;
        }
        i += 1;
    }
    assert(a@ =~= b@);
    true
}

/// Whether the slice holds exactly the given text.
pub fn is_text(chars: &[char], text: &str) -> (same: bool)
    ensures
        same == (chars@ == text@),
{
    let other = chars_of(text);
    same_chars(chars, other.as_slice())
}

/// Whether `s` begins with `prefix`.
pub fn begins_with(s: &[char], prefix: &str) -> (yes: bool)
    ensures
        yes == prefix@.is_prefix_of(s@),
{
    let head = chars_of(prefix);
    if head.len() > s.len() {
        return false;
    }
    let yes = same_chars(slice_subrange(s, 0, head.len()), head.as_slice());
    assert(s@.subrange(0, head@.len() as int) =~= s@.take(head@.len() as int));
    yes
}

/// What follows the first `n` characters of `s`.
pub fn rest_after<'a>(s: &'a [char], n: usize) -> (rest: &'a [char])
    requires
        n <= s@.len(),
    ensures
        rest@ == s@.skip(n as int),
{
    slice_subrange(s, n, s.len())
}

/// `s` without the characters that `by` takes at either end.
pub fn trim<'a>(s: &'a [char], by: Trim) -> (part: &'a [char])
    ensures
        part@ == trimmed(s@, by),
{
    let mut i: usize = 0;
    proof {
        assert(s@.skip(0) =~= s@);
    }
    while i < s.len() && by.is_taken(s[i])
        invariant
            i <= s@.len(),
            trimmed_start(s@.skip(i as int), by) == trimmed_start(s@, by),
        decreases s@.len() - i,
    {
        proof {
            assert(s@.skip(i as int).drop_first() =~= s@.skip(i + 1));
        }
        i += 1;
    }
    let ghost start = s@.skip(i as int);
    assert(start == trimmed_start(s@, by));
    let mut j: usize = s.len();
    proof {
        assert(s@.subrange(i as int, j as int) =~= start);
    }
    while j > i && by.is_taken(s[j - 1])
        invariant
            i <= j <= s@.len(),
            trimmed_end(s@.subrange(i as int, j as int), by) == trimmed_end(start, by),
        decreases j - i,
    {
        proof {
            assert(s@.subrange(i as int, j as int).drop_last() =~= s@.subrange(i as int, j - 1));
        }
        j -= 1;
    }
    slice_subrange(s, i, j)
}

/// The position of the first `c` in `s`, or the length of `s` where there is none.
pub fn find(s: &[char], c: char) -> (n: usize)
    ensures
        n == first_at(s@, c),
        n <= s@.len(),
{
    let mut i: usize = 0;
    proof {
        assert(s@.skip(0) =~= s@);
    }
    while i < s.len() && s[i] != c
        invariant
            i <= s@.len(),
            first_at(s@, c) == i + first_at(s@.skip(i as int), c),
        decreases s@.len() - i,
    {
        proof {
            assert(s@.skip(i as int).drop_first() =~= s@.skip(i + 1));
        }
        i += 1;
    }
    i
}

/// The pieces of `s` between the occurrences of `c`, at most `limit` of them.
pub fn split<'a>(s: &'a [char], c: char, limit: usize) -> (parts: Vec<&'a [char]>)
    requires
        limit > 0,
    ensures
        slice_views(parts@) == split_at_most(s@, c, limit as nat),
{
    let mut parts: Vec<&'a [char]> = Vec::new();
    let mut rest: &'a [char] = s;
    let mut left: usize = limit;
    let mut n: usize = find(rest, c);
    proof {
        assert(slice_views(parts@) + split_at_most(rest@, c, left as nat) =~= split_at_most(
            s@,
            c,
            limit as nat,
        ));
    }
    while left > 1 && n < rest.len()
        invariant
            left > 0,
            n == first_at(rest@, c),
            slice_views(parts@) + split_at_most(rest@, c, left as nat) == split_at_most(
                s@,
                c,
                limit as nat,
            ),
        decreases left,
    {
        let ghost before = parts@;
        let piece = slice_subrange(rest, 0, n);
        let next = rest_after(rest, n + 1);
        parts.push(piece);
        proof {
            assert(piece@ =~= rest@.take(n as int));
            assert(slice_views(parts@) =~= slice_views(before).push(piece@));
            assert(slice_views(parts@) + split_at_most(next@, c, (left - 1) as nat)
                =~= slice_views(before) + split_at_most(rest@, c, left as nat));
        }
        rest = next;
        left -= 1;
        n = find(rest, c);
    }
    let ghost before = parts@;
    parts.push(rest);
    proof {
        assert(slice_views(parts@) =~= slice_views(before).push(rest@));
    }
    parts
}

/// All pieces of `s` between the occurrences of `c`.
pub fn split_every<'a>(s: &'a [char], c: char) -> (parts: Vec<&'a [char]>)
    ensures
        slice_views(parts@) == split_all(s@, c),
{
    let mut parts: Vec<&'a [char]> = Vec::new();
    let mut rest: &'a [char] = s;
    let mut n: usize = find(rest, c);
    proof {
        assert(slice_views(parts@) + split_all(rest@, c) =~= split_all(s@, c));
    }
    while n < rest.len()
        invariant
            n == first_at(rest@, c),
            slice_views(parts@) + split_all(rest@, c) == split_all(s@, c),
        decreases rest@.len(),
    {
        let ghost before = parts@;
        let piece = slice_subrange(rest, 0, n);
        let next = rest_after(rest, n + 1);
        parts.push(piece);
        proof {
            assert(piece@ =~= rest@.take(n as int));
            assert(slice_views(parts@) =~= slice_views(before).push(piece@));
            assert(slice_views(parts@) + split_all(next@, c) =~= slice_views(before) + split_all(
                rest@,
                c,
            ));
        }
        rest = next;
        n = find(rest, c);
    }
    let ghost before = parts@;
    parts.push(rest);
    proof {
        assert(slice_views(parts@) =~= slice_views(before).push(rest@));
    }
    parts
}

/// The lines of `s`.
pub fn lines<'a>(s: &'a [char]) -> (list: Vec<&'a [char]>)
    ensures
        slice_views(list@) == lines_of(s@),
{
    let mut list: Vec<&'a [char]> = Vec::new();
    let mut rest: &'a [char] = s;
    let mut n: usize = find(rest, '\n');
    proof {
        assert(slice_views(list@) + lines_of(rest@) =~= lines_of(s@));
    }
    while n < rest.len()
        invariant
            n == first_at(rest@, '\n'),
            slice_views(list@) + lines_of(rest@) == lines_of(s@),
        decreases rest@.len(),
    {
        let ghost before = list@;
        let end: usize = if n > 0 && rest[n - 1] == '\r' {
            n - 1
        } else {
            n
        };
        let line = slice_subrange(rest, 0, end);
        let next = rest_after(rest, n + 1);
        list.push(line);
        proof {
            assert(line@ =~= without_return(rest@.take(n as int)));
            assert(slice_views(list@) =~= slice_views(before).push(line@));
            assert(slice_views(list@) + lines_of(next@) =~= slice_views(before) + lines_of(rest@));
        }
        rest = next;
        n = find(rest, '\n');
    }
    if rest.len() > 0 {
        let ghost before = list@;
        list.push(rest);
        proof {
            assert(slice_views(list@) =~= slice_views(before).push(rest@));
        }
    } else {
        proof {
            assert(lines_of(rest@) =~= Seq::<Seq<char>>::empty());
            assert(slice_views(list@) + lines_of(rest@) =~= slice_views(list@));
        }
    }
    list
}

/// Whether `part` occurs somewhere in `s`.
pub fn contains(s: &[char], part: &str) -> (yes: bool)
    ensures
        yes == has_part(s@, part@),
{
    let wanted = chars_of(part);
    if wanted.len() > s.len() {
        return false;
    }
    let mut i: usize = 0;
    while i <= s.len() - wanted.len()
        invariant
            wanted@ == part@,
            wanted@.len() <= s@.len(),
            i <= s@.len() - wanted@.len() + 1,
            forall|j: int| 0 <= j < i ==> #[trigger] s@.subrange(j, j + part@.len()) != part@,
        decreases s@.len() - wanted@.len() + 1 - i,
    {
        if same_chars(slice_subrange(s, i, i + wanted.len()), wanted.as_slice()) {
            assert(s@.subrange(i as int, i + part@.len()) == part@);
            return true;
        }
        if i == s.len() - wanted.len() {
            return false;
        }
        i += 1;
    }
    false
}

/// The strings of `list` one after another, with `sep` between any two.
pub fn join(list: &Vec<String>, sep: &str) -> (text: String)
    ensures
        text@ == joined(string_views(list@), sep@),
{
    let ghost all = string_views(list@);
    let mut text = String::new();
    let mut i: usize = 0;
    proof {
        assert(all.take(0) =~= Seq::<Seq<char>>::empty());
    }
    while i < list.len()
        invariant
            i <= list@.len(),
            all == string_views(list@),
            text@ == joined(all.take(i as int), sep@),
        decreases list@.len() - i,
    {
        if i > 0 {
            text.append(sep);
        }
        text.append(list[i].as_str());
        proof {
            let more = all.take(i + 1);
            assert(more.drop_last() =~= all.take(i as int));
            assert(more.last() == list@[i as int]@);
            if i == 0 {
                assert(text@ =~= more[0]);
            } else {
                assert(text@ =~= joined(more, sep@));
            }
        }
        i += 1;
    }
    proof {
        assert(all.take(list@.len() as int) =~= all);
    }
    text
}

/// What `str::to_lowercase` makes of a text.
pub uninterp spec fn lowercase_of(s: Seq<char>) -> Seq<char>;

/// An ASCII letter in lower case; any other character as it is.
pub open spec fn lower_ascii(c: char) -> char {
    if 'A' <= c <= 'Z' {
        (c as u32 + 32) as char
    } else {
        c
    }
}

/// `str::to_lowercase` gives the Unicode lowercase of a text. Of ASCII text, that is the text
/// with its ASCII letters in lower case.
#[verifier::external_body]
pub(crate) fn lowercase(s: &str) -> (lower: String)
    ensures
        lower@ == lowercase_of(s@),
        vstd::utf8::is_ascii_chars(s@) ==> lower@ == s@.map_values(|c: char| lower_ascii(c)),
{
    s.to_lowercase()
}

/// What `String::from_utf8_lossy` makes of bytes.
pub uninterp spec fn lossy_text(bytes: Seq<u8>) -> Seq<char>;

/// `String::from_utf8_lossy` decodes UTF-8. What it makes of bytes that are not UTF-8 is named
/// only.
#[verifier::external_body]
pub(crate) fn decode_lossy(bytes: &[u8]) -> (text: String)
    ensures
        text@ == lossy_text(bytes@),
        vstd::utf8::valid_utf8(bytes@) ==> text@ == vstd::utf8::decode_utf8(bytes@),
{
    String::from_utf8_lossy(bytes).to_string()
}

/// `String::from_utf8` decodes UTF-8 and refuses bytes that are not UTF-8.
#[verifier::external_body]
pub(crate) fn decode(bytes: Vec<u8>) -> (text: Option<String>)
    ensures
        text is Some <==> vstd::utf8::valid_utf8(bytes@),
        text matches Some(text) ==> text@ == vstd::utf8::decode_utf8(bytes@),
{
    String::from_utf8(bytes).ok()
}

/// The decimal digit of `d`.
pub open spec fn digit_char(d: nat) -> char {
    ('0' as int + d) as char
}

/// `n` in decimal, without leading zeros.
pub open spec fn decimal_of(n: nat) -> Seq<char>
    decreases n,
{
    if n < 10 {
        seq![digit_char(n)]
    } else {
        decimal_of(n / 10).push(digit_char(n % 10))
    }
}

/// `n` in decimal.
pub fn decimal(n: u64) -> (text: String)
    ensures
        text@ == decimal_of(n as nat),
    decreases n,
{
    let mut text = if n < 10 {
        String::new()
    } else {
        decimal(n / 10)
    };
    let digit: u8 = (n % 10) as u8;
    text.push((48u8 + digit) as char);
    proof {
        assert(text@ =~= decimal_of(n as nat));
    }
    text
}

/// Whether nothing is there to be taken off at either end.
pub open spec fn has_clean_ends(s: Seq<char>, by: Trim) -> bool {
    s.len() > 0 ==> !by.takes(s.first()) && !by.takes(s.last())
}

/// Whether a trim takes all characters.
pub open spec fn is_all_taken(s: Seq<char>, by: Trim) -> bool {
    forall|i: int| 0 <= i < s.len() ==> by.takes(#[trigger] s[i])
}

proof fn lemma_trim_start(pad: Seq<char>, s: Seq<char>, by: Trim)
    requires
        is_all_taken(pad, by),
        s.len() > 0 ==> !by.takes(s.first()),
    ensures
        trimmed_start(pad + s, by) == s,
    decreases pad.len(),
{
    let all = pad + s;
    if pad.len() > 0 {
        assert(all.first() == pad[0]);
        assert(all.drop_first() =~= pad.drop_first() + s);
        assert forall|i: int| 0 <= i < pad.drop_first().len() implies by.takes(
            #[trigger] pad.drop_first()[i],
        ) by {
            assert(pad.drop_first()[i] == pad[i + 1]);
        }
        lemma_trim_start(pad.drop_first(), s, by);
    } else {
        assert(all =~= s);
    }
}

proof fn lemma_trim_end(s: Seq<char>, pad: Seq<char>, by: Trim)
    requires
        is_all_taken(pad, by),
        s.len() > 0 ==> !by.takes(s.last()),
    ensures
        trimmed_end(s + pad, by) == s,
    decreases pad.len(),
{
    let all = s + pad;
    if pad.len() > 0 {
        assert(all.last() == pad[pad.len() - 1]);
        assert(all.drop_last() =~= s + pad.drop_last());
        assert forall|i: int| 0 <= i < pad.drop_last().len() implies by.takes(
            #[trigger] pad.drop_last()[i],
        ) by {
            assert(pad.drop_last()[i] == pad[i]);
        }
        lemma_trim_end(s, pad.drop_last(), by);
    } else {
        assert(all =~= s);
    }
}

/// A trim takes off what can be taken at either end, and all of it, and leaves what is between
/// as it is.
pub proof fn law_trim(before: Seq<char>, s: Seq<char>, behind: Seq<char>, by: Trim)
    requires
        is_all_taken(before, by),
        is_all_taken(behind, by),
        has_clean_ends(s, by),
    ensures
        trimmed(before + s + behind, by) == s,
{
    assert(before + s + behind =~= before + (s + behind));
    if s.len() == 0 {
        assert(before + (s + behind) =~= (before + behind) + s);
        assert forall|i: int| 0 <= i < (before + behind).len() implies by.takes(
            #[trigger] (before + behind)[i],
        ) by {
            if i >= before.len() {
                assert((before + behind)[i] == behind[i - before.len()]);
            }
        }
        lemma_trim_start(before + behind, s, by);
    } else {
        assert((s + behind).first() == s.first());
        lemma_trim_start(before, s + behind, by);
        lemma_trim_end(s, behind, by);
    }
}

/// Of ASCII, the space and the control characters from the tab to the carriage return are white;
/// quotes are double quotes only.
pub proof fn law_what_is_trimmed(c: char)
    ensures
        c <= '\u{7f}' ==> (Trim::White.takes(c) <==> c == ' ' || c == '\t' || c == '\n' || c
            == '\u{b}' || c == '\u{c}' || c == '\r'),
        Trim::Quotes.takes(c) <==> c == '"',
{
}

/// The texts of a list from the front.
pub proof fn lemma_joined_front(first: Seq<char>, rest: Seq<Seq<char>>, sep: Seq<char>)
    requires
        rest.len() > 0,
    ensures
        joined(seq![first] + rest, sep) == first + sep + joined(rest, sep),
    decreases rest.len(),
{
    let all = seq![first] + rest;
    assert(all.drop_last() =~= seq![first] + rest.drop_last());
    assert(all.last() == rest.last());
    if rest.len() == 1 {
        assert(rest.drop_last() =~= seq![]);
        assert(all.drop_last() =~= seq![first]);
        assert(joined(all.drop_last(), sep) == first);
        assert(all.last() == rest[0]);
        assert(joined(rest, sep) == rest[0]);
        assert(joined(all, sep) =~= first + sep + rest[0]);
    } else {
        lemma_joined_front(first, rest.drop_last(), sep);
        assert(joined(all, sep) =~= first + sep + joined(rest, sep));
    }
}

/// A text without `c`, with `c` and more behind it.
pub proof fn lemma_first_at_join(head: Seq<char>, c: char, tail: Seq<char>)
    requires
        !head.contains(c),
    ensures
        first_at(head + seq![c] + tail, c) == head.len(),
        (head + seq![c] + tail).take(head.len() as int) == head,
        (head + seq![c] + tail).skip(head.len() as int + 1) == tail,
{
    let all = head + seq![c] + tail;
    lemma_first_at(all, c);
    assert(all[head.len() as int] == c);
    let n = first_at(all, c) as int;
    if n < head.len() {
        assert(head[n] == c);
    }
    assert(all.take(head.len() as int) =~= head);
    assert(all.skip(head.len() as int + 1) =~= tail);
}

/// A text without `c` has it nowhere.
pub proof fn lemma_first_at_none(s: Seq<char>, c: char)
    requires
        !s.contains(c),
    ensures
        first_at(s, c) == s.len(),
{
    lemma_first_at(s, c);
    if first_at(s, c) < s.len() {
        assert(s[first_at(s, c) as int] == c);
    }
}

/// Texts that were joined with a character that none of them has are parted again.
pub proof fn law_split_undoes_join(list: Seq<Seq<char>>, c: char)
    requires
        list.len() > 0,
        forall|i: int| 0 <= i < list.len() ==> !(#[trigger] list[i]).contains(c),
    ensures
        split_all(joined(list, seq![c]), c) == list,
    decreases list.len(),
{
    let first = list[0];
    if list.len() == 1 {
        lemma_first_at_none(first, c);
        assert(list =~= seq![first]);
    } else {
        let rest = list.drop_first();
        assert(list =~= seq![first] + rest);
        assert forall|i: int| 0 <= i < rest.len() implies !(#[trigger] rest[i]).contains(c) by {
            assert(rest[i] == list[i + 1]);
        }
        law_split_undoes_join(rest, c);
        lemma_joined_front(first, rest, seq![c]);
        lemma_first_at_join(first, c, joined(rest, seq![c]));
    }
}

/// The same with a limit on the pieces: the last of as many as there may be keeps the character
/// where it has it.
pub proof fn law_limited_split_undoes_join(list: Seq<Seq<char>>, c: char, limit: nat)
    requires
        0 < list.len() <= limit,
        forall|i: int| 0 <= i < list.len() - 1 ==> !(#[trigger] list[i]).contains(c),
        list.len() < limit ==> !list.last().contains(c),
    ensures
        split_at_most(joined(list, seq![c]), c, limit) == list,
    decreases list.len(),
{
    let first = list[0];
    if list.len() == 1 {
        assert(list =~= seq![first]);
        if limit > 1 {
            lemma_first_at_none(first, c);
        }
    } else {
        let rest = list.drop_first();
        assert(list =~= seq![first] + rest);
        assert forall|i: int| 0 <= i < rest.len() - 1 implies !(#[trigger] rest[i]).contains(
            c,
        ) by {
            assert(rest[i] == list[i + 1]);
        }
        law_limited_split_undoes_join(rest, c, (limit - 1) as nat);
        lemma_joined_front(first, rest, seq![c]);
        lemma_first_at_join(first, c, joined(rest, seq![c]));
    }
}

/// A text is parted at the first `c`.
pub proof fn law_split_once(head: Seq<char>, c: char, tail: Seq<char>)
    requires
        !head.contains(c),
    ensures
        split_once(head + seq![c] + tail, c) == Some((head, tail)),
        split_once(head, c) is None,
{
    lemma_first_at_join(head, c, tail);
    lemma_first_at_none(head, c);
}

/// A list of one text is joined to that text, and each further one follows the separator.
pub proof fn law_join(list: Seq<Seq<char>>, text: Seq<char>, sep: Seq<char>)
    ensures
        joined(seq![], sep).len() == 0,
        joined(seq![text], sep) == text,
        list.len() > 0 ==> joined(list.push(text), sep) == joined(list, sep) + sep + text,
{
    assert(list.push(text).drop_last() =~= list);
}

/// A line ends at a line feed, or at a carriage return and a line feed, neither of which belongs
/// to it; what is left at the end is a line where it is not empty.
pub proof fn law_lines(line: Seq<char>, rest: Seq<char>)
    requires
        !line.contains('\n'),
    ensures
        line.len() > 0 ==> line.last() != '\r' ==> lines_of(line + seq!['\n'] + rest)
            == seq![line] + lines_of(rest),
        lines_of(seq!['\n'] + rest) == seq![Seq::<char>::empty()] + lines_of(rest),
        lines_of(line + seq!['\r', '\n'] + rest) == seq![line] + lines_of(rest),
        line.len() > 0 ==> lines_of(line) == seq![line],
        lines_of(seq![]).len() == 0,
{
    lemma_first_at_join(line, '\n', rest);
    lemma_first_at_none(line, '\n');
    let with_return = line.push('\r');
    assert(!with_return.contains('\n')) by {
        if with_return.contains('\n') {
            let i = choose|i: int| 0 <= i < with_return.len() && with_return[i] == '\n';
            if i < line.len() {
                assert(line[i] == '\n');
            }
        }
    }
    lemma_first_at_join(with_return, '\n', rest);
    assert(with_return + seq!['\n'] + rest =~= line + seq!['\r', '\n'] + rest);
    assert(with_return.drop_last() =~= line);
    let none = Seq::<char>::empty();
    assert(!none.contains('\n'));
    lemma_first_at_join(none, '\n', rest);
    assert(none + seq!['\n'] + rest =~= seq!['\n'] + rest);
}

/// The decimal digits of a number: the last is what is left of a division by ten, and those
/// before it are the digits of the quotient, where there are any.
pub proof fn law_decimal(n: nat)
    ensures
        n < 10 ==> decimal_of(n).len() == 1,
        n >= 10 ==> decimal_of(n).drop_last() == decimal_of(n / 10),
        decimal_of(n).len() > 0,
        decimal_of(n).last() as int == 48 + n % 10,
{
    if n >= 10 {
        assert(decimal_of(n).drop_last() =~= decimal_of(n / 10));
    }
}

/// What a list of texts, or of pairs of texts, holds is what its items hold, one by one.
pub proof fn law_views_of_lists(texts: Seq<String>, pairs: Seq<(String, String)>, i: int)
    ensures
        string_views(texts).len() == texts.len(),
        pair_views(pairs).len() == pairs.len(),
        0 <= i < texts.len() ==> string_views(texts)[i] == texts[i]@,
        0 <= i < pairs.len() ==> pair_views(pairs)[i].0 == pairs[i].0@,
        0 <= i < pairs.len() ==> pair_views(pairs)[i].1 == pairs[i].1@,
{
}

/// What slices of characters hold is what they hold one by one, and an optional text is there
/// or not as it stands.
pub proof fn law_views_of_parts(parts: Seq<&[char]>, text: String, i: int)
    ensures
        slice_views(parts).len() == parts.len(),
        0 <= i < parts.len() ==> slice_views(parts)[i] == parts[i]@,
        option_view(Some(text)) == Some(text@),
        option_view(None) is None,
{
}

} // verus!
