//! Character sequences: ordering, trimming, tokens and case-insensitive
//! matching, with the executable routines that compute them on strings.

use vstd::prelude::*;
use vstd::string::StringExecFns;
use vstd::relations::{total_ordering, sorted_by};

verus! {

/// Lexicographic "less than or equal" on character sequences, characters
/// compared by code point: the order of strings.
pub open spec fn string_le(a: Seq<char>, b: Seq<char>) -> bool
    decreases a.len(),
{
    if a.len() == 0 {
        true
    } else if b.len() == 0 {
        false
    } else if a[0] != b[0] {
        a[0] < b[0]
    } else {
        string_le(a.drop_first(), b.drop_first())
    }
}

/// The order of strings as a relation.
pub open spec fn string_order() -> spec_fn(Seq<char>, Seq<char>) -> bool {
    |a: Seq<char>, b: Seq<char>| string_le(a, b)
}

/// Copies the characters of a string into a vector.
pub fn chars_of(s: &str) -> (r: Vec<char>)
    ensures
        r@ == s@,
{
    let mut out: Vec<char> = Vec::new();
    for c in iter: s.chars()
        invariant
            iter.seq() == s@,
            out@ == s@.take(iter.index() as int),
    {
        out.push(c);
        assert(out@ =~= s@.take(iter.index() + 1));
    }
    assert(s@.take(s@.len() as int) =~= s@);
    out
}

/// Decides the order of two character slices.
fn chars_le(a: &[char], b: &[char]) -> (r: bool)
    ensures
        r == string_le(a@, b@),
{
    let mut i: usize = 0;
    assert(a@.skip(0) =~= a@ && b@.skip(0) =~= b@);
    while i < a.len() && i < b.len()
        invariant
            i <= a.len(),
            i <= b.len(),
            string_le(a@, b@) == string_le(a@.skip(i as int), b@.skip(i as int)),
        decreases a.len() - i,
    {
        let x: char = a[i];
        let y: char = b[i];
        proof {
            assert(a@.skip(i as int)[0] == x);
            assert(b@.skip(i as int)[0] == y);
            assert(a@.skip(i as int).drop_first() =~= a@.skip(i as int + 1));
            assert(b@.skip(i as int).drop_first() =~= b@.skip(i as int + 1));
        }
        if x != y {
            return x < y;
        }
        i += 1;
    }
    i == a.len()
}

/// Decides the order of two strings.
pub fn str_le(a: &str, b: &str) -> (r: bool)
    ensures
        r == string_le(a@, b@),
{
    let x: Vec<char> = chars_of(a);
    let y: Vec<char> = chars_of(b);
    chars_le(x.as_slice(), y.as_slice())
}

/// The order of strings is reflexive.
pub proof fn lemma_string_le_reflexive(a: Seq<char>)
    ensures
        string_le(a, a),
    decreases a.len(),
{
    if a.len() > 0 {
        lemma_string_le_reflexive(a.drop_first());
    }
}

/// Two sequences that each precede the other are the same sequence.
pub proof fn lemma_string_le_antisymmetric(a: Seq<char>, b: Seq<char>)
    requires
        string_le(a, b),
        string_le(b, a),
    ensures
        a == b,
    decreases a.len(),
{
    if a.len() == 0 || b.len() == 0 {
        assert(a =~= b);
    } else {
        lemma_string_le_antisymmetric(a.drop_first(), b.drop_first());
        assert(a =~= seq![a[0]] + a.drop_first());
        assert(b =~= seq![b[0]] + b.drop_first());
    }
}

/// The order of strings is transitive.
pub proof fn lemma_string_le_transitive(a: Seq<char>, b: Seq<char>, c: Seq<char>)
    requires
        string_le(a, b),
        string_le(b, c),
    ensures
        string_le(a, c),
    decreases a.len(),
{
    if a.len() > 0 && b.len() > 0 && c.len() > 0 && a[0] == b[0] && b[0] == c[0] {
        lemma_string_le_transitive(a.drop_first(), b.drop_first(), c.drop_first());
    }
}

/// Any two sequences are comparable.
pub proof fn lemma_string_le_connected(a: Seq<char>, b: Seq<char>)
    ensures
        string_le(a, b) || string_le(b, a),
    decreases a.len(),
{
    if a.len() > 0 && b.len() > 0 && a[0] == b[0] {
        lemma_string_le_connected(a.drop_first(), b.drop_first());
    }
}

/// The order of strings is a total order.
pub proof fn lemma_string_order_total()
    ensures
        total_ordering(string_order()),
{
    let r = string_order();
    assert forall|x: Seq<char>| #[trigger] r(x, x) by {
        lemma_string_le_reflexive(x);
    }
    assert forall|x: Seq<char>, y: Seq<char>| #[trigger] r(x, y) && #[trigger] r(y, x) implies x
        == y by {
        lemma_string_le_antisymmetric(x, y);
    }
    assert forall|x: Seq<char>, y: Seq<char>, z: Seq<char>| #[trigger]
        r(x, y) && #[trigger] r(y, z) implies r(x, z) by {
        lemma_string_le_transitive(x, y, z);
    }
    assert forall|x: Seq<char>, y: Seq<char>| #[trigger] r(x, y) || #[trigger] r(y, x) by {
        lemma_string_le_connected(x, y);
    }
}

/// The character sequences that a sequence of string references stands for.
pub open spec fn texts(v: Seq<&String>) -> Seq<Seq<char>> {
    Seq::new(v.len(), |i: int| v[i]@)
}

/// A sequence in ascending order that holds exactly the items of `items`
/// is `items` sorted.
pub proof fn lemma_sorted_is_sort(items: Seq<Seq<char>>, out: Seq<Seq<char>>)
    requires
        sorted_by(out, string_order()),
        out.to_multiset() == items.to_multiset(),
    ensures
        out == items.sort_by(string_order()),
{
    lemma_string_order_total();
    items.lemma_sort_by_ensures(string_order());
    vstd::seq_lib::lemma_sorted_unique(out, items.sort_by(string_order()), string_order());
}

/// Sorts string references into ascending order.
pub fn sort_refs<'a>(v: Vec<&'a String>) -> (r: Vec<&'a String>)
    ensures
        texts(r@) == texts(v@).sort_by(string_order()),
{
    let mut out: Vec<&'a String> = Vec::new();
    let mut i: usize = 0;
    assert(texts(out@) =~= texts(v@.take(0)));
    while i < v.len()
        invariant
            i <= v.len(),
            sorted_by(texts(out@), string_order()),
            texts(out@).to_multiset() == texts(v@.take(i as int)).to_multiset(),
        decreases v.len() - i,
    {
        let x: &'a String = v[i];
        let mut p: usize = 0;
        while p < out.len() && str_le(out[p].as_str(), x.as_str())
            invariant
                p <= out.len(),
                forall|k: int| 0 <= k < p ==> string_le(#[trigger] out@[k]@, x@),
            decreases out.len() - p,
        {
            p += 1;
        }
        let ghost before = out@;
        out.insert(p, x);
        proof {
            assert(texts(out@) =~= texts(before).insert(p as int, x@));
            vstd::seq_lib::to_multiset_insert(texts(before), p as int, x@);
            assert(texts(v@.take(i as int + 1)) =~= texts(v@.take(i as int)).push(x@));
            vstd::seq_lib::to_multiset_build(texts(v@.take(i as int)), x@);
            assert forall|a: int, b: int| 0 <= a < b < out@.len() implies string_le(
                #[trigger] texts(out@)[a],
                #[trigger] texts(out@)[b],
            ) by {
                if b < p {
                    assert(string_order()(texts(before)[a], texts(before)[b]));
                } else if b == p {
                    assert(string_le(before[a]@, x@));
                } else if a == p {
                    lemma_string_le_connected(before[p as int]@, x@);
                    if b - 1 > p {
                        assert(string_order()(texts(before)[p as int], texts(before)[b - 1]));
                        lemma_string_le_transitive(x@, before[p as int]@, before[b - 1]@);
                    }
                } else if a < p {
                    assert(string_order()(texts(before)[a], texts(before)[b - 1]));
                } else {
                    assert(string_order()(texts(before)[a - 1], texts(before)[b - 1]));
                }
            }
        }
        i += 1;
    }
    proof {
        assert(v@.take(i as int) =~= v@);
        lemma_sorted_is_sort(texts(v@), texts(out@));
    }
    out
}

/// ASCII white space, which separates the words of a line: space, tab,
/// line feed, form feed and carriage return.
pub open spec fn is_ascii_space(c: char) -> bool {
    c == ' ' || c == '\t' || c == '\n' || c == '\x0C' || c == '\r'
}

/// White space in the sense of Unicode, which trimming removes.
pub open spec fn is_space(c: char) -> bool {
    ||| ('\u{9}' <= c && c <= '\u{D}')
    ||| c == ' '
    ||| c == '\u{85}'
    ||| c == '\u{A0}'
    ||| c == '\u{1680}'
    ||| ('\u{2000}' <= c && c <= '\u{200A}')
    ||| c == '\u{2028}'
    ||| c == '\u{2029}'
    ||| c == '\u{202F}'
    ||| c == '\u{205F}'
    ||| c == '\u{3000}'
}

/// The marks that may close a command line and are ignored there.
pub open spec fn is_closing_mark(c: char) -> bool {
    c == ',' || c == '.' || c == '!' || c == '?' || c == '\n'
}

/// The lower-case form of an ASCII capital; any other character is itself.
pub open spec fn ascii_lower(c: char) -> char {
    if 'A' <= c && c <= 'Z' {
        ((c as u8) + 32) as char
    } else {
        c
    }
}

/// Whether two sequences are equal up to the case of their ASCII letters.
pub open spec fn same_ignoring_case(a: Seq<char>, b: Seq<char>) -> bool {
    &&& a.len() == b.len()
    &&& forall|i: int| 0 <= i < a.len() ==> ascii_lower(#[trigger] a[i]) == ascii_lower(b[i])
}

/// `s` without the closing marks at its end.
pub open spec fn strip_marks(s: Seq<char>) -> Seq<char>
    decreases s.len(),
{
    if s.len() > 0 && is_closing_mark(s.last()) {
        strip_marks(s.drop_last())
    } else {
        s
    }
}

/// `s` without the white space at its start.
pub open spec fn trim_start(s: Seq<char>) -> Seq<char>
    decreases s.len(),
{
    if s.len() > 0 && is_space(s.first()) {
        trim_start(s.drop_first())
    } else {
        s
    }
}

/// `s` without the white space at its end.
pub open spec fn trim_end(s: Seq<char>) -> Seq<char>
    decreases s.len(),
{
    if s.len() > 0 && is_space(s.last()) {
        trim_end(s.drop_last())
    } else {
        s
    }
}

/// `s` without the white space at either end.
pub open spec fn trim(s: Seq<char>) -> Seq<char> {
    trim_end(trim_start(s))
}

/// Where the run of characters that are no ASCII white space, starting at
/// `i`, ends: the index of the next white space, or the length of `s`.
pub open spec fn word_end(s: Seq<char>, i: int) -> int
    decreases s.len() - i,
{
    if 0 <= i < s.len() && !is_ascii_space(s[i]) {
        word_end(s, i + 1)
    } else {
        i
    }
}

/// A run ends at or after its start, within the sequence, and beyond the
/// start where a word begins there.
pub proof fn lemma_word_end_bounds(s: Seq<char>, i: int)
    requires
        0 <= i <= s.len(),
    ensures
        i <= word_end(s, i) <= s.len(),
        i < s.len() && !is_ascii_space(s[i]) ==> i < word_end(s, i),
    decreases s.len() - i,
{
    if i < s.len() && !is_ascii_space(s[i]) {
        lemma_word_end_bounds(s, i + 1);
    }
}

/// The words of `s` from index `i` on: its maximal runs of characters that
/// are no ASCII white space, in order.
pub open spec fn tokens_from(s: Seq<char>, i: int) -> Seq<Seq<char>>
    decreases s.len() - i,
{
    if i < 0 || i >= s.len() {
        Seq::empty()
    } else if is_ascii_space(s[i]) {
        tokens_from(s, i + 1)
    } else {
        proof {
            lemma_word_end_bounds(s, i);
        }
        seq![s.subrange(i, word_end(s, i))] + tokens_from(s, word_end(s, i))
    }
}

/// The words of `s`.
pub open spec fn tokens(s: Seq<char>) -> Seq<Seq<char>> {
    tokens_from(s, 0)
}

/// The words joined by single spaces.
pub open spec fn joined(words: Seq<Seq<char>>) -> Seq<char>
    decreases words.len(),
{
    if words.len() == 0 {
        Seq::empty()
    } else if words.len() == 1 {
        words[0]
    } else {
        joined(words.drop_last()) + seq![' '] + words.last()
    }
}

/// The index of the first word at or after `i` that matches `key` up to
/// case, or the number of words if there is none.
pub open spec fn first_match(words: Seq<Seq<char>>, key: Seq<char>, i: int) -> int
    decreases words.len() - i,
{
    if i < 0 || i >= words.len() {
        words.len() as int
    } else if same_ignoring_case(words[i], key) {
        i
    } else {
        first_match(words, key, i + 1)
    }
}

/// Decides whether a character is ASCII white space.
pub fn char_is_ascii_space(c: char) -> (r: bool)
    ensures
        r == is_ascii_space(c),
{
    c == ' ' || c == '\t' || c == '\n' || c == '\x0C' || c == '\r'
}

/// Decides whether a character is white space.
pub fn char_is_space(c: char) -> (r: bool)
    ensures
        r == is_space(c),
{
    ('\u{9}' <= c && c <= '\u{D}') || c == ' ' || c == '\u{85}' || c == '\u{A0}' || c
        == '\u{1680}' || ('\u{2000}' <= c && c <= '\u{200A}') || c == '\u{2028}' || c
        == '\u{2029}' || c == '\u{202F}' || c == '\u{205F}' || c == '\u{3000}'
}

/// Decides whether a character is a closing mark.
pub fn char_is_closing_mark(c: char) -> (r: bool)
    ensures
        r == is_closing_mark(c),
{
    c == ',' || c == '.' || c == '!' || c == '?' || c == '\n'
}

/// Lowers an ASCII capital.
pub fn char_ascii_lower(c: char) -> (r: char)
    ensures
        r == ascii_lower(c),
{
    if 'A' <= c && c <= 'Z' {
        ((c as u8) + 32) as char
    } else {
        c
    }
}

/// Compares two character slices up to the case of their ASCII letters.
fn chars_same_ignoring_case(a: &[char], b: &[char]) -> (r: bool)
    ensures
        r == same_ignoring_case(a@, b@),
{
    if a.len() != b.len() {
        return false;
    }
    let mut i: usize = 0;
    while i < a.len()
        invariant
            a.len() == b.len(),
            i <= a.len(),
            forall|k: int| 0 <= k < i ==> ascii_lower(#[trigger] a@[k]) == ascii_lower(b@[k]),
        decreases a.len() - i,
    {
        if char_ascii_lower(a[i]) != char_ascii_lower(b[i]) {
            return false;
        }
        i += 1;
    }
    true
}

/// Compares two strings up to the case of their ASCII letters.
pub fn str_same_ignoring_case(a: &str, b: &str) -> (r: bool)
    ensures
        r == same_ignoring_case(a@, b@),
{
    let x: Vec<char> = chars_of(a);
    let y: Vec<char> = chars_of(b);
    chars_same_ignoring_case(x.as_slice(), y.as_slice())
}

/// The length of a slice without the closing marks at its end.
fn strip_marks_len(s: &[char]) -> (n: usize)
    ensures
        n <= s.len(),
        s@.take(n as int) == strip_marks(s@),
{
    let mut n: usize = s.len();
    assert(s@.take(n as int) =~= s@);
    while n > 0 && char_is_closing_mark(s[n - 1])
        invariant
            n <= s.len(),
            strip_marks(s@) == strip_marks(s@.take(n as int)),
        decreases n,
    {
        assert(s@.take(n as int).drop_last() =~= s@.take(n as int - 1));
        n -= 1;
    }
    n
}

/// A string without the closing marks at its end.
pub fn strip_closing_marks<'a>(s: &'a str) -> (r: &'a str)
    ensures
        r@ == strip_marks(s@),
{
    let chars: Vec<char> = chars_of(s);
    let n: usize = strip_marks_len(chars.as_slice());
    s.substring_char(0, n)
}

/// The bounds of a slice without the white space at either end.
fn trim_bounds(s: &[char]) -> (r: (usize, usize))
    ensures
        r.0 <= r.1 <= s.len(),
        s@.subrange(r.0 as int, r.1 as int) == trim(s@),
{
    let mut a: usize = 0;
    assert(s@.skip(0) =~= s@);
    while a < s.len() && char_is_space(s[a])
        invariant
            a <= s.len(),
            trim_start(s@) == trim_start(s@.skip(a as int)),
        decreases s.len() - a,
    {
        assert(s@.skip(a as int).drop_first() =~= s@.skip(a as int + 1));
        a += 1;
    }
    let mut b: usize = s.len();
    assert(s@.subrange(a as int, b as int) =~= s@.skip(a as int));
    while b > a && char_is_space(s[b - 1])
        invariant
            a <= b <= s.len(),
            trim_start(s@) == s@.skip(a as int),
            trim(s@) == trim_end(s@.subrange(a as int, b as int)),
        decreases b,
    {
        assert(s@.subrange(a as int, b as int).drop_last() =~= s@.subrange(
            a as int,
            b as int - 1,
        ));
        b -= 1;
    }
    (a, b)
}

/// A string without the white space at either end.
pub fn trim_text<'a>(s: &'a str) -> (r: &'a str)
    ensures
        r@ == trim(s@),
{
    let chars: Vec<char> = chars_of(s);
    let bounds: (usize, usize) = trim_bounds(chars.as_slice());
    s.substring_char(bounds.0, bounds.1)
}

/// The words that a sequence of spans cuts out of `s`.
spec fn span_texts(s: Seq<char>, spans: Seq<(usize, usize)>) -> Seq<Seq<char>> {
    Seq::new(spans.len(), |k: int| s.subrange(spans[k].0 as int, spans[k].1 as int))
}

/// Finds the words of a slice, each as the span of its indices.
fn token_spans(s: &[char]) -> (r: Vec<(usize, usize)>)
    ensures
        forall|k: int| 0 <= k < r@.len() ==> (#[trigger] r@[k]).0 <= r@[k].1 <= s@.len(),
        span_texts(s@, r@) == tokens(s@),
{
    let n: usize = s.len();
    let mut out: Vec<(usize, usize)> = Vec::new();
    let mut i: usize = 0;
    assert(span_texts(s@, out@) + tokens_from(s@, 0) =~= tokens(s@));
    while i < n
        invariant
            n == s@.len(),
            i <= n,
            forall|k: int| 0 <= k < out@.len() ==> (#[trigger] out@[k]).0 <= out@[k].1 <= n,
            span_texts(s@, out@) + tokens_from(s@, i as int) == tokens(s@),
        decreases n - i,
    {
        if char_is_ascii_space(s[i]) {
            i += 1;
        } else {
            let start: usize = i;
            let mut j: usize = i;
            while j < n && !char_is_ascii_space(s[j])
                invariant
                    n == s@.len(),
                    start <= j <= n,
                    word_end(s@, start as int) == word_end(s@, j as int),
                decreases n - j,
            {
                j += 1;
            }
            let ghost before = out@;
            out.push((start, j));
            proof {
                assert(word_end(s@, start as int) == j);
                assert(span_texts(s@, out@) =~= span_texts(s@, before) + seq![
                    s@.subrange(start as int, j as int),
                ]);
                assert(span_texts(s@, out@) + tokens_from(s@, j as int) =~= span_texts(s@, before)
                    + tokens_from(s@, start as int));
            }
            i = j;
        }
    }
    assert(span_texts(s@, out@) + tokens_from(s@, n as int) =~= span_texts(s@, out@));
    out
}

/// The character sequences of a sequence of strings.
pub open spec fn owned_texts(v: Seq<String>) -> Seq<Seq<char>> {
    Seq::new(v.len(), |i: int| v[i]@)
}

/// The words of a string.
pub fn split_words(s: &str) -> (r: Vec<String>)
    ensures
        owned_texts(r@) == tokens(s@),
{
    let chars: Vec<char> = chars_of(s);
    let spans: Vec<(usize, usize)> = token_spans(chars.as_slice());
    let mut out: Vec<String> = Vec::new();
    let mut k: usize = 0;
    while k < spans.len()
        invariant
            k <= spans@.len(),
            out@.len() == k,
            forall|j: int| 0 <= j < spans@.len() ==> (#[trigger] spans@[j]).0 <= spans@[j].1 <= s@.len(),
            forall|j: int| 0 <= j < k ==> (#[trigger] out@[j])@ == span_texts(s@, spans@)[j],
        decreases spans@.len() - k,
    {
        let span: (usize, usize) = spans[k];
        out.push(String::from_str(s.substring_char(span.0, span.1)));
        k += 1;
    }
    assert(owned_texts(out@) =~= span_texts(s@, spans@));
    out
}

/// Joins the words from index `from` up to index `to` by single spaces.
pub fn join_words(words: &Vec<String>, from: usize, to: usize) -> (r: String)
    requires
        from <= to <= words@.len(),
    ensures
        r@ == joined(owned_texts(words@).subrange(from as int, to as int)),
{
    let mut out: String = String::new();
    let mut k: usize = from;
    let ghost all = owned_texts(words@);
    assert(all.subrange(from as int, from as int) =~= Seq::empty());
    while k < to
        invariant
            from <= k <= to,
            to <= words@.len(),
            all == owned_texts(words@),
            out@ == joined(all.subrange(from as int, k as int)),
        decreases to - k,
    {
        if k > from {
            out.append(" ");
        }
        out.append(words[k].as_str());
        proof {
            reveal_strlit(" ");
            assert(" "@ =~= seq![' ']);
            let next = all.subrange(from as int, k as int + 1);
            assert(next.drop_last() =~= all.subrange(from as int, k as int));
            assert(next.last() == words@[k as int]@);
            if k == from {
                assert(out@ =~= next[0]);
            }
        }
        k += 1;
    }
    out
}

/// Why a text is not a number.
#[derive(Debug, Clone, Copy, PartialEq, Eq, Structural)]
pub enum NumberError {
    /// The text is empty.
    Empty,
    /// The text holds a character that is no digit where one must stand,
    /// or no digit at all.
    InvalidDigit,
    /// The number does not fit in 32 bits.
    TooLarge,
}

impl NumberError {
    /// The words that state the error.
    pub open spec fn message_text(self) -> Seq<char> {
        match self {
            NumberError::Empty => "cannot parse integer from empty string"@,
            NumberError::InvalidDigit => "invalid digit found in string"@,
            NumberError::TooLarge => "number too large to fit in target type"@,
        }
    }

    /// The words that state the error.
    pub fn message(&self) -> (r: String)
        ensures
            r@ == self.message_text(),
    {
        match self {
            NumberError::Empty => String::from_str("cannot parse integer from empty string"),
            NumberError::InvalidDigit => String::from_str("invalid digit found in string"),
            NumberError::TooLarge => String::from_str("number too large to fit in target type"),
        }
    }
}

/// Whether a character is a decimal digit.
pub open spec fn is_digit(c: char) -> bool {
    '0' <= c && c <= '9'
}

/// The value of a decimal digit.
pub open spec fn digit_value(c: char) -> nat {
    (c as u32 - '0' as u32) as nat
}

/// The number that the digits of `s` from index `i` on make when they
/// follow digits of value `acc`. The characters are read in turn, and the
/// first that is no digit, or with which the value no longer fits in 32
/// bits, decides the error.
pub open spec fn digits_from(s: Seq<char>, i: int, acc: nat) -> Result<u32, NumberError>
    decreases s.len() - i,
{
    if i < 0 || i >= s.len() {
        Ok(acc as u32)
    } else if !is_digit(s[i]) {
        Err(NumberError::InvalidDigit)
    } else if acc * 10 + digit_value(s[i]) > u32::MAX {
        Err(NumberError::TooLarge)
    } else {
        digits_from(s, i + 1, acc * 10 + digit_value(s[i]))
    }
}

/// The number that `s` writes in decimal: one or more digits, which a
/// plus sign may precede.
pub open spec fn parsed_number(s: Seq<char>) -> Result<u32, NumberError> {
    if s.len() == 0 {
        Err(NumberError::Empty)
    } else if s.len() == 1 && (s[0] == '+' || s[0] == '-') {
        Err(NumberError::InvalidDigit)
    } else if s[0] == '+' {
        digits_from(s, 1, 0)
    } else {
        digits_from(s, 0, 0)
    }
}

/// Reads a number in decimal.
pub fn parse_number(s: &str) -> (r: Result<u32, NumberError>)
    ensures
        r == parsed_number(s@),
{
    let chars: Vec<char> = chars_of(s);
    parse_digits(chars.as_slice())
}

/// Reads a number in decimal from a slice of characters.
fn parse_digits(s: &[char]) -> (r: Result<u32, NumberError>)
    ensures
        r == parsed_number(s@),
{
    if s.len() == 0 {
        return Err(NumberError::Empty);
    }
    if s.len() == 1 && (s[0] == '+' || s[0] == '-') {
        return Err(NumberError::InvalidDigit);
    }
    let mut i: usize = if s[0] == '+' {
        1
    } else {
        0
    };
    let mut acc: u32 = 0;
    while i < s.len()
        invariant
            i <= s.len(),
            parsed_number(s@) == digits_from(s@, i as int, acc as nat),
        decreases s.len() - i,
    {
        let c: char = s[i];
        if !('0' <= c && c <= '9') {
            return Err(NumberError::InvalidDigit);
        }
        let d: u32 = c as u32 - '0' as u32;
        if acc > (u32::MAX - d) / 10 {
            return Err(NumberError::TooLarge);
        }
        acc = acc * 10 + d;
        i += 1;
    }
    Ok(acc)
}

} // verus!
