//! Bytes of a text file: words, lines, tokens and decimal integers.
use vstd::prelude::*;
use vstd::string::StringSliceAdditionalSpecFns;
use crate::scalar::Scalar;

verus! {

/// The bytes that separate tokens: space, tab, line feed, form feed and
/// carriage return.
pub open spec fn is_space(b: u8) -> bool {
    b == 32 || b == 9 || b == 10 || b == 12 || b == 13
}

/// Whether a byte separates tokens.
pub fn space(b: u8) -> (r: bool)
    ensures
        r == is_space(b),
{
    b == 32 || b == 9 || b == 10 || b == 12 || b == 13
}

/// Whether two byte strings hold the same bytes.
pub fn bytes_eq(a: &[u8], b: &[u8]) -> (r: bool)
    ensures
        r == (a@ == b@),
{
    if a.len() != b.len() {
        return false;
    }
    let mut i: usize = 0;
    while i < a.len()
        invariant
            a@.len() == b@.len(),
            i <= a@.len(),
            forall|k: int| 0 <= k < i ==> a@[k] == b@[k],
        decreases a@.len() - i,
    {
        if a[i] != b[i] {
            return false;
        }
        i += 1;
    }
    assert(a@ =~= b@);
    true
}

/// Whether `token` is spelled as `word`, byte for byte.
pub fn is_word(token: &[u8], word: &str) -> (r: bool)
    ensures
        r == (token@ == word.spec_bytes()),
{
    bytes_eq(token, word.as_bytes())
}

/// A copy of the bytes from `from` up to `to`.
pub fn copy_range(s: &[u8], from: usize, to: usize) -> (r: Vec<u8>)
    requires
        from <= to <= s@.len(),
    ensures
        r@ == s@.subrange(from as int, to as int),
{
    let mut out: Vec<u8> = Vec::new();
    let mut i: usize = from;
    while i < to
        invariant
            from <= i <= to <= s@.len(),
            out@ == s@.subrange(from as int, i as int),
        decreases to - i,
    {
        out.push(s[i]);
        i += 1;
        assert(out@ =~= s@.subrange(from as int, i as int));
    }
    out
}

/// Whether `needle` occurs at offset `at` of `hay`.
pub open spec fn occurs_at(hay: Seq<u8>, needle: Seq<u8>, at: int) -> bool {
    0 <= at && at + needle.len() <= hay.len() && hay.subrange(at, at + needle.len()) == needle
}

/// Whether `needle` occurs somewhere in `hay`.
pub open spec fn occurs_in(hay: Seq<u8>, needle: Seq<u8>) -> bool {
    exists|at: int| occurs_at(hay, needle, at)
}

fn matches_at(hay: &[u8], needle: &[u8], at: usize) -> (r: bool)
    requires
        at + needle@.len() <= hay@.len(),
    ensures
        r == occurs_at(hay@, needle@, at as int),
{
    let mut i: usize = 0;
    let n: usize = hay.len();
    while i < needle.len()
        invariant
            at + needle@.len() <= hay@.len(),
            hay@.len() == n,
            i <= needle@.len(),
            forall|k: int| 0 <= k < i ==> hay@[at + k] == needle@[k],
        decreases needle@.len() - i,
    {
        if hay[at + i] != needle[i] {
            assert(hay@.subrange(at as int, at + needle@.len())[i as int] != needle@[i as int]);
            return false;
        }
        i += 1;
    }
    assert(hay@.subrange(at as int, at + needle@.len()) =~= needle@);
    true
}

/// Whether `needle` occurs somewhere in `hay`.
pub fn contains(hay: &[u8], needle: &[u8]) -> (r: bool)
    ensures
        r == occurs_in(hay@, needle@),
{
    if needle.len() > hay.len() {
        return false;
    }
    let last: usize = hay.len() - needle.len();
    let mut at: usize = 0;
    while at < last
        invariant
            last == hay@.len() - needle@.len(),
            at <= last,
            forall|k: int| 0 <= k < at ==> !occurs_at(hay@, needle@, k),
        decreases last - at,
    {
        if matches_at(hay, needle, at) {
            return true;
        }
        at += 1;
    }
    matches_at(hay, needle, last)
}

/// What each byte string of a list holds.
pub open spec fn views(v: Seq<Vec<u8>>) -> Seq<Seq<u8>> {
    Seq::new(v.len(), |i: int| v[i]@)
}

/// The lines of a text from byte `i` on, `cur` being what was read of the
/// line that holds byte `i`.
pub open spec fn lines_from(s: Seq<u8>, i: int, cur: Seq<u8>) -> Seq<Seq<u8>>
    decreases s.len() - i,
{
    if i < 0 || i >= s.len() {
        if cur.len() > 0 {
            seq![cur]
        } else {
            Seq::empty()
        }
    } else if s[i] == 10 {
        seq![strip_cr(cur)] + lines_from(s, i + 1, Seq::empty())
    } else {
        lines_from(s, i + 1, cur.push(s[i]))
    }
}

/// A line without the carriage return that it may end in.
pub open spec fn strip_cr(line: Seq<u8>) -> Seq<u8> {
    if line.len() > 0 && line.last() == 13 {
        line.drop_last()
    } else {
        line
    }
}

/// The lines of a text: the bytes between line feeds, each without its line
/// feed and without a carriage return before it. Bytes after the last line
/// feed are a line if there are any.
pub open spec fn lines_of(s: Seq<u8>) -> Seq<Seq<u8>> {
    lines_from(s, 0, Seq::empty())
}

/// Splits a text into its lines.
pub fn split_lines(text: &[u8]) -> (r: Vec<Vec<u8>>)
    ensures
        views(r@) == lines_of(text@),
{
    let mut out: Vec<Vec<u8>> = Vec::new();
    let mut cur: Vec<u8> = Vec::new();
    let mut i: usize = 0;
    assert(views(out@) =~= Seq::<Seq<u8>>::empty());
    while i < text.len()
        invariant
            i <= text@.len(),
            lines_of(text@) == views(out@) + lines_from(text@, i as int, cur@),
        decreases text@.len() - i,
    {
        let b: u8 = text[i];
        if b == 10 {
            let n: usize = cur.len();
            if n > 0 && cur[n - 1] == 13 {
                cur.pop();
            }
            let ghost before = views(out@);
            let ghost line = cur@;
            out.push(cur);
            cur = Vec::new();
            assert(views(out@) =~= before.push(line));
            assert(before + (seq![line] + lines_from(text@, i + 1, Seq::empty()))
                =~= before.push(line) + lines_from(text@, i + 1, Seq::empty()));
        } else {
            cur.push(b);
        }
        i += 1;
    }
    if cur.len() > 0 {
        let ghost before = views(out@);
        let ghost line = cur@;
        out.push(cur);
        assert(views(out@) =~= before.push(line));
        assert(before + seq![line] =~= before.push(line));
    } else {
        assert(views(out@) + Seq::<Seq<u8>>::empty() =~= views(out@));
    }
    out
}

/// The fields of a string from byte `i` on, `cur` being what was read of the
/// field that holds byte `i`.
pub open spec fn fields_from(s: Seq<u8>, sep: u8, i: int, cur: Seq<u8>) -> Seq<Seq<u8>>
    decreases s.len() - i,
{
    if i < 0 || i >= s.len() {
        seq![cur]
    } else if s[i] == sep {
        seq![cur] + fields_from(s, sep, i + 1, Seq::empty())
    } else {
        fields_from(s, sep, i + 1, cur.push(s[i]))
    }
}

/// The fields of a string: the bytes before, between and after its
/// separators, one field more than there are separators.
pub open spec fn fields_of(s: Seq<u8>, sep: u8) -> Seq<Seq<u8>> {
    fields_from(s, sep, 0, Seq::empty())
}

/// Splits a string at each separator byte.
pub fn split_on(s: &[u8], sep: u8) -> (r: Vec<Vec<u8>>)
    ensures
        views(r@) == fields_of(s@, sep),
{
    let mut out: Vec<Vec<u8>> = Vec::new();
    let mut cur: Vec<u8> = Vec::new();
    let mut i: usize = 0;
    assert(views(out@) =~= Seq::<Seq<u8>>::empty());
    while i < s.len()
        invariant
            i <= s@.len(),
            fields_of(s@, sep) == views(out@) + fields_from(s@, sep, i as int, cur@),
        decreases s@.len() - i,
    {
        let b: u8 = s[i];
        if b == sep {
            let ghost before = views(out@);
            let ghost field = cur@;
            out.push(cur);
            cur = Vec::new();
            assert(views(out@) =~= before.push(field));
            assert(before + (seq![field] + fields_from(s@, sep, i + 1, Seq::empty()))
                =~= before.push(field) + fields_from(s@, sep, i + 1, Seq::empty()));
        } else {
            cur.push(b);
        }
        i += 1;
    }
    let ghost before = views(out@);
    let ghost field = cur@;
    out.push(cur);
    assert(views(out@) =~= before.push(field));
    assert(before + seq![field] =~= before.push(field));
    out
}

/// The words of a line from byte `i` on, `cur` being what was read of the
/// word that holds byte `i`.
pub open spec fn words_from(s: Seq<u8>, i: int, cur: Seq<u8>) -> Seq<Seq<u8>>
    decreases s.len() - i,
{
    if i < 0 || i >= s.len() {
        if cur.len() > 0 {
            seq![cur]
        } else {
            Seq::empty()
        }
    } else if is_space(s[i]) {
        if cur.len() > 0 {
            seq![cur] + words_from(s, i + 1, Seq::empty())
        } else {
            words_from(s, i + 1, Seq::empty())
        }
    } else {
        words_from(s, i + 1, cur.push(s[i]))
    }
}

/// The words of a line: its longest runs of bytes that are no separators,
/// in order.
pub open spec fn words_of(s: Seq<u8>) -> Seq<Seq<u8>> {
    words_from(s, 0, Seq::empty())
}

/// Splits a line at its separators.
pub fn split_ascii_whitespace(line: &[u8]) -> (r: Vec<Vec<u8>>)
    ensures
        views(r@) == words_of(line@),
{
    let mut out: Vec<Vec<u8>> = Vec::new();
    let mut cur: Vec<u8> = Vec::new();
    let mut i: usize = 0;
    assert(views(out@) =~= Seq::<Seq<u8>>::empty());
    while i < line.len()
        invariant
            i <= line@.len(),
            words_of(line@) == views(out@) + words_from(line@, i as int, cur@),
        decreases line@.len() - i,
    {
        let b: u8 = line[i];
        if space(b) {
            if cur.len() > 0 {
                let ghost before = views(out@);
                let ghost word = cur@;
                out.push(cur);
                cur = Vec::new();
                assert(views(out@) =~= before.push(word));
                assert(before + (seq![word] + words_from(line@, i + 1, Seq::empty()))
                    =~= before.push(word) + words_from(line@, i + 1, Seq::empty()));
            } else {
                assert(cur@ =~= Seq::<u8>::empty());
            }
        } else {
            cur.push(b);
        }
        i += 1;
    }
    if cur.len() > 0 {
        let ghost before = views(out@);
        let ghost word = cur@;
        out.push(cur);
        assert(views(out@) =~= before.push(word));
        assert(before + seq![word] =~= before.push(word));
    } else {
        assert(views(out@) + Seq::<Seq<u8>>::empty() =~= views(out@));
    }
    out
}

/// Whether a byte is a decimal digit.
pub open spec fn is_digit(b: u8) -> bool {
    48 <= b <= 57
}

/// One or more decimal digits and nothing else.
pub open spec fn is_digits(s: Seq<u8>) -> bool {
    s.len() > 0 && forall|i: int| 0 <= i < s.len() ==> is_digit(#[trigger] s[i])
}

/// The number that a string of decimal digits writes.
pub open spec fn digits_value(s: Seq<u8>) -> nat
    decreases s.len(),
{
    if s.len() == 0 {
        0
    } else {
        (digits_value(s.drop_last()) * 10 + (s.last() - 48)) as nat
    }
}

/// The integer that a decimal literal writes: digits, after an optional
/// `+`, or after `-` where `signed` allows it.
pub open spec fn integer_of(s: Seq<u8>, signed: bool) -> Option<int> {
    if s.len() > 0 && s[0] == 45 {
        if signed && is_digits(s.skip(1)) {
            Some(-(digits_value(s.skip(1)) as int))
        } else {
            None
        }
    } else if s.len() > 0 && s[0] == 43 {
        if is_digits(s.skip(1)) {
            Some(digits_value(s.skip(1)) as int)
        } else {
            None
        }
    } else if is_digits(s) {
        Some(digits_value(s) as int)
    } else {
        None
    }
}

/// The `i32` that a decimal literal writes, if it writes one.
pub open spec fn i32_of(s: Seq<u8>) -> Option<i32> {
    match integer_of(s, true) {
        Some(v) => if i32::MIN <= v <= i32::MAX {
            Some(v as i32)
        } else {
            None
        },
        None => None,
    }
}

/// The `u32` that a decimal literal writes, if it writes one.
pub open spec fn u32_of(s: Seq<u8>) -> Option<u32> {
    match integer_of(s, false) {
        Some(v) => if v <= u32::MAX {
            Some(v as u32)
        } else {
            None
        },
        None => None,
    }
}

proof fn lemma_digits_prefix(s: Seq<u8>, n: int)
    requires
        0 <= n <= s.len(),
        forall|i: int| 0 <= i < s.len() ==> is_digit(#[trigger] s[i]),
    ensures
        digits_value(s.take(n)) <= digits_value(s),
    decreases s.len() - n,
{
    if n < s.len() {
        lemma_digits_prefix(s, n + 1);
        assert(s.take(n + 1).drop_last() =~= s.take(n));
    } else {
        assert(s.take(n) =~= s);
    }
}

/// The value of the digits of `s` from `start` on, where they are one or
/// more digits that write at most `limit`.
fn parse_digits(s: &[u8], start: usize, limit: u64) -> (r: Option<u64>)
    requires
        start <= s@.len(),
        limit <= 0xffff_ffff_ffff,
    ensures
        match r {
            Some(v) => is_digits(s@.skip(start as int)) && v == digits_value(s@.skip(start as int))
                && v <= limit,
            None => !is_digits(s@.skip(start as int)) || digits_value(s@.skip(start as int))
                > limit,
        },
{
    let ghost tail = s@.skip(start as int);
    if start == s.len() {
        return None;
    }
    let mut acc: u64 = 0;
    let mut i: usize = start;
    assert(tail.take(0) =~= Seq::<u8>::empty());
    while i < s.len()
        invariant
            start <= i <= s@.len(),
            tail == s@.skip(start as int),
            limit <= 0xffff_ffff_ffff,
            acc <= limit,
            acc == digits_value(tail.take(i - start)),
            forall|k: int| 0 <= k < i - start ==> is_digit(#[trigger] tail[k]),
        decreases s@.len() - i,
    {
        let b: u8 = s[i];
        assert(tail[i - start] == b);
        if b < 48 || b > 57 {
            return None;
        }
        let next: u64 = acc * 10 + (b - 48) as u64;
        proof {
            assert(tail.take(i - start + 1).drop_last() =~= tail.take(i - start));
            assert(tail.take(i - start + 1).last() == b);
            assert(next == digits_value(tail.take(i - start + 1)));
        }
        if next > limit {
            proof {
                if is_digits(tail) {
                    lemma_digits_prefix(tail, i - start + 1);
                }
            }
            return None;
        }
        acc = next;
        i += 1;
    }
    assert(tail.take(i - start) =~= tail);
    Some(acc)
}

/// Reads a decimal `i32`: digits after an optional sign.
pub fn parse_i32(s: &[u8]) -> (r: Option<i32>)
    ensures
        r == i32_of(s@),
{
    if s.len() > 0 && s[0] == 45 {
        match parse_digits(s, 1, 0x8000_0000) {
            Some(v) => {
                let w: i64 = -(v as i64);
                Some(w as i32)
            },
            None => None,
        }
    } else if s.len() > 0 && s[0] == 43 {
        match parse_digits(s, 1, 0x7fff_ffff) {
            Some(v) => Some(v as i32),
            None => None,
        }
    } else {
        assert(s@.skip(0) =~= s@);
        match parse_digits(s, 0, 0x7fff_ffff) {
            Some(v) => Some(v as i32),
            None => None,
        }
    }
}

/// Reads a decimal `u32`: digits after an optional `+`.
pub fn parse_u32(s: &[u8]) -> (r: Option<u32>)
    ensures
        r == u32_of(s@),
{
    if s.len() > 0 && s[0] == 45 {
        None
    } else if s.len() > 0 && s[0] == 43 {
        match parse_digits(s, 1, 0xffff_ffff) {
            Some(v) => Some(v as u32),
            None => None,
        }
    } else {
        assert(s@.skip(0) =~= s@);
        match parse_digits(s, 0, 0xffff_ffff) {
            Some(v) => Some(v as u32),
            None => None,
        }
    }
}

/// Whether a line whose first word is `word` is a comment: the word starts
/// with `#`.
pub open spec fn is_comment(word: Seq<u8>) -> bool {
    word.len() > 0 && word[0] == 35
}

/// Whether a line of the given words is empty or a comment.
pub open spec fn is_blank(line: Seq<TokenView>) -> bool {
    line.len() == 0 || is_comment(line[0].text)
}

/// Whether a line is empty or a comment.
pub fn blank(line: &Vec<Token>) -> (r: bool)
    ensures
        r == is_blank(token_views(line@)),
{
    if line.len() == 0 {
        return true;
    }
    assert(token_views(line@)[0].text == line@[0].text@);
    line[0].text.len() > 0 && line[0].text[0] == 35
}

/// A word of a text file together with the number it writes.
///
/// Reading a decimal literal as a binary32 number is floating-point work and
/// is done by whoever builds the token: `number` is `None` where the word
/// writes no number.
#[derive(Clone, Debug)]
pub struct Token {
    pub text: Vec<u8>,
    pub number: Option<Scalar>,
}

/// What a [`Token`] holds.
pub struct TokenView {
    pub text: Seq<u8>,
    pub number: Option<Scalar>,
}

impl View for Token {
    type V = TokenView;

    open spec fn view(&self) -> TokenView {
        TokenView { text: self.text@, number: self.number }
    }
}

impl DeepView for Token {
    type V = TokenView;

    open spec fn deep_view(&self) -> TokenView {
        self@
    }
}

/// What each token of a line holds.
pub open spec fn token_views(s: Seq<Token>) -> Seq<TokenView> {
    Seq::new(s.len(), |i: int| s[i]@)
}

/// The words of a line of tokens.
pub open spec fn texts_of(line: Seq<TokenView>) -> Seq<Seq<u8>> {
    Seq::new(line.len(), |i: int| line[i].text)
}

/// The word at place `i` of a line, or `default` where the line is shorter.
pub open spec fn word_or(line: Seq<TokenView>, i: int, default: Seq<u8>) -> Seq<u8> {
    if 0 <= i < line.len() {
        line[i].text
    } else {
        default
    }
}

/// The numbers written by the `count` words of a line from place `from`
/// on, if each of them writes one.
pub open spec fn numbers_at(line: Seq<TokenView>, from: int, count: int) -> Option<Seq<Scalar>> {
    if forall|i: int| from <= i < from + count ==> (#[trigger] line[i]).number is Some {
        Some(Seq::new(count as nat, |i: int| line[from + i].number.unwrap()))
    } else {
        None
    }
}

/// Whether a line holds `count` words from place `from` on.
pub open spec fn has_words(line: Seq<TokenView>, from: int, count: int) -> bool {
    from + count <= line.len()
}

/// A copy of the word at place `i` of a line, or of `default` where the
/// line is shorter.
pub fn copy_word_or(line: &Vec<Token>, i: usize, default: &str) -> (r: Vec<u8>)
    ensures
        r@ == word_or(token_views(line@), i as int, default.spec_bytes()),
{
    if i < line.len() {
        vstd::slice::slice_to_vec(line[i].text.as_slice())
    } else {
        vstd::slice::slice_to_vec(default.as_bytes())
    }
}

/// The numbers written by the `count` words from place `from` on, if each
/// of them writes one.
pub fn read_numbers(line: &Vec<Token>, from: usize, count: usize) -> (r: Option<Vec<Scalar>>)
    requires
        from + count <= line@.len(),
    ensures
        match r {
            Some(v) => numbers_at(token_views(line@), from as int, count as int) == Some(v@),
            None => numbers_at(token_views(line@), from as int, count as int) is None,
        },
{
    let mut out: Vec<Scalar> = Vec::new();
    let mut i: usize = 0;
    let n: usize = line.len();
    let ghost tv = token_views(line@);
    while i < count
        invariant
            from + count <= line@.len(),
            line@.len() == n,
            tv == token_views(line@),
            i <= count,
            out@.len() == i,
            forall|k: int| from <= k < from + i ==> (#[trigger] tv[k]).number is Some,
            forall|k: int| 0 <= k < i ==> out@[k] == tv[from + k].number.unwrap(),
        decreases count - i,
    {
        match line[from + i].number {
            Some(x) => {
                out.push(x);
            },
            None => {
                assert(tv[from + i].number is None);
                return None;
            },
        }
        i += 1;
    }
    assert(out@ =~= Seq::new(count as nat, |i: int| tv[from + i].number.unwrap()));
    Some(out)
}

impl Token {
    /// The token of a word and of the number that the word writes.
    pub fn new(text: Vec<u8>, number: Option<Scalar>) -> (r: Token)
        ensures
            r@ == (TokenView { text: text@, number }),
    {
        Token { text, number }
    }
}

} // verus!
