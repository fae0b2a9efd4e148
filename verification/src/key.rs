//! Keys: the text by which a slot is found, and the text as it was written.
//!
//! A key is written bare (`a-b_1`), as a basic string (`"a b"`, with escapes)
//! or as a literal string (`'a b'`). A text that is none of these is read as
//! though it stood between double quotes, and failing that between single quotes.

use vstd::prelude::*;
use vstd::std_specs::iter::IteratorSpec;
use vstd::string::StringExecFns;

verus! {

/// Why a text is no key.
#[derive(Clone, Copy, Debug, PartialEq, Eq)]
pub enum KeyError {
    /// The text is no key token, and is none either between double or single quotes.
    InvalidKey,
}

/// A parsed key.
#[derive(Clone, Debug)]
pub struct Key {
    key: String,
    raw: String,
}

/// What a [`Key`] holds: the key text, and the token as it is written.
pub struct KeyView {
    pub key: Seq<char>,
    pub raw: Seq<char>,
}

impl View for Key {
    type V = KeyView;

    closed spec fn view(&self) -> KeyView {
        KeyView { key: self.key@, raw: self.raw@ }
    }
}

/// A character of a bare key: an ASCII letter or digit, `-` or `_`.
pub open spec fn is_bare_char(c: char) -> bool {
    ('A' <= c && c <= 'Z') || ('a' <= c && c <= 'z') || ('0' <= c && c <= '9') || c == '-' || c
        == '_'
}

/// A bare key: one or more bare characters.
pub open spec fn is_bare_key(s: Seq<char>) -> bool {
    s.len() > 0 && forall|i: int| 0 <= i < s.len() ==> is_bare_char(#[trigger] s[i])
}

/// A character that may stand in a literal string: a tab, or anything from the
/// space on but the single quote.
pub open spec fn is_literal_char(c: char) -> bool {
    c == '\t' || (' ' <= c && c != '\'')
}

/// The inside of a literal string.
pub open spec fn is_literal_body(s: Seq<char>) -> bool {
    forall|i: int| 0 <= i < s.len() ==> is_literal_char(#[trigger] s[i])
}

/// A character that may stand unescaped in a basic string: anything from the
/// space on but the double quote and the backslash.
pub open spec fn is_basic_char(c: char) -> bool {
    ' ' <= c && c != '"' && c != '\\'
}

/// The character that a backslash and `c` stand for, apart from the `u` and `U` escapes.
pub open spec fn simple_escape(c: char) -> Option<char> {
    if c == 'b' {
        Some('\u{8}')
    } else if c == 't' {
        Some('\t')
    } else if c == 'n' {
        Some('\n')
    } else if c == 'f' {
        Some('\u{c}')
    } else if c == 'r' {
        Some('\r')
    } else if c == '"' || c == '\\' || c == '/' {
        Some(c)
    } else {
        None
    }
}

/// The value of a hexadecimal digit.
pub open spec fn hex_digit(c: char) -> Option<int> {
    if '0' <= c && c <= '9' {
        Some(c as int - '0' as int)
    } else if 'a' <= c && c <= 'f' {
        Some(c as int - 'a' as int + 10)
    } else if 'A' <= c && c <= 'F' {
        Some(c as int - 'A' as int + 10)
    } else {
        None
    }
}

/// Whether `s` is made of hexadecimal digits.
pub open spec fn is_hex(s: Seq<char>) -> bool {
    forall|i: int| 0 <= i < s.len() ==> hex_digit(#[trigger] s[i]) is Some
}

/// The number that the hexadecimal digits of `s` write, most significant first.
pub open spec fn hex_value(s: Seq<char>) -> int
    decreases s.len(),
{
    if s.len() == 0 {
        0
    } else {
        16 * hex_value(s.drop_last()) + match hex_digit(s.last()) {
            Some(d) => d,
            None => 0,
        }
    }
}

/// The character with code point `n`, where there is one.
pub open spec fn scalar(n: int) -> Option<char> {
    if (0 <= n < 0xD800) || (0xE000 <= n <= 0x10FFFF) {
        Some(n as char)
    } else {
        None
    }
}

/// The character that an escape sequence at the start of `s` stands for, and
/// the length of that sequence. `s` starts with a backslash.
pub open spec fn escape_at(s: Seq<char>) -> Option<(char, int)> {
    if s.len() < 2 {
        None
    } else if s[1] == 'u' {
        if s.len() >= 6 && is_hex(s.subrange(2, 6)) {
            match scalar(hex_value(s.subrange(2, 6))) {
                Some(c) => Some((c, 6)),
                None => None,
            }
        } else {
            None
        }
    } else if s[1] == 'U' {
        if s.len() >= 10 && is_hex(s.subrange(2, 10)) {
            match scalar(hex_value(s.subrange(2, 10))) {
                Some(c) => Some((c, 10)),
                None => None,
            }
        } else {
            None
        }
    } else {
        match simple_escape(s[1]) {
            Some(c) => Some((c, 2)),
            None => None,
        }
    }
}

/// `head` in front of `tail`, where there is a tail.
pub open spec fn prepend(head: Seq<char>, tail: Option<Seq<char>>) -> Option<Seq<char>> {
    match tail {
        Some(t) => Some(head + t),
        None => None,
    }
}

/// The text that the inside of a basic string stands for, or `None` where it
/// holds a character that must be escaped or an escape that stands for nothing.
pub open spec fn unescape(s: Seq<char>) -> Option<Seq<char>>
    decreases s.len(),
{
    if s.len() == 0 {
        Some(Seq::empty())
    } else if s[0] == '\\' {
        match escape_at(s) {
            Some((c, n)) => prepend(seq![c], unescape(s.skip(n))),
            None => None,
        }
    } else if is_basic_char(s[0]) {
        prepend(seq![s[0]], unescape(s.skip(1)))
    } else {
        None
    }
}

/// `s` between two quote characters `q`.
pub open spec fn quoted(q: char, s: Seq<char>) -> Seq<char> {
    seq![q] + s + seq![q]
}

/// The key text of `s`, where `s` is one whole key token: a bare key, a
/// literal string or a basic string.
pub open spec fn key_token(s: Seq<char>) -> Option<Seq<char>> {
    if is_bare_key(s) {
        Some(s)
    } else if s.len() >= 2 && s.first() == '\'' && s.last() == '\'' {
        if is_literal_body(s.subrange(1, s.len() - 1)) {
            Some(s.subrange(1, s.len() - 1))
        } else {
            None
        }
    } else if s.len() >= 2 && s.first() == '"' && s.last() == '"' {
        unescape(s.subrange(1, s.len() - 1))
    } else {
        None
    }
}

/// The key that `s` names: `s` itself where it is a key token, else `s`
/// between double quotes, else `s` between single quotes; `None` where none
/// of the three is a key token.
pub open spec fn parse_key(s: Seq<char>) -> Option<KeyView> {
    if let Some(k) = key_token(s) {
        Some(KeyView { key: k, raw: s })
    } else if let Some(k) = key_token(quoted('"', s)) {
        Some(KeyView { key: k, raw: quoted('"', s) })
    } else if let Some(k) = key_token(quoted('\'', s)) {
        Some(KeyView { key: k, raw: quoted('\'', s) })
    } else {
        None
    }
}

/// Between double quotes a text is a key token exactly where it unescapes.
pub proof fn lemma_double_quoted(s: Seq<char>)
    ensures
        key_token(quoted('"', s)) == unescape(s),
{
    let q = quoted('"', s);
    assert(q[0] == '"');
    assert(!is_bare_char(q[0]));
    assert(q.subrange(1, q.len() - 1) =~= s);
}

/// Between single quotes a text is a key token exactly where it is the inside
/// of a literal string, and then it is its own key text.
pub proof fn lemma_single_quoted(s: Seq<char>)
    ensures
        key_token(quoted('\'', s)) == (if is_literal_body(s) {
            Some(s)
        } else {
            None
        }),
{
    let q = quoted('\'', s);
    assert(q[0] == '\'');
    assert(!is_bare_char(q[0]));
    assert(q.subrange(1, q.len() - 1) =~= s);
}

/// `char::from_u32`: the character with code point `n`, or `None` where `n`
/// is a surrogate or lies beyond the last code point.
#[verifier::external_body]
fn char_of(n: u32) -> (r: Option<char>)
    ensures
        r == scalar(n as int),
{
    char::from_u32(n)
}

/// `String::push`: appends one character to the text.
#[verifier::external_body]
fn push_char(text: &mut String, c: char)
    ensures
        final(text)@ == old(text)@.push(c),
{
    text.push(c)
}

/// The characters of `s`.
fn chars_of(s: &str) -> (v: Vec<char>)
    ensures
        v@ == s@,
{
    let mut v: Vec<char> = Vec::new();
    let mut it = s.chars();
    let ghost mut n: int = 0;
    loop
        invariant
            it.obeys_prophetic_iter_laws(),
            0 <= n <= s@.len(),
            v@ == s@.subrange(0, n),
            it.remaining() == s@.subrange(n, s@.len() as int),
        ensures
            v@ == s@,
        decreases s@.len() - n,
    {
        match it.next() {
            Some(c) => {
                v.push(c);
                proof {
                    n = n + 1;
                }
            },
            None => {
                break ;
            },
        }
    }
    v
}

/// Whether `c` may stand in a bare key.
fn bare_char(c: char) -> (r: bool)
    ensures
        r == is_bare_char(c),
{
    ('A' <= c && c <= 'Z') || ('a' <= c && c <= 'z') || ('0' <= c && c <= '9') || c == '-' || c
        == '_'
}

/// Whether `chars` is a bare key.
fn bare_key(chars: &Vec<char>) -> (r: bool)
    ensures
        r == is_bare_key(chars@),
{
    if chars.len() == 0 {
        return false;
    }
    let mut i: usize = 0;
    while i < chars.len()
        invariant
            i <= chars.len(),
            forall|j: int| 0 <= j < i ==> is_bare_char(#[trigger] chars@[j]),
        decreases chars.len() - i,
    {
        if !bare_char(chars[i]) {
            return false;
        }
        i += 1;
    }
    true
}

/// Whether the characters from `from` to `to` may stand inside a literal string.
fn literal_body(chars: &Vec<char>, from: usize, to: usize) -> (r: bool)
    requires
        from <= to <= chars.len(),
    ensures
        r == is_literal_body(chars@.subrange(from as int, to as int)),
{
    let ghost body = chars@.subrange(from as int, to as int);
    let mut i: usize = from;
    while i < to
        invariant
            from <= i <= to <= chars.len(),
            body == chars@.subrange(from as int, to as int),
            forall|j: int| 0 <= j < i - from ==> is_literal_char(#[trigger] body[j]),
        decreases to - i,
    {
        let c = chars[i];
        if !(c == '\t' || (' ' <= c && c != '\'')) {
            assert(body[i - from] == c);
            return false;
        }
        i += 1;
    }
    true
}

/// The value of `c` as a hexadecimal digit.
fn hex_digit_of(c: char) -> (r: Option<u32>)
    ensures
        match r {
            Some(d) => hex_digit(c) == Some(d as int) && d < 16,
            None => hex_digit(c) is None,
        },
{
    if '0' <= c && c <= '9' {
        Some(c as u32 - '0' as u32)
    } else if 'a' <= c && c <= 'f' {
        Some(c as u32 - 'a' as u32 + 10)
    } else if 'A' <= c && c <= 'F' {
        Some(c as u32 - 'A' as u32 + 10)
    } else {
        None
    }
}

/// The largest number that `n` hexadecimal digits write, plus one.
spec fn hex_bound(n: nat) -> int
    decreases n,
{
    if n == 0 {
        1
    } else {
        16 * hex_bound((n - 1) as nat)
    }
}

/// The character that the hexadecimal digits from `from` to `to` name.
fn hex_scalar(chars: &Vec<char>, from: usize, to: usize) -> (r: Option<char>)
    requires
        from <= to <= chars.len(),
        to - from <= 8,
    ensures
        r == (if is_hex(chars@.subrange(from as int, to as int)) {
            scalar(hex_value(chars@.subrange(from as int, to as int)))
        } else {
            None
        }),
{
    let ghost digits = chars@.subrange(from as int, to as int);
    let mut n: u64 = 0;
    let mut i: usize = from;
    assert(digits.subrange(0, 0) =~= Seq::<char>::empty());
    while i < to
        invariant
            from <= i <= to <= chars.len(),
            to - from <= 8,
            digits == chars@.subrange(from as int, to as int),
            is_hex(digits.subrange(0, i - from)),
            n == hex_value(digits.subrange(0, i - from)),
            n < hex_bound((i - from) as nat),
        decreases to - i,
    {
        proof {
            reveal_with_fuel(hex_bound, 9);
        }
        match hex_digit_of(chars[i]) {
            None => {
                assert(digits[i - from] == chars@[i as int]);
                return None;
            },
            Some(d) => {
                let ghost seen = digits.subrange(0, i - from);
                let ghost next = digits.subrange(0, i - from + 1);
                assert(next.drop_last() =~= seen);
                assert(next.last() == chars@[i as int]);
                assert forall|j: int| 0 <= j < next.len() implies hex_digit(
                    #[trigger] next[j],
                ) is Some by {
                    if j < seen.len() {
                        assert(next[j] == seen[j]);
                    }
                }
                n = n * 16 + d as u64;
                i += 1;
            },
        }
    }
    proof {
        reveal_with_fuel(hex_bound, 9);
        assert(digits.subrange(0, to - from) =~= digits);
    }
    char_of(n as u32)
}

/// The character that a backslash and `c` stand for.
fn simple_escape_of(c: char) -> (r: Option<char>)
    ensures
        r == simple_escape(c),
{
    if c == 'b' {
        Some('\u{8}')
    } else if c == 't' {
        Some('\t')
    } else if c == 'n' {
        Some('\n')
    } else if c == 'f' {
        Some('\u{c}')
    } else if c == 'r' {
        Some('\r')
    } else if c == '"' || c == '\\' || c == '/' {
        Some(c)
    } else {
        None
    }
}

/// The text that the characters from `from` to `to` stand for inside a basic string.
fn unescape_range(chars: &Vec<char>, from: usize, to: usize) -> (r: Option<String>)
    requires
        from <= to <= chars.len(),
    ensures
        match r {
            Some(text) => unescape(chars@.subrange(from as int, to as int)) == Some(text@),
            None => unescape(chars@.subrange(from as int, to as int)) is None,
        },
{
    let ghost body = chars@.subrange(from as int, to as int);
    let mut out = String::new();
    let mut i: usize = from;
    assert(prepend(out@, unescape(body)) == unescape(body)) by {
        if let Some(t) = unescape(body) {
            assert(out@ + t =~= t);
        }
    }
    while i < to
        invariant
            from <= i <= to <= chars.len(),
            body == chars@.subrange(from as int, to as int),
            unescape(body) == prepend(out@, unescape(chars@.subrange(i as int, to as int))),
        decreases to - i,
    {
        let ghost rest = chars@.subrange(i as int, to as int);
        let ghost done = out@;
        let c = chars[i];
        assert(rest[0] == c);
        if c == '\\' {
            if to - i < 2 {
                return None;
            }
            let e = chars[i + 1];
            assert(rest[1] == e);
            let (decoded, width) = if e == 'u' {
                if to - i < 6 {
                    return None;
                }
                assert(rest.subrange(2, 6) =~= chars@.subrange(i + 2, i + 6));
                (hex_scalar(chars, i + 2, i + 6), 6usize)
            } else if e == 'U' {
                if to - i < 10 {
                    return None;
                }
                assert(rest.subrange(2, 10) =~= chars@.subrange(i + 2, i + 10));
                (hex_scalar(chars, i + 2, i + 10), 10usize)
            } else {
                (simple_escape_of(e), 2usize)
            };
            match decoded {
                None => {
                    return None;
                },
                Some(d) => {
                    assert(escape_at(rest) == Some((d, width as int)));
                    push_char(&mut out, d);
                    i += width;
                    proof {
                        let tail = chars@.subrange(i as int, to as int);
                        assert(rest.skip(width as int) =~= tail);
                        if let Some(t) = unescape(tail) {
                            assert(done + (seq![d] + t) =~= done.push(d) + t);
                        }
                    }
                },
            }
        } else if ' ' <= c && c != '"' {
            push_char(&mut out, c);
            i += 1;
            proof {
                let tail = chars@.subrange(i as int, to as int);
                assert(rest.skip(1) =~= tail);
                if let Some(t) = unescape(tail) {
                    assert(done + (seq![c] + t) =~= done.push(c) + t);
                }
            }
        } else {
            return None;
        }
    }
    proof {
        assert(chars@.subrange(i as int, to as int) =~= Seq::<char>::empty());
        assert(out@ + Seq::<char>::empty() =~= out@);
    }
    Some(out)
}

/// `text` between two quote characters `q`.
fn quote(q: char, text: &str) -> (r: String)
    ensures
        r@ == quoted(q, text@),
{
    let mut r = String::new();
    push_char(&mut r, q);
    r.append(text);
    push_char(&mut r, q);
    assert(r@ =~= quoted(q, text@));
    r
}

impl Key {
    /// Reads `s` as a key.
    pub fn parse(s: &str) -> (r: Result<Key, KeyError>)
        ensures
            match r {
                Ok(key) => parse_key(s@) == Some(key@),
                Err(e) => parse_key(s@) is None && e == KeyError::InvalidKey,
            },
    {
        let chars = chars_of(s);
        let n = chars.len();
        proof {
            lemma_double_quoted(s@);
            lemma_single_quoted(s@);
            assert(chars@.subrange(0, n as int) =~= s@);
        }
        if bare_key(&chars) {
            return Ok(Key { key: s.to_owned(), raw: s.to_owned() });
        }
        if n >= 2 && chars[0] == '\'' && chars[n - 1] == '\'' {
            if literal_body(&chars, 1, n - 1) {
                let key = s.substring_char(1, n - 1).to_owned();
                return Ok(Key { key, raw: s.to_owned() });
            }
        } else if n >= 2 && chars[0] == '"' && chars[n - 1] == '"' {
            if let Some(key) = unescape_range(&chars, 1, n - 1) {
                return Ok(Key { key, raw: s.to_owned() });
            }
        }
        if let Some(key) = unescape_range(&chars, 0, n) {
            return Ok(Key { key, raw: quote('"', s) });
        }
        if literal_body(&chars, 0, n) {
            return Ok(Key { key: s.to_owned(), raw: quote('\'', s) });
        }
        Err(KeyError::InvalidKey)
    }

    /// The key text, by which a slot is found.
    pub fn get(&self) -> (r: &str)
        ensures
            r@ == self@.key,
    {
        self.key.as_str()
    }

    /// The key as it is written.
    pub fn raw(&self) -> (r: &str)
        ensures
            r@ == self@.raw,
    {
        self.raw.as_str()
    }
}

} // verus!
