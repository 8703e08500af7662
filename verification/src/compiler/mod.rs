use vstd::prelude::*;
use vstd::string::StringSliceAdditionalSpecFns;
use vstd::utf8::{is_char_boundary, is_continuation_byte, valid_utf8};

use crate::chunk::Chunk;

verus! {

/// The kinds of token that the scanner produces.
#[derive(Debug, Clone, Copy, PartialEq, Eq, Structural)]
pub enum TokenType {
    LeftParen,
    RightParen,
    Plus,
    Minus,
    Star,
    Slash,
    Semicolon,
    Identifier,
    Number,
    False,
    Nil,
    Print,
    True,
    Error,
    Eof,
}

/// A token: its kind, its text (a slice of the source, or the message of an error token)
/// and the line on which the scanner stood when it ended.
pub struct Token<'a> {
    pub t_type: TokenType,
    pub lexeme: &'a str,
    pub line: usize,
}

/// What `char::is_alphabetic` returns: whether the character has the Unicode Alphabetic
/// property.
pub uninterp spec fn char_is_alphabetic(c: char) -> bool;

/// What `char::is_alphanumeric` returns: whether the character is alphabetic or numeric in
/// the sense of the Unicode standard.
pub uninterp spec fn char_is_alphanumeric(c: char) -> bool;

/// `c` is one of the ASCII digits '0' ..= '9'.
pub open spec fn ascii_digit(c: char) -> bool {
    '0' <= c && c <= '9'
}

/// Whether a character below U+0100 has the Unicode Alphabetic property: in that range the
/// Unicode Character Database gives it to the letters 'A' ..= 'Z' and 'a' ..= 'z', and to
/// U+00AA, U+00B5, U+00BA, U+00C0 ..= U+00D6, U+00D8 ..= U+00F6 and U+00F8 ..= U+00FF.
pub open spec fn latin1_alphabetic(c: char) -> bool {
    let u = c as u32;
    ||| 0x41 <= u <= 0x5A
    ||| 0x61 <= u <= 0x7A
    ||| u == 0xAA
    ||| u == 0xB5
    ||| u == 0xBA
    ||| 0xC0 <= u <= 0xD6
    ||| 0xD8 <= u <= 0xF6
    ||| 0xF8 <= u <= 0xFF
}

/// Whether a character below U+0100 is alphabetic or numeric in the sense of Unicode: the
/// alphabetic ones, the digits '0' ..= '9', and the numeric U+00B2, U+00B3, U+00B9 and
/// U+00BC ..= U+00BE.
pub open spec fn latin1_alphanumeric(c: char) -> bool {
    let u = c as u32;
    ||| latin1_alphabetic(c)
    ||| 0x30 <= u <= 0x39
    ||| u == 0xB2
    ||| u == 0xB3
    ||| u == 0xB9
    ||| 0xBC <= u <= 0xBE
}

/// Whether `c` is an ASCII digit.
fn is_ascii_digit(c: char) -> (r: bool)
    ensures
        r == ascii_digit(c),
{
    '0' <= c && c <= '9'
}

/// Calls `char::is_alphabetic`, documented to hold of the characters with the Unicode
/// Alphabetic property (DerivedCoreProperties.txt). Below U+0100 those are the characters of
/// `latin1_alphabetic`; above, which characters have the property is not stated, and the
/// result is named `char_is_alphabetic`.
#[verifier::external_body]
fn is_alphabetic(c: char) -> (r: bool)
    ensures
        r == char_is_alphabetic(c),
        (c as u32) < 0x100 ==> r == latin1_alphabetic(c),
{
    c.is_alphabetic()
}

/// Calls `char::is_alphanumeric`, documented to hold of the characters that are alphabetic
/// or numeric (Unicode general categories Nd, Nl, No). Below U+0100 those are the characters
/// of `latin1_alphanumeric`; above, which characters count is not stated, and the result is
/// named `char_is_alphanumeric`.
#[verifier::external_body]
fn is_alphanumeric(c: char) -> (r: bool)
    ensures
        r == char_is_alphanumeric(c),
        (c as u32) < 0x100 ==> r == latin1_alphanumeric(c),
{
    c.is_alphanumeric()
}

/// Whitespace that separates tokens.
pub open spec fn is_space(b: u8) -> bool {
    b == 32 || b == 13 || b == 9 || b == 10
}

/// The position of the first byte at or after `i` that is not whitespace.
pub open spec fn skip_spaces(s: Seq<u8>, i: int) -> int
    decreases s.len() - i,
{
    if 0 <= i < s.len() && is_space(s[i]) {
        skip_spaces(s, i + 1)
    } else {
        i
    }
}

/// The number of line feeds in `s`.
pub open spec fn count_newlines(s: Seq<u8>) -> nat
    decreases s.len(),
{
    if s.len() == 0 {
        0
    } else {
        count_newlines(s.drop_last()) + if s.last() == 10 {
            1nat
        } else {
            0nat
        }
    }
}

/// The end of the run of ASCII digits that starts at `i`.
pub open spec fn digits_end(s: Seq<u8>, i: int) -> int
    decreases s.len() - i,
{
    if 0 <= i < s.len() && ascii_digit(s[i] as char) {
        digits_end(s, i + 1)
    } else {
        i
    }
}

/// The end of a number literal whose digits continue at `i`: digits, then optionally a
/// '.' followed by at least one digit and the digits after it.
pub open spec fn number_end(s: Seq<u8>, i: int) -> int {
    let e = digits_end(s, i);
    if 0 <= e && e + 1 < s.len() && s[e] == 46 && ascii_digit(s[e + 1] as char) {
        digits_end(s, e + 1)
    } else {
        e
    }
}

/// The end of an identifier whose characters continue at `i`: alphanumerics and '_'.
pub open spec fn identifier_end(s: Seq<u8>, i: int) -> int
    decreases s.len() - i,
{
    if 0 <= i < s.len() && continues_identifier(s[i] as char, latin1_alphanumeric(s[i] as char)) {
        identifier_end(s, i + 1)
    } else {
        i
    }
}

/// The kind of an identifier: a keyword, or a plain identifier.
pub open spec fn keyword_type(text: Seq<u8>) -> TokenType {
    if text == seq![112u8, 114, 105, 110, 116] {
        TokenType::Print
    } else if text == seq![110u8, 105, 108] {
        TokenType::Nil
    } else if text == seq![116u8, 114, 117, 101] {
        TokenType::True
    } else if text == seq![102u8, 97, 108, 115, 101] {
        TokenType::False
    } else {
        TokenType::Identifier
    }
}

/// The kind of a one-character token.
pub open spec fn punctuation_type(c: char) -> Option<TokenType> {
    if c == '(' {
        Some(TokenType::LeftParen)
    } else if c == ')' {
        Some(TokenType::RightParen)
    } else if c == '+' {
        Some(TokenType::Plus)
    } else if c == '-' {
        Some(TokenType::Minus)
    } else if c == '*' {
        Some(TokenType::Star)
    } else if c == '/' {
        Some(TokenType::Slash)
    } else if c == ';' {
        Some(TokenType::Semicolon)
    } else {
        None
    }
}

/// How a token begins.
#[derive(Debug, Clone, Copy, PartialEq, Eq, Structural)]
pub enum TokenStart {
    /// A number literal.
    Number,
    /// An identifier or keyword.
    Identifier,
    /// A token of this one character: punctuation, or an error for an unexpected character.
    Single(TokenType),
}

/// How a token whose first character is `c` begins, given whether `c` is alphabetic:
/// an ASCII digit starts a number; an alphabetic character or '_' an identifier; anything
/// else is a one-character token.
pub open spec fn start_of(c: char, alphabetic: bool) -> TokenStart {
    if ascii_digit(c) {
        TokenStart::Number
    } else if alphabetic || c == '_' {
        TokenStart::Identifier
    } else {
        match punctuation_type(c) {
            Some(t) => TokenStart::Single(t),
            None => TokenStart::Single(TokenType::Error),
        }
    }
}

/// Decides how a token begins from its first character and whether that character is
/// alphabetic (the scanner asks `char::is_alphabetic`).
pub fn token_start(c: char, alphabetic: bool) -> (r: TokenStart)
    ensures
        r == start_of(c, alphabetic),
{
    if is_ascii_digit(c) {
        return TokenStart::Number;
    }
    if alphabetic || c == '_' {
        return TokenStart::Identifier;
    }
    match c {
        '(' => TokenStart::Single(TokenType::LeftParen),
        ')' => TokenStart::Single(TokenType::RightParen),
        '+' => TokenStart::Single(TokenType::Plus),
        '-' => TokenStart::Single(TokenType::Minus),
        '*' => TokenStart::Single(TokenType::Star),
        '/' => TokenStart::Single(TokenType::Slash),
        ';' => TokenStart::Single(TokenType::Semicolon),
        _ => TokenStart::Single(TokenType::Error),
    }
}

/// An identifier goes on over alphanumeric characters and '_'.
pub open spec fn continues_identifier(c: char, alphanumeric: bool) -> bool {
    alphanumeric || c == '_'
}

/// Decides whether an identifier goes on over `c`, given whether `c` is alphanumeric (the
/// scanner asks `char::is_alphanumeric`).
pub fn identifier_continues(c: char, alphanumeric: bool) -> (r: bool)
    ensures
        r == continues_identifier(c, alphanumeric),
{
    alphanumeric || c == '_'
}

/// Whether none of the token kinds is an error: a scan is a successful compile exactly when
/// it meets no unexpected character.
pub fn no_error_tokens(kinds: &Vec<TokenType>) -> (r: bool)
    ensures
        r == forall|i: int| 0 <= i < kinds@.len() ==> kinds@[i] != TokenType::Error,
{
    let mut i: usize = 0;
    while i < kinds.len()
        invariant
            i <= kinds@.len(),
            forall|j: int| 0 <= j < i ==> kinds@[j] != TokenType::Error,
        decreases kinds@.len() - i,
    {
        if kinds[i] == TokenType::Error {
            return false;
        }
        i = i + 1;
    }
    true
}

/// The next token of `s` when scanning resumes at `cur`: its kind and the byte range
/// `[start, end)` that it covers (one unexpected byte for an error token).
pub open spec fn scan(s: Seq<u8>, cur: int) -> (TokenType, int, int) {
    let start = skip_spaces(s, cur);
    if start >= s.len() {
        (TokenType::Eof, start, start)
    } else {
        let c = s[start] as char;
        match start_of(c, latin1_alphabetic(c)) {
            TokenStart::Number => (TokenType::Number, start, number_end(s, start + 1)),
            TokenStart::Identifier => {
                let end = identifier_end(s, start + 1);
                (keyword_type(s.subrange(start, end)), start, end)
            },
            TokenStart::Single(t) => (t, start, start + 1),
        }
    }
}

/// Whether the text of the next token can be cut out of the source: every token but an
/// error token takes its text from the source, which is only possible between character
/// boundaries.
pub open spec fn scan_fits(s: Seq<u8>, cur: int) -> bool {
    let (t, start, end) = scan(s, cur);
    t != TokenType::Error ==> is_char_boundary(s, start) && is_char_boundary(s, end)
}

proof fn lemma_skip_spaces_bounds(s: Seq<u8>, i: int)
    requires
        0 <= i <= s.len(),
    ensures
        i <= skip_spaces(s, i) <= s.len(),
        forall|k: int| i <= k < skip_spaces(s, i) ==> is_space(#[trigger] s[k]),
        skip_spaces(s, i) < s.len() ==> !is_space(s[skip_spaces(s, i)]),
    decreases s.len() - i,
{
    if i < s.len() && is_space(s[i]) {
        lemma_skip_spaces_bounds(s, i + 1);
    }
}

proof fn lemma_digits_end_bounds(s: Seq<u8>, i: int)
    requires
        0 <= i <= s.len(),
    ensures
        i <= digits_end(s, i) <= s.len(),
        forall|k: int| i <= k < digits_end(s, i) ==> ascii_digit(#[trigger] s[k] as char),
        digits_end(s, i) < s.len() ==> !ascii_digit(s[digits_end(s, i)] as char),
    decreases s.len() - i,
{
    if i < s.len() && ascii_digit(s[i] as char) {
        lemma_digits_end_bounds(s, i + 1);
    }
}

proof fn lemma_identifier_end_bounds(s: Seq<u8>, i: int)
    requires
        0 <= i <= s.len(),
    ensures
        i <= identifier_end(s, i) <= s.len(),
        forall|k: int|
            i <= k < identifier_end(s, i) ==> continues_identifier(
                #[trigger] s[k] as char,
                latin1_alphanumeric(s[k] as char),
            ),
        identifier_end(s, i) < s.len() ==> !continues_identifier(
            s[identifier_end(s, i)] as char,
            latin1_alphanumeric(s[identifier_end(s, i)] as char),
        ),
    decreases s.len() - i,
{
    if i < s.len() && continues_identifier(s[i] as char, latin1_alphanumeric(s[i] as char)) {
        lemma_identifier_end_bounds(s, i + 1);
    }
}

/// Scanning from a position of the source finds the next token at or after that position,
/// past whitespace only, and within the source: the end of input exactly when only whitespace
/// is left, with an empty range there; every other token covers at least one byte.
pub proof fn lemma_scan_bounds(s: Seq<u8>, cur: int)
    requires
        0 <= cur <= s.len(),
    ensures
        ({
            let (t, start, end) = scan(s, cur);
            &&& cur <= start <= end <= s.len()
            &&& forall|k: int| cur <= k < start ==> is_space(#[trigger] s[k])
            &&& (t == TokenType::Eof) == (start == s.len())
            &&& t == TokenType::Eof ==> end == start
            &&& t != TokenType::Eof ==> start < end
        }),
{
    lemma_skip_spaces_bounds(s, cur);
    let start = skip_spaces(s, cur);
    if start < s.len() {
        lemma_digits_end_bounds(s, start + 1);
        lemma_identifier_end_bounds(s, start + 1);
        let e = digits_end(s, start + 1);
        if 0 <= e && e + 1 < s.len() {
            lemma_digits_end_bounds(s, e + 1);
        }
    }
}

/// Once the scanner reaches the end of input it stays there: scanning again from the end of
/// an end-of-input token gives the same token.
pub proof fn lemma_eof_repeats(s: Seq<u8>, cur: int)
    requires
        0 <= cur <= s.len(),
        scan(s, cur).0 == TokenType::Eof,
    ensures
        scan(s, scan(s, cur).2) == scan(s, cur),
{
    lemma_scan_bounds(s, cur);
}

/// The kinds of the tokens scanned from `cur` on, at most `fuel` of them, up to and
/// including the end of input.
pub open spec fn scan_kinds(s: Seq<u8>, cur: int, fuel: nat) -> Seq<TokenType>
    decreases fuel,
{
    if fuel == 0 {
        Seq::empty()
    } else {
        let (t, start, end) = scan(s, cur);
        if t == TokenType::Eof {
            seq![TokenType::Eof]
        } else {
            seq![t] + scan_kinds(s, end, (fuel - 1) as nat)
        }
    }
}

/// The kinds of all the tokens of a source, in order, ending with the end of input.
pub open spec fn source_tokens(s: Seq<u8>) -> Seq<TokenType> {
    scan_kinds(s, 0, (s.len() + 1) as nat)
}

/// A byte that no token can hold: not whitespace, no digit or '.', not alphanumeric, not '_'
/// and no punctuation.
pub open spec fn foreign_byte(b: u8) -> bool {
    let c = b as char;
    &&& !is_space(b)
    &&& !ascii_digit(c)
    &&& c != '.'
    &&& !latin1_alphanumeric(c)
    &&& c != '_'
    &&& punctuation_type(c) is None
}

/// A byte of the plain alphabet: whitespace, an ASCII digit or letter, '_' or punctuation.
pub open spec fn plain_byte(b: u8) -> bool {
    let c = b as char;
    ||| is_space(b)
    ||| ascii_digit(c)
    ||| (0x41 <= b <= 0x5A)
    ||| (0x61 <= b <= 0x7A)
    ||| c == '_'
    ||| punctuation_type(c) is Some
}

proof fn lemma_scan_kinds_end(s: Seq<u8>, cur: int, fuel: nat)
    requires
        0 <= cur <= s.len(),
        s.len() - cur < fuel,
    ensures
        scan_kinds(s, cur, fuel).len() > 0,
        scan_kinds(s, cur, fuel).last() == TokenType::Eof,
    decreases fuel,
{
    lemma_scan_bounds(s, cur);
    let (t, start, end) = scan(s, cur);
    if t != TokenType::Eof {
        lemma_scan_kinds_end(s, end, (fuel - 1) as nat);
    }
}

/// The scan of a whole source ends with the end of input.
pub proof fn lemma_source_tokens_end(s: Seq<u8>)
    ensures
        source_tokens(s).len() > 0,
        source_tokens(s).last() == TokenType::Eof,
{
    lemma_scan_kinds_end(s, 0, (s.len() + 1) as nat);
}

proof fn lemma_foreign_scan(s: Seq<u8>, cur: int, fuel: nat, i: int)
    requires
        0 <= cur <= i < s.len(),
        foreign_byte(s[i]),
        s.len() - cur < fuel,
    ensures
        scan_kinds(s, cur, fuel).contains(TokenType::Error),
    decreases fuel,
{
    lemma_scan_bounds(s, cur);
    lemma_skip_spaces_bounds(s, cur);
    let (t, start, end) = scan(s, cur);
    let kinds = scan_kinds(s, cur, fuel);
    assert(start <= i);
    if i == start {
        assert(kinds[0] == TokenType::Error);
    } else {
        let c = s[start] as char;
        lemma_digits_end_bounds(s, start + 1);
        lemma_identifier_end_bounds(s, start + 1);
        let e = digits_end(s, start + 1);
        if 0 <= e && e + 1 < s.len() {
            lemma_digits_end_bounds(s, e + 1);
        }
        if i < end {
            assert(!ascii_digit(s[i] as char));
            assert(!continues_identifier(s[i] as char, latin1_alphanumeric(s[i] as char)));
            assert(false);
        }
        lemma_foreign_scan(s, end, (fuel - 1) as nat, i);
        let rest = scan_kinds(s, end, (fuel - 1) as nat);
        let j = choose|j: int| 0 <= j < rest.len() && rest[j] == TokenType::Error;
        assert(kinds[j + 1] == TokenType::Error);
    }
}

proof fn lemma_plain_scan(s: Seq<u8>, cur: int, fuel: nat)
    requires
        0 <= cur <= s.len(),
        forall|k: int| cur <= k < s.len() ==> plain_byte(#[trigger] s[k]),
    ensures
        !scan_kinds(s, cur, fuel).contains(TokenType::Error),
    decreases fuel,
{
    if fuel > 0 {
        lemma_scan_bounds(s, cur);
        lemma_skip_spaces_bounds(s, cur);
        let (t, start, end) = scan(s, cur);
        if t != TokenType::Eof {
            assert(plain_byte(s[start]));
            assert(t != TokenType::Error);
            lemma_plain_scan(s, end, (fuel - 1) as nat);
            let kinds = scan_kinds(s, cur, fuel);
            let rest = scan_kinds(s, end, (fuel - 1) as nat);
            assert forall|j: int| 0 <= j < kinds.len() implies kinds[j] != TokenType::Error by {
                if j > 0 {
                    assert(kinds[j] == rest[j - 1]);
                }
            }
        }
    }
}

/// A source holding a byte that no token can hold scans to an error token, so it does not
/// compile.
pub proof fn lemma_foreign_byte_is_an_error(s: Seq<u8>, i: int)
    requires
        0 <= i < s.len(),
        foreign_byte(s[i]),
    ensures
        source_tokens(s).contains(TokenType::Error),
{
    lemma_foreign_scan(s, 0, (s.len() + 1) as nat, i);
}

/// A source written in the plain alphabet scans without an error token, so it compiles.
pub proof fn lemma_plain_source_has_no_error(s: Seq<u8>)
    requires
        forall|k: int| 0 <= k < s.len() ==> plain_byte(#[trigger] s[k]),
    ensures
        !source_tokens(s).contains(TokenType::Error),
{
    lemma_plain_scan(s, 0, (s.len() + 1) as nat);
}

/// On a source of ASCII text every token can be cut out of the source, so scanning never
/// stops for want of a character boundary.
pub proof fn lemma_ascii_source_fits(c: Compiler)
    requires
        c.wf(),
        forall|i: int| 0 <= i < c.bytes().len() ==> #[trigger] c.bytes()[i] < 128,
    ensures
        scan_fits(c.bytes(), c.position()),
{
    broadcast use vstd::utf8::group_utf8_lib;

    let s = c.bytes();
    assert(vstd::utf8::valid_utf8(s));
    lemma_scan_bounds(s, c.position());
    let (t, start, end) = scan(s, c.position());
    if start < s.len() {
        assert(!vstd::utf8::is_continuation_byte(s[start]));
    }
    if end < s.len() {
        assert(!vstd::utf8::is_continuation_byte(s[end]));
    }
}

/// A character boundary at or after a boundary `i` of valid UTF-8 is also a boundary of the
/// bytes from `i` on.
proof fn lemma_boundary_in_tail(b: Seq<u8>, i: int, j: int)
    requires
        valid_utf8(b),
        0 <= i <= j <= b.len(),
        is_char_boundary(b, i),
        is_char_boundary(b, j),
    ensures
        is_char_boundary(b.subrange(i, b.len() as int), j - i),
{
    broadcast use vstd::utf8::group_utf8_lib;

    let t = b.subrange(i, b.len() as int);
    assert(valid_utf8(t));
    if j == i {
    } else if j == b.len() {
        assert(t.len() == j - i);
    } else {
        assert(t[j - i] == b[j]);
        assert(!is_continuation_byte(b[j]));
        assert(!is_continuation_byte(t[j - i]));
    }
}

/// `token` is the token that `before` scans, leaving the scanner as `after`: the source is
/// the same; the token's kind and byte range are those of `scan`; the line advances by the
/// line feeds in the whitespace skipped before the token; the token's text is the source
/// between its start and end, or the message "Unexpected character." for an error token.
pub open spec fn scanned<'a>(before: Compiler<'a>, after: Compiler<'a>, token: Token<'a>) -> bool {
    let (t, start, end) = scan(before.bytes(), before.position());
    &&& after.bytes() == before.bytes()
    &&& token.t_type == t
    &&& after.token_start() == start
    &&& after.position() == end
    &&& after.line() == before.line() + count_newlines(
        before.bytes().subrange(before.position(), start),
    )
    &&& token.line == after.line()
    &&& t != TokenType::Error ==> token.lexeme.spec_bytes() == before.bytes().subrange(start, end)
    &&& t == TokenType::Error ==> token.lexeme@ == "Unexpected character."@
}

/// The kinds of a sequence of tokens.
pub open spec fn token_kinds<'a>(tokens: Seq<Token<'a>>) -> Seq<TokenType> {
    tokens.map_values(|t: Token<'a>| t.t_type)
}

/// Whether every byte of `s` is ASCII.
pub open spec fn all_ascii(s: Seq<u8>) -> bool {
    forall|i: int| 0 <= i < s.len() ==> #[trigger] s[i] < 128
}

/// A decimal digit byte.
pub open spec fn is_digit_byte(b: u8) -> bool {
    0x30 <= b <= 0x39
}

/// A token that starts with a digit '0' ..= '9' is a number literal: digit bytes with at
/// most one '.', which has digits on both sides; it runs as far as the digits go, so the byte
/// after it is no digit, and it stops before a '.' followed by a digit only when it already
/// has its fraction.
pub proof fn lemma_digit_starts_number(s: Seq<u8>, cur: int)
    requires
        0 <= cur <= s.len(),
        skip_spaces(s, cur) < s.len(),
        is_digit_byte(s[skip_spaces(s, cur)]),
    ensures
        ({
            let (t, start, end) = scan(s, cur);
            &&& t == TokenType::Number
            &&& start == skip_spaces(s, cur)
            &&& start < end <= s.len()
            &&& forall|k: int| start <= k < end ==> is_digit_byte(#[trigger] s[k]) || s[k] == 0x2E
            &&& end < s.len() ==> !is_digit_byte(s[end])
            &&& forall|k: int|
                start <= k < end && #[trigger] s[k] == 0x2E ==> start < k && k + 1 < end
                    && is_digit_byte(s[k + 1])
            &&& forall|k: int, j: int|
                start <= k < end && start <= j < end && #[trigger] s[k] == 0x2E && #[trigger] s[j]
                    == 0x2E ==> k == j
            &&& (end + 1 < s.len() && s[end] == 0x2E && is_digit_byte(s[end + 1])) ==> exists|k: int|
                start <= k < end && #[trigger] s[k] == 0x2E
        }),
{
    lemma_scan_bounds(s, cur);
    let start = skip_spaces(s, cur);
    lemma_digits_end_bounds(s, start + 1);
    let e = digits_end(s, start + 1);
    if 0 <= e && e + 1 < s.len() {
        lemma_digits_end_bounds(s, e + 1);
    }
}

/// Whitespace is space, carriage return, tab and line feed: the scan skips exactly a run of
/// those bytes and starts the next token at a byte that is none of them.
pub proof fn lemma_whitespace_separates(s: Seq<u8>, cur: int)
    requires
        0 <= cur <= s.len(),
    ensures
        ({
            let start = scan(s, cur).1;
            let blank = |b: u8| b == 0x20 || b == 0x0D || b == 0x09 || b == 0x0A;
            &&& forall|k: int| cur <= k < start ==> blank(#[trigger] s[k])
            &&& start < s.len() ==> !blank(s[start])
        }),
{
    lemma_skip_spaces_bounds(s, cur);
}

/// The one-character tokens: '(' ')' '+' '-' '*' '/' ';' give their own kinds, covering just
/// that byte.
pub proof fn lemma_punctuation_tokens(s: Seq<u8>, cur: int)
    requires
        0 <= cur <= s.len(),
        skip_spaces(s, cur) < s.len(),
    ensures
        ({
            let (t, start, end) = scan(s, cur);
            let b = s[start];
            &&& b == 0x28 ==> t == TokenType::LeftParen && end == start + 1
            &&& b == 0x29 ==> t == TokenType::RightParen && end == start + 1
            &&& b == 0x2B ==> t == TokenType::Plus && end == start + 1
            &&& b == 0x2D ==> t == TokenType::Minus && end == start + 1
            &&& b == 0x2A ==> t == TokenType::Star && end == start + 1
            &&& b == 0x2F ==> t == TokenType::Slash && end == start + 1
            &&& b == 0x3B ==> t == TokenType::Semicolon && end == start + 1
        }),
{
}

/// The bytes of the four keywords.
pub open spec fn print_bytes() -> Seq<u8> {
    seq![0x70u8, 0x72, 0x69, 0x6E, 0x74]
}

pub open spec fn nil_word_bytes() -> Seq<u8> {
    seq![0x6Eu8, 0x69, 0x6C]
}

pub open spec fn true_bytes() -> Seq<u8> {
    seq![0x74u8, 0x72, 0x75, 0x65]
}

pub open spec fn false_bytes() -> Seq<u8> {
    seq![0x66u8, 0x61, 0x6C, 0x73, 0x65]
}

/// A token that starts with a letter or '_' is an identifier: it runs over alphanumeric
/// characters and '_' only, and as far as they go. Its kind is a keyword exactly when its
/// text is that keyword ("print", "nil", "true", "false"), and `Identifier` for any other text.
pub proof fn lemma_letter_starts_identifier(s: Seq<u8>, cur: int)
    requires
        0 <= cur <= s.len(),
        skip_spaces(s, cur) < s.len(),
        latin1_alphabetic(s[skip_spaces(s, cur)] as char) || s[skip_spaces(s, cur)] == 0x5F,
    ensures
        ({
            let (t, start, end) = scan(s, cur);
            let text = s.subrange(start, end);
            &&& start == skip_spaces(s, cur)
            &&& start < end <= s.len()
            &&& forall|k: int|
                start < k < end ==> latin1_alphanumeric(#[trigger] s[k] as char) || s[k] == 0x5F
            &&& end < s.len() ==> !(latin1_alphanumeric(s[end] as char) || s[end] == 0x5F)
            &&& (t == TokenType::Print <==> text == print_bytes())
            &&& (t == TokenType::Nil <==> text == nil_word_bytes())
            &&& (t == TokenType::True <==> text == true_bytes())
            &&& (t == TokenType::False <==> text == false_bytes())
            &&& (t == TokenType::Identifier <==> (text != print_bytes() && text != nil_word_bytes()
                && text != true_bytes() && text != false_bytes()))
        }),
{
    lemma_scan_bounds(s, cur);
    let start = skip_spaces(s, cur);
    lemma_identifier_end_bounds(s, start + 1);
}

/// The successive scan steps of `s` from `cur` on, at most `fuel` of them, up to and
/// including the end of input: each is the kind and byte range that `scan` gives.
pub open spec fn scan_steps(s: Seq<u8>, cur: int, fuel: nat) -> Seq<(TokenType, int, int)>
    decreases fuel,
{
    if fuel == 0 {
        Seq::empty()
    } else {
        let step = scan(s, cur);
        if step.0 == TokenType::Eof {
            seq![step]
        } else {
            seq![step] + scan_steps(s, step.2, (fuel - 1) as nat)
        }
    }
}

/// `token` is the token of the scan step `step` of `s`, made on line `line`: the step's
/// kind, the source between the step's start and end as its text (the message
/// "Unexpected character." for an error token), and that line.
pub open spec fn token_of<'a>(token: Token<'a>, s: Seq<u8>, step: (TokenType, int, int), line: int) -> bool {
    &&& token.t_type == step.0
    &&& token.line == line
    &&& step.0 != TokenType::Error ==> token.lexeme.spec_bytes() == s.subrange(step.1, step.2)
    &&& step.0 == TokenType::Error ==> token.lexeme@ == "Unexpected character."@
}

/// `tokens` are the tokens scanned from `s` from position `cur` on, with the scanner on line
/// `line`: one for each scan step, each on `line` plus the line feeds between `cur` and its
/// start.
pub open spec fn tokens_of<'a>(tokens: Seq<Token<'a>>, s: Seq<u8>, cur: int, line: int) -> bool {
    let steps = scan_steps(s, cur, (s.len() + 1) as nat);
    &&& tokens.len() == steps.len()
    &&& forall|k: int|
        0 <= k < steps.len() ==> token_of(
            #[trigger] tokens[k],
            s,
            steps[k],
            line + count_newlines(s.subrange(cur, steps[k].1)),
        )
}

/// Line feeds add up over adjacent ranges.
proof fn lemma_count_newlines_split(s: Seq<u8>, a: int, b: int, c: int)
    requires
        0 <= a <= b <= c <= s.len(),
    ensures
        count_newlines(s.subrange(a, c)) == count_newlines(s.subrange(a, b)) + count_newlines(
            s.subrange(b, c),
        ),
    decreases c - b,
{
    if c == b {
        assert(s.subrange(b, c) =~= Seq::<u8>::empty());
        assert(s.subrange(a, c) =~= s.subrange(a, b));
    } else {
        lemma_count_newlines_split(s, a, b, c - 1);
        assert(s.subrange(a, c).drop_last() =~= s.subrange(a, c - 1));
        assert(s.subrange(b, c).drop_last() =~= s.subrange(b, c - 1));
    }
}

/// A range holding no line feed counts none.
proof fn lemma_count_newlines_none(s: Seq<u8>)
    requires
        forall|k: int| 0 <= k < s.len() ==> #[trigger] s[k] != 10,
    ensures
        count_newlines(s) == 0,
    decreases s.len(),
{
    if s.len() > 0 {
        lemma_count_newlines_none(s.drop_last());
    }
}

/// No token holds a line feed.
proof fn lemma_token_has_no_newline(s: Seq<u8>, cur: int)
    requires
        0 <= cur <= s.len(),
    ensures
        count_newlines(s.subrange(scan(s, cur).1, scan(s, cur).2)) == 0,
{
    lemma_scan_bounds(s, cur);
    lemma_skip_spaces_bounds(s, cur);
    let (t, start, end) = scan(s, cur);
    if start < s.len() {
        let b = s[start];
        if is_digit_byte(b) {
            lemma_digit_starts_number(s, cur);
        } else if latin1_alphabetic(b as char) || b == 0x5F {
            lemma_letter_starts_identifier(s, cur);
        }
    }
    let text = s.subrange(start, end);
    assert forall|k: int| 0 <= k < text.len() implies #[trigger] text[k] != 10 by {
        assert(text[k] == s[start + k]);
    }
    lemma_count_newlines_none(text);
}

/// A scanner over a source string: the start of the token being scanned, the byte being
/// looked at, and the current line.
pub struct Compiler<'a> {
    source: &'a str,
    start: usize,
    current: usize,
    line: usize,
}

impl<'a> Compiler<'a> {
    /// The UTF-8 bytes of the source.
    pub closed spec fn bytes(&self) -> Seq<u8> {
        self.source.spec_bytes()
    }

    /// The byte offset at which the last token started.
    pub closed spec fn token_start(&self) -> int {
        self.start as int
    }

    /// The byte offset at which scanning resumes.
    pub closed spec fn position(&self) -> int {
        self.current as int
    }

    /// The current line.
    pub closed spec fn line(&self) -> int {
        self.line as int
    }

    /// The scanner's invariant: positions within the source, and a line number no greater
    /// than one plus the bytes consumed (each line feed consumed adds one line).
    #[verifier::type_invariant]
    pub closed spec fn wf(&self) -> bool {
        &&& self.start <= self.current <= self.bytes().len()
        &&& self.bytes().len() < usize::MAX
        &&& 1 <= self.line <= self.current + 1
    }

    /// A scanner at the beginning of `source`, on line 1.
    pub fn new(source: &'a str) -> (c: Compiler<'a>)
        requires
            source.spec_bytes().len() < usize::MAX,
        ensures
            c.bytes() == source.spec_bytes(),
            c.token_start() == 0,
            c.position() == 0,
            c.line() == 1,
    {
        Compiler { source, start: 0, current: 0, line: 1 }
    }

    /// Scans the next token. Its kind and byte range are those of `scan`; the line advances
    /// by the line feeds in the whitespace skipped before the token; its text is the source
    /// between its start and end, or the message "Unexpected character." for an error token.
    pub fn scan_token(&mut self) -> (token: Token<'a>)
        requires
            scan_fits(old(self).bytes(), old(self).position()),
        ensures
            scanned(*old(self), *final(self), token),
    {
        let t = self.scan_span();
        if t == TokenType::Error {
            self.error_token("Unexpected character.")
        } else {
            self.make_token(t)
        }
    }

    /// Scans the rest of the source, up to and including the end of input: the tokens are
    /// those that `scan_token` gives in turn. Their kinds, texts and byte ranges are the steps
    /// of `scan_steps` from the current position (the kinds those of `scan_kinds`), and each
    /// token's line is the current line plus the line feeds between the current position and
    /// the token's start. `None` when a token cannot be cut out of the source, which never
    /// happens on ASCII text.
    pub fn scan_all(&mut self) -> (r: Option<Vec<Token<'a>>>)
        ensures
            r matches Some(ts) ==> token_kinds(ts@) == scan_kinds(
                old(self).bytes(),
                old(self).position(),
                (old(self).bytes().len() + 1) as nat,
            ),
            r matches Some(ts) ==> tokens_of(
                ts@,
                old(self).bytes(),
                old(self).position(),
                old(self).line(),
            ),
            all_ascii(old(self).bytes()) ==> r is Some,
    {
        proof {
            use_type_invariant(&*self);
        }
        let ghost s = self.bytes();
        let ghost from = self.position();
        let ghost line0 = self.line();
        let ghost fuel0 = (s.len() + 1) as nat;
        let ghost mut fuel = fuel0;
        let ghost mut prefix: Seq<(TokenType, int, int)> = Seq::empty();
        let mut tokens: Vec<Token<'a>> = Vec::new();
        proof {
            if all_ascii(s) {
                lemma_ascii_source_fits(*self);
            }
            assert(token_kinds(tokens@) =~= Seq::<TokenType>::empty());
            assert(token_kinds(tokens@) + scan_kinds(s, from, fuel0) =~= scan_kinds(s, from, fuel0));
            assert(prefix + scan_steps(s, from, fuel0) =~= scan_steps(s, from, fuel0));
            assert(s.subrange(from, from) =~= Seq::<u8>::empty());
        }
        loop
            invariant_except_break
                s.len() - self.position() < fuel,
                token_kinds(tokens@) + scan_kinds(s, self.position(), fuel) == scan_kinds(
                    s,
                    from,
                    fuel0,
                ),
                prefix + scan_steps(s, self.position(), fuel) == scan_steps(s, from, fuel0),
            invariant
                s == self.bytes(),
                s == old(self).bytes(),
                from == old(self).position(),
                line0 == old(self).line(),
                0 <= from <= self.position() <= s.len(),
                all_ascii(s) ==> scan_fits(s, self.position()),
                self.line() == line0 + count_newlines(s.subrange(from, self.position())),
                tokens@.len() == prefix.len(),
                forall|k: int|
                    0 <= k < prefix.len() ==> from <= (#[trigger] prefix[k]).1 <= s.len(),
                forall|k: int|
                    0 <= k < prefix.len() ==> token_of(
                        #[trigger] tokens@[k],
                        s,
                        prefix[k],
                        line0 + count_newlines(s.subrange(from, prefix[k].1)),
                    ),
            ensures
                token_kinds(tokens@) == scan_kinds(s, from, fuel0),
                prefix == scan_steps(s, from, fuel0),
            decreases fuel,
        {
            proof {
                use_type_invariant(&*self);
                lemma_scan_bounds(s, self.position());
                lemma_token_has_no_newline(s, self.position());
            }
            if !self.can_scan_token() {
                return None;
            }
            let ghost before = *self;
            let ghost step = scan(s, before.position());
            let token = self.scan_token();
            proof {
                use_type_invariant(&*self);
                if all_ascii(s) {
                    lemma_ascii_source_fits(*self);
                }
                lemma_count_newlines_split(s, from, before.position(), step.1);
                lemma_count_newlines_split(s, from, step.1, step.2);
            }
            let ghost kinds = token_kinds(tokens@);
            let ghost rest = scan_kinds(s, before.position(), fuel);
            let ghost steps_rest = scan_steps(s, before.position(), fuel);
            let is_eof = token.t_type == TokenType::Eof;
            tokens.push(token);
            proof {
                prefix = prefix.push(step);
            }
            assert(token_kinds(tokens@) =~= kinds.push(token.t_type));
            if is_eof {
                assert(rest =~= seq![TokenType::Eof]);
                assert(token_kinds(tokens@) =~= kinds + rest);
                assert(steps_rest =~= seq![step]);
                break;
            }
            proof {
                let tail = scan_kinds(s, self.position(), (fuel - 1) as nat);
                assert(rest =~= seq![token.t_type] + tail);
                assert(kinds + rest =~= kinds.push(token.t_type) + tail);
                let steps_tail = scan_steps(s, self.position(), (fuel - 1) as nat);
                assert(steps_rest =~= seq![step] + steps_tail);
                assert(prefix.drop_last() + steps_rest =~= prefix + steps_tail);
                fuel = (fuel - 1) as nat;
            }
        }
        Some(tokens)
    }

    /// Compiles the rest of the source: scans every token up to the end of input, as
    /// `scan_all` does, and succeeds exactly when none of them is an error token. From the
    /// start of the source, each token's line is 1 plus the line feeds before the token.
    /// Gives the tokens and the result; `None` when a token cannot be cut out of the source.
    /// The chunk is left as it is.
    pub fn compile(&mut self, chunk: &mut Chunk) -> (r: Option<(Vec<Token<'a>>, bool)>)
        ensures
            *final(chunk) == *old(chunk),
            r matches Some((ts, ok)) ==> {
                let kinds = scan_kinds(
                    old(self).bytes(),
                    old(self).position(),
                    (old(self).bytes().len() + 1) as nat,
                );
                &&& token_kinds(ts@) == kinds
                &&& ok == !kinds.contains(TokenType::Error)
            },
            old(self).position() == 0 ==> (r matches Some((ts, ok)) ==> ok == !source_tokens(
                old(self).bytes(),
            ).contains(TokenType::Error)),
            r matches Some((ts, ok)) ==> tokens_of(
                ts@,
                old(self).bytes(),
                old(self).position(),
                old(self).line(),
            ),
            old(self).position() == 0 ==> (r matches Some((ts, ok)) ==> tokens_of(
                ts@,
                old(self).bytes(),
                0,
                1,
            )),
            all_ascii(old(self).bytes()) ==> r is Some,
    {
        proof {
            use_type_invariant(&*self);
        }
        let tokens = match self.scan_all() {
            Some(tokens) => tokens,
            None => return None,
        };
        let mut kinds: Vec<TokenType> = Vec::new();
        let mut i: usize = 0;
        while i < tokens.len()
            invariant
                i <= tokens@.len(),
                kinds@ == token_kinds(tokens@).subrange(0, i as int),
            decreases tokens@.len() - i,
        {
            kinds.push(tokens[i].t_type);
            assert(kinds@ =~= token_kinds(tokens@).subrange(0, i + 1));
            i = i + 1;
        }
        assert(kinds@ =~= token_kinds(tokens@));
        let ok = no_error_tokens(&kinds);
        Some((tokens, ok))
    }

    /// Scans the next token when it can be cut out of the source, as `scan_token` does;
    /// otherwise gives `None` and leaves the scanner as it was.
    pub fn try_scan_token(&mut self) -> (token: Option<Token<'a>>)
        ensures
            token is None <==> !scan_fits(old(self).bytes(), old(self).position()),
            token is None ==> *final(self) == *old(self),
            token matches Some(tok) ==> scanned(*old(self), *final(self), tok),
    {
        if self.can_scan_token() {
            Some(self.scan_token())
        } else {
            None
        }
    }

    /// The scanner's positions lie within the source, in order, and the line is at least 1
    /// and at most one more than the bytes consumed.
    pub proof fn lemma_wf_bounds(&self)
        requires
            self.wf(),
        ensures
            0 <= self.token_start() <= self.position() <= self.bytes().len(),
            self.bytes().len() < usize::MAX,
            1 <= self.line() <= self.position() + 1,
    {
    }

    /// Whether `scan_token` can cut the next token out of the source; scanning a token whose
    /// ends fall inside a multi-byte character is not possible.
    pub fn can_scan_token(&self) -> (r: bool)
        ensures
            r == scan_fits(self.bytes(), self.position()),
    {
        proof {
            use_type_invariant(&*self);
        }
        let mut probe = Compiler {
            source: self.source,
            start: self.start,
            current: self.current,
            line: self.line,
        };
        let t = probe.scan_span();
        t == TokenType::Error || (self.source.is_char_boundary(probe.start)
            && self.source.is_char_boundary(probe.current))
    }

    /// Skips whitespace, then moves over the next token, leaving `start` at its first byte and
    /// `current` past its last; returns its kind.
    fn scan_span(&mut self) -> (t: TokenType)
        ensures
            final(self).source == old(self).source,
            (t, final(self).start as int, final(self).current as int) == scan(
                old(self).bytes(),
                old(self).current as int,
            ),
            final(self).line == old(self).line + count_newlines(
                old(self).bytes().subrange(old(self).current as int, final(self).start as int),
            ),
    {
        self.skip_whitespace();
        proof {
            use_type_invariant(&*self);
        }
        self.start = self.current;
        if self.is_at_end() {
            return TokenType::Eof;
        }
        let c = self.advance();
        match token_start(c, is_alphabetic(c)) {
            TokenStart::Number => {
                self.number();
                TokenType::Number
            },
            TokenStart::Identifier => self.identifier(),
            TokenStart::Single(t) => t,
        }
    }

    fn is_at_end(&self) -> (r: bool)
        ensures
            r == (self.current >= self.bytes().len()),
    {
        proof {
            use_type_invariant(&*self);
        }
        self.current >= self.source.len()
    }

    /// Consumes the current byte and returns it as a character.
    fn advance(&mut self) -> (c: char)
        requires
            old(self).current < old(self).bytes().len(),
        ensures
            c == old(self).bytes()[old(self).current as int] as char,
            final(self).source == old(self).source,
            final(self).start == old(self).start,
            final(self).current == old(self).current + 1,
            final(self).line == old(self).line,
    {
        proof {
            use_type_invariant(&*self);
        }
        let c = self.source.as_bytes()[self.current] as char;
        self.current = self.current + 1;
        c
    }

    /// The current byte as a character, or '\0' at the end.
    fn peek(&self) -> (c: char)
        ensures
            c == if self.current < self.bytes().len() {
                self.bytes()[self.current as int] as char
            } else {
                '\0'
            },
    {
        if self.is_at_end() {
            return '\0';
        }
        self.source.as_bytes()[self.current] as char
    }

    /// The byte after the current one as a character, or '\0' past the end.
    fn peek_next(&self) -> (c: char)
        ensures
            c == if self.current + 1 < self.bytes().len() {
                self.bytes()[self.current + 1] as char
            } else {
                '\0'
            },
    {
        proof {
            use_type_invariant(&*self);
        }
        if self.current + 1 >= self.source.len() {
            return '\0';
        }
        self.source.as_bytes()[self.current + 1] as char
    }

    /// Skips spaces, carriage returns, tabs and line feeds, counting the line feeds.
    fn skip_whitespace(&mut self)
        ensures
            final(self).source == old(self).source,
            final(self).start == old(self).start,
            final(self).current == skip_spaces(old(self).bytes(), old(self).current as int),
            final(self).line == old(self).line + count_newlines(
                old(self).bytes().subrange(old(self).current as int, final(self).current as int),
            ),
    {
        proof {
            use_type_invariant(&*self);
        }
        let ghost s = self.bytes();
        let ghost from = self.current as int;
        assert(s.subrange(from, from) =~= Seq::<u8>::empty());
        loop
            invariant
                self.source == old(self).source,
                self.start == old(self).start,
                from == old(self).current,
                from <= self.current,
                skip_spaces(s, self.current as int) == skip_spaces(s, from),
                s == self.bytes(),
                self.line == old(self).line + count_newlines(s.subrange(from, self.current as int)),
            ensures
                self.source == old(self).source,
                self.start == old(self).start,
                self.current == skip_spaces(s, from),
                self.line == old(self).line + count_newlines(s.subrange(from, self.current as int)),
            decreases s.len() - self.current,
        {
            proof {
                use_type_invariant(&*self);
            }
            if self.is_at_end() {
                break;
            }
            let c = self.peek();
            proof {
                assert(s.subrange(from, self.current + 1).drop_last() =~= s.subrange(
                    from,
                    self.current as int,
                ));
            }
            if c == ' ' || c == '\r' || c == '\t' {
                self.advance();
            } else if c == '\n' {
                self.advance();
                self.line = self.line + 1;
            } else {
                break;
            }
        }
    }

    /// A token of kind `t_type` whose text is the source between `start` and `current`.
    fn make_token(&self, t_type: TokenType) -> (token: Token<'a>)
        requires
            is_char_boundary(self.bytes(), self.start as int),
            is_char_boundary(self.bytes(), self.current as int),
        ensures
            token.t_type == t_type,
            token.lexeme.spec_bytes() == self.bytes().subrange(
                self.start as int,
                self.current as int,
            ),
            token.line == self.line,
    {
        proof {
            use_type_invariant(&*self);
        }
        let ghost s = self.bytes();
        let (_, tail) = self.source.split_at(self.start);
        proof {
            broadcast use vstd::utf8::encode_utf8_valid_utf8;

            lemma_boundary_in_tail(s, self.start as int, self.current as int);
        }
        let (text, _) = tail.split_at(self.current - self.start);
        assert(text.spec_bytes() =~= s.subrange(self.start as int, self.current as int));
        Token { t_type, lexeme: text, line: self.line }
    }

    /// An error token carrying `message` as its text.
    fn error_token(&self, message: &'static str) -> (token: Token<'a>)
        ensures
            token.t_type == TokenType::Error,
            token.lexeme == message,
            token.line == self.line,
    {
        Token { t_type: TokenType::Error, lexeme: message, line: self.line }
    }

    /// Moves over the rest of a number literal: digits, and a fractional part when a '.' is
    /// followed by a digit.
    fn number(&mut self)
        ensures
            final(self).source == old(self).source,
            final(self).start == old(self).start,
            final(self).line == old(self).line,
            final(self).current == number_end(old(self).bytes(), old(self).current as int),
    {
        self.digits();
        if self.peek() == '.' && is_ascii_digit(self.peek_next()) {
            self.advance();
            self.digits();
        }
    }

    /// Moves over a run of ASCII digits.
    fn digits(&mut self)
        ensures
            final(self).source == old(self).source,
            final(self).start == old(self).start,
            final(self).line == old(self).line,
            final(self).current == digits_end(old(self).bytes(), old(self).current as int),
    {
        let ghost s = self.bytes();
        let ghost from = self.current as int;
        while is_ascii_digit(self.peek())
            invariant
                self.source == old(self).source,
                self.start == old(self).start,
                s == self.bytes(),
                from == old(self).current,
                from <= self.current,
                self.line == old(self).line,
                digits_end(s, self.current as int) == digits_end(s, from),
            decreases s.len() - self.current,
        {
            self.advance();
        }
    }

    /// Moves over the rest of an identifier and says whether it is a keyword.
    fn identifier(&mut self) -> (t: TokenType)
        requires
            old(self).start < old(self).current,
        ensures
            final(self).source == old(self).source,
            final(self).start == old(self).start,
            final(self).line == old(self).line,
            final(self).current == identifier_end(old(self).bytes(), old(self).current as int),
            t == keyword_type(
                old(self).bytes().subrange(old(self).start as int, final(self).current as int),
            ),
    {
        let ghost s = self.bytes();
        let ghost from = self.current as int;
        while !self.is_at_end() && identifier_continues(self.peek(), is_alphanumeric(self.peek()))
            invariant
                self.source == old(self).source,
                self.start == old(self).start,
                s == self.bytes(),
                from == old(self).current,
                from <= self.current,
                self.line == old(self).line,
                identifier_end(s, self.current as int) == identifier_end(s, from),
            decreases s.len() - self.current,
        {
            self.advance();
        }
        if self.text_is(&[112u8, 114, 105, 110, 116]) {
            TokenType::Print
        } else if self.text_is(&[110u8, 105, 108]) {
            TokenType::Nil
        } else if self.text_is(&[116u8, 114, 117, 101]) {
            TokenType::True
        } else if self.text_is(&[102u8, 97, 108, 115, 101]) {
            TokenType::False
        } else {
            TokenType::Identifier
        }
    }

    /// Whether the text between `start` and `current` is `word`.
    fn text_is(&self, word: &[u8]) -> (r: bool)
        ensures
            r == (self.bytes().subrange(self.start as int, self.current as int) == word@),
    {
        proof {
            use_type_invariant(&*self);
        }
        let bytes = self.source.as_bytes();
        let n = self.current - self.start;
        if n != word.len() {
            return false;
        }
        let mut i: usize = 0;
        while i < n
            invariant
                i <= n,
                n == word@.len(),
                n == self.current - self.start,
                bytes@ == self.bytes(),
                forall|j: int| 0 <= j < i ==> bytes@[self.start + j] == word@[j],
            decreases n - i,
        {
            proof {
                use_type_invariant(&*self);
            }
            if bytes[self.start + i] != word[i] {
                return false;
            }
            i = i + 1;
        }
        assert(self.bytes().subrange(self.start as int, self.current as int) =~= word@);
        true
    }
}

} // verus!
