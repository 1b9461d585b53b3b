//! A lexer for a little lisp-like language.
//!
//! A `Lexer` takes an ASCII string and hands out, one call at a time, the
//! tokens it recognises in it: `(`, `)` and identifiers. Each token keeps the
//! slice of the input it came from and the span of byte offsets where that
//! slice lies. The lexer and its tokens borrow the input and cannot outlive it.
//!
//! The scan is modelled by `step`, which says where the next token lies for a
//! given text and cursor; `Lexer::next` is proved to follow it.

use vstd::prelude::*;
use vstd::string::StringSliceAdditionalSpecFns;
use vstd::utf8::{encode_scalar, encode_utf8, has_width_1_encoding, is_ascii_chars};

verus! {

broadcast use vstd::string::is_ascii_spec_bytes;

// ---------------------------------------------------------------------------
// The model of a scan
// ---------------------------------------------------------------------------

/// The only character the lexer skips between tokens.
pub open spec fn is_space(c: char) -> bool {
    c == ' '
}

/// A character that can continue an identifier: an ASCII letter.
pub open spec fn is_letter(c: char) -> bool {
    ('a' <= c && c <= 'z') || ('A' <= c && c <= 'Z')
}

/// The first position at or after `i` that does not hold a space (or the end of `s`).
pub open spec fn skip_spaces(s: Seq<char>, i: nat) -> nat
    decreases s.len() - i,
{
    if i < s.len() && is_space(s[i as int]) {
        skip_spaces(s, (i + 1) as nat)
    } else {
        i
    }
}

/// The first position at or after `i` that does not hold a letter (or the end of `s`).
pub open spec fn letters_end(s: Seq<char>, i: nat) -> nat
    decreases s.len() - i,
{
    if i < s.len() && is_letter(s[i as int]) {
        letters_end(s, (i + 1) as nat)
    } else {
        i
    }
}

/// The three classes of token.
pub enum Kind {
    LeftParen,
    RightParen,
    Identifier,
}

/// One step of the scan: the class of the token found, its span `[start, end)`,
/// and the cursor after it.
pub struct Step {
    pub kind: Kind,
    pub start: nat,
    pub end: nat,
    pub next: nat,
}

/// What one call of `Lexer::next` finds in `s` with the cursor at `off`.
///
/// Spaces are skipped; if that reaches the end there is no token. A `(` or `)`
/// is a token of its own and the cursor moves past it. Anything else starts an
/// identifier, the run of letters there (possibly empty), and the cursor then
/// moves one character past the identifier, dropping that character, but never
/// past the end of the text.
pub open spec fn step(s: Seq<char>, off: nat) -> Option<Step> {
    let start = skip_spaces(s, off);
    if start >= s.len() {
        None
    } else if s[start as int] == '(' {
        Some(Step { kind: Kind::LeftParen, start, end: (start + 1) as nat, next: (start + 1) as nat })
    } else if s[start as int] == ')' {
        Some(Step { kind: Kind::RightParen, start, end: (start + 1) as nat, next: (start + 1) as nat })
    } else {
        let end = letters_end(s, start);
        Some(
            Step {
                kind: Kind::Identifier,
                start,
                end,
                next: if end < s.len() { (end + 1) as nat } else { s.len() },
            },
        )
    }
}

// ---------------------------------------------------------------------------
// Laws of the scan
// ---------------------------------------------------------------------------

proof fn lemma_skip_spaces_bounds(s: Seq<char>, i: nat)
    requires
        i <= s.len(),
    ensures
        i <= skip_spaces(s, i) <= s.len(),
        skip_spaces(s, i) < s.len() ==> !is_space(s[skip_spaces(s, i) as int]),
    decreases s.len() - i,
{
    if i < s.len() && is_space(s[i as int]) {
        lemma_skip_spaces_bounds(s, (i + 1) as nat);
    }
}

proof fn lemma_letters_end_bounds(s: Seq<char>, i: nat)
    requires
        i <= s.len(),
    ensures
        i <= letters_end(s, i) <= s.len(),
    decreases s.len() - i,
{
    if i < s.len() && is_letter(s[i as int]) {
        lemma_letters_end_bounds(s, (i + 1) as nat);
    }
}

/// Tokens come in order and never overlap. A token found from cursor `off`
/// starts at or after `off` and lies within the text; the cursor then moves
/// past its start and not before its end. So the token found after it starts
/// strictly after this one starts, and no earlier than this one ends.
pub proof fn lemma_tokens_advance(s: Seq<char>, off: nat)
    requires
        off <= s.len(),
    ensures
        step(s, off) matches Some(a) ==> {
            &&& off <= a.start <= a.end <= s.len()
            &&& a.start < a.next <= s.len()
            &&& a.end <= a.next
            &&& (step(s, a.next) matches Some(b) ==> a.end <= b.start && a.start < b.start)
        },
{
    lemma_skip_spaces_bounds(s, off);
    let start = skip_spaces(s, off);
    if start < s.len() {
        lemma_letters_end_bounds(s, start);
        let a = step(s, off)->Some_0;
        lemma_skip_spaces_bounds(s, a.next);
    }
}

/// Once no token is found, none is found again: `Lexer::next` then leaves the
/// cursor at the end of the text, and from there no token is found.
pub proof fn lemma_exhausted_stays_exhausted(s: Seq<char>, off: nat)
    requires
        step(s, off) is None,
    ensures
        step(s, s.len()) is None,
{
}

/// A delimiter token is one character wide, and its text is exactly `(` or `)`.
pub proof fn lemma_delimiters_are_one_char(s: Seq<char>, off: nat)
    requires
        off <= s.len(),
    ensures
        step(s, off) matches Some(a) ==> {
            &&& (a.kind is LeftParen ==> a.end == a.start + 1 && s.subrange(
                a.start as int,
                a.end as int,
            ) == seq!['('])
            &&& (a.kind is RightParen ==> a.end == a.start + 1 && s.subrange(
                a.start as int,
                a.end as int,
            ) == seq![')'])
        },
{
    lemma_skip_spaces_bounds(s, off);
    if let Some(a) = step(s, off) {
        if a.kind is LeftParen {
            assert(s.subrange(a.start as int, a.end as int) =~= seq!['(']);
        }
        if a.kind is RightParen {
            assert(s.subrange(a.start as int, a.end as int) =~= seq![')']);
        }
    }
}

/// The first byte of a character's UTF-8 encoding is below 128 exactly when
/// the character is ASCII, and then it is the only byte.
proof fn lemma_first_byte(v: u32)
    ensures
        has_width_1_encoding(v) ==> encode_scalar(v).len() == 1 && encode_scalar(v)[0] < 128,
        !has_width_1_encoding(v) ==> encode_scalar(v).len() > 0 && encode_scalar(v)[0] >= 128,
{
    assert(((v & 0x7Fu32) as u8) < 128u8) by (bit_vector);
    let y2 = ((v >> 6) & 0x1F) as u8;
    let y3 = ((v >> 12) & 0x0F) as u8;
    let y4 = ((v >> 18) & 0x7) as u8;
    assert((0xC0u8 | y2) >= 128u8) by (bit_vector);
    assert((0xE0u8 | y3) >= 128u8) by (bit_vector);
    assert((0xF0u8 | y4) >= 128u8) by (bit_vector);
}

/// A character's value is the same as a `u32` and as an integer.
proof fn lemma_char_range(c: char)
    ensures
        (c as u32) as int == c as int,
{
}

proof fn lemma_ascii_chars_iff_small_bytes(s: Seq<char>)
    ensures
        is_ascii_chars(s) <==> forall|i: int|
            0 <= i < encode_utf8(s).len() ==> #[trigger] encode_utf8(s)[i] < 128,
    decreases s.len(),
{
    if s.len() > 0 {
        let c = s[0];
        let rest = s.drop_first();
        let e = encode_scalar(c as u32);
        let er = encode_utf8(rest);
        lemma_ascii_chars_iff_small_bytes(rest);
        lemma_first_byte(c as u32);
        assert(encode_utf8(s) == e + er);
        assert(is_ascii_chars(s) <==> ('\0' <= c <= '\u{7f}' && is_ascii_chars(rest))) by {
            if '\0' <= c <= '\u{7f}' && is_ascii_chars(rest) {
                assert forall|i: int| 0 <= i < s.len() implies '\0' <= #[trigger] s[i] <= '\u{7f}' by {
                    if i > 0 {
                        assert(s[i] == rest[i - 1]);
                    }
                }
            }
            if is_ascii_chars(s) {
                assert forall|i: int| 0 <= i < rest.len() implies '\0' <= #[trigger] rest[i] <= '\u{7f}' by {
                    assert(rest[i] == s[i + 1]);
                }
            }
        }
        let all = encode_utf8(s);
        if is_ascii_chars(s) {
            assert forall|i: int| 0 <= i < all.len() implies #[trigger] all[i] < 128 by {
                if i > 0 {
                    assert(all[i] == er[i - 1]);
                }
            }
        }
        if forall|i: int| 0 <= i < all.len() ==> #[trigger] all[i] < 128 {
            assert(all[0] == e[0]);
            assert forall|i: int| 0 <= i < er.len() implies #[trigger] er[i] < 128 by {
                assert(er[i] == all[i + e.len()]);
            }
            lemma_char_range(c);
        }
    }
}

/// A string is ASCII exactly when every byte of it is below 128. So creating a
/// lexer fails with `NonAsciiInput` on an input that holds a byte of 128 or
/// more, and succeeds on any other.
pub proof fn lemma_ascii_iff_bytes_below_128(input: &str)
    ensures
        is_ascii_chars(input@) <==> forall|i: int|
            0 <= i < input.spec_bytes().len() ==> #[trigger] input.spec_bytes()[i] < 128,
{
    lemma_ascii_chars_iff_small_bytes(input@);
    assert(input.spec_bytes() == encode_utf8(input@));
}

// ---------------------------------------------------------------------------
// Tokens
// ---------------------------------------------------------------------------

/// The half-open range `[start, end)` of byte offsets where a token was found.
#[derive(Debug)]
pub struct Span {
    start: usize,
    end: usize,
}

impl Span {
    pub closed spec fn spec_start(&self) -> nat {
        self.start as nat
    }

    pub closed spec fn spec_end(&self) -> nat {
        self.end as nat
    }

    /// The offset of the token's first byte.
    pub fn start(&self) -> (r: usize)
        ensures
            r == self.spec_start(),
    {
        self.start
    }

    /// The offset just past the token's last byte.
    pub fn end(&self) -> (r: usize)
        ensures
            r == self.spec_end(),
    {
        self.end
    }
}

/// The name of an identifier, borrowed from the input.
#[derive(Debug)]
pub struct Ident<'a>(&'a str);

impl<'a> View for Ident<'a> {
    type V = Seq<char>;

    closed spec fn view(&self) -> Seq<char> {
        self.0@
    }
}

impl<'a> Ident<'a> {
    /// The identifier's text.
    pub fn as_str(&self) -> (r: &'a str)
        ensures
            r@ == self@,
    {
        self.0
    }
}

#[derive(Debug)]
pub enum TokenType<'a> {
    LeftParen,
    RightParen,
    Identifier(Ident<'a>),
}

impl<'a> TokenType<'a> {
    /// The class of this token type.
    pub open spec fn kind(&self) -> Kind {
        match self {
            TokenType::LeftParen => Kind::LeftParen,
            TokenType::RightParen => Kind::RightParen,
            TokenType::Identifier(_) => Kind::Identifier,
        }
    }
}

#[derive(Debug)]
pub struct Token<'a> {
    /// The slice of the input string that this token was read from
    source: &'a str,
    /// The type of token that this is
    token: TokenType<'a>,
    /// The starting and ending offsets of this token
    span: Span,
}

impl<'a> Token<'a> {
    pub closed spec fn spec_source(&self) -> Seq<char> {
        self.source@
    }

    pub closed spec fn spec_token(&self) -> &TokenType<'a> {
        &self.token
    }

    pub closed spec fn spec_span(&self) -> &Span {
        &self.span
    }

    /// This token is the one that `st` describes in the text `s`: same class,
    /// same span, its source is the text under the span, and an identifier's
    /// name is that same text.
    pub open spec fn describes(&self, s: Seq<char>, st: Step) -> bool {
        &&& self.spec_token().kind() == st.kind
        &&& self.spec_span().spec_start() == st.start
        &&& self.spec_span().spec_end() == st.end
        &&& self.spec_source() == s.subrange(st.start as int, st.end as int)
        &&& (self.spec_token() matches TokenType::Identifier(id) ==> id@ == self.spec_source())
    }

    /// The slice of the input this token was read from.
    pub fn source(&self) -> (r: &'a str)
        ensures
            r@ == self.spec_source(),
    {
        self.source
    }

    /// The type of this token.
    pub fn kind(&self) -> (r: &TokenType<'a>)
        ensures
            r == self.spec_token(),
    {
        &self.token
    }

    /// Where this token lies in the input.
    pub fn span(&self) -> (r: &Span)
        ensures
            r == self.spec_span(),
    {
        &self.span
    }
}

const SPACE: u8 = 32;
const OPEN_PAREN: u8 = 40;
const CLOSE_PAREN: u8 = 41;

/// Whether the ASCII byte `b` is a letter.
fn is_letter_byte(b: u8) -> (r: bool)
    ensures
        r <==> (97 <= b && b <= 122) || (65 <= b && b <= 90),
{
    (97 <= b && b <= 122) || (65 <= b && b <= 90)
}

/// An ASCII character and the byte that encodes it have the same value.
proof fn lemma_ascii_byte(c: char, b: u8)
    requires
        '\0' <= c <= '\u{7f}',
        c as u8 == b,
    ensures
        c as u32 == b as u32,
{
}

// ---------------------------------------------------------------------------
// The lexer
// ---------------------------------------------------------------------------

/// The one way in which creating a lexer fails.
#[derive(Debug, PartialEq, Eq, Structural)]
pub enum LexError {
    /// The input holds a character outside ASCII.
    NonAsciiInput,
}

/// A lexer that takes an input string and returns the tokens of that input.
///
/// It borrows the input for the lifetime `'a`; neither it nor the tokens it
/// produces may outlive the string.
pub struct Lexer<'a> {
    /// The input string that we are lexing tokens from
    input: &'a str,
    /// How far into the input has been lexed so far
    offset: usize,
}

impl<'a> Lexer<'a> {
    #[verifier::type_invariant]
    spec fn inv(&self) -> bool {
        &&& self.input.is_ascii()
        &&& self.offset <= self.input@.len()
    }

    /// The text being lexed.
    pub closed spec fn text(&self) -> Seq<char> {
        self.input@
    }

    /// The cursor: how far into the text has been lexed.
    pub closed spec fn cursor(&self) -> nat {
        self.offset as nat
    }

    /// Creates a lexer over `input` with its cursor at the start, or fails
    /// with `NonAsciiInput` if `input` holds a character outside ASCII.
    pub fn new(input: &'a str) -> (r: Result<Lexer<'a>, LexError>)
        ensures
            r is Ok <==> is_ascii_chars(input@),
            r matches Ok(lx) ==> lx.text() == input@ && lx.cursor() == 0,
            r matches Err(e) ==> e == LexError::NonAsciiInput,
    {
        if !input.is_ascii() {
            return Err(LexError::NonAsciiInput);
        }
        Ok(Lexer { input, offset: 0 })
    }

    /// Produces the next token, or `None` once the input is used up.
    ///
    /// The token is the one that `step` finds from the cursor, and the cursor
    /// moves to where `step` says. When there is no token the cursor is left at
    /// the end of the text, where `step` finds none again.
    pub fn next(&mut self) -> (r: Option<Token<'a>>)
        ensures
            final(self).text() == old(self).text(),
            match step(old(self).text(), old(self).cursor()) {
                None => r is None && final(self).cursor() == old(self).text().len(),
                Some(st) => r matches Some(t) && t.describes(old(self).text(), st)
                    && final(self).cursor() == st.next,
            },
    {
        proof {
            use_type_invariant(&*self);
        }
        let input = self.input;
        let ghost s = input@;
        let bytes = input.as_bytes();
        let len = bytes.len();
        proof {
            vstd::string::is_ascii_spec_bytes(input);
        }
        let ghost first = self.offset as nat;
        let mut off = self.offset;
        if off >= len {
            return None;
        }
        // Skip plain spaces; nothing else counts as whitespace.
        while off < len && bytes[off] == SPACE
            invariant
                input@ == s,
                is_ascii_chars(s),
                len == s.len() == bytes@.len(),
                forall|i: int| 0 <= i < s.len() ==> bytes@[i] == s[i] as u8,
                first <= off <= len,
                skip_spaces(s, first) == skip_spaces(s, off as nat),
            decreases len - off,
        {
            proof {
                lemma_ascii_byte(s[off as int], bytes@[off as int]);
            }
            off += 1;
        }
        if off >= len {
            self.offset = off;
            return None;
        }
        let b = bytes[off];
        proof {
            lemma_ascii_byte(s[off as int], b);
        }
        assert(skip_spaces(s, off as nat) == off);
        if b == OPEN_PAREN || b == CLOSE_PAREN {
            let source = input.substring_ascii(off, off + 1);
            let token = if b == OPEN_PAREN {
                TokenType::LeftParen
            } else {
                TokenType::RightParen
            };
            let span = Span { start: off, end: off + 1 };
            self.offset = off + 1;
            return Some(Token { source, token, span });
        }
        // Anything else is read as an identifier: the run of letters here.
        let mut end = off;
        while end < len && is_letter_byte(bytes[end])
            invariant
                input@ == s,
                is_ascii_chars(s),
                input.is_ascii(),
                len == s.len() == bytes@.len(),
                forall|i: int| 0 <= i < s.len() ==> bytes@[i] == s[i] as u8,
                off <= end <= len,
                letters_end(s, off as nat) == letters_end(s, end as nat),
            decreases len - end,
        {
            proof {
                lemma_ascii_byte(s[end as int], bytes@[end as int]);
            }
            end += 1;
        }
        if end < len {
            proof {
                lemma_ascii_byte(s[end as int], bytes@[end as int]);
            }
        }
        assert(letters_end(s, end as nat) == end);
        let source = input.substring_ascii(off, end);
        let token = TokenType::Identifier(Ident(source));
        let span = Span { start: off, end };
        // The character right after an identifier is dropped.
        self.offset = if end < len {
            end + 1
        } else {
            len
        };
        Some(Token { source, token, span })
    }
}

} // verus!
