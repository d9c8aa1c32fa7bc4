//! The tokenizer for the Grit language, together with its mathematical
//! model: a set of spec functions over the input character sequence that
//! say exactly which token starts at a given scan position, and how the
//! scan position and the line/column counters move past it.

use vstd::prelude::*;
use vstd::string::{StrSliceExecFns, StringExecFns};
use super::token::{tokens_view, SpecToken, SpecTokenKind, Token, TokenType};
use crate::text::{push_usize_text, spec_nat_text};

verus! {

/// A lexical error: an unexpected character, with its 1-based position.
#[derive(Debug, PartialEq)]
pub struct LexError {
    pub character: char,
    pub line: usize,
    pub column: usize,
}

impl Clone for LexError {
    /// Clones the error; the clone equals the original.
    fn clone(&self) -> (res: Self)
        ensures
            res == *self,
    {
        LexError { character: self.character, line: self.line, column: self.column }
    }
}

/// Whether `c` is an ASCII decimal digit.
pub open spec fn is_digit_char(c: char) -> bool {
    '0' <= c && c <= '9'
}

/// What `char::is_alphabetic` returns: the result depends on the
/// character alone.
pub uninterp spec fn unicode_alphabetic(c: char) -> bool;

/// What `char::is_numeric` returns: the result depends on the
/// character alone.
pub uninterp spec fn unicode_numeric(c: char) -> bool;

/// What `char::is_whitespace` returns: the result depends on the
/// character alone.
pub uninterp spec fn unicode_whitespace(c: char) -> bool;

/// Whether `c` may continue an identifier: alphanumeric per Unicode.
/// `char::is_alphanumeric` is documented as alphabetic-or-numeric.
pub open spec fn unicode_alphanumeric(c: char) -> bool {
    unicode_alphabetic(c) || unicode_numeric(c)
}

/// Relies on char::is_alphabetic; the result depends on the character alone.
#[verifier::external_body]
fn char_is_alphabetic(c: char) -> (r: bool)
    ensures
        r == unicode_alphabetic(c),
{
    c.is_alphabetic()
}

/// Relies on char::is_alphanumeric, documented as is_alphabetic or is_numeric.
#[verifier::external_body]
fn char_is_alphanumeric(c: char) -> (r: bool)
    ensures
        r == (unicode_alphabetic(c) || unicode_numeric(c)),
{
    c.is_alphanumeric()
}

/// Relies on char::is_whitespace; the result depends on the character alone.
#[verifier::external_body]
fn char_is_whitespace(c: char) -> (r: bool)
    ensures
        r == unicode_whitespace(c),
{
    c.is_whitespace()
}

/// Whether `c` is an ASCII decimal digit.
fn is_digit(c: char) -> (r: bool)
    ensures
        r == is_digit_char(c),
{
    '0' <= c && c <= '9'
}

/// The line/column position after consuming one character.
pub open spec fn adv_pos(line: int, col: int, c: char) -> (int, int) {
    if c == '\n' {
        (line + 1, 1)
    } else {
        (line, col + 1)
    }
}

/// The line/column position after consuming the characters `s[i..j]`.
pub open spec fn adv_span(s: Seq<char>, i: int, j: int, line: int, col: int) -> (int, int)
    decreases j - i,
{
    if i >= j {
        (line, col)
    } else {
        let lc = adv_pos(line, col, s[i]);
        adv_span(s, i + 1, j, lc.0, lc.1)
    }
}

/// The first position at or after `i` that does not hold ordinary
/// whitespace (whitespace other than a newline).
pub open spec fn ws_end(s: Seq<char>, i: int) -> int
    decreases s.len() - i,
{
    if 0 <= i < s.len() && unicode_whitespace(s[i]) && s[i] != '\n' {
        ws_end(s, i + 1)
    } else {
        i
    }
}

/// The first position at or after `i` that cannot continue an identifier.
pub open spec fn ident_end(s: Seq<char>, i: int) -> int
    decreases s.len() - i,
{
    if 0 <= i < s.len() && (unicode_alphanumeric(s[i]) || s[i] == '_') {
        ident_end(s, i + 1)
    } else {
        i
    }
}

/// The first position at or after `i` that does not hold an ASCII digit.
pub open spec fn digits_end(s: Seq<char>, i: int) -> int
    decreases s.len() - i,
{
    if 0 <= i < s.len() && is_digit_char(s[i]) {
        digits_end(s, i + 1)
    } else {
        i
    }
}

/// The numeric value of the digit character `c`.
pub open spec fn digit_val(c: char) -> int {
    c as int - '0' as int
}

/// The value of the decimal digits `s[i..j]`, most significant first.
pub open spec fn digits_val(s: Seq<char>, i: int, j: int) -> int
    decreases j - i,
{
    if j <= i {
        0
    } else {
        digits_val(s, i, j - 1) * 10 + digit_val(s[j - 1])
    }
}

/// The characters that the escape sequence backslash-`c` stands for:
/// the recognized escapes decode to one character, any other pair is
/// passed through as the two characters themselves.
pub open spec fn escape_char(c: char) -> Seq<char> {
    if c == 'n' {
        seq!['\n']
    } else if c == 't' {
        seq!['\t']
    } else if c == 'r' {
        seq!['\r']
    } else if c == '\\' {
        seq!['\\']
    } else if c == '\'' {
        seq!['\'']
    } else {
        seq!['\\', c]
    }
}

/// The result of scanning a string literal's body: the decoded text and
/// the position just past the literal.
pub ghost struct SpecStrScan {
    pub text: Seq<char>,
    pub end: int,
}

/// Scans a string literal's body from `i` (just past the opening quote):
/// decodes escapes, stops past an unescaped closing quote or at the end
/// of the input.
pub open spec fn str_scan(s: Seq<char>, i: int) -> SpecStrScan
    decreases s.len() - i,
{
    if !(0 <= i < s.len()) {
        SpecStrScan { text: Seq::empty(), end: i }
    } else if s[i] == '\'' {
        SpecStrScan { text: Seq::empty(), end: i + 1 }
    } else if s[i] == '\\' {
        if i + 1 >= s.len() {
            SpecStrScan { text: Seq::empty(), end: i + 1 }
        } else {
            let rest = str_scan(s, i + 2);
            SpecStrScan { text: escape_char(s[i + 1]) + rest.text, end: rest.end }
        }
    } else {
        let rest = str_scan(s, i + 1);
        SpecStrScan { text: seq![s[i]] + rest.text, end: rest.end }
    }
}

/// Strips leading zero digits, keeping at least one character.
pub open spec fn trim_leading_zeros(d: Seq<char>) -> Seq<char>
    decreases d.len(),
{
    if d.len() > 1 && d[0] == '0' {
        trim_leading_zeros(d.skip(1))
    } else {
        d
    }
}

/// Strips trailing zero digits, possibly to the empty sequence.
pub open spec fn trim_trailing_zeros(d: Seq<char>) -> Seq<char>
    decreases d.len(),
{
    if d.len() > 0 && d[d.len() - 1] == '0' {
        trim_trailing_zeros(d.take(d.len() - 1))
    } else {
        d
    }
}

/// The normalized text of a float literal with integer digits `ip` and
/// fractional digits `fp`: no redundant leading zeros, no trailing
/// fractional zeros, and no dot when the fraction is all zeros.
pub open spec fn normalize_float(ip: Seq<char>, fp: Seq<char>) -> Seq<char> {
    let ipt = trim_leading_zeros(ip);
    let fpt = trim_trailing_zeros(fp);
    if fpt.len() == 0 {
        ipt
    } else {
        ipt + seq!['.'] + fpt
    }
}

/// The token value of the decimal digits `s[i..j]`: their value when it
/// fits in an `i64`, and zero otherwise.
pub open spec fn int_token_val(s: Seq<char>, i: int, j: int) -> i64 {
    if digits_val(s, i, j) <= i64::MAX {
        digits_val(s, i, j) as i64
    } else {
        0
    }
}

/// The keyword kind for the identifier text `w`, or an identifier token.
pub open spec fn keyword_or_ident(w: Seq<char>) -> SpecTokenKind {
    if w == "fn"@ {
        SpecTokenKind::KwFn
    } else if w == "if"@ {
        SpecTokenKind::KwIf
    } else if w == "elif"@ {
        SpecTokenKind::KwElif
    } else if w == "else"@ {
        SpecTokenKind::KwElse
    } else if w == "while"@ {
        SpecTokenKind::KwWhile
    } else if w == "class"@ {
        SpecTokenKind::KwClass
    } else if w == "self"@ {
        SpecTokenKind::KwSelf
    } else {
        SpecTokenKind::Ident(w)
    }
}

/// What one `next_token` call yields from scan state `(pos, line, col)`:
/// a token with its start position and the scan state after it, or a
/// lexical error.
pub ghost enum SpecLex {
    Tok {
        kind: SpecTokenKind,
        line: int,
        column: int,
        pos: int,
        nline: int,
        ncol: int,
    },
    Fail { ch: char, line: int, column: int },
}

/// The single-character token kind for `c`, if `c` is one of the
/// one-character operators or delimiters.
pub open spec fn single_char_kind(c: char) -> Option<SpecTokenKind> {
    if c == '+' {
        Some(SpecTokenKind::Plus)
    } else if c == '-' {
        Some(SpecTokenKind::Minus)
    } else if c == '*' {
        Some(SpecTokenKind::Multiply)
    } else if c == '/' {
        Some(SpecTokenKind::Divide)
    } else if c == '(' {
        Some(SpecTokenKind::LeftParen)
    } else if c == ')' {
        Some(SpecTokenKind::RightParen)
    } else if c == '{' {
        Some(SpecTokenKind::LeftBrace)
    } else if c == '}' {
        Some(SpecTokenKind::RightBrace)
    } else if c == ',' {
        Some(SpecTokenKind::Comma)
    } else if c == '.' {
        Some(SpecTokenKind::Dot)
    } else if c == '\n' {
        Some(SpecTokenKind::Newline)
    } else {
        None
    }
}

/// The token (or error) that starts at scan state `(pos, line, col)` of
/// input `s`, after skipping ordinary whitespace.
pub open spec fn spec_next_token(s: Seq<char>, pos: int, line: int, col: int) -> SpecLex {
    let i = ws_end(s, pos);
    let lc = adv_span(s, pos, i, line, col);
    let l1 = lc.0;
    let c1 = lc.1;
    if i >= s.len() {
        SpecLex::Tok {
            kind: SpecTokenKind::Eof,
            line: l1,
            column: c1,
            pos: i,
            nline: l1,
            ncol: c1,
        }
    } else {
        let c = s[i];
        if is_digit_char(c) {
            let j = digits_end(s, i);
            if j < s.len() && s[j] == '.' && j + 1 < s.len() && is_digit_char(s[j + 1]) {
                let k = digits_end(s, j + 1);
                let text = normalize_float(s.subrange(i, j), s.subrange(j + 1, k));
                let lc2 = adv_span(s, i, k, l1, c1);
                SpecLex::Tok {
                    kind: SpecTokenKind::Float(text),
                    line: l1,
                    column: c1,
                    pos: k,
                    nline: lc2.0,
                    ncol: lc2.1,
                }
            } else {
                let lc2 = adv_span(s, i, j, l1, c1);
                SpecLex::Tok {
                    kind: SpecTokenKind::Integer(int_token_val(s, i, j)),
                    line: l1,
                    column: c1,
                    pos: j,
                    nline: lc2.0,
                    ncol: lc2.1,
                }
            }
        } else if unicode_alphabetic(c) || c == '_' {
            let j = ident_end(s, i);
            let lc2 = adv_span(s, i, j, l1, c1);
            SpecLex::Tok {
                kind: keyword_or_ident(s.subrange(i, j)),
                line: l1,
                column: c1,
                pos: j,
                nline: lc2.0,
                ncol: lc2.1,
            }
        } else if c == '\'' {
            let sc = str_scan(s, i + 1);
            let lc2 = adv_span(s, i, sc.end, l1, c1);
            SpecLex::Tok {
                kind: SpecTokenKind::Text(sc.text),
                line: l1,
                column: c1,
                pos: sc.end,
                nline: lc2.0,
                ncol: lc2.1,
            }
        } else if c == '=' {
            if i + 1 < s.len() && s[i + 1] == '=' {
                let lc2 = adv_span(s, i, i + 2, l1, c1);
                SpecLex::Tok {
                    kind: SpecTokenKind::EqualEqual,
                    line: l1,
                    column: c1,
                    pos: i + 2,
                    nline: lc2.0,
                    ncol: lc2.1,
                }
            } else {
                let lc2 = adv_span(s, i, i + 1, l1, c1);
                SpecLex::Tok {
                    kind: SpecTokenKind::Equals,
                    line: l1,
                    column: c1,
                    pos: i + 1,
                    nline: lc2.0,
                    ncol: lc2.1,
                }
            }
        } else if c == '!' {
            if i + 1 < s.len() && s[i + 1] == '=' {
                let lc2 = adv_span(s, i, i + 2, l1, c1);
                SpecLex::Tok {
                    kind: SpecTokenKind::NotEqual,
                    line: l1,
                    column: c1,
                    pos: i + 2,
                    nline: lc2.0,
                    ncol: lc2.1,
                }
            } else {
                SpecLex::Fail { ch: '!', line: l1, column: c1 }
            }
        } else if c == '<' {
            if i + 1 < s.len() && s[i + 1] == '=' {
                let lc2 = adv_span(s, i, i + 2, l1, c1);
                SpecLex::Tok {
                    kind: SpecTokenKind::LessThanOrEqual,
                    line: l1,
                    column: c1,
                    pos: i + 2,
                    nline: lc2.0,
                    ncol: lc2.1,
                }
            } else {
                let lc2 = adv_span(s, i, i + 1, l1, c1);
                SpecLex::Tok {
                    kind: SpecTokenKind::LessThan,
                    line: l1,
                    column: c1,
                    pos: i + 1,
                    nline: lc2.0,
                    ncol: lc2.1,
                }
            }
        } else if c == '>' {
            if i + 1 < s.len() && s[i + 1] == '=' {
                let lc2 = adv_span(s, i, i + 2, l1, c1);
                SpecLex::Tok {
                    kind: SpecTokenKind::GreaterThanOrEqual,
                    line: l1,
                    column: c1,
                    pos: i + 2,
                    nline: lc2.0,
                    ncol: lc2.1,
                }
            } else {
                let lc2 = adv_span(s, i, i + 1, l1, c1);
                SpecLex::Tok {
                    kind: SpecTokenKind::GreaterThan,
                    line: l1,
                    column: c1,
                    pos: i + 1,
                    nline: lc2.0,
                    ncol: lc2.1,
                }
            }
        } else {
            match single_char_kind(c) {
                Some(kind) => {
                    let lc2 = adv_span(s, i, i + 1, l1, c1);
                    SpecLex::Tok {
                        kind,
                        line: l1,
                        column: c1,
                        pos: i + 1,
                        nline: lc2.0,
                        ncol: lc2.1,
                    }
                },
                None => SpecLex::Fail { ch: c, line: l1, column: c1 },
            }
        }
    }
}

/// Tokenizer for the Grit language: a linear scan over the input
/// characters with 1-based line/column tracking.
pub struct Tokenizer {
    pub input: Vec<char>,
    pub position: usize,
    pub line: usize,
    pub column: usize,
}

impl Tokenizer {
    /// The tokenizer's well-formedness: the cursor is inside the input
    /// and the position counters are 1-based and bounded by the cursor.
    pub open spec fn wf(&self) -> bool {
        &&& self.input@.len() < usize::MAX
        &&& self.position <= self.input@.len()
        &&& 1 <= self.line <= self.position + 1
        &&& 1 <= self.column <= self.position + 1
    }

    /// Creates a new tokenizer over the given input string.
    pub fn new(input: &str) -> (t: Tokenizer)
        requires
            input@.len() < usize::MAX,
        ensures
            t.wf(),
            t.input@ == input@,
            t.position == 0,
            t.line == 1,
            t.column == 1,
    {
        let n = input.unicode_len();
        let mut chars: Vec<char> = Vec::new();
        let mut i: usize = 0;
        while i < n
            invariant
                i <= n,
                n == input@.len(),
                chars@ == input@.subrange(0, i as int),
            decreases n - i,
        {
            chars.push(input.get_char(i));
            proof {
                assert(input@.subrange(0, i as int).push(input@[i as int]) =~= input@.subrange(
                    0,
                    i + 1,
                ));
            }
            i += 1;
        }
        proof {
            assert(input@.subrange(0, n as int) =~= input@);
        }
        Tokenizer { input: chars, position: 0, line: 1, column: 1 }
    }

    /// Returns the current character without consuming it.
    fn current_char(&self) -> (r: Option<char>)
        ensures
            r == (if self.position < self.input@.len() {
                Some(self.input@[self.position as int])
            } else {
                Option::<char>::None
            }),
    {
        if self.position < self.input.len() {
            Some(self.input[self.position])
        } else {
            None
        }
    }

    /// Consumes the current character, updating the line/column counters.
    fn advance(&mut self) -> (c: char)
        requires
            old(self).wf(),
            old(self).position < old(self).input@.len(),
        ensures
            final(self).wf(),
            final(self).input@ == old(self).input@,
            final(self).position == old(self).position + 1,
            c == old(self).input@[old(self).position as int],
            (final(self).line as int, final(self).column as int) == adv_pos(
                old(self).line as int,
                old(self).column as int,
                c,
            ),
    {
        let ghost n = self.input@.len();
        proof {
            assert(n <= usize::MAX) by {
                assert(self.input@.len() < usize::MAX);
            }
        }
        let ch = self.input[self.position];
        self.position += 1;
        if ch == '\n' {
            self.line += 1;
            self.column = 1;
        } else {
            self.column += 1;
        }
        ch
    }

    /// Skips whitespace characters other than newlines.
    fn skip_whitespace(&mut self)
        requires
            old(self).wf(),
        ensures
            final(self).wf(),
            final(self).input@ == old(self).input@,
            final(self).position == ws_end(old(self).input@, old(self).position as int),
            old(self).position <= final(self).position,
            (final(self).line as int, final(self).column as int) == adv_span(
                old(self).input@,
                old(self).position as int,
                final(self).position as int,
                old(self).line as int,
                old(self).column as int,
            ),
    {
        let ghost s = self.input@;
        let ghost p0 = self.position as int;
        let ghost l0 = self.line as int;
        let ghost c0 = self.column as int;
        loop
            invariant
                self.wf(),
                self.input@ == s,
                0 <= p0 <= self.position as int <= s.len(),
                ws_end(s, p0) == ws_end(s, self.position as int),
                (self.line as int, self.column as int) == adv_span(
                    s,
                    p0,
                    self.position as int,
                    l0,
                    c0,
                ),
            ensures
                self.wf(),
                self.input@ == s,
                self.position as int == ws_end(s, p0),
                (self.line as int, self.column as int) == adv_span(
                    s,
                    p0,
                    self.position as int,
                    l0,
                    c0,
                ),
            decreases s.len() - self.position,
        {
            match self.current_char() {
                Some(ch) => {
                    if char_is_whitespace(ch) && ch != '\n' {
                        let ghost pre = self.position as int;
                        self.advance();
                        proof {
                            lemma_adv_span_snoc(s, p0, pre, l0, c0);
                        }
                    } else {
                        break;
                    }
                },
                None => {
                    break;
                },
            }
        }
    }

    /// Reads an identifier or keyword from the input.
    fn read_identifier(&mut self) -> (r: String)
        requires
            old(self).wf(),
        ensures
            final(self).wf(),
            final(self).input@ == old(self).input@,
            final(self).position == ident_end(old(self).input@, old(self).position as int),
            old(self).position <= final(self).position,
            r@ == old(self).input@.subrange(
                old(self).position as int,
                final(self).position as int,
            ),
            (final(self).line as int, final(self).column as int) == adv_span(
                old(self).input@,
                old(self).position as int,
                final(self).position as int,
                old(self).line as int,
                old(self).column as int,
            ),
    {
        let ghost s = self.input@;
        let ghost p0 = self.position as int;
        let ghost l0 = self.line as int;
        let ghost c0 = self.column as int;
        let mut identifier = String::new();
        proof {
            assert(s.subrange(p0, p0) =~= Seq::<char>::empty());
        }
        loop
            invariant
                self.wf(),
                self.input@ == s,
                0 <= p0 <= self.position as int <= s.len(),
                ident_end(s, p0) == ident_end(s, self.position as int),
                identifier@ == s.subrange(p0, self.position as int),
                (self.line as int, self.column as int) == adv_span(
                    s,
                    p0,
                    self.position as int,
                    l0,
                    c0,
                ),
            ensures
                self.wf(),
                self.input@ == s,
                self.position as int == ident_end(s, p0),
                identifier@ == s.subrange(p0, self.position as int),
                (self.line as int, self.column as int) == adv_span(
                    s,
                    p0,
                    self.position as int,
                    l0,
                    c0,
                ),
            decreases s.len() - self.position,
        {
            match self.current_char() {
                Some(ch) => {
                    if char_is_alphanumeric(ch) || ch == '_' {
                        let ghost pre = self.position as int;
                        proof {
                            assert(p0 <= pre < s.len());
                            assert(ch == s[pre]);
                        }
                        identifier.push(ch);
                        self.advance();
                        proof {
                            lemma_adv_span_snoc(s, p0, pre, l0, c0);
                            assert(s.subrange(p0, pre).push(s[pre]) =~= s.subrange(p0, pre + 1));
                            assert(identifier@ == s.subrange(p0, pre + 1));
                        }
                    } else {
                        break;
                    }
                },
                None => {
                    break;
                },
            }
        }
        identifier
    }

    /// Reads a string literal's body, decoding escape sequences. The
    /// cursor must stand on the opening quote.
    fn read_string(&mut self) -> (r: String)
        requires
            old(self).wf(),
            old(self).position < old(self).input@.len(),
            old(self).input@[old(self).position as int] == '\'',
        ensures
            final(self).wf(),
            final(self).input@ == old(self).input@,
            final(self).position as int == str_scan(
                old(self).input@,
                old(self).position + 1,
            ).end,
            old(self).position < final(self).position,
            r@ == str_scan(old(self).input@, old(self).position + 1).text,
            (final(self).line as int, final(self).column as int) == adv_span(
                old(self).input@,
                old(self).position as int,
                final(self).position as int,
                old(self).line as int,
                old(self).column as int,
            ),
    {
        let ghost s = self.input@;
        let ghost p0 = self.position as int;
        let ghost l0 = self.line as int;
        let ghost c0 = self.column as int;
        let mut text = String::new();
        self.advance();  // consume opening quote
        proof {
            lemma_adv_span_snoc(s, p0, p0, l0, c0);
            lemma_str_scan_bounds(s, p0 + 1);
        }
        loop
            invariant_except_break
                str_scan(s, p0 + 1).end == str_scan(s, self.position as int).end,
                str_scan(s, p0 + 1).text == text@ + str_scan(s, self.position as int).text,
            invariant
                self.wf(),
                self.input@ == s,
                0 <= p0 < self.position as int <= s.len(),
                (self.line as int, self.column as int) == adv_span(
                    s,
                    p0,
                    self.position as int,
                    l0,
                    c0,
                ),
            ensures
                self.wf(),
                self.input@ == s,
                self.position as int == str_scan(s, p0 + 1).end,
                text@ == str_scan(s, p0 + 1).text,
                (self.line as int, self.column as int) == adv_span(
                    s,
                    p0,
                    self.position as int,
                    l0,
                    c0,
                ),
            decreases s.len() - self.position,
        {
            let ghost cur = self.position as int;
            let ghost pre_text = text@;
            match self.current_char() {
                None => {
                    proof {
                        assert(str_scan(s, cur).text =~= Seq::<char>::empty());
                        assert(pre_text + Seq::<char>::empty() =~= pre_text);
                    }
                    break;
                },
                Some(ch) => {
                    if ch == '\'' {
                        self.advance();
                        proof {
                            lemma_adv_span_snoc(s, p0, cur, l0, c0);
                            assert(str_scan(s, cur).text =~= Seq::<char>::empty());
                            assert(pre_text + Seq::<char>::empty() =~= pre_text);
                        }
                        break;
                    } else if ch == '\\' {
                        self.advance();
                        proof {
                            lemma_adv_span_snoc(s, p0, cur, l0, c0);
                        }
                        match self.current_char() {
                            Some(escaped) => {
                                if escaped == 'n' {
                                    text.push('\n');
                                } else if escaped == 't' {
                                    text.push('\t');
                                } else if escaped == 'r' {
                                    text.push('\r');
                                } else if escaped == '\\' {
                                    text.push('\\');
                                } else if escaped == '\'' {
                                    text.push('\'');
                                } else {
                                    text.push('\\');
                                    text.push(escaped);
                                }
                                proof {
                                    assert(text@ =~= pre_text + escape_char(s[cur + 1]));
                                }
                                self.advance();
                                proof {
                                    lemma_adv_span_snoc(s, p0, cur + 1, l0, c0);
                                    assert(str_scan(s, cur).text == escape_char(s[cur + 1])
                                        + str_scan(s, cur + 2).text);
                                    assert(pre_text + (escape_char(s[cur + 1]) + str_scan(
                                        s,
                                        cur + 2,
                                    ).text) =~= text@ + str_scan(s, cur + 2).text);
                                }
                            },
                            None => {
                                proof {
                                    assert(self.position as int == cur + 1);
                                    assert(str_scan(s, cur).end == cur + 1);
                                    assert(str_scan(s, cur).text =~= Seq::<char>::empty());
                                    assert(str_scan(s, cur + 1).text =~= Seq::<char>::empty());
                                    assert(str_scan(s, cur + 1).end == cur + 1);
                                }
                            },
                        }
                    } else {
                        text.push(ch);
                        self.advance();
                        proof {
                            lemma_adv_span_snoc(s, p0, cur, l0, c0);
                            assert(str_scan(s, cur).text == seq![s[cur]] + str_scan(
                                s,
                                cur + 1,
                            ).text);
                            assert(text@ =~= pre_text + seq![s[cur]]);
                            assert(pre_text + (seq![s[cur]] + str_scan(s, cur + 1).text) =~= text@
                                + str_scan(s, cur + 1).text);
                        }
                    }
                },
            }
        }
        text
    }

    /// Consumes the ASCII digits at the cursor and returns their value,
    /// or zero when the digit run does not fit in an `i64`.
    fn read_integer(&mut self) -> (n: i64)
        requires
            old(self).wf(),
        ensures
            final(self).wf(),
            final(self).input@ == old(self).input@,
            final(self).position == digits_end(old(self).input@, old(self).position as int),
            old(self).position <= final(self).position,
            n == int_token_val(old(self).input@, old(self).position as int, final(self).position as int),
            (final(self).line as int, final(self).column as int) == adv_span(
                old(self).input@,
                old(self).position as int,
                final(self).position as int,
                old(self).line as int,
                old(self).column as int,
            ),
    {
        let ghost s = self.input@;
        let ghost p0 = self.position as int;
        let ghost l0 = self.line as int;
        let ghost c0 = self.column as int;
        let mut acc: u64 = 0;
        let mut over: bool = false;
        loop
            invariant
                self.wf(),
                self.input@ == s,
                0 <= p0 <= self.position as int <= s.len(),
                digits_end(s, p0) == digits_end(s, self.position as int),
                forall|k: int| p0 <= k < self.position as int ==> is_digit_char(s[k]),
                !over ==> acc as int == digits_val(s, p0, self.position as int) && acc <= i64::MAX,
                over ==> digits_val(s, p0, self.position as int) > i64::MAX,
                (self.line as int, self.column as int) == adv_span(
                    s,
                    p0,
                    self.position as int,
                    l0,
                    c0,
                ),
            ensures
                self.wf(),
                self.input@ == s,
                self.position as int == digits_end(s, p0),
                !over ==> acc as int == digits_val(s, p0, self.position as int) && acc <= i64::MAX,
                over ==> digits_val(s, p0, self.position as int) > i64::MAX,
                (self.line as int, self.column as int) == adv_span(
                    s,
                    p0,
                    self.position as int,
                    l0,
                    c0,
                ),
            decreases s.len() - self.position,
        {
            match self.current_char() {
                Some(ch) => {
                    if is_digit(ch) {
                        let ghost pre = self.position as int;
                        let d: u64 = (ch as u32 as u64) - ('0' as u32 as u64);
                        proof {
                            assert(d as int == digit_val(ch));
                            assert(digits_val(s, p0, pre + 1) == digits_val(s, p0, pre) * 10
                                + digit_val(s[pre]));
                            lemma_digits_val_nonneg(s, p0, pre);
                        }
                        if !over {
                            if acc > 922337203685477580u64 {
                                over = true;
                                proof {
                                    assert(digits_val(s, p0, pre) * 10 + digit_val(s[pre])
                                        > i64::MAX);
                                }
                            } else {
                                let next = acc * 10 + d;
                                if next > 9223372036854775807u64 {
                                    over = true;
                                } else {
                                    acc = next;
                                }
                            }
                        } else {
                            proof {
                                assert(digits_val(s, p0, pre) * 10 >= digits_val(s, p0, pre))
                                    by (nonlinear_arith)
                                    requires digits_val(s, p0, pre) >= 0;
                            }
                        }
                        self.advance();
                        proof {
                            lemma_adv_span_snoc(s, p0, pre, l0, c0);
                        }
                    } else {
                        break;
                    }
                },
                None => {
                    break;
                },
            }
        }
        if over {
            0
        } else {
            acc as i64
        }
    }

    /// Builds the normalized text of a float literal whose integer digits
    /// stand at `input[int_start..int_end]` and whose fractional digits
    /// stand at `input[frac_start..frac_end]`.
    fn float_text(&self, int_start: usize, int_end: usize, frac_start: usize, frac_end: usize) -> (r:
        String)
        requires
            int_start < int_end <= self.input@.len(),
            frac_start <= frac_end <= self.input@.len(),
        ensures
            r@ == normalize_float(
                self.input@.subrange(int_start as int, int_end as int),
                self.input@.subrange(frac_start as int, frac_end as int),
            ),
    {
        let ghost s = self.input@;
        let mut a = int_start;
        while a + 1 < int_end && self.input[a] == '0'
            invariant
                int_start <= a < int_end <= s.len(),
                self.input@ == s,
                trim_leading_zeros(s.subrange(int_start as int, int_end as int))
                    == trim_leading_zeros(s.subrange(a as int, int_end as int)),
            decreases int_end - a,
        {
            proof {
                assert(s.subrange(a as int, int_end as int).skip(1) =~= s.subrange(
                    a + 1,
                    int_end as int,
                ));
            }
            a += 1;
        }
        proof {
            assert(trim_leading_zeros(s.subrange(a as int, int_end as int)) == s.subrange(
                a as int,
                int_end as int,
            ));
        }
        let mut b = frac_end;
        while b > frac_start && self.input[b - 1] == '0'
            invariant
                frac_start <= b <= frac_end <= s.len(),
                self.input@ == s,
                trim_trailing_zeros(s.subrange(frac_start as int, frac_end as int))
                    == trim_trailing_zeros(s.subrange(frac_start as int, b as int)),
            decreases b,
        {
            proof {
                assert(s.subrange(frac_start as int, b as int).take(
                    s.subrange(frac_start as int, b as int).len() - 1,
                ) =~= s.subrange(frac_start as int, b - 1));
            }
            b -= 1;
        }
        proof {
            assert(trim_trailing_zeros(s.subrange(frac_start as int, b as int)) == s.subrange(
                frac_start as int,
                b as int,
            ));
        }
        let mut text = String::new();
        crate::text::push_chars(&mut text, &self.input, a, int_end);
        if b > frac_start {
            text.push('.');
            let ghost before = text@;
            crate::text::push_chars(&mut text, &self.input, frac_start, b);
            proof {
                assert(Seq::<char>::empty() + s.subrange(a as int, int_end as int) =~= s.subrange(
                    a as int,
                    int_end as int,
                ));
                assert(s.subrange(a as int, int_end as int).push('.') =~= s.subrange(
                    a as int,
                    int_end as int,
                ) + seq!['.']);
                assert(s.subrange(a as int, int_end as int) + seq!['.'] + s.subrange(
                    frac_start as int,
                    b as int,
                ) =~= normalize_float(
                    s.subrange(int_start as int, int_end as int),
                    s.subrange(frac_start as int, frac_end as int),
                ));
            }
        } else {
            proof {
                assert(Seq::<char>::empty() + s.subrange(a as int, int_end as int) =~= s.subrange(
                    a as int,
                    int_end as int,
                ));
                assert(s.subrange(frac_start as int, b as int).len() == 0);
            }
        }
        text
    }

    /// Returns the next token from the input, or the lexical error that
    /// stops the scan.
    pub fn next_token(&mut self) -> (r: Result<Token, LexError>)
        requires
            old(self).wf(),
        ensures
            final(self).wf(),
            final(self).input@ == old(self).input@,
            old(self).position <= final(self).position,
            (match spec_next_token(
                old(self).input@,
                old(self).position as int,
                old(self).line as int,
                old(self).column as int,
            ) {
                SpecLex::Tok { kind, line, column, pos, nline, ncol } => {
                    &&& r matches Ok(t)
                    &&& t@.kind == kind
                    &&& t@.line == line
                    &&& t@.column == column
                    &&& final(self).position as int == pos
                    &&& final(self).line as int == nline
                    &&& final(self).column as int == ncol
                },
                SpecLex::Fail { ch, line, column } => {
                    &&& r matches Err(e)
                    &&& e.character == ch
                    &&& e.line as int == line
                    &&& e.column as int == column
                },
            }),
    {
        let ghost s = self.input@;
        self.skip_whitespace();

        let line = self.line;
        let column = self.column;
        let ghost i = self.position as int;
        let ghost l1 = self.line as int;
        let ghost c1 = self.column as int;

        match self.current_char() {
            None => Ok(Token::new(TokenType::Eof, line, column)),
            Some(ch) => {
                if is_digit(ch) {
                    let start = self.position;
                    let value = self.read_integer();
                    proof {
                        lemma_digits_end_bounds(s, i);
                    }
                    let mut dot_float = false;
                    if self.position < self.input.len() && self.position + 1 < self.input.len() {
                        if self.input[self.position] == '.' && is_digit(
                            self.input[self.position + 1],
                        ) {
                            dot_float = true;
                        }
                    }
                    if dot_float {
                        let int_end = self.position;
                        self.advance();  // consume '.'
                        proof {
                            lemma_adv_span_snoc(s, i, int_end as int, l1, c1);
                        }
                        let frac_start = self.position;
                        self.read_integer();  // consume the fractional digits
                        let frac_end = self.position;
                        proof {
                            lemma_adv_span_concat(s, i, frac_start as int, frac_end as int, l1, c1);
                        }
                        let text = self.float_text(start, int_end, frac_start, frac_end);
                        Ok(Token::new(TokenType::Float(text), line, column))
                    } else {
                        Ok(Token::new(TokenType::Integer(value), line, column))
                    }
                } else if char_is_alphabetic(ch) || ch == '_' {
                    let identifier = self.read_identifier();
                    let token_type = if crate::text::str_eq(identifier.as_str(), "fn") {
                        TokenType::Fn
                    } else if crate::text::str_eq(identifier.as_str(), "if") {
                        TokenType::If
                    } else if crate::text::str_eq(identifier.as_str(), "elif") {
                        TokenType::Elif
                    } else if crate::text::str_eq(identifier.as_str(), "else") {
                        TokenType::Else
                    } else if crate::text::str_eq(identifier.as_str(), "while") {
                        TokenType::While
                    } else if crate::text::str_eq(identifier.as_str(), "class") {
                        TokenType::Class
                    } else if crate::text::str_eq(identifier.as_str(), "self") {
                        TokenType::Self_
                    } else {
                        TokenType::Identifier(identifier)
                    };
                    Ok(Token::new(token_type, line, column))
                } else if ch == '\'' {
                    let string = self.read_string();
                    Ok(Token::new(TokenType::String(string), line, column))
                } else {
                    self.advance();
                    proof {
                        lemma_adv_span_snoc(s, i, i, l1, c1);
                    }
                    if ch == '=' {
                        let two = match self.current_char() {
                            Some(c2) => c2 == '=',
                            None => false,
                        };
                        if two {
                            self.advance();
                            proof {
                                lemma_adv_span_snoc(s, i, i + 1, l1, c1);
                            }
                            Ok(Token::new(TokenType::EqualEqual, line, column))
                        } else {
                            Ok(Token::new(TokenType::Equals, line, column))
                        }
                    } else if ch == '!' {
                        let two = match self.current_char() {
                            Some(c2) => c2 == '=',
                            None => false,
                        };
                        if two {
                            self.advance();
                            proof {
                                lemma_adv_span_snoc(s, i, i + 1, l1, c1);
                            }
                            Ok(Token::new(TokenType::NotEqual, line, column))
                        } else {
                            Err(LexError { character: ch, line, column })
                        }
                    } else if ch == '<' {
                        let two = match self.current_char() {
                            Some(c2) => c2 == '=',
                            None => false,
                        };
                        if two {
                            self.advance();
                            proof {
                                lemma_adv_span_snoc(s, i, i + 1, l1, c1);
                            }
                            Ok(Token::new(TokenType::LessThanOrEqual, line, column))
                        } else {
                            Ok(Token::new(TokenType::LessThan, line, column))
                        }
                    } else if ch == '>' {
                        let two = match self.current_char() {
                            Some(c2) => c2 == '=',
                            None => false,
                        };
                        if two {
                            self.advance();
                            proof {
                                lemma_adv_span_snoc(s, i, i + 1, l1, c1);
                            }
                            Ok(Token::new(TokenType::GreaterThanOrEqual, line, column))
                        } else {
                            Ok(Token::new(TokenType::GreaterThan, line, column))
                        }
                    } else if ch == '+' {
                        Ok(Token::new(TokenType::Plus, line, column))
                    } else if ch == '-' {
                        Ok(Token::new(TokenType::Minus, line, column))
                    } else if ch == '*' {
                        Ok(Token::new(TokenType::Multiply, line, column))
                    } else if ch == '/' {
                        Ok(Token::new(TokenType::Divide, line, column))
                    } else if ch == '(' {
                        Ok(Token::new(TokenType::LeftParen, line, column))
                    } else if ch == ')' {
                        Ok(Token::new(TokenType::RightParen, line, column))
                    } else if ch == '{' {
                        Ok(Token::new(TokenType::LeftBrace, line, column))
                    } else if ch == '}' {
                        Ok(Token::new(TokenType::RightBrace, line, column))
                    } else if ch == ',' {
                        Ok(Token::new(TokenType::Comma, line, column))
                    } else if ch == '.' {
                        Ok(Token::new(TokenType::Dot, line, column))
                    } else if ch == '\n' {
                        Ok(Token::new(TokenType::Newline, line, column))
                    } else {
                        Err(LexError { character: ch, line, column })
                    }
                }
            },
        }
    }

    /// Tokenizes the entire input: the token sequence ends in exactly one
    /// EOF token, or the first lexical error is returned.
    pub fn tokenize(&mut self) -> (r: Result<Vec<Token>, LexError>)
        requires
            old(self).wf(),
        ensures
            final(self).wf(),
            final(self).input@ == old(self).input@,
            (match spec_tokenize_from(
                old(self).input@,
                old(self).position as int,
                old(self).line as int,
                old(self).column as int,
            ) {
                SpecLexOutcome::Toks(ts) => {
                    &&& r matches Ok(v)
                    &&& tokens_view(v@) == ts
                },
                SpecLexOutcome::Fail { ch, line, column } => {
                    &&& r matches Err(e)
                    &&& e.character == ch
                    &&& e.line as int == line
                    &&& e.column as int == column
                },
            }),
    {
        let ghost s = self.input@;
        let ghost p0 = self.position as int;
        let ghost l0 = self.line as int;
        let ghost c0 = self.column as int;
        let mut tokens: Vec<Token> = Vec::new();
        proof {
            match spec_tokenize_from(s, p0, l0, c0) {
                SpecLexOutcome::Toks(rest) => {
                    assert(tokens_view(tokens@) + rest =~= rest);
                },
                SpecLexOutcome::Fail { .. } => {},
            }
        }

        loop
            invariant_except_break
                self.wf(),
                self.input@ == s,
                s == old(self).input@,
                p0 == old(self).position as int,
                l0 == old(self).line as int,
                c0 == old(self).column as int,
                0 <= p0 <= s.len(),
                (match spec_tokenize_from(s, self.position as int, self.line as int, self.column as int) {
                    SpecLexOutcome::Toks(rest) => spec_tokenize_from(s, p0, l0, c0)
                        == SpecLexOutcome::Toks(tokens_view(tokens@) + rest),
                    SpecLexOutcome::Fail { ch, line, column } => spec_tokenize_from(s, p0, l0, c0)
                        == spec_tokenize_from(
                        s,
                        self.position as int,
                        self.line as int,
                        self.column as int,
                    ),
                }),
            ensures
                self.wf(),
                self.input@ == s,
                (match spec_tokenize_from(s, p0, l0, c0) {
                    SpecLexOutcome::Toks(ts) => tokens_view(tokens@) == ts,
                    SpecLexOutcome::Fail { .. } => false,
                }),
            decreases s.len() - self.position,
        {
            let ghost cur = self.position as int;
            let ghost curl = self.line as int;
            let ghost curc = self.column as int;
            proof {
                lemma_next_token_bounds(s, cur, curl, curc);
            }
            let token = match self.next_token() {
                Ok(t) => t,
                Err(e) => {
                    return Err(e);
                },
            };
            let is_eof = matches!(token.token_type, TokenType::Eof);
            let ghost pre = tokens@;
            tokens.push(token);
            proof {
                assert(tokens_view(tokens@) =~= tokens_view(pre).push(token@));
            }
            if is_eof {
                proof {
                    match spec_next_token(s, cur, curl, curc) {
                        SpecLex::Tok { kind, line: tl, column: tc, .. } => {
                            assert(spec_tokenize_from(s, cur, curl, curc) == SpecLexOutcome::Toks(
                                seq![SpecToken { kind, line: tl, column: tc }],
                            ));
                        },
                        SpecLex::Fail { .. } => {
                            assert(false);
                        },
                    }
                    assert(tokens_view(pre) + seq![token@] =~= tokens_view(tokens@));
                }
                break;
            }
            proof {
                match spec_next_token(s, cur, curl, curc) {
                    SpecLex::Tok { kind, line: tl, column: tc, pos: p2, nline, ncol } => {
                        match spec_tokenize_from(s, p2, nline, ncol) {
                            SpecLexOutcome::Toks(rest) => {
                                assert(spec_tokenize_from(s, cur, curl, curc)
                                    == SpecLexOutcome::Toks(
                                    seq![SpecToken { kind, line: tl, column: tc }] + rest,
                                ));
                                assert(tokens_view(pre) + (seq![token@] + rest) =~= tokens_view(
                                    tokens@,
                                ) + rest);
                            },
                            SpecLexOutcome::Fail { .. } => {},
                        }
                    },
                    SpecLex::Fail { .. } => {
                        assert(false);
                    },
                }
            }
        }
        Ok(tokens)
    }
}

impl LexError {
    /// A human-readable description of the error, naming the offending
    /// character and its 1-based position.
    pub fn message(&self) -> (r: String)
        ensures
            r@ == "Unexpected character '"@ + seq![self.character] + "' at line "@ + spec_nat_text(
                self.line as nat,
            ) + ", column "@ + spec_nat_text(self.column as nat),
    {
        let mut out = String::new();
        out.append("Unexpected character '");
        out.push(self.character);
        out.append("' at line ");
        push_usize_text(&mut out, self.line);
        out.append(", column ");
        push_usize_text(&mut out, self.column);
        proof {
            assert(Seq::<char>::empty() + "Unexpected character '"@ + seq![self.character]
                + "' at line "@ + spec_nat_text(self.line as nat) + ", column "@ + spec_nat_text(
                self.column as nat,
            ) =~= "Unexpected character '"@ + seq![self.character] + "' at line "@ + spec_nat_text(
                self.line as nat,
            ) + ", column "@ + spec_nat_text(self.column as nat));
        }
        out
    }
}

/// The outcome of tokenizing a whole input from a scan state: the token
/// sequence (ending in exactly one EOF token), or the first lexical error.
pub ghost enum SpecLexOutcome {
    Toks(Seq<SpecToken>),
    Fail { ch: char, line: int, column: int },
}

/// The token sequence (or first error) that scanning yields from state
/// `(pos, line, col)` of input `s`.
pub open spec fn spec_tokenize_from(s: Seq<char>, pos: int, line: int, col: int) -> SpecLexOutcome
    decreases s.len() - pos
        when 0 <= pos <= s.len()
        via spec_tokenize_from_decreases
{
    match spec_next_token(s, pos, line, col) {
        SpecLex::Fail { ch, line: el, column: ec } => SpecLexOutcome::Fail {
            ch,
            line: el,
            column: ec,
        },
        SpecLex::Tok { kind, line: tl, column: tc, pos: p2, nline, ncol } => {
            if kind is Eof {
                SpecLexOutcome::Toks(seq![SpecToken { kind, line: tl, column: tc }])
            } else {
                match spec_tokenize_from(s, p2, nline, ncol) {
                    SpecLexOutcome::Toks(rest) => SpecLexOutcome::Toks(
                        seq![SpecToken { kind, line: tl, column: tc }] + rest,
                    ),
                    SpecLexOutcome::Fail { ch, line: el, column: ec } => SpecLexOutcome::Fail {
                        ch,
                        line: el,
                        column: ec,
                    },
                }
            }
        },
    }
}

#[via_fn]
proof fn spec_tokenize_from_decreases(s: Seq<char>, pos: int, line: int, col: int) {
    lemma_next_token_bounds(s, pos, line, col);
}

/// The whole-input tokenization outcome of `s`.
pub open spec fn spec_tokenize(s: Seq<char>) -> SpecLexOutcome {
    spec_tokenize_from(s, 0, 1, 1)
}

/// Skipping whitespace never moves backwards and stays inside the input.
proof fn lemma_ws_end_bounds(s: Seq<char>, i: int)
    requires
        0 <= i <= s.len(),
    ensures
        i <= ws_end(s, i) <= s.len(),
    decreases s.len() - i,
{
    if i < s.len() && unicode_whitespace(s[i]) && s[i] != '\n' {
        lemma_ws_end_bounds(s, i + 1);
    }
}

/// An identifier's end never lies before its start nor past the input.
proof fn lemma_ident_end_bounds(s: Seq<char>, i: int)
    requires
        0 <= i <= s.len(),
    ensures
        i <= ident_end(s, i) <= s.len(),
    decreases s.len() - i,
{
    if i < s.len() && (unicode_alphanumeric(s[i]) || s[i] == '_') {
        lemma_ident_end_bounds(s, i + 1);
    }
}

/// A digit run's end never lies before its start nor past the input.
proof fn lemma_digits_end_bounds(s: Seq<char>, i: int)
    requires
        0 <= i <= s.len(),
    ensures
        i <= digits_end(s, i) <= s.len(),
    decreases s.len() - i,
{
    if i < s.len() && is_digit_char(s[i]) {
        lemma_digits_end_bounds(s, i + 1);
    }
}

/// One scan step stays inside the input, and strictly advances unless it
/// yields the EOF token.
pub proof fn lemma_next_token_bounds(s: Seq<char>, pos: int, line: int, col: int)
    requires
        0 <= pos <= s.len(),
    ensures
        match spec_next_token(s, pos, line, col) {
            SpecLex::Tok { kind, pos: p2, .. } => {
                &&& pos <= p2 <= s.len()
                &&& (!(kind is Eof) ==> pos < p2)
                &&& (kind is Eof ==> p2 == s.len())
            },
            SpecLex::Fail { .. } => true,
        },
{
    lemma_ws_end_bounds(s, pos);
    let i = ws_end(s, pos);
    if i < s.len() {
        let c = s[i];
        if is_digit_char(c) {
            lemma_digits_end_bounds(s, i);
            assert(digits_end(s, i) == digits_end(s, i + 1));
            lemma_digits_end_bounds(s, i + 1);
            let j = digits_end(s, i);
            if j < s.len() && s[j] == '.' && j + 1 < s.len() && is_digit_char(s[j + 1]) {
                lemma_digits_end_bounds(s, j + 1);
                assert(digits_end(s, j + 1) == digits_end(s, j + 2));
                lemma_digits_end_bounds(s, j + 2);
            }
        } else if unicode_alphabetic(c) || c == '_' {
            lemma_ident_end_bounds(s, i);
            assert(ident_end(s, i) == ident_end(s, i + 1));
            lemma_ident_end_bounds(s, i + 1);
        } else if c == '\'' {
            lemma_str_scan_bounds(s, i + 1);
        }
    }
}

/// Law: once the scan position has reached the end of the input, the next
/// token is EOF and the scan state does not move, so any number of further
/// `next_token` calls yield EOF again and never fail.
pub proof fn lemma_next_token_eof_idempotent(s: Seq<char>, pos: int, line: int, col: int)
    requires
        pos == s.len(),
    ensures
        spec_next_token(s, pos, line, col) == (SpecLex::Tok {
            kind: SpecTokenKind::Eof,
            line,
            column: col,
            pos,
            nline: line,
            ncol: col,
        }),
{
    assert(ws_end(s, pos) == pos);
    assert(adv_span(s, pos, pos, line, col) == (line, col));
}

/// A span's line/column advance composes at any split point.
proof fn lemma_adv_span_concat(s: Seq<char>, i: int, m: int, k: int, line: int, col: int)
    requires
        i <= m <= k <= s.len(),
    ensures
        adv_span(s, i, k, line, col) == ({
            let lc = adv_span(s, i, m, line, col);
            adv_span(s, m, k, lc.0, lc.1)
        }),
    decreases m - i,
{
    if i < m {
        let lc = adv_pos(line, col, s[i]);
        lemma_adv_span_concat(s, i + 1, m, k, lc.0, lc.1);
    }
}

/// The line/column pair after a span extends by one character at its end.
proof fn lemma_adv_span_snoc(s: Seq<char>, i: int, j: int, line: int, col: int)
    requires
        i <= j < s.len(),
    ensures
        adv_span(s, i, j + 1, line, col) == ({
            let lc = adv_span(s, i, j, line, col);
            adv_pos(lc.0, lc.1, s[j])
        }),
    decreases j - i,
{
    let lc = adv_pos(line, col, s[i]);
    if i < j {
        lemma_adv_span_snoc(s, i + 1, j, lc.0, lc.1);
    } else {
        assert(adv_span(s, i + 1, j + 1, lc.0, lc.1) == (lc.0, lc.1));
        assert(adv_span(s, i, j, line, col) == (line, col));
    }
}

/// The scan of a string literal's body never moves backwards and stays
/// at most one past the end of the input.
proof fn lemma_str_scan_bounds(s: Seq<char>, i: int)
    requires
        0 <= i <= s.len(),
    ensures
        i <= str_scan(s, i).end <= s.len(),
    decreases s.len() - i,
{
    if i < s.len() {
        if s[i] == '\\' {
            if i + 2 <= s.len() {
                lemma_str_scan_bounds(s, i + 2);
            }
        } else if s[i] != '\'' {
            lemma_str_scan_bounds(s, i + 1);
        }
    }
}

/// The value of a run of decimal digits is never negative.
proof fn lemma_digits_val_nonneg(s: Seq<char>, i: int, j: int)
    requires
        forall|k: int| i <= k < j ==> is_digit_char(s[k]),
    ensures
        digits_val(s, i, j) >= 0,
    decreases j - i,
{
    if j > i {
        lemma_digits_val_nonneg(s, i, j - 1);
        assert(digit_val(s[j - 1]) >= 0);
        assert(digits_val(s, i, j - 1) * 10 >= 0) by (nonlinear_arith)
            requires digits_val(s, i, j - 1) >= 0;
    }
}

} // verus!
