//! The lexer: from text to tokens, passing over white space and comments.
use crate::error::{AeonDeserializeError, Failure};
use crate::text::{
    all_digits, decimal_value, digit_value, hex_value, is_digit, is_hex_digit, is_ident_char,
    is_letter, is_whitespace, push_all, scalar, spec_is_digit, spec_is_hex_digit,
    spec_is_ident_char, spec_is_letter, spec_is_whitespace, to_chars,
};
use crate::token::{Token, TokenView};
use crate::value::{check_double_literal, is_double_literal, AeonDouble};
use vstd::prelude::*;
use vstd::string::StringExecFns;

verus! {

/// What is left of the input after a comment: everything behind the next
/// line feed. `s` starts behind the `#`.
pub open spec fn skip_comment(s: Seq<char>) -> Seq<char>
    decreases s.len(),
{
    if s.len() == 0 {
        s
    } else if s[0] == '\n' {
        s.skip(1)
    } else {
        skip_comment(s.skip(1))
    }
}

/// A comment's remainder is a suffix of the input.
pub proof fn lemma_skip_comment(s: Seq<char>)
    ensures
        skip_comment(s).len() <= s.len(),
        skip_comment(s) == s.skip(s.len() - skip_comment(s).len()),
    decreases s.len(),
{
    if s.len() == 0 {
        assert(s.skip(0) == s);
    } else if s[0] == '\n' {
    } else {
        lemma_skip_comment(s.skip(1));
        let r = skip_comment(s.skip(1));
        assert(s.skip(1).skip(s.skip(1).len() - r.len()) == s.skip(s.len() - r.len()));
    }
}

/// What is left of the input after leading white space and comments.
pub open spec fn skip_blank(s: Seq<char>) -> Seq<char>
    decreases s.len(),
{
    if s.len() == 0 {
        s
    } else if s[0] == '#' {
        proof {
            lemma_skip_comment(s.skip(1));
        }
        skip_blank(skip_comment(s.skip(1)))
    } else if spec_is_whitespace(s[0]) {
        skip_blank(s.skip(1))
    } else {
        s
    }
}

/// The length of the longest prefix made of identifier characters.
pub open spec fn ident_len(s: Seq<char>) -> nat
    decreases s.len(),
{
    if s.len() > 0 && spec_is_ident_char(s[0]) {
        1 + ident_len(s.skip(1))
    } else {
        0
    }
}

/// Whether a number's lexeme goes on with `c`: a digit or a decimal point.
pub open spec fn spec_is_number_char(c: char) -> bool {
    spec_is_digit(c) || c == '.'
}

#[verifier::when_used_as_spec(spec_is_number_char)]
pub fn is_number_char(c: char) -> (b: bool)
    ensures
        b == spec_is_number_char(c),
{
    is_digit(c) || c == '.'
}

/// The length of the longest prefix made of number characters.
pub open spec fn number_len(s: Seq<char>) -> nat
    decreases s.len(),
{
    if s.len() > 0 && spec_is_number_char(s[0]) {
        1 + number_len(s.skip(1))
    } else {
        0
    }
}

/// How many decimal points `s` holds.
pub open spec fn dot_count(s: Seq<char>) -> nat
    decreases s.len(),
{
    if s.len() == 0 {
        0
    } else {
        dot_count(s.drop_last()) + if s.last() == '.' {
            1nat
        } else {
            0nat
        }
    }
}

/// The 64-bit integer that the lexeme denotes: an optional minus sign and
/// at least one decimal digit, in range.
pub open spec fn integer_value(lexeme: Seq<char>) -> Option<i64> {
    let negative = lexeme.len() > 0 && lexeme[0] == '-';
    let digits = if negative {
        lexeme.skip(1)
    } else {
        lexeme
    };
    if digits.len() == 0 || !all_digits(digits) {
        None
    } else if negative {
        if decimal_value(digits) <= 0x8000_0000_0000_0000 {
            Some((-(decimal_value(digits) as int)) as i64)
        } else {
            None
        }
    } else {
        if decimal_value(digits) <= 0x7fff_ffff_ffff_ffff {
            Some(decimal_value(digits) as i64)
        } else {
            None
        }
    }
}

pub open spec fn msg_unknown_char(c: char) -> Seq<char> {
    "Unknown char "@.push(c)
}

pub open spec fn msg_unterminated_string() -> Seq<char> {
    "Unterminated string"@
}

pub open spec fn msg_unknown_escape(c: char) -> Seq<char> {
    "Unknown escape in string: \\"@.push(c)
}

pub open spec fn msg_malformed_unicode() -> Seq<char> {
    "Expected exactly 4 hex digits between '{' and '}' after '\\u' in string"@
}

pub open spec fn msg_invalid_scalar() -> Seq<char> {
    "Invalid unicode scalar after '\\u' in string"@
}

pub open spec fn msg_two_points(lexeme: Seq<char>) -> Seq<char> {
    "Two decimal points in number: "@ + lexeme
}

pub open spec fn msg_trailing_point(lexeme: Seq<char>) -> Seq<char> {
    "Trailing decimal point in number: "@ + lexeme
}

pub open spec fn msg_malformed_number(lexeme: Seq<char>) -> Seq<char> {
    "Malformed number: "@ + lexeme
}

/// The character that `{hhhh}` at the start of `s` denotes, `hhhh` being
/// exactly four hexadecimal digits.
pub open spec fn unicode_escape(s: Seq<char>) -> Result<char, Failure> {
    if s.len() >= 6 && s[0] == '{' && spec_is_hex_digit(s[1]) && spec_is_hex_digit(s[2])
        && spec_is_hex_digit(s[3]) && spec_is_hex_digit(s[4]) && s[5] == '}' {
        let code = hex_value(s[1]) * 4096 + hex_value(s[2]) * 256 + hex_value(s[3]) * 16
            + hex_value(s[4]);
        match scalar(code as u32) {
            Some(c) => Ok(c),
            None => Err(Failure::lexing(msg_invalid_scalar())),
        }
    } else {
        Err(Failure::lexing(msg_malformed_unicode()))
    }
}

/// The content of a string literal and what is left of the input behind its
/// closing quote. `s` starts behind the opening quote; `content` is what was
/// read of the literal so far.
pub open spec fn scan_string(s: Seq<char>, content: Seq<char>) -> Result<
    (Seq<char>, Seq<char>),
    Failure,
>
    decreases s.len(),
{
    if s.len() == 0 {
        Err(Failure::lexing(msg_unterminated_string()))
    } else if s[0] == '"' {
        Ok((content, s.skip(1)))
    } else if s[0] == '\\' {
        if s.len() < 2 {
            Err(Failure::lexing(msg_unterminated_string()))
        } else if s[1] == 't' {
            scan_string(s.skip(2), content.push('\t'))
        } else if s[1] == 'r' {
            scan_string(s.skip(2), content.push('\r'))
        } else if s[1] == 'n' {
            scan_string(s.skip(2), content.push('\n'))
        } else if s[1] == '\\' {
            scan_string(s.skip(2), content.push('\\'))
        } else if s[1] == '"' {
            scan_string(s.skip(2), content.push('"'))
        } else if s[1] == 'u' {
            match unicode_escape(s.skip(2)) {
                Ok(c) => scan_string(s.skip(8), content.push(c)),
                Err(e) => Err(e),
            }
        } else {
            Err(Failure::lexing(msg_unknown_escape(s[1])))
        }
    } else {
        scan_string(s.skip(1), content.push(s[0]))
    }
}

/// The token that a word stands for: a keyword's own token, or an identifier.
pub open spec fn word_token(word: Seq<char>) -> TokenView {
    if word == "nil"@ {
        TokenView::Nil
    } else if word == "true"@ {
        TokenView::True
    } else if word == "false"@ {
        TokenView::False
    } else {
        TokenView::Identifier(word)
    }
}

/// The token that a number's lexeme stands for.
pub open spec fn number_token(lexeme: Seq<char>) -> Result<TokenView, Failure> {
    if dot_count(lexeme) >= 2 {
        Err(Failure::lexing(msg_two_points(lexeme)))
    } else if dot_count(lexeme) == 1 {
        if lexeme.last() == '.' {
            Err(Failure::lexing(msg_trailing_point(lexeme)))
        } else if is_double_literal(lexeme) {
            Ok(TokenView::Double(lexeme))
        } else {
            Err(Failure::lexing(msg_malformed_number(lexeme)))
        }
    } else {
        match integer_value(lexeme) {
            Some(i) => Ok(TokenView::Integer(i)),
            None => Err(Failure::lexing(msg_malformed_number(lexeme))),
        }
    }
}

/// The token at the start of `s`, which is not empty and starts with neither
/// white space nor a comment, and what is left of the input behind it.
#[verifier::opaque]
pub open spec fn token_at(s: Seq<char>) -> Result<(TokenView, Seq<char>), Failure> {
    let c = s[0];
    if c == '(' {
        Ok((TokenView::LeftParenthesis, s.skip(1)))
    } else if c == ')' {
        Ok((TokenView::RightParenthesis, s.skip(1)))
    } else if c == '[' {
        Ok((TokenView::LeftBracket, s.skip(1)))
    } else if c == ']' {
        Ok((TokenView::RightBracket, s.skip(1)))
    } else if c == '{' {
        Ok((TokenView::LeftBrace, s.skip(1)))
    } else if c == '}' {
        Ok((TokenView::RightBrace, s.skip(1)))
    } else if c == ':' {
        Ok((TokenView::Colon, s.skip(1)))
    } else if c == ',' {
        Ok((TokenView::Comma, s.skip(1)))
    } else if c == '@' {
        Ok((TokenView::At, s.skip(1)))
    } else if spec_is_letter(c) {
        let n = ident_len(s) as int;
        Ok((word_token(s.take(n)), s.skip(n)))
    } else if c == '"' {
        match scan_string(s.skip(1), Seq::empty()) {
            Ok((content, rest)) => Ok((TokenView::String(content), rest)),
            Err(e) => Err(e),
        }
    } else if spec_is_digit(c) || c == '-' {
        let n = 1 + number_len(s.skip(1)) as int;
        match number_token(s.take(n)) {
            Ok(token) => Ok((token, s.skip(n))),
            Err(e) => Err(e),
        }
    } else {
        Err(Failure::lexing(msg_unknown_char(c)))
    }
}

/// The next token of the input `s` and what is left behind it; `None` at
/// the end of the input.
#[verifier::opaque]
pub open spec fn next_token(s: Seq<char>) -> Result<Option<(TokenView, Seq<char>)>, Failure> {
    let t = skip_blank(s);
    if t.len() == 0 {
        Ok(None)
    } else {
        match token_at(t) {
            Ok(found) => Ok(Some(found)),
            Err(e) => Err(e),
        }
    }
}

/// The prefix of a digit sequence denotes no more than the whole.
pub proof fn lemma_decimal_value_prefix(digits: Seq<char>, k: int)
    requires
        all_digits(digits),
        0 <= k <= digits.len(),
    ensures
        decimal_value(digits.take(k)) <= decimal_value(digits),
    decreases digits.len() - k,
{
    if k == digits.len() {
        assert(digits.take(k) == digits);
    } else {
        lemma_decimal_value_prefix(digits, k + 1);
        assert(digits.take(k + 1).drop_last() == digits.take(k));
        assert(spec_is_digit(digits[k]));
    }
}

/// A token is never empty: what is left behind it is a proper suffix of the
/// input.
pub proof fn lemma_next_token_shrinks(s: Seq<char>)
    ensures
        match next_token(s) {
            Ok(Some((_, rest))) => rest.len() < s.len() && rest == s.skip(s.len() - rest.len()),
            _ => true,
        },
{
    reveal(next_token);
    lemma_skip_blank(s);
    let t = skip_blank(s);
    if t.len() > 0 {
        lemma_token_at_shrinks(t);
        match token_at(t) {
            Ok((_, rest)) => {
                assert(t.skip(t.len() - rest.len()) == s.skip(s.len() - rest.len()));
            },
            Err(_) => {},
        }
    }
}

/// What is left after white space and comments is a suffix of the input.
pub proof fn lemma_skip_blank(s: Seq<char>)
    ensures
        skip_blank(s).len() <= s.len(),
        skip_blank(s) == s.skip(s.len() - skip_blank(s).len()),
    decreases s.len(),
{
    if s.len() == 0 {
        assert(s.skip(0) == s);
    } else if s[0] == '#' {
        lemma_skip_comment(s.skip(1));
        let c = skip_comment(s.skip(1));
        lemma_skip_blank(c);
        let r = skip_blank(c);
        assert(c == s.skip(s.len() - c.len()));
        assert(r == s.skip(s.len() - r.len()));
    } else if spec_is_whitespace(s[0]) {
        lemma_skip_blank(s.skip(1));
        let r = skip_blank(s.skip(1));
        assert(s.skip(1).skip(s.skip(1).len() - r.len()) == s.skip(s.len() - r.len()));
    } else {
        assert(s.skip(0) == s);
    }
}

/// What is left behind a string literal is a proper suffix of the input.
pub proof fn lemma_scan_string_shrinks(s: Seq<char>, content: Seq<char>)
    ensures
        match scan_string(s, content) {
            Ok((_, rest)) => rest.len() < s.len() && rest == s.skip(s.len() - rest.len()),
            Err(_) => true,
        },
    decreases s.len(),
{
    if s.len() == 0 {
    } else if s[0] == '"' {
    } else if s[0] == '\\' {
        if s.len() < 2 {
        } else if s[1] == 't' || s[1] == 'r' || s[1] == 'n' || s[1] == '\\' || s[1] == '"' {
            let c = if s[1] == 't' {
                '\t'
            } else if s[1] == 'r' {
                '\r'
            } else if s[1] == 'n' {
                '\n'
            } else if s[1] == '\\' {
                '\\'
            } else {
                '"'
            };
            lemma_scan_string_shrinks(s.skip(2), content.push(c));
            match scan_string(s.skip(2), content.push(c)) {
                Ok((_, rest)) => {
                    assert(s.skip(2).skip(s.skip(2).len() - rest.len()) == s.skip(
                        s.len() - rest.len(),
                    ));
                },
                Err(_) => {},
            }
        } else if s[1] == 'u' {
            match unicode_escape(s.skip(2)) {
                Ok(c) => {
                    lemma_scan_string_shrinks(s.skip(8), content.push(c));
                    match scan_string(s.skip(8), content.push(c)) {
                        Ok((_, rest)) => {
                            assert(s.skip(8).skip(s.skip(8).len() - rest.len()) == s.skip(
                                s.len() - rest.len(),
                            ));
                        },
                        Err(_) => {},
                    }
                },
                Err(_) => {},
            }
        } else {
        }
    } else {
        lemma_scan_string_shrinks(s.skip(1), content.push(s[0]));
        match scan_string(s.skip(1), content.push(s[0])) {
            Ok((_, rest)) => {
                assert(s.skip(1).skip(s.skip(1).len() - rest.len()) == s.skip(
                    s.len() - rest.len(),
                ));
            },
            Err(_) => {},
        }
    }
}

/// The prefix lengths stay within the input.
pub proof fn lemma_prefix_lens(s: Seq<char>)
    ensures
        ident_len(s) <= s.len(),
        number_len(s) <= s.len(),
    decreases s.len(),
{
    if s.len() > 0 {
        lemma_prefix_lens(s.skip(1));
    }
}

/// What is left behind a token is a proper suffix of the input.
pub proof fn lemma_token_at_shrinks(s: Seq<char>)
    requires
        s.len() > 0,
    ensures
        match token_at(s) {
            Ok((_, rest)) => rest.len() < s.len() && rest == s.skip(s.len() - rest.len()),
            Err(_) => true,
        },
{
    reveal(token_at);
    let c = s[0];
    lemma_prefix_lens(s);
    lemma_prefix_lens(s.skip(1));
    if c == '"' {
        lemma_scan_string_shrinks(s.skip(1), Seq::empty());
        match scan_string(s.skip(1), Seq::empty()) {
            Ok((_, rest)) => {
                assert(s.skip(1).skip(s.skip(1).len() - rest.len()) == s.skip(
                    s.len() - rest.len(),
                ));
            },
            Err(_) => {},
        }
    }
}

/// A lexer over a text: the tokens are read one by one from the front.
pub struct Lexer {
    chars: Vec<char>,
    pos: usize,
}

/// The value of a hexadecimal digit.
fn hex_digit_value(c: char) -> (v: u32)
    requires
        spec_is_hex_digit(c),
    ensures
        v == hex_value(c),
        v < 16,
{
    if is_digit(c) {
        c as u32 - '0' as u32
    } else if 'a' <= c && c <= 'f' {
        c as u32 - 'a' as u32 + 10
    } else {
        c as u32 - 'A' as u32 + 10
    }
}

/// The 64-bit integer that the lexeme denotes, if it denotes one.
pub fn parse_integer(lexeme: &Vec<char>) -> (r: Option<i64>)
    ensures
        r == integer_value(lexeme@),
{
    let n = lexeme.len();
    let negative = n > 0 && lexeme[0] == '-';
    let start: usize = if negative {
        1
    } else {
        0
    };
    let ghost digits = if negative {
        lexeme@.skip(1)
    } else {
        lexeme@
    };
    assert(lexeme@.skip(0) == lexeme@);
    if n == start {
        return None;
    }
    let mut acc: u64 = 0;
    let mut i: usize = start;
    assert(digits.take(0) == Seq::<char>::empty());
    while i < n
        invariant
            start <= i <= n,
            n == lexeme.len(),
            negative == (n > 0 && lexeme@[0] == '-'),
            start == if negative { 1usize } else { 0usize },
            digits == if negative { lexeme@.skip(1) } else { lexeme@ },
            digits == lexeme@.skip(start as int),
            all_digits(digits.take(i - start)),
            acc == decimal_value(digits.take(i - start)),
            acc <= 9223372036854775809,
        decreases n - i,
    {
        let c = lexeme[i];
        assert(c == digits[i - start]);
        if !is_digit(c) {
            assert(!spec_is_digit(digits[i - start]));
            return None;
        }
        let ghost longer = digits.take(i - start + 1);
        assert(longer.drop_last() == digits.take(i - start));
        assert(longer.last() == c);
        assert(decimal_value(longer) == acc * 10 + digit_value(c));
        assert(all_digits(longer));
        if acc > 922337203685477580 {
            proof {
                if all_digits(digits) {
                    lemma_decimal_value_prefix(digits, i - start + 1);
                }
            }
            return None;
        }
        acc = acc * 10 + (c as u64 - '0' as u64);
        i += 1;
    }
    assert(digits.take(n - start) == digits);
    if negative {
        if acc > 9223372036854775808 {
            None
        } else if acc == 9223372036854775808 {
            Some(i64::MIN)
        } else {
            Some(-(acc as i64))
        }
    } else {
        if acc > 9223372036854775807 {
            None
        } else {
            Some(acc as i64)
        }
    }
}

/// The text with the given characters.
fn text_of(chars: &Vec<char>) -> (r: String)
    ensures
        r@ == chars@,
{
    let mut r = String::new();
    push_all(&mut r, chars);
    r
}

impl Lexer {
    #[verifier::type_invariant]
    spec fn in_bounds(self) -> bool {
        self.pos <= self.chars@.len()
    }

    /// The input that is still to be read.
    pub closed spec fn remaining(&self) -> Seq<char> {
        self.chars@.skip(self.pos as int)
    }

    /// A lexer at the start of `code`.
    pub fn new(code: &str) -> (lexer: Lexer)
        ensures
            lexer.remaining() == code@,
    {
        let chars = to_chars(code);
        assert(chars@.skip(0) == chars@);
        Lexer { chars, pos: 0 }
    }

    /// How many characters are still to be read.
    pub fn remaining_len(&self) -> (n: usize)
        ensures
            n == self.remaining().len(),
    {
        proof {
            use_type_invariant(self);
        }
        self.chars.len() - self.pos
    }

    /// The next token, or `None` at the end of the input. White space and
    /// comments before the token are passed over.
    pub fn next(&mut self) -> (r: Result<Option<Token>, AeonDeserializeError>)
        ensures
            match next_token(old(self).remaining()) {
                Ok(Some((token, rest))) => {
                    &&& r matches Ok(Some(t))
                    &&& t@ == token
                    &&& final(self).remaining() == rest
                    &&& rest.len() < old(self).remaining().len()
                },
                Ok(None) => r matches Ok(None) && final(self).remaining().len() == 0,
                Err(e) => r matches Err(error) && error@ == e,
            },
    {
        proof {
            lemma_next_token_shrinks(self.remaining());
        }
        self.perform_full_match()
    }

    /// Passes over a comment, through the next line feed.
    fn skip_comment(&mut self)
        ensures
            final(self).remaining() == skip_comment(old(self).remaining()),
    {
        proof {
            use_type_invariant(&*self);
        }
        let n = self.chars.len();
        let mut pos = self.pos;
        while pos < n && self.chars[pos] != '\n'
            invariant
                pos <= n,
                n == self.chars.len(),
                self.chars == old(self).chars,
                skip_comment(self.chars@.skip(pos as int)) == skip_comment(old(self).remaining()),
            decreases n - pos,
        {
            assert(self.chars@.skip(pos as int).skip(1) == self.chars@.skip(pos + 1));
            pos += 1;
        }
        if pos < n {
            assert(self.chars@.skip(pos as int).skip(1) == self.chars@.skip(pos + 1));
            pos += 1;
        }
        self.pos = pos;
    }

    /// Passes over white space and comments, then reads a token.
    fn perform_full_match(&mut self) -> (r: Result<Option<Token>, AeonDeserializeError>)
        ensures
            match next_token(old(self).remaining()) {
                Ok(Some((token, rest))) => {
                    &&& r matches Ok(Some(t))
                    &&& t@ == token
                    &&& final(self).remaining() == rest
                },
                Ok(None) => r matches Ok(None) && final(self).remaining().len() == 0,
                Err(e) => r matches Err(error) && error@ == e,
            },
    {
        loop
            invariant
                skip_blank(self.remaining()) == skip_blank(old(self).remaining()),
            decreases self.remaining().len(),
        {
            proof {
                reveal(next_token);
                use_type_invariant(&*self);
            }
            if self.pos >= self.chars.len() {
                return Ok(None);
            }
            let now = self.chars[self.pos];
            let ghost before = self.remaining();
            assert(before.skip(1) == self.chars@.skip(self.pos + 1));
            if now == '#' {
                self.pos += 1;
                self.skip_comment();
                proof {
                    lemma_skip_comment(before.skip(1));
                }
            } else if is_whitespace(now) {
                self.pos += 1;
            } else {
                return self.perform_match();
            }
        }
    }

    /// Reads the token at the cursor.
    fn perform_match(&mut self) -> (r: Result<Option<Token>, AeonDeserializeError>)
        requires
            old(self).remaining().len() > 0,
        ensures
            match token_at(old(self).remaining()) {
                Ok((token, rest)) => {
                    &&& r matches Ok(Some(t))
                    &&& t@ == token
                    &&& final(self).remaining() == rest
                },
                Err(e) => r matches Err(error) && error@ == e,
            },
    {
        proof {
            use_type_invariant(&*self);
        }
        reveal(token_at);
        assert(self.pos < self.chars.len());
        let now = self.chars[self.pos];
        assert(self.remaining().skip(1) == self.chars@.skip(self.pos + 1));
        if is_letter(now) {
            return self.get_identifier();
        }
        if now == '"' {
            return self.get_string();
        }
        if is_digit(now) || now == '-' {
            return self.get_number();
        }
        let token = match now {
            '(' => Token::LeftParenthesis,
            ')' => Token::RightParenthesis,
            '[' => Token::LeftBracket,
            ']' => Token::RightBracket,
            '{' => Token::LeftBrace,
            '}' => Token::RightBrace,
            ':' => Token::Colon,
            ',' => Token::Comma,
            '@' => Token::At,
            _ => {
                let mut message = String::from_str("Unknown char ");
                message.push(now);
                return Err(AeonDeserializeError::lexing(message));
            },
        };
        self.pos += 1;
        Ok(Some(token))
    }

    /// Reads an identifier or a keyword.
    fn get_identifier(&mut self) -> (r: Result<Option<Token>, AeonDeserializeError>)
        requires
            old(self).remaining().len() > 0,
            spec_is_letter(old(self).remaining()[0]),
        ensures
            r matches Ok(Some(t)) && t@ == word_token(
                old(self).remaining().take(ident_len(old(self).remaining()) as int),
            ),
            final(self).remaining() == old(self).remaining().skip(
                ident_len(old(self).remaining()) as int,
            ),
    {
        proof {
            use_type_invariant(&*self);
        }
        let ghost start = self.remaining();
        let n = self.chars.len();
        let first = self.pos;
        let mut pos = self.pos;
        let mut word = String::new();
        assert(start.take(0) == Seq::<char>::empty());
        assert(start.skip(0) == start);
        while pos < n && is_ident_char(self.chars[pos])
            invariant
                first <= pos <= n,
                n == self.chars.len(),
                first == old(self).pos,
                self.chars == old(self).chars,
                start == self.chars@.skip(first as int),
                word@ == start.take(pos - first),
                ident_len(start) == (pos - first) + ident_len(start.skip(pos - first)),
            decreases n - pos,
        {
            word.push(self.chars[pos]);
            assert(start.skip(pos - first).skip(1) == start.skip(pos - first + 1));
            assert(start.take(pos - first + 1) == start.take(pos - first).push(
                self.chars@[pos as int],
            ));
            pos += 1;
        }
        assert(start.skip(pos - first) == self.chars@.skip(pos as int));
        self.pos = pos;
        let token = if word == String::from_str("nil") {
            Token::Nil
        } else if word == String::from_str("true") {
            Token::True
        } else if word == String::from_str("false") {
            Token::False
        } else {
            Token::Identifier(word)
        };
        Ok(Some(token))
    }

    /// Reads a number: an integer, or a double where it holds a decimal
    /// point.
    fn get_number(&mut self) -> (r: Result<Option<Token>, AeonDeserializeError>)
        requires
            old(self).remaining().len() > 0,
        ensures
            ({
                let s = old(self).remaining();
                let n = 1 + number_len(s.skip(1)) as int;
                match number_token(s.take(n)) {
                    Ok(token) => {
                        &&& r matches Ok(Some(t))
                        &&& t@ == token
                        &&& final(self).remaining() == s.skip(n)
                    },
                    Err(e) => r matches Err(error) && error@ == e,
                }
            }),
    {
        proof {
            use_type_invariant(&*self);
        }
        let ghost start = self.remaining();
        let n = self.chars.len();
        let first = self.pos;
        let mut lexeme: Vec<char> = Vec::new();
        lexeme.push(self.chars[first]);
        let mut dots: usize = if self.chars[first] == '.' {
            1
        } else {
            0
        };
        let mut pos = first + 1;
        assert(lexeme@ == start.take(1));
        assert(lexeme@.drop_last() == Seq::<char>::empty());
        assert(dot_count(lexeme@.drop_last()) == 0);
        assert(start.skip(1).skip(0) == start.skip(1));
        while pos < n && is_number_char(self.chars[pos])
            invariant
                first < pos <= n,
                n == self.chars.len(),
                first == old(self).pos,
                self.chars == old(self).chars,
                start == self.chars@.skip(first as int),
                lexeme@ == start.take(pos - first),
                dots == dot_count(lexeme@),
                dots <= pos - first,
                number_len(start.skip(1)) == (pos - first - 1) + number_len(
                    start.skip(pos - first),
                ),
            decreases n - pos,
        {
            let c = self.chars[pos];
            lexeme.push(c);
            assert(start.skip(pos - first).skip(1) == start.skip(pos - first + 1));
            assert(start.take(pos - first + 1) == start.take(pos - first).push(c));
            assert(start.take(pos - first + 1).drop_last() == start.take(pos - first));
            if c == '.' {
                dots += 1;
            }
            pos += 1;
        }
        assert(start.skip(pos - first) == self.chars@.skip(pos as int));
        self.pos = pos;
        if dots >= 2 {
            let mut message = String::from_str("Two decimal points in number: ");
            message.append(text_of(&lexeme).as_str());
            Err(AeonDeserializeError::lexing(message))
        } else if dots == 1 {
            if lexeme[lexeme.len() - 1] == '.' {
                let mut message = String::from_str("Trailing decimal point in number: ");
                message.append(text_of(&lexeme).as_str());
                Err(AeonDeserializeError::lexing(message))
            } else if check_double_literal(&lexeme) {
                Ok(Some(Token::Double(AeonDouble::from_literal(&lexeme))))
            } else {
                let mut message = String::from_str("Malformed number: ");
                message.append(text_of(&lexeme).as_str());
                Err(AeonDeserializeError::lexing(message))
            }
        } else {
            match parse_integer(&lexeme) {
                Some(i) => Ok(Some(Token::Integer(i))),
                None => {
                    let mut message = String::from_str("Malformed number: ");
                    message.append(text_of(&lexeme).as_str());
                    Err(AeonDeserializeError::lexing(message))
                },
            }
        }
    }

    /// Reads a string literal; the cursor is at its opening quote.
    fn get_string(&mut self) -> (r: Result<Option<Token>, AeonDeserializeError>)
        requires
            old(self).remaining().len() > 0,
        ensures
            match scan_string(old(self).remaining().skip(1), Seq::empty()) {
                Ok((content, rest)) => {
                    &&& r matches Ok(Some(t))
                    &&& t@ == TokenView::String(content)
                    &&& final(self).remaining() == rest
                },
                Err(e) => r matches Err(error) && error@ == e,
            },
    {
        proof {
            use_type_invariant(&*self);
        }
        let ghost goal = scan_string(self.remaining().skip(1), Seq::empty());
        let n = self.chars.len();
        let mut pos = self.pos + 1;
        let mut content = String::new();
        assert(self.remaining().skip(1) == self.chars@.skip(pos as int));
        while pos < n
            invariant
                pos <= n,
                n == self.chars.len(),
                self.chars == old(self).chars,
                self.pos <= n,
                goal == scan_string(old(self).remaining().skip(1), Seq::empty()),
                scan_string(self.chars@.skip(pos as int), content@) == goal,
            decreases n - pos,
        {
            let ghost s = self.chars@.skip(pos as int);
            let t = self.chars[pos];
            assert(s.len() > 0 && s[0] == t);
            assert(s.skip(1) == self.chars@.skip(pos + 1));
            if t == '"' {
                self.pos = pos + 1;
                return Ok(Some(Token::String(content)));
            } else if t == '\\' {
                if pos + 1 >= n {
                    return Err(
                        AeonDeserializeError::lexing(String::from_str("Unterminated string")),
                    );
                }
                let next = self.chars[pos + 1];
                assert(s[1] == next);
                assert(s.skip(2) == self.chars@.skip(pos + 2));
                if next == 't' {
                    content.push('\t');
                    pos += 2;
                } else if next == 'r' {
                    content.push('\r');
                    pos += 2;
                } else if next == 'n' {
                    content.push('\n');
                    pos += 2;
                } else if next == '\\' {
                    content.push('\\');
                    pos += 2;
                } else if next == '"' {
                    content.push('"');
                    pos += 2;
                } else if next == 'u' {
                    let ghost u = s.skip(2);
                    if n - pos < 8 || self.chars[pos + 2] != '{' || !is_hex_digit(
                        self.chars[pos + 3],
                    ) || !is_hex_digit(self.chars[pos + 4]) || !is_hex_digit(self.chars[pos + 5])
                        || !is_hex_digit(self.chars[pos + 6]) || self.chars[pos + 7] != '}' {
                        return Err(
                            AeonDeserializeError::lexing(
                                String::from_str(
                                    "Expected exactly 4 hex digits between '{' and '}' after '\\u' in string",
                                ),
                            ),
                        );
                    }
                    let code: u32 = hex_digit_value(self.chars[pos + 3]) * 4096 + hex_digit_value(
                        self.chars[pos + 4],
                    ) * 256 + hex_digit_value(self.chars[pos + 5]) * 16 + hex_digit_value(
                        self.chars[pos + 6],
                    );
                    match char::from_u32(code) {
                        Some(c) => {
                            content.push(c);
                            assert(s.skip(8) == self.chars@.skip(pos + 8));
                            pos += 8;
                        },
                        None => {
                            return Err(
                                AeonDeserializeError::lexing(
                                    String::from_str(
                                        "Invalid unicode scalar after '\\u' in string",
                                    ),
                                ),
                            );
                        },
                    }
                } else {
                    let mut message = String::from_str("Unknown escape in string: \\");
                    message.push(next);
                    return Err(AeonDeserializeError::lexing(message));
                }
            } else {
                content.push(t);
                pos += 1;
            }
        }
        Err(AeonDeserializeError::lexing(String::from_str("Unterminated string")))
    }
}

} // verus!
