//! What the lexer reads of the text that the serializer writes.
use crate::lexer::{
    dot_count, ident_len, integer_value, next_token, number_len, scan_string, spec_is_number_char,
    token_at, word_token,
};
use crate::serializer::{escape, escape_char, valid_identifier};
use crate::text::{
    all_digits, decimal_value, digit_char, int_text, nat_text, spaces, spec_is_digit,
    spec_is_ident_char, spec_is_letter, spec_is_whitespace,
};
use crate::token::TokenView;
use crate::value::{is_double_literal, is_double_literal_at};
use vstd::prelude::*;

verus! {

/// Whether a word that stands before `t` ends there: `t` is empty or starts
/// with a character that goes on no identifier.
pub open spec fn ends_word(t: Seq<char>) -> bool {
    t.len() == 0 || !spec_is_ident_char(t[0])
}

/// Whether a number that stands before `t` ends there: `t` is empty or
/// starts with a character that goes on no number.
pub open spec fn ends_number(t: Seq<char>) -> bool {
    t.len() == 0 || !spec_is_number_char(t[0])
}

/// Whether `c` is one of the single-character structural tokens.
pub open spec fn is_punctuation(c: char) -> bool {
    c == '(' || c == ')' || c == '[' || c == ']' || c == '{' || c == '}' || c == ':' || c == ','
        || c == '@'
}

/// The token that a structural character is.
pub open spec fn punctuation(c: char) -> TokenView {
    if c == '(' {
        TokenView::LeftParenthesis
    } else if c == ')' {
        TokenView::RightParenthesis
    } else if c == '[' {
        TokenView::LeftBracket
    } else if c == ']' {
        TokenView::RightBracket
    } else if c == '{' {
        TokenView::LeftBrace
    } else if c == '}' {
        TokenView::RightBrace
    } else if c == ':' {
        TokenView::Colon
    } else if c == ',' {
        TokenView::Comma
    } else {
        TokenView::At
    }
}

/// White space before a token does not change the token.
pub proof fn lemma_token_after_blank(c: char, t: Seq<char>)
    requires
        spec_is_whitespace(c),
    ensures
        next_token(seq![c] + t) == next_token(t),
{
    reveal(next_token);
    let s = seq![c] + t;
    assert(s[0] == c);
    assert(s.skip(1) == t);
}

/// Indentation before a token does not change the token.
pub proof fn lemma_token_after_spaces(n: nat, t: Seq<char>)
    ensures
        next_token(spaces(n) + t) == next_token(t),
    decreases n,
{
    if n == 0 {
        assert(spaces(0) + t == t);
    } else {
        lemma_token_after_spaces((n - 1) as nat, t);
        assert(spaces(n) + t == seq![' '] + (spaces((n - 1) as nat) + t));
        lemma_token_after_blank(' ', spaces((n - 1) as nat) + t);
    }
}

/// A structural character is read as its token.
pub proof fn lemma_token_punctuation(c: char, t: Seq<char>)
    requires
        is_punctuation(c),
    ensures
        next_token(seq![c] + t) == Ok::<_, crate::error::Failure>(Some((punctuation(c), t))),
{
    reveal(next_token);
    reveal(token_at);
    let s = seq![c] + t;
    assert(s[0] == c);
    assert(s.skip(1) == t);
}

/// A run of identifier characters that ends before `t` is the longest
/// prefix of identifier characters.
pub proof fn lemma_ident_len(w: Seq<char>, t: Seq<char>)
    requires
        forall|i: int| 0 <= i < w.len() ==> spec_is_ident_char(#[trigger] w[i]),
        ends_word(t),
    ensures
        ident_len(w + t) == w.len(),
    decreases w.len(),
{
    if w.len() == 0 {
        assert(w + t == t);
    } else {
        assert((w + t)[0] == w[0]);
        assert((w + t).skip(1) == w.skip(1) + t);
        assert forall|i: int| 0 <= i < w.skip(1).len() implies spec_is_ident_char(
            #[trigger] w.skip(1)[i],
        ) by {
            assert(w.skip(1)[i] == w[i + 1]);
        }
        lemma_ident_len(w.skip(1), t);
    }
}

/// A word that starts with a letter and ends before `t` is read as the
/// token that the word stands for.
pub proof fn lemma_token_word(w: Seq<char>, t: Seq<char>)
    requires
        w.len() > 0,
        spec_is_letter(w[0]),
        forall|i: int| 0 <= i < w.len() ==> spec_is_ident_char(#[trigger] w[i]),
        ends_word(t),
    ensures
        next_token(w + t) == Ok::<_, crate::error::Failure>(Some((word_token(w), t))),
{
    reveal(next_token);
    reveal(token_at);
    let s = w + t;
    assert(s[0] == w[0]);
    lemma_ident_len(w, t);
    assert(s.take(w.len() as int) == w);
    assert(s.skip(w.len() as int) == t);
}

/// An identifier that ends before `t` is read as itself.
pub proof fn lemma_token_identifier(w: Seq<char>, t: Seq<char>)
    requires
        valid_identifier(w),
        ends_word(t),
    ensures
        next_token(w + t) == Ok::<_, crate::error::Failure>(
            Some((TokenView::Identifier(w), t)),
        ),
{
    lemma_token_word(w, t);
}

/// The keywords are read as their own tokens.
pub proof fn lemma_token_keyword(t: Seq<char>)
    requires
        ends_word(t),
    ensures
        next_token("nil"@ + t) == Ok::<_, crate::error::Failure>(Some((TokenView::Nil, t))),
        next_token("true"@ + t) == Ok::<_, crate::error::Failure>(Some((TokenView::True, t))),
        next_token("false"@ + t) == Ok::<_, crate::error::Failure>(Some((TokenView::False, t))),
{
    reveal_strlit("nil");
    reveal_strlit("true");
    reveal_strlit("false");
    lemma_token_word("nil"@, t);
    lemma_token_word("true"@, t);
    lemma_token_word("false"@, t);
    assert("true"@ != "nil"@);
    assert("false"@ != "nil"@);
    assert("false"@ != "true"@);
}

/// Reading back a string's escaped content, up to the closing quote, gives
/// the content.
pub proof fn lemma_scan_escaped(s: Seq<char>, content: Seq<char>, t: Seq<char>)
    ensures
        scan_string(escape(s) + seq!['"'] + t, content) == Ok::<_, crate::error::Failure>(
            (content + s, t),
        ),
    decreases s.len(),
{
    let input = escape(s) + seq!['"'] + t;
    if s.len() == 0 {
        assert(input[0] == '"');
        assert(input.skip(1) == t);
        assert(content + s == content);
    } else {
        let c = s[0];
        let tail = escape(s.skip(1)) + seq!['"'] + t;
        lemma_scan_escaped(s.skip(1), content.push(c), t);
        assert(content.push(c) + s.skip(1) == content + s);
        assert(input == escape_char(c) + tail);
        if c == '\\' || c == '\r' || c == '\n' || c == '\t' || c == '"' {
            assert(input[0] == '\\');
            assert(input[1] == escape_char(c)[1]);
            assert(input.skip(2) == tail);
        } else {
            assert(input[0] == c);
            assert(input.skip(1) == tail);
        }
    }
}

/// A string literal, as the serializer writes it, is read as the string.
pub proof fn lemma_token_string(s: Seq<char>, t: Seq<char>)
    ensures
        next_token(seq!['"'] + escape(s) + seq!['"'] + t) == Ok::<_, crate::error::Failure>(
            Some((TokenView::String(s), t)),
        ),
{
    reveal(next_token);
    reveal(token_at);
    let input = seq!['"'] + escape(s) + seq!['"'] + t;
    assert(input[0] == '"');
    assert(input.skip(1) == escape(s) + seq!['"'] + t);
    lemma_scan_escaped(s, Seq::empty(), t);
    assert(Seq::<char>::empty() + s == s);
}

/// The digits of a natural number denote the number.
pub proof fn lemma_nat_text(n: nat)
    ensures
        nat_text(n).len() >= 1,
        all_digits(nat_text(n)),
        decimal_value(nat_text(n)) == n,
    decreases n,
{
    if n < 10 {
        let s = seq![digit_char(n as int)];
        assert(s.drop_last() == Seq::<char>::empty());
        assert(decimal_value(s.drop_last()) == 0);
        assert(s.last() == digit_char(n as int));
    } else {
        lemma_nat_text(n / 10);
        let s = nat_text(n / 10).push(digit_char((n % 10) as int));
        assert(s.drop_last() == nat_text(n / 10));
        assert(s.last() == digit_char((n % 10) as int));
        assert forall|i: int| 0 <= i < s.len() implies spec_is_digit(#[trigger] s[i]) by {
            if i < s.len() - 1 {
                assert(s[i] == nat_text(n / 10)[i]);
            }
        }
    }
}

/// A run of number characters that ends before `t` is the longest prefix of
/// number characters.
pub proof fn lemma_number_len(w: Seq<char>, t: Seq<char>)
    requires
        forall|i: int| 0 <= i < w.len() ==> spec_is_number_char(#[trigger] w[i]),
        ends_number(t),
    ensures
        number_len(w + t) == w.len(),
    decreases w.len(),
{
    if w.len() == 0 {
        assert(w + t == t);
    } else {
        assert((w + t)[0] == w[0]);
        assert((w + t).skip(1) == w.skip(1) + t);
        assert forall|i: int| 0 <= i < w.skip(1).len() implies spec_is_number_char(
            #[trigger] w.skip(1)[i],
        ) by {
            assert(w.skip(1)[i] == w[i + 1]);
        }
        lemma_number_len(w.skip(1), t);
    }
}

/// The decimal points of a prefix of a text with exactly one, at index `k`.
pub proof fn lemma_dot_count(s: Seq<char>, k: int, n: int)
    requires
        0 <= n <= s.len(),
        forall|i: int| 0 <= i < s.len() && i != k ==> #[trigger] s[i] != '.',
        0 <= k < s.len() ==> s[k] == '.',
    ensures
        dot_count(s.take(n)) == if 0 <= k < n {
            1nat
        } else {
            0nat
        },
    decreases n,
{
    if n > 0 {
        lemma_dot_count(s, k, n - 1);
        assert(s.take(n).drop_last() == s.take(n - 1));
        assert(s.take(n).last() == s[n - 1]);
    }
}

/// An integer's decimal rendering denotes the integer.
pub proof fn lemma_integer_value(i: i64)
    ensures
        integer_value(int_text(i as int)) == Some(i),
        int_text(i as int).len() >= 1,
        spec_is_digit(int_text(i as int)[0]) || int_text(i as int)[0] == '-',
        forall|j: int|
            1 <= j < int_text(i as int).len() ==> spec_is_digit(#[trigger] int_text(i as int)[j]),
{
    let text = int_text(i as int);
    if i < 0 {
        let digits = nat_text((-i) as nat);
        lemma_nat_text((-i) as nat);
        assert(text == seq!['-'] + digits);
        assert(text[0] == '-');
        assert(text.skip(1) == digits);
        assert forall|j: int| 1 <= j < text.len() implies spec_is_digit(#[trigger] text[j]) by {
            assert(text[j] == digits[j - 1]);
        }
    } else {
        lemma_nat_text(i as nat);
        assert(spec_is_digit(text[0]));
    }
}

/// An integer, as the serializer writes it, is read as the integer.
pub proof fn lemma_token_integer(i: i64, t: Seq<char>)
    requires
        ends_number(t),
    ensures
        next_token(int_text(i as int) + t) == Ok::<_, crate::error::Failure>(
            Some((TokenView::Integer(i), t)),
        ),
{
    reveal(next_token);
    reveal(token_at);
    let text = int_text(i as int);
    let input = text + t;
    lemma_integer_value(i);
    assert(input[0] == text[0]);
    assert(input.skip(1) == text.skip(1) + t);
    assert forall|j: int| 0 <= j < text.skip(1).len() implies spec_is_number_char(
        #[trigger] text.skip(1)[j],
    ) by {
        assert(text.skip(1)[j] == text[j + 1]);
    }
    lemma_number_len(text.skip(1), t);
    assert(input.take(text.len() as int) == text);
    assert(input.skip(text.len() as int) == t);
    lemma_dot_count(text, -1, text.len() as int);
    assert(text.take(text.len() as int) == text);
}

/// A double's literal is read as the double.
pub proof fn lemma_token_double(d: Seq<char>, t: Seq<char>)
    requires
        is_double_literal(d),
        ends_number(t),
    ensures
        next_token(d + t) == Ok::<_, crate::error::Failure>(Some((TokenView::Double(d), t))),
{
    reveal(next_token);
    reveal(token_at);
    let k = choose|k: int| is_double_literal_at(d, k);
    let input = d + t;
    assert(input[0] == d[0]);
    assert(input.skip(1) == d.skip(1) + t);
    assert forall|j: int| 0 <= j < d.skip(1).len() implies spec_is_number_char(
        #[trigger] d.skip(1)[j],
    ) by {
        assert(d.skip(1)[j] == d[j + 1]);
        if j + 1 != k {
            assert(spec_is_digit(d[j + 1]));
        }
    }
    lemma_number_len(d.skip(1), t);
    assert(input.take(d.len() as int) == d);
    assert(input.skip(d.len() as int) == t);
    assert forall|i: int| 0 <= i < d.len() && i != k implies #[trigger] d[i] != '.' by {
        if i > 0 {
            assert(spec_is_digit(d[i]));
        }
    }
    lemma_dot_count(d, k, d.len() as int);
    assert(d.take(d.len() as int) == d);
    assert(spec_is_digit(d[d.len() - 1]));
}

} // verus!
