//! The lexer: a single left-to-right scan over the program text with two
//! accumulation buffers, one for contiguous digits and one for contiguous
//! alphabetic characters.
//!
//! Every character that is neither a digit nor alphabetic first flushes the
//! digit buffer, and — unless it is itself a digit or letter — the word
//! buffer too. The eight one-character symbols then emit their token;
//! whitespace and every unsupported character emit nothing. Lexing only
//! fails when a digit run does not fit the integer range.

use vstd::prelude::*;

use crate::token::{lemma_tokens_view_push, tokens_view, Token, TokenV};

verus! {

broadcast use lemma_tokens_view_push;

/// The one way lexing can fail: a numeric literal that exceeds the supported
/// integer range.
#[derive(Debug, Clone, Copy, PartialEq, Eq, Structural)]
pub enum LexError {
    NumberOutOfRange,
}

/// A decimal digit.
pub open spec fn is_digit(c: char) -> bool {
    48 <= (c as u32) && (c as u32) <= 57
}

/// An ASCII letter, either case.
pub open spec fn is_alpha(c: char) -> bool {
    (97 <= (c as u32) && (c as u32) <= 122) || (65 <= (c as u32) && (c as u32) <= 90)
}

/// One of the eight one-character tokens.
pub open spec fn is_symbol(c: char) -> bool {
    c == '+' || c == '-' || c == '*' || c == '/' || c == '(' || c == ')' || c == '=' || c == ';'
}

/// The token a one-character symbol emits.
pub open spec fn symbol_token(c: char) -> TokenV
    recommends
        is_symbol(c),
{
    if c == '+' {
        TokenV::Plus
    } else if c == '-' {
        TokenV::Minus
    } else if c == '*' {
        TokenV::Multiply
    } else if c == '/' {
        TokenV::Divide
    } else if c == '(' {
        TokenV::LeftParenthesis
    } else if c == ')' {
        TokenV::RightParenthesis
    } else if c == '=' {
        TokenV::Equal
    } else {
        TokenV::Semicolon
    }
}

/// The value of a digit run read as a decimal numeral.
pub open spec fn digits_value(s: Seq<char>) -> int
    decreases s.len(),
{
    if s.len() == 0 {
        0
    } else {
        digits_value(s.drop_last()) * 10 + ((s.last() as u32) - 48)
    }
}

/// The token an alphabetic run turns into: one of the three exact lowercase
/// keywords, or an identifier.
pub open spec fn word_token(w: Seq<char>) -> TokenV {
    if w == "wait"@ {
        TokenV::WaitKeyword
    } else if w == "print"@ {
        TokenV::PrintKeyword
    } else if w == "let"@ {
        TokenV::LetKeyword
    } else {
        TokenV::Identifier(w)
    }
}

/// Flushing the digit buffer: an empty buffer emits nothing, a run whose
/// value fits the integer range emits its number, and a larger run is the
/// one lexing error.
pub open spec fn flushed_number(num: Seq<char>, toks: Seq<TokenV>) -> Option<Seq<TokenV>> {
    if num.len() == 0 {
        Some(toks)
    } else if digits_value(num) > i32::MAX {
        None
    } else {
        Some(toks.push(TokenV::Number(digits_value(num) as i32)))
    }
}

/// Flushing the word buffer: an empty buffer emits nothing.
pub open spec fn flushed_word(kw: Seq<char>, toks: Seq<TokenV>) -> Seq<TokenV> {
    if kw.len() == 0 {
        toks
    } else {
        toks.push(word_token(kw))
    }
}

/// The lexer's whole state: the two buffers and the tokens emitted so far.
pub struct LexState {
    pub num: Seq<char>,
    pub kw: Seq<char>,
    pub toks: Seq<TokenV>,
}

/// The state before any character is read.
pub open spec fn lex_init() -> LexState {
    LexState { num: Seq::empty(), kw: Seq::empty(), toks: Seq::empty() }
}

/// One character of lexing. Digits and letters accumulate; a digit does not
/// flush the word buffer, but any non-digit flushes the digit buffer.
/// Symbols flush both buffers and emit their token; whitespace and every
/// unsupported character flush both buffers and emit nothing.
pub open spec fn lex_step(st: LexState, c: char) -> Option<LexState> {
    if is_digit(c) {
        Some(LexState { num: st.num.push(c), kw: st.kw, toks: st.toks })
    } else if is_alpha(c) {
        match flushed_number(st.num, st.toks) {
            None => None,
            Some(toks) => Some(LexState { num: Seq::empty(), kw: st.kw.push(c), toks }),
        }
    } else if is_symbol(c) {
        match flushed_number(st.num, st.toks) {
            None => None,
            Some(toks) => Some(
                LexState {
                    num: Seq::empty(),
                    kw: Seq::empty(),
                    toks: flushed_word(st.kw, toks).push(symbol_token(c)),
                },
            ),
        }
    } else {
        match flushed_number(st.num, st.toks) {
            None => None,
            Some(toks) => Some(
                LexState { num: Seq::empty(), kw: Seq::empty(), toks: flushed_word(st.kw, toks) },
            ),
        }
    }
}

/// Lexing a whole character sequence from a given state.
pub open spec fn lex_fold(st: LexState, s: Seq<char>) -> Option<LexState>
    decreases s.len(),
{
    if s.len() == 0 {
        Some(st)
    } else {
        match lex_fold(st, s.drop_last()) {
            None => None,
            Some(st1) => lex_step(st1, s.last()),
        }
    }
}

/// The token sequence a program text lexes to, or `None` when a numeric
/// literal exceeds the integer range. End of input flushes both buffers, the
/// digit buffer first.
pub open spec fn lex_spec(s: Seq<char>) -> Option<Seq<TokenV>> {
    match lex_fold(lex_init(), s) {
        None => None,
        Some(st) => match flushed_number(st.num, st.toks) {
            None => None,
            Some(toks) => Some(flushed_word(st.kw, toks)),
        },
    }
}

/// Relies on `String::push`: appends the given character to the end of the
/// string.
#[verifier::external_body]
fn push_char(s: &mut String, c: char)
    ensures
        final(s)@ == old(s)@.push(c),
{
    s.push(c);
}

/// A digit run's value is never negative.
proof fn lemma_digits_value_nonneg(s: Seq<char>)
    requires
        forall|j: int| 0 <= j < s.len() ==> is_digit(#[trigger] s[j]),
    ensures
        digits_value(s) >= 0,
    decreases s.len(),
{
    if s.len() > 0 {
        lemma_digits_value_nonneg(s.drop_last());
    }
}

/// The value of a prefix of a digit run never exceeds the value of the whole
/// run.
proof fn lemma_digits_value_monotone(s: Seq<char>, i: int)
    requires
        0 <= i <= s.len(),
        forall|j: int| 0 <= j < s.len() ==> is_digit(#[trigger] s[j]),
    ensures
        digits_value(s) >= digits_value(s.take(i)),
    decreases s.len() - i,
{
    if i < s.len() {
        assert(s.take(i + 1).drop_last() =~= s.take(i));
        assert(forall|j: int| 0 <= j < s.take(i).len() ==> is_digit(#[trigger] s.take(i)[j]));
        lemma_digits_value_nonneg(s.take(i));
        lemma_digits_value_monotone(s, i + 1);
    } else {
        assert(s.take(i) =~= s);
    }
}

/// Flushes the digit buffer: an empty buffer does nothing; otherwise the
/// accumulated run is read as a decimal number and emitted, or lexing fails
/// because the run exceeds the integer range.
pub fn flush_number_buffer(number_buffer: &mut String, tokens: &mut Vec<Token>) -> (r: Result<
    (),
    LexError,
>)
    requires
        forall|j: int|
            0 <= j < old(number_buffer)@.len() ==> is_digit(#[trigger] old(number_buffer)@[j]),
    ensures
        match r {
            Ok(_) => {
                &&& Some(tokens_view(final(tokens)@)) == flushed_number(
                    old(number_buffer)@,
                    tokens_view(old(tokens)@),
                )
                &&& final(number_buffer)@ == Seq::<char>::empty()
            },
            Err(_) => flushed_number(old(number_buffer)@, tokens_view(old(tokens)@)) is None,
        },
{
    let ghost digits = number_buffer@;
    let n = number_buffer.as_str().unicode_len();
    if n == 0 {
        assert(number_buffer@ =~= Seq::<char>::empty());
        return Ok(());
    }
    let mut value: i64 = 0;
    let mut i: usize = 0;
    while i < n
        invariant
            i <= n,
            n == digits.len(),
            number_buffer@ == digits,
            forall|j: int| 0 <= j < digits.len() ==> is_digit(#[trigger] digits[j]),
            0 <= value <= i32::MAX,
            value == digits_value(digits.take(i as int)),
        decreases n - i,
    {
        let c = number_buffer.as_str().get_char(i);
        let d = (c as u32) - 48;
        proof {
            assert(digits.take(i as int + 1).drop_last() =~= digits.take(i as int));
        }
        value = value * 10 + (d as i64);
        if value > 2147483647 {
            proof {
                lemma_digits_value_monotone(digits, i as int + 1);
            }
            return Err(LexError::NumberOutOfRange);
        }
        i += 1;
    }
    proof {
        assert(digits.take(n as int) =~= digits);
    }
    tokens.push(Token::Number(value as i32));
    *number_buffer = String::new();
    Ok(())
}

/// Flushes the word buffer: an exact lowercase `wait`, `print` or `let`
/// emits its keyword token; any other non-empty run emits an identifier.
pub fn process_keyword(keyword_buffer: &mut String, tokens: &mut Vec<Token>)
    ensures
        tokens_view(final(tokens)@) == flushed_word(
            old(keyword_buffer)@,
            tokens_view(old(tokens)@),
        ),
        final(keyword_buffer)@ == Seq::<char>::empty(),
{
    if keyword_buffer.as_str().unicode_len() == 0 {
        assert(keyword_buffer@ =~= Seq::<char>::empty());
        return ;
    }
    let wait_word: String = "wait".to_owned();
    let print_word: String = "print".to_owned();
    let let_word: String = "let".to_owned();
    if *keyword_buffer == wait_word {
        tokens.push(Token::WaitKeyword);
    } else if *keyword_buffer == print_word {
        tokens.push(Token::PrintKeyword);
    } else if *keyword_buffer == let_word {
        tokens.push(Token::LetKeyword);
    } else {
        tokens.push(Token::Identifier(keyword_buffer.clone()));
    }
    *keyword_buffer = String::new();
}

/// A failed prefix fails the whole text: once the fold hits the lexing
/// error, no further characters recover it.
proof fn lemma_lex_fold_none_persists(s: Seq<char>, j: int)
    requires
        0 <= j <= s.len(),
        lex_fold(lex_init(), s.take(j)) is None,
    ensures
        lex_fold(lex_init(), s) is None,
    decreases s.len() - j,
{
    if j < s.len() {
        assert(s.take(j + 1).drop_last() =~= s.take(j));
        lemma_lex_fold_none_persists(s, j + 1);
    } else {
        assert(s.take(j) =~= s);
    }
}

/// Turns program text into its token sequence: a single left-to-right scan,
/// total over every character, failing only when a numeric literal exceeds
/// the integer range.
pub fn lex(characters: &str) -> (r: Result<Vec<Token>, LexError>)
    ensures
        match r {
            Ok(ts) => Some(tokens_view(ts@)) == lex_spec(characters@),
            Err(_) => lex_spec(characters@) is None,
        },
{
    let ghost text = characters@;
    let n = characters.unicode_len();
    let mut tokens: Vec<Token> = Vec::new();
    let mut number_buffer: String = String::new();
    let mut keyword_buffer: String = String::new();
    let mut i: usize = 0;
    proof {
        assert(text.take(0) =~= Seq::<char>::empty());
        assert(tokens_view(tokens@) =~= Seq::<TokenV>::empty());
    }
    while i < n
        invariant
            i <= n,
            n == text.len(),
            characters@ == text,
            lex_fold(lex_init(), text.take(i as int)) == Some(
                LexState { num: number_buffer@, kw: keyword_buffer@, toks: tokens_view(tokens@) },
            ),
            forall|j: int|
                0 <= j < number_buffer@.len() ==> is_digit(#[trigger] number_buffer@[j]),
        decreases n - i,
    {
        let c = characters.get_char(i);
        let ghost st = LexState {
            num: number_buffer@,
            kw: keyword_buffer@,
            toks: tokens_view(tokens@),
        };
        proof {
            assert(text.take(i as int + 1).drop_last() =~= text.take(i as int));
            assert(lex_fold(lex_init(), text.take(i as int + 1)) == lex_step(st, c));
        }
        let u = c as u32;
        if 48 <= u && u <= 57 {
            push_char(&mut number_buffer, c);
        } else if (97 <= u && u <= 122) || (65 <= u && u <= 90) {
            if let Err(e) = flush_number_buffer(&mut number_buffer, &mut tokens) {
                proof {
                    lemma_lex_fold_none_persists(text, i as int + 1);
                }
                return Err(e);
            }
            push_char(&mut keyword_buffer, c);
        } else {
            if let Err(e) = flush_number_buffer(&mut number_buffer, &mut tokens) {
                proof {
                    lemma_lex_fold_none_persists(text, i as int + 1);
                }
                return Err(e);
            }
            process_keyword(&mut keyword_buffer, &mut tokens);
            if c == '+' {
                tokens.push(Token::Plus);
            } else if c == '-' {
                tokens.push(Token::Minus);
            } else if c == '*' {
                tokens.push(Token::Multiply);
            } else if c == '/' {
                tokens.push(Token::Divide);
            } else if c == '(' {
                tokens.push(Token::LeftParenthesis);
            } else if c == ')' {
                tokens.push(Token::RightParenthesis);
            } else if c == '=' {
                tokens.push(Token::Equal);
            } else if c == ';' {
                tokens.push(Token::Semicolon);
            }
        }
        i += 1;
    }
    proof {
        assert(text.take(n as int) =~= text);
    }
    if let Err(e) = flush_number_buffer(&mut number_buffer, &mut tokens) {
        return Err(e);
    }
    process_keyword(&mut keyword_buffer, &mut tokens);
    Ok(tokens)
}

} // verus!
