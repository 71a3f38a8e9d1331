use vstd::prelude::*;
use vstd::string::*;

verus! {

/// A token of the source language.
#[derive(Debug, PartialEq, Eq)]
pub enum Token {
    Ident(String),
    Int(u64),
    /// A float literal, as written (`1.5`, `12.`).
    Float(String),
    Fn,
    Let,
    If,
    Else,
    While,
    For,
    Return,
    Struct,
    LParen,
    RParen,
    LBrace,
    RBrace,
    Comma,
    Semi,
    Colon,
    Dot,
    Arrow,
    Assign,
    Plus,
    Minus,
    Star,
    Slash,
    Bang,
    Lt,
    Gt,
    Le,
    Ge,
    EqEq,
    Ne,
}

pub open spec fn is_letter(c: char) -> bool {
    ('a' <= c && c <= 'z') || ('A' <= c && c <= 'Z')
}

pub open spec fn is_digit(c: char) -> bool {
    '0' <= c && c <= '9'
}

pub open spec fn is_word_char(c: char) -> bool {
    is_letter(c) || is_digit(c) || c == '_'
}

pub open spec fn is_keyword(w: Seq<char>) -> bool {
    w == "fn"@ || w == "let"@ || w == "if"@ || w == "else"@ || w == "while"@ || w == "for"@
        || w == "return"@ || w == "struct"@
}

/// An identifier: a letter, then letters, digits or underscores; no keyword.
pub open spec fn is_identifier(w: Seq<char>) -> bool {
    &&& w.len() > 0
    &&& is_letter(w[0])
    &&& forall|i: int| 0 <= i < w.len() ==> is_word_char(#[trigger] w[i])
    &&& !is_keyword(w)
}

/// The value of a string of decimal digits.
pub open spec fn decimal_value(w: Seq<char>) -> nat
    decreases w.len(),
{
    if w.len() == 0 {
        0
    } else {
        (decimal_value(w.drop_last()) * 10 + (w.last() as int - '0' as int)) as nat
    }
}

pub open spec fn all_digits(w: Seq<char>) -> bool {
    forall|i: int| 0 <= i < w.len() ==> is_digit(#[trigger] w[i])
}

/// A failure to read the source text.
#[derive(Debug, Clone, PartialEq, Eq)]
pub struct ParseError {
    pub position: usize,
}

fn is_letter_char(c: char) -> (r: bool)
    ensures
        r == is_letter(c),
{
    ('a' <= c && c <= 'z') || ('A' <= c && c <= 'Z')
}

fn is_digit_char(c: char) -> (r: bool)
    ensures
        r == is_digit(c),
{
    '0' <= c && c <= '9'
}

/// The character at `i` of an ASCII text.
fn char_at(s: &str, i: usize) -> (r: char)
    requires
        s.is_ascii(),
        i < s@.len(),
    ensures
        r == s@[i as int],
{
    s.get_char(i)
}

fn keyword(w: &str) -> (r: Option<Token>)
    ensures
        r is Some <==> is_keyword(w@),
        r matches Some(t) ==> !(t is Ident) && !(t is Int),
{
    let s = String::from_str(w);
    if s == String::from_str("fn") {
        Some(Token::Fn)
    } else if s == String::from_str("let") {
        Some(Token::Let)
    } else if s == String::from_str("if") {
        Some(Token::If)
    } else if s == String::from_str("else") {
        Some(Token::Else)
    } else if s == String::from_str("while") {
        Some(Token::While)
    } else if s == String::from_str("for") {
        Some(Token::For)
    } else if s == String::from_str("return") {
        Some(Token::Return)
    } else if s == String::from_str("struct") {
        Some(Token::Struct)
    } else {
        None
    }
}

/// Reads the digits at `start..end` as a number, or `None` when it does not
/// fit in 64 bits.
fn digits_value(s: &str, start: usize, end: usize) -> (r: Option<u64>)
    requires
        s.is_ascii(),
        start <= end <= s@.len(),
        all_digits(s@.subrange(start as int, end as int)),
    ensures
        r matches Some(v) ==> v as nat == decimal_value(s@.subrange(start as int, end as int)),
        r is None ==> decimal_value(s@.subrange(start as int, end as int)) > u64::MAX,
{
    let mut v: u64 = 0;
    let mut i = start;
    while i < end
        invariant
            s.is_ascii(),
            start <= i <= end <= s@.len(),
            all_digits(s@.subrange(start as int, end as int)),
            v as nat == decimal_value(s@.subrange(start as int, i as int)),
        decreases end - i,
    {
        let b = char_at(s, i);
        proof {
            assert(s@.subrange(start as int, end as int)[i - start] == s@[i as int]);
            assert(s@.subrange(start as int, i + 1).drop_last() =~= s@.subrange(start as int, i as int));
            assert(s@.subrange(start as int, i + 1).last() == s@[i as int]);
        }
        let d = (b as u32 - '0' as u32) as u64;
        if v > (u64::MAX - d) / 10 {
            proof {
                lemma_decimal_grows(s@.subrange(start as int, end as int), i - start + 1);
                assert(s@.subrange(start as int, end as int).subrange(0, i - start + 1) =~= s@.subrange(start as int, i + 1));
            }
            return None;
        }
        v = v * 10 + d;
        i = i + 1;
    }
    Some(v)
}

proof fn lemma_decimal_grows(w: Seq<char>, n: int)
    requires
        0 <= n <= w.len(),
        all_digits(w),
    ensures
        decimal_value(w) >= decimal_value(w.subrange(0, n)),
    decreases w.len() - n,
{
    if n < w.len() {
        lemma_decimal_grows(w, n + 1);
        assert(w.subrange(0, n + 1).drop_last() =~= w.subrange(0, n));
        assert(is_digit(w[n]));
    } else {
        assert(w.subrange(0, n) =~= w);
    }
}

/// Every integer token is the value of a run of decimal digits of the text.
pub open spec fn ints_ok(toks: Seq<Token>, text: Seq<char>) -> bool {
    forall|i: int| 0 <= i < toks.len() ==> (#[trigger] toks[i] matches Token::Int(v) ==> exists|a: int, b: int|
        0 <= a <= b <= text.len() && all_digits(#[trigger] text.subrange(a, b))
            && decimal_value(text.subrange(a, b)) == v as nat)
}

pub open spec fn idents_ok(toks: Seq<Token>) -> bool {
    forall|i: int| 0 <= i < toks.len() ==> (#[trigger] toks[i] matches Token::Ident(w) ==> is_identifier(w@))
}

fn push_token(toks: &mut Vec<Token>, t: Token, Ghost(text): Ghost<Seq<char>>)
    requires
        idents_ok(old(toks)@),
        ints_ok(old(toks)@, text),
        t matches Token::Ident(w) ==> is_identifier(w@),
        t matches Token::Int(v) ==> exists|a: int, b: int|
            0 <= a <= b <= text.len() && all_digits(#[trigger] text.subrange(a, b))
                && decimal_value(text.subrange(a, b)) == v as nat,
    ensures
        final(toks)@ == old(toks)@.push(t),
        idents_ok(final(toks)@),
        ints_ok(final(toks)@, text),
{
    toks.push(t);
    proof {
        assert forall|i: int| 0 <= i < toks@.len() implies (#[trigger] toks@[i] matches Token::Int(v) ==> exists|a: int, b: int|
            0 <= a <= b <= text.len() && all_digits(#[trigger] text.subrange(a, b))
                && decimal_value(text.subrange(a, b)) == v as nat) by {
            if i < old(toks)@.len() {
                assert(toks@[i] == old(toks)@[i]);
            }
        }
        assert forall|i: int| 0 <= i < toks@.len() implies (#[trigger] toks@[i] matches Token::Ident(w) ==> is_identifier(w@)) by {
            if i < old(toks)@.len() {
                assert(toks@[i] == old(toks)@[i]);
            }
        }
    }
}

/// Splits the source text into tokens; blanks separate them.
pub fn tokenize(s: &str) -> (r: Result<Vec<Token>, ParseError>)
    ensures
        r matches Ok(toks) ==> idents_ok(toks@) && ints_ok(toks@, s@),
{
    if !s.is_ascii() {
        return Err(ParseError { position: 0 });
    }
    let n = s.unicode_len();
    let mut toks: Vec<Token> = Vec::new();
    let mut i: usize = 0;
    while i < n
        invariant
            s.is_ascii(),
            n == s@.len(),
            i <= n,
            idents_ok(toks@),
            ints_ok(toks@, s@),
        decreases n - i,
    {
        let b = char_at(s, i);
        if b == ' ' || b == '\t' || b == '\n' || b == '\r' {
            i = i + 1;
        } else if is_letter_char(b) {
            let start = i;
            i = i + 1;
            while i < n
                invariant
                    s.is_ascii(),
                    n == s@.len(),
                    start < i <= n,
                    is_letter(s@[start as int]),
                    forall|k: int| start <= k < i ==> is_word_char(#[trigger] s@[k]),
                decreases n - i,
            {
                let c = char_at(s, i);
                if !(is_letter_char(c) || is_digit_char(c) || c == '_') {
                    break;
                }
                i = i + 1;
            }
            let word = s.substring_ascii(start, i);
            match keyword(word) {
                Some(k) => push_token(&mut toks, k, Ghost(s@)),
                None => {
                    let w = String::from_str(word);
                    proof {
                        assert(w@ == s@.subrange(start as int, i as int));
                        assert(w@[0] == s@[start as int]);
                        assert forall|k: int| 0 <= k < w@.len() implies is_word_char(#[trigger] w@[k]) by {
                            assert(w@[k] == s@[start + k]);
                        }
                    }
                    push_token(&mut toks, Token::Ident(w), Ghost(s@));
                },
            }
        } else if is_digit_char(b) {
            let start = i;
            i = i + 1;
            while i < n
                invariant
                    s.is_ascii(),
                    n == s@.len(),
                    start < i <= n,
                    forall|k: int| start <= k < i ==> is_digit(#[trigger] s@[k]),
                decreases n - i,
            {
                if !is_digit_char(char_at(s, i)) {
                    break;
                }
                i = i + 1;
            }
            if i < n && char_at(s, i) == '.' {
                i = i + 1;
                while i < n
                    invariant
                        s.is_ascii(),
                        n == s@.len(),
                        start < i <= n,
                    decreases n - i,
                {
                    if !is_digit_char(char_at(s, i)) {
                        break;
                    }
                    i = i + 1;
                }
                push_token(&mut toks, Token::Float(String::from_str(s.substring_ascii(start, i))), Ghost(s@));
            } else {
                proof {
                    assert forall|k: int| 0 <= k < s@.subrange(start as int, i as int).len() implies is_digit(#[trigger] s@.subrange(start as int, i as int)[k]) by {
                        assert(s@.subrange(start as int, i as int)[k] == s@[start + k]);
                    }
                }
                match digits_value(s, start, i) {
                    Some(v) => push_token(&mut toks, Token::Int(v), Ghost(s@)),
                    None => {
                        return Err(ParseError { position: start });
                    },
                }
            }
        } else {
            let next: char = if i + 1 < n {
                char_at(s, i + 1)
            } else {
                ' '
            };
            let (tok, len): (Token, usize) = if b == '(' {
                (Token::LParen, 1)
            } else if b == ')' {
                (Token::RParen, 1)
            } else if b == '{' {
                (Token::LBrace, 1)
            } else if b == '}' {
                (Token::RBrace, 1)
            } else if b == ',' {
                (Token::Comma, 1)
            } else if b == ';' {
                (Token::Semi, 1)
            } else if b == ':' {
                (Token::Colon, 1)
            } else if b == '.' {
                (Token::Dot, 1)
            } else if b == '+' {
                (Token::Plus, 1)
            } else if b == '-' && next == '>' {
                (Token::Arrow, 2)
            } else if b == '-' {
                (Token::Minus, 1)
            } else if b == '*' {
                (Token::Star, 1)
            } else if b == '/' {
                (Token::Slash, 1)
            } else if b == '!' && next == '=' {
                (Token::Ne, 2)
            } else if b == '!' {
                (Token::Bang, 1)
            } else if b == '<' && next == '=' {
                (Token::Le, 2)
            } else if b == '<' {
                (Token::Lt, 1)
            } else if b == '>' && next == '=' {
                (Token::Ge, 2)
            } else if b == '>' {
                (Token::Gt, 1)
            } else if b == '=' && next == '=' {
                (Token::EqEq, 2)
            } else if b == '=' {
                (Token::Assign, 1)
            } else {
                return Err(ParseError { position: i });
            };
            push_token(&mut toks, tok, Ghost(s@));
            if len == 2 {
                i = i + 2;
            } else {
                i = i + 1;
            }
        }
    }
    Ok(toks)
}

} // verus!
