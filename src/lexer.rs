use vstd::prelude::*;

use crate::text::{chars_of, push_char};

verus! {

/// A token of program text.
#[derive(Debug, PartialEq)]
pub enum Token {
    Integer(i64),
    /// A float literal, as written.
    Float(String),
    Str(String),
    Symbol(String),
    LParen,
    RParen,
}

/// The model of a [`Token`].
pub enum Tok {
    Int(i64),
    Float(Seq<char>),
    Str(Seq<char>),
    Sym(Seq<char>),
    LParen,
    RParen,
}

impl View for Token {
    type V = Tok;

    open spec fn view(&self) -> Tok {
        match self {
            Token::Integer(n) => Tok::Int(*n),
            Token::Float(t) => Tok::Float(t@),
            Token::Str(s) => Tok::Str(s@),
            Token::Symbol(s) => Tok::Sym(s@),
            Token::LParen => Tok::LParen,
            Token::RParen => Tok::RParen,
        }
    }
}

/// The text of a token: a parenthesis, a number, or the characters of a
/// string or symbol.
pub open spec fn token_text(t: Tok) -> Seq<char> {
    match t {
        Tok::Int(n) => crate::text::int_text(n as int),
        Tok::Float(f) => f,
        Tok::Str(s) => s,
        Tok::Sym(s) => s,
        Tok::LParen => "("@,
        Tok::RParen => ")"@,
    }
}

impl Token {
    /// The text of this token.
    pub fn to_text(&self) -> (r: String)
        ensures
            r@ == token_text(self@),
    {
        match self {
            Token::Integer(n) => {
                let mut r = String::new();
                crate::text::push_int(&mut r, *n);
                assert(r@ =~= crate::text::int_text(*n as int));
                r
            },
            Token::Float(f) => f.clone(),
            Token::Str(s) => s.clone(),
            Token::Symbol(s) => s.clone(),
            Token::LParen => String::from_str("("),
            Token::RParen => String::from_str(")"),
        }
    }
}

pub open spec fn toks_view(s: Seq<Token>) -> Seq<Tok> {
    s.map_values(|t: Token| t@)
}

/// Why a text could not be split into tokens: `ch` is the character that was
/// missing (`)` for unbalanced parentheses, `"` for an unterminated string).
#[derive(Debug, PartialEq, Clone, Copy)]
pub struct TokenError {
    pub ch: char,
}

impl TokenError {
    /// The message of this error.
    pub fn message(&self) -> (r: String)
        ensures
            r@ == "expected character: "@.push(self.ch),
    {
        let mut r = String::from_str("expected character: ");
        push_char(&mut r, self.ch);
        r
    }
}

/// The number of occurrences of `c` in `s`.
pub open spec fn count_char(s: Seq<char>, c: char) -> nat
    decreases s.len(),
{
    if s.len() == 0 {
        0
    } else {
        count_char(s.drop_last(), c) + if s.last() == c {
            1nat
        } else {
            0nat
        }
    }
}

/// Parentheses are balanced in count: as many `(` as `)`.
pub open spec fn parens_balanced(s: Seq<char>) -> bool {
    count_char(s, '(') == count_char(s, ')')
}

/// Unicode's White_Space property.
pub open spec fn white_space(c: char) -> bool {
    ('\u{9}' <= c && c <= '\u{d}') || c == ' ' || c == '\u{85}' || c == '\u{a0}' || c
        == '\u{1680}' || ('\u{2000}' <= c && c <= '\u{200a}') || c == '\u{2028}' || c
        == '\u{2029}' || c == '\u{202f}' || c == '\u{205f}' || c == '\u{3000}'
}

/// Whether `c` is in one of Unicode's general categories for numbers.
pub uninterp spec fn numeric_char(c: char) -> bool;

/// Relies on `char::is_whitespace`: true exactly for the White_Space property.
#[verifier::external_body]
fn is_white_space(c: char) -> (r: bool)
    ensures
        r == white_space(c),
{
    c.is_whitespace()
}

/// Relies on `char::is_numeric`: a function of the character alone, true for
/// the ASCII digits.
#[verifier::external_body]
fn is_numeric_char(c: char) -> (r: bool)
    ensures
        r == numeric_char(c),
        '0' <= c <= '9' ==> r,
{
    c.is_numeric()
}

pub open spec fn ascii_char(c: char) -> bool {
    c < '\u{80}'
}

pub open spec fn is_digit(c: char) -> bool {
    '0' <= c <= '9'
}

pub open spec fn digit_value(c: char) -> int {
    (c as u32) - ('0' as u32)
}

/// The value of a run of decimal digits.
pub open spec fn digits_value(s: Seq<char>) -> int
    decreases s.len(),
{
    if s.len() == 0 {
        0
    } else {
        digits_value(s.drop_last()) * 10 + digit_value(s.last())
    }
}

/// A leading `+` or `-`.
pub open spec fn has_sign(s: Seq<char>) -> bool {
    s.len() > 0 && (s[0] == '+' || s[0] == '-')
}

/// The text after its sign, if any.
pub open spec fn unsigned_part(s: Seq<char>) -> Seq<char> {
    if has_sign(s) {
        s.drop_first()
    } else {
        s
    }
}

pub open spec fn all_digits(s: Seq<char>) -> bool {
    forall|i: int| 0 <= i < s.len() ==> is_digit(#[trigger] s[i])
}

/// An optional sign followed by at least one digit, whose value fits in
/// 64 bits: the value, else `None`.
pub open spec fn int_literal(s: Seq<char>) -> Option<i64> {
    let body = unsigned_part(s);
    let v = if has_sign(s) && s[0] == '-' {
        -digits_value(body)
    } else {
        digits_value(body)
    };
    if body.len() > 0 && all_digits(body) && i64::MIN <= v <= i64::MAX {
        Some(v as i64)
    } else {
        None
    }
}

/// Digits with at most one decimal point, with at least one digit.
pub open spec fn decimal_digits(s: Seq<char>) -> bool {
    &&& (forall|i: int| 0 <= i < s.len() ==> is_digit(#[trigger] s[i]) || s[i] == '.')
    &&& (exists|i: int| 0 <= i < s.len() && is_digit(#[trigger] s[i]))
    &&& (forall|i: int, j: int| 0 <= i < j < s.len() && #[trigger] s[i] == '.' ==> #[trigger] s[j] != '.')
}

/// An optional sign followed by digits with at most one decimal point, with at
/// least one digit.
pub open spec fn float_literal(s: Seq<char>) -> bool {
    decimal_digits(unsigned_part(s))
}

/// What the scanner holds between two characters.
pub struct LexState {
    pub toks: Seq<Tok>,
    pub in_str: bool,
    pub in_num: bool,
    pub num: Seq<char>,
    pub text: Seq<char>,
    pub sym: Seq<char>,
}

pub open spec fn lex_init() -> LexState {
    LexState {
        toks: Seq::empty(),
        in_str: false,
        in_num: false,
        num: Seq::empty(),
        text: Seq::empty(),
        sym: Seq::empty(),
    }
}

/// The scanner's state after the character at `i`.
pub open spec fn lex_step(cs: Seq<char>, i: int, st: LexState) -> LexState {
    let c = cs[i];
    if c == '(' {
        LexState { toks: st.toks.push(Tok::LParen), ..st }
    } else if c == ')' {
        LexState { toks: st.toks.push(Tok::RParen), ..st }
    } else if white_space(c) && !st.in_str {
        match int_literal(st.num) {
            Some(n) => LexState {
                toks: st.toks.push(Tok::Int(n)),
                num: Seq::empty(),
                in_num: false,
                ..st
            },
            None => if float_literal(st.num) {
                LexState {
                    toks: st.toks.push(Tok::Float(st.num)),
                    num: Seq::empty(),
                    in_num: false,
                    ..st
                }
            } else if st.sym.len() > 0 {
                LexState { toks: st.toks.push(Tok::Sym(st.sym)), sym: Seq::empty(), ..st }
            } else {
                st
            },
        }
    } else if numeric_char(c) && st.sym.len() > 0 {
        LexState { sym: st.sym.push(c), ..st }
    } else if numeric_char(c) && !st.in_str {
        LexState { num: st.num.push(c), in_num: true, ..st }
    } else if st.in_str {
        if c == '"' {
            LexState {
                toks: st.toks.push(Tok::Str(st.text)),
                text: Seq::empty(),
                in_str: false,
                ..st
            }
        } else {
            LexState { text: st.text.push(c), ..st }
        }
    } else if c == '"' {
        LexState { in_str: true, ..st }
    } else if ascii_char(c) && !st.in_num {
        if c != '+' && c != '-' {
            LexState { sym: st.sym.push(c), ..st }
        } else if i < cs.len() - 1 && cs[i + 1] == ' ' {
            LexState { sym: st.sym.push(c), ..st }
        } else if i + 1 < cs.len() && numeric_char(cs[i + 1]) {
            LexState { num: st.num.push(c), ..st }
        } else {
            LexState { sym: st.sym.push(c), ..st }
        }
    } else if c == '.' {
        LexState { num: st.num.push(c), ..st }
    } else {
        st
    }
}

/// The scanner's state after the characters from `i` on.
pub open spec fn lex_run(cs: Seq<char>, i: int, st: LexState) -> LexState
    decreases cs.len() - i,
{
    if i < 0 || i >= cs.len() {
        st
    } else {
        lex_run(cs, i + 1, lex_step(cs, i, st))
    }
}

/// A character with a space on each side when it is a parenthesis.
pub open spec fn pad_char(c: char) -> Seq<char> {
    if c == '(' || c == ')' {
        seq![' ', c, ' ']
    } else {
        seq![c]
    }
}

/// The text with every parenthesis set apart by spaces.
pub open spec fn padded(s: Seq<char>) -> Seq<char>
    decreases s.len(),
{
    if s.len() == 0 {
        Seq::empty()
    } else {
        padded(s.drop_last()) + pad_char(s.last())
    }
}

/// The tokens of a program text.
pub open spec fn tokens_of(s: Seq<char>) -> Result<Seq<Tok>, TokenError> {
    if !parens_balanced(s) {
        Err(TokenError { ch: ')' })
    } else {
        let st = lex_run(padded(s), 0, lex_init());
        if st.in_str {
            Err(TokenError { ch: '"' })
        } else {
            Ok(st.toks)
        }
    }
}

/// Whether the text holds as many `(` as `)`.
pub fn paren_validation(input: &str) -> (r: bool)
    ensures
        r == parens_balanced(input@),
{
    let cs = chars_of(input);
    let n = cs.len();
    let mut left: usize = 0;
    let mut right: usize = 0;
    let mut i: usize = 0;
    while i < n
        invariant
            n == input@.len(),
            cs@ == input@,
            i <= n,
            left == count_char(input@.subrange(0, i as int), '('),
            right == count_char(input@.subrange(0, i as int), ')'),
            left <= i,
            right <= i,
        decreases n - i,
    {
        let c = cs[i];
        assert(input@.subrange(0, i + 1).drop_last() =~= input@.subrange(0, i as int));
        if c == '(' {
            left = left + 1;
        } else if c == ')' {
            right = right + 1;
        }
        i = i + 1;
    }
    assert(input@.subrange(0, n as int) =~= input@);
    left == right
}

/// The value of `s` as an integer literal.
pub fn parse_int(s: &String) -> (r: Option<i64>)
    ensures
        r == int_literal(s@),
{
    let n = s.as_str().unicode_len();
    let signed = n > 0 && (s.as_str().get_char(0) == '+' || s.as_str().get_char(0) == '-');
    let neg = signed && s.as_str().get_char(0) == '-';
    let start: usize = if signed {
        1
    } else {
        0
    };
    let ghost body = if signed {
        s@.drop_first()
    } else {
        s@
    };
    assert(body =~= s@.subrange(start as int, n as int));
    if start >= n {
        return None;
    }
    let cap: i128 = 9223372036854775809;
    let mut acc: i128 = 0;
    let mut i: usize = start;
    while i < n
        invariant
            n == s@.len(),
            start <= i <= n,
            signed == has_sign(s@),
            neg == (signed && s@[0] == '-'),
            start == if signed { 1usize } else { 0usize },
            body == unsigned_part(s@),
            body =~= s@.subrange(start as int, n as int),
            0 <= acc <= cap,
            cap == 9223372036854775809,
            acc == if digits_value(s@.subrange(start as int, i as int)) < cap {
                digits_value(s@.subrange(start as int, i as int))
            } else {
                cap as int
            },
            forall|j: int| start <= j < i ==> is_digit(#[trigger] s@[j]),
            digits_value(s@.subrange(start as int, i as int)) >= 0,
        decreases n - i,
    {
        let c = s.as_str().get_char(i);
        if !('0' <= c && c <= '9') {
            assert(body[i - start] == s@[i as int]);
            assert(!is_digit(body[i - start]));
            assert(!all_digits(body));
            return None;
        }
        let d = (c as u32 - '0' as u32) as i128;
        let ghost prev = digits_value(s@.subrange(start as int, i as int));
        assert(s@.subrange(start as int, i + 1).drop_last() =~= s@.subrange(
            start as int,
            i as int,
        ));
        let next = acc * 10 + d;
        acc = if next < cap {
            next
        } else {
            cap
        };
        proof {
            let full = prev * 10 + d;
            assert(digits_value(s@.subrange(start as int, i + 1)) == full);
            if prev >= cap {
                assert(full >= cap) by (nonlinear_arith)
                    requires
                        full == prev * 10 + d,
                        prev >= cap,
                        d >= 0,
                        cap > 0,
                ;
            }
        }
        i = i + 1;
    }
    assert(all_digits(body)) by {
        assert forall|j: int| 0 <= j < body.len() implies is_digit(#[trigger] body[j]) by {
            assert(body[j] == s@[j + start]);
        }
    }
    if neg {
        if acc <= 9223372036854775808 {
            Some((-acc) as i64)
        } else {
            None
        }
    } else {
        if acc <= 9223372036854775807 {
            Some(acc as i64)
        } else {
            None
        }
    }
}

} // verus!

verus! {

/// Whether `s` is a float literal.
#[verifier::rlimit(40)]
pub fn is_float_literal(s: &String) -> (r: bool)
    ensures
        r == float_literal(s@),
{
    let n = s.as_str().unicode_len();
    let signed = n > 0 && (s.as_str().get_char(0) == '+' || s.as_str().get_char(0) == '-');
    let start: usize = if signed {
        1
    } else {
        0
    };
    let ghost body = unsigned_part(s@);
    assert(body =~= s@.subrange(start as int, n as int));
    let mut digit_seen = false;
    let mut dot_seen = false;
    let mut i: usize = start;
    while i < n
        invariant
            n == s@.len(),
            start <= i <= n,
            body == s@.subrange(start as int, n as int),
            body == unsigned_part(s@),
            forall|j: int| 0 <= j < i - start ==> is_digit(#[trigger] body[j]) || body[j] == '.',
            digit_seen == exists|j: int| 0 <= j < i - start && is_digit(#[trigger] body[j]),
            dot_seen == exists|j: int| 0 <= j < i - start && #[trigger] body[j] == '.',
            forall|j: int, k: int|
                0 <= j < k < i - start && #[trigger] body[j] == '.' ==> #[trigger] body[k] != '.',
        decreases n - i,
    {
        let c = s.as_str().get_char(i);
        let ghost k = i - start;
        assert(body[k] == c);
        if '0' <= c && c <= '9' {
            digit_seen = true;
            assert(is_digit(body[k]));
            assert(dot_seen == exists|j: int| 0 <= j < k + 1 && #[trigger] body[j] == '.') by {
                if dot_seen {
                    let j = choose|j: int| 0 <= j < k && #[trigger] body[j] == '.';
                    assert(0 <= j < k + 1 && body[j] == '.');
                }
            }
        } else if c == '.' {
            if dot_seen {
                let ghost j = choose|j: int| 0 <= j < i - start && #[trigger] body[j] == '.';
                assert(body[j] == '.' && body[k] == '.');
                assert(!decimal_digits(body));
                return false;
            }
            dot_seen = true;
            assert(digit_seen == exists|j: int| 0 <= j < k + 1 && is_digit(#[trigger] body[j])) by {
                if digit_seen {
                    let j = choose|j: int| 0 <= j < k && is_digit(#[trigger] body[j]);
                    assert(0 <= j < k + 1 && is_digit(body[j]));
                }
            }
        } else {
            assert(!(is_digit(body[k]) || body[k] == '.'));
            assert(!decimal_digits(body));
            return false;
        }
        i = i + 1;
    }
    digit_seen
}

/// The scanner between two characters.
struct Scanner {
    toks: Vec<Token>,
    in_str: bool,
    in_num: bool,
    num: String,
    text: String,
    sym: String,
}

impl Scanner {
    spec fn state(&self) -> LexState {
        LexState {
            toks: toks_view(self.toks@),
            in_str: self.in_str,
            in_num: self.in_num,
            num: self.num@,
            text: self.text@,
            sym: self.sym@,
        }
    }
}

proof fn lemma_toks_view_push(s: Seq<Token>, t: Token)
    ensures
        toks_view(s.push(t)) == toks_view(s).push(t@),
{
    assert(toks_view(s.push(t)) =~= toks_view(s).push(t@));
}

impl Scanner {
    fn emit(&mut self, t: Token)
        ensures
            final(self).state() == (LexState { toks: old(self).state().toks.push(t@), ..old(self).state() }),
    {
        proof {
            lemma_toks_view_push(self.toks@, t);
        }
        self.toks.push(t);
    }

    /// Handles the character at `i`.
    fn step(&mut self, cs: &Vec<char>, i: usize)
        requires
            i < cs@.len(),
        ensures
            final(self).state() == lex_step(cs@, i as int, old(self).state()),
    {
        let c = cs[i];
        if c == '(' {
            self.emit(Token::LParen);
        } else if c == ')' {
            self.emit(Token::RParen);
        } else if is_white_space(c) && !self.in_str {
            match parse_int(&self.num) {
                Some(n) => {
                    self.emit(Token::Integer(n));
                    self.num = String::new();
                    self.in_num = false;
                },
                None => {
                    if is_float_literal(&self.num) {
                        let t = self.num.clone();
                        self.emit(Token::Float(t));
                        self.num = String::new();
                        self.in_num = false;
                    } else if !self.sym.as_str().is_empty() {
                        let t = self.sym.clone();
                        self.emit(Token::Symbol(t));
                        self.sym = String::new();
                    }
                },
            }
        } else if is_numeric_char(c) && !self.sym.as_str().is_empty() {
            push_char(&mut self.sym, c);
        } else if is_numeric_char(c) && !self.in_str {
            push_char(&mut self.num, c);
            self.in_num = true;
        } else if self.in_str {
            if c == '"' {
                let t = self.text.clone();
                self.emit(Token::Str(t));
                self.text = String::new();
                self.in_str = false;
            } else {
                push_char(&mut self.text, c);
            }
        } else if c == '"' {
            self.in_str = true;
        } else if c < '\u{80}' && !self.in_num {
            if c != '+' && c != '-' {
                push_char(&mut self.sym, c);
            } else if i < cs.len() - 1 && cs[i + 1] == ' ' {
                push_char(&mut self.sym, c);
            } else if i < cs.len() - 1 && is_numeric_char(cs[i + 1]) {
                push_char(&mut self.num, c);
            } else {
                push_char(&mut self.sym, c);
            }
        } else if c == '.' {
            push_char(&mut self.num, c);
        }
    }
}

/// The program text with every parenthesis set apart by spaces.
fn pad(program: &str) -> (r: Vec<char>)
    ensures
        r@ == padded(program@),
{
    let cs = chars_of(program);
    let n = cs.len();
    let mut r: Vec<char> = Vec::new();
    let mut i: usize = 0;
    while i < n
        invariant
            n == program@.len(),
            cs@ == program@,
            i <= n,
            r@ == padded(program@.subrange(0, i as int)),
        decreases n - i,
    {
        let c = cs[i];
        assert(program@.subrange(0, i + 1).drop_last() =~= program@.subrange(0, i as int));
        if c == '(' || c == ')' {
            r.push(' ');
            r.push(c);
            r.push(' ');
        } else {
            r.push(c);
        }
        assert(r@ =~= padded(program@.subrange(0, i + 1)));
        i = i + 1;
    }
    assert(program@.subrange(0, n as int) =~= program@);
    r
}

/// Splits a program text into tokens, left to right.
///
/// Fails with `)` when the text does not hold as many `(` as `)`, and with
/// `"` when a string is left open.
pub fn tokenize(program: &str) -> (r: Result<Vec<Token>, TokenError>)
    ensures
        match r {
            Ok(v) => tokens_of(program@) == Ok::<Seq<Tok>, TokenError>(toks_view(v@)),
            Err(e) => tokens_of(program@) == Err::<Seq<Tok>, TokenError>(e),
        },
{
    if !paren_validation(program) {
        return Err(TokenError { ch: ')' });
    }
    let cs = pad(program);
    let mut sc = Scanner {
        toks: Vec::new(),
        in_str: false,
        in_num: false,
        num: String::new(),
        text: String::new(),
        sym: String::new(),
    };
    assert(toks_view(sc.toks@) =~= Seq::<Tok>::empty());
    assert(sc.state() == lex_init());
    let mut i: usize = 0;
    while i < cs.len()
        invariant
            i <= cs@.len(),
            lex_run(cs@, 0, lex_init()) == lex_run(cs@, i as int, sc.state()),
        decreases cs@.len() - i,
    {
        sc.step(&cs, i);
        i = i + 1;
    }
    if sc.in_str {
        Err(TokenError { ch: '"' })
    } else {
        Ok(sc.toks)
    }
}

} // verus!
