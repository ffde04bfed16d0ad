use vstd::prelude::*;

use crate::lexer::{tokenize, tokens_of, toks_view, Tok, Token, TokenError};
use crate::text::same_text;
use crate::value::{lemma_objs_view_push, objs_view, Object, Val};

verus! {

/// What kind of structural fault a program text has.
#[derive(Debug, PartialEq, Clone, Copy)]
pub enum ParseErrorKind {
    /// The text could not be split into tokens.
    Lex(TokenError),
    /// The text does not start with `(`.
    ExpectedLParen,
    /// The tokens ran out before the list was closed.
    NotEnoughTokens,
}

/// A program text that is not a well-formed list.
#[derive(Debug, PartialEq, Clone, Copy)]
pub struct ParseError {
    pub kind: ParseErrorKind,
}

/// The reserved words, which the parser turns into keywords.
pub open spec fn is_keyword(s: Seq<char>) -> bool {
    s == "if"@ || s == "define"@ || s == "true"@ || s == "false"@ || s == "lambda"@ || s
        == "print"@ || s == "equal"@ || s == "load"@
}

/// The value that a token other than a parenthesis stands for.
pub open spec fn token_val(t: Tok) -> Val {
    match t {
        Tok::Int(n) => Val::Int(n),
        Tok::Float(f) => Val::Float(f),
        Tok::Str(s) => Val::Str(s),
        Tok::Sym(s) => if is_keyword(s) {
            Val::Kw(s)
        } else {
            Val::Sym(s)
        },
        _ => Val::Void,
    }
}

/// Reads the tokens from `q` on, `stack` holding the lists that are open,
/// innermost last.
pub open spec fn parse_from(toks: Seq<Tok>, q: int, stack: Seq<Seq<Val>>) -> Result<
    Val,
    ParseError,
>
    decreases toks.len() - q,
{
    if q < 0 || q >= toks.len() || stack.len() == 0 {
        Err(ParseError { kind: ParseErrorKind::NotEnoughTokens })
    } else {
        match toks[q] {
            Tok::LParen => parse_from(toks, q + 1, stack.push(Seq::empty())),
            Tok::RParen => {
                let top = stack.last();
                let rest = stack.drop_last();
                if rest.len() == 0 {
                    Ok(Val::List(top))
                } else {
                    parse_from(toks, q + 1, rest.drop_last().push(rest.last().push(Val::List(top))))
                }
            },
            _ => parse_from(
                toks,
                q + 1,
                stack.drop_last().push(stack.last().push(token_val(toks[q]))),
            ),
        }
    }
}

/// The list that a token sequence spells, from its first `(` to the `)` that
/// closes it.
pub open spec fn parse_tokens(toks: Seq<Tok>) -> Result<Val, ParseError> {
    if toks.len() == 0 || !(toks[0] is LParen) {
        Err(ParseError { kind: ParseErrorKind::ExpectedLParen })
    } else {
        parse_from(toks, 1, seq![Seq::empty()])
    }
}

/// The syntax tree of a program text.
pub open spec fn parsed(s: Seq<char>) -> Result<Val, ParseError> {
    match tokens_of(s) {
        Err(e) => Err(ParseError { kind: ParseErrorKind::Lex(e) }),
        Ok(t) => parse_tokens(t),
    }
}

/// Whether `s` is a reserved word.
pub fn keyword(s: &str) -> (r: bool)
    ensures
        r == is_keyword(s@),
{
    same_text(s, "if") || same_text(s, "define") || same_text(s, "true") || same_text(s, "false")
        || same_text(s, "lambda") || same_text(s, "print") || same_text(s, "equal") || same_text(
        s,
        "load",
    )
}

fn token_object(t: &Token) -> (r: Object)
    requires
        !(t is LParen),
        !(t is RParen),
    ensures
        r@ == token_val(t@),
{
    match t {
        Token::Integer(n) => Object::Integer(*n),
        Token::Float(f) => Object::Float(f.clone()),
        Token::Str(s) => Object::Str(s.clone()),
        Token::Symbol(s) => {
            if keyword(s.as_str()) {
                Object::Keyword(s.clone())
            } else {
                Object::Symbol(s.clone())
            }
        },
        _ => Object::Void,
    }
}

spec fn stack_view(s: Seq<Vec<Object>>) -> Seq<Seq<Val>> {
    s.map_values(|v: Vec<Object>| objs_view(v@))
}

proof fn lemma_stack_push(s: Seq<Vec<Object>>, v: Vec<Object>)
    ensures
        stack_view(s.push(v)) == stack_view(s).push(objs_view(v@)),
{
    assert(stack_view(s.push(v)) =~= stack_view(s).push(objs_view(v@)));
}

proof fn lemma_stack_drop_last(s: Seq<Vec<Object>>)
    requires
        s.len() > 0,
    ensures
        stack_view(s.drop_last()) == stack_view(s).drop_last(),
        stack_view(s).last() == objs_view(s.last()@),
{
    assert(stack_view(s.drop_last()) =~= stack_view(s).drop_last());
}

/// Reads a token sequence as a list.
pub fn parse_token_list(toks: &Vec<Token>) -> (r: Result<Object, ParseError>)
    ensures
        match r {
            Ok(v) => parse_tokens(toks_view(toks@)) == Ok::<Val, ParseError>(v@),
            Err(e) => parse_tokens(toks_view(toks@)) == Err::<Val, ParseError>(e),
        },
{
    let ghost ts = toks_view(toks@);
    if toks.len() == 0 {
        return Err(ParseError { kind: ParseErrorKind::ExpectedLParen });
    }
    assert(ts[0] == toks@[0]@);
    match &toks[0] {
        Token::LParen => {},
        _ => {
            return Err(ParseError { kind: ParseErrorKind::ExpectedLParen });
        },
    }
    let mut stack: Vec<Vec<Object>> = Vec::new();
    stack.push(Vec::new());
    assert(stack_view(stack@) =~= seq![Seq::<Val>::empty()]) by {
        assert(objs_view(stack@[0]@) =~= Seq::<Val>::empty());
    }
    let mut q: usize = 1;
    while q < toks.len()
        invariant
            ts == toks_view(toks@),
            ts.len() == toks@.len(),
            1 <= q <= toks@.len(),
            stack@.len() >= 1,
            parse_tokens(ts) == parse_from(ts, q as int, stack_view(stack@)),
        decreases toks@.len() - q,
    {
        assert(ts[q as int] == toks@[q as int]@);
        let t = &toks[q];
        match t {
            Token::LParen => {
                let fresh: Vec<Object> = Vec::new();
                proof {
                    lemma_stack_push(stack@, fresh);
                    assert(objs_view(fresh@) =~= Seq::<Val>::empty());
                }
                stack.push(fresh);
            },
            Token::RParen => {
                proof {
                    lemma_stack_drop_last(stack@);
                }
                let top = stack.pop().unwrap();
                if stack.len() == 0 {
                    return Ok(Object::List(top));
                }
                proof {
                    lemma_stack_drop_last(stack@);
                }
                let mut parent = stack.pop().unwrap();
                proof {
                    lemma_objs_view_push(parent@, Object::List(top));
                }
                parent.push(Object::List(top));
                proof {
                    lemma_stack_push(stack@, parent);
                }
                stack.push(parent);
            },
            _ => {
                let o = token_object(t);
                proof {
                    lemma_stack_drop_last(stack@);
                }
                let mut top = stack.pop().unwrap();
                proof {
                    lemma_objs_view_push(top@, o);
                }
                top.push(o);
                proof {
                    lemma_stack_push(stack@, top);
                }
                stack.push(top);
            },
        }
        q = q + 1;
    }
    Err(ParseError { kind: ParseErrorKind::NotEnoughTokens })
}

/// Parses a program text into one list, whose elements are literals,
/// symbols, keywords and nested lists.
pub fn parse(program: &str) -> (r: Result<Object, ParseError>)
    ensures
        match r {
            Ok(v) => parsed(program@) == Ok::<Val, ParseError>(v@),
            Err(e) => parsed(program@) == Err::<Val, ParseError>(e),
        },
{
    match tokenize(program) {
        Err(e) => Err(ParseError { kind: ParseErrorKind::Lex(e) }),
        Ok(toks) => parse_token_list(&toks),
    }
}

} // verus!
