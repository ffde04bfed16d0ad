//! Texts for people: error messages and the lines that show a result.
use vstd::prelude::*;

use crate::eval::EvalError;
use crate::parser::{ParseError, ParseErrorKind};
use crate::sem::Fault;
use crate::text::push_str;
use crate::value::{lemma_objs_view, names_view, objs_view, text_of, Object, Val};

verus! {

/// The message of a parse error.
pub open spec fn parse_message(e: ParseError) -> Seq<char> {
    match e.kind {
        ParseErrorKind::Lex(t) => "expected character: "@.push(t.ch),
        ParseErrorKind::ExpectedLParen => "Expected LParen"@,
        ParseErrorKind::NotEnoughTokens => "Did not find enough tokens"@,
    }
}

/// The message of an evaluation error.
pub open spec fn fault_message(f: Fault) -> Seq<char> {
    match f {
        Fault::Parse(e) => "Parse error: "@ + parse_message(e),
        Fault::Unbound(s) => "Unbound symbol: "@ + s,
        Fault::Arity(s) => "Invalid number of arguments for "@ + s,
        Fault::NotANumber(k) => "Operand must be a number, found "@ + k,
        Fault::NotText(k) => "Operand must be a string, found "@ + k,
        Fault::ConditionNotBool => "Condition must be a boolean"@,
        Fault::DefineKeyword(k) => "Cannot define the keyword "@ + k,
        Fault::BadDefine => "Invalid define"@,
        Fault::BadLambda => "Invalid lambda"@,
        Fault::BadParameter => "Invalid lambda parameter"@,
        Fault::NotCallable(s) => "Not a lambda: "@ + s,
        Fault::BadPrint => "Invalid print argument"@,
        Fault::BadLoadArgument => "Load argument must be a String or Symbol to String"@,
        Fault::BadExtension(e) => "Invalid file extension: "@ + e,
        Fault::ModuleNotFound(p) => "Module not found: "@ + p,
        Fault::BadKeyword(k) => "Invalid keyword: "@ + k,
        Fault::DivisionByZero => "Division by zero"@,
        Fault::Overflow => "Integer overflow"@,
        Fault::NegativeExponent => "Negative exponent"@,
        Fault::BadFloat(t) => "Invalid float: "@ + t,
        Fault::BadReply => "Unexpected answer from the host"@,
        Fault::TooDeep => "Evaluation nested too deeply"@,
        Fault::Needs(_) => "Unanswered request"@,
    }
}

impl ParseError {
    /// The message of this error.
    pub fn message(&self) -> (r: String)
        ensures
            r@ == parse_message(*self),
    {
        match self.kind {
            ParseErrorKind::Lex(t) => t.message(),
            ParseErrorKind::ExpectedLParen => String::from_str("Expected LParen"),
            ParseErrorKind::NotEnoughTokens => String::from_str("Did not find enough tokens"),
        }
    }
}

fn joined(a: &str, b: &str) -> (r: String)
    ensures
        r@ == a@ + b@,
{
    let mut r = String::from_str(a);
    push_str(&mut r, b);
    r
}

impl EvalError {
    /// The message of this error.
    pub fn message(&self) -> (r: String)
        ensures
            r@ == fault_message(self@),
    {
        match self {
            EvalError::Parse(e) => joined("Parse error: ", e.message().as_str()),
            EvalError::Unbound(s) => joined("Unbound symbol: ", s.as_str()),
            EvalError::Arity(s) => joined("Invalid number of arguments for ", s.as_str()),
            EvalError::NotANumber(k) => joined("Operand must be a number, found ", k.as_str()),
            EvalError::NotText(k) => joined("Operand must be a string, found ", k.as_str()),
            EvalError::ConditionNotBool => String::from_str("Condition must be a boolean"),
            EvalError::DefineKeyword(k) => joined("Cannot define the keyword ", k.as_str()),
            EvalError::BadDefine => String::from_str("Invalid define"),
            EvalError::BadLambda => String::from_str("Invalid lambda"),
            EvalError::BadParameter => String::from_str("Invalid lambda parameter"),
            EvalError::NotCallable(s) => joined("Not a lambda: ", s.as_str()),
            EvalError::BadPrint => String::from_str("Invalid print argument"),
            EvalError::BadLoadArgument => String::from_str(
                "Load argument must be a String or Symbol to String",
            ),
            EvalError::BadExtension(e) => joined("Invalid file extension: ", e.as_str()),
            EvalError::ModuleNotFound(p) => joined("Module not found: ", p.as_str()),
            EvalError::BadKeyword(k) => joined("Invalid keyword: ", k.as_str()),
            EvalError::DivisionByZero => String::from_str("Division by zero"),
            EvalError::Overflow => String::from_str("Integer overflow"),
            EvalError::NegativeExponent => String::from_str("Negative exponent"),
            EvalError::BadFloat(t) => joined("Invalid float: ", t.as_str()),
            EvalError::BadReply => String::from_str("Unexpected answer from the host"),
            EvalError::TooDeep => String::from_str("Evaluation nested too deeply"),
            EvalError::Needs(_) => String::from_str("Unanswered request"),
        }
    }
}

/// The texts of the values, with `", "` between two of them.
pub open spec fn comma_join(s: Seq<Val>) -> Seq<char>
    decreases s.len(),
{
    if s.len() == 0 {
        Seq::empty()
    } else if s.len() == 1 {
        text_of(s[0])
    } else {
        comma_join(s.drop_last()) + ", "@ + text_of(s.last())
    }
}

/// The lines that show the result of one input: nothing for `Void`; for a
/// lambda, its parameters and body one per line; for a list, its only
/// element, or all its elements on one line; otherwise its text.
pub open spec fn result_lines(v: Val) -> Seq<Seq<char>> {
    match v {
        Val::Void => Seq::empty(),
        Val::Lambda(ps, body) => seq!["Lambda("@] + ps.map_values(|p: Seq<char>| p + " "@) + seq![
            ")"@,
        ] + body.map_values(|e: Val| " "@ + text_of(e)),
        Val::List(items) => if items.len() == 0 {
            Seq::empty()
        } else {
            seq![comma_join(items)]
        },
        _ => seq![text_of(v)],
    }
}

/// The lines that show the result of one input.
pub fn show(v: &Object) -> (r: Vec<String>)
    ensures
        r@.map_values(|l: String| l@) == result_lines(v@),
{
    let mut r: Vec<String> = Vec::new();
    match v {
        Object::Void => {},
        Object::Lambda(ps, body) => {
            r.push(String::from_str("Lambda("));
            let mut i: usize = 0;
            while i < ps.len()
                invariant
                    i <= ps@.len(),
                    r@.map_values(|l: String| l@) =~= seq!["Lambda("@] + names_view(
                        ps@,
                    ).subrange(0, i as int).map_values(|p: Seq<char>| p + " "@),
                decreases ps@.len() - i,
            {
                let line = joined(ps[i].as_str(), " ");
                proof {
                    let f = |p: Seq<char>| p + " "@;
                    let pre = names_view(ps@).subrange(0, i as int).map_values(f);
                    assert(names_view(ps@).subrange(0, i + 1).map_values(f) =~= pre.push(
                        line@,
                    ));
                    assert(r@.push(line).map_values(|l: String| l@) =~= r@.map_values(
                        |l: String| l@,
                    ).push(line@));
                    assert(seq!["Lambda("@] + pre.push(line@) =~= (seq!["Lambda("@] + pre).push(
                        line@,
                    ));
                }
                r.push(line);
                i = i + 1;
            }
            r.push(String::from_str(")"));
            let ghost head = r@.map_values(|l: String| l@);
            assert(names_view(ps@).subrange(0, ps@.len() as int) =~= names_view(ps@));
            proof {
                lemma_objs_view(body@);
            }
            let mut j: usize = 0;
            while j < body.len()
                invariant
                    j <= body@.len(),
                    objs_view(body@).len() == body@.len(),
                    forall|k: int| 0 <= k < body@.len() ==> #[trigger] objs_view(body@)[k] == body@[k]@,
                    r@.map_values(|l: String| l@) =~= head + objs_view(body@).subrange(
                        0,
                        j as int,
                    ).map_values(|e: Val| " "@ + text_of(e)),
                decreases body@.len() - j,
            {
                let line = joined(" ", body[j].to_text().as_str());
                proof {
                    let f = |e: Val| " "@ + text_of(e);
                    let pre = objs_view(body@).subrange(0, j as int).map_values(f);
                    assert(objs_view(body@).subrange(0, j + 1).map_values(f) =~= pre.push(
                        line@,
                    ));
                    assert(r@.push(line).map_values(|l: String| l@) =~= r@.map_values(
                        |l: String| l@,
                    ).push(line@));
                    assert(head + pre.push(line@) =~= (head + pre).push(line@));
                }
                r.push(line);
                j = j + 1;
            }
            assert(objs_view(body@).subrange(0, body@.len() as int) =~= objs_view(body@));
        },
        Object::List(items) => {
            proof {
                lemma_objs_view(items@);
            }
            if items.len() > 0 {
                let mut line = String::new();
                let mut i: usize = 0;
                while i < items.len()
                    invariant
                        0 < items@.len(),
                        i <= items@.len(),
                        objs_view(items@).len() == items@.len(),
                        forall|k: int| 0 <= k < items@.len() ==> #[trigger] objs_view(items@)[k] == items@[k]@,
                        line@ == comma_join(objs_view(items@).subrange(0, i as int)),
                    decreases items@.len() - i,
                {
                    let ghost pre = objs_view(items@).subrange(0, i as int);
                    let ghost next = objs_view(items@).subrange(0, i + 1);
                    assert(next.drop_last() =~= pre);
                    if i > 0 {
                        push_str(&mut line, ", ");
                    } else {
                        assert(next =~= seq![items@[0]@]);
                    }
                    push_str(&mut line, items[i].to_text().as_str());
                    proof {
                        if i == 0 {
                            assert(line@ =~= comma_join(next));
                        }
                    }
                    i = i + 1;
                }
                assert(objs_view(items@).subrange(0, items@.len() as int) =~= objs_view(items@));
                r.push(line);
            }
        },
        _ => {
            r.push(v.to_text());
        },
    }
    assert(r@.map_values(|l: String| l@) =~= result_lines(v@));
    r
}

} // verus!
