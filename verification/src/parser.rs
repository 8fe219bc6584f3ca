use vstd::prelude::*;

use crate::ast::{exprs_view, lemma_exprs_view_push, lemma_stmts_view_push, stmts_view, Expr, SpecExpr, SpecStmt, Stmt};
use crate::token::{toks_view, SpecToken, Token};

verus! {

/// A failure of the parsing stage. A missing mandatory token is fatal and
/// unrecoverable for the whole parse.
#[derive(Debug, PartialEq, Eq, Structural)]
pub enum ParseError {
    /// A name was grammatically mandatory and no identifier stood there.
    ExpectedIdentifier,
    /// A required delimiter or keyword token was absent.
    ExpectedToken,
    /// No expression form starts at the current token.
    ExpectedExpression,
    /// The left-hand side of an assignment was not a bare variable.
    InvalidAssignment,
}

/// The token the cursor rests on: the end sentinel once the input is
/// exhausted.
pub open spec fn spec_peek(s: Seq<SpecToken>, i: int) -> SpecToken {
    if 0 <= i < s.len() {
        s[i]
    } else {
        SpecToken::EOF
    }
}

/// A bounds guard on the position a sub-parse returned. The executable
/// parser's contracts show that every sub-parse lands inside this span, so
/// the failing branch of each guard below is never taken; the guard makes
/// the mutual recursion of the grammar functions visibly well founded.
pub open spec fn in_span(s: Seq<SpecToken>, lo: int, j: int) -> bool {
    lo <= j <= s.len()
}

// ---------------------------------------------------------------------------
// The grammar as mathematical functions from a token sequence and a cursor
// to a syntax-tree value and the cursor after it, or a parse failure.
// Precedence, lowest to highest: assignment, logical or, logical and,
// equality, comparison, additive, multiplicative, unary, call, primary.
// ---------------------------------------------------------------------------

/// Primary expressions: literals, identifiers and parenthesized expressions.
#[verifier::opaque]
pub open spec fn spec_primary(s: Seq<SpecToken>, i: int) -> Result<(SpecExpr, int), ParseError>
    decreases s.len() - i, 7int
        when 0 <= i <= s.len()
{
    if i < s.len() && s[i] == SpecToken::False {
        Ok((SpecExpr::Literal { value: "false"@ }, i + 1))
    } else if i < s.len() && s[i] == SpecToken::True {
        Ok((SpecExpr::Literal { value: "true"@ }, i + 1))
    } else if i < s.len() && s[i] is Number {
        Ok((SpecExpr::Literal { value: s[i]->Number_0 }, i + 1))
    } else if i < s.len() && s[i] is Ident {
        Ok((SpecExpr::Variable { name: s[i] }, i + 1))
    } else if i < s.len() && s[i] == SpecToken::LParen {
        match spec_expression(s, i + 1) {
            Err(e) => Err(e),
            Ok((inner, j)) => {
                if in_span(s, i + 1, j) {
                    if j < s.len() && s[j] == SpecToken::RParen {
                        Ok((SpecExpr::Grouping { expr: Box::new(inner) }, j + 1))
                    } else {
                        Err(ParseError::ExpectedToken)
                    }
                } else {
                    Err(ParseError::ExpectedToken)
                }
            },
        }
    } else {
        Err(ParseError::ExpectedExpression)
    }
}

/// The argument list of a call, after the first argument: further arguments
/// as long as commas follow.
#[verifier::opaque]
pub open spec fn spec_args_rest(s: Seq<SpecToken>, i: int, args: Seq<SpecExpr>) -> Result<
    (Seq<SpecExpr>, int),
    ParseError,
>
    decreases s.len() - i, 8int
        when 0 <= i <= s.len()
{
    if i < s.len() && s[i] == SpecToken::Comma {
        match spec_expression(s, i + 1) {
            Err(e) => Err(e),
            Ok((arg, j)) => {
                if in_span(s, i + 2, j) {
                    spec_args_rest(s, j, args.push(arg))
                } else {
                    Err(ParseError::ExpectedToken)
                }
            },
        }
    } else {
        Ok((args, i))
    }
}

/// The remainder of a call after its opening parenthesis: the argument list
/// and the closing parenthesis.
#[verifier::opaque]
pub open spec fn spec_finish_call(s: Seq<SpecToken>, i: int, callee: SpecExpr) -> Result<
    (SpecExpr, int),
    ParseError,
>
    decreases s.len() - i, 27int
        when 0 <= i <= s.len()
{
    if i < s.len() && s[i] == SpecToken::RParen {
        Ok(
            (
                SpecExpr::Call {
                    callee: Box::new(callee),
                    paren: SpecToken::RParen,
                    args: Seq::empty(),
                },
                i + 1,
            ),
        )
    } else {
        match spec_expression(s, i) {
            Err(e) => Err(e),
            Ok((arg, j)) => {
                if in_span(s, i + 1, j) {
                    match spec_args_rest(s, j, seq![arg]) {
                        Err(e) => Err(e),
                        Ok((args, k)) => {
                            if in_span(s, j, k) {
                                if k < s.len() && s[k] == SpecToken::RParen {
                                    Ok(
                                        (
                                            SpecExpr::Call {
                                                callee: Box::new(callee),
                                                paren: SpecToken::RParen,
                                                args: args,
                                            },
                                            k + 1,
                                        ),
                                    )
                                } else {
                                    Err(ParseError::ExpectedToken)
                                }
                            } else {
                                Err(ParseError::ExpectedToken)
                            }
                        },
                    }
                } else {
                    Err(ParseError::ExpectedToken)
                }
            },
        }
    }
}

/// Chained postfix calls on an already parsed expression.
#[verifier::opaque]
pub open spec fn spec_call_rest(s: Seq<SpecToken>, i: int, acc: SpecExpr) -> Result<
    (SpecExpr, int),
    ParseError,
>
    decreases s.len() - i, 10int
        when 0 <= i <= s.len()
{
    if i < s.len() && s[i] == SpecToken::LParen {
        match spec_finish_call(s, i + 1, acc) {
            Err(e) => Err(e),
            Ok((e2, k)) => {
                if in_span(s, i + 1, k) {
                    spec_call_rest(s, k, e2)
                } else {
                    Err(ParseError::ExpectedToken)
                }
            },
        }
    } else {
        Ok((acc, i))
    }
}

/// Call expressions: a primary followed by chained `(args)` suffixes.
#[verifier::opaque]
pub open spec fn spec_call(s: Seq<SpecToken>, i: int) -> Result<(SpecExpr, int), ParseError>
    decreases s.len() - i, 11int
        when 0 <= i <= s.len()
{
    match spec_primary(s, i) {
        Err(e) => Err(e),
        Ok((e0, j)) => {
            if in_span(s, i, j) {
                spec_call_rest(s, j, e0)
            } else {
                Err(ParseError::ExpectedToken)
            }
        },
    }
}

/// Unary expressions: `!` and `-` applied to a unary expression, otherwise
/// a call expression.
#[verifier::opaque]
pub open spec fn spec_unary(s: Seq<SpecToken>, i: int) -> Result<(SpecExpr, int), ParseError>
    decreases s.len() - i, 12int
        when 0 <= i <= s.len()
{
    if i < s.len() && (s[i] == SpecToken::Bang || s[i] == SpecToken::Minus) {
        match spec_unary(s, i + 1) {
            Err(e) => Err(e),
            Ok((rhs, j)) => Ok((SpecExpr::Unary { op: s[i], right: Box::new(rhs) }, j)),
        }
    } else {
        spec_call(s, i)
    }
}

/// Left-fold of multiplicative operators over unary operands.
#[verifier::opaque]
pub open spec fn spec_factor_rest(s: Seq<SpecToken>, i: int, acc: SpecExpr) -> Result<
    (SpecExpr, int),
    ParseError,
>
    decreases s.len() - i, 13int
        when 0 <= i <= s.len()
{
    if i < s.len() && (s[i] == SpecToken::Div || s[i] == SpecToken::Times) {
        match spec_unary(s, i + 1) {
            Err(e) => Err(e),
            Ok((rhs, j)) => {
                if in_span(s, i + 1, j) {
                    spec_factor_rest(
                        s,
                        j,
                        SpecExpr::Binary { op: s[i], left: Box::new(acc), right: Box::new(rhs) },
                    )
                } else {
                    Err(ParseError::ExpectedToken)
                }
            },
        }
    } else {
        Ok((acc, i))
    }
}

/// Multiplicative expressions, left-associative.
#[verifier::opaque]
pub open spec fn spec_factor(s: Seq<SpecToken>, i: int) -> Result<(SpecExpr, int), ParseError>
    decreases s.len() - i, 14int
        when 0 <= i <= s.len()
{
    match spec_unary(s, i) {
        Err(e) => Err(e),
        Ok((e0, j)) => {
            if in_span(s, i, j) {
                spec_factor_rest(s, j, e0)
            } else {
                Err(ParseError::ExpectedToken)
            }
        },
    }
}

/// Left-fold of additive operators over multiplicative operands.
#[verifier::opaque]
pub open spec fn spec_term_rest(s: Seq<SpecToken>, i: int, acc: SpecExpr) -> Result<
    (SpecExpr, int),
    ParseError,
>
    decreases s.len() - i, 15int
        when 0 <= i <= s.len()
{
    if i < s.len() && (s[i] == SpecToken::Minus || s[i] == SpecToken::Plus) {
        match spec_factor(s, i + 1) {
            Err(e) => Err(e),
            Ok((rhs, j)) => {
                if in_span(s, i + 1, j) {
                    spec_term_rest(
                        s,
                        j,
                        SpecExpr::Binary { op: s[i], left: Box::new(acc), right: Box::new(rhs) },
                    )
                } else {
                    Err(ParseError::ExpectedToken)
                }
            },
        }
    } else {
        Ok((acc, i))
    }
}

/// Additive expressions, left-associative.
#[verifier::opaque]
pub open spec fn spec_term(s: Seq<SpecToken>, i: int) -> Result<(SpecExpr, int), ParseError>
    decreases s.len() - i, 16int
        when 0 <= i <= s.len()
{
    match spec_factor(s, i) {
        Err(e) => Err(e),
        Ok((e0, j)) => {
            if in_span(s, i, j) {
                spec_term_rest(s, j, e0)
            } else {
                Err(ParseError::ExpectedToken)
            }
        },
    }
}

/// Left-fold of comparison operators over additive operands.
#[verifier::opaque]
pub open spec fn spec_comparison_rest(s: Seq<SpecToken>, i: int, acc: SpecExpr) -> Result<
    (SpecExpr, int),
    ParseError,
>
    decreases s.len() - i, 17int
        when 0 <= i <= s.len()
{
    if i < s.len() && (s[i] == SpecToken::Greater || s[i] == SpecToken::Geq || s[i]
        == SpecToken::Less || s[i] == SpecToken::Leq) {
        match spec_term(s, i + 1) {
            Err(e) => Err(e),
            Ok((rhs, j)) => {
                if in_span(s, i + 1, j) {
                    spec_comparison_rest(
                        s,
                        j,
                        SpecExpr::Binary { op: s[i], left: Box::new(acc), right: Box::new(rhs) },
                    )
                } else {
                    Err(ParseError::ExpectedToken)
                }
            },
        }
    } else {
        Ok((acc, i))
    }
}

/// Comparison expressions (`<`, `<=`, `>`, `>=`), left-associative.
#[verifier::opaque]
pub open spec fn spec_comparison(s: Seq<SpecToken>, i: int) -> Result<(SpecExpr, int), ParseError>
    decreases s.len() - i, 18int
        when 0 <= i <= s.len()
{
    match spec_term(s, i) {
        Err(e) => Err(e),
        Ok((e0, j)) => {
            if in_span(s, i, j) {
                spec_comparison_rest(s, j, e0)
            } else {
                Err(ParseError::ExpectedToken)
            }
        },
    }
}

/// Left-fold of equality operators over comparison operands.
#[verifier::opaque]
pub open spec fn spec_equality_rest(s: Seq<SpecToken>, i: int, acc: SpecExpr) -> Result<
    (SpecExpr, int),
    ParseError,
>
    decreases s.len() - i, 19int
        when 0 <= i <= s.len()
{
    if i < s.len() && (s[i] == SpecToken::Eqq || s[i] == SpecToken::Neq) {
        match spec_comparison(s, i + 1) {
            Err(e) => Err(e),
            Ok((rhs, j)) => {
                if in_span(s, i + 1, j) {
                    spec_equality_rest(
                        s,
                        j,
                        SpecExpr::Binary { op: s[i], left: Box::new(acc), right: Box::new(rhs) },
                    )
                } else {
                    Err(ParseError::ExpectedToken)
                }
            },
        }
    } else {
        Ok((acc, i))
    }
}

/// Equality expressions (`==`, `!=`), left-associative.
#[verifier::opaque]
pub open spec fn spec_equality(s: Seq<SpecToken>, i: int) -> Result<(SpecExpr, int), ParseError>
    decreases s.len() - i, 20int
        when 0 <= i <= s.len()
{
    match spec_comparison(s, i) {
        Err(e) => Err(e),
        Ok((e0, j)) => {
            if in_span(s, i, j) {
                spec_equality_rest(s, j, e0)
            } else {
                Err(ParseError::ExpectedToken)
            }
        },
    }
}

/// Left-fold of the short-circuiting `and` operator.
#[verifier::opaque]
pub open spec fn spec_and_rest(s: Seq<SpecToken>, i: int, acc: SpecExpr) -> Result<
    (SpecExpr, int),
    ParseError,
>
    decreases s.len() - i, 21int
        when 0 <= i <= s.len()
{
    if i < s.len() && s[i] == SpecToken::And {
        match spec_equality(s, i + 1) {
            Err(e) => Err(e),
            Ok((rhs, j)) => {
                if in_span(s, i + 1, j) {
                    spec_and_rest(
                        s,
                        j,
                        SpecExpr::Logical {
                            op: SpecToken::And,
                            left: Box::new(acc),
                            right: Box::new(rhs),
                        },
                    )
                } else {
                    Err(ParseError::ExpectedToken)
                }
            },
        }
    } else {
        Ok((acc, i))
    }
}

/// Logical-and expressions, left-associative.
#[verifier::opaque]
pub open spec fn spec_and(s: Seq<SpecToken>, i: int) -> Result<(SpecExpr, int), ParseError>
    decreases s.len() - i, 22int
        when 0 <= i <= s.len()
{
    match spec_equality(s, i) {
        Err(e) => Err(e),
        Ok((e0, j)) => {
            if in_span(s, i, j) {
                spec_and_rest(s, j, e0)
            } else {
                Err(ParseError::ExpectedToken)
            }
        },
    }
}

/// Left-fold of the short-circuiting `or` operator.
#[verifier::opaque]
pub open spec fn spec_or_rest(s: Seq<SpecToken>, i: int, acc: SpecExpr) -> Result<
    (SpecExpr, int),
    ParseError,
>
    decreases s.len() - i, 23int
        when 0 <= i <= s.len()
{
    if i < s.len() && s[i] == SpecToken::Or {
        match spec_and(s, i + 1) {
            Err(e) => Err(e),
            Ok((rhs, j)) => {
                if in_span(s, i + 1, j) {
                    spec_or_rest(
                        s,
                        j,
                        SpecExpr::Logical {
                            op: SpecToken::Or,
                            left: Box::new(acc),
                            right: Box::new(rhs),
                        },
                    )
                } else {
                    Err(ParseError::ExpectedToken)
                }
            },
        }
    } else {
        Ok((acc, i))
    }
}

/// Logical-or expressions, left-associative.
#[verifier::opaque]
pub open spec fn spec_or(s: Seq<SpecToken>, i: int) -> Result<(SpecExpr, int), ParseError>
    decreases s.len() - i, 24int
        when 0 <= i <= s.len()
{
    match spec_and(s, i) {
        Err(e) => Err(e),
        Ok((e0, j)) => {
            if in_span(s, i, j) {
                spec_or_rest(s, j, e0)
            } else {
                Err(ParseError::ExpectedToken)
            }
        },
    }
}

/// Assignment, right-associative; only valid when the left-hand expression
/// parsed as a bare variable, otherwise the parse fails as invalid.
#[verifier::opaque]
pub open spec fn spec_assignment(s: Seq<SpecToken>, i: int) -> Result<(SpecExpr, int), ParseError>
    decreases s.len() - i, 25int
        when 0 <= i <= s.len()
{
    match spec_or(s, i) {
        Err(e) => Err(e),
        Ok((e0, j)) => {
            if in_span(s, i, j) {
                if j < s.len() && s[j] == SpecToken::Eq {
                    match spec_assignment(s, j + 1) {
                        Err(e) => Err(e),
                        Ok((v, k)) => match e0 {
                            SpecExpr::Variable { name } => Ok(
                                (SpecExpr::Assign { name, value: Box::new(v) }, k),
                            ),
                            _ => Err(ParseError::InvalidAssignment),
                        },
                    }
                } else {
                    Ok((e0, j))
                }
            } else {
                Err(ParseError::ExpectedToken)
            }
        },
    }
}

/// An expression: the assignment level, the lowest precedence.
#[verifier::opaque]
pub open spec fn spec_expression(s: Seq<SpecToken>, i: int) -> Result<(SpecExpr, int), ParseError>
    decreases s.len() - i, 26int
        when 0 <= i <= s.len()
{
    spec_assignment(s, i)
}

/// An expression evaluated for effect, ended by a semicolon.
#[verifier::opaque]
pub open spec fn spec_expression_statement(s: Seq<SpecToken>, i: int) -> Result<
    (SpecStmt, int),
    ParseError,
>
    decreases s.len() - i, 32int
        when 0 <= i <= s.len()
{
    match spec_expression(s, i) {
        Err(e) => Err(e),
        Ok((e0, j)) => {
            if in_span(s, i, j) {
                if j < s.len() && s[j] == SpecToken::Semicolon {
                    Ok((SpecStmt::Expr(e0), j + 1))
                } else {
                    Err(ParseError::ExpectedToken)
                }
            } else {
                Err(ParseError::ExpectedToken)
            }
        },
    }
}

/// A return statement, after its keyword: an optional value expression and
/// the terminating semicolon.
#[verifier::opaque]
pub open spec fn spec_return_statement(s: Seq<SpecToken>, i: int) -> Result<
    (SpecStmt, int),
    ParseError,
>
    decreases s.len() - i, 31int
        when 0 <= i <= s.len()
{
    if i < s.len() && s[i] == SpecToken::Semicolon {
        Ok((SpecStmt::Return { keyword: SpecToken::Return, value: None }, i + 1))
    } else {
        match spec_expression(s, i) {
            Err(e) => Err(e),
            Ok((e0, j)) => {
                if in_span(s, i, j) {
                    if j < s.len() && s[j] == SpecToken::Semicolon {
                        Ok(
                            (
                                SpecStmt::Return { keyword: SpecToken::Return, value: Some(e0) },
                                j + 1,
                            ),
                        )
                    } else {
                        Err(ParseError::ExpectedToken)
                    }
                } else {
                    Err(ParseError::ExpectedToken)
                }
            },
        }
    }
}

/// A while statement, after its keyword: a parenthesized condition and a
/// body statement.
#[verifier::opaque]
pub open spec fn spec_while_statement(s: Seq<SpecToken>, i: int) -> Result<
    (SpecStmt, int),
    ParseError,
>
    decreases s.len() - i, 29int
        when 0 <= i <= s.len()
{
    if i < s.len() && s[i] == SpecToken::LParen {
        match spec_expression(s, i + 1) {
            Err(e) => Err(e),
            Ok((cond, j)) => {
                if in_span(s, i + 2, j) {
                    if j < s.len() && s[j] == SpecToken::RParen {
                        match spec_statement(s, j + 1) {
                            Err(e) => Err(e),
                            Ok((body, k)) => Ok(
                                (SpecStmt::While { condition: cond, body: Box::new(body) }, k),
                            ),
                        }
                    } else {
                        Err(ParseError::ExpectedToken)
                    }
                } else {
                    Err(ParseError::ExpectedToken)
                }
            },
        }
    } else {
        Err(ParseError::ExpectedToken)
    }
}

/// An if statement, after its keyword: a parenthesized condition, a then
/// branch, and an optional else branch.
#[verifier::opaque]
pub open spec fn spec_if_statement(s: Seq<SpecToken>, i: int) -> Result<(SpecStmt, int), ParseError>
    decreases s.len() - i, 30int
        when 0 <= i <= s.len()
{
    if i < s.len() && s[i] == SpecToken::LParen {
        match spec_expression(s, i + 1) {
            Err(e) => Err(e),
            Ok((cond, j)) => {
                if in_span(s, i + 2, j) {
                    if j < s.len() && s[j] == SpecToken::RParen {
                        match spec_statement(s, j + 1) {
                            Err(e) => Err(e),
                            Ok((then_b, k)) => {
                                if in_span(s, j + 2, k) {
                                    if k < s.len() && s[k] == SpecToken::Else {
                                        match spec_statement(s, k + 1) {
                                            Err(e) => Err(e),
                                            Ok((else_b, m)) => Ok(
                                                (
                                                    SpecStmt::If {
                                                        cond,
                                                        then_branch: Box::new(then_b),
                                                        else_branch: Some(Box::new(else_b)),
                                                    },
                                                    m,
                                                ),
                                            ),
                                        }
                                    } else {
                                        Ok(
                                            (
                                                SpecStmt::If {
                                                    cond,
                                                    then_branch: Box::new(then_b),
                                                    else_branch: None,
                                                },
                                                k,
                                            ),
                                        )
                                    }
                                } else {
                                    Err(ParseError::ExpectedToken)
                                }
                            },
                        }
                    } else {
                        Err(ParseError::ExpectedToken)
                    }
                } else {
                    Err(ParseError::ExpectedToken)
                }
            },
        }
    } else {
        Err(ParseError::ExpectedToken)
    }
}

/// A variable declaration, after its keyword: a mandatory name, an optional
/// initializer defaulting to the false literal, and a semicolon.
#[verifier::opaque]
pub open spec fn spec_variable_declaration(s: Seq<SpecToken>, i: int) -> Result<
    (SpecStmt, int),
    ParseError,
>
    decreases s.len() - i, 27int
        when 0 <= i <= s.len()
{
    if i < s.len() && s[i] is Ident {
        if i + 1 < s.len() && s[i + 1] == SpecToken::Eq {
            match spec_expression(s, i + 2) {
                Err(e) => Err(e),
                Ok((init, j)) => {
                    if in_span(s, i + 3, j) {
                        if j < s.len() && s[j] == SpecToken::Semicolon {
                            Ok(
                                (
                                    SpecStmt::Var { name: s[i], initializer: init },
                                    j + 1,
                                ),
                            )
                        } else {
                            Err(ParseError::ExpectedToken)
                        }
                    } else {
                        Err(ParseError::ExpectedToken)
                    }
                },
            }
        } else if i + 1 < s.len() && s[i + 1] == SpecToken::Semicolon {
            Ok(
                (
                    SpecStmt::Var {
                        name: s[i],
                        initializer: SpecExpr::Literal { value: "false"@ },
                    },
                    i + 2,
                ),
            )
        } else {
            Err(ParseError::ExpectedToken)
        }
    } else {
        Err(ParseError::ExpectedIdentifier)
    }
}

/// A for statement, after its keyword, desugared at parse time into an
/// equivalent while: the increment (if any) is appended to the body inside a
/// block, the initializer (if any) is hoisted into an enclosing block, and
/// the loop guard is the stated condition, or the true literal when none is
/// stated.
#[verifier::opaque]
pub open spec fn spec_for_statement(s: Seq<SpecToken>, i: int) -> Result<
    (SpecStmt, int),
    ParseError,
>
    decreases s.len() - i, 33int
        when 0 <= i <= s.len()
{
    if i < s.len() && s[i] == SpecToken::LParen {
        let init_r: Result<(Option<SpecStmt>, int), ParseError> = if i + 1 < s.len() && s[i + 1]
            == SpecToken::Semicolon {
            Ok((None, i + 2))
        } else if i + 1 < s.len() && s[i + 1] == SpecToken::Var {
            match spec_variable_declaration(s, i + 2) {
                Err(e) => Err(e),
                Ok((d, j)) => Ok((Some(d), j)),
            }
        } else {
            match spec_expression_statement(s, i + 1) {
                Err(e) => Err(e),
                Ok((d, j)) => Ok((Some(d), j)),
            }
        };
        match init_r {
            Err(e) => Err(e),
            Ok((initializer, j)) => {
                if in_span(s, i + 2, j) {
                    let cond_r: Result<(Option<SpecExpr>, int), ParseError> = if j < s.len() && s[j]
                        == SpecToken::Semicolon {
                        Ok((None, j + 1))
                    } else {
                        match spec_expression(s, j) {
                            Err(e) => Err(e),
                            Ok((c, k)) => {
                                if k < s.len() && s[k] == SpecToken::Semicolon {
                                    Ok((Some(c), k + 1))
                                } else {
                                    Err(ParseError::ExpectedToken)
                                }
                            },
                        }
                    };
                    match cond_r {
                        Err(e) => Err(e),
                        Ok((cond, k)) => {
                            if in_span(s, j + 1, k) {
                                let inc_r: Result<(Option<SpecExpr>, int), ParseError> = if k
                                    < s.len() && s[k] == SpecToken::RParen {
                                    Ok((None, k + 1))
                                } else {
                                    match spec_expression(s, k) {
                                        Err(e) => Err(e),
                                        Ok((x, m)) => {
                                            if m < s.len() && s[m] == SpecToken::RParen {
                                                Ok((Some(x), m + 1))
                                            } else {
                                                Err(ParseError::ExpectedToken)
                                            }
                                        },
                                    }
                                };
                                match inc_r {
                                    Err(e) => Err(e),
                                    Ok((increment, m)) => {
                                        if in_span(s, k + 1, m) {
                                            match spec_statement(s, m) {
                                                Err(e) => Err(e),
                                                Ok((body0, q)) => {
                                                    let body1 = match increment {
                                                        Some(x) => SpecStmt::Block(
                                                            seq![body0, SpecStmt::Expr(x)],
                                                        ),
                                                        None => body0,
                                                    };
                                                    let guard = match cond {
                                                        Some(c) => c,
                                                        None => SpecExpr::Literal {
                                                            value: "true"@,
                                                        },
                                                    };
                                                    let w = SpecStmt::While {
                                                        condition: guard,
                                                        body: Box::new(body1),
                                                    };
                                                    let out = match initializer {
                                                        Some(d) => SpecStmt::Block(seq![d, w]),
                                                        None => w,
                                                    };
                                                    Ok((out, q))
                                                },
                                            }
                                        } else {
                                            Err(ParseError::ExpectedToken)
                                        }
                                    },
                                }
                            } else {
                                Err(ParseError::ExpectedToken)
                            }
                        },
                    }
                } else {
                    Err(ParseError::ExpectedToken)
                }
            },
        }
    } else {
        Err(ParseError::ExpectedToken)
    }
}

/// The statements of a brace-delimited block, up to and including the
/// closing brace.
#[verifier::opaque]
pub open spec fn spec_block_rest(s: Seq<SpecToken>, i: int, acc: Seq<SpecStmt>) -> Result<
    (Seq<SpecStmt>, int),
    ParseError,
>
    decreases s.len() - i, 38int
        when 0 <= i <= s.len()
{
    if i < s.len() && s[i] == SpecToken::RBrace {
        Ok((acc, i + 1))
    } else {
        match spec_declaration(s, i) {
            Err(e) => Err(e),
            Ok((d, j)) => {
                if in_span(s, i + 1, j) {
                    spec_block_rest(s, j, acc.push(d))
                } else {
                    Err(ParseError::ExpectedToken)
                }
            },
        }
    }
}

/// A statement: a control-flow form, a block, or an expression statement.
#[verifier::opaque]
pub open spec fn spec_statement(s: Seq<SpecToken>, i: int) -> Result<(SpecStmt, int), ParseError>
    decreases s.len() - i, 34int
        when 0 <= i <= s.len()
{
    if i < s.len() && s[i] == SpecToken::For {
        spec_for_statement(s, i + 1)
    } else if i < s.len() && s[i] == SpecToken::If {
        spec_if_statement(s, i + 1)
    } else if i < s.len() && s[i] == SpecToken::Return {
        spec_return_statement(s, i + 1)
    } else if i < s.len() && s[i] == SpecToken::While {
        spec_while_statement(s, i + 1)
    } else if i < s.len() && s[i] == SpecToken::LBrace {
        match spec_block_rest(s, i + 1, Seq::empty()) {
            Err(e) => Err(e),
            Ok((stmts, j)) => Ok((SpecStmt::Block(stmts), j)),
        }
    } else {
        spec_expression_statement(s, i)
    }
}

/// The parameter list of a function declaration, after the first parameter:
/// further names as long as commas follow.
#[verifier::opaque]
pub open spec fn spec_params_rest(s: Seq<SpecToken>, i: int, acc: Seq<SpecToken>) -> Result<
    (Seq<SpecToken>, int),
    ParseError,
>
    decreases s.len() - i, 6int
        when 0 <= i <= s.len()
{
    if i < s.len() && s[i] == SpecToken::Comma {
        if i + 1 < s.len() && s[i + 1] is Ident {
            spec_params_rest(s, i + 2, acc.push(s[i + 1]))
        } else {
            Err(ParseError::ExpectedIdentifier)
        }
    } else {
        Ok((acc, i))
    }
}

/// A function declaration, after its keyword: a mandatory name, a
/// parenthesized parameter list of bare identifiers, and a brace-delimited
/// body.
#[verifier::opaque]
pub open spec fn spec_function_declaration(s: Seq<SpecToken>, i: int) -> Result<
    (SpecStmt, int),
    ParseError,
>
    decreases s.len() - i, 28int
        when 0 <= i <= s.len()
{
    if i < s.len() && s[i] is Ident {
        if i + 1 < s.len() && s[i + 1] == SpecToken::LParen {
            let params_r: Result<(Seq<SpecToken>, int), ParseError> = if i + 2 < s.len() && s[i + 2]
                == SpecToken::RParen {
                Ok((Seq::empty(), i + 3))
            } else if i + 2 < s.len() && s[i + 2] is Ident {
                match spec_params_rest(s, i + 3, seq![s[i + 2]]) {
                    Err(e) => Err(e),
                    Ok((ps, q)) => {
                        if q < s.len() && s[q] == SpecToken::RParen {
                            Ok((ps, q + 1))
                        } else {
                            Err(ParseError::ExpectedToken)
                        }
                    },
                }
            } else {
                Err(ParseError::ExpectedIdentifier)
            };
            match params_r {
                Err(e) => Err(e),
                Ok((params, q)) => {
                    if in_span(s, i + 3, q) {
                        if q < s.len() && s[q] == SpecToken::LBrace {
                            match spec_block_rest(s, q + 1, Seq::empty()) {
                                Err(e) => Err(e),
                                Ok((body, b)) => Ok(
                                    (
                                        SpecStmt::Function { name: s[i], params, body },
                                        b,
                                    ),
                                ),
                            }
                        } else {
                            Err(ParseError::ExpectedToken)
                        }
                    } else {
                        Err(ParseError::ExpectedToken)
                    }
                },
            }
        } else {
            Err(ParseError::ExpectedToken)
        }
    } else {
        Err(ParseError::ExpectedIdentifier)
    }
}

/// A declaration: a function declaration, a variable declaration, or a
/// statement.
#[verifier::opaque]
pub open spec fn spec_declaration(s: Seq<SpecToken>, i: int) -> Result<(SpecStmt, int), ParseError>
    decreases s.len() - i, 36int
        when 0 <= i <= s.len()
{
    if i < s.len() && s[i] == SpecToken::Fun {
        spec_function_declaration(s, i + 1)
    } else if i < s.len() && s[i] == SpecToken::Var {
        spec_variable_declaration(s, i + 1)
    } else {
        spec_statement(s, i)
    }
}

/// The top-level parse: declarations until the cursor rests on the end
/// sentinel or the input is exhausted.
#[verifier::opaque]
pub open spec fn spec_parse_rest(s: Seq<SpecToken>, i: int, acc: Seq<SpecStmt>) -> Result<
    (Seq<SpecStmt>, int),
    ParseError,
>
    decreases s.len() - i, 40int
        when 0 <= i <= s.len()
{
    if i >= s.len() || s[i] == SpecToken::EOF {
        Ok((acc, i))
    } else {
        match spec_declaration(s, i) {
            Err(e) => Err(e),
            Ok((d, j)) => {
                if in_span(s, i + 1, j) {
                    spec_parse_rest(s, j, acc.push(d))
                } else {
                    Err(ParseError::ExpectedToken)
                }
            },
        }
    }
}

/// The ordered sequence of top-level statements of a token sequence, or the
/// first parse failure.
pub open spec fn spec_parse(s: Seq<SpecToken>) -> Result<Seq<SpecStmt>, ParseError> {
    match spec_parse_rest(s, 0, Seq::empty()) {
        Err(e) => Err(e),
        Ok((stmts, _j)) => Ok(stmts),
    }
}

// ---------------------------------------------------------------------------
// The executable recursive-descent parser.
// ---------------------------------------------------------------------------

/// The spelling-level test behind token matching: the cursor rests on `t`,
/// and `t` is not the end sentinel.
pub open spec fn spec_check(s: Seq<SpecToken>, i: int, t: SpecToken) -> bool {
    spec_peek(s, i) != SpecToken::EOF && spec_peek(s, i) == t
}

/// A mandatory identifier: the token under the cursor when it is an
/// identifier, and the cursor past it.
pub open spec fn spec_consume_identifier(s: Seq<SpecToken>, i: int) -> Result<
    (SpecToken, int),
    ParseError,
> {
    if 0 <= i < s.len() && s[i] is Ident {
        Ok((s[i], i + 1))
    } else {
        Err(ParseError::ExpectedIdentifier)
    }
}

/// Consumes the full token sequence and produces the ordered sequence of
/// top-level statement nodes via recursive descent with precedence climbing.
///
/// The cursor advances monotonically and never rewinds; lookahead is one
/// token.
#[derive(Debug)]
pub struct Parser {
    pub tokens: Vec<Token>,
    current: usize,
}

impl Parser {
    /// The mathematical value of the token sequence being parsed.
    pub closed spec fn toks(&self) -> Seq<SpecToken> {
        toks_view(self.tokens@)
    }

    /// The cursor: how many tokens have been consumed.
    pub closed spec fn pos(&self) -> int {
        self.current as int
    }

    /// The cursor never moves outside the token sequence.
    pub closed spec fn wf(&self) -> bool {
        self.current <= self.tokens.len()
    }

    /// A fresh parser positioned at the start of the token sequence.
    #[verifier::spinoff_prover]
    pub fn new(tokens: Vec<Token>) -> (r: Parser)
        ensures
            r.wf(),
            r.toks() == toks_view(tokens@),
            r.pos() == 0,
    {
        Parser { tokens, current: 0 }
    }

    /// The token under the cursor; the end sentinel once past the end.
    #[verifier::spinoff_prover]
    fn peek(&self) -> (r: Token)
        requires
            self.wf(),
        ensures
            r@ == spec_peek(self.toks(), self.pos()),
    {
        if self.current < self.tokens.len() {
            self.tokens[self.current].clone()
        } else {
            Token::EOF
        }
    }

    /// Whether the cursor rests on the end sentinel.
    #[verifier::spinoff_prover]
    fn is_at_end(&self) -> (r: bool)
        requires
            self.wf(),
        ensures
            r == (spec_peek(self.toks(), self.pos()) == SpecToken::EOF),
    {
        let p = self.peek();
        match p {
            Token::EOF => true,
            _ => false,
        }
    }

    /// Moves the cursor one token forward.
    #[verifier::spinoff_prover]
    fn advance(&mut self)
        requires
            old(self).wf(),
            old(self).pos() < old(self).tokens@.len(),
        ensures
            final(self).wf(),
            final(self).toks() == old(self).toks(),
            final(self).pos() == old(self).pos() + 1,
    {
        self.current = self.current + 1;
    }

    /// Whether the cursor rests on exactly `tok` (never the end sentinel).
    #[verifier::spinoff_prover]
    fn check(&self, tok: &Token) -> (r: bool)
        requires
            self.wf(),
        ensures
            r == spec_check(self.toks(), self.pos(), tok@),
    {
        if self.is_at_end() {
            return false;
        }
        let p = self.peek();
        p == *tok
    }

    /// Consumes the mandatory token `tok`, or fails: a missing mandatory
    /// token is a hard parse error.
    #[verifier::spinoff_prover]
    fn consume(&mut self, tok: Token) -> (r: Result<Token, ParseError>)
        requires
            old(self).wf(),
        ensures
            final(self).wf(),
            final(self).toks() == old(self).toks(),
            match r {
                Ok(t) => t@ == tok@ && spec_check(old(self).toks(), old(self).pos(), tok@)
                    && final(self).pos() == old(self).pos() + 1,
                Err(e) => e == ParseError::ExpectedToken && !spec_check(
                    old(self).toks(),
                    old(self).pos(),
                    tok@,
                ) && final(self).pos() == old(self).pos(),
            },
    {
        if self.check(&tok) {
            self.advance();
            Ok(tok)
        } else {
            Err(ParseError::ExpectedToken)
        }
    }

    /// Consumes a mandatory identifier token, or fails: a missing name where
    /// one is grammatically required is a hard parse error.
    #[verifier::spinoff_prover]
    pub fn consume_identifier(&mut self) -> (r: Result<Token, ParseError>)
        requires
            old(self).wf(),
        ensures
            final(self).wf(),
            final(self).toks() == old(self).toks(),
            match r {
                Ok(t) => spec_consume_identifier(old(self).toks(), old(self).pos()) == Ok::<
                    (SpecToken, int),
                    ParseError,
                >((t@, final(self).pos())) && final(self).pos() == old(self).pos() + 1,
                Err(e) => spec_consume_identifier(old(self).toks(), old(self).pos()) == Err::<
                    (SpecToken, int),
                    ParseError,
                >(e) && final(self).pos() == old(self).pos(),
            },
    {
        let p = self.peek();
        match p {
            Token::Ident(x) => {
                self.advance();
                Ok(Token::Ident(x))
            },
            _ => Err(ParseError::ExpectedIdentifier),
        }
    }

    /// Primary expressions: literals, identifiers and parenthesized
    /// expressions.
    #[verifier::spinoff_prover]
    pub fn primary(&mut self) -> (r: Result<Expr, ParseError>)
        requires
            old(self).wf(),
        ensures
            final(self).wf(),
            final(self).toks() == old(self).toks(),
            old(self).pos() <= final(self).pos() <= final(self).toks().len(),
            match r {
                Ok(e) => spec_primary(old(self).toks(), old(self).pos()) == Ok::<
                    (SpecExpr, int),
                    ParseError,
                >((e@, final(self).pos())) && old(self).pos() < final(self).pos(),
                Err(pe) => spec_primary(old(self).toks(), old(self).pos()) == Err::<
                    (SpecExpr, int),
                    ParseError,
                >(pe),
            },
        decreases self.toks().len() - self.pos(), 7int,
    {
        reveal_with_fuel(spec_primary, 1);
        let p = self.peek();
        match p {
            Token::False => {
                self.advance();
                Ok(Expr::Literal { value: "false".to_owned() })
            },
            Token::True => {
                self.advance();
                Ok(Expr::Literal { value: "true".to_owned() })
            },
            Token::Number(n) => {
                self.advance();
                Ok(Expr::Literal { value: n })
            },
            Token::Ident(x) => {
                self.advance();
                Ok(Expr::Variable { name: Token::Ident(x) })
            },
            Token::LParen => {
                self.advance();
                let inner = match self.expression() {
                    Ok(v) => v,
                    Err(e) => {
                        return Err(e);
                    },
                };
                match self.consume(Token::RParen) {
                    Ok(_) => Ok(Expr::Grouping { expr: Box::new(inner) }),
                    Err(e) => Err(e),
                }
            },
            _ => Err(ParseError::ExpectedExpression),
        }
    }

    /// The argument list of a call, after the first argument.
    #[verifier::spinoff_prover]
    fn args_rest(&mut self, args: Vec<Box<Expr>>) -> (r: Result<Vec<Box<Expr>>, ParseError>)
        requires
            old(self).wf(),
        ensures
            final(self).wf(),
            final(self).toks() == old(self).toks(),
            old(self).pos() <= final(self).pos() <= final(self).toks().len(),
            match r {
                Ok(v) => spec_args_rest(old(self).toks(), old(self).pos(), exprs_view(args@))
                    == Ok::<(Seq<SpecExpr>, int), ParseError>((exprs_view(v@), final(self).pos())),
                Err(pe) => spec_args_rest(old(self).toks(), old(self).pos(), exprs_view(args@))
                    == Err::<(Seq<SpecExpr>, int), ParseError>(pe),
            },
        decreases self.toks().len() - self.pos(), 8int,
    {
        reveal_with_fuel(spec_args_rest, 1);
        let ghost s = self.toks();
        let ghost i = self.pos();
        let ghost a0 = exprs_view(args@);
        let p = self.peek();
        if p == Token::Comma {
            proof {
                assert(i < s.len() && s[i] == SpecToken::Comma);
            }
            self.advance();
            let e = match self.expression() {
                Ok(v) => v,
                Err(e) => {
                    proof {
                        assert(spec_args_rest(s, i, a0) == Err::<(Seq<SpecExpr>, int), ParseError>(
                            e,
                        ));
                    }
                    return Err(e);
                },
            };
            let ghost j = self.pos();
            let mut args2 = args;
            let b = Box::new(e);
            proof {
                lemma_exprs_view_push(args2@, b);
            }
            args2.push(b);
            proof {
                assert(exprs_view(args2@) == a0.push(b@));
                assert(in_span(s, i + 2, j));
                assert(spec_args_rest(s, i, a0) == spec_args_rest(s, j, exprs_view(args2@)));
            }
            self.args_rest(args2)
        } else {
            proof {
                assert(!(i < s.len() && s[i] == SpecToken::Comma));
                assert(spec_args_rest(s, i, a0) == Ok::<(Seq<SpecExpr>, int), ParseError>((a0, i)));
            }
            Ok(args)
        }
    }

    /// The remainder of a call after its opening parenthesis: the argument
    /// list and the closing parenthesis.
    #[verifier::spinoff_prover]
    pub fn finish_call(&mut self, expr: Expr) -> (r: Result<Expr, ParseError>)
        requires
            old(self).wf(),
        ensures
            final(self).wf(),
            final(self).toks() == old(self).toks(),
            old(self).pos() <= final(self).pos() <= final(self).toks().len(),
            match r {
                Ok(e) => spec_finish_call(old(self).toks(), old(self).pos(), expr@) == Ok::<
                    (SpecExpr, int),
                    ParseError,
                >((e@, final(self).pos())) && old(self).pos() < final(self).pos(),
                Err(pe) => spec_finish_call(old(self).toks(), old(self).pos(), expr@) == Err::<
                    (SpecExpr, int),
                    ParseError,
                >(pe),
            },
        decreases self.toks().len() - self.pos(), 27int,
    {
        reveal_with_fuel(spec_finish_call, 1);
        let ghost s = self.toks();
        let ghost i = self.pos();
        let ghost ev = expr@;
        let mut args: Vec<Box<Expr>> = Vec::new();
        if self.check(&Token::RParen) {
            self.advance();
            proof {
                assert(exprs_view(args@) =~= Seq::<SpecExpr>::empty());
                assert(spec_finish_call(s, i, ev) == Ok::<(SpecExpr, int), ParseError>(
                    (
                        SpecExpr::Call {
                            callee: Box::new(ev),
                            paren: SpecToken::RParen,
                            args: Seq::empty(),
                        },
                        i + 1,
                    ),
                ));
            }
            Ok(Expr::Call { callee: Box::new(expr), paren: Token::RParen, args })
        } else {
            let first = match self.expression() {
                Ok(v) => v,
                Err(e) => {
                    proof {
                        assert(spec_finish_call(s, i, ev) == Err::<(SpecExpr, int), ParseError>(e));
                    }
                    return Err(e);
                },
            };
            let ghost j = self.pos();
            let b = Box::new(first);
            proof {
                lemma_exprs_view_push(args@, b);
                assert(exprs_view(args@.push(b)) =~= seq![b@]);
            }
            args.push(b);
            args = match self.args_rest(args) {
                Ok(v) => v,
                Err(e) => {
                    proof {
                        assert(spec_finish_call(s, i, ev) == Err::<(SpecExpr, int), ParseError>(e));
                    }
                    return Err(e);
                },
            };
            let ghost k = self.pos();
            let ghost av = exprs_view(args@);
            let paren = match self.consume(Token::RParen) {
                Ok(t) => t,
                Err(e) => {
                    proof {
                        assert(spec_finish_call(s, i, ev) == Err::<(SpecExpr, int), ParseError>(e));
                    }
                    return Err(e);
                },
            };
            proof {
                assert(spec_finish_call(s, i, ev) == Ok::<(SpecExpr, int), ParseError>(
                    (
                        SpecExpr::Call { callee: Box::new(ev), paren: SpecToken::RParen, args: av },
                        k + 1,
                    ),
                ));
            }
            Ok(Expr::Call { callee: Box::new(expr), paren, args })
        }
    }

    /// Chained postfix calls on an already parsed expression.
    #[verifier::spinoff_prover]
    fn call_rest(&mut self, acc: Expr) -> (r: Result<Expr, ParseError>)
        requires
            old(self).wf(),
        ensures
            final(self).wf(),
            final(self).toks() == old(self).toks(),
            old(self).pos() <= final(self).pos() <= final(self).toks().len(),
            match r {
                Ok(e) => spec_call_rest(old(self).toks(), old(self).pos(), acc@) == Ok::<
                    (SpecExpr, int),
                    ParseError,
                >((e@, final(self).pos())),
                Err(pe) => spec_call_rest(old(self).toks(), old(self).pos(), acc@) == Err::<
                    (SpecExpr, int),
                    ParseError,
                >(pe),
            },
        decreases self.toks().len() - self.pos(), 10int,
    {
        reveal_with_fuel(spec_call_rest, 1);
        let p = self.peek();
        if p == Token::LParen {
            self.advance();
            let e2 = match self.finish_call(acc) {
                Ok(v) => v,
                Err(e) => {
                    return Err(e);
                },
            };
            self.call_rest(e2)
        } else {
            Ok(acc)
        }
    }

    /// Call expressions: a primary followed by chained `(args)` suffixes.
    #[verifier::spinoff_prover]
    pub fn call(&mut self) -> (r: Result<Expr, ParseError>)
        requires
            old(self).wf(),
        ensures
            final(self).wf(),
            final(self).toks() == old(self).toks(),
            old(self).pos() <= final(self).pos() <= final(self).toks().len(),
            match r {
                Ok(e) => spec_call(old(self).toks(), old(self).pos()) == Ok::<
                    (SpecExpr, int),
                    ParseError,
                >((e@, final(self).pos())) && old(self).pos() < final(self).pos(),
                Err(pe) => spec_call(old(self).toks(), old(self).pos()) == Err::<
                    (SpecExpr, int),
                    ParseError,
                >(pe),
            },
        decreases self.toks().len() - self.pos(), 11int,
    {
        reveal_with_fuel(spec_call, 1);
        let e0 = match self.primary() {
            Ok(v) => v,
            Err(e) => {
                return Err(e);
            },
        };
        self.call_rest(e0)
    }

    /// Unary expressions: `!` and `-` applied to a unary expression,
    /// otherwise a call expression.
    #[verifier::spinoff_prover]
    pub fn unary(&mut self) -> (r: Result<Expr, ParseError>)
        requires
            old(self).wf(),
        ensures
            final(self).wf(),
            final(self).toks() == old(self).toks(),
            old(self).pos() <= final(self).pos() <= final(self).toks().len(),
            match r {
                Ok(e) => spec_unary(old(self).toks(), old(self).pos()) == Ok::<
                    (SpecExpr, int),
                    ParseError,
                >((e@, final(self).pos())) && old(self).pos() < final(self).pos(),
                Err(pe) => spec_unary(old(self).toks(), old(self).pos()) == Err::<
                    (SpecExpr, int),
                    ParseError,
                >(pe),
            },
        decreases self.toks().len() - self.pos(), 12int,
    {
        reveal_with_fuel(spec_unary, 1);
        let p = self.peek();
        if p == Token::Bang || p == Token::Minus {
            self.advance();
            let rhs = match self.unary() {
                Ok(v) => v,
                Err(e) => {
                    return Err(e);
                },
            };
            Ok(Expr::UnaryExpr { op: p, right: Box::new(rhs) })
        } else {
            self.call()
        }
    }

    /// Left-fold of the factor level operators.
    #[verifier::spinoff_prover]
    fn factor_rest(&mut self, acc: Expr) -> (r: Result<Expr, ParseError>)
        requires
            old(self).wf(),
        ensures
            final(self).wf(),
            final(self).toks() == old(self).toks(),
            old(self).pos() <= final(self).pos() <= final(self).toks().len(),
            match r {
                Ok(e) => spec_factor_rest(old(self).toks(), old(self).pos(), acc@) == Ok::<
                    (SpecExpr, int),
                    ParseError,
                >((e@, final(self).pos())),
                Err(pe) => spec_factor_rest(old(self).toks(), old(self).pos(), acc@) == Err::<
                    (SpecExpr, int),
                    ParseError,
                >(pe),
            },
        decreases self.toks().len() - self.pos(), 13int,
    {
        reveal_with_fuel(spec_factor_rest, 1);
        let ghost s = self.toks();
        let ghost i = self.pos();
        let ghost a0 = acc@;
        let p = self.peek();
        if p == Token::Div || p == Token::Times {
            proof {
                assert(i < s.len() && s[i] == p@);
            }
            self.advance();
            let rhs = match self.unary() {
                Ok(v) => v,
                Err(e) => {
                    proof {
                        assert(spec_factor_rest(s, i, a0) == Err::<(SpecExpr, int), ParseError>(e));
                    }
                    return Err(e);
                },
            };
            let ghost j = self.pos();
            let ghost rv = rhs@;
            let e2 = Expr::BinaryExpr { op: p, left: Box::new(acc), right: Box::new(rhs) };
            proof {
                assert(e2@ == (SpecExpr::Binary { op: s[i], left: Box::new(a0), right: Box::new(rv) }));
                assert(in_span(s, i + 1, j));
                assert(spec_factor_rest(s, i, a0) == spec_factor_rest(s, j, e2@));
            }
            self.factor_rest(e2)
        } else {
            proof {
                assert(!(i < s.len() && (s[i] == SpecToken::Div || s[i] == SpecToken::Times)));
                assert(spec_factor_rest(s, i, a0) == Ok::<(SpecExpr, int), ParseError>((a0, i)));
            }
            Ok(acc)
        }
    }

    /// The factor level, left-associative.
    #[verifier::spinoff_prover]
    pub fn factor(&mut self) -> (r: Result<Expr, ParseError>)
        requires
            old(self).wf(),
        ensures
            final(self).wf(),
            final(self).toks() == old(self).toks(),
            old(self).pos() <= final(self).pos() <= final(self).toks().len(),
            match r {
                Ok(e) => spec_factor(old(self).toks(), old(self).pos()) == Ok::<
                    (SpecExpr, int),
                    ParseError,
                >((e@, final(self).pos())) && old(self).pos() < final(self).pos(),
                Err(pe) => spec_factor(old(self).toks(), old(self).pos()) == Err::<
                    (SpecExpr, int),
                    ParseError,
                >(pe),
            },
        decreases self.toks().len() - self.pos(), 14int,
    {
        reveal_with_fuel(spec_factor, 1);
        let e0 = match self.unary() {
            Ok(v) => v,
            Err(e) => {
                return Err(e);
            },
        };
        self.factor_rest(e0)
    }

    /// Left-fold of the term level operators.
    #[verifier::spinoff_prover]
    fn term_rest(&mut self, acc: Expr) -> (r: Result<Expr, ParseError>)
        requires
            old(self).wf(),
        ensures
            final(self).wf(),
            final(self).toks() == old(self).toks(),
            old(self).pos() <= final(self).pos() <= final(self).toks().len(),
            match r {
                Ok(e) => spec_term_rest(old(self).toks(), old(self).pos(), acc@) == Ok::<
                    (SpecExpr, int),
                    ParseError,
                >((e@, final(self).pos())),
                Err(pe) => spec_term_rest(old(self).toks(), old(self).pos(), acc@) == Err::<
                    (SpecExpr, int),
                    ParseError,
                >(pe),
            },
        decreases self.toks().len() - self.pos(), 15int,
    {
        reveal_with_fuel(spec_term_rest, 1);
        let ghost s = self.toks();
        let ghost i = self.pos();
        let ghost a0 = acc@;
        let p = self.peek();
        if p == Token::Minus || p == Token::Plus {
            proof {
                assert(i < s.len() && s[i] == p@);
            }
            self.advance();
            let rhs = match self.factor() {
                Ok(v) => v,
                Err(e) => {
                    proof {
                        assert(spec_term_rest(s, i, a0) == Err::<(SpecExpr, int), ParseError>(e));
                    }
                    return Err(e);
                },
            };
            let ghost j = self.pos();
            let ghost rv = rhs@;
            let e2 = Expr::BinaryExpr { op: p, left: Box::new(acc), right: Box::new(rhs) };
            proof {
                assert(e2@ == (SpecExpr::Binary { op: s[i], left: Box::new(a0), right: Box::new(rv) }));
                assert(in_span(s, i + 1, j));
                assert(spec_term_rest(s, i, a0) == spec_term_rest(s, j, e2@));
            }
            self.term_rest(e2)
        } else {
            proof {
                assert(!(i < s.len() && (s[i] == SpecToken::Minus || s[i] == SpecToken::Plus)));
                assert(spec_term_rest(s, i, a0) == Ok::<(SpecExpr, int), ParseError>((a0, i)));
            }
            Ok(acc)
        }
    }

    /// The term level, left-associative.
    #[verifier::spinoff_prover]
    pub fn term(&mut self) -> (r: Result<Expr, ParseError>)
        requires
            old(self).wf(),
        ensures
            final(self).wf(),
            final(self).toks() == old(self).toks(),
            old(self).pos() <= final(self).pos() <= final(self).toks().len(),
            match r {
                Ok(e) => spec_term(old(self).toks(), old(self).pos()) == Ok::<
                    (SpecExpr, int),
                    ParseError,
                >((e@, final(self).pos())) && old(self).pos() < final(self).pos(),
                Err(pe) => spec_term(old(self).toks(), old(self).pos()) == Err::<
                    (SpecExpr, int),
                    ParseError,
                >(pe),
            },
        decreases self.toks().len() - self.pos(), 16int,
    {
        reveal_with_fuel(spec_term, 1);
        let e0 = match self.factor() {
            Ok(v) => v,
            Err(e) => {
                return Err(e);
            },
        };
        self.term_rest(e0)
    }

    /// Left-fold of the comparison level operators.
    #[verifier::spinoff_prover]
    fn comparison_rest(&mut self, acc: Expr) -> (r: Result<Expr, ParseError>)
        requires
            old(self).wf(),
        ensures
            final(self).wf(),
            final(self).toks() == old(self).toks(),
            old(self).pos() <= final(self).pos() <= final(self).toks().len(),
            match r {
                Ok(e) => spec_comparison_rest(old(self).toks(), old(self).pos(), acc@) == Ok::<
                    (SpecExpr, int),
                    ParseError,
                >((e@, final(self).pos())),
                Err(pe) => spec_comparison_rest(old(self).toks(), old(self).pos(), acc@) == Err::<
                    (SpecExpr, int),
                    ParseError,
                >(pe),
            },
        decreases self.toks().len() - self.pos(), 17int,
    {
        reveal_with_fuel(spec_comparison_rest, 1);
        let ghost s = self.toks();
        let ghost i = self.pos();
        let ghost a0 = acc@;
        let p = self.peek();
        if p == Token::Greater || p == Token::Geq || p == Token::Less || p == Token::Leq {
            proof {
                assert(i < s.len() && s[i] == p@);
            }
            self.advance();
            let rhs = match self.term() {
                Ok(v) => v,
                Err(e) => {
                    proof {
                        assert(spec_comparison_rest(s, i, a0) == Err::<(SpecExpr, int), ParseError>(e));
                    }
                    return Err(e);
                },
            };
            let ghost j = self.pos();
            let ghost rv = rhs@;
            let e2 = Expr::BinaryExpr { op: p, left: Box::new(acc), right: Box::new(rhs) };
            proof {
                assert(e2@ == (SpecExpr::Binary { op: s[i], left: Box::new(a0), right: Box::new(rv) }));
                assert(in_span(s, i + 1, j));
                assert(spec_comparison_rest(s, i, a0) == spec_comparison_rest(s, j, e2@));
            }
            self.comparison_rest(e2)
        } else {
            proof {
                assert(!(i < s.len() && (s[i] == SpecToken::Greater || s[i] == SpecToken::Geq || s[i] == SpecToken::Less || s[i] == SpecToken::Leq)));
                assert(spec_comparison_rest(s, i, a0) == Ok::<(SpecExpr, int), ParseError>((a0, i)));
            }
            Ok(acc)
        }
    }

    /// The comparison level, left-associative.
    #[verifier::spinoff_prover]
    pub fn comparison(&mut self) -> (r: Result<Expr, ParseError>)
        requires
            old(self).wf(),
        ensures
            final(self).wf(),
            final(self).toks() == old(self).toks(),
            old(self).pos() <= final(self).pos() <= final(self).toks().len(),
            match r {
                Ok(e) => spec_comparison(old(self).toks(), old(self).pos()) == Ok::<
                    (SpecExpr, int),
                    ParseError,
                >((e@, final(self).pos())) && old(self).pos() < final(self).pos(),
                Err(pe) => spec_comparison(old(self).toks(), old(self).pos()) == Err::<
                    (SpecExpr, int),
                    ParseError,
                >(pe),
            },
        decreases self.toks().len() - self.pos(), 18int,
    {
        reveal_with_fuel(spec_comparison, 1);
        let e0 = match self.term() {
            Ok(v) => v,
            Err(e) => {
                return Err(e);
            },
        };
        self.comparison_rest(e0)
    }

    /// Left-fold of the equality level operators.
    #[verifier::spinoff_prover]
    fn equality_rest(&mut self, acc: Expr) -> (r: Result<Expr, ParseError>)
        requires
            old(self).wf(),
        ensures
            final(self).wf(),
            final(self).toks() == old(self).toks(),
            old(self).pos() <= final(self).pos() <= final(self).toks().len(),
            match r {
                Ok(e) => spec_equality_rest(old(self).toks(), old(self).pos(), acc@) == Ok::<
                    (SpecExpr, int),
                    ParseError,
                >((e@, final(self).pos())),
                Err(pe) => spec_equality_rest(old(self).toks(), old(self).pos(), acc@) == Err::<
                    (SpecExpr, int),
                    ParseError,
                >(pe),
            },
        decreases self.toks().len() - self.pos(), 19int,
    {
        reveal_with_fuel(spec_equality_rest, 1);
        let ghost s = self.toks();
        let ghost i = self.pos();
        let ghost a0 = acc@;
        let p = self.peek();
        if p == Token::Eqq || p == Token::Neq {
            proof {
                assert(i < s.len() && s[i] == p@);
            }
            self.advance();
            let rhs = match self.comparison() {
                Ok(v) => v,
                Err(e) => {
                    proof {
                        assert(spec_equality_rest(s, i, a0) == Err::<(SpecExpr, int), ParseError>(e));
                    }
                    return Err(e);
                },
            };
            let ghost j = self.pos();
            let ghost rv = rhs@;
            let e2 = Expr::BinaryExpr { op: p, left: Box::new(acc), right: Box::new(rhs) };
            proof {
                assert(e2@ == (SpecExpr::Binary { op: s[i], left: Box::new(a0), right: Box::new(rv) }));
                assert(in_span(s, i + 1, j));
                assert(spec_equality_rest(s, i, a0) == spec_equality_rest(s, j, e2@));
            }
            self.equality_rest(e2)
        } else {
            proof {
                assert(!(i < s.len() && (s[i] == SpecToken::Eqq || s[i] == SpecToken::Neq)));
                assert(spec_equality_rest(s, i, a0) == Ok::<(SpecExpr, int), ParseError>((a0, i)));
            }
            Ok(acc)
        }
    }

    /// The equality level, left-associative.
    #[verifier::spinoff_prover]
    pub fn equality(&mut self) -> (r: Result<Expr, ParseError>)
        requires
            old(self).wf(),
        ensures
            final(self).wf(),
            final(self).toks() == old(self).toks(),
            old(self).pos() <= final(self).pos() <= final(self).toks().len(),
            match r {
                Ok(e) => spec_equality(old(self).toks(), old(self).pos()) == Ok::<
                    (SpecExpr, int),
                    ParseError,
                >((e@, final(self).pos())) && old(self).pos() < final(self).pos(),
                Err(pe) => spec_equality(old(self).toks(), old(self).pos()) == Err::<
                    (SpecExpr, int),
                    ParseError,
                >(pe),
            },
        decreases self.toks().len() - self.pos(), 20int,
    {
        reveal_with_fuel(spec_equality, 1);
        let e0 = match self.comparison() {
            Ok(v) => v,
            Err(e) => {
                return Err(e);
            },
        };
        self.equality_rest(e0)
    }

    /// Left-fold of the and level operators.
    #[verifier::spinoff_prover]
    fn and_rest(&mut self, acc: Expr) -> (r: Result<Expr, ParseError>)
        requires
            old(self).wf(),
        ensures
            final(self).wf(),
            final(self).toks() == old(self).toks(),
            old(self).pos() <= final(self).pos() <= final(self).toks().len(),
            match r {
                Ok(e) => spec_and_rest(old(self).toks(), old(self).pos(), acc@) == Ok::<
                    (SpecExpr, int),
                    ParseError,
                >((e@, final(self).pos())),
                Err(pe) => spec_and_rest(old(self).toks(), old(self).pos(), acc@) == Err::<
                    (SpecExpr, int),
                    ParseError,
                >(pe),
            },
        decreases self.toks().len() - self.pos(), 21int,
    {
        reveal_with_fuel(spec_and_rest, 1);
        let ghost s = self.toks();
        let ghost i = self.pos();
        let ghost a0 = acc@;
        let p = self.peek();
        if p == Token::And {
            proof {
                assert(i < s.len() && s[i] == p@);
            }
            self.advance();
            let rhs = match self.equality() {
                Ok(v) => v,
                Err(e) => {
                    proof {
                        assert(spec_and_rest(s, i, a0) == Err::<(SpecExpr, int), ParseError>(e));
                    }
                    return Err(e);
                },
            };
            let ghost j = self.pos();
            let ghost rv = rhs@;
            let e2 = Expr::Logical { op: p, left: Box::new(acc), right: Box::new(rhs) };
            proof {
                assert(e2@ == (SpecExpr::Logical { op: s[i], left: Box::new(a0), right: Box::new(rv) }));
                assert(in_span(s, i + 1, j));
                assert(spec_and_rest(s, i, a0) == spec_and_rest(s, j, e2@));
            }
            self.and_rest(e2)
        } else {
            proof {
                assert(!(i < s.len() && (s[i] == SpecToken::And)));
                assert(spec_and_rest(s, i, a0) == Ok::<(SpecExpr, int), ParseError>((a0, i)));
            }
            Ok(acc)
        }
    }

    /// The and level, left-associative.
    #[verifier::spinoff_prover]
    pub fn and(&mut self) -> (r: Result<Expr, ParseError>)
        requires
            old(self).wf(),
        ensures
            final(self).wf(),
            final(self).toks() == old(self).toks(),
            old(self).pos() <= final(self).pos() <= final(self).toks().len(),
            match r {
                Ok(e) => spec_and(old(self).toks(), old(self).pos()) == Ok::<
                    (SpecExpr, int),
                    ParseError,
                >((e@, final(self).pos())) && old(self).pos() < final(self).pos(),
                Err(pe) => spec_and(old(self).toks(), old(self).pos()) == Err::<
                    (SpecExpr, int),
                    ParseError,
                >(pe),
            },
        decreases self.toks().len() - self.pos(), 22int,
    {
        reveal_with_fuel(spec_and, 1);
        let e0 = match self.equality() {
            Ok(v) => v,
            Err(e) => {
                return Err(e);
            },
        };
        self.and_rest(e0)
    }

    /// Left-fold of the or level operators.
    #[verifier::spinoff_prover]
    fn or_rest(&mut self, acc: Expr) -> (r: Result<Expr, ParseError>)
        requires
            old(self).wf(),
        ensures
            final(self).wf(),
            final(self).toks() == old(self).toks(),
            old(self).pos() <= final(self).pos() <= final(self).toks().len(),
            match r {
                Ok(e) => spec_or_rest(old(self).toks(), old(self).pos(), acc@) == Ok::<
                    (SpecExpr, int),
                    ParseError,
                >((e@, final(self).pos())),
                Err(pe) => spec_or_rest(old(self).toks(), old(self).pos(), acc@) == Err::<
                    (SpecExpr, int),
                    ParseError,
                >(pe),
            },
        decreases self.toks().len() - self.pos(), 23int,
    {
        reveal_with_fuel(spec_or_rest, 1);
        let ghost s = self.toks();
        let ghost i = self.pos();
        let ghost a0 = acc@;
        let p = self.peek();
        if p == Token::Or {
            proof {
                assert(i < s.len() && s[i] == p@);
            }
            self.advance();
            let rhs = match self.and() {
                Ok(v) => v,
                Err(e) => {
                    proof {
                        assert(spec_or_rest(s, i, a0) == Err::<(SpecExpr, int), ParseError>(e));
                    }
                    return Err(e);
                },
            };
            let ghost j = self.pos();
            let ghost rv = rhs@;
            let e2 = Expr::Logical { op: p, left: Box::new(acc), right: Box::new(rhs) };
            proof {
                assert(e2@ == (SpecExpr::Logical { op: s[i], left: Box::new(a0), right: Box::new(rv) }));
                assert(in_span(s, i + 1, j));
                assert(spec_or_rest(s, i, a0) == spec_or_rest(s, j, e2@));
            }
            self.or_rest(e2)
        } else {
            proof {
                assert(!(i < s.len() && (s[i] == SpecToken::Or)));
                assert(spec_or_rest(s, i, a0) == Ok::<(SpecExpr, int), ParseError>((a0, i)));
            }
            Ok(acc)
        }
    }

    /// The or level, left-associative.
    #[verifier::spinoff_prover]
    pub fn or(&mut self) -> (r: Result<Expr, ParseError>)
        requires
            old(self).wf(),
        ensures
            final(self).wf(),
            final(self).toks() == old(self).toks(),
            old(self).pos() <= final(self).pos() <= final(self).toks().len(),
            match r {
                Ok(e) => spec_or(old(self).toks(), old(self).pos()) == Ok::<
                    (SpecExpr, int),
                    ParseError,
                >((e@, final(self).pos())) && old(self).pos() < final(self).pos(),
                Err(pe) => spec_or(old(self).toks(), old(self).pos()) == Err::<
                    (SpecExpr, int),
                    ParseError,
                >(pe),
            },
        decreases self.toks().len() - self.pos(), 24int,
    {
        reveal_with_fuel(spec_or, 1);
        let e0 = match self.and() {
            Ok(v) => v,
            Err(e) => {
                return Err(e);
            },
        };
        self.or_rest(e0)
    }

    /// Assignment, right-associative; only a bare variable may stand on the
    /// left-hand side.
    #[verifier::spinoff_prover]
    pub fn assignment(&mut self) -> (r: Result<Expr, ParseError>)
        requires
            old(self).wf(),
        ensures
            final(self).wf(),
            final(self).toks() == old(self).toks(),
            old(self).pos() <= final(self).pos() <= final(self).toks().len(),
            match r {
                Ok(e) => spec_assignment(old(self).toks(), old(self).pos()) == Ok::<
                    (SpecExpr, int),
                    ParseError,
                >((e@, final(self).pos())) && old(self).pos() < final(self).pos(),
                Err(pe) => spec_assignment(old(self).toks(), old(self).pos()) == Err::<
                    (SpecExpr, int),
                    ParseError,
                >(pe),
            },
        decreases self.toks().len() - self.pos(), 25int,
    {
        reveal_with_fuel(spec_assignment, 1);
        let e0 = match self.or() {
            Ok(v) => v,
            Err(e) => {
                return Err(e);
            },
        };
        let p = self.peek();
        if p == Token::Eq {
            self.advance();
            let v = match self.assignment() {
                Ok(v) => v,
                Err(e) => {
                    return Err(e);
                },
            };
            match e0 {
                Expr::Variable { name } => Ok(Expr::Assign { name, value: Box::new(v) }),
                _ => Err(ParseError::InvalidAssignment),
            }
        } else {
            Ok(e0)
        }
    }

    /// An expression: the assignment level, the lowest precedence.
    #[verifier::spinoff_prover]
    pub fn expression(&mut self) -> (r: Result<Expr, ParseError>)
        requires
            old(self).wf(),
        ensures
            final(self).wf(),
            final(self).toks() == old(self).toks(),
            old(self).pos() <= final(self).pos() <= final(self).toks().len(),
            match r {
                Ok(e) => spec_expression(old(self).toks(), old(self).pos()) == Ok::<
                    (SpecExpr, int),
                    ParseError,
                >((e@, final(self).pos())) && old(self).pos() < final(self).pos(),
                Err(pe) => spec_expression(old(self).toks(), old(self).pos()) == Err::<
                    (SpecExpr, int),
                    ParseError,
                >(pe),
            },
        decreases self.toks().len() - self.pos(), 26int,
    {
        reveal_with_fuel(spec_expression, 1);
        self.assignment()
    }

    /// An expression evaluated for effect, ended by a semicolon.
    #[verifier::spinoff_prover]
    pub fn expression_statement(&mut self) -> (r: Result<Stmt, ParseError>)
        requires
            old(self).wf(),
        ensures
            final(self).wf(),
            final(self).toks() == old(self).toks(),
            old(self).pos() <= final(self).pos() <= final(self).toks().len(),
            match r {
                Ok(st) => spec_expression_statement(old(self).toks(), old(self).pos()) == Ok::<
                    (SpecStmt, int),
                    ParseError,
                >((st@, final(self).pos())) && old(self).pos() < final(self).pos(),
                Err(pe) => spec_expression_statement(old(self).toks(), old(self).pos()) == Err::<
                    (SpecStmt, int),
                    ParseError,
                >(pe),
            },
        decreases self.toks().len() - self.pos(), 32int,
    {
        reveal_with_fuel(spec_expression_statement, 1);
        let ghost s = self.toks();
        let ghost i = self.pos();
        let value = match self.expression() {
            Ok(v) => v,
            Err(e) => {
                proof {
                    assert(spec_expression_statement(s, i) == Err::<(SpecStmt, int), ParseError>(
                        e,
                    ));
                }
                return Err(e);
            },
        };
        let ghost j = self.pos();
        let ghost vv = value@;
        match self.consume(Token::Semicolon) {
            Ok(_) => {
                proof {
                    assert(in_span(s, i, j));
                    assert(spec_expression_statement(s, i) == Ok::<(SpecStmt, int), ParseError>(
                        (SpecStmt::Expr(vv), j + 1),
                    ));
                }
                Ok(Stmt::Expr(Box::new(value)))
            },
            Err(e) => {
                proof {
                    assert(spec_expression_statement(s, i) == Err::<(SpecStmt, int), ParseError>(
                        e,
                    ));
                }
                Err(e)
            },
        }
    }

    /// A return statement, after its keyword: an optional value expression
    /// and the terminating semicolon.
    #[verifier::spinoff_prover]
    pub fn return_statement(&mut self) -> (r: Result<Stmt, ParseError>)
        requires
            old(self).wf(),
        ensures
            final(self).wf(),
            final(self).toks() == old(self).toks(),
            old(self).pos() <= final(self).pos() <= final(self).toks().len(),
            match r {
                Ok(st) => spec_return_statement(old(self).toks(), old(self).pos()) == Ok::<
                    (SpecStmt, int),
                    ParseError,
                >((st@, final(self).pos())) && old(self).pos() < final(self).pos(),
                Err(pe) => spec_return_statement(old(self).toks(), old(self).pos()) == Err::<
                    (SpecStmt, int),
                    ParseError,
                >(pe),
            },
        decreases self.toks().len() - self.pos(), 31int,
    {
        reveal_with_fuel(spec_return_statement, 1);
        let ghost s = self.toks();
        let ghost i = self.pos();
        let p = self.peek();
        if p == Token::Semicolon {
            proof {
                assert(i < s.len() && s[i] == SpecToken::Semicolon);
            }
            self.advance();
            proof {
                assert(spec_return_statement(s, i) == Ok::<(SpecStmt, int), ParseError>(
                    (SpecStmt::Return { keyword: SpecToken::Return, value: None }, i + 1),
                ));
            }
            Ok(Stmt::Return { keyword: Token::Return, value: None })
        } else {
            let v = match self.expression() {
                Ok(v) => v,
                Err(e) => {
                    proof {
                        assert(spec_return_statement(s, i) == Err::<(SpecStmt, int), ParseError>(
                            e,
                        ));
                    }
                    return Err(e);
                },
            };
            let ghost j = self.pos();
            let ghost vv = v@;
            match self.consume(Token::Semicolon) {
                Ok(_) => {
                    proof {
                        assert(in_span(s, i, j));
                        assert(spec_return_statement(s, i) == Ok::<(SpecStmt, int), ParseError>(
                            (
                                SpecStmt::Return {
                                    keyword: SpecToken::Return,
                                    value: Some(vv),
                                },
                                j + 1,
                            ),
                        ));
                    }
                    Ok(Stmt::Return { keyword: Token::Return, value: Some(Box::new(v)) })
                },
                Err(e) => {
                    proof {
                        assert(spec_return_statement(s, i) == Err::<(SpecStmt, int), ParseError>(
                            e,
                        ));
                    }
                    Err(e)
                },
            }
        }
    }

    /// A while statement, after its keyword: a parenthesized condition and a
    /// body statement.
    #[verifier::spinoff_prover]
    pub fn while_statement(&mut self) -> (r: Result<Stmt, ParseError>)
        requires
            old(self).wf(),
        ensures
            final(self).wf(),
            final(self).toks() == old(self).toks(),
            old(self).pos() <= final(self).pos() <= final(self).toks().len(),
            match r {
                Ok(st) => spec_while_statement(old(self).toks(), old(self).pos()) == Ok::<
                    (SpecStmt, int),
                    ParseError,
                >((st@, final(self).pos())) && old(self).pos() < final(self).pos(),
                Err(pe) => spec_while_statement(old(self).toks(), old(self).pos()) == Err::<
                    (SpecStmt, int),
                    ParseError,
                >(pe),
            },
        decreases self.toks().len() - self.pos(), 29int,
    {
        reveal_with_fuel(spec_while_statement, 1);
        let ghost s = self.toks();
        let ghost i = self.pos();
        match self.consume(Token::LParen) {
            Ok(_) => (),
            Err(e) => {
                proof {
                    assert(spec_while_statement(s, i) == Err::<(SpecStmt, int), ParseError>(e));
                }
                return Err(e);
            },
        };
        let cond = match self.expression() {
            Ok(v) => v,
            Err(e) => {
                proof {
                    assert(spec_while_statement(s, i) == Err::<(SpecStmt, int), ParseError>(e));
                }
                return Err(e);
            },
        };
        let ghost j = self.pos();
        let ghost cv = cond@;
        proof {
            assert(in_span(s, i + 2, j));
        }
        match self.consume(Token::RParen) {
            Ok(_) => (),
            Err(e) => {
                proof {
                    assert(spec_while_statement(s, i) == Err::<(SpecStmt, int), ParseError>(e));
                }
                return Err(e);
            },
        };
        let body = match self.statement() {
            Ok(v) => v,
            Err(e) => {
                proof {
                    assert(spec_while_statement(s, i) == Err::<(SpecStmt, int), ParseError>(e));
                }
                return Err(e);
            },
        };
        let ghost q = self.pos();
        let ghost bv = body@;
        proof {
            assert(spec_while_statement(s, i) == Ok::<(SpecStmt, int), ParseError>(
                (SpecStmt::While { condition: cv, body: Box::new(bv) }, q),
            ));
        }
        Ok(Stmt::While { condition: Box::new(cond), body })
    }

    /// An if statement, after its keyword: a parenthesized condition, a then
    /// branch, and an optional else branch.
    #[verifier::spinoff_prover]
    pub fn if_statement(&mut self) -> (r: Result<Stmt, ParseError>)
        requires
            old(self).wf(),
        ensures
            final(self).wf(),
            final(self).toks() == old(self).toks(),
            old(self).pos() <= final(self).pos() <= final(self).toks().len(),
            match r {
                Ok(st) => spec_if_statement(old(self).toks(), old(self).pos()) == Ok::<
                    (SpecStmt, int),
                    ParseError,
                >((st@, final(self).pos())) && old(self).pos() < final(self).pos(),
                Err(pe) => spec_if_statement(old(self).toks(), old(self).pos()) == Err::<
                    (SpecStmt, int),
                    ParseError,
                >(pe),
            },
        decreases self.toks().len() - self.pos(), 30int,
    {
        reveal_with_fuel(spec_if_statement, 1);
        let ghost s = self.toks();
        let ghost i = self.pos();
        match self.consume(Token::LParen) {
            Ok(_) => (),
            Err(e) => {
                proof {
                    assert(spec_if_statement(s, i) == Err::<(SpecStmt, int), ParseError>(e));
                }
                return Err(e);
            },
        };
        let cond = match self.expression() {
            Ok(v) => v,
            Err(e) => {
                proof {
                    assert(spec_if_statement(s, i) == Err::<(SpecStmt, int), ParseError>(e));
                }
                return Err(e);
            },
        };
        let ghost j = self.pos();
        let ghost cv = cond@;
        proof {
            assert(in_span(s, i + 2, j));
        }
        match self.consume(Token::RParen) {
            Ok(_) => (),
            Err(e) => {
                proof {
                    assert(spec_if_statement(s, i) == Err::<(SpecStmt, int), ParseError>(e));
                }
                return Err(e);
            },
        };
        let then_b = match self.statement() {
            Ok(v) => v,
            Err(e) => {
                proof {
                    assert(spec_if_statement(s, i) == Err::<(SpecStmt, int), ParseError>(e));
                }
                return Err(e);
            },
        };
        let ghost k = self.pos();
        let ghost tv = then_b@;
        proof {
            assert(in_span(s, j + 2, k));
        }
        let p = self.peek();
        if p == Token::Else {
            proof {
                assert(k < s.len() && s[k] == SpecToken::Else);
            }
            self.advance();
            let else_b = match self.statement() {
                Ok(v) => v,
                Err(e) => {
                    proof {
                        assert(spec_if_statement(s, i) == Err::<(SpecStmt, int), ParseError>(e));
                    }
                    return Err(e);
                },
            };
            let ghost m = self.pos();
            let ghost ev = else_b@;
            proof {
                assert(spec_if_statement(s, i) == Ok::<(SpecStmt, int), ParseError>(
                    (
                        SpecStmt::If {
                            cond: cv,
                            then_branch: Box::new(tv),
                            else_branch: Some(Box::new(ev)),
                        },
                        m,
                    ),
                ));
            }
            Ok(Stmt::If { cond: Box::new(cond), then_branch: then_b, else_branch: Some(else_b) })
        } else {
            proof {
                assert(!(k < s.len() && s[k] == SpecToken::Else));
                assert(spec_if_statement(s, i) == Ok::<(SpecStmt, int), ParseError>(
                    (
                        SpecStmt::If {
                            cond: cv,
                            then_branch: Box::new(tv),
                            else_branch: None,
                        },
                        k,
                    ),
                ));
            }
            Ok(Stmt::If { cond: Box::new(cond), then_branch: then_b, else_branch: None })
        }
    }

    /// A variable declaration, after its keyword: a mandatory name, an
    /// optional initializer defaulting to the false literal, and a semicolon.
    #[verifier::spinoff_prover]
    pub fn variable_declaration(&mut self) -> (r: Result<Box<Stmt>, ParseError>)
        requires
            old(self).wf(),
        ensures
            final(self).wf(),
            final(self).toks() == old(self).toks(),
            old(self).pos() <= final(self).pos() <= final(self).toks().len(),
            match r {
                Ok(st) => spec_variable_declaration(old(self).toks(), old(self).pos()) == Ok::<
                    (SpecStmt, int),
                    ParseError,
                >((st@, final(self).pos())) && old(self).pos() < final(self).pos(),
                Err(pe) => spec_variable_declaration(old(self).toks(), old(self).pos()) == Err::<
                    (SpecStmt, int),
                    ParseError,
                >(pe),
            },
        decreases self.toks().len() - self.pos(), 27int,
    {
        reveal_with_fuel(spec_variable_declaration, 1);
        let ghost s = self.toks();
        let ghost i = self.pos();
        let name = match self.consume_identifier() {
            Ok(t) => t,
            Err(e) => {
                proof {
                    assert(spec_variable_declaration(s, i) == Err::<(SpecStmt, int), ParseError>(
                        e,
                    ));
                }
                return Err(e);
            },
        };
        let ghost nv = name@;
        let p = self.peek();
        if p == Token::Eq {
            proof {
                assert(i + 1 < s.len() && s[i + 1] == SpecToken::Eq);
            }
            self.advance();
            let init = match self.expression() {
                Ok(v) => v,
                Err(e) => {
                    proof {
                        assert(spec_variable_declaration(s, i) == Err::<
                            (SpecStmt, int),
                            ParseError,
                        >(e));
                    }
                    return Err(e);
                },
            };
            let ghost j = self.pos();
            let ghost iv = init@;
            proof {
                assert(in_span(s, i + 3, j));
            }
            match self.consume(Token::Semicolon) {
                Ok(_) => {
                    proof {
                        assert(spec_variable_declaration(s, i) == Ok::<
                            (SpecStmt, int),
                            ParseError,
                        >((SpecStmt::Var { name: nv, initializer: iv }, j + 1)));
                    }
                    Ok(Box::new(Stmt::Var { name, initializer: Box::new(init) }))
                },
                Err(e) => {
                    proof {
                        assert(spec_variable_declaration(s, i) == Err::<
                            (SpecStmt, int),
                            ParseError,
                        >(e));
                    }
                    Err(e)
                },
            }
        } else if p == Token::Semicolon {
            proof {
                assert(i + 1 < s.len() && s[i + 1] == SpecToken::Semicolon);
            }
            self.advance();
            proof {
                assert(spec_variable_declaration(s, i) == Ok::<(SpecStmt, int), ParseError>(
                    (
                        SpecStmt::Var {
                            name: nv,
                            initializer: SpecExpr::Literal { value: "false"@ },
                        },
                        i + 2,
                    ),
                ));
            }
            Ok(
                Box::new(
                    Stmt::Var {
                        name,
                        initializer: Box::new(Expr::Literal { value: "false".to_owned() }),
                    },
                ),
            )
        } else {
            proof {
                assert(!(i + 1 < s.len() && s[i + 1] == SpecToken::Eq));
                assert(!(i + 1 < s.len() && s[i + 1] == SpecToken::Semicolon));
                assert(spec_variable_declaration(s, i) == Err::<(SpecStmt, int), ParseError>(
                    ParseError::ExpectedToken,
                ));
            }
            Err(ParseError::ExpectedToken)
        }
    }

    /// A statement: a control-flow form, a block, or an expression
    /// statement.
    #[verifier::spinoff_prover]
    pub fn statement(&mut self) -> (r: Result<Box<Stmt>, ParseError>)
        requires
            old(self).wf(),
        ensures
            final(self).wf(),
            final(self).toks() == old(self).toks(),
            old(self).pos() <= final(self).pos() <= final(self).toks().len(),
            match r {
                Ok(st) => spec_statement(old(self).toks(), old(self).pos()) == Ok::<
                    (SpecStmt, int),
                    ParseError,
                >((st@, final(self).pos())) && old(self).pos() < final(self).pos(),
                Err(pe) => spec_statement(old(self).toks(), old(self).pos()) == Err::<
                    (SpecStmt, int),
                    ParseError,
                >(pe),
            },
        decreases self.toks().len() - self.pos(), 34int,
    {
        reveal_with_fuel(spec_statement, 1);
        let ghost s = self.toks();
        let ghost i = self.pos();
        let p = self.peek();
        if p == Token::For {
            proof {
                assert(i < s.len() && s[i] == SpecToken::For);
            }
            self.advance();
            self.for_statement()
        } else if p == Token::If {
            proof {
                assert(i < s.len() && s[i] == SpecToken::If);
            }
            self.advance();
            match self.if_statement() {
                Ok(st) => Ok(Box::new(st)),
                Err(e) => Err(e),
            }
        } else if p == Token::Return {
            proof {
                assert(i < s.len() && s[i] == SpecToken::Return);
            }
            self.advance();
            match self.return_statement() {
                Ok(st) => Ok(Box::new(st)),
                Err(e) => Err(e),
            }
        } else if p == Token::While {
            proof {
                assert(i < s.len() && s[i] == SpecToken::While);
            }
            self.advance();
            match self.while_statement() {
                Ok(st) => Ok(Box::new(st)),
                Err(e) => Err(e),
            }
        } else if p == Token::LBrace {
            proof {
                assert(i < s.len() && s[i] == SpecToken::LBrace);
            }
            self.advance();
            match self.block() {
                Ok(v) => {
                    proof {
                        assert(spec_statement(s, i) == Ok::<(SpecStmt, int), ParseError>(
                            (SpecStmt::Block(stmts_view(v@)), self.pos()),
                        ));
                    }
                    Ok(Box::new(Stmt::Block(v)))
                },
                Err(e) => Err(e),
            }
        } else {
            proof {
                assert(!(i < s.len() && s[i] == SpecToken::For));
                assert(!(i < s.len() && s[i] == SpecToken::If));
                assert(!(i < s.len() && s[i] == SpecToken::Return));
                assert(!(i < s.len() && s[i] == SpecToken::While));
                assert(!(i < s.len() && s[i] == SpecToken::LBrace));
            }
            match self.expression_statement() {
                Ok(st) => Ok(Box::new(st)),
                Err(e) => Err(e),
            }
        }
    }

    /// The statements of a brace-delimited block, up to and including the
    /// closing brace.
    #[verifier::spinoff_prover]
    fn block_rest(&mut self, stmts: Vec<Box<Stmt>>) -> (r: Result<Vec<Box<Stmt>>, ParseError>)
        requires
            old(self).wf(),
        ensures
            final(self).wf(),
            final(self).toks() == old(self).toks(),
            old(self).pos() <= final(self).pos() <= final(self).toks().len(),
            match r {
                Ok(v) => spec_block_rest(old(self).toks(), old(self).pos(), stmts_view(stmts@))
                    == Ok::<(Seq<SpecStmt>, int), ParseError>(
                    (stmts_view(v@), final(self).pos()),
                ),
                Err(pe) => spec_block_rest(old(self).toks(), old(self).pos(), stmts_view(stmts@))
                    == Err::<(Seq<SpecStmt>, int), ParseError>(pe),
            },
        decreases self.toks().len() - self.pos(), 38int,
    {
        reveal_with_fuel(spec_block_rest, 1);
        let ghost s = self.toks();
        let ghost i = self.pos();
        let ghost a0 = stmts_view(stmts@);
        let p = self.peek();
        if p == Token::RBrace {
            proof {
                assert(i < s.len() && s[i] == SpecToken::RBrace);
                assert(spec_block_rest(s, i, a0) == Ok::<(Seq<SpecStmt>, int), ParseError>(
                    (a0, i + 1),
                ));
            }
            self.advance();
            Ok(stmts)
        } else {
            proof {
                assert(!(i < s.len() && s[i] == SpecToken::RBrace));
            }
            let d = match self.declaration() {
                Ok(v) => v,
                Err(e) => {
                    proof {
                        assert(spec_block_rest(s, i, a0) == Err::<
                            (Seq<SpecStmt>, int),
                            ParseError,
                        >(e));
                    }
                    return Err(e);
                },
            };
            let ghost j = self.pos();
            let ghost dv = d@;
            let mut ss = stmts;
            proof {
                lemma_stmts_view_push(ss@, d);
            }
            ss.push(d);
            proof {
                assert(stmts_view(ss@) == a0.push(dv));
                assert(in_span(s, i + 1, j));
                assert(spec_block_rest(s, i, a0) == spec_block_rest(s, j, a0.push(dv)));
            }
            self.block_rest(ss)
        }
    }

    /// A brace-delimited block body, after its opening brace: the statements
    /// up to and including the closing brace.
    #[verifier::spinoff_prover]
    pub fn block(&mut self) -> (r: Result<Vec<Box<Stmt>>, ParseError>)
        requires
            old(self).wf(),
        ensures
            final(self).wf(),
            final(self).toks() == old(self).toks(),
            old(self).pos() <= final(self).pos() <= final(self).toks().len(),
            match r {
                Ok(v) => spec_block_rest(old(self).toks(), old(self).pos(), Seq::empty()) == Ok::<
                    (Seq<SpecStmt>, int),
                    ParseError,
                >((stmts_view(v@), final(self).pos())),
                Err(pe) => spec_block_rest(old(self).toks(), old(self).pos(), Seq::empty())
                    == Err::<(Seq<SpecStmt>, int), ParseError>(pe),
            },
        decreases self.toks().len() - self.pos(), 39int,
    {
        reveal_with_fuel(spec_block_rest, 1);
        let ghost s = self.toks();
        let ghost i = self.pos();
        let v: Vec<Box<Stmt>> = Vec::new();
        proof {
            assert(stmts_view(v@) =~= Seq::<SpecStmt>::empty());
        }
        self.block_rest(v)
    }

    /// The parameter list of a function declaration, after the first
    /// parameter: further names as long as commas follow.
    #[verifier::spinoff_prover]
    fn params_rest(&mut self, params: Vec<Token>) -> (r: Result<Vec<Token>, ParseError>)
        requires
            old(self).wf(),
        ensures
            final(self).wf(),
            final(self).toks() == old(self).toks(),
            old(self).pos() <= final(self).pos() <= final(self).toks().len(),
            match r {
                Ok(v) => spec_params_rest(old(self).toks(), old(self).pos(), toks_view(params@))
                    == Ok::<(Seq<SpecToken>, int), ParseError>(
                    (toks_view(v@), final(self).pos()),
                ),
                Err(pe) => spec_params_rest(old(self).toks(), old(self).pos(), toks_view(params@))
                    == Err::<(Seq<SpecToken>, int), ParseError>(pe),
            },
        decreases self.toks().len() - self.pos(), 6int,
    {
        reveal_with_fuel(spec_params_rest, 1);
        let ghost s = self.toks();
        let ghost i = self.pos();
        let ghost a0 = toks_view(params@);
        let p = self.peek();
        if p == Token::Comma {
            proof {
                assert(i < s.len() && s[i] == SpecToken::Comma);
            }
            self.advance();
            let t = match self.consume_identifier() {
                Ok(t) => t,
                Err(e) => {
                    proof {
                        assert(spec_params_rest(s, i, a0) == Err::<
                            (Seq<SpecToken>, int),
                            ParseError,
                        >(e));
                    }
                    return Err(e);
                },
            };
            let ghost tv = t@;
            let mut ps = params;
            proof {
                crate::token::lemma_toks_view_push(ps@, t);
            }
            ps.push(t);
            proof {
                assert(toks_view(ps@) == a0.push(tv));
                assert(spec_params_rest(s, i, a0) == spec_params_rest(s, i + 2, a0.push(tv)));
            }
            self.params_rest(ps)
        } else {
            proof {
                assert(!(i < s.len() && s[i] == SpecToken::Comma));
                assert(spec_params_rest(s, i, a0) == Ok::<(Seq<SpecToken>, int), ParseError>(
                    (a0, i),
                ));
            }
            Ok(params)
        }
    }

    /// A function declaration, after its keyword: a mandatory name, a
    /// parenthesized parameter list of bare identifiers, and a
    /// brace-delimited body.
    #[verifier::spinoff_prover]
    pub fn function_declaration(&mut self) -> (r: Result<Box<Stmt>, ParseError>)
        requires
            old(self).wf(),
        ensures
            final(self).wf(),
            final(self).toks() == old(self).toks(),
            old(self).pos() <= final(self).pos() <= final(self).toks().len(),
            match r {
                Ok(st) => spec_function_declaration(old(self).toks(), old(self).pos()) == Ok::<
                    (SpecStmt, int),
                    ParseError,
                >((st@, final(self).pos())) && old(self).pos() < final(self).pos(),
                Err(pe) => spec_function_declaration(old(self).toks(), old(self).pos()) == Err::<
                    (SpecStmt, int),
                    ParseError,
                >(pe),
            },
        decreases self.toks().len() - self.pos(), 28int,
    {
        reveal_with_fuel(spec_function_declaration, 1);
        let ghost s = self.toks();
        let ghost i = self.pos();
        let name = match self.consume_identifier() {
            Ok(t) => t,
            Err(e) => {
                proof {
                    assert(spec_function_declaration(s, i) == Err::<(SpecStmt, int), ParseError>(
                        e,
                    ));
                }
                return Err(e);
            },
        };
        let ghost nv = name@;
        match self.consume(Token::LParen) {
            Ok(_) => (),
            Err(e) => {
                proof {
                    assert(spec_function_declaration(s, i) == Err::<(SpecStmt, int), ParseError>(
                        e,
                    ));
                }
                return Err(e);
            },
        };
        let mut params: Vec<Token> = Vec::new();
        let p = self.peek();
        if p == Token::RParen {
            proof {
                assert(i + 2 < s.len() && s[i + 2] == SpecToken::RParen);
                assert(toks_view(params@) =~= Seq::<SpecToken>::empty());
            }
            self.advance();
        } else {
            proof {
                assert(!(i + 2 < s.len() && s[i + 2] == SpecToken::RParen));
            }
            let p0 = match self.consume_identifier() {
                Ok(t) => t,
                Err(e) => {
                    proof {
                        assert(spec_function_declaration(s, i) == Err::<
                            (SpecStmt, int),
                            ParseError,
                        >(e));
                    }
                    return Err(e);
                },
            };
            let ghost p0v = p0@;
            proof {
                crate::token::lemma_toks_view_push(params@, p0);
            }
            params.push(p0);
            proof {
                assert(toks_view(params@) =~= seq![p0v]);
            }
            params = match self.params_rest(params) {
                Ok(v) => v,
                Err(e) => {
                    proof {
                        assert(spec_function_declaration(s, i) == Err::<
                            (SpecStmt, int),
                            ParseError,
                        >(e));
                    }
                    return Err(e);
                },
            };
            match self.consume(Token::RParen) {
                Ok(_) => (),
                Err(e) => {
                    proof {
                        assert(spec_function_declaration(s, i) == Err::<
                            (SpecStmt, int),
                            ParseError,
                        >(e));
                    }
                    return Err(e);
                },
            };
        }
        let ghost q = self.pos();
        let ghost pv = toks_view(params@);
        match self.consume(Token::LBrace) {
            Ok(_) => (),
            Err(e) => {
                proof {
                    assert(in_span(s, i + 3, q));
                    assert(spec_function_declaration(s, i) == Err::<(SpecStmt, int), ParseError>(
                        e,
                    ));
                }
                return Err(e);
            },
        };
        let body = match self.block() {
            Ok(v) => v,
            Err(e) => {
                proof {
                    assert(in_span(s, i + 3, q));
                    assert(spec_function_declaration(s, i) == Err::<(SpecStmt, int), ParseError>(
                        e,
                    ));
                }
                return Err(e);
            },
        };
        let ghost b = self.pos();
        proof {
            assert(in_span(s, i + 3, q));
            assert(spec_function_declaration(s, i) == Ok::<(SpecStmt, int), ParseError>(
                (SpecStmt::Function { name: nv, params: pv, body: stmts_view(body@) }, b),
            ));
        }
        Ok(Box::new(Stmt::Function { name, params, body }))
    }

    /// A declaration: a function declaration, a variable declaration, or a
    /// statement.
    #[verifier::spinoff_prover]
    pub fn declaration(&mut self) -> (r: Result<Box<Stmt>, ParseError>)
        requires
            old(self).wf(),
        ensures
            final(self).wf(),
            final(self).toks() == old(self).toks(),
            old(self).pos() <= final(self).pos() <= final(self).toks().len(),
            match r {
                Ok(st) => spec_declaration(old(self).toks(), old(self).pos()) == Ok::<
                    (SpecStmt, int),
                    ParseError,
                >((st@, final(self).pos())) && old(self).pos() < final(self).pos(),
                Err(pe) => spec_declaration(old(self).toks(), old(self).pos()) == Err::<
                    (SpecStmt, int),
                    ParseError,
                >(pe),
            },
        decreases self.toks().len() - self.pos(), 36int,
    {
        reveal_with_fuel(spec_declaration, 1);
        let ghost s = self.toks();
        let ghost i = self.pos();
        let p = self.peek();
        if p == Token::Fun {
            proof {
                assert(i < s.len() && s[i] == SpecToken::Fun);
            }
            self.advance();
            self.function_declaration()
        } else if p == Token::Var {
            proof {
                assert(i < s.len() && s[i] == SpecToken::Var);
            }
            self.advance();
            self.variable_declaration()
        } else {
            proof {
                assert(!(i < s.len() && s[i] == SpecToken::Fun));
                assert(!(i < s.len() && s[i] == SpecToken::Var));
            }
            self.statement()
        }
    }

    /// The top-level declarations before the end of the token sequence.
    #[verifier::spinoff_prover]
    fn parse_rest(&mut self, stmts: Vec<Box<Stmt>>) -> (r: Result<Vec<Box<Stmt>>, ParseError>)
        requires
            old(self).wf(),
        ensures
            final(self).wf(),
            final(self).toks() == old(self).toks(),
            old(self).pos() <= final(self).pos() <= final(self).toks().len(),
            match r {
                Ok(v) => spec_parse_rest(old(self).toks(), old(self).pos(), stmts_view(stmts@))
                    == Ok::<(Seq<SpecStmt>, int), ParseError>(
                    (stmts_view(v@), final(self).pos()),
                ),
                Err(pe) => spec_parse_rest(old(self).toks(), old(self).pos(), stmts_view(stmts@))
                    == Err::<(Seq<SpecStmt>, int), ParseError>(pe),
            },
        decreases self.toks().len() - self.pos(), 40int,
    {
        reveal_with_fuel(spec_parse_rest, 1);
        let ghost s = self.toks();
        let ghost i = self.pos();
        let ghost a0 = stmts_view(stmts@);
        let p = self.peek();
        if let Token::EOF = p {
            proof {
                assert(i >= s.len() || s[i] == SpecToken::EOF);
                assert(spec_parse_rest(s, i, a0) == Ok::<(Seq<SpecStmt>, int), ParseError>(
                    (a0, i),
                ));
            }
            Ok(stmts)
        } else {
            proof {
                assert(!(i >= s.len() || s[i] == SpecToken::EOF));
            }
            let d = match self.declaration() {
                Ok(v) => v,
                Err(e) => {
                    proof {
                        assert(spec_parse_rest(s, i, a0) == Err::<
                            (Seq<SpecStmt>, int),
                            ParseError,
                        >(e));
                    }
                    return Err(e);
                },
            };
            let ghost j = self.pos();
            let ghost dv = d@;
            let mut ss = stmts;
            proof {
                lemma_stmts_view_push(ss@, d);
            }
            ss.push(d);
            proof {
                assert(stmts_view(ss@) == a0.push(dv));
                assert(in_span(s, i + 1, j));
                assert(spec_parse_rest(s, i, a0) == spec_parse_rest(s, j, a0.push(dv)));
            }
            self.parse_rest(ss)
        }
    }

    /// The ordered sequence of top-level statements, or the first parse
    /// failure: a missing mandatory token is fatal and unrecoverable for the
    /// whole parse.
    #[verifier::spinoff_prover]
    pub fn parse(&mut self) -> (r: Result<Vec<Box<Stmt>>, ParseError>)
        requires
            old(self).wf(),
        ensures
            final(self).wf(),
            final(self).toks() == old(self).toks(),
            old(self).pos() <= final(self).pos() <= final(self).toks().len(),
            match r {
                Ok(v) => spec_parse_rest(old(self).toks(), old(self).pos(), Seq::empty()) == Ok::<
                    (Seq<SpecStmt>, int),
                    ParseError,
                >((stmts_view(v@), final(self).pos())) && (old(self).pos() == 0 ==> spec_parse(
                    old(self).toks(),
                ) == Ok::<Seq<SpecStmt>, ParseError>(stmts_view(v@))),
                Err(pe) => spec_parse_rest(old(self).toks(), old(self).pos(), Seq::empty())
                    == Err::<(Seq<SpecStmt>, int), ParseError>(pe) && (old(self).pos() == 0
                    ==> spec_parse(old(self).toks()) == Err::<Seq<SpecStmt>, ParseError>(pe)),
            },
        decreases self.toks().len() - self.pos(), 41int,
    {
        let ghost s = self.toks();
        let v: Vec<Box<Stmt>> = Vec::new();
        proof {
            assert(stmts_view(v@) =~= Seq::<SpecStmt>::empty());
        }
        self.parse_rest(v)
    }

    /// A for statement, after its keyword, desugared at parse time into an
    /// equivalent while: the increment (if any) is appended to the body
    /// inside a block, the initializer (if any) is hoisted into an enclosing
    /// block, and the loop guard is the stated condition, or the true
    /// literal when none is stated.
    #[verifier::spinoff_prover]
    #[verifier::rlimit(100)]
    pub fn for_statement(&mut self) -> (r: Result<Box<Stmt>, ParseError>)
        requires
            old(self).wf(),
        ensures
            final(self).wf(),
            final(self).toks() == old(self).toks(),
            old(self).pos() <= final(self).pos() <= final(self).toks().len(),
            match r {
                Ok(st) => spec_for_statement(old(self).toks(), old(self).pos()) == Ok::<
                    (SpecStmt, int),
                    ParseError,
                >((st@, final(self).pos())) && old(self).pos() < final(self).pos(),
                Err(pe) => spec_for_statement(old(self).toks(), old(self).pos()) == Err::<
                    (SpecStmt, int),
                    ParseError,
                >(pe),
            },
        decreases self.toks().len() - self.pos(), 33int,
    {
        reveal_with_fuel(spec_for_statement, 1);
        let ghost s = self.toks();
        let ghost i = self.pos();
        match self.consume(Token::LParen) {
            Ok(_) => (),
            Err(e) => {
                proof {
                    assert(spec_for_statement(s, i) == Err::<(SpecStmt, int), ParseError>(e));
                }
                return Err(e);
            },
        };
        let p = self.peek();
        let initializer: Option<Box<Stmt>>;
        if p == Token::Semicolon {
            proof {
                assert(i + 1 < s.len() && s[i + 1] == SpecToken::Semicolon);
            }
            self.advance();
            initializer = None;
        } else if p == Token::Var {
            proof {
                assert(i + 1 < s.len() && s[i + 1] == SpecToken::Var);
            }
            self.advance();
            let d = match self.variable_declaration() {
                Ok(v) => v,
                Err(e) => {
                    proof {
                        assert(spec_for_statement(s, i) == Err::<(SpecStmt, int), ParseError>(e));
                    }
                    return Err(e);
                },
            };
            initializer = Some(d);
        } else {
            proof {
                assert(!(i + 1 < s.len() && s[i + 1] == SpecToken::Semicolon));
                assert(!(i + 1 < s.len() && s[i + 1] == SpecToken::Var));
            }
            let d = match self.expression_statement() {
                Ok(v) => v,
                Err(e) => {
                    proof {
                        assert(spec_for_statement(s, i) == Err::<(SpecStmt, int), ParseError>(e));
                    }
                    return Err(e);
                },
            };
            initializer = Some(Box::new(d));
        }
        let ghost j = self.pos();
        let ghost iv: Option<SpecStmt> = (match initializer {
            Some(ref b) => Some(b@),
            None => None,
        });
        proof {
            assert(in_span(s, i + 2, j));
        }
        let pc = self.peek();
        let cond: Option<Box<Expr>>;
        if pc == Token::Semicolon {
            proof {
                assert(j < s.len() && s[j] == SpecToken::Semicolon);
            }
            self.advance();
            cond = None;
        } else {
            proof {
                assert(!(j < s.len() && s[j] == SpecToken::Semicolon));
            }
            let c = match self.expression() {
                Ok(v) => v,
                Err(e) => {
                    proof {
                        assert(spec_for_statement(s, i) == Err::<(SpecStmt, int), ParseError>(e));
                    }
                    return Err(e);
                },
            };
            match self.consume(Token::Semicolon) {
                Ok(_) => (),
                Err(e) => {
                    proof {
                        assert(spec_for_statement(s, i) == Err::<(SpecStmt, int), ParseError>(e));
                    }
                    return Err(e);
                },
            };
            cond = Some(Box::new(c));
        }
        let ghost k2 = self.pos();
        let ghost cv: Option<SpecExpr> = (match cond {
            Some(ref b) => Some(b@),
            None => None,
        });
        proof {
            assert(in_span(s, j + 1, k2));
        }
        let pi = self.peek();
        let inc: Option<Box<Expr>>;
        if pi == Token::RParen {
            proof {
                assert(k2 < s.len() && s[k2] == SpecToken::RParen);
            }
            self.advance();
            inc = None;
        } else {
            proof {
                assert(!(k2 < s.len() && s[k2] == SpecToken::RParen));
            }
            let x = match self.expression() {
                Ok(v) => v,
                Err(e) => {
                    proof {
                        assert(spec_for_statement(s, i) == Err::<(SpecStmt, int), ParseError>(e));
                    }
                    return Err(e);
                },
            };
            match self.consume(Token::RParen) {
                Ok(_) => (),
                Err(e) => {
                    proof {
                        assert(spec_for_statement(s, i) == Err::<(SpecStmt, int), ParseError>(e));
                    }
                    return Err(e);
                },
            };
            inc = Some(Box::new(x));
        }
        let ghost m = self.pos();
        let ghost xv: Option<SpecExpr> = (match inc {
            Some(ref b) => Some(b@),
            None => None,
        });
        proof {
            assert(in_span(s, k2 + 1, m));
        }
        let body = match self.statement() {
            Ok(v) => v,
            Err(e) => {
                proof {
                    assert(spec_for_statement(s, i) == Err::<(SpecStmt, int), ParseError>(e));
                }
                return Err(e);
            },
        };
        let ghost q = self.pos();
        let ghost bv = body@;
        let body2: Box<Stmt> = match inc {
            Some(x) => {
                let ghost xe = x@;
                let mut v: Vec<Box<Stmt>> = Vec::new();
                proof {
                    lemma_stmts_view_push(v@, body);
                }
                v.push(body);
                let e2 = Box::new(Stmt::Expr(x));
                proof {
                    lemma_stmts_view_push(v@, e2);
                }
                v.push(e2);
                proof {
                    assert(stmts_view(v@) =~= seq![bv, SpecStmt::Expr(xe)]);
                }
                Box::new(Stmt::Block(v))
            },
            None => body,
        };
        let ghost b2v: SpecStmt = (match xv {
            Some(x) => SpecStmt::Block(seq![bv, SpecStmt::Expr(x)]),
            None => bv,
        });
        proof {
            assert(body2@ == b2v);
        }
        let guard: Box<Expr> = match cond {
            Some(c) => c,
            None => Box::new(Expr::Literal { value: "true".to_owned() }),
        };
        let ghost gv: SpecExpr = (match cv {
            Some(c) => c,
            None => SpecExpr::Literal { value: "true"@ },
        });
        proof {
            assert(guard@ == gv);
        }
        let w = Box::new(Stmt::While { condition: guard, body: body2 });
        let ghost wv: SpecStmt = SpecStmt::While { condition: gv, body: Box::new(b2v) };
        proof {
            assert(w@ == wv);
        }
        let out: Box<Stmt> = match initializer {
            Some(d) => {
                let ghost de = d@;
                let mut v: Vec<Box<Stmt>> = Vec::new();
                proof {
                    lemma_stmts_view_push(v@, d);
                }
                v.push(d);
                proof {
                    lemma_stmts_view_push(v@, w);
                }
                v.push(w);
                proof {
                    assert(stmts_view(v@) =~= seq![de, wv]);
                }
                Box::new(Stmt::Block(v))
            },
            None => w,
        };
        let ghost ov: SpecStmt = (match iv {
            Some(d) => SpecStmt::Block(seq![d, wv]),
            None => wv,
        });
        proof {
            assert(out@ == ov);
            assert(spec_for_statement(s, i) == Ok::<(SpecStmt, int), ParseError>((ov, q)));
        }
        Ok(out)
    }
}


/// The token sequence of `a + b * c` over three numeric operand spellings.
pub open spec fn additive_chain(na: Seq<char>, nb: Seq<char>, nc: Seq<char>) -> Seq<SpecToken> {
    seq![
        SpecToken::Number(na),
        SpecToken::Plus,
        SpecToken::Number(nb),
        SpecToken::Times,
        SpecToken::Number(nc),
    ]
}

#[verifier::spinoff_prover]
proof fn lemma_prec_left(na: Seq<char>, nb: Seq<char>, nc: Seq<char>)
    ensures
        spec_factor(additive_chain(na, nb, nc), 0) == Ok::<(SpecExpr, int), ParseError>(
            (SpecExpr::Literal { value: na }, 1),
        ),
{
    reveal_with_fuel(spec_primary, 2);
    reveal_with_fuel(spec_call, 2);
    reveal_with_fuel(spec_call_rest, 2);
    reveal_with_fuel(spec_unary, 2);
    reveal_with_fuel(spec_factor_rest, 2);
    reveal_with_fuel(spec_factor, 2);
    let s = additive_chain(na, nb, nc);
    let a = SpecExpr::Literal { value: na };
    assert(s.len() == 5 && s[0] == SpecToken::Number(na) && s[1] == SpecToken::Plus);
    assert(spec_primary(s, 0) == Ok::<(SpecExpr, int), ParseError>((a, 1)));
    assert(spec_call_rest(s, 1, a) == Ok::<(SpecExpr, int), ParseError>((a, 1)));
    assert(spec_call(s, 0) == Ok::<(SpecExpr, int), ParseError>((a, 1)));
    assert(spec_unary(s, 0) == Ok::<(SpecExpr, int), ParseError>((a, 1)));
    assert(spec_factor_rest(s, 1, a) == Ok::<(SpecExpr, int), ParseError>((a, 1)));
}

#[verifier::spinoff_prover]
proof fn lemma_prec_right(na: Seq<char>, nb: Seq<char>, nc: Seq<char>)
    ensures
        spec_factor(additive_chain(na, nb, nc), 2) == Ok::<(SpecExpr, int), ParseError>(
            (
                SpecExpr::Binary {
                    op: SpecToken::Times,
                    left: Box::new(SpecExpr::Literal { value: nb }),
                    right: Box::new(SpecExpr::Literal { value: nc }),
                },
                5,
            ),
        ),
{
    reveal_with_fuel(spec_primary, 2);
    reveal_with_fuel(spec_call, 2);
    reveal_with_fuel(spec_call_rest, 2);
    reveal_with_fuel(spec_unary, 2);
    reveal_with_fuel(spec_factor_rest, 3);
    reveal_with_fuel(spec_factor, 2);
    let s = additive_chain(na, nb, nc);
    let b = SpecExpr::Literal { value: nb };
    let c = SpecExpr::Literal { value: nc };
    assert(s.len() == 5 && s[2] == SpecToken::Number(nb) && s[3] == SpecToken::Times && s[4]
        == SpecToken::Number(nc));
    assert(spec_primary(s, 2) == Ok::<(SpecExpr, int), ParseError>((b, 3)));
    assert(spec_call_rest(s, 3, b) == Ok::<(SpecExpr, int), ParseError>((b, 3)));
    assert(spec_call(s, 2) == Ok::<(SpecExpr, int), ParseError>((b, 3)));
    assert(spec_unary(s, 2) == Ok::<(SpecExpr, int), ParseError>((b, 3)));
    assert(spec_primary(s, 4) == Ok::<(SpecExpr, int), ParseError>((c, 5)));
    assert(spec_call_rest(s, 5, c) == Ok::<(SpecExpr, int), ParseError>((c, 5)));
    assert(spec_call(s, 4) == Ok::<(SpecExpr, int), ParseError>((c, 5)));
    assert(spec_unary(s, 4) == Ok::<(SpecExpr, int), ParseError>((c, 5)));
    let bc = SpecExpr::Binary { op: SpecToken::Times, left: Box::new(b), right: Box::new(c) };
    assert(spec_factor_rest(s, 5, bc) == Ok::<(SpecExpr, int), ParseError>((bc, 5)));
    assert(spec_factor_rest(s, 3, b) == Ok::<(SpecExpr, int), ParseError>((bc, 5)));
}

#[verifier::spinoff_prover]
proof fn lemma_prec_term(na: Seq<char>, nb: Seq<char>, nc: Seq<char>)
    ensures
        spec_term(additive_chain(na, nb, nc), 0) == Ok::<(SpecExpr, int), ParseError>(
            (
                SpecExpr::Binary {
                    op: SpecToken::Plus,
                    left: Box::new(SpecExpr::Literal { value: na }),
                    right: Box::new(
                        SpecExpr::Binary {
                            op: SpecToken::Times,
                            left: Box::new(SpecExpr::Literal { value: nb }),
                            right: Box::new(SpecExpr::Literal { value: nc }),
                        },
                    ),
                },
                5,
            ),
        ),
{
    lemma_prec_left(na, nb, nc);
    lemma_prec_right(na, nb, nc);
    reveal_with_fuel(spec_term, 2);
    reveal_with_fuel(spec_term_rest, 3);
    let s = additive_chain(na, nb, nc);
    let a = SpecExpr::Literal { value: na };
    let bc = SpecExpr::Binary {
        op: SpecToken::Times,
        left: Box::new(SpecExpr::Literal { value: nb }),
        right: Box::new(SpecExpr::Literal { value: nc }),
    };
    let abc = SpecExpr::Binary { op: SpecToken::Plus, left: Box::new(a), right: Box::new(bc) };
    assert(s.len() == 5 && s[1] == SpecToken::Plus);
    assert(spec_term_rest(s, 5, abc) == Ok::<(SpecExpr, int), ParseError>((abc, 5)));
    assert(spec_term_rest(s, 1, a) == Ok::<(SpecExpr, int), ParseError>((abc, 5)));
}

/// Precedence law: in `a + b * c` the multiplication binds tighter and
/// stands as the inner node of the addition's right child, for every choice
/// of the three numeric operand spellings.
#[verifier::spinoff_prover]
#[verifier::rlimit(100)]
pub proof fn lemma_precedence(na: Seq<char>, nb: Seq<char>, nc: Seq<char>)
    ensures
        spec_expression(additive_chain(na, nb, nc), 0) == Ok::<(SpecExpr, int), ParseError>(
            (
                SpecExpr::Binary {
                    op: SpecToken::Plus,
                    left: Box::new(SpecExpr::Literal { value: na }),
                    right: Box::new(
                        SpecExpr::Binary {
                            op: SpecToken::Times,
                            left: Box::new(SpecExpr::Literal { value: nb }),
                            right: Box::new(SpecExpr::Literal { value: nc }),
                        },
                    ),
                },
                5,
            ),
        ),
{
    lemma_prec_term(na, nb, nc);
    reveal_with_fuel(spec_expression, 2);
    reveal_with_fuel(spec_assignment, 2);
    reveal_with_fuel(spec_or, 2);
    reveal_with_fuel(spec_or_rest, 2);
    reveal_with_fuel(spec_and, 2);
    reveal_with_fuel(spec_and_rest, 2);
    reveal_with_fuel(spec_equality, 2);
    reveal_with_fuel(spec_equality_rest, 2);
    reveal_with_fuel(spec_comparison, 2);
    reveal_with_fuel(spec_comparison_rest, 2);
    let s = additive_chain(na, nb, nc);
    let abc = SpecExpr::Binary {
        op: SpecToken::Plus,
        left: Box::new(SpecExpr::Literal { value: na }),
        right: Box::new(
            SpecExpr::Binary {
                op: SpecToken::Times,
                left: Box::new(SpecExpr::Literal { value: nb }),
                right: Box::new(SpecExpr::Literal { value: nc }),
            },
        ),
    };
    assert(s.len() == 5);
    assert(spec_comparison_rest(s, 5, abc) == Ok::<(SpecExpr, int), ParseError>((abc, 5)));
    assert(spec_comparison(s, 0) == Ok::<(SpecExpr, int), ParseError>((abc, 5)));
    assert(spec_equality_rest(s, 5, abc) == Ok::<(SpecExpr, int), ParseError>((abc, 5)));
    assert(spec_equality(s, 0) == Ok::<(SpecExpr, int), ParseError>((abc, 5)));
    assert(spec_and_rest(s, 5, abc) == Ok::<(SpecExpr, int), ParseError>((abc, 5)));
    assert(spec_and(s, 0) == Ok::<(SpecExpr, int), ParseError>((abc, 5)));
    assert(spec_or_rest(s, 5, abc) == Ok::<(SpecExpr, int), ParseError>((abc, 5)));
    assert(spec_or(s, 0) == Ok::<(SpecExpr, int), ParseError>((abc, 5)));
    assert(spec_assignment(s, 0) == Ok::<(SpecExpr, int), ParseError>((abc, 5)));
}

} // verus!
