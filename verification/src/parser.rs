use vstd::prelude::*;

use crate::ast::ASTNode;
use crate::ast::AstModel;
use crate::ast::LocalTable;
use crate::ast::nodes_view;
use crate::token::Token;
use crate::token::TokenModel;
use crate::token::TokenType;
use crate::token::tokens_view;

verus! {

/// A syntax error: an unexpected token, an unexpected end of input, or a
/// malformed return expression.
#[derive(Debug, Clone, Copy, PartialEq, Eq, Structural)]
pub enum ParseError {
    /// A token of one kind stood where another kind was required.
    Expected { expected: TokenType, got: TokenType },
    /// The input ended where a token of this kind was required.
    ExpectedEof { expected: TokenType },
    /// The input ended where an expression was required.
    EofInExpression,
    /// A token of this kind cannot begin an expression.
    UnexpectedInExpression { got: TokenType },
    /// `let` was not followed by an identifier.
    ExpectedIdentifierAfterLet,
    /// `method` was not followed by an identifier.
    ExpectedMethodName,
    /// `fun` was not followed by an identifier.
    ExpectedFunctionName,
    /// A `back` payload that is neither an identifier nor a number.
    InvalidBackExpression,
    /// A token of this kind cannot begin a statement.
    UnexpectedToken { got: TokenType },
    /// The input ended where a statement was required.
    UnexpectedEof,
}

// ---------------------------------------------------------------------------
// The parser as a mathematical function
// ---------------------------------------------------------------------------
//
// Each `spec_parse_*` function walks the token models from a position and
// returns the parsed model together with the position of the first token it
// did not consume, or the first error. The executable parser is proved to
// return exactly these values.

/// Demand a token of kind `expected` at `pos` and step over it.
pub open spec fn spec_eat(toks: Seq<TokenModel>, pos: int, expected: TokenType) -> Result<
    int,
    ParseError,
> {
    if pos >= toks.len() {
        Err(ParseError::ExpectedEof { expected })
    } else if toks[pos].kind == expected {
        Ok(pos + 1)
    } else {
        Err(ParseError::Expected { expected, got: toks[pos].kind })
    }
}

/// The continuation position after a sub-parse that started at `pos` and
/// reported `p2`: a sub-parse always lands inside the token list and past
/// where it started, so this is `p2`; should it not, step one token so that
/// the walk still terminates.
pub open spec fn step_pos(toks_len: int, pos: int, p2: int) -> int {
    if pos < p2 <= toks_len {
        p2
    } else {
        pos + 1
    }
}

/// An expression: an identifier (promoted to a call when `(` follows), a
/// number literal, or a string literal.
pub open spec fn spec_parse_expression(toks: Seq<TokenModel>, pos: int) -> Result<
    (AstModel, int),
    ParseError,
>
    decreases toks.len() - pos, 1int,
{
    if pos >= toks.len() {
        Err(ParseError::EofInExpression)
    } else {
        let k = toks[pos].kind;
        if k == TokenType::Identifier {
            if pos + 1 < toks.len() && toks[pos + 1].kind == TokenType::LParen {
                spec_parse_function_call(toks, toks[pos].lexeme, pos + 1)
            } else {
                Ok((AstModel::Identifier { name: toks[pos].lexeme }, pos + 1))
            }
        } else if k == TokenType::Number {
            Ok((AstModel::Number { value: toks[pos].lexeme }, pos + 1))
        } else if k == TokenType::String {
            Ok((AstModel::String { value: toks[pos].lexeme }, pos + 1))
        } else {
            Err(ParseError::UnexpectedInExpression { got: k })
        }
    }
}

/// The argument list of a call, from after `(` up to the closing `)`:
/// expressions, between which a `;` is skipped and any other separator must
/// be a `+`.
pub open spec fn spec_parse_call_args(toks: Seq<TokenModel>, pos: int) -> Result<
    (Seq<AstModel>, int),
    ParseError,
>
    decreases toks.len() - pos, 2int,
{
    if pos >= toks.len() {
        Ok((Seq::empty(), pos))
    } else if toks[pos].kind == TokenType::RParen {
        Ok((Seq::empty(), pos))
    } else if toks[pos].kind == TokenType::Semicolon {
        spec_parse_call_args(toks, pos + 1)
    } else {
        match spec_parse_expression(toks, pos) {
            Err(e) => Err(e),
            Ok((arg, p2)) => {
                let cont = if p2 < toks.len() && toks[p2].kind == TokenType::Semicolon {
                    Ok(p2 + 1)
                } else if p2 < toks.len() && toks[p2].kind != TokenType::RParen {
                    spec_eat(toks, p2, TokenType::Plus)
                } else {
                    Ok(p2)
                };
                match cont {
                    Err(e) => Err(e),
                    Ok(p3) => match spec_parse_call_args(toks, step_pos(toks.len() as int, pos, p3)) {
                        Err(e) => Err(e),
                        Ok((rest, p4)) => Ok((seq![arg] + rest, p4)),
                    },
                }
            },
        }
    }
}

/// A call of `name`, from its `(` through the matching `)`.
pub open spec fn spec_parse_function_call(toks: Seq<TokenModel>, name: Seq<char>, pos: int) -> Result<
    (AstModel, int),
    ParseError,
>
    decreases toks.len() - pos, 1int,
{
    match spec_eat(toks, pos, TokenType::LParen) {
        Err(e) => Err(e),
        Ok(p1) => match spec_parse_call_args(toks, p1) {
            Err(e) => Err(e),
            Ok((args, p2)) => match spec_eat(toks, p2, TokenType::RParen) {
                Err(e) => Err(e),
                Ok(p3) => Ok((AstModel::FunctionCall { name, args }, p3)),
            },
        },
    }
}

/// `let` IDENT `=` expr `;`.
pub open spec fn spec_parse_let(toks: Seq<TokenModel>, pos: int) -> Result<
    (AstModel, int),
    ParseError,
>
    decreases toks.len() - pos, 1int,
{
    match spec_eat(toks, pos, TokenType::Let) {
        Err(e) => Err(e),
        Ok(p1) => if p1 >= toks.len() || toks[p1].kind != TokenType::Identifier {
            Err(ParseError::ExpectedIdentifierAfterLet)
        } else {
            match spec_eat(toks, p1 + 1, TokenType::Assign) {
                Err(e) => Err(e),
                Ok(p3) => match spec_parse_expression(toks, p3) {
                    Err(e) => Err(e),
                    Ok((value, p4)) => match spec_eat(toks, p4, TokenType::Semicolon) {
                        Err(e) => Err(e),
                        Ok(p5) => Ok(
                            (
                                AstModel::Let { name: toks[p1].lexeme, value: Box::new(value) },
                                p5,
                            ),
                        ),
                    },
                },
            }
        },
    }
}

/// `print` `(` expr `)` `;`.
pub open spec fn spec_parse_print(toks: Seq<TokenModel>, pos: int) -> Result<
    (AstModel, int),
    ParseError,
>
    decreases toks.len() - pos, 1int,
{
    match spec_eat(toks, pos, TokenType::Print) {
        Err(e) => Err(e),
        Ok(p1) => match spec_eat(toks, p1, TokenType::LParen) {
            Err(e) => Err(e),
            Ok(p2) => match spec_parse_expression(toks, p2) {
                Err(e) => Err(e),
                Ok((value, p3)) => match spec_eat(toks, p3, TokenType::RParen) {
                    Err(e) => Err(e),
                    Ok(p4) => match spec_eat(toks, p4, TokenType::Semicolon) {
                        Err(e) => Err(e),
                        Ok(p5) => Ok((AstModel::Print { value: Box::new(value) }, p5)),
                    },
                },
            },
        },
    }
}

/// `back` expr `;`, where the expression must reduce to an identifier name
/// or a numeric literal's text.
pub open spec fn spec_parse_back(toks: Seq<TokenModel>, pos: int) -> Result<
    (AstModel, int),
    ParseError,
>
    decreases toks.len() - pos, 1int,
{
    match spec_eat(toks, pos, TokenType::Back) {
        Err(e) => Err(e),
        Ok(p1) => match spec_parse_expression(toks, p1) {
            Err(e) => Err(e),
            Ok((expr, p2)) => match spec_eat(toks, p2, TokenType::Semicolon) {
                Err(e) => Err(e),
                Ok(p3) => match expr {
                    AstModel::Identifier { name } => Ok((AstModel::Back { value: name }, p3)),
                    AstModel::Number { value } => Ok((AstModel::Back { value }, p3)),
                    _ => Err(ParseError::InvalidBackExpression),
                },
            },
        },
    }
}

/// The statements of a `{ ... }` body, stopping before the `}` (or at the end
/// of the input, which the caller then reports); stray `;` between statements
/// are skipped.
pub open spec fn spec_parse_body(toks: Seq<TokenModel>, pos: int) -> Result<
    (Seq<AstModel>, int),
    ParseError,
>
    decreases toks.len() - pos, 3int,
{
    if pos >= toks.len() {
        Ok((Seq::empty(), pos))
    } else if toks[pos].kind == TokenType::RBrace {
        Ok((Seq::empty(), pos))
    } else if toks[pos].kind == TokenType::Semicolon {
        spec_parse_body(toks, pos + 1)
    } else {
        match spec_parse_statement(toks, pos) {
            Err(e) => Err(e),
            Ok((stmt, p2)) => match spec_parse_body(toks, step_pos(toks.len() as int, pos, p2)) {
                Err(e) => Err(e),
                Ok((rest, p3)) => Ok((seq![stmt] + rest, p3)),
            },
        }
    }
}

/// `method` IDENT `{` stmt* `}` with an optional trailing `;`. The node's
/// local table and return value start empty: the analyzer fills them.
pub open spec fn spec_parse_method(toks: Seq<TokenModel>, pos: int) -> Result<
    (AstModel, int),
    ParseError,
>
    decreases toks.len() - pos, 1int,
{
    match spec_eat(toks, pos, TokenType::Method) {
        Err(e) => Err(e),
        Ok(p1) => if p1 >= toks.len() || toks[p1].kind != TokenType::Identifier {
            Err(ParseError::ExpectedMethodName)
        } else {
            match spec_eat(toks, p1 + 1, TokenType::LBrace) {
                Err(e) => Err(e),
                Ok(p3) => match spec_parse_body(toks, p3) {
                    Err(e) => Err(e),
                    Ok((body, p4)) => match spec_eat(toks, p4, TokenType::RBrace) {
                        Err(e) => Err(e),
                        Ok(p5) => {
                            let p6 = if p5 < toks.len() && toks[p5].kind == TokenType::Semicolon {
                                p5 + 1
                            } else {
                                p5
                            };
                            Ok(
                                (
                                    AstModel::Method {
                                        name: toks[p1].lexeme,
                                        body,
                                        locals: Map::empty(),
                                        return_value: None,
                                    },
                                    p6,
                                ),
                            )
                        },
                    },
                },
            }
        },
    }
}

/// `fun` IDENT with optional empty `()`, then `{` stmt* `}` and an optional
/// trailing `;`.
pub open spec fn spec_parse_fun(toks: Seq<TokenModel>, pos: int) -> Result<
    (AstModel, int),
    ParseError,
>
    decreases toks.len() - pos, 1int,
{
    match spec_eat(toks, pos, TokenType::Fun) {
        Err(e) => Err(e),
        Ok(p1) => if p1 >= toks.len() || toks[p1].kind != TokenType::Identifier {
            Err(ParseError::ExpectedFunctionName)
        } else {
            let parens = if p1 + 1 < toks.len() && toks[p1 + 1].kind == TokenType::LParen {
                spec_eat(toks, p1 + 2, TokenType::RParen)
            } else {
                Ok(p1 + 1)
            };
            match parens {
                Err(e) => Err(e),
                Ok(p2) => match spec_eat(toks, p2, TokenType::LBrace) {
                    Err(e) => Err(e),
                    Ok(p3) => match spec_parse_body(toks, p3) {
                        Err(e) => Err(e),
                        Ok((body, p4)) => match spec_eat(toks, p4, TokenType::RBrace) {
                            Err(e) => Err(e),
                            Ok(p5) => {
                                let p6 = if p5 < toks.len() && toks[p5].kind
                                    == TokenType::Semicolon {
                                    p5 + 1
                                } else {
                                    p5
                                };
                                Ok((AstModel::Fun { name: toks[p1].lexeme, body }, p6))
                            },
                        },
                    },
                },
            }
        },
    }
}

/// One statement, dispatched on its first token: `let`, `print`, `method`,
/// `fun`, `back`, or — on an identifier — an assignment when `=` follows,
/// else a call statement; each of the last two must end in `;`.
pub open spec fn spec_parse_statement(toks: Seq<TokenModel>, pos: int) -> Result<
    (AstModel, int),
    ParseError,
>
    decreases toks.len() - pos, 2int,
{
    if pos >= toks.len() {
        Err(ParseError::UnexpectedEof)
    } else {
        let k = toks[pos].kind;
        if k == TokenType::Let {
            spec_parse_let(toks, pos)
        } else if k == TokenType::Print {
            spec_parse_print(toks, pos)
        } else if k == TokenType::Method {
            spec_parse_method(toks, pos)
        } else if k == TokenType::Fun {
            spec_parse_fun(toks, pos)
        } else if k == TokenType::Back {
            spec_parse_back(toks, pos)
        } else if k == TokenType::Identifier {
            if pos + 1 < toks.len() && toks[pos + 1].kind == TokenType::Assign {
                match spec_parse_expression(toks, pos + 2) {
                    Err(e) => Err(e),
                    Ok((value, p)) => match spec_eat(toks, p, TokenType::Semicolon) {
                        Err(e) => Err(e),
                        Ok(p2) => Ok(
                            (
                                AstModel::Assign {
                                    name: toks[pos].lexeme,
                                    value: Box::new(value),
                                },
                                p2,
                            ),
                        ),
                    },
                }
            } else {
                match spec_parse_function_call(toks, toks[pos].lexeme, pos + 1) {
                    Err(e) => Err(e),
                    Ok((call, p)) => match spec_eat(toks, p, TokenType::Semicolon) {
                        Err(e) => Err(e),
                        Ok(p2) => Ok((call, p2)),
                    },
                }
            }
        } else {
            Err(ParseError::UnexpectedToken { got: k })
        }
    }
}

/// The whole program: statements until the tokens run out.
pub open spec fn spec_parse_program(toks: Seq<TokenModel>, pos: int) -> Result<
    Seq<AstModel>,
    ParseError,
>
    decreases toks.len() - pos, 3int,
{
    if pos >= toks.len() {
        Ok(Seq::empty())
    } else {
        match spec_parse_statement(toks, pos) {
            Err(e) => Err(e),
            Ok((stmt, p2)) => match spec_parse_program(toks, step_pos(toks.len() as int, pos, p2)) {
                Err(e) => Err(e),
                Ok(rest) => Ok(seq![stmt] + rest),
            },
        }
    }
}

/// Prepend already-parsed nodes to the outcome of a body or argument walk.
pub open spec fn list_append(
    acc: Seq<AstModel>,
    r: Result<(Seq<AstModel>, int), ParseError>,
) -> Result<(Seq<AstModel>, int), ParseError> {
    match r {
        Ok((rest, p)) => Ok((acc + rest, p)),
        Err(e) => Err(e),
    }
}

/// Prepend already-parsed statements to the outcome of the top-level walk.
pub open spec fn program_append(
    acc: Seq<AstModel>,
    r: Result<Seq<AstModel>, ParseError>,
) -> Result<Seq<AstModel>, ParseError> {
    match r {
        Ok(rest) => Ok(acc + rest),
        Err(e) => Err(e),
    }
}

// ---------------------------------------------------------------------------
// The executable parser
// ---------------------------------------------------------------------------

/// A recursive-descent parser over a token sequence: one token of lookahead,
/// no backtracking, all-or-nothing.
pub struct Parser {
    pub tokens: Vec<Token>,
    pub pos: usize,
}

impl Parser {
    /// The models of this parser's tokens.
    pub open spec fn toks(&self) -> Seq<TokenModel> {
        tokens_view(self.tokens@)
    }

    /// A parser positioned at the start of `tokens`.
    pub fn new(tokens: Vec<Token>) -> (r: Parser)
        ensures
            r.tokens@ == tokens@,
            r.pos == 0,
    {
        Parser { tokens, pos: 0 }
    }

    /// Demand a token of kind `expected` at `pos` and step over it.
    fn eat(&self, pos: usize, expected: TokenType) -> (r: Result<usize, ParseError>)
        requires
            pos <= self.tokens@.len(),
        ensures
            r matches Ok(p) ==> spec_eat(self.toks(), pos as int, expected) == Ok::<
                int,
                ParseError,
            >(p as int) && p == pos + 1 && pos < self.tokens@.len(),
            r matches Err(e) ==> spec_eat(self.toks(), pos as int, expected) == Err::<
                int,
                ParseError,
            >(e),
    {
        if pos < self.tokens.len() {
            if self.tokens[pos].type_ == expected {
                Ok(pos + 1)
            } else {
                Err(ParseError::Expected { expected, got: self.tokens[pos].type_ })
            }
        } else {
            Err(ParseError::ExpectedEof { expected })
        }
    }

    fn parse_expression(&self, pos: usize) -> (r: Result<(ASTNode, usize), ParseError>)
        requires
            pos <= self.tokens@.len(),
        ensures
            r matches Ok(np) ==> spec_parse_expression(self.toks(), pos as int) == Ok::<
                (AstModel, int),
                ParseError,
            >((np.0@, np.1 as int)) && pos < np.1 <= self.tokens@.len(),
            r matches Err(e) ==> spec_parse_expression(self.toks(), pos as int) == Err::<
                (AstModel, int),
                ParseError,
            >(e),
        decreases self.tokens@.len() - pos, 1int,
    {
        if pos >= self.tokens.len() {
            return Err(ParseError::EofInExpression);
        }
        let k = self.tokens[pos].type_;
        match k {
            TokenType::Identifier => {
                let name = self.tokens[pos].value.clone();
                if pos + 1 < self.tokens.len() && self.tokens[pos + 1].type_ == TokenType::LParen {
                    self.parse_function_call(name, pos + 1)
                } else {
                    Ok((ASTNode::Identifier { name }, pos + 1))
                }
            },
            TokenType::Number => {
                let value = self.tokens[pos].value.clone();
                Ok((ASTNode::Number { value }, pos + 1))
            },
            TokenType::String => {
                let value = self.tokens[pos].value.clone();
                Ok((ASTNode::String { value }, pos + 1))
            },
            _ => Err(ParseError::UnexpectedInExpression { got: k }),
        }
    }

    fn parse_call_args(&self, pos: usize) -> (r: Result<(Vec<ASTNode>, usize), ParseError>)
        requires
            pos <= self.tokens@.len(),
        ensures
            r matches Ok(ap) ==> spec_parse_call_args(self.toks(), pos as int) == Ok::<
                (Seq<AstModel>, int),
                ParseError,
            >((nodes_view(ap.0@), ap.1 as int)) && pos <= ap.1 <= self.tokens@.len(),
            r matches Err(e) ==> spec_parse_call_args(self.toks(), pos as int) == Err::<
                (Seq<AstModel>, int),
                ParseError,
            >(e),
        decreases self.tokens@.len() - pos, 2int,
    {
        let mut args: Vec<ASTNode> = Vec::new();
        let mut cur = pos;

        while cur < self.tokens.len() && self.tokens[cur].type_ != TokenType::RParen
            invariant
                pos <= cur <= self.tokens@.len(),
                spec_parse_call_args(self.toks(), pos as int) == list_append(
                    nodes_view(args@),
                    spec_parse_call_args(self.toks(), cur as int),
                ),
            decreases self.tokens@.len() - cur,
        {
            if self.tokens[cur].type_ == TokenType::Semicolon {
                cur = cur + 1;
            } else {
                let ghost arg_pos = cur as int;
                let (arg, p2) = match self.parse_expression(cur) {
                    Ok(x) => x,
                    Err(e) => {
                        return Err(e);
                    },
                };
                let next = if p2 < self.tokens.len() {
                    if self.tokens[p2].type_ == TokenType::Semicolon {
                        p2 + 1
                    } else if self.tokens[p2].type_ != TokenType::RParen {
                        match self.eat(p2, TokenType::Plus) {
                            Ok(p3) => p3,
                            Err(e) => {
                                return Err(e);
                            },
                        }
                    } else {
                        p2
                    }
                } else {
                    p2
                };
                proof {
                    let toks = self.toks();
                    assert(step_pos(toks.len() as int, arg_pos, next as int) == next as int);
                    let tail = spec_parse_call_args(toks, next as int);
                    if let Ok((rest, _)) = tail {
                        crate::ast::lemma_nodes_view_push(args@, arg);
                        assert(nodes_view(args@) + (seq![arg@] + rest) =~= nodes_view(
                            args@.push(arg),
                        ) + rest);
                    }
                }
                args.push(arg);
                cur = next;
            }
        }
        Ok((args, cur))
    }

    fn parse_function_call(&self, name: String, pos: usize) -> (r: Result<
        (ASTNode, usize),
        ParseError,
    >)
        requires
            pos <= self.tokens@.len(),
        ensures
            r matches Ok(np) ==> spec_parse_function_call(self.toks(), name@, pos as int) == Ok::<
                (AstModel, int),
                ParseError,
            >((np.0@, np.1 as int)) && pos < np.1 <= self.tokens@.len(),
            r matches Err(e) ==> spec_parse_function_call(self.toks(), name@, pos as int) == Err::<
                (AstModel, int),
                ParseError,
            >(e),
        decreases self.tokens@.len() - pos, 1int,
    {
        let p1 = match self.eat(pos, TokenType::LParen) {
            Ok(p) => p,
            Err(e) => {
                return Err(e);
            },
        };
        let (args, p2) = match self.parse_call_args(p1) {
            Ok(x) => x,
            Err(e) => {
                return Err(e);
            },
        };
        let p3 = match self.eat(p2, TokenType::RParen) {
            Ok(p) => p,
            Err(e) => {
                return Err(e);
            },
        };
        Ok((ASTNode::FunctionCall { name, args }, p3))
    }

    fn parse_let(&self, pos: usize) -> (r: Result<(ASTNode, usize), ParseError>)
        requires
            pos <= self.tokens@.len(),
        ensures
            r matches Ok(np) ==> spec_parse_let(self.toks(), pos as int) == Ok::<
                (AstModel, int),
                ParseError,
            >((np.0@, np.1 as int)) && pos < np.1 <= self.tokens@.len(),
            r matches Err(e) ==> spec_parse_let(self.toks(), pos as int) == Err::<
                (AstModel, int),
                ParseError,
            >(e),
        decreases self.tokens@.len() - pos, 1int,
    {
        let p1 = match self.eat(pos, TokenType::Let) {
            Ok(p) => p,
            Err(e) => {
                return Err(e);
            },
        };
        if p1 >= self.tokens.len() || self.tokens[p1].type_ != TokenType::Identifier {
            return Err(ParseError::ExpectedIdentifierAfterLet);
        }
        let name = self.tokens[p1].value.clone();
        let p3 = match self.eat(p1 + 1, TokenType::Assign) {
            Ok(p) => p,
            Err(e) => {
                return Err(e);
            },
        };
        let (value, p4) = match self.parse_expression(p3) {
            Ok(x) => x,
            Err(e) => {
                return Err(e);
            },
        };
        let p5 = match self.eat(p4, TokenType::Semicolon) {
            Ok(p) => p,
            Err(e) => {
                return Err(e);
            },
        };
        Ok((ASTNode::Let { name, value: Box::new(value) }, p5))
    }

    fn parse_print(&self, pos: usize) -> (r: Result<(ASTNode, usize), ParseError>)
        requires
            pos <= self.tokens@.len(),
        ensures
            r matches Ok(np) ==> spec_parse_print(self.toks(), pos as int) == Ok::<
                (AstModel, int),
                ParseError,
            >((np.0@, np.1 as int)) && pos < np.1 <= self.tokens@.len(),
            r matches Err(e) ==> spec_parse_print(self.toks(), pos as int) == Err::<
                (AstModel, int),
                ParseError,
            >(e),
        decreases self.tokens@.len() - pos, 1int,
    {
        let p1 = match self.eat(pos, TokenType::Print) {
            Ok(p) => p,
            Err(e) => {
                return Err(e);
            },
        };
        let p2 = match self.eat(p1, TokenType::LParen) {
            Ok(p) => p,
            Err(e) => {
                return Err(e);
            },
        };
        let (value, p3) = match self.parse_expression(p2) {
            Ok(x) => x,
            Err(e) => {
                return Err(e);
            },
        };
        let p4 = match self.eat(p3, TokenType::RParen) {
            Ok(p) => p,
            Err(e) => {
                return Err(e);
            },
        };
        let p5 = match self.eat(p4, TokenType::Semicolon) {
            Ok(p) => p,
            Err(e) => {
                return Err(e);
            },
        };
        Ok((ASTNode::Print { value: Box::new(value) }, p5))
    }

    fn parse_back(&self, pos: usize) -> (r: Result<(ASTNode, usize), ParseError>)
        requires
            pos <= self.tokens@.len(),
        ensures
            r matches Ok(np) ==> spec_parse_back(self.toks(), pos as int) == Ok::<
                (AstModel, int),
                ParseError,
            >((np.0@, np.1 as int)) && pos < np.1 <= self.tokens@.len(),
            r matches Err(e) ==> spec_parse_back(self.toks(), pos as int) == Err::<
                (AstModel, int),
                ParseError,
            >(e),
        decreases self.tokens@.len() - pos, 1int,
    {
        let p1 = match self.eat(pos, TokenType::Back) {
            Ok(p) => p,
            Err(e) => {
                return Err(e);
            },
        };
        let (expr, p2) = match self.parse_expression(p1) {
            Ok(x) => x,
            Err(e) => {
                return Err(e);
            },
        };
        let p3 = match self.eat(p2, TokenType::Semicolon) {
            Ok(p) => p,
            Err(e) => {
                return Err(e);
            },
        };
        match expr {
            ASTNode::Identifier { name } => Ok((ASTNode::Back { value: name }, p3)),
            ASTNode::Number { value } => Ok((ASTNode::Back { value }, p3)),
            _ => Err(ParseError::InvalidBackExpression),
        }
    }

    fn parse_body(&self, pos: usize) -> (r: Result<(Vec<ASTNode>, usize), ParseError>)
        requires
            pos <= self.tokens@.len(),
        ensures
            r matches Ok(bp) ==> spec_parse_body(self.toks(), pos as int) == Ok::<
                (Seq<AstModel>, int),
                ParseError,
            >((nodes_view(bp.0@), bp.1 as int)) && pos <= bp.1 <= self.tokens@.len(),
            r matches Err(e) ==> spec_parse_body(self.toks(), pos as int) == Err::<
                (Seq<AstModel>, int),
                ParseError,
            >(e),
        decreases self.tokens@.len() - pos, 3int,
    {
        let mut stmts: Vec<ASTNode> = Vec::new();
        let mut cur = pos;

        while cur < self.tokens.len() && self.tokens[cur].type_ != TokenType::RBrace
            invariant
                pos <= cur <= self.tokens@.len(),
                spec_parse_body(self.toks(), pos as int) == list_append(
                    nodes_view(stmts@),
                    spec_parse_body(self.toks(), cur as int),
                ),
            decreases self.tokens@.len() - cur,
        {
            if self.tokens[cur].type_ == TokenType::Semicolon {
                cur = cur + 1;
            } else {
                let ghost stmt_pos = cur as int;
                let (stmt, p2) = match self.parse_statement(cur) {
                    Ok(x) => x,
                    Err(e) => {
                        return Err(e);
                    },
                };
                proof {
                    let toks = self.toks();
                    assert(step_pos(toks.len() as int, stmt_pos, p2 as int) == p2 as int);
                    let tail = spec_parse_body(toks, p2 as int);
                    if let Ok((rest, _)) = tail {
                        crate::ast::lemma_nodes_view_push(stmts@, stmt);
                        assert(nodes_view(stmts@) + (seq![stmt@] + rest) =~= nodes_view(
                            stmts@.push(stmt),
                        ) + rest);
                    }
                }
                stmts.push(stmt);
                cur = p2;
            }
        }
        Ok((stmts, cur))
    }

    fn parse_method(&self, pos: usize) -> (r: Result<(ASTNode, usize), ParseError>)
        requires
            pos <= self.tokens@.len(),
        ensures
            r matches Ok(np) ==> spec_parse_method(self.toks(), pos as int) == Ok::<
                (AstModel, int),
                ParseError,
            >((np.0@, np.1 as int)) && pos < np.1 <= self.tokens@.len(),
            r matches Err(e) ==> spec_parse_method(self.toks(), pos as int) == Err::<
                (AstModel, int),
                ParseError,
            >(e),
        decreases self.tokens@.len() - pos, 1int,
    {
        let p1 = match self.eat(pos, TokenType::Method) {
            Ok(p) => p,
            Err(e) => {
                return Err(e);
            },
        };
        if p1 >= self.tokens.len() || self.tokens[p1].type_ != TokenType::Identifier {
            return Err(ParseError::ExpectedMethodName);
        }
        let name = self.tokens[p1].value.clone();
        let p3 = match self.eat(p1 + 1, TokenType::LBrace) {
            Ok(p) => p,
            Err(e) => {
                return Err(e);
            },
        };
        let (body, p4) = match self.parse_body(p3) {
            Ok(x) => x,
            Err(e) => {
                return Err(e);
            },
        };
        let p5 = match self.eat(p4, TokenType::RBrace) {
            Ok(p) => p,
            Err(e) => {
                return Err(e);
            },
        };
        let p6 = if p5 < self.tokens.len() && self.tokens[p5].type_ == TokenType::Semicolon {
            p5 + 1
        } else {
            p5
        };
        Ok(
            (
                ASTNode::Method {
                    name,
                    body,
                    local_symbol_table: LocalTable::new(),
                    return_value: None,
                },
                p6,
            ),
        )
    }

    fn parse_fun(&self, pos: usize) -> (r: Result<(ASTNode, usize), ParseError>)
        requires
            pos <= self.tokens@.len(),
        ensures
            r matches Ok(np) ==> spec_parse_fun(self.toks(), pos as int) == Ok::<
                (AstModel, int),
                ParseError,
            >((np.0@, np.1 as int)) && pos < np.1 <= self.tokens@.len(),
            r matches Err(e) ==> spec_parse_fun(self.toks(), pos as int) == Err::<
                (AstModel, int),
                ParseError,
            >(e),
        decreases self.tokens@.len() - pos, 1int,
    {
        let p1 = match self.eat(pos, TokenType::Fun) {
            Ok(p) => p,
            Err(e) => {
                return Err(e);
            },
        };
        if p1 >= self.tokens.len() || self.tokens[p1].type_ != TokenType::Identifier {
            return Err(ParseError::ExpectedFunctionName);
        }
        let name = self.tokens[p1].value.clone();
        let p2 = if p1 + 1 < self.tokens.len() && self.tokens[p1 + 1].type_ == TokenType::LParen {
            match self.eat(p1 + 2, TokenType::RParen) {
                Ok(p) => p,
                Err(e) => {
                    return Err(e);
                },
            }
        } else {
            p1 + 1
        };
        let p3 = match self.eat(p2, TokenType::LBrace) {
            Ok(p) => p,
            Err(e) => {
                return Err(e);
            },
        };
        let (body, p4) = match self.parse_body(p3) {
            Ok(x) => x,
            Err(e) => {
                return Err(e);
            },
        };
        let p5 = match self.eat(p4, TokenType::RBrace) {
            Ok(p) => p,
            Err(e) => {
                return Err(e);
            },
        };
        let p6 = if p5 < self.tokens.len() && self.tokens[p5].type_ == TokenType::Semicolon {
            p5 + 1
        } else {
            p5
        };
        Ok((ASTNode::Fun { name, body }, p6))
    }

    fn parse_statement(&self, pos: usize) -> (r: Result<(ASTNode, usize), ParseError>)
        requires
            pos <= self.tokens@.len(),
        ensures
            r matches Ok(np) ==> spec_parse_statement(self.toks(), pos as int) == Ok::<
                (AstModel, int),
                ParseError,
            >((np.0@, np.1 as int)) && pos < np.1 <= self.tokens@.len(),
            r matches Err(e) ==> spec_parse_statement(self.toks(), pos as int) == Err::<
                (AstModel, int),
                ParseError,
            >(e),
        decreases self.tokens@.len() - pos, 2int,
    {
        if pos >= self.tokens.len() {
            return Err(ParseError::UnexpectedEof);
        }
        let k = self.tokens[pos].type_;
        match k {
            TokenType::Let => self.parse_let(pos),
            TokenType::Print => self.parse_print(pos),
            TokenType::Method => self.parse_method(pos),
            TokenType::Fun => self.parse_fun(pos),
            TokenType::Back => self.parse_back(pos),
            TokenType::Identifier => {
                if pos + 1 < self.tokens.len() && self.tokens[pos + 1].type_ == TokenType::Assign {
                    let name = self.tokens[pos].value.clone();
                    let (value, p) = match self.parse_expression(pos + 2) {
                        Ok(x) => x,
                        Err(e) => {
                            return Err(e);
                        },
                    };
                    let p2 = match self.eat(p, TokenType::Semicolon) {
                        Ok(q) => q,
                        Err(e) => {
                            return Err(e);
                        },
                    };
                    Ok((ASTNode::Assign { name, value: Box::new(value) }, p2))
                } else {
                    let func_name = self.tokens[pos].value.clone();
                    let (call, p) = match self.parse_function_call(func_name, pos + 1) {
                        Ok(x) => x,
                        Err(e) => {
                            return Err(e);
                        },
                    };
                    let p2 = match self.eat(p, TokenType::Semicolon) {
                        Ok(q) => q,
                        Err(e) => {
                            return Err(e);
                        },
                    };
                    Ok((call, p2))
                }
            },
            _ => Err(ParseError::UnexpectedToken { got: k }),
        }
    }

    /// Parse statements until the tokens run out. All-or-nothing: the first
    /// malformed construct aborts the pass, and no partial list is returned.
    pub fn parse(&mut self) -> (r: Result<Vec<ASTNode>, ParseError>)
        ensures
            final(self).tokens@ == old(self).tokens@,
            r matches Ok(nodes) ==> spec_parse_program(
                tokens_view(old(self).tokens@),
                old(self).pos as int,
            ) == Ok::<Seq<AstModel>, ParseError>(nodes_view(nodes@)),
            r matches Err(e) ==> spec_parse_program(
                tokens_view(old(self).tokens@),
                old(self).pos as int,
            ) == Err::<Seq<AstModel>, ParseError>(e),
    {
        let mut statements: Vec<ASTNode> = Vec::new();

        while self.pos < self.tokens.len()
            invariant
                self.tokens@ == old(self).tokens@,
                spec_parse_program(self.toks(), old(self).pos as int) == program_append(
                    nodes_view(statements@),
                    spec_parse_program(self.toks(), self.pos as int),
                ),
            decreases self.tokens@.len() - self.pos,
        {
            let ghost stmt_pos = self.pos as int;
            let (stmt, p2) = match self.parse_statement(self.pos) {
                Ok(x) => x,
                Err(e) => {
                    return Err(e);
                },
            };
            proof {
                let toks = self.toks();
                assert(step_pos(toks.len() as int, stmt_pos, p2 as int) == p2 as int);
                let tail = spec_parse_program(toks, p2 as int);
                if let Ok(rest) = tail {
                    crate::ast::lemma_nodes_view_push(statements@, stmt);
                    assert(nodes_view(statements@) + (seq![stmt@] + rest) =~= nodes_view(
                        statements@.push(stmt),
                    ) + rest);
                }
            }
            statements.push(stmt);
            self.pos = p2;
        }
        proof {
            assert(nodes_view(statements@) + Seq::<AstModel>::empty() =~= nodes_view(statements@));
        }
        Ok(statements)
    }
}

} // verus!
