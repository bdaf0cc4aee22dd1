//! The parser: recursive descent over the token sequence with precedence
//! climbing for the two operator tiers.
//!
//! The grammar, statements first:
//!
//! ```text
//! program    := statement* (collected into a Sequence node)
//! statement  := 'let' Identifier '=' expression ';'  |  expression
//! expression := term (('+' | '-') term)*             (left-associative)
//! term       := factor (('*' | '/') factor)*         (left-associative)
//! factor     := Number | 'wait' '(' Number ')' | 'print' '(' expression ')'
//!             | Identifier | '(' expression ')'
//! ```
//!
//! `wait` deliberately accepts only a bare integer literal while `print`
//! accepts a full expression; the asymmetry is part of the language.

use vstd::prelude::*;

use crate::node::{lemma_nodes_view_push, nodes_view, Node, NodeV};
use crate::token::{tokens_view, Token, TokenV};

verus! {

broadcast use lemma_nodes_view_push;

/// How parsing can fail, one variant per grammar production that can be
/// violated. Premature end of input is reported as the error of the
/// production that was underway, except where a factor was expected and the
/// input simply stopped.
#[derive(Debug, Clone, Copy, PartialEq, Eq, Structural)]
pub enum ParseError {
    /// The token after `let` is not an identifier, or the input ends there.
    MissingLetIdentifier,
    /// No `=` after the declared name.
    MissingLetEqual,
    /// No `;` after the declaration's expression.
    MissingLetSemicolon,
    /// No `(` after the `wait` keyword.
    MissingWaitOpen,
    /// The argument of `wait` is not a bare integer literal.
    MissingWaitNumber,
    /// No `)` after the argument of `wait`.
    MissingWaitClose,
    /// No `(` after the `print` keyword.
    MissingPrintOpen,
    /// No `)` after the argument of `print`.
    MissingPrintClose,
    /// No `)` closing a parenthesized expression.
    MissingGroupClose,
    /// A token that cannot begin a factor.
    UnexpectedToken,
    /// The input ended where a factor was expected.
    UnexpectedEnd,
}

/// The outcome of one grammar production: the node it built together with
/// the position just past the tokens it consumed, or a parse error.
///
/// `Stuck` marks the branches where a sub-production would have reported
/// success without consuming any token; no production does, so `Stuck` is
/// never the value of [`parse_spec`] on any input, and the executable parser
/// proves its results are never `Stuck`.
pub enum ParseOut {
    Parsed(NodeV, nat),
    Failed(ParseError),
    Stuck,
}

/// One factor: a literal, a `wait` or `print` call, a variable reference or
/// a parenthesized expression.
pub open spec fn sp_factor(toks: Seq<TokenV>, pos: nat) -> ParseOut
    decreases toks.len() - pos, 0nat,
{
    if pos >= toks.len() {
        ParseOut::Failed(ParseError::UnexpectedEnd)
    } else {
        match toks[pos as int] {
            TokenV::Number(v) => ParseOut::Parsed(NodeV::Number(v), (pos + 1) as nat),
            TokenV::WaitKeyword => {
                if pos + 1 < toks.len() && (toks[pos as int + 1] is LeftParenthesis) {
                    if pos + 2 < toks.len() && (toks[pos as int + 2] is Number) {
                        if pos + 3 < toks.len() && (toks[pos as int + 3] is RightParenthesis) {
                            ParseOut::Parsed(
                                NodeV::Wait(toks[pos as int + 2]->Number_0),
                                (pos + 4) as nat,
                            )
                        } else {
                            ParseOut::Failed(ParseError::MissingWaitClose)
                        }
                    } else {
                        ParseOut::Failed(ParseError::MissingWaitNumber)
                    }
                } else {
                    ParseOut::Failed(ParseError::MissingWaitOpen)
                }
            },
            TokenV::PrintKeyword => {
                if pos + 1 < toks.len() && (toks[pos as int + 1] is LeftParenthesis) {
                    match sp_expression(toks, (pos + 2) as nat) {
                        ParseOut::Parsed(argument, p) => {
                            if p < toks.len() && (toks[p as int] is RightParenthesis) {
                                ParseOut::Parsed(NodeV::Print(Box::new(argument)), (p + 1) as nat)
                            } else {
                                ParseOut::Failed(ParseError::MissingPrintClose)
                            }
                        },
                        other => other,
                    }
                } else {
                    ParseOut::Failed(ParseError::MissingPrintOpen)
                }
            },
            TokenV::Identifier(name) => ParseOut::Parsed(NodeV::Variable(name), (pos + 1) as nat),
            TokenV::LeftParenthesis => {
                match sp_expression(toks, (pos + 1) as nat) {
                    ParseOut::Parsed(inner, p) => {
                        if p < toks.len() && (toks[p as int] is RightParenthesis) {
                            ParseOut::Parsed(inner, (p + 1) as nat)
                        } else {
                            ParseOut::Failed(ParseError::MissingGroupClose)
                        }
                    },
                    other => other,
                }
            },
            _ => ParseOut::Failed(ParseError::UnexpectedToken),
        }
    }
}

/// The left-associative `*` and `/` chain that may follow a factor.
pub open spec fn sp_term_more(toks: Seq<TokenV>, acc: NodeV, pos: nat) -> ParseOut
    decreases toks.len() - pos, 0nat,
{
    if pos < toks.len() && ((toks[pos as int] is Multiply) || (toks[pos as int] is Divide)) {
        match sp_factor(toks, (pos + 1) as nat) {
            ParseOut::Parsed(right, p) => {
                if pos < p <= toks.len() {
                    sp_term_more(
                        toks,
                        if toks[pos as int] is Multiply {
                            NodeV::Multiply(Box::new(acc), Box::new(right))
                        } else {
                            NodeV::Divide(Box::new(acc), Box::new(right))
                        },
                        p,
                    )
                } else {
                    ParseOut::Stuck
                }
            },
            other => other,
        }
    } else {
        ParseOut::Parsed(acc, pos)
    }
}

/// One term: a factor followed by its `*` and `/` chain.
pub open spec fn sp_term(toks: Seq<TokenV>, pos: nat) -> ParseOut
    decreases toks.len() - pos, 1nat,
{
    match sp_factor(toks, pos) {
        ParseOut::Parsed(first, p) => {
            if pos < p <= toks.len() {
                sp_term_more(toks, first, p)
            } else {
                ParseOut::Stuck
            }
        },
        other => other,
    }
}

/// The left-associative `+` and `-` chain that may follow a term.
pub open spec fn sp_expression_more(toks: Seq<TokenV>, acc: NodeV, pos: nat) -> ParseOut
    decreases toks.len() - pos, 0nat,
{
    if pos < toks.len() && ((toks[pos as int] is Plus) || (toks[pos as int] is Minus)) {
        match sp_term(toks, (pos + 1) as nat) {
            ParseOut::Parsed(right, p) => {
                if pos < p <= toks.len() {
                    sp_expression_more(
                        toks,
                        if toks[pos as int] is Plus {
                            NodeV::Add(Box::new(acc), Box::new(right))
                        } else {
                            NodeV::Subtract(Box::new(acc), Box::new(right))
                        },
                        p,
                    )
                } else {
                    ParseOut::Stuck
                }
            },
            other => other,
        }
    } else {
        ParseOut::Parsed(acc, pos)
    }
}

/// One expression: a term followed by its `+` and `-` chain. `*` and `/`
/// bind tighter because they are consumed inside each term.
pub open spec fn sp_expression(toks: Seq<TokenV>, pos: nat) -> ParseOut
    decreases toks.len() - pos, 2nat,
{
    match sp_term(toks, pos) {
        ParseOut::Parsed(first, p) => {
            if pos < p <= toks.len() {
                sp_expression_more(toks, first, p)
            } else {
                ParseOut::Stuck
            }
        },
        other => other,
    }
}

/// The whole program: statements parsed until the tokens are exhausted,
/// collected into a `Sequence` node in source order.
pub open spec fn sp_program(toks: Seq<TokenV>, pos: nat, stmts: Seq<NodeV>) -> ParseOut
    decreases toks.len() - pos, 3nat,
{
    if pos >= toks.len() {
        ParseOut::Parsed(NodeV::Sequence(stmts), pos)
    } else if toks[pos as int] is LetKeyword {
        if pos + 1 < toks.len() && (toks[pos as int + 1] is Identifier) {
            if pos + 2 < toks.len() && (toks[pos as int + 2] is Equal) {
                match sp_expression(toks, (pos + 3) as nat) {
                    ParseOut::Parsed(value, p) => {
                        if p < toks.len() && (toks[p as int] is Semicolon) {
                            if pos < p + 1 {
                                sp_program(
                                    toks,
                                    (p + 1) as nat,
                                    stmts.push(
                                        NodeV::VariableDeclaration(
                                            toks[pos as int + 1]->Identifier_0,
                                            Box::new(value),
                                        ),
                                    ),
                                )
                            } else {
                                ParseOut::Stuck
                            }
                        } else {
                            ParseOut::Failed(ParseError::MissingLetSemicolon)
                        }
                    },
                    other => other,
                }
            } else {
                ParseOut::Failed(ParseError::MissingLetEqual)
            }
        } else {
            ParseOut::Failed(ParseError::MissingLetIdentifier)
        }
    } else {
        match sp_expression(toks, pos) {
            ParseOut::Parsed(statement, p) => {
                if pos < p <= toks.len() {
                    sp_program(toks, p, stmts.push(statement))
                } else {
                    ParseOut::Stuck
                }
            },
            other => other,
        }
    }
}

/// What a token sequence parses to: the root node and the full consumed
/// length, or the first parse error.
pub open spec fn parse_spec(toks: Seq<TokenV>) -> ParseOut {
    sp_program(toks, 0, Seq::empty())
}

fn is_left_paren(t: &Token) -> (b: bool)
    ensures
        b == (t@ is LeftParenthesis),
{
    match t {
        Token::LeftParenthesis => true,
        _ => false,
    }
}

fn is_right_paren(t: &Token) -> (b: bool)
    ensures
        b == (t@ is RightParenthesis),
{
    match t {
        Token::RightParenthesis => true,
        _ => false,
    }
}

fn is_multiply(t: &Token) -> (b: bool)
    ensures
        b == (t@ is Multiply),
{
    match t {
        Token::Multiply => true,
        _ => false,
    }
}

fn is_divide(t: &Token) -> (b: bool)
    ensures
        b == (t@ is Divide),
{
    match t {
        Token::Divide => true,
        _ => false,
    }
}

fn is_plus(t: &Token) -> (b: bool)
    ensures
        b == (t@ is Plus),
{
    match t {
        Token::Plus => true,
        _ => false,
    }
}

fn is_minus(t: &Token) -> (b: bool)
    ensures
        b == (t@ is Minus),
{
    match t {
        Token::Minus => true,
        _ => false,
    }
}

fn is_equal(t: &Token) -> (b: bool)
    ensures
        b == (t@ is Equal),
{
    match t {
        Token::Equal => true,
        _ => false,
    }
}

fn is_semicolon(t: &Token) -> (b: bool)
    ensures
        b == (t@ is Semicolon),
{
    match t {
        Token::Semicolon => true,
        _ => false,
    }
}

fn is_let(t: &Token) -> (b: bool)
    ensures
        b == (t@ is LetKeyword),
{
    match t {
        Token::LetKeyword => true,
        _ => false,
    }
}

/// Parses one factor at `*pos`, leaving `*pos` just past what it consumed.
pub fn parse_factor(tokens: &Vec<Token>, pos: &mut usize) -> (r: Result<Node, ParseError>)
    requires
        *old(pos) <= tokens@.len(),
    ensures
        ({
            let toks = tokens_view(tokens@);
            match r {
                Ok(n) => sp_factor(toks, *old(pos) as nat) == ParseOut::Parsed(
                    n@,
                    *final(pos) as nat,
                ) && *old(pos) < *final(pos) <= tokens@.len(),
                Err(e) => sp_factor(toks, *old(pos) as nat) == ParseOut::Failed(e),
            }
        }),
    decreases tokens@.len() - *old(pos), 0nat,
{
    if *pos >= tokens.len() {
        return Err(ParseError::UnexpectedEnd);
    }
    match &tokens[*pos] {
        Token::Number(v) => {
            let node = Node::Number(*v);
            *pos = *pos + 1;
            Ok(node)
        },
        Token::WaitKeyword => {
            if *pos + 1 < tokens.len() && is_left_paren(&tokens[*pos + 1]) {
                if *pos + 2 < tokens.len() {
                    match &tokens[*pos + 2] {
                        Token::Number(v) => {
                            if *pos + 3 < tokens.len() && is_right_paren(&tokens[*pos + 3]) {
                                let node = Node::Wait(*v);
                                *pos = *pos + 4;
                                Ok(node)
                            } else {
                                Err(ParseError::MissingWaitClose)
                            }
                        },
                        _ => Err(ParseError::MissingWaitNumber),
                    }
                } else {
                    Err(ParseError::MissingWaitNumber)
                }
            } else {
                Err(ParseError::MissingWaitOpen)
            }
        },
        Token::PrintKeyword => {
            if *pos + 1 < tokens.len() && is_left_paren(&tokens[*pos + 1]) {
                *pos = *pos + 2;
                let argument = match parse_expression(tokens, pos) {
                    Ok(n) => n,
                    Err(e) => {
                        return Err(e);
                    },
                };
                if *pos < tokens.len() && is_right_paren(&tokens[*pos]) {
                    *pos = *pos + 1;
                    Ok(Node::Print(Box::new(argument)))
                } else {
                    Err(ParseError::MissingPrintClose)
                }
            } else {
                Err(ParseError::MissingPrintOpen)
            }
        },
        Token::Identifier(name) => {
            let node = Node::Variable(name.clone());
            *pos = *pos + 1;
            Ok(node)
        },
        Token::LeftParenthesis => {
            *pos = *pos + 1;
            let inner = match parse_expression(tokens, pos) {
                Ok(n) => n,
                Err(e) => {
                    return Err(e);
                },
            };
            if *pos < tokens.len() && is_right_paren(&tokens[*pos]) {
                *pos = *pos + 1;
                Ok(inner)
            } else {
                Err(ParseError::MissingGroupClose)
            }
        },
        _ => Err(ParseError::UnexpectedToken),
    }
}

/// Parses one term at `*pos`: a factor and its left-associative `*`/`/`
/// chain.
#[verifier::loop_isolation(false)]
pub fn parse_term(tokens: &Vec<Token>, pos: &mut usize) -> (r: Result<Node, ParseError>)
    requires
        *old(pos) <= tokens@.len(),
    ensures
        ({
            let toks = tokens_view(tokens@);
            match r {
                Ok(n) => sp_term(toks, *old(pos) as nat) == ParseOut::Parsed(n@, *final(pos) as nat)
                    && *old(pos) < *final(pos) <= tokens@.len(),
                Err(e) => sp_term(toks, *old(pos) as nat) == ParseOut::Failed(e),
            }
        }),
    decreases tokens@.len() - *old(pos), 1nat,
{
    let ghost toks = tokens_view(tokens@);
    let ghost pos0 = *pos as nat;
    let mut node = match parse_factor(tokens, pos) {
        Ok(n) => n,
        Err(e) => {
            return Err(e);
        },
    };
    while *pos < tokens.len() && (is_multiply(&tokens[*pos]) || is_divide(&tokens[*pos]))
        invariant
            tokens_view(tokens@) == toks,
            pos0 < *pos <= tokens@.len(),
            sp_term(toks, pos0) == sp_term_more(toks, node@, *pos as nat),
        decreases tokens@.len() - *pos,
    {
        let mul = is_multiply(&tokens[*pos]);
        *pos = *pos + 1;
        let right = match parse_factor(tokens, pos) {
            Ok(n) => n,
            Err(e) => {
                return Err(e);
            },
        };
        node = if mul {
            Node::Multiply(Box::new(node), Box::new(right))
        } else {
            Node::Divide(Box::new(node), Box::new(right))
        };
    }
    Ok(node)
}

/// Parses one expression at `*pos`: a term and its left-associative `+`/`-`
/// chain.
#[verifier::loop_isolation(false)]
pub fn parse_expression(tokens: &Vec<Token>, pos: &mut usize) -> (r: Result<Node, ParseError>)
    requires
        *old(pos) <= tokens@.len(),
    ensures
        ({
            let toks = tokens_view(tokens@);
            match r {
                Ok(n) => sp_expression(toks, *old(pos) as nat) == ParseOut::Parsed(
                    n@,
                    *final(pos) as nat,
                ) && *old(pos) < *final(pos) <= tokens@.len(),
                Err(e) => sp_expression(toks, *old(pos) as nat) == ParseOut::Failed(e),
            }
        }),
    decreases tokens@.len() - *old(pos), 2nat,
{
    let ghost toks = tokens_view(tokens@);
    let ghost pos0 = *pos as nat;
    let mut node = match parse_term(tokens, pos) {
        Ok(n) => n,
        Err(e) => {
            return Err(e);
        },
    };
    while *pos < tokens.len() && (is_plus(&tokens[*pos]) || is_minus(&tokens[*pos]))
        invariant
            tokens_view(tokens@) == toks,
            pos0 < *pos <= tokens@.len(),
            sp_expression(toks, pos0) == sp_expression_more(toks, node@, *pos as nat),
        decreases tokens@.len() - *pos,
    {
        let plus = is_plus(&tokens[*pos]);
        *pos = *pos + 1;
        let right = match parse_term(tokens, pos) {
            Ok(n) => n,
            Err(e) => {
                return Err(e);
            },
        };
        node = if plus {
            Node::Add(Box::new(node), Box::new(right))
        } else {
            Node::Subtract(Box::new(node), Box::new(right))
        };
    }
    Ok(node)
}

/// Parses a whole token sequence into the program's root node, consuming
/// every token, or reports the first parse error.
pub fn parse(tokens: &Vec<Token>) -> (r: Result<Node, ParseError>)
    ensures
        ({
            let toks = tokens_view(tokens@);
            match r {
                Ok(n) => parse_spec(toks) == ParseOut::Parsed(n@, tokens@.len() as nat),
                Err(e) => parse_spec(toks) == ParseOut::Failed(e),
            }
        }),
{
    let ghost toks = tokens_view(tokens@);
    let mut statements: Vec<Node> = Vec::new();
    let mut pos: usize = 0;
    proof {
        assert(nodes_view(statements@) =~= Seq::<NodeV>::empty());
    }
    while pos < tokens.len()
        invariant
            tokens_view(tokens@) == toks,
            pos <= tokens@.len(),
            sp_program(toks, 0, Seq::empty()) == sp_program(toks, pos as nat, nodes_view(statements@)),
        decreases tokens@.len() - pos,
    {
        if is_let(&tokens[pos]) {
            if pos + 1 >= tokens.len() {
                return Err(ParseError::MissingLetIdentifier);
            }
            let name: String = match &tokens[pos + 1] {
                Token::Identifier(s) => s.clone(),
                _ => {
                    return Err(ParseError::MissingLetIdentifier);
                },
            };
            if pos + 2 >= tokens.len() || !is_equal(&tokens[pos + 2]) {
                return Err(ParseError::MissingLetEqual);
            }
            pos = pos + 3;
            let value = match parse_expression(tokens, &mut pos) {
                Ok(n) => n,
                Err(e) => {
                    return Err(e);
                },
            };
            if pos >= tokens.len() || !is_semicolon(&tokens[pos]) {
                return Err(ParseError::MissingLetSemicolon);
            }
            statements.push(Node::VariableDeclaration(name, Box::new(value)));
            pos = pos + 1;
        } else {
            let statement = match parse_expression(tokens, &mut pos) {
                Ok(n) => n,
                Err(e) => {
                    return Err(e);
                },
            };
            statements.push(statement);
        }
    }
    proof {
        crate::node::lemma_sequence_view(statements);
    }
    Ok(Node::Sequence(statements))
}

} // verus!
