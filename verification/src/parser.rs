use vstd::prelude::*;
use crate::ast::{expr_wf, Node, NodeV, Operator};
use crate::errors::{CalcError, ErrorV};
use crate::lexer::{lex_all, literal_shape, tokens_shaped, Lexer};
use crate::token::{Token, TokenType, TokenV, tokens_view};

verus! {

/// The token at position `i`, or the error for reading past the stream.
pub open spec fn p_get(toks: Seq<TokenV>, i: int) -> Result<TokenV, ErrorV> {
    if 0 <= i < toks.len() {
        Ok(toks[i])
    } else {
        Err(ErrorV::TokenOutOfBounds)
    }
}

/// The syntax error raised when `tok` stands where `expected` was required.
pub open spec fn syn_err(tok: TokenV, expected: TokenType) -> ErrorV {
    ErrorV::Syntax { offset: tok.start, expected }
}

pub open spec fn tok_at(toks: Seq<TokenV>, i: int, tt: TokenType) -> bool {
    0 <= i < toks.len() && toks[i].token == tt
}

/// factor := NUMBER | '(' expr ')' | IDENT '(' expr ')' | IDENT
pub open spec fn p_factor(toks: Seq<TokenV>, i: int) -> Result<(NodeV, int), ErrorV>
    decreases toks.len() - i, 0int
        when 0 <= i
{
    match p_get(toks, i) {
        Err(e) => Err(e),
        Ok(tok) => match tok.token {
            TokenType::Number => Ok((NodeV::Number(tok.value), i + 1)),
            TokenType::LParen => match p_expr(toks, i + 1) {
                Err(e) => Err(e),
                Ok((inner, j)) => match p_get(toks, j) {
                    Err(e) => Err(e),
                    Ok(t2) => if t2.token == TokenType::RParen {
                        Ok((inner, j + 1))
                    } else {
                        Err(syn_err(t2, TokenType::RParen))
                    },
                },
            },
            TokenType::Ident => match p_get(toks, i + 1) {
                Err(e) => Err(e),
                Ok(t2) => if t2.token == TokenType::LParen {
                    match p_expr(toks, i + 2) {
                        Err(e) => Err(e),
                        Ok((inner, j)) => match p_get(toks, j) {
                            Err(e) => Err(e),
                            Ok(t3) => if t3.token == TokenType::RParen {
                                Ok((NodeV::Function(tok.value, Box::new(inner)), j + 1))
                            } else {
                                Err(syn_err(t3, TokenType::RParen))
                            },
                        },
                    }
                } else {
                    Ok((NodeV::Const(tok.value), i + 1))
                },
            },
            _ => Err(syn_err(tok, TokenType::Number)),
        },
    }
}

/// exp := factor ('^' factor)*, folded left.
pub open spec fn p_exp(toks: Seq<TokenV>, i: int) -> Result<(NodeV, int), ErrorV>
    decreases toks.len() - i, 2int
        when 0 <= i
{
    match p_factor(toks, i) {
        Err(e) => Err(e),
        Ok((first, j)) => if i < j <= toks.len() {
            p_exp_tail(toks, j, first)
        } else {
            // never reached: a successful parse advances
            Err(ErrorV::TokenOutOfBounds)
        },
    }
}

pub open spec fn p_exp_tail(toks: Seq<TokenV>, i: int, acc: NodeV) -> Result<(NodeV, int), ErrorV>
    decreases toks.len() - i, 1int
        when 0 <= i
{
    match p_get(toks, i) {
        Err(e) => Err(e),
        Ok(tok) => if tok.token == TokenType::Exp {
            match p_factor(toks, i + 1) {
                Err(e) => Err(e),
                Ok((f, j)) => if i + 1 < j <= toks.len() {
                    p_exp_tail(toks, j, NodeV::Expr(Box::new(acc), Operator::Pow, Box::new(f)))
                } else {
                    // never reached: a successful parse advances
                    Err(ErrorV::TokenOutOfBounds)
                },
            }
        } else {
            Ok((acc, i))
        },
    }
}

/// term := exp (('*' | '/') exp)*, folded left.
pub open spec fn p_term(toks: Seq<TokenV>, i: int) -> Result<(NodeV, int), ErrorV>
    decreases toks.len() - i, 4int
        when 0 <= i
{
    match p_exp(toks, i) {
        Err(e) => Err(e),
        Ok((first, j)) => if i < j <= toks.len() {
            p_term_tail(toks, j, first)
        } else {
            // never reached: a successful parse advances
            Err(ErrorV::TokenOutOfBounds)
        },
    }
}

pub open spec fn p_term_tail(toks: Seq<TokenV>, i: int, acc: NodeV) -> Result<(NodeV, int), ErrorV>
    decreases toks.len() - i, 3int
        when 0 <= i
{
    match p_get(toks, i) {
        Err(e) => Err(e),
        Ok(tok) => if tok.token == TokenType::Mult || tok.token == TokenType::Div {
            let op = if tok.token == TokenType::Mult {
                Operator::Mult
            } else {
                Operator::Div
            };
            match p_exp(toks, i + 1) {
                Err(e) => Err(e),
                Ok((f, j)) => if i + 1 < j <= toks.len() {
                    p_term_tail(toks, j, NodeV::Expr(Box::new(acc), op, Box::new(f)))
                } else {
                    // never reached: a successful parse advances
                    Err(ErrorV::TokenOutOfBounds)
                },
            }
        } else {
            Ok((acc, i))
        },
    }
}

/// expr := term (('+' | '-') term)*, folded left.
pub open spec fn p_expr(toks: Seq<TokenV>, i: int) -> Result<(NodeV, int), ErrorV>
    decreases toks.len() - i, 6int
        when 0 <= i
{
    match p_term(toks, i) {
        Err(e) => Err(e),
        Ok((first, j)) => if i < j <= toks.len() {
            p_expr_tail(toks, j, first)
        } else {
            // never reached: a successful parse advances
            Err(ErrorV::TokenOutOfBounds)
        },
    }
}

pub open spec fn p_expr_tail(toks: Seq<TokenV>, i: int, acc: NodeV) -> Result<(NodeV, int), ErrorV>
    decreases toks.len() - i, 5int
        when 0 <= i
{
    match p_get(toks, i) {
        Err(e) => Err(e),
        Ok(tok) => if tok.token == TokenType::Add || tok.token == TokenType::Sub {
            let op = if tok.token == TokenType::Add {
                Operator::Plus
            } else {
                Operator::Minus
            };
            match p_term(toks, i + 1) {
                Err(e) => Err(e),
                Ok((f, j)) => if i + 1 < j <= toks.len() {
                    p_expr_tail(toks, j, NodeV::Expr(Box::new(acc), op, Box::new(f)))
                } else {
                    // never reached: a successful parse advances
                    Err(ErrorV::TokenOutOfBounds)
                },
            }
        } else {
            Ok((acc, i))
        },
    }
}

/// assignment := IDENT '(' IDENT ')' '=' expr | IDENT '=' expr | expr,
/// told apart by looking ahead in the token stream.
pub open spec fn p_assign(toks: Seq<TokenV>, i: int) -> Result<(NodeV, int), ErrorV>
    decreases toks.len() - i, 7int
        when 0 <= i
{
    if tok_at(toks, i, TokenType::Ident) && tok_at(toks, i + 1, TokenType::Assign) {
        match p_expr(toks, i + 2) {
            Err(e) => Err(e),
            Ok((e, j)) => Ok((NodeV::AssignConst(toks[i].value, Box::new(e)), j)),
        }
    } else if tok_at(toks, i, TokenType::Ident) && tok_at(toks, i + 1, TokenType::LParen) && tok_at(
        toks,
        i + 2,
        TokenType::Ident,
    ) && tok_at(toks, i + 3, TokenType::RParen) && tok_at(toks, i + 4, TokenType::Assign) {
        match p_expr(toks, i + 5) {
            Err(e) => Err(e),
            Ok((b, j)) => Ok((NodeV::AssignFunc(toks[i].value, toks[i + 2].value, Box::new(b)), j)),
        }
    } else {
        p_expr(toks, i)
    }
}

/// line := assignment EOI
pub open spec fn p_calc(toks: Seq<TokenV>, i: int) -> Result<(NodeV, int), ErrorV> {
    match p_assign(toks, i) {
        Err(e) => Err(e),
        Ok((n, j)) => match p_get(toks, j) {
            Err(e) => Err(e),
            Ok(tok) => if tok.token == TokenType::EOI {
                Ok((n, j + 1))
            } else {
                Err(syn_err(tok, TokenType::EOI))
            },
        },
    }
}

/// The syntax tree of one line of source text: lexing then parsing.
pub open spec fn parse_spec(text: Seq<char>) -> Result<NodeV, ErrorV> {
    match lex_all(text) {
        Err((off, c)) => Err(ErrorV::InvalidCharacter { offset: off as nat, found: c }),
        Ok(toks) => match p_calc(toks, 0) {
            Err(e) => Err(e),
            Ok((n, _)) => Ok(n),
        },
    }
}

/// Every numeric literal in a syntax tree has the shape the lexer produces:
/// digits, optionally a decimal point and more digits.
pub open spec fn node_literals_shaped(n: NodeV) -> bool
    decreases n,
{
    match n {
        NodeV::Number(s) => literal_shape(s),
        NodeV::Expr(l, _, r) => node_literals_shaped(*l) && node_literals_shaped(*r),
        NodeV::Function(_, arg) => node_literals_shaped(*arg),
        NodeV::Const(_) => true,
        NodeV::AssignConst(_, e) => node_literals_shaped(*e),
        NodeV::AssignFunc(_, _, b) => node_literals_shaped(*b),
    }
}

/// A successful parse consumes at least one token, stays inside the stream,
/// and builds an assignment-free expression whose literals, when the tokens
/// are the lexer's, keep the lexer's literal shape.
proof fn lemma_factor_ok(toks: Seq<TokenV>, i: int)
    requires
        0 <= i,
    ensures
        p_factor(toks, i) matches Ok((n, j)) ==> i < j <= toks.len() && expr_wf(n) && (tokens_shaped(toks)
            ==> node_literals_shaped(n)),
    decreases toks.len() - i, 0int,
{
    if 0 <= i < toks.len() {
        let tok = toks[i];
        if tok.token == TokenType::LParen {
            lemma_expr_ok(toks, i + 1);
        } else if tok.token == TokenType::Ident {
            if 0 <= i + 1 < toks.len() && toks[i + 1].token == TokenType::LParen {
                lemma_expr_ok(toks, i + 2);
            }
        }
    }
}

proof fn lemma_exp_ok(toks: Seq<TokenV>, i: int)
    requires
        0 <= i,
    ensures
        p_exp(toks, i) matches Ok((n, j)) ==> i < j <= toks.len() && expr_wf(n) && (tokens_shaped(toks)
            ==> node_literals_shaped(n)),
    decreases toks.len() - i, 2int,
{
    lemma_factor_ok(toks, i);
    match p_factor(toks, i) {
        Ok((first, j)) => {
            if i < j <= toks.len() {
                lemma_exp_tail_ok(toks, j, first);
            }
        },
        Err(_) => {},
    }
}

proof fn lemma_exp_tail_ok(toks: Seq<TokenV>, i: int, acc: NodeV)
    requires
        0 <= i,
        expr_wf(acc),
    ensures
        p_exp_tail(toks, i, acc) matches Ok((n, j)) ==> i <= j <= toks.len() && expr_wf(n) && (tokens_shaped(
            toks,
        ) && node_literals_shaped(acc) ==> node_literals_shaped(n)),
    decreases toks.len() - i, 1int,
{
    if 0 <= i < toks.len() && toks[i].token == TokenType::Exp {
        lemma_factor_ok(toks, i + 1);
        match p_factor(toks, i + 1) {
            Ok((f, j)) => {
                if i + 1 < j <= toks.len() {
                    lemma_exp_tail_ok(
                        toks,
                        j,
                        NodeV::Expr(Box::new(acc), Operator::Pow, Box::new(f)),
                    );
                }
            },
            Err(_) => {},
        }
    }
}

proof fn lemma_term_ok(toks: Seq<TokenV>, i: int)
    requires
        0 <= i,
    ensures
        p_term(toks, i) matches Ok((n, j)) ==> i < j <= toks.len() && expr_wf(n) && (tokens_shaped(toks)
            ==> node_literals_shaped(n)),
    decreases toks.len() - i, 4int,
{
    lemma_exp_ok(toks, i);
    match p_exp(toks, i) {
        Ok((first, j)) => {
            if i < j <= toks.len() {
                lemma_term_tail_ok(toks, j, first);
            }
        },
        Err(_) => {},
    }
}

proof fn lemma_term_tail_ok(toks: Seq<TokenV>, i: int, acc: NodeV)
    requires
        0 <= i,
        expr_wf(acc),
    ensures
        p_term_tail(toks, i, acc) matches Ok((n, j)) ==> i <= j <= toks.len() && expr_wf(n) && (tokens_shaped(
            toks,
        ) && node_literals_shaped(acc) ==> node_literals_shaped(n)),
    decreases toks.len() - i, 3int,
{
    if 0 <= i < toks.len() && (toks[i].token == TokenType::Mult || toks[i].token
        == TokenType::Div) {
        let op = if toks[i].token == TokenType::Mult {
            Operator::Mult
        } else {
            Operator::Div
        };
        lemma_exp_ok(toks, i + 1);
        match p_exp(toks, i + 1) {
            Ok((f, j)) => {
                if i + 1 < j <= toks.len() {
                    lemma_term_tail_ok(toks, j, NodeV::Expr(Box::new(acc), op, Box::new(f)));
                }
            },
            Err(_) => {},
        }
    }
}

proof fn lemma_expr_ok(toks: Seq<TokenV>, i: int)
    requires
        0 <= i,
    ensures
        p_expr(toks, i) matches Ok((n, j)) ==> i < j <= toks.len() && expr_wf(n) && (tokens_shaped(toks)
            ==> node_literals_shaped(n)),
    decreases toks.len() - i, 6int,
{
    lemma_term_ok(toks, i);
    match p_term(toks, i) {
        Ok((first, j)) => {
            if i < j <= toks.len() {
                lemma_expr_tail_ok(toks, j, first);
            }
        },
        Err(_) => {},
    }
}

proof fn lemma_expr_tail_ok(toks: Seq<TokenV>, i: int, acc: NodeV)
    requires
        0 <= i,
        expr_wf(acc),
    ensures
        p_expr_tail(toks, i, acc) matches Ok((n, j)) ==> i <= j <= toks.len() && expr_wf(n) && (tokens_shaped(
            toks,
        ) && node_literals_shaped(acc) ==> node_literals_shaped(n)),
    decreases toks.len() - i, 5int,
{
    if 0 <= i < toks.len() && (toks[i].token == TokenType::Add || toks[i].token
        == TokenType::Sub) {
        let op = if toks[i].token == TokenType::Add {
            Operator::Plus
        } else {
            Operator::Minus
        };
        lemma_term_ok(toks, i + 1);
        match p_term(toks, i + 1) {
            Ok((f, j)) => {
                if i + 1 < j <= toks.len() {
                    lemma_expr_tail_ok(toks, j, NodeV::Expr(Box::new(acc), op, Box::new(f)));
                }
            },
            Err(_) => {},
        }
    }
}

/// The root of a parsed line carries assignment forms only at the top: the
/// expression under an assignment, and any other root, is assignment-free.
pub open spec fn root_wf(n: NodeV) -> bool {
    match n {
        NodeV::AssignConst(_, e) => expr_wf(*e),
        NodeV::AssignFunc(_, _, b) => expr_wf(*b),
        _ => expr_wf(n),
    }
}

proof fn lemma_assign_ok(toks: Seq<TokenV>, i: int)
    requires
        0 <= i,
    ensures
        p_assign(toks, i) matches Ok((n, j)) ==> i < j <= toks.len() && root_wf(n) && (
        tokens_shaped(toks) ==> node_literals_shaped(n)),
{
    lemma_expr_ok(toks, i);
    lemma_expr_ok(toks, i + 2);
    lemma_expr_ok(toks, i + 5);
}

/// Builds one syntax tree from one line of text, reading from a buffered
/// token stream with as much lookahead as the assignment forms need.
pub struct Parser {
    #[allow(dead_code)]
    text: String,
    tokens: Vec<Token>,
    current_token: usize,
}

impl Parser {
    pub closed spec fn toks(&self) -> Seq<TokenV> {
        tokens_view(self.tokens@)
    }

    pub closed spec fn cursor(&self) -> int {
        self.current_token as int
    }

    pub closed spec fn text_spec(&self) -> Seq<char> {
        self.text@
    }

    /// Lexes the whole line up front; fails on an unrecognized character.
    pub fn new(text: String) -> (r: Result<Parser, CalcError>)
        ensures
            match r {
                Ok(p) => {
                    &&& lex_all(text@) == Ok::<Seq<TokenV>, (int, char)>(p.toks())
                    &&& p.cursor() == 0
                    &&& p.text_spec() == text@
                },
                Err(e) => {
                    &&& lex_all(text@) matches Err((off, c)) && e@ == (ErrorV::InvalidCharacter {
                        offset: off as nat,
                        found: c,
                    })
                },
            },
    {
        let mut lexer = Lexer::new(text.clone());
        let tokens = match lexer.get_all_tokens() {
            Ok(t) => t,
            Err(e) => {
                return Err(e);
            },
        };
        Ok(Parser { text, tokens, current_token: 0 })
    }

    fn get(&self, i: usize) -> (r: Result<&Token, CalcError>)
        ensures
            match r {
                Ok(t) => p_get(self.toks(), i as int) == Ok::<TokenV, ErrorV>(t@),
                Err(e) => p_get(self.toks(), i as int) == Err::<TokenV, ErrorV>(e@),
            },
    {
        if i < self.tokens.len() {
            Ok(&self.tokens[i])
        } else {
            Err(CalcError::TokenOutOfBounds)
        }
    }

    fn current_token(&self) -> (r: Result<&Token, CalcError>)
        ensures
            match r {
                Ok(t) => p_get(self.toks(), self.cursor()) == Ok::<TokenV, ErrorV>(t@),
                Err(e) => p_get(self.toks(), self.cursor()) == Err::<TokenV, ErrorV>(e@),
            },
    {
        self.get(self.current_token)
    }

    fn next_token(&mut self)
        requires
            old(self).cursor() < old(self).toks().len(),
        ensures
            final(self).toks() == old(self).toks(),
            final(self).text_spec() == old(self).text_spec(),
            final(self).cursor() == old(self).cursor() + 1,
    {
        let n = self.tokens.len();
        proof {
            assert(self.toks().len() == n as int);
        }
        self.current_token += 1;
    }

    fn error(&self, token: &Token, expected: TokenType) -> (e: CalcError)
        ensures
            e@ == syn_err(token@, expected),
    {
        CalcError::Syntax { offset: token.start, expected }
    }

    fn eat(&mut self, token_type: TokenType) -> (r: Result<(), CalcError>)
        ensures
            final(self).toks() == old(self).toks(),
            final(self).text_spec() == old(self).text_spec(),
            match r {
                Ok(_) => {
                    &&& p_get(old(self).toks(), old(self).cursor()) matches Ok(t) && t.token
                        == token_type
                    &&& final(self).cursor() == old(self).cursor() + 1
                },
                Err(e) => {
                    &&& final(self).cursor() == old(self).cursor()
                    &&& match p_get(old(self).toks(), old(self).cursor()) {
                        Ok(t) => t.token != token_type && e@ == syn_err(t, token_type),
                        Err(e2) => e@ == e2,
                    }
                },
            },
    {
        let is_match = match self.current_token() {
            Ok(t) => t.token == token_type,
            Err(e) => {
                return Err(e);
            },
        };
        if is_match {
            self.next_token();
            Ok(())
        } else {
            let e = match self.current_token() {
                Ok(t) => self.error(t, token_type),
                Err(e) => e,
            };
            Err(e)
        }
    }

    fn factor(&mut self) -> (r: Result<Node, CalcError>)
        ensures
            final(self).toks() == old(self).toks(),
            final(self).text_spec() == old(self).text_spec(),
            match r {
                Ok(node) => p_factor(old(self).toks(), old(self).cursor()) == Ok::<
                    (NodeV, int),
                    ErrorV,
                >((node@, final(self).cursor())),
                Err(e) => p_factor(old(self).toks(), old(self).cursor()) == Err::<
                    (NodeV, int),
                    ErrorV,
                >(e@),
            },
        decreases old(self).toks().len() - old(self).cursor(), 1int,
    {
        let (tok_type, tok_value, tok_start) = match self.current_token() {
            Ok(t) => (t.token, t.value.clone(), t.start),
            Err(e) => {
                return Err(e);
            },
        };
        match tok_type {
            TokenType::Number => {
                match self.eat(TokenType::Number) {
                    Ok(_) => (),
                    Err(e) => {
                        return Err(e);
                    },
                };
                Ok(Node::Number(tok_value))
            },
            TokenType::LParen => {
                match self.eat(TokenType::LParen) {
                    Ok(_) => (),
                    Err(e) => {
                        return Err(e);
                    },
                };
                let result = match self.expr() {
                    Ok(n) => n,
                    Err(e) => {
                        return Err(e);
                    },
                };
                match self.eat(TokenType::RParen) {
                    Ok(_) => (),
                    Err(e) => {
                        return Err(e);
                    },
                };
                Ok(result)
            },
            TokenType::Ident => {
                match self.eat(TokenType::Ident) {
                    Ok(_) => (),
                    Err(e) => {
                        return Err(e);
                    },
                };
                let is_call = match self.current_token() {
                    Ok(t) => t.token == TokenType::LParen,
                    Err(e) => {
                        return Err(e);
                    },
                };
                if is_call {
                    match self.eat(TokenType::LParen) {
                        Ok(_) => (),
                        Err(e) => {
                            return Err(e);
                        },
                    };
                    let inner = match self.expr() {
                        Ok(n) => n,
                        Err(e) => {
                            return Err(e);
                        },
                    };
                    match self.eat(TokenType::RParen) {
                        Ok(_) => (),
                        Err(e) => {
                            return Err(e);
                        },
                    };
                    Ok(Node::Function(tok_value, Box::new(inner)))
                } else {
                    Ok(Node::Const(tok_value))
                }
            },
            _ => {
                let e = match self.current_token() {
                    Ok(t) => self.error(t, TokenType::Number),
                    Err(e) => e,
                };
                Err(e)
            },
        }
    }

    fn exp(&mut self) -> (r: Result<Node, CalcError>)
        ensures
            final(self).toks() == old(self).toks(),
            final(self).text_spec() == old(self).text_spec(),
            match r {
                Ok(node) => p_exp(old(self).toks(), old(self).cursor()) == Ok::<
                    (NodeV, int),
                    ErrorV,
                >((node@, final(self).cursor())),
                Err(e) => p_exp(old(self).toks(), old(self).cursor()) == Err::<
                    (NodeV, int),
                    ErrorV,
                >(e@),
            },
        decreases old(self).toks().len() - old(self).cursor(), 2int,
    {
        let ghost i0 = self.cursor();
        let mut result = match self.factor() {
            Ok(n) => n,
            Err(e) => {
                return Err(e);
            },
        };
        proof {
            lemma_factor_ok(self.toks(), i0);
        }
        loop
            invariant_except_break
                self.toks() == old(self).toks(),
                self.text_spec() == old(self).text_spec(),
                i0 == old(self).cursor(),
                i0 < self.cursor() <= self.toks().len(),
                p_exp(old(self).toks(), i0) == p_exp_tail(self.toks(), self.cursor(), result@),
            ensures
                self.toks() == old(self).toks(),
                self.text_spec() == old(self).text_spec(),
                p_exp(old(self).toks(), i0) == Ok::<(NodeV, int), ErrorV>((
                    result@,
                    self.cursor(),
                )),
            decreases self.toks().len() - self.cursor(),
        {
            let ghost i = self.cursor();
            let is_exp = match self.current_token() {
                Ok(t) => t.token == TokenType::Exp,
                Err(e) => {
                    return Err(e);
                },
            };
            if !is_exp {
                break;
            }
            match self.eat(TokenType::Exp) {
                Ok(_) => (),
                Err(e) => {
                    return Err(e);
                },
            };
            let f = match self.factor() {
                Ok(n) => n,
                Err(e) => {
                    return Err(e);
                },
            };
            proof {
                lemma_factor_ok(self.toks(), i + 1);
            }
            result = Node::Expr(Box::new(result), Operator::Pow, Box::new(f));
        }
        Ok(result)
    }

    fn term(&mut self) -> (r: Result<Node, CalcError>)
        ensures
            final(self).toks() == old(self).toks(),
            final(self).text_spec() == old(self).text_spec(),
            match r {
                Ok(node) => p_term(old(self).toks(), old(self).cursor()) == Ok::<
                    (NodeV, int),
                    ErrorV,
                >((node@, final(self).cursor())),
                Err(e) => p_term(old(self).toks(), old(self).cursor()) == Err::<
                    (NodeV, int),
                    ErrorV,
                >(e@),
            },
        decreases old(self).toks().len() - old(self).cursor(), 4int,
    {
        let ghost i0 = self.cursor();
        let mut result = match self.exp() {
            Ok(n) => n,
            Err(e) => {
                return Err(e);
            },
        };
        proof {
            lemma_exp_ok(self.toks(), i0);
        }
        loop
            invariant_except_break
                self.toks() == old(self).toks(),
                self.text_spec() == old(self).text_spec(),
                i0 == old(self).cursor(),
                i0 < self.cursor() <= self.toks().len(),
                p_term(old(self).toks(), i0) == p_term_tail(self.toks(), self.cursor(), result@),
            ensures
                self.toks() == old(self).toks(),
                self.text_spec() == old(self).text_spec(),
                p_term(old(self).toks(), i0) == Ok::<(NodeV, int), ErrorV>((
                    result@,
                    self.cursor(),
                )),
            decreases self.toks().len() - self.cursor(),
        {
            let ghost i = self.cursor();
            let tok_kind = match self.current_token() {
                Ok(t) => t.token,
                Err(e) => {
                    return Err(e);
                },
            };
            if tok_kind == TokenType::Mult {
                match self.eat(TokenType::Mult) {
                    Ok(_) => (),
                    Err(e) => {
                        return Err(e);
                    },
                };
                let f = match self.exp() {
                    Ok(n) => n,
                    Err(e) => {
                        return Err(e);
                    },
                };
                proof {
                    lemma_exp_ok(self.toks(), i + 1);
                }
                result = Node::Expr(Box::new(result), Operator::Mult, Box::new(f));
            } else if tok_kind == TokenType::Div {
                match self.eat(TokenType::Div) {
                    Ok(_) => (),
                    Err(e) => {
                        return Err(e);
                    },
                };
                let f = match self.exp() {
                    Ok(n) => n,
                    Err(e) => {
                        return Err(e);
                    },
                };
                proof {
                    lemma_exp_ok(self.toks(), i + 1);
                }
                result = Node::Expr(Box::new(result), Operator::Div, Box::new(f));
            } else {
                break;
            }
        }
        Ok(result)
    }

    fn expr(&mut self) -> (r: Result<Node, CalcError>)
        ensures
            final(self).toks() == old(self).toks(),
            final(self).text_spec() == old(self).text_spec(),
            match r {
                Ok(node) => p_expr(old(self).toks(), old(self).cursor()) == Ok::<
                    (NodeV, int),
                    ErrorV,
                >((node@, final(self).cursor())),
                Err(e) => p_expr(old(self).toks(), old(self).cursor()) == Err::<
                    (NodeV, int),
                    ErrorV,
                >(e@),
            },
        decreases old(self).toks().len() - old(self).cursor(), 6int,
    {
        let ghost i0 = self.cursor();
        let result = match self.term() {
            Ok(n) => n,
            Err(e) => {
                return Err(e);
            },
        };
        proof {
            lemma_term_ok(self.toks(), i0);
        }
        self.expr_cont(result)
    }

    fn expr_cont(&mut self, result: Node) -> (r: Result<Node, CalcError>)
        requires
            0 <= old(self).cursor() <= old(self).toks().len(),
        ensures
            final(self).toks() == old(self).toks(),
            final(self).text_spec() == old(self).text_spec(),
            match r {
                Ok(node) => p_expr_tail(old(self).toks(), old(self).cursor(), result@) == Ok::<
                    (NodeV, int),
                    ErrorV,
                >((node@, final(self).cursor())),
                Err(e) => p_expr_tail(old(self).toks(), old(self).cursor(), result@) == Err::<
                    (NodeV, int),
                    ErrorV,
                >(e@),
            },
        decreases old(self).toks().len() - old(self).cursor(), 5int,
    {
        let ghost entry_acc = result@;
        let mut result = result;
        let mut err: Option<CalcError> = None;
        loop
            invariant_except_break
                self.toks() == old(self).toks(),
                self.text_spec() == old(self).text_spec(),
                old(self).cursor() <= self.cursor() <= self.toks().len(),
                err is None,
                p_expr_tail(old(self).toks(), old(self).cursor(), entry_acc) == p_expr_tail(
                    self.toks(),
                    self.cursor(),
                    result@,
                ),
            ensures
                self.toks() == old(self).toks(),
                self.text_spec() == old(self).text_spec(),
                match err {
                    None => p_expr_tail(old(self).toks(), old(self).cursor(), entry_acc) == Ok::<
                        (NodeV, int),
                        ErrorV,
                    >((result@, self.cursor())),
                    Some(e) => p_expr_tail(old(self).toks(), old(self).cursor(), entry_acc)
                        == Err::<(NodeV, int), ErrorV>(e@),
                },
            decreases self.toks().len() - self.cursor(),
        {
            let ghost i = self.cursor();
            let tok_kind = match self.current_token() {
                Ok(t) => t.token,
                Err(e) => {
                    err = Some(e);
                    break;
                },
            };
            if tok_kind == TokenType::Add {
                match self.eat(TokenType::Add) {
                    Ok(_) => (),
                    Err(e) => {
                        err = Some(e);
                        break;
                    },
                };
                let f = match self.term() {
                    Ok(n) => n,
                    Err(e) => {
                        err = Some(e);
                        break;
                    },
                };
                proof {
                    lemma_term_ok(self.toks(), i + 1);
                }
                result = Node::Expr(Box::new(result), Operator::Plus, Box::new(f));
            } else if tok_kind == TokenType::Sub {
                match self.eat(TokenType::Sub) {
                    Ok(_) => (),
                    Err(e) => {
                        err = Some(e);
                        break;
                    },
                };
                let f = match self.term() {
                    Ok(n) => n,
                    Err(e) => {
                        err = Some(e);
                        break;
                    },
                };
                proof {
                    lemma_term_ok(self.toks(), i + 1);
                }
                result = Node::Expr(Box::new(result), Operator::Minus, Box::new(f));
            } else {
                break;
            }
        }
        match err {
            Some(e) => Err(e),
            None => Ok(result),
        }
    }

    fn tok_is(&self, i: usize, k: usize, tt: TokenType) -> (r: bool)
        ensures
            r == tok_at(self.toks(), i as int + k as int, tt),
    {
        match i.checked_add(k) {
            Some(j) => {
                if j < self.tokens.len() {
                    self.tokens[j].token == tt
                } else {
                    false
                }
            },
            None => {
                let n = self.tokens.len();
                proof {
                    assert(self.toks().len() == n as int);
                }
                false
            },
        }
    }

    /// Distinguishes the two assignment forms from a plain expression by
    /// looking ahead up to five tokens.
    fn assign(&mut self) -> (r: Result<Node, CalcError>)
        ensures
            final(self).toks() == old(self).toks(),
            final(self).text_spec() == old(self).text_spec(),
            match r {
                Ok(node) => p_assign(old(self).toks(), old(self).cursor()) == Ok::<
                    (NodeV, int),
                    ErrorV,
                >((node@, final(self).cursor())),
                Err(e) => p_assign(old(self).toks(), old(self).cursor()) == Err::<
                    (NodeV, int),
                    ErrorV,
                >(e@),
            },
    {
        let c = self.current_token;
        if self.tok_is(c, 0, TokenType::Ident) && self.tok_is(c, 1, TokenType::Assign) {
            let const_name = match self.current_token() {
                Ok(t) => t.value.clone(),
                Err(e) => {
                    return Err(e);
                },
            };
            match self.eat(TokenType::Ident) {
                Ok(_) => (),
                Err(e) => {
                    return Err(e);
                },
            };
            match self.eat(TokenType::Assign) {
                Ok(_) => (),
                Err(e) => {
                    return Err(e);
                },
            };
            let e = match self.expr() {
                Ok(n) => n,
                Err(e) => {
                    return Err(e);
                },
            };
            Ok(Node::AssignConst(const_name, Box::new(e)))
        } else if self.tok_is(c, 0, TokenType::Ident) && self.tok_is(c, 1, TokenType::LParen)
            && self.tok_is(c, 2, TokenType::Ident) && self.tok_is(c, 3, TokenType::RParen)
            && self.tok_is(c, 4, TokenType::Assign) {
            let func_name = match self.current_token() {
                Ok(t) => t.value.clone(),
                Err(e) => {
                    return Err(e);
                },
            };
            match self.eat(TokenType::Ident) {
                Ok(_) => (),
                Err(e) => {
                    return Err(e);
                },
            };
            match self.eat(TokenType::LParen) {
                Ok(_) => (),
                Err(e) => {
                    return Err(e);
                },
            };
            let var_name = match self.current_token() {
                Ok(t) => t.value.clone(),
                Err(e) => {
                    return Err(e);
                },
            };
            match self.eat(TokenType::Ident) {
                Ok(_) => (),
                Err(e) => {
                    return Err(e);
                },
            };
            match self.eat(TokenType::RParen) {
                Ok(_) => (),
                Err(e) => {
                    return Err(e);
                },
            };
            match self.eat(TokenType::Assign) {
                Ok(_) => (),
                Err(e) => {
                    return Err(e);
                },
            };
            let b = match self.expr() {
                Ok(n) => n,
                Err(e) => {
                    return Err(e);
                },
            };
            Ok(Node::AssignFunc(func_name, var_name, Box::new(b)))
        } else {
            self.expr()
        }
    }

    /// Parses the whole line: one assignment or expression, then end of input.
    pub fn calc(&mut self) -> (r: Result<Node, CalcError>)
        ensures
            final(self).toks() == old(self).toks(),
            final(self).text_spec() == old(self).text_spec(),
            match r {
                Ok(node) => {
                    &&& p_calc(old(self).toks(), old(self).cursor()) == Ok::<
                        (NodeV, int),
                        ErrorV,
                    >((node@, final(self).cursor()))
                    &&& root_wf(node@)
                    &&& tokens_shaped(old(self).toks()) ==> node_literals_shaped(node@)
                },
                Err(e) => p_calc(old(self).toks(), old(self).cursor()) == Err::<
                    (NodeV, int),
                    ErrorV,
                >(e@),
            },
    {
        let ghost i0 = self.cursor();
        let res = match self.assign() {
            Ok(n) => n,
            Err(e) => {
                return Err(e);
            },
        };
        match self.eat(TokenType::EOI) {
            Ok(_) => (),
            Err(e) => {
                return Err(e);
            },
        };
        proof {
            lemma_assign_ok(old(self).toks(), i0);
        }
        Ok(res)
    }
}

} // verus!
