use vstd::prelude::*;

use crate::ast::{unary_ops_additive, Expr, ExprModel};
use crate::scanning::{is_number_lexeme, lexeme_is_number};
use crate::token::{
    spec_operator_of, token_info, OperatorType, Token, TokenInfo, TokenModel, TokenType,
};

verus! {

// ---------------------------------------------------------------------------
// The grammar, as mathematical functions
// ---------------------------------------------------------------------------
//
//   expression -> term (("+" | "-") term)* ;
//   term       -> unary (("*" | "/") unary)* ;
//   unary      -> ("+" | "-") unary | primary ;
//   primary    -> NUMBER | "(" expression ")" ;
//
// Each function takes the tokens and a cursor and yields the parsed tree
// together with the cursor past it, or nothing if the grammar cannot match.
// The functions read only token kinds and lexemes, never positions, so the
// tree cannot depend on where in the text the tokens stood.

/// An operator of the lower, additive precedence level.
pub open spec fn additive(op: OperatorType) -> bool {
    op == OperatorType::Add || op == OperatorType::Subtract
}

/// An operator of the higher, multiplicative precedence level.
pub open spec fn multiplicative(op: OperatorType) -> bool {
    op == OperatorType::Multiply || op == OperatorType::Divide
}

/// The operator standing at the cursor, if an operator token stands there.
pub open spec fn peek_op(ts: Seq<TokenInfo>, i: nat) -> Option<OperatorType> {
    if i < ts.len() {
        spec_operator_of(ts[i as int].kind)
    } else {
        None
    }
}

pub open spec fn sp_primary(ts: Seq<TokenInfo>, i: nat) -> Option<(ExprModel, nat)>
    decreases ts.len() - i, 0int,
{
    if i >= ts.len() {
        None
    } else {
        match ts[i as int].kind {
            TokenType::Operand => if is_number_lexeme(ts[i as int].lexeme) {
                Some((ExprModel::Literal(ts[i as int].lexeme), (i + 1) as nat))
            } else {
                None
            },
            TokenType::LeftParen => match sp_expression(ts, i + 1) {
                Some(p) => if p.1 < ts.len() && ts[p.1 as int].kind == TokenType::RightParen {
                    Some((ExprModel::Grouping(Box::new(p.0)), (p.1 + 1) as nat))
                } else {
                    None
                },
                None => None,
            },
            _ => None,
        }
    }
}

pub open spec fn sp_unary(ts: Seq<TokenInfo>, i: nat) -> Option<(ExprModel, nat)>
    decreases ts.len() - i, 1int,
{
    match peek_op(ts, i) {
        Some(op) => if additive(op) {
            match sp_unary(ts, i + 1) {
                Some(p) => Some(
                    (ExprModel::Unary { operator: op, right: Box::new(p.0) }, p.1),
                ),
                None => None,
            }
        } else {
            sp_primary(ts, i)
        },
        None => sp_primary(ts, i),
    }
}

pub open spec fn sp_term_rest(ts: Seq<TokenInfo>, i: nat, acc: ExprModel) -> Option<
    (ExprModel, nat),
>
    decreases ts.len() - i, 2int,
{
    match peek_op(ts, i) {
        Some(op) => if multiplicative(op) {
            match sp_unary(ts, i + 1) {
                Some(p) => if i < p.1 && p.1 <= ts.len() {
                    sp_term_rest(
                        ts,
                        p.1,
                        ExprModel::Binary {
                            left: Box::new(acc),
                            operator: op,
                            right: Box::new(p.0),
                        },
                    )
                } else {
                    None
                },
                None => None,
            }
        } else {
            Some((acc, i))
        },
        None => Some((acc, i)),
    }
}

pub open spec fn sp_term(ts: Seq<TokenInfo>, i: nat) -> Option<(ExprModel, nat)>
    decreases ts.len() - i, 3int,
{
    match sp_unary(ts, i) {
        Some(p) => if i <= p.1 && p.1 <= ts.len() {
            sp_term_rest(ts, p.1, p.0)
        } else {
            None
        },
        None => None,
    }
}

pub open spec fn sp_expr_rest(ts: Seq<TokenInfo>, i: nat, acc: ExprModel) -> Option<
    (ExprModel, nat),
>
    decreases ts.len() - i, 4int,
{
    match peek_op(ts, i) {
        Some(op) => if additive(op) {
            match sp_term(ts, i + 1) {
                Some(p) => if i < p.1 && p.1 <= ts.len() {
                    sp_expr_rest(
                        ts,
                        p.1,
                        ExprModel::Binary {
                            left: Box::new(acc),
                            operator: op,
                            right: Box::new(p.0),
                        },
                    )
                } else {
                    None
                },
                None => None,
            }
        } else {
            Some((acc, i))
        },
        None => Some((acc, i)),
    }
}

pub open spec fn sp_expression(ts: Seq<TokenInfo>, i: nat) -> Option<(ExprModel, nat)>
    decreases ts.len() - i, 5int,
{
    match sp_term(ts, i) {
        Some(p) => if i <= p.1 && p.1 <= ts.len() {
            sp_expr_rest(ts, p.1, p.0)
        } else {
            None
        },
        None => None,
    }
}

/// Parsing a whole token sequence from the cursor: a full expression, after
/// which the cursor must stand on the end-of-input token — leftover tokens
/// are a parse failure.
pub open spec fn sp_parse(ts: Seq<TokenInfo>, i: nat) -> Option<ExprModel> {
    match sp_expression(ts, i) {
        Some(p) => if p.1 < ts.len() && ts[p.1 as int].kind == TokenType::Eof {
            Some(p.0)
        } else {
            None
        },
        None => None,
    }
}

// ---------------------------------------------------------------------------
// The parser, executable
// ---------------------------------------------------------------------------

/// A recursive-descent parser: the token sequence and one cursor, moving
/// left to right with no backtracking.
pub struct Parser {
    tokens: Vec<Token>,
    current: usize,
}

impl Parser {
    /// The tokens, as their mathematical images.
    pub closed spec fn toks(&self) -> Seq<TokenModel> {
        self.tokens@.map_values(|t: Token| t@)
    }

    /// The tokens, as the parser reads them: kinds and lexemes only.
    pub open spec fn infos(&self) -> Seq<TokenInfo> {
        self.toks().map_values(|t: TokenModel| token_info(t))
    }

    /// The cursor: the index of the next token to consume.
    pub closed spec fn cur(&self) -> nat {
        self.current as nat
    }

    /// A parser in working order: the token list ends with the end-of-input
    /// token, and the cursor stands on a token. The scanner yields such a
    /// list for every text it accepts.
    pub open spec fn wf(&self) -> bool {
        self.toks().len() > 0 && self.toks()[self.toks().len() - 1].kind == TokenType::Eof
            && self.cur() < self.toks().len()
    }

    pub fn new(tokens: Vec<Token>) -> (p: Parser)
        ensures
            p.toks() == tokens@.map_values(|t: Token| t@),
            p.cur() == 0,
    {
        Parser { tokens, current: 0 }
    }

    fn peek(&self) -> (t: &Token)
        requires
            self.cur() < self.toks().len(),
        ensures
            t@ == self.toks()[self.cur() as int],
    {
        &self.tokens[self.current]
    }

    fn previous(&self) -> (t: &Token)
        requires
            0 < self.cur() <= self.toks().len(),
        ensures
            t@ == self.toks()[self.cur() - 1],
    {
        &self.tokens[self.current - 1]
    }

    fn is_at_end(&self) -> (r: bool)
        requires
            self.cur() < self.toks().len(),
        ensures
            r == (self.toks()[self.cur() as int].kind == TokenType::Eof),
    {
        self.peek().kind == TokenType::Eof
    }

    fn advance(&mut self)
        requires
            old(self).wf(),
        ensures
            final(self).wf(),
            final(self).toks() == old(self).toks(),
            old(self).toks()[old(self).cur() as int].kind != TokenType::Eof ==> final(self).cur()
                == old(self).cur() + 1,
            old(self).toks()[old(self).cur() as int].kind == TokenType::Eof ==> final(self).cur()
                == old(self).cur(),
    {
        if !self.is_at_end() {
            let n = self.tokens.len();
            assert(self.current < n);
            self.current = self.current + 1;
        }
    }

    /// Parse one expression starting at the cursor, then require that only
    /// the end-of-input token is left: leftover tokens are a parse failure.
    /// The result is exactly what the grammar derives from the token kinds
    /// and lexemes, and every unary node of it carries an additive operator.
    pub fn parse(&mut self) -> (r: Option<Expr>)
        requires
            old(self).wf(),
        ensures
            final(self).wf(),
            final(self).toks() == old(self).toks(),
            old(self).cur() <= final(self).cur(),
            (match (r, sp_parse(old(self).infos(), old(self).cur())) {
                (Some(e), Some(em)) => e@ == em && unary_ops_additive(em),
                (None, None) => true,
                _ => false,
            }),
    {
        let ghost ts = self.infos();
        let ghost i0 = self.cur();
        let expr = match self.expression() {
            Some(e) => e,
            None => {
                return None;
            },
        };
        if self.is_at_end() {
            proof {
                lemma_sp_expression_additive(ts, i0);
            }
            Some(expr)
        } else {
            None
        }
    }

    // expression -> term (("+" | "-") term)* ;
    fn expression(&mut self) -> (r: Option<Expr>)
        requires
            old(self).wf(),
        ensures
            final(self).wf(),
            final(self).toks() == old(self).toks(),
            old(self).cur() <= final(self).cur(),
            (match (r, sp_expression(old(self).infos(), old(self).cur())) {
                (Some(e), Some(p)) => e@ == p.0 && final(self).cur() == p.1,
                (None, None) => true,
                _ => false,
            }),
        decreases old(self).toks().len() - old(self).cur(), 5int,
    {
        let mut expr = match self.term() {
            Some(e) => e,
            None => {
                return None;
            },
        };
        loop
            invariant_except_break
                self.wf(),
                self.toks() == old(self).toks(),
                old(self).cur() <= self.cur(),
                sp_expr_rest(old(self).infos(), self.cur(), expr@) == sp_expression(
                    old(self).infos(),
                    old(self).cur(),
                ),
            ensures
                self.wf(),
                self.toks() == old(self).toks(),
                old(self).cur() <= self.cur(),
                sp_expression(old(self).infos(), old(self).cur()) == Some((expr@, self.cur())),
            decreases self.toks().len() - self.cur(),
        {
            if !self.match_operator(&[OperatorType::Add, OperatorType::Subtract]) {
                break;
            }
            let operator = self.previous().operator_type().unwrap();
            let right = match self.term() {
                Some(e) => e,
                None => {
                    return None;
                },
            };
            expr = Expr::Binary { left: Box::new(expr), operator, right: Box::new(right) };
        }
        Some(expr)
    }

    // term -> factor (("*" | "/") factor)* ;
    fn term(&mut self) -> (r: Option<Expr>)
        requires
            old(self).wf(),
        ensures
            final(self).wf(),
            final(self).toks() == old(self).toks(),
            old(self).cur() <= final(self).cur(),
            (match (r, sp_term(old(self).infos(), old(self).cur())) {
                (Some(e), Some(p)) => e@ == p.0 && final(self).cur() == p.1,
                (None, None) => true,
                _ => false,
            }),
        decreases old(self).toks().len() - old(self).cur(), 4int,
    {
        let mut expr = match self.factor() {
            Some(e) => e,
            None => {
                return None;
            },
        };
        loop
            invariant_except_break
                self.wf(),
                self.toks() == old(self).toks(),
                old(self).cur() <= self.cur(),
                sp_term_rest(old(self).infos(), self.cur(), expr@) == sp_term(
                    old(self).infos(),
                    old(self).cur(),
                ),
            ensures
                self.wf(),
                self.toks() == old(self).toks(),
                old(self).cur() <= self.cur(),
                sp_term(old(self).infos(), old(self).cur()) == Some((expr@, self.cur())),
            decreases self.toks().len() - self.cur(),
        {
            if !self.match_operator(&[OperatorType::Multiply, OperatorType::Divide]) {
                break;
            }
            let operator = self.previous().operator_type().unwrap();
            let right = match self.factor() {
                Some(e) => e,
                None => {
                    return None;
                },
            };
            expr = Expr::Binary { left: Box::new(expr), operator, right: Box::new(right) };
        }
        Some(expr)
    }

    // factor -> unary ;
    fn factor(&mut self) -> (r: Option<Expr>)
        requires
            old(self).wf(),
        ensures
            final(self).wf(),
            final(self).toks() == old(self).toks(),
            old(self).cur() <= final(self).cur(),
            (match (r, sp_unary(old(self).infos(), old(self).cur())) {
                (Some(e), Some(p)) => e@ == p.0 && final(self).cur() == p.1,
                (None, None) => true,
                _ => false,
            }),
        decreases old(self).toks().len() - old(self).cur(), 3int,
    {
        self.unary()
    }

    // unary -> ("+" | "-") unary | primary ;
    fn unary(&mut self) -> (r: Option<Expr>)
        requires
            old(self).wf(),
        ensures
            final(self).wf(),
            final(self).toks() == old(self).toks(),
            old(self).cur() <= final(self).cur(),
            (match (r, sp_unary(old(self).infos(), old(self).cur())) {
                (Some(e), Some(p)) => e@ == p.0 && final(self).cur() == p.1,
                (None, None) => true,
                _ => false,
            }),
        decreases old(self).toks().len() - old(self).cur(), 2int,
    {
        if self.match_operator(&[OperatorType::Add, OperatorType::Subtract]) {
            let operator = self.previous().operator_type().unwrap();
            let right = match self.unary() {
                Some(e) => e,
                None => {
                    return None;
                },
            };
            return Some(Expr::Unary { operator, right: Box::new(right) });
        }
        self.primary()
    }

    // primary -> NUMBER | "(" expression ")" ;
    fn primary(&mut self) -> (r: Option<Expr>)
        requires
            old(self).wf(),
        ensures
            final(self).wf(),
            final(self).toks() == old(self).toks(),
            old(self).cur() <= final(self).cur(),
            (match (r, sp_primary(old(self).infos(), old(self).cur())) {
                (Some(e), Some(p)) => e@ == p.0 && final(self).cur() == p.1,
                (None, None) => true,
                _ => false,
            }),
            // failure before anything is consumed leaves the cursor where it
            // stood; only a failure inside parentheses moves it
            r is None && old(self).toks()[old(self).cur() as int].kind != TokenType::LeftParen
                ==> final(self).cur() == old(self).cur(),
        decreases old(self).toks().len() - old(self).cur(), 1int,
    {
        let kind = self.peek().kind;
        match kind {
            TokenType::Operand => {
                let lexeme = self.peek().lexeme.clone();
                // a lexeme that is no number cannot become a literal: the
                // conversion failure is a parse failure
                if !lexeme_is_number(lexeme.as_str()) {
                    return None;
                }
                self.advance();
                Some(Expr::Literal(lexeme))
            },
            TokenType::LeftParen => {
                self.advance();
                let expr = match self.expression() {
                    Some(e) => e,
                    None => {
                        return None;
                    },
                };
                if self.peek().kind != TokenType::RightParen {
                    return None;
                }
                self.advance();
                Some(Expr::Grouping(Box::new(expr)))
            },
            _ => None,
        }
    }

    /// Consume the token at the cursor when it is an operator among `types`.
    fn match_operator(&mut self, types: &[OperatorType]) -> (r: bool)
        requires
            old(self).wf(),
        ensures
            final(self).wf(),
            final(self).toks() == old(self).toks(),
            r == (match old(self).toks()[old(self).cur() as int].kind {
                TokenType::Operator(op) => types@.contains(op),
                _ => false,
            }),
            r ==> final(self).cur() == old(self).cur() + 1,
            !r ==> final(self).cur() == old(self).cur(),
    {
        let found = match self.peek().kind {
            TokenType::Operator(op) => contains_op(types, op),
            _ => false,
        };
        if found {
            self.advance();
            true
        } else {
            false
        }
    }
}

fn contains_op(types: &[OperatorType], op: OperatorType) -> (r: bool)
    ensures
        r == types@.contains(op),
{
    let mut i: usize = 0;
    while i < types.len()
        invariant
            i <= types@.len(),
            forall|k: int| 0 <= k < i ==> types@[k] != op,
        decreases types@.len() - i,
    {
        if *vstd::slice::slice_index_get(types, i) == op {
            return true;
        }
        i = i + 1;
    }
    false
}

// ---------------------------------------------------------------------------
// Laws of the grammar
// ---------------------------------------------------------------------------

/// Operators of one precedence level group to the left: a token sequence
/// `NUMBER op1 NUMBER op2 NUMBER`, with `op1` and `op2` both additive or
/// both multiplicative, parses to `(a op1 b) op2 c`, never `a op1 (b op2 c)`.
pub proof fn lemma_parse_left_associative(
    a: TokenInfo,
    x: TokenInfo,
    b: TokenInfo,
    y: TokenInfo,
    c: TokenInfo,
    e: TokenInfo,
    o1: OperatorType,
    o2: OperatorType,
)
    requires
        a.kind == TokenType::Operand && is_number_lexeme(a.lexeme),
        b.kind == TokenType::Operand && is_number_lexeme(b.lexeme),
        c.kind == TokenType::Operand && is_number_lexeme(c.lexeme),
        x.kind == TokenType::Operator(o1),
        y.kind == TokenType::Operator(o2),
        (additive(o1) && additive(o2)) || (multiplicative(o1) && multiplicative(o2)),
        e.kind == TokenType::Eof,
    ensures
        sp_parse(seq![a, x, b, y, c, e], 0) == Some(
            ExprModel::Binary {
                left: Box::new(
                    ExprModel::Binary {
                        left: Box::new(ExprModel::Literal(a.lexeme)),
                        operator: o1,
                        right: Box::new(ExprModel::Literal(b.lexeme)),
                    },
                ),
                operator: o2,
                right: Box::new(ExprModel::Literal(c.lexeme)),
            },
        ),
{
    reveal_with_fuel(sp_primary, 7);
    reveal_with_fuel(sp_unary, 7);
    reveal_with_fuel(sp_term_rest, 7);
    reveal_with_fuel(sp_term, 7);
    reveal_with_fuel(sp_expr_rest, 7);
    reveal_with_fuel(sp_expression, 7);
}

/// A multiplicative operator binds tighter than an additive one: the token
/// sequence `NUMBER op1 NUMBER op2 NUMBER`, with `op1` additive and `op2`
/// multiplicative, parses to `a op1 (b op2 c)`.
pub proof fn lemma_parse_precedence(
    a: TokenInfo,
    x: TokenInfo,
    b: TokenInfo,
    y: TokenInfo,
    c: TokenInfo,
    e: TokenInfo,
    o1: OperatorType,
    o2: OperatorType,
)
    requires
        a.kind == TokenType::Operand && is_number_lexeme(a.lexeme),
        b.kind == TokenType::Operand && is_number_lexeme(b.lexeme),
        c.kind == TokenType::Operand && is_number_lexeme(c.lexeme),
        x.kind == TokenType::Operator(o1),
        y.kind == TokenType::Operator(o2),
        additive(o1),
        multiplicative(o2),
        e.kind == TokenType::Eof,
    ensures
        sp_parse(seq![a, x, b, y, c, e], 0) == Some(
            ExprModel::Binary {
                left: Box::new(ExprModel::Literal(a.lexeme)),
                operator: o1,
                right: Box::new(
                    ExprModel::Binary {
                        left: Box::new(ExprModel::Literal(b.lexeme)),
                        operator: o2,
                        right: Box::new(ExprModel::Literal(c.lexeme)),
                    },
                ),
            },
        ),
{
    reveal_with_fuel(sp_primary, 7);
    reveal_with_fuel(sp_unary, 7);
    reveal_with_fuel(sp_term_rest, 7);
    reveal_with_fuel(sp_term, 7);
    reveal_with_fuel(sp_expr_rest, 7);
    reveal_with_fuel(sp_expression, 7);
}

/// A unary operator binds tighter than any binary operator: the token
/// sequence `u NUMBER op NUMBER`, with `u` additive and `op` any operator,
/// parses to `(u a) op b`, never `u (a op b)`.
pub proof fn lemma_parse_unary_binds_tightest(
    u: TokenInfo,
    a: TokenInfo,
    x: TokenInfo,
    b: TokenInfo,
    e: TokenInfo,
    uo: OperatorType,
    bo: OperatorType,
)
    requires
        a.kind == TokenType::Operand && is_number_lexeme(a.lexeme),
        b.kind == TokenType::Operand && is_number_lexeme(b.lexeme),
        u.kind == TokenType::Operator(uo),
        additive(uo),
        x.kind == TokenType::Operator(bo),
        additive(bo) || multiplicative(bo),
        e.kind == TokenType::Eof,
    ensures
        sp_parse(seq![u, a, x, b, e], 0) == Some(
            ExprModel::Binary {
                left: Box::new(
                    ExprModel::Unary {
                        operator: uo,
                        right: Box::new(ExprModel::Literal(a.lexeme)),
                    },
                ),
                operator: bo,
                right: Box::new(ExprModel::Literal(b.lexeme)),
            },
        ),
{
    reveal_with_fuel(sp_primary, 7);
    reveal_with_fuel(sp_unary, 7);
    reveal_with_fuel(sp_term_rest, 7);
    reveal_with_fuel(sp_term, 7);
    reveal_with_fuel(sp_expr_rest, 7);
    reveal_with_fuel(sp_expression, 7);
}

/// Unary operators chain: the token sequence `u1 u2 NUMBER` parses to the
/// nested `u1 (u2 a)`.
pub proof fn lemma_parse_unary_chains(
    u1: TokenInfo,
    u2: TokenInfo,
    a: TokenInfo,
    e: TokenInfo,
    o1: OperatorType,
    o2: OperatorType,
)
    requires
        a.kind == TokenType::Operand && is_number_lexeme(a.lexeme),
        u1.kind == TokenType::Operator(o1),
        u2.kind == TokenType::Operator(o2),
        additive(o1),
        additive(o2),
        e.kind == TokenType::Eof,
    ensures
        sp_parse(seq![u1, u2, a, e], 0) == Some(
            ExprModel::Unary {
                operator: o1,
                right: Box::new(
                    ExprModel::Unary {
                        operator: o2,
                        right: Box::new(ExprModel::Literal(a.lexeme)),
                    },
                ),
            },
        ),
{
    reveal_with_fuel(sp_primary, 7);
    reveal_with_fuel(sp_unary, 7);
    reveal_with_fuel(sp_term_rest, 7);
    reveal_with_fuel(sp_term, 7);
    reveal_with_fuel(sp_expr_rest, 7);
    reveal_with_fuel(sp_expression, 7);
}

/// A token sequence that begins with the end-of-input token holds no
/// operand, and parsing it fails.
pub proof fn lemma_parse_no_operand(ts: Seq<TokenInfo>)
    requires
        ts.len() > 0,
        ts[0].kind == TokenType::Eof,
    ensures
        sp_parse(ts, 0) == None::<ExprModel>,
{
}

// ---------------------------------------------------------------------------
// The parser builds no unary node with a multiplicative operator
// ---------------------------------------------------------------------------

proof fn lemma_sp_primary_additive(ts: Seq<TokenInfo>, i: nat)
    ensures
        sp_primary(ts, i) matches Some(p) ==> unary_ops_additive(p.0),
    decreases ts.len() - i, 0int,
{
    if i < ts.len() {
        match ts[i as int].kind {
            TokenType::LeftParen => {
                lemma_sp_expression_additive(ts, i + 1);
            },
            _ => {},
        }
    }
}

proof fn lemma_sp_unary_additive(ts: Seq<TokenInfo>, i: nat)
    ensures
        sp_unary(ts, i) matches Some(p) ==> unary_ops_additive(p.0),
    decreases ts.len() - i, 1int,
{
    match peek_op(ts, i) {
        Some(op) => {
            if additive(op) {
                lemma_sp_unary_additive(ts, i + 1);
            } else {
                lemma_sp_primary_additive(ts, i);
            }
        },
        None => {
            lemma_sp_primary_additive(ts, i);
        },
    }
}

proof fn lemma_sp_term_rest_additive(ts: Seq<TokenInfo>, i: nat, acc: ExprModel)
    requires
        unary_ops_additive(acc),
    ensures
        sp_term_rest(ts, i, acc) matches Some(p) ==> unary_ops_additive(p.0),
    decreases ts.len() - i, 2int,
{
    match peek_op(ts, i) {
        Some(op) => {
            if multiplicative(op) {
                lemma_sp_unary_additive(ts, i + 1);
                match sp_unary(ts, i + 1) {
                    Some(p) => {
                        if i < p.1 && p.1 <= ts.len() {
                            lemma_sp_term_rest_additive(
                                ts,
                                p.1,
                                ExprModel::Binary {
                                    left: Box::new(acc),
                                    operator: op,
                                    right: Box::new(p.0),
                                },
                            );
                        }
                    },
                    None => {},
                }
            }
        },
        None => {},
    }
}

proof fn lemma_sp_term_additive(ts: Seq<TokenInfo>, i: nat)
    ensures
        sp_term(ts, i) matches Some(p) ==> unary_ops_additive(p.0),
    decreases ts.len() - i, 3int,
{
    lemma_sp_unary_additive(ts, i);
    match sp_unary(ts, i) {
        Some(p) => {
            if i <= p.1 && p.1 <= ts.len() {
                lemma_sp_term_rest_additive(ts, p.1, p.0);
            }
        },
        None => {},
    }
}

proof fn lemma_sp_expr_rest_additive(ts: Seq<TokenInfo>, i: nat, acc: ExprModel)
    requires
        unary_ops_additive(acc),
    ensures
        sp_expr_rest(ts, i, acc) matches Some(p) ==> unary_ops_additive(p.0),
    decreases ts.len() - i, 4int,
{
    match peek_op(ts, i) {
        Some(op) => {
            if additive(op) {
                lemma_sp_term_additive(ts, i + 1);
                match sp_term(ts, i + 1) {
                    Some(p) => {
                        if i < p.1 && p.1 <= ts.len() {
                            lemma_sp_expr_rest_additive(
                                ts,
                                p.1,
                                ExprModel::Binary {
                                    left: Box::new(acc),
                                    operator: op,
                                    right: Box::new(p.0),
                                },
                            );
                        }
                    },
                    None => {},
                }
            }
        },
        None => {},
    }
}

/// Every tree the grammar derives has additive operators on all its unary
/// nodes: the grammar only ever builds a unary node after seeing `+` or `-`.
pub proof fn lemma_sp_expression_additive(ts: Seq<TokenInfo>, i: nat)
    ensures
        sp_expression(ts, i) matches Some(p) ==> unary_ops_additive(p.0),
    decreases ts.len() - i, 5int,
{
    lemma_sp_term_additive(ts, i);
    match sp_term(ts, i) {
        Some(p) => {
            if i <= p.1 && p.1 <= ts.len() {
                lemma_sp_expr_rest_additive(ts, p.1, p.0);
            }
        },
        None => {},
    }
}

} // verus!
