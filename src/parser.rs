//! The parser: pulls tokens from its lexer and builds label declarations and
//! instructions.
use crate::lexer::{
    col_at, lemma_scan_progress, row_at, scan, LexError, LexErrorView, Lexer, Operator, Token, TokenView,
};
use vstd::prelude::*;

verus! {

/// An instruction: its operator token, its destination register and its
/// optional source register.
#[derive(Debug, PartialEq)]
pub struct Expression {
    pub operation: Token,
    pub right: Token,
    pub left: Option<Token>,
}

impl Expression {
    /// An instruction not yet filled in: every token is `EOF`.
    pub fn new() -> (r: Expression)
        ensures
            r.operation@ == TokenView::End,
            r.right@ == TokenView::End,
            r.left is None,
    {
        Expression { operation: Token::EOF, right: Token::EOF, left: None }
    }
}

/// One top-level unit of a program.
#[derive(Debug, PartialEq)]
pub enum Production {
    /// A label declaration and the ordinal of its token among the tokens pulled.
    Label { token: Token, position: u64 },
    Expr(Expression),
}

/// What a production stands for: a label and its ordinal, or an instruction.
pub enum ProductionView {
    Label(TokenView, int),
    Expr(TokenView, TokenView, Option<TokenView>),
}

/// The view of an optional token.
pub open spec fn token_views(t: Option<Token>) -> Option<TokenView> {
    match t {
        Some(t) => Some(t@),
        None => None,
    }
}

impl View for Production {
    type V = ProductionView;

    open spec fn view(&self) -> ProductionView {
        match self {
            Production::Label { token, position } => ProductionView::Label(token@, *position as int),
            Production::Expr(e) => ProductionView::Expr(
                e.operation@,
                e.right@,
                token_views(e.left),
            ),
        }
    }
}

/// Why a program was rejected.
#[derive(Debug, PartialEq)]
pub enum ParseError {
    /// A malformed token.
    Lex(LexError),
    /// A statement starts with a token that is neither a label nor an operator.
    UnexpectedToken(Token),
    /// An operand slot holds something other than a register.
    ExpectedRegister(Token),
    /// The input ends where the destination register should stand; the row
    /// and column of the end.
    MissingOperand(u32, u32),
}

/// What a parse error stands for.
pub enum ParseErrorView {
    Lex(LexErrorView),
    UnexpectedToken(TokenView),
    ExpectedRegister(TokenView),
    MissingOperand(int, int),
}

impl View for ParseError {
    type V = ParseErrorView;

    open spec fn view(&self) -> ParseErrorView {
        match self {
            ParseError::Lex(e) => ParseErrorView::Lex(e@),
            ParseError::UnexpectedToken(t) => ParseErrorView::UnexpectedToken(t@),
            ParseError::ExpectedRegister(t) => ParseErrorView::ExpectedRegister(t@),
            ParseError::MissingOperand(r, c) => ParseErrorView::MissingOperand(*r as int, *c as int),
        }
    }
}

/// The operands of an instruction whose operator token is `op`, the cursor at
/// `i` and the ordinal at `n`: a register, then a second register or the end of
/// the input. Gives the instruction or the error, the cursor and the ordinal.
pub open spec fn expression(s: Seq<char>, op: TokenView, i: int, n: int) -> (
    Result<ProductionView, ParseErrorView>,
    int,
    int,
) {
    let first = scan(s, i);
    let n1 = n + 1;
    match first.0 {
        Err(e) => (Err(ParseErrorView::Lex(e)), first.1, n1),
        Ok(dest) => if dest is End {
            (Err(ParseErrorView::MissingOperand(row_at(s, first.1), col_at(s, first.1))), first.1, n1)
        } else if dest is Register {
            let second = scan(s, first.1);
            let n2 = n1 + 1;
            match second.0 {
                Err(e) => (Err(ParseErrorView::Lex(e)), second.1, n2),
                Ok(src) => if src is End {
                    (Ok(ProductionView::Expr(op, dest, None)), second.1, n2)
                } else if src is Register {
                    (Ok(ProductionView::Expr(op, dest, Some(src))), second.1, n2)
                } else {
                    (Err(ParseErrorView::ExpectedRegister(src)), second.1, n2)
                },
            }
        } else {
            (Err(ParseErrorView::ExpectedRegister(dest)), first.1, n1)
        },
    }
}

/// The statement that starts with token `t`, pulled as the `n`-th token, the
/// cursor then at `i`: a label, an instruction, or an error.
pub open spec fn statement(s: Seq<char>, t: TokenView, i: int, n: int) -> (
    Result<ProductionView, ParseErrorView>,
    int,
    int,
) {
    if t is Ident {
        (Ok(ProductionView::Label(t, n)), i, n)
    } else if t is Op {
        expression(s, t, i, n)
    } else {
        (Err(ParseErrorView::UnexpectedToken(t)), i, n)
    }
}

/// `ps` followed by the productions of `r`, or the error of `r`.
pub open spec fn prepend(ps: Seq<ProductionView>, r: Result<Seq<ProductionView>, ParseErrorView>) -> Result<
    Seq<ProductionView>,
    ParseErrorView,
> {
    match r {
        Ok(rest) => Ok(ps + rest),
        Err(e) => Err(e),
    }
}

/// The productions of text `s` from the cursor at `i` on, the ordinal at `n`,
/// or the first error.
pub open spec fn parse_from(s: Seq<char>, i: int, n: int) -> Result<
    Seq<ProductionView>,
    ParseErrorView,
>
    decreases s.len() - i,
    when 0 <= i <= s.len()
    via parse_from_decreases
{
    let first = scan(s, i);
    match first.0 {
        Err(e) => Err(ParseErrorView::Lex(e)),
        Ok(t) => if t is End {
            Ok(Seq::empty())
        } else {
            let st = statement(s, t, first.1, n + 1);
            match st.0 {
                Err(e) => Err(e),
                Ok(p) => prepend(seq![p], parse_from(s, st.1, st.2)),
            }
        },
    }
}

#[via_fn]
proof fn parse_from_decreases(s: Seq<char>, i: int, n: int) {
    lemma_scan_progress(s, i);
    let first = scan(s, i);
    lemma_scan_progress(s, first.1);
    lemma_scan_progress(s, scan(s, first.1).1);
}

/// What a pull of the parser yields, as a value of the model: `None` stands
/// for the end of the input.
pub open spec fn pulled(r: Result<Option<Token>, LexError>) -> Result<TokenView, LexErrorView> {
    match r {
        Ok(Some(t)) => Ok(t@),
        Ok(None) => Ok(TokenView::End),
        Err(e) => Err(e@),
    }
}

/// The productions of a finished parse, as values of the model.
pub open spec fn parsed(r: Result<Vec<Production>, ParseError>) -> Result<
    Seq<ProductionView>,
    ParseErrorView,
> {
    match r {
        Ok(v) => Ok(v@.map_values(|p: Production| p@)),
        Err(e) => Err(e@),
    }
}

/// A parser over one source text: its lexer and the number of pulls made.
pub struct Parser {
    lexer: Lexer,
    position: u64,
}

impl Parser {
    /// The text being parsed.
    pub closed spec fn text(&self) -> Seq<char> {
        self.lexer.text()
    }

    /// The number of characters the lexer has consumed.
    pub closed spec fn pos(&self) -> int {
        self.lexer.pos()
    }

    /// The number of pulls so far, those that found the end of the input included.
    pub closed spec fn ordinal(&self) -> int {
        self.position as int
    }

    /// The lexer is well formed.
    pub closed spec fn wf(&self) -> bool {
        self.lexer.wf()
    }

    /// A parser at the start of `code`.
    pub fn new(code: &str) -> (r: Parser)
        requires
            code@.len() <= u32::MAX,
        ensures
            r.wf(),
            r.text() == code@,
            r.pos() == 0,
            r.ordinal() == 0,
    {
        Parser { lexer: Lexer::new(code), position: 0 }
    }

    /// The number of pulls so far.
    pub fn position(&self) -> (r: u64)
        ensures
            r == self.ordinal(),
    {
        self.position
    }

    /// Parses the rest of the text: one production per label or instruction,
    /// or the first error. The ordinal must leave room for a pull per character
    /// left and a few more.
    pub fn parse(&mut self) -> (r: Result<Vec<Production>, ParseError>)
        requires
            old(self).wf(),
            old(self).ordinal() + 2 * (old(self).text().len() - old(self).pos()) < u64::MAX,
        ensures
            final(self).wf(),
            final(self).text() == old(self).text(),
            parsed(r) == parse_from(old(self).text(), old(self).pos(), old(self).ordinal()),
    {
        let ghost s = self.text();
        let ghost i = self.pos();
        let ghost n = self.ordinal();
        proof {
            self.lexer.lemma_bounds();
        }
        let mut productions: Vec<Production> = Vec::new();
        loop
            invariant
                self.wf(),
                self.text() == s,
                s == old(self).text(),
                i == old(self).pos(),
                n == old(self).ordinal(),
                0 <= self.pos() <= s.len(),
                self.ordinal() + 2 * (s.len() - self.pos()) < u64::MAX,
                parse_from(s, i, n) == prepend(
                    productions@.map_values(|p: Production| p@),
                    parse_from(s, self.pos(), self.ordinal()),
                ),
            decreases s.len() - self.pos(),
        {
            let ghost i0 = self.pos();
            let ghost n0 = self.ordinal();
            let ghost views = productions@.map_values(|p: Production| p@);
            proof {
                self.lexer.lemma_bounds();
                lemma_scan_progress(s, i0);
            }
            let token = match self._next_token() {
                Err(e) => {
                    return Err(ParseError::Lex(e));
                },
                Ok(None) => {
                    assert(views =~= productions@.map_values(|p: Production| p@));
                    assert(views + Seq::empty() =~= views);
                    return Ok(productions);
                },
                Ok(Some(t)) => t,
            };
            let ghost i1 = self.pos();
            proof {
                self.lexer.lemma_bounds();
            }
            let prod = match token {
                Token::Ident(..) => Production::Label { token, position: self.position },
                Token::Op(operator, _, _) => match self.handle_expression(token, operator) {
                    Ok(p) => p,
                    Err(e) => {
                        return Err(e);
                    },
                },
                other => {
                    return Err(ParseError::UnexpectedToken(other));
                },
            };
            proof {
                lemma_scan_progress(s, i1);
                lemma_scan_progress(s, scan(s, i1).1);
            }
            productions.push(prod);
            assert(productions@.map_values(|p: Production| p@) =~= views.push(prod@));
            assert(views.push(prod@) =~= views + seq![prod@]);
            proof {
                let rest = parse_from(s, self.pos(), self.ordinal());
                if rest is Ok {
                    assert(views + (seq![prod@] + rest->Ok_0) =~= (views + seq![prod@])
                        + rest->Ok_0);
                }
            }
        }
    }

    /// Parses the operands of the instruction whose operator token is `token`:
    /// a destination register, then a source register or the end of the input.
    pub fn handle_expression(&mut self, token: Token, operator: Operator) -> (r: Result<
        Production,
        ParseError,
    >)
        requires
            old(self).wf(),
            old(self).ordinal() + 2 <= u64::MAX,
            token matches Token::Op(o, _, _) && o == operator,
        ensures
            final(self).wf(),
            final(self).text() == old(self).text(),
            ({
                let (e, p, n) = expression(
                    old(self).text(),
                    token@,
                    old(self).pos(),
                    old(self).ordinal(),
                );
                &&& (match r {
                    Ok(v) => Ok(v@),
                    Err(x) => Err(x@),
                }) == e
                &&& final(self).pos() == p
                &&& final(self).ordinal() == n
            }),
    {
        let mut expr = Expression::new();
        expr.operation = token;
        match self._next_token() {
            Err(e) => {
                return Err(ParseError::Lex(e));
            },
            Ok(None) => {
                return Err(ParseError::MissingOperand(self.lexer.row(), self.lexer.col()));
            },
            Ok(Some(t)) => match t {
                Token::REGISTER(..) => expr.right = t,
                other => {
                    return Err(ParseError::ExpectedRegister(other));
                },
            },
        }
        match self._next_token() {
            Err(e) => {
                return Err(ParseError::Lex(e));
            },
            Ok(None) => {},
            Ok(Some(t)) => match t {
                Token::REGISTER(..) => expr.left = Some(t),
                other => {
                    return Err(ParseError::ExpectedRegister(other));
                },
            },
        }
        Ok(Production::Expr(expr))
    }

    /// Pulls the next token from the lexer; `None` at the end of the input.
    /// Every pull counts one more in the ordinal.
    pub fn _next_token(&mut self) -> (r: Result<Option<Token>, LexError>)
        requires
            old(self).wf(),
            old(self).ordinal() < u64::MAX,
        ensures
            final(self).wf(),
            final(self).text() == old(self).text(),
            pulled(r) == scan(old(self).text(), old(self).pos()).0,
            !(r matches Ok(Some(t)) && t is EOF),
            final(self).pos() == scan(old(self).text(), old(self).pos()).1,
            final(self).ordinal() == old(self).ordinal() + 1,
    {
        proof {
            self.lexer.lemma_bounds();
            lemma_scan_progress(self.lexer.text(), self.lexer.pos());
        }
        self.position = self.position + 1;
        match self.lexer.parse_token() {
            Ok(Token::EOF) => Ok(None),
            Ok(t) => Ok(Some(t)),
            Err(e) => Err(e),
        }
    }
}

} // verus!
