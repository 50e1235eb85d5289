use vstd::prelude::*;
use crate::decimal::Dec;

verus! {

broadcast use vstd::seq::axiom_seq_index_decreases;

/// A literal of the expression language. Text is carried as its
/// UTF-8 bytes.
#[derive(Debug, PartialEq)]
pub enum Atom {
    Integer(i64),
    Decimal(Dec),
    String(Vec<u8>),
    Bytes(Vec<u8>),
    Bool(bool),
    Null,
}

#[derive(Debug, Clone, Copy, PartialEq, Eq, Structural)]
pub enum ArithmeticOp {
    Add,
    Subtract,
    Divide,
    Multiply,
    Modulus,
}

#[derive(Debug, Clone, Copy, PartialEq, Eq, Structural)]
pub enum RelationOp {
    LessThan,
    LessThanEq,
    GreaterThan,
    GreaterThanEq,
    Equals,
    NotEquals,
    In,
}

#[derive(Debug, Clone, Copy, PartialEq, Eq, Structural)]
pub enum UnaryOp {
    Not,
    DoubleNot,
    Minus,
    DoubleMinus,
}

/// A member selector: what stands to the right of a receiver
/// expression.
#[derive(Debug, PartialEq)]
pub enum Member {
    Attribute(Vec<u8>),
    FunctionCall(Vec<Expression>),
    Index(Box<Expression>),
    Fields(Vec<(Vec<u8>, Expression)>),
}

/// The abstract syntax the evaluator consumes. A parser produces it
/// elsewhere; the evaluator only reads it.
#[derive(Debug, PartialEq)]
pub enum Expression {
    Atom(Atom),
    Ident(Vec<u8>),
    Arithmetic(Box<Expression>, ArithmeticOp, Box<Expression>),
    Relation(Box<Expression>, RelationOp, Box<Expression>),
    Ternary(Box<Expression>, Box<Expression>, Box<Expression>),
    Or(Box<Expression>, Box<Expression>),
    And(Box<Expression>, Box<Expression>),
    Unary(UnaryOp, Box<Expression>),
    Member(Box<Expression>, Box<Member>),
    List(Vec<Expression>),
    MapLit(Vec<(Expression, Expression)>),
}

/// Every decimal literal in the expression lies within the
/// representation the decimal arithmetic admits.
pub open spec fn expr_wf(e: Expression) -> bool
    decreases e,
{
    match e {
        Expression::Atom(a) => match a {
            Atom::Decimal(d) => d.wf(),
            _ => true,
        },
        Expression::Ident(_) => true,
        Expression::Arithmetic(l, _, r) => expr_wf(*l) && expr_wf(*r),
        Expression::Relation(l, _, r) => expr_wf(*l) && expr_wf(*r),
        Expression::Ternary(c, t, f) => expr_wf(*c) && expr_wf(*t) && expr_wf(*f),
        Expression::Or(l, r) => expr_wf(*l) && expr_wf(*r),
        Expression::And(l, r) => expr_wf(*l) && expr_wf(*r),
        Expression::Unary(_, x) => expr_wf(*x),
        Expression::Member(l, m) => expr_wf(*l) && member_wf(*m),
        Expression::List(items) => exprs_wf(items@),
        Expression::MapLit(pairs) => expr_pairs_wf(pairs@),
    }
}

/// Well-formedness of each expression of a sequence.
pub open spec fn exprs_wf(s: Seq<Expression>) -> bool
    decreases s,
{
    s.len() == 0 || (expr_wf(s[0]) && exprs_wf(s.drop_first()))
}

/// Well-formedness of each side of a sequence of key-value pairs.
pub open spec fn expr_pairs_wf(s: Seq<(Expression, Expression)>) -> bool
    decreases s,
{
    s.len() == 0 || (expr_wf(s[0].0) && expr_wf(s[0].1) && expr_pairs_wf(s.drop_first()))
}

/// Well-formedness of a member selector, as `expr_wf`.
pub open spec fn member_wf(m: Member) -> bool
    decreases m,
{
    match m {
        Member::Attribute(_) => true,
        Member::FunctionCall(args) => exprs_wf(args@),
        Member::Index(e) => expr_wf(*e),
        Member::Fields(fs) => true,
    }
}

/// A sequence of expressions is well-formed exactly when each member
/// is.
pub proof fn lemma_exprs_wf_iff(s: Seq<Expression>)
    ensures
        exprs_wf(s) <==> (forall|i: int| 0 <= i < s.len() ==> expr_wf(#[trigger] s[i])),
    decreases s.len(),
{
    if s.len() > 0 {
        lemma_exprs_wf_iff(s.drop_first());
        if expr_wf(s[0]) && (forall|i: int|
            0 <= i < s.drop_first().len() ==> expr_wf(#[trigger] s.drop_first()[i])) {
            assert forall|i: int| 0 <= i < s.len() implies expr_wf(#[trigger] s[i]) by {
                if i > 0 {
                    assert(expr_wf(s.drop_first()[i - 1]));
                }
            }
        }
        if forall|i: int| 0 <= i < s.len() ==> expr_wf(#[trigger] s[i]) {
            assert forall|i: int| 0 <= i < s.drop_first().len() implies expr_wf(
                #[trigger] s.drop_first()[i],
            ) by {
                assert(s.drop_first()[i] == s[i + 1]);
            }
        }
    }
}

/// A sequence of expression pairs is well-formed exactly when each
/// side of each pair is.
pub proof fn lemma_expr_pairs_wf_iff(s: Seq<(Expression, Expression)>)
    ensures
        expr_pairs_wf(s) <==> (forall|i: int|
            0 <= i < s.len() ==> expr_wf((#[trigger] s[i]).0) && expr_wf(s[i].1)),
    decreases s.len(),
{
    if s.len() > 0 {
        lemma_expr_pairs_wf_iff(s.drop_first());
        if expr_wf(s[0].0) && expr_wf(s[0].1) && (forall|i: int|
            0 <= i < s.drop_first().len() ==> expr_wf((#[trigger] s.drop_first()[i]).0)
                && expr_wf(s.drop_first()[i].1)) {
            assert forall|i: int| 0 <= i < s.len() implies expr_wf((#[trigger] s[i]).0)
                && expr_wf(s[i].1) by {
                if i > 0 {
                    assert(expr_wf(s.drop_first()[i - 1].0) && expr_wf(s.drop_first()[i - 1].1));
                }
            }
        }
        if forall|i: int| 0 <= i < s.len() ==> expr_wf((#[trigger] s[i]).0) && expr_wf(s[i].1) {
            assert forall|i: int| 0 <= i < s.drop_first().len() implies expr_wf(
                (#[trigger] s.drop_first()[i]).0,
            ) && expr_wf(s.drop_first()[i].1) by {
                assert(s.drop_first()[i] == s[i + 1]);
            }
        }
    }
}

} // verus!
