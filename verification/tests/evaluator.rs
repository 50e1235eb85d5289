use std::cell::Cell;
use std::rc::Rc;

use cel_interpreter::ast::{ArithmeticOp, Atom, Expression, Member, RelationOp, UnaryOp};
use cel_interpreter::context::{Context, HostCallable};
use cel_interpreter::decimal::Dec;
use cel_interpreter::functions::Builtin;
use cel_interpreter::value::{CelKey, CelMap, CelType, EvalError};

fn int_lit(i: i64) -> Expression {
    Expression::Atom(Atom::Integer(i))
}

fn dec(mantissa: i128, scale: u32) -> Expression {
    Expression::Atom(Atom::Decimal(Dec { mantissa, scale }))
}

fn text(s: &str) -> Expression {
    Expression::Atom(Atom::String(s.as_bytes().to_vec()))
}

fn boolean(b: bool) -> Expression {
    Expression::Atom(Atom::Bool(b))
}

fn ident(name: &str) -> Expression {
    Expression::Ident(name.as_bytes().to_vec())
}

fn arith(l: Expression, op: ArithmeticOp, r: Expression) -> Expression {
    Expression::Arithmetic(Box::new(l), op, Box::new(r))
}

fn rel(l: Expression, op: RelationOp, r: Expression) -> Expression {
    Expression::Relation(Box::new(l), op, Box::new(r))
}

fn ternary(c: Expression, t: Expression, f: Expression) -> Expression {
    Expression::Ternary(Box::new(c), Box::new(t), Box::new(f))
}

fn or(l: Expression, r: Expression) -> Expression {
    Expression::Or(Box::new(l), Box::new(r))
}

fn and(l: Expression, r: Expression) -> Expression {
    Expression::And(Box::new(l), Box::new(r))
}

fn call_method(receiver: Expression, name: &str, args: Vec<Expression>) -> Expression {
    let attr = Expression::Member(
        Box::new(receiver),
        Box::new(Member::Attribute(name.as_bytes().to_vec())),
    );
    Expression::Member(Box::new(attr), Box::new(Member::FunctionCall(args)))
}

fn call_free(name: &str, args: Vec<Expression>) -> Expression {
    Expression::Member(Box::new(ident(name)), Box::new(Member::FunctionCall(args)))
}

fn index(receiver: Expression, idx: Expression) -> Expression {
    Expression::Member(Box::new(receiver), Box::new(Member::Index(Box::new(idx))))
}

fn empty_ctx() -> Context<Builtin> {
    Context::new()
}

fn size_ctx() -> Context<Builtin> {
    let mut ctx = Context::new();
    ctx.set_function(b"size".to_vec(), Builtin::Size);
    ctx
}

fn string_val(s: &str) -> CelType {
    CelType::String(s.as_bytes().to_vec())
}

#[test]
fn or_picks_first_truthy_value() {
    let e = ternary(or(int_lit(1), int_lit(2)), int_lit(1), int_lit(2));
    let r = CelType::resolve(&e, &empty_ctx());
    assert_eq!(r, Ok(CelType::Integer(1)));
}

#[test]
fn or_short_circuits_past_errors() {
    let e = or(int_lit(7), ident("no_such_name"));
    let r = CelType::resolve(&e, &empty_ctx());
    assert_eq!(r, Ok(CelType::Integer(7)));
}

#[test]
fn list_concatenation() {
    let e = arith(
        Expression::List(vec![int_lit(1), int_lit(2), int_lit(3)]),
        ArithmeticOp::Add,
        Expression::List(vec![int_lit(4), int_lit(5), int_lit(6)]),
    );
    let r = CelType::resolve(&e, &empty_ctx());
    let expect = CelType::List(vec![
        CelType::Integer(1),
        CelType::Integer(2),
        CelType::Integer(3),
        CelType::Integer(4),
        CelType::Integer(5),
        CelType::Integer(6),
    ]);
    assert_eq!(r, Ok(expect));
}

#[test]
fn list_indexing() {
    let e = index(Expression::List(vec![int_lit(1), int_lit(2), int_lit(3)]), int_lit(1));
    assert_eq!(CelType::resolve(&e, &empty_ctx()), Ok(CelType::Integer(2)));
}

#[test]
fn map_size_method() {
    let e = call_method(
        Expression::MapLit(vec![(int_lit(1), int_lit(2))]),
        "size",
        vec![],
    );
    assert_eq!(CelType::resolve(&e, &size_ctx()), Ok(CelType::Integer(1)));
}

#[test]
fn size_free_function() {
    let e = call_free("size", vec![text("a")]);
    assert_eq!(CelType::resolve(&e, &size_ctx()), Ok(CelType::Integer(1)));
}

#[test]
fn string_concatenation() {
    let e = arith(text("abc"), ArithmeticOp::Add, text("def"));
    assert_eq!(CelType::resolve(&e, &empty_ctx()), Ok(string_val("abcdef")));
}

#[test]
fn and_evaluates_both_sides_to_bool() {
    let e = and(int_lit(1), ternary(boolean(false), int_lit(2), int_lit(3)));
    assert_eq!(CelType::resolve(&e, &empty_ctx()), Ok(CelType::Bool(true)));
}

struct HelloFn;

impl HostCallable for HelloFn {
    fn call(
        &self,
        receiver: Option<&CelType>,
        _args: &[Expression],
        _ctx: &Context<HelloFn>,
    ) -> Result<CelType, EvalError> {
        match receiver {
            Some(CelType::String(s)) => {
                let mut out = b"Hello".to_vec();
                out.extend_from_slice(s);
                Ok(CelType::String(out))
            }
            _ => Err(EvalError::TypeMismatch),
        }
    }
}

#[test]
fn host_function_scenario() {
    let mut ctx: Context<HelloFn> = Context::new();
    ctx.set_function(b"TestFunction".to_vec(), HelloFn);
    ctx.set_variable(b"TestDouble".to_vec(), CelType::Decimal(Dec { mantissa: 0, scale: 1 }));
    ctx.set_variable(b"TestString".to_vec(), string_val("World"));
    ctx.set_variable(b"TestTime".to_vec(), CelType::Integer(0));
    ctx.set_variable(b"Now".to_vec(), CelType::Integer(1));

    let left_group = and(
        or(
            rel(ident("TestDouble"), RelationOp::GreaterThanEq, dec(10, 1)),
            rel(
                call_method(ident("TestString"), "TestFunction", vec![]),
                RelationOp::Equals,
                text("HelloWorld"),
            ),
        ),
        rel(
            arith(ident("TestDouble"), ArithmeticOp::Add, dec(10, 1)),
            RelationOp::GreaterThanEq,
            dec(0, 1),
        ),
    );
    let e = or(left_group, rel(ident("Now"), RelationOp::GreaterThan, ident("TestTime")));
    assert_eq!(CelType::resolve(&e, &ctx), Ok(CelType::Bool(true)));
}

struct CountingFn(Rc<Cell<u32>>);

impl HostCallable for CountingFn {
    fn call(
        &self,
        _receiver: Option<&CelType>,
        _args: &[Expression],
        _ctx: &Context<CountingFn>,
    ) -> Result<CelType, EvalError> {
        self.0.set(self.0.get() + 1);
        Ok(CelType::Null)
    }
}

#[test]
fn ternary_never_evaluates_untaken_branch() {
    let hits = Rc::new(Cell::new(0));
    let mut ctx: Context<CountingFn> = Context::new();
    ctx.set_function(b"probe".to_vec(), CountingFn(hits.clone()));
    let taken = ternary(boolean(true), int_lit(1), call_free("probe", vec![int_lit(0)]));
    assert_eq!(CelType::resolve(&taken, &ctx), Ok(CelType::Integer(1)));
    assert_eq!(hits.get(), 0);
    let untaken = ternary(boolean(false), int_lit(1), call_free("probe", vec![int_lit(0)]));
    assert_eq!(CelType::resolve(&untaken, &ctx), Ok(CelType::Null));
    assert_eq!(hits.get(), 1);
}

#[test]
fn evaluation_is_deterministic() {
    let e = arith(
        Expression::List(vec![int_lit(1), dec(25, 1), text("x")]),
        ArithmeticOp::Add,
        Expression::List(vec![boolean(true)]),
    );
    let a = CelType::resolve(&e, &empty_ctx());
    let b = CelType::resolve(&e, &empty_ctx());
    assert_eq!(a, b);
}

#[test]
fn numeric_promotion_commutes() {
    let a = CelType::resolve(&arith(int_lit(1), ArithmeticOp::Add, dec(25, 1)), &empty_ctx());
    let b = CelType::resolve(&arith(dec(25, 1), ArithmeticOp::Add, int_lit(1)), &empty_ctx());
    assert_eq!(a, b);
    assert_eq!(a, Ok(CelType::Decimal(Dec { mantissa: 35, scale: 1 })));
    let c = CelType::resolve(&arith(int_lit(2), ArithmeticOp::Multiply, dec(25, 1)), &empty_ctx());
    let d = CelType::resolve(&arith(dec(25, 1), ArithmeticOp::Multiply, int_lit(2)), &empty_ctx());
    assert_eq!(c, d);
}

#[test]
fn decimal_addition_is_exact() {
    let e = arith(dec(1, 1), ArithmeticOp::Add, dec(2, 1));
    assert_eq!(
        CelType::resolve(&e, &empty_ctx()),
        Ok(CelType::Decimal(Dec { mantissa: 3, scale: 1 }))
    );
}

#[test]
fn map_literal_later_duplicate_key_wins() {
    let m = Expression::MapLit(vec![(int_lit(1), int_lit(2)), (int_lit(1), int_lit(3))]);
    let e = index(m, int_lit(1));
    assert_eq!(CelType::resolve(&e, &empty_ctx()), Ok(CelType::Integer(3)));
}

#[test]
fn size_method_equals_free_size() {
    let ctx = size_ctx();
    let via_method = call_method(text("hello"), "size", vec![]);
    let via_free = call_free("size", vec![text("hello")]);
    let a = CelType::resolve(&via_method, &ctx);
    let b = CelType::resolve(&via_free, &ctx);
    assert_eq!(a, b);
    assert_eq!(a, Ok(CelType::Integer(5)));
}

#[test]
fn truthiness_table() {
    let falsy = vec![
        Expression::List(vec![]),
        Expression::MapLit(vec![]),
        text(""),
        Expression::Atom(Atom::Bytes(vec![])),
        int_lit(0),
        dec(0, 1),
        Expression::Atom(Atom::Null),
        boolean(false),
    ];
    for e in falsy {
        let t = Expression::Unary(UnaryOp::DoubleNot, Box::new(e));
        assert_eq!(CelType::resolve(&t, &empty_ctx()), Ok(CelType::Bool(false)));
    }
    let truthy = vec![
        Expression::List(vec![int_lit(0)]),
        Expression::MapLit(vec![(int_lit(0), int_lit(0))]),
        text("x"),
        Expression::Atom(Atom::Bytes(vec![0])),
        int_lit(-5),
        dec(1, 2),
        boolean(true),
    ];
    for e in truthy {
        let t = Expression::Unary(UnaryOp::DoubleNot, Box::new(e));
        assert_eq!(CelType::resolve(&t, &empty_ctx()), Ok(CelType::Bool(true)));
    }
}

#[test]
fn membership_tests() {
    let substr = rel(text("ell"), RelationOp::In, text("hello"));
    assert_eq!(CelType::resolve(&substr, &empty_ctx()), Ok(CelType::Bool(true)));
    let no_substr = rel(text("xyz"), RelationOp::In, text("hello"));
    assert_eq!(CelType::resolve(&no_substr, &empty_ctx()), Ok(CelType::Bool(false)));
    let in_list = rel(int_lit(2), RelationOp::In, Expression::List(vec![int_lit(1), int_lit(2)]));
    assert_eq!(CelType::resolve(&in_list, &empty_ctx()), Ok(CelType::Bool(true)));
    let in_map = rel(int_lit(1), RelationOp::In, Expression::MapLit(vec![(int_lit(1), int_lit(2))]));
    assert_eq!(CelType::resolve(&in_map, &empty_ctx()), Ok(CelType::Bool(true)));
    let not_in_map = rel(int_lit(9), RelationOp::In, Expression::MapLit(vec![(int_lit(1), int_lit(2))]));
    assert_eq!(CelType::resolve(&not_in_map, &empty_ctx()), Ok(CelType::Bool(false)));
}

#[test]
fn ordering_and_equality() {
    let cases = vec![
        (rel(int_lit(1), RelationOp::LessThan, int_lit(2)), true),
        (rel(int_lit(2), RelationOp::LessThan, int_lit(1)), false),
        (rel(text("a"), RelationOp::LessThan, text("b")), true),
        (rel(int_lit(1), RelationOp::LessThan, dec(15, 1)), true),
        (rel(dec(10, 1), RelationOp::Equals, int_lit(1)), true),
        (rel(int_lit(1), RelationOp::Equals, dec(100, 2)), true),
        (rel(int_lit(1), RelationOp::NotEquals, int_lit(2)), true),
        (
            rel(
                Expression::List(vec![int_lit(1), int_lit(2)]),
                RelationOp::LessThan,
                Expression::List(vec![int_lit(1), int_lit(3)]),
            ),
            true,
        ),
    ];
    for (e, expect) in cases {
        assert_eq!(CelType::resolve(&e, &empty_ctx()), Ok(CelType::Bool(expect)));
    }
}

#[test]
fn unary_operators() {
    assert_eq!(
        CelType::resolve(&Expression::Unary(UnaryOp::Not, Box::new(int_lit(0))), &empty_ctx()),
        Ok(CelType::Bool(true))
    );
    assert_eq!(
        CelType::resolve(&Expression::Unary(UnaryOp::Minus, Box::new(int_lit(5))), &empty_ctx()),
        Ok(CelType::Integer(-5))
    );
    assert_eq!(
        CelType::resolve(
            &Expression::Unary(UnaryOp::Minus, Box::new(dec(25, 1))),
            &empty_ctx()
        ),
        Ok(CelType::Decimal(Dec { mantissa: -25, scale: 1 }))
    );
    assert_eq!(
        CelType::resolve(
            &Expression::Unary(UnaryOp::DoubleMinus, Box::new(int_lit(5))),
            &empty_ctx()
        ),
        Ok(CelType::Integer(5))
    );
    assert_eq!(
        CelType::resolve(
            &Expression::Unary(UnaryOp::Minus, Box::new(text("x"))),
            &empty_ctx()
        ),
        Err(EvalError::TypeMismatch)
    );
}

#[test]
fn integer_division_truncates() {
    let q = arith(int_lit(-7), ArithmeticOp::Divide, int_lit(2));
    assert_eq!(CelType::resolve(&q, &empty_ctx()), Ok(CelType::Integer(-3)));
    let m = arith(int_lit(-7), ArithmeticOp::Modulus, int_lit(2));
    assert_eq!(CelType::resolve(&m, &empty_ctx()), Ok(CelType::Integer(-1)));
}

#[test]
fn error_variants() {
    let ctx = empty_ctx();
    let cases = vec![
        (arith(int_lit(1), ArithmeticOp::Add, boolean(true)), EvalError::TypeMismatch),
        (
            Expression::MapLit(vec![(Expression::Atom(Atom::Null), int_lit(1))]),
            EvalError::InvalidKey,
        ),
        (index(Expression::List(vec![int_lit(1)]), int_lit(5)), EvalError::IndexOutOfRange),
        (index(Expression::List(vec![int_lit(1)]), int_lit(-1)), EvalError::IndexOutOfRange),
        (index(Expression::MapLit(vec![(int_lit(1), int_lit(2))]), int_lit(3)), EvalError::NoSuchKey),
        (ident("missing"), EvalError::UnknownIdent),
        (
            Expression::Member(
                Box::new(int_lit(1)),
                Box::new(Member::Attribute(b"anything".to_vec())),
            ),
            EvalError::UnknownMember,
        ),
        (
            Expression::Member(Box::new(int_lit(1)), Box::new(Member::FunctionCall(vec![]))),
            EvalError::NotCallable,
        ),
        (
            Expression::Member(Box::new(int_lit(1)), Box::new(Member::Fields(vec![]))),
            EvalError::Unsupported,
        ),
        (arith(int_lit(1), ArithmeticOp::Divide, int_lit(0)), EvalError::DivideByZero),
        (arith(int_lit(1), ArithmeticOp::Modulus, int_lit(0)), EvalError::DivideByZero),
        (arith(int_lit(i64::MAX), ArithmeticOp::Add, int_lit(1)), EvalError::Overflow),
        (arith(int_lit(i64::MIN), ArithmeticOp::Divide, int_lit(-1)), EvalError::Overflow),
    ];
    for (e, expect) in cases {
        assert_eq!(CelType::resolve(&e, &ctx), Err(expect));
    }
}

#[test]
fn unknown_function_from_stored_handle() {
    let mut ctx = empty_ctx();
    ctx.set_variable(
        b"f".to_vec(),
        CelType::Function(b"never_registered".to_vec(), None),
    );
    let e = Expression::Member(Box::new(ident("f")), Box::new(Member::FunctionCall(vec![])));
    assert_eq!(CelType::resolve(&e, &ctx), Err(EvalError::UnknownFunction));
}

#[test]
fn function_shadows_variable() {
    let mut ctx = size_ctx();
    ctx.set_variable(b"size".to_vec(), CelType::Integer(42));
    let e = call_free("size", vec![text("ab")]);
    assert_eq!(CelType::resolve(&e, &ctx), Ok(CelType::Integer(2)));
}

#[test]
fn later_variable_binding_shadows_earlier() {
    let mut ctx = empty_ctx();
    ctx.set_variable(b"x".to_vec(), CelType::Integer(1));
    ctx.set_variable(b"x".to_vec(), CelType::Integer(2));
    assert_eq!(CelType::resolve(&ident("x"), &ctx), Ok(CelType::Integer(2)));
}

#[test]
fn map_equality_ignores_entry_order() {
    let m1 = Expression::MapLit(vec![(int_lit(1), int_lit(10)), (int_lit(2), int_lit(20))]);
    let m2 = Expression::MapLit(vec![(int_lit(2), int_lit(20)), (int_lit(1), int_lit(10))]);
    let e = rel(m1, RelationOp::Equals, m2);
    assert_eq!(CelType::resolve(&e, &empty_ctx()), Ok(CelType::Bool(true)));
}

#[test]
fn map_value_from_evaluator_matches_by_hand() {
    let e = Expression::MapLit(vec![(int_lit(1), int_lit(2))]);
    let expect = CelType::Mapping(CelMap {
        map: vec![(CelKey::Integer(1), CelType::Integer(2))],
    });
    assert_eq!(CelType::resolve(&e, &empty_ctx()), Ok(expect));
}
