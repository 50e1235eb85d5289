use vstd::prelude::*;
use crate::ast::{Expression, Member};
use crate::context::{CtxV, HostCallable};
use crate::eval::{eval_entries, eval_member, eval_spec, upsert};
use crate::functions::size_spec;
use crate::value::{EvalError, KeyV, ValV, add_v, map_lookup, mul_v, truthy, val_to_key};

verus! {

/// A disjunction whose left side reduces to a truthy value reduces
/// to that value itself, whatever the right side would do — even
/// where it would fail.
pub proof fn lemma_or_short_circuit<F: HostCallable>(e: Expression, ctx: CtxV<F>, v: ValV)
    requires
        e is Or,
        eval_spec(*e->Or_0, ctx) == Result::<ValV, EvalError>::Ok(v),
        truthy(v),
    ensures
        eval_spec(e, ctx) == eval_spec(*e->Or_0, ctx),
{
}

/// A conditional reduces to its taken branch alone: the untaken
/// branch plays no part in the result.
pub proof fn lemma_ternary_short_circuit<F: HostCallable>(e: Expression, ctx: CtxV<F>, c: ValV)
    requires
        e is Ternary,
        eval_spec(*e->Ternary_0, ctx) == Result::<ValV, EvalError>::Ok(c),
    ensures
        truthy(c) ==> eval_spec(e, ctx) == eval_spec(*e->Ternary_1, ctx),
        !truthy(c) ==> eval_spec(e, ctx) == eval_spec(*e->Ternary_2, ctx),
{
}

/// Mixed numeric addition and multiplication do not depend on which
/// side holds the integer: the integer is promoted either way.
pub proof fn lemma_numeric_promotion_commutes(i: int, m: int, s: int)
    ensures
        add_v(ValV::Integer(i), ValV::Decimal(m, s)) == add_v(ValV::Decimal(m, s), ValV::Integer(i)),
        mul_v(ValV::Integer(i), ValV::Decimal(m, s)) == mul_v(ValV::Decimal(m, s), ValV::Integer(i)),
{
}

/// Concatenating two lists appends their elements: the size of the
/// result is the sum of the sizes, and every position of the left
/// operand keeps its element.
pub proof fn lemma_list_concat(a: Seq<ValV>, b: Seq<ValV>)
    ensures
        add_v(ValV::List(a), ValV::List(b)) == Result::<ValV, EvalError>::Ok(ValV::List(a + b)),
        (a + b).len() == a.len() + b.len(),
        forall|i: int| 0 <= i < a.len() ==> (a + b)[i] == a[i],
        forall|i: int| a.len() <= i < a.len() + b.len() ==> (a + b)[i] == b[i - a.len()],
        a.len() + b.len() <= 0x7fffffffffffffff ==> size_spec(
            Option::Some(ValV::List(a + b)),
        ) == Result::<ValV, EvalError>::Ok(ValV::Integer(a.len() + b.len() as int)),
{
}

/// Calling a registered function through an attribute of a receiver
/// is the same as calling it free with the receiver as first
/// argument: `x.f()` and `f(x)` reduce alike.
#[verifier::rlimit(100)]
#[verifier::spinoff_prover]
pub proof fn lemma_size_equivalence<F: HostCallable>(
    e1: Expression,
    e2: Expression,
    ctx: CtxV<F>,
)
    requires
        e1 is Member,
        (*e1->Member_1) matches Member::FunctionCall(args1) && args1@.len() == 0,
        (*e1->Member_0) is Member,
        (*(*e1->Member_0)->Member_1) matches Member::Attribute(n1),
        e2 is Member,
        (*e2->Member_0) matches Expression::Ident(n2) && n2@ == (*(*e1->Member_0)
            ->Member_1)->Attribute_0@,
        (*e2->Member_1) matches Member::FunctionCall(args2) && args2@.len() == 1 && args2@[0]
            == *(*e1->Member_0)->Member_0,
        ctx.functions.contains_key((*(*e1->Member_0)->Member_1)->Attribute_0@),
    ensures
        eval_spec(e1, ctx) == eval_spec(e2, ctx),
{
    let x = *(*e1->Member_0)->Member_0;
    let name = (*(*e1->Member_0)->Member_1)->Attribute_0@;
    let args1 = (*e1->Member_1)->FunctionCall_0;
    let args2 = (*e2->Member_1)->FunctionCall_0;
    let f = ctx.functions[name];
    reveal_with_fuel(crate::eval::eval_spec, 3);
    reveal_with_fuel(crate::eval::eval_member, 2);
    assert(eval_spec(*e2->Member_0, ctx) == Result::<ValV, EvalError>::Ok(
        ValV::Function(name, Option::None),
    ));
    match eval_spec(x, ctx) {
        Result::Ok(v) => {
            assert(eval_spec(*e1->Member_0, ctx) == Result::<ValV, EvalError>::Ok(
                ValV::Function(name, Option::Some(Box::new(v))),
            ));
            assert(args2@[0] == x);
            assert(args2@.subrange(1, args2@.len() as int) =~= args1@);
            assert(eval_spec(e1, ctx) == f.call_spec(Option::Some(v), args1@, ctx));
            assert(eval_spec(e2, ctx) == f.call_spec(Option::Some(v), args2@.subrange(1, 1), ctx));
        },
        Result::Err(err) => {
            assert(args2@[0] == x);
            assert(eval_spec(*e1->Member_0, ctx) == Result::<ValV, EvalError>::Err(err));
            assert(eval_spec(e1, ctx) == Result::<ValV, EvalError>::Err(err));
            assert(eval_member(
                ValV::Function(name, Option::None),
                *e2->Member_1,
                ctx,
            ) == Result::<ValV, EvalError>::Err(err));
            assert(eval_spec(e2, ctx) == Result::<ValV, EvalError>::Err(err));
        },
    }
}

/// Writing an entry makes its key read back its value, and leaves
/// every other key as it was.
pub proof fn lemma_upsert_lookup(es: Seq<(KeyV, ValV)>, k: KeyV, v: ValV, k2: KeyV)
    ensures
        map_lookup(upsert(es, k, v), k) == Option::Some(v),
        k2 != k ==> map_lookup(upsert(es, k, v), k2) == map_lookup(es, k2),
    decreases es.len(),
{
    reveal_with_fuel(crate::eval::upsert, 2);
    reveal_with_fuel(crate::value::map_lookup, 2);
    if es.len() == 0 {
        assert(upsert(es, k, v)[0] == (k, v));
        assert(upsert(es, k, v).drop_first() =~= Seq::<(KeyV, ValV)>::empty());
        assert(map_lookup(upsert(es, k, v), k) == Option::Some(v));
        if k2 != k {
            assert(map_lookup(upsert(es, k, v), k2) == map_lookup(
                upsert(es, k, v).drop_first(),
                k2,
            ));
        }
    } else if es[0].0 == k {
        assert(upsert(es, k, v)[0] == (k, v));
        assert(upsert(es, k, v).drop_first() =~= es.drop_first());
        if k2 != k {
            assert(map_lookup(upsert(es, k, v), k2) == map_lookup(es.drop_first(), k2));
            assert(map_lookup(es, k2) == map_lookup(es.drop_first(), k2));
        }
    } else {
        lemma_upsert_lookup(es.drop_first(), k, v, k2);
        assert(upsert(es, k, v)[0] == es[0]);
        assert(upsert(es, k, v).drop_first() =~= upsert(es.drop_first(), k, v));
        if k2 != k {
            if es[0].0 == k2 {
                assert(map_lookup(upsert(es, k, v), k2) == Option::Some(es[0].1));
                assert(map_lookup(es, k2) == Option::Some(es[0].1));
            } else {
                assert(map_lookup(upsert(es, k, v), k2) == map_lookup(
                    upsert(es.drop_first(), k, v),
                    k2,
                ));
                assert(map_lookup(es, k2) == map_lookup(es.drop_first(), k2));
            }
        }
    }
}

/// In a mapping literal, the last pair wins: once the entries
/// reduce, the key of the final pair reads back that pair's value,
/// whatever earlier pairs wrote under the same key.
pub proof fn lemma_map_literal_last_wins<F: HostCallable>(
    s: Seq<(Expression, Expression)>,
    ctx: CtxV<F>,
    es: Seq<(KeyV, ValV)>,
    kv: ValV,
    k: KeyV,
    v: ValV,
)
    requires
        s.len() > 0,
        eval_entries(s, ctx) == Result::<Seq<(KeyV, ValV)>, EvalError>::Ok(es),
        eval_spec(s.last().0, ctx) == Result::<ValV, EvalError>::Ok(kv),
        val_to_key(kv) == Option::Some(k),
        eval_spec(s.last().1, ctx) == Result::<ValV, EvalError>::Ok(v),
    ensures
        map_lookup(es, k) == Option::Some(v),
{
    match eval_entries(s.drop_last(), ctx) {
        Result::Ok(acc) => {
            assert(es == upsert(acc, k, v));
            lemma_upsert_lookup(acc, k, v, k);
        },
        Result::Err(_) => {
            assert(false);
        },
    }
}

/// The truthiness table: empty containers, zero numbers, null and
/// function handles are falsy; non-empty containers, non-zero
/// numbers, and `true` are truthy.
pub proof fn lemma_truthiness_table(items: Seq<ValV>, es: Seq<(KeyV, ValV)>, s: Seq<u8>, m: int)
    ensures
        !truthy(ValV::List(Seq::<ValV>::empty())),
        !truthy(ValV::Mapping(Seq::<(KeyV, ValV)>::empty())),
        !truthy(ValV::String(Seq::<u8>::empty())),
        !truthy(ValV::Bytes(Seq::<u8>::empty())),
        !truthy(ValV::Integer(0)),
        !truthy(ValV::Decimal(0, 1)),
        !truthy(ValV::Null),
        !truthy(ValV::Bool(false)),
        !truthy(ValV::Function(s, Option::None)),
        items.len() > 0 ==> truthy(ValV::List(items)),
        es.len() > 0 ==> truthy(ValV::Mapping(es)),
        s.len() > 0 ==> truthy(ValV::String(s)) && truthy(ValV::Bytes(s)),
        m != 0 ==> truthy(ValV::Integer(m)) && truthy(ValV::Decimal(m, 0)),
        truthy(ValV::Bool(true)),
{
}

} // verus!
