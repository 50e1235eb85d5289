use vstd::prelude::*;
use crate::ast::{Atom, Expression, Member, expr_wf, exprs_wf, lemma_exprs_wf_iff,
    lemma_expr_pairs_wf_iff, member_wf};
use crate::context::{Context, CtxV, HostCallable};
use crate::decimal::Dec;
use crate::ops::{clone_bytes, clone_val, eval_arith, eval_relation, eval_unary, key_eq,
    map_get, val_as_key};
use crate::value::{CelKey, CelMap, CelType, EvalError, KeyV, ValV, arith_v, entries_view, entries_wf,
    keys_unique, lemma_entries_wf_iff, lemma_list_elem_wf, lemma_vals_wf_iff, map_lookup,
    relation_v, res_view, truthy, unary_v, val_to_key, val_view, val_wf, vals_view, vals_wf};

verus! {

broadcast use
    vstd::seq::axiom_seq_index_decreases,
    crate::value::lemma_vals_view_len,
    crate::value::lemma_vals_view_index,
    crate::value::lemma_entries_view_len,
    crate::value::lemma_entries_view_index;

/// The value an atom stands for.
pub open spec fn atom_view(a: Atom) -> ValV {
    match a {
        Atom::Integer(i) => ValV::Integer(i as int),
        Atom::Decimal(d) => ValV::Decimal(d.mantissa as int, d.scale as int),
        Atom::String(s) => ValV::String(s@),
        Atom::Bytes(b) => ValV::Bytes(b@),
        Atom::Bool(b) => ValV::Bool(b),
        Atom::Null => ValV::Null,
    }
}

/// Indexing: an integer position in a list, a key in a mapping.
pub open spec fn index_v(v: ValV, idx: ValV) -> Result<ValV, EvalError> {
    match (v, idx) {
        (ValV::List(items), ValV::Integer(i)) => if 0 <= i < items.len() {
            Result::Ok(items[i])
        } else {
            Result::Err(EvalError::IndexOutOfRange)
        },
        (ValV::Mapping(es), k) => match val_to_key(k) {
            Option::Some(key) => match map_lookup(es, key) {
                Option::Some(w) => Result::Ok(w),
                Option::None => Result::Err(EvalError::NoSuchKey),
            },
            Option::None => Result::Err(EvalError::InvalidKey),
        },
        _ => Result::Err(EvalError::TypeMismatch),
    }
}

/// The entries a mapping literal reduces to, after this entry is
/// written: an existing key keeps its place but takes the new value,
/// a new key goes to the end.
pub open spec fn upsert(es: Seq<(KeyV, ValV)>, k: KeyV, v: ValV) -> Seq<(KeyV, ValV)>
    decreases es.len(),
{
    if es.len() == 0 {
        seq![(k, v)]
    } else if es[0].0 == k {
        seq![(k, v)] + es.drop_first()
    } else {
        seq![es[0]] + upsert(es.drop_first(), k, v)
    }
}

/// What evaluation returns, as a mathematical function of the
/// expression, the environment, and the `call_spec` of each bound
/// host function.
pub open spec fn eval_spec<F: HostCallable>(e: Expression, ctx: CtxV<F>) -> Result<
    ValV,
    EvalError,
>
    decreases e,
{
    match e {
        Expression::Atom(a) => Result::Ok(atom_view(a)),
        Expression::Ident(name) => if ctx.functions.contains_key(name@) {
            Result::Ok(ValV::Function(name@, Option::None))
        } else if ctx.variables.contains_key(name@) {
            Result::Ok(ctx.variables[name@])
        } else {
            Result::Err(EvalError::UnknownIdent)
        },
        Expression::Arithmetic(l, op, r) => match eval_spec(*l, ctx) {
            Result::Err(err) => Result::Err(err),
            Result::Ok(lv) => match eval_spec(*r, ctx) {
                Result::Err(err) => Result::Err(err),
                Result::Ok(rv) => arith_v(op, lv, rv),
            },
        },
        Expression::Relation(l, op, r) => match eval_spec(*l, ctx) {
            Result::Err(err) => Result::Err(err),
            Result::Ok(lv) => match eval_spec(*r, ctx) {
                Result::Err(err) => Result::Err(err),
                Result::Ok(rv) => relation_v(op, lv, rv),
            },
        },
        Expression::Ternary(c, t, f) => match eval_spec(*c, ctx) {
            Result::Err(err) => Result::Err(err),
            Result::Ok(cv) => if truthy(cv) {
                eval_spec(*t, ctx)
            } else {
                eval_spec(*f, ctx)
            },
        },
        Expression::Or(l, r) => match eval_spec(*l, ctx) {
            Result::Err(err) => Result::Err(err),
            Result::Ok(lv) => if truthy(lv) {
                Result::Ok(lv)
            } else {
                eval_spec(*r, ctx)
            },
        },
        Expression::And(l, r) => match eval_spec(*l, ctx) {
            Result::Err(err) => Result::Err(err),
            Result::Ok(lv) => match eval_spec(*r, ctx) {
                Result::Err(err) => Result::Err(err),
                Result::Ok(rv) => Result::Ok(ValV::Bool(truthy(lv) && truthy(rv))),
            },
        },
        Expression::Unary(op, x) => match eval_spec(*x, ctx) {
            Result::Err(err) => Result::Err(err),
            Result::Ok(v) => unary_v(op, v),
        },
        Expression::Member(l, m) => match eval_spec(*l, ctx) {
            Result::Err(err) => Result::Err(err),
            Result::Ok(v) => eval_member(v, *m, ctx),
        },
        Expression::List(items) => match eval_items(items@, ctx) {
            Result::Err(err) => Result::Err(err),
            Result::Ok(vs) => Result::Ok(ValV::List(vs)),
        },
        Expression::MapLit(pairs) => match eval_entries(pairs@, ctx) {
            Result::Err(err) => Result::Err(err),
            Result::Ok(es) => Result::Ok(ValV::Mapping(es)),
        },
    }
}

/// The values a list literal reduces to, left to right; the first
/// error wins.
pub open spec fn eval_items<F: HostCallable>(s: Seq<Expression>, ctx: CtxV<F>) -> Result<
    Seq<ValV>,
    EvalError,
>
    decreases s,
{
    if s.len() == 0 {
        Result::Ok(Seq::empty())
    } else {
        match eval_spec(s[0], ctx) {
            Result::Err(err) => Result::Err(err),
            Result::Ok(v) => match eval_items(s.drop_first(), ctx) {
                Result::Err(err) => Result::Err(err),
                Result::Ok(rest) => Result::Ok(seq![v] + rest),
            },
        }
    }
}

/// The entries a mapping literal reduces to, left to right: each key
/// is evaluated and coerced, each value evaluated, and a repeated key
/// takes the later value.
pub open spec fn eval_entries<F: HostCallable>(
    s: Seq<(Expression, Expression)>,
    ctx: CtxV<F>,
) -> Result<Seq<(KeyV, ValV)>, EvalError>
    decreases s,
{
    if s.len() == 0 {
        Result::Ok(Seq::empty())
    } else {
        match eval_entries(s.drop_last(), ctx) {
            Result::Err(err) => Result::Err(err),
            Result::Ok(acc) => match eval_spec(s.last().0, ctx) {
                Result::Err(err) => Result::Err(err),
                Result::Ok(kv) => match val_to_key(kv) {
                    Option::None => Result::Err(EvalError::InvalidKey),
                    Option::Some(k) => match eval_spec(s.last().1, ctx) {
                        Result::Err(err) => Result::Err(err),
                        Result::Ok(v) => Result::Ok(upsert(acc, k, v)),
                    },
                },
            },
        }
    }
}

/// What a member selector reduces to against an already evaluated
/// receiver.
pub open spec fn eval_member<F: HostCallable>(v: ValV, m: Member, ctx: CtxV<F>) -> Result<
    ValV,
    EvalError,
>
    decreases m,
{
    match m {
        Member::Attribute(name) => if ctx.functions.contains_key(name@) {
            Result::Ok(ValV::Function(name@, Option::Some(Box::new(v))))
        } else {
            Result::Err(EvalError::UnknownMember)
        },
        Member::Fields(_) => Result::Err(EvalError::Unsupported),
        Member::Index(idx) => match eval_spec(*idx, ctx) {
            Result::Err(err) => Result::Err(err),
            Result::Ok(iv) => index_v(v, iv),
        },
        Member::FunctionCall(args) => match v {
            ValV::Function(name, recv) => if !ctx.functions.contains_key(name) {
                Result::Err(EvalError::UnknownFunction)
            } else {
                let f = ctx.functions[name];
                match recv {
                    Option::Some(t) => f.call_spec(Option::Some(*t), args@, ctx),
                    Option::None => if args@.len() == 0 {
                        f.call_spec(Option::None, args@, ctx)
                    } else {
                        match eval_spec(args@[0], ctx) {
                            Result::Err(err) => Result::Err(err),
                            Result::Ok(a0) => f.call_spec(
                                Option::Some(a0),
                                args@.subrange(1, args@.len() as int),
                                ctx,
                            ),
                        }
                    },
                }
            },
            _ => Result::Err(EvalError::NotCallable),
        },
    }
}

/// Writing an entry keeps well-formedness, key uniqueness, and
/// introduces no key but the written one.
pub proof fn lemma_upsert_wf(es: Seq<(KeyV, ValV)>, k: KeyV, v: ValV)
    requires
        entries_wf(es),
        keys_unique(es),
        val_wf(v),
    ensures
        entries_wf(upsert(es, k, v)),
        keys_unique(upsert(es, k, v)),
        forall|i: int|
            0 <= i < upsert(es, k, v).len() ==> ((#[trigger] upsert(es, k, v)[i]).0 == k
                || exists|j: int| 0 <= j < es.len() && (#[trigger] es[j]).0 == upsert(
                es,
                k,
                v,
            )[i].0),
    decreases es.len(),
{
    let r = upsert(es, k, v);
    lemma_entries_wf_iff(es);
    lemma_entries_wf_iff(r);
    if es.len() == 0 {
    } else if es[0].0 == k {
        assert forall|i: int| 0 <= i < r.len() implies val_wf((#[trigger] r[i]).1) by {
            if i > 0 {
                assert(r[i] == es[i]);
            }
        }
        assert forall|i: int, j: int| 0 <= i < j < r.len() implies (#[trigger] r[i]).0 != (
        #[trigger] r[j]).0 by {
            if i > 0 {
                assert(r[i] == es[i]);
            }
            assert(r[j] == es[j]);
            if i == 0 {
                assert(es[0].0 != es[j].0);
            }
        }
        assert forall|i: int| 0 <= i < r.len() implies ((#[trigger] r[i]).0 == k || exists|j: int|
            0 <= j < es.len() && (#[trigger] es[j]).0 == r[i].0) by {
            if i > 0 {
                assert(r[i] == es[i]);
                assert((es[i]).0 == r[i].0);
            }
        }
    } else {
        lemma_entries_wf_iff(es.drop_first());
        assert forall|i: int| 0 <= i < es.drop_first().len() implies val_wf(
            (#[trigger] es.drop_first()[i]).1,
        ) by {
            assert(es.drop_first()[i] == es[i + 1]);
        }
        assert forall|i: int, j: int| 0 <= i < j < es.drop_first().len() implies (
        #[trigger] es.drop_first()[i]).0 != (#[trigger] es.drop_first()[j]).0 by {
            assert(es.drop_first()[i] == es[i + 1]);
            assert(es.drop_first()[j] == es[j + 1]);
        }
        lemma_upsert_wf(es.drop_first(), k, v);
        let rr = upsert(es.drop_first(), k, v);
        lemma_entries_wf_iff(rr);
        assert(r == seq![es[0]] + rr);
        assert forall|i: int| 0 <= i < r.len() implies val_wf((#[trigger] r[i]).1) by {
            if i > 0 {
                assert(r[i] == rr[i - 1]);
            } else {
                assert(r[0] == es[0]);
            }
        }
        assert forall|i: int| 0 <= i < r.len() implies ((#[trigger] r[i]).0 == k || exists|j: int|
            0 <= j < es.len() && (#[trigger] es[j]).0 == r[i].0) by {
            if i == 0 {
                assert(es[0].0 == r[0].0);
            } else {
                assert(r[i] == rr[i - 1]);
                if rr[i - 1].0 != k {
                    let j = choose|j: int|
                        0 <= j < es.drop_first().len() && (#[trigger] es.drop_first()[j]).0 == rr[i - 1].0;
                    assert(es[j + 1].0 == r[i].0);
                }
            }
        }
        assert forall|i: int, j: int| 0 <= i < j < r.len() implies (#[trigger] r[i]).0 != (
        #[trigger] r[j]).0 by {
            if i == 0 {
                assert(r[j] == rr[j - 1]);
                if rr[j - 1].0 == k {
                } else {
                    let w = choose|w: int|
                        0 <= w < es.drop_first().len() && (#[trigger] es.drop_first()[w]).0 == rr[j - 1].0;
                    assert(es.drop_first()[w] == es[w + 1]);
                    assert(es[0].0 != es[w + 1].0);
                }
            } else {
                assert(r[i] == rr[i - 1]);
                assert(r[j] == rr[j - 1]);
            }
        }
    }
}

/// Once a prefix of a mapping literal fails, the whole literal fails
/// the same way.
pub proof fn lemma_entries_prefix_err<F: HostCallable>(
    s: Seq<(Expression, Expression)>,
    ctx: CtxV<F>,
    i: int,
)
    requires
        0 <= i <= s.len(),
        eval_entries(s.take(i), ctx) is Err,
    ensures
        eval_entries(s, ctx) == eval_entries(s.take(i), ctx),
    decreases s.len() - i,
{
    if i == s.len() {
        assert(s.take(i) =~= s);
    } else {
        assert(s.take(i + 1).drop_last() =~= s.take(i));
        assert(eval_entries(s.take(i + 1), ctx) == eval_entries(s.take(i), ctx));
        lemma_entries_prefix_err(s, ctx, i + 1);
    }
}

/// Writes one entry of a mapping under construction: replaces the
/// value of an existing key in place, else appends.
#[verifier::loop_isolation(false)]
fn map_upsert(es: &mut Vec<(CelKey, CelType)>, k: CelKey, v: CelType)
    ensures
        entries_view(final(es)@) == upsert(entries_view(old(es)@), k@, v@),
{
    let ghost full = entries_view(es@);
    proof {
        assert(full.skip(0) =~= full);
    }
    let mut j: usize = 0;
    while j < es.len()
        invariant
            j <= es@.len(),
            es@ == old(es)@,
            upsert(full, k@, v@) == full.take(j as int) + upsert(full.skip(j as int), k@, v@),
            forall|t: int| 0 <= t < j ==> (#[trigger] full[t]).0 != k@,
        decreases es@.len() - j,
    {
        proof {
            assert(full.skip(j as int)[0] == full[j as int]);
            assert(full.skip(j as int).drop_first() =~= full.skip(j + 1 as int));
        }
        if key_eq(&es[j].0, &k) {
            proof {
                assert(upsert(full.skip(j as int), k@, v@) == seq![(k@, v@)] + full.skip(
                    j + 1 as int,
                ));
            }
            let m = &mut es[j];
            *m = (k, v);
            proof {
                assert(entries_view(es@) =~= full.take(j as int) + (seq![(k@, v@)] + full.skip(
                    j + 1 as int,
                )));
            }
            return ;
        }
        proof {
            assert(full.take(j + 1 as int) =~= full.take(j as int) + seq![full[j as int]]);
            assert(full.take(j as int) + (seq![full[j as int]] + upsert(
                full.skip(j + 1 as int),
                k@,
                v@,
            )) =~= (full.take(j as int) + seq![full[j as int]]) + upsert(
                full.skip(j + 1 as int),
                k@,
                v@,
            ));
        }
        j = j + 1;
    }
    proof {
        assert(full.skip(es@.len() as int).len() == 0);
    }
    es.push((k, v));
    proof {
        assert(entries_view(es@) =~= full.take(full.len() as int) + seq![(k@, v@)]);
    }
}


/// One step of a list literal: the head element, then the rest.
proof fn lemma_eval_items_step<F: HostCallable>(s: Seq<Expression>, ctx: CtxV<F>, i: int)
    requires
        0 <= i < s.len(),
    ensures
        eval_items(s.skip(i), ctx) == (match eval_spec(s[i], ctx) {
            Result::Err(err) => Result::<Seq<ValV>, EvalError>::Err(err),
            Result::Ok(v) => match eval_items(s.skip(i + 1), ctx) {
                Result::Err(err) => Result::<Seq<ValV>, EvalError>::Err(err),
                Result::Ok(rest) => Result::<Seq<ValV>, EvalError>::Ok(seq![v] + rest),
            },
        }),
{
    assert(s.skip(i)[0] == s[i]);
    assert(s.skip(i).drop_first() =~= s.skip(i + 1));
}

/// Reduces the elements of a list literal, left to right.
#[verifier::loop_isolation(false)]
fn eval_list<F: HostCallable>(items: &Vec<Expression>, ctx: &Context<F>) -> (r: Result<
    Vec<CelType>,
    EvalError,
>)
    requires
        ctx.wf(),
        exprs_wf(items@),
    ensures
        match r {
            Result::Ok(vs) => eval_items(items@, ctx@) == Result::<Seq<ValV>, EvalError>::Ok(
                vals_view(vs@),
            ) && vals_wf(vals_view(vs@)),
            Result::Err(err) => eval_items(items@, ctx@) == Result::<Seq<ValV>, EvalError>::Err(
                err,
            ),
        },
    decreases items,
{
    let mut acc: Vec<CelType> = Vec::new();
    proof {
        assert(items@.skip(0) =~= items@);
        lemma_exprs_wf_iff(items@);
    }
    let mut i: usize = 0;
    while i < items.len()
        invariant
            i <= items@.len(),
            acc@.len() == i,
            forall|t: int| 0 <= t < i ==> val_wf(val_view(#[trigger] acc@[t])),
            eval_items(items@, ctx@) == (match eval_items(items@.skip(i as int), ctx@) {
                Result::Ok(rest) => Result::<Seq<ValV>, EvalError>::Ok(vals_view(acc@) + rest),
                Result::Err(err) => Result::<Seq<ValV>, EvalError>::Err(err),
            }),
        decreases items@.len() - i,
    {
        proof {
            assert(decreases_to!(*items => items@));
            assert(decreases_to!(items@ => items@[i as int]));
            assert(items@.skip(i as int)[0] == items@[i as int]);
            assert(items@.skip(i as int).drop_first() =~= items@.skip(i + 1 as int));
            lemma_eval_items_step(items@, ctx@, i as int);
        }
        match CelType::resolve(&items[i], ctx) {
            Result::Err(err) => {
                return Result::Err(err);
            },
            Result::Ok(v) => {
                let ghost prev = acc@;
                acc.push(v);
                proof {
                    assert(acc@.drop_last() =~= prev);
                    assert(vals_view(acc@) =~= vals_view(acc@.drop_last()) + seq![
                        val_view(acc@.last()),
                    ]);
                    let rest_r = eval_items(items@.skip(i + 1 as int), ctx@);
                    if rest_r is Ok {
                        let rest = rest_r->Ok_0;
                        assert((vals_view(acc@.drop_last()) + (seq![val_view(acc@.last())]
                            + rest)) =~= (vals_view(acc@) + rest));
                    }
                }
            },
        }
        i = i + 1;
    }
    proof {
        assert(items@.skip(items@.len() as int).len() == 0);
        lemma_vals_wf_iff(vals_view(acc@));
        assert(vals_view(acc@) + Seq::<ValV>::empty() =~= vals_view(acc@));
    }
    Result::Ok(acc)
}

/// Reduces the entries of a mapping literal, left to right; a
/// repeated key takes the later value.
#[verifier::loop_isolation(false)]
fn eval_map_lit<F: HostCallable>(pairs: &Vec<(Expression, Expression)>, ctx: &Context<F>) -> (r:
    Result<Vec<(CelKey, CelType)>, EvalError>)
    requires
        ctx.wf(),
        crate::ast::expr_pairs_wf(pairs@),
    ensures
        match r {
            Result::Ok(acc) => eval_entries(pairs@, ctx@) == Result::<
                Seq<(KeyV, ValV)>,
                EvalError,
            >::Ok(entries_view(acc@)) && entries_wf(entries_view(acc@)) && keys_unique(
                entries_view(acc@),
            ),
            Result::Err(err) => eval_entries(pairs@, ctx@) == Result::<
                Seq<(KeyV, ValV)>,
                EvalError,
            >::Err(err),
        },
    decreases pairs,
{
    let mut acc: Vec<(CelKey, CelType)> = Vec::new();
    proof {
        assert(pairs@.take(0) =~= Seq::<(Expression, Expression)>::empty());
        assert(entries_view(acc@) =~= Seq::<(KeyV, ValV)>::empty());
        lemma_expr_pairs_wf_iff(pairs@);
    }
    let mut i: usize = 0;
    while i < pairs.len()
        invariant
            i <= pairs@.len(),
            eval_entries(pairs@.take(i as int), ctx@) == Result::<
                Seq<(KeyV, ValV)>,
                EvalError,
            >::Ok(entries_view(acc@)),
            entries_wf(entries_view(acc@)),
            keys_unique(entries_view(acc@)),
        decreases pairs@.len() - i,
    {
        proof {
            assert(decreases_to!(*pairs => pairs@));
            assert(decreases_to!(pairs@ => pairs@[i as int]));
            assert(pairs@.take(i + 1 as int).drop_last() =~= pairs@.take(i as int));
            assert(pairs@.take(i + 1 as int).last() == pairs@[i as int]);
        }
        let kv = match CelType::resolve(&pairs[i].0, ctx) {
            Result::Err(err) => {
                proof {
                    lemma_entries_prefix_err(pairs@, ctx@, i + 1 as int);
                }
                return Result::Err(err);
            },
            Result::Ok(kv) => kv,
        };
        let k = match val_as_key(&kv) {
            Option::None => {
                proof {
                    lemma_entries_prefix_err(pairs@, ctx@, i + 1 as int);
                }
                return Result::Err(EvalError::InvalidKey);
            },
            Option::Some(k) => k,
        };
        let vv = match CelType::resolve(&pairs[i].1, ctx) {
            Result::Err(err) => {
                proof {
                    lemma_entries_prefix_err(pairs@, ctx@, i + 1 as int);
                }
                return Result::Err(err);
            },
            Result::Ok(vv) => vv,
        };
        proof {
            lemma_upsert_wf(entries_view(acc@), k@, vv@);
        }
        map_upsert(&mut acc, k, vv);
        i = i + 1;
    }
    proof {
        assert(pairs@.take(pairs@.len() as int) =~= pairs@);
    }
    Result::Ok(acc)
}

impl CelType {
    /// Reduces an expression to a value against the environment: the
    /// evaluator's entry point. The result is exactly `eval_spec` of
    /// the expression.
    #[verifier::loop_isolation(false)]
    #[verifier::rlimit(100)]
    pub fn resolve<F: HostCallable>(expr: &Expression, ctx: &Context<F>) -> (r: Result<
        CelType,
        EvalError,
    >)
        requires
            ctx.wf(),
            expr_wf(*expr),
        ensures
            res_view(r) == eval_spec(*expr, ctx@),
            r matches Result::Ok(v) ==> val_wf(v@),
        decreases expr,
    {
        proof {
            reveal_with_fuel(crate::value::val_view, 2);
            reveal_with_fuel(crate::value::val_wf, 2);
        }
        match expr {
            Expression::Atom(a) => Result::Ok(
                match a {
                    Atom::Integer(i) => CelType::Integer(*i),
                    Atom::Decimal(d) => CelType::Decimal(Dec { mantissa: d.mantissa, scale: d.scale }),
                    Atom::String(s) => CelType::String(clone_bytes(s)),
                    Atom::Bytes(b) => CelType::Bytes(clone_bytes(b)),
                    Atom::Bool(b) => CelType::Bool(*b),
                    Atom::Null => CelType::Null,
                },
            ),
            Expression::Ident(name) => match ctx.get_function(name) {
                Option::Some(_) => Result::Ok(CelType::Function(clone_bytes(name), Option::None)),
                Option::None => match ctx.get_variable(name) {
                    Option::Some(v) => {
                        proof {
                            assert(val_wf(ctx@.variables[name@]));
                        }
                        Result::Ok(clone_val(v))
                    },
                    Option::None => Result::Err(EvalError::UnknownIdent),
                },
            },
            Expression::Arithmetic(l, op, r) => match CelType::resolve(l, ctx) {
                Result::Err(err) => Result::Err(err),
                Result::Ok(lv) => match CelType::resolve(r, ctx) {
                    Result::Err(err) => Result::Err(err),
                    Result::Ok(rv) => eval_arith(*op, lv, rv),
                },
            },
            Expression::Relation(l, op, r) => match CelType::resolve(l, ctx) {
                Result::Err(err) => Result::Err(err),
                Result::Ok(lv) => match CelType::resolve(r, ctx) {
                    Result::Err(err) => Result::Err(err),
                    Result::Ok(rv) => eval_relation(*op, &lv, &rv),
                },
            },
            Expression::Ternary(c, t, f) => match CelType::resolve(c, ctx) {
                Result::Err(err) => Result::Err(err),
                Result::Ok(cv) => if cv.to_bool() {
                    CelType::resolve(t, ctx)
                } else {
                    CelType::resolve(f, ctx)
                },
            },
            Expression::Or(l, r) => match CelType::resolve(l, ctx) {
                Result::Err(err) => Result::Err(err),
                Result::Ok(lv) => if lv.to_bool() {
                    Result::Ok(lv)
                } else {
                    CelType::resolve(r, ctx)
                },
            },
            Expression::And(l, r) => match CelType::resolve(l, ctx) {
                Result::Err(err) => Result::Err(err),
                Result::Ok(lv) => match CelType::resolve(r, ctx) {
                    Result::Err(err) => Result::Err(err),
                    Result::Ok(rv) => {
                        let lb = lv.to_bool();
                        let rb = rv.to_bool();
                        Result::Ok(CelType::Bool(lb && rb))
                    },
                },
            },
            Expression::Unary(op, x) => match CelType::resolve(x, ctx) {
                Result::Err(err) => Result::Err(err),
                Result::Ok(v) => eval_unary(*op, v),
            },
            Expression::Member(l, m) => match CelType::resolve(l, ctx) {
                Result::Err(err) => Result::Err(err),
                Result::Ok(v) => v.member(m, ctx),
            },
            Expression::List(items) => {
                proof {
                    assert(decreases_to!(*expr => expr->List_0));
                }
                match eval_list(items, ctx) {
                    Result::Ok(vs) => Result::Ok(CelType::List(vs)),
                    Result::Err(err) => Result::Err(err),
                }
            },
            Expression::MapLit(pairs) => {
                proof {
                    assert(decreases_to!(*expr => expr->MapLit_0));
                }
                match eval_map_lit(pairs, ctx) {
                    Result::Ok(acc) => Result::Ok(CelType::Mapping(CelMap { map: acc })),
                    Result::Err(err) => Result::Err(err),
                }
            },
        }
    }

    /// Reduces a member selector against the already evaluated
    /// receiver.
    #[verifier::loop_isolation(false)]
    pub fn member<F: HostCallable>(self, m: &Member, ctx: &Context<F>) -> (r: Result<
        CelType,
        EvalError,
    >)
        requires
            ctx.wf(),
            member_wf(*m),
            val_wf(self@),
        ensures
            res_view(r) == eval_member(self@, *m, ctx@),
            r matches Result::Ok(v) ==> val_wf(v@),
        decreases m,
    {
        proof {
            reveal_with_fuel(crate::value::val_view, 2);
            reveal_with_fuel(crate::value::val_wf, 2);
        }
        match m {
            Member::Attribute(name) => match ctx.get_function(name) {
                Option::Some(_) => Result::Ok(
                    CelType::Function(clone_bytes(name), Option::Some(Box::new(self))),
                ),
                Option::None => Result::Err(EvalError::UnknownMember),
            },
            Member::Fields(_) => Result::Err(EvalError::Unsupported),
            Member::Index(idx) => {
                let iv = match CelType::resolve(idx, ctx) {
                    Result::Err(err) => {
                        return Result::Err(err);
                    },
                    Result::Ok(iv) => iv,
                };
                match (self, iv) {
                    (CelType::List(items), CelType::Integer(i)) => {
                        if i < 0 {
                            return Result::Err(EvalError::IndexOutOfRange);
                        }
                        if (i as u64) >= (items.len() as u64) {
                            return Result::Err(EvalError::IndexOutOfRange);
                        }
                        let iu = i as usize;
                        proof {
                            lemma_list_elem_wf(vals_view(items@), iu as int);
                        }
                        Result::Ok(clone_val(&items[iu]))
                    },
                    (CelType::Mapping(mp), k) => match val_as_key(&k) {
                        Option::None => Result::Err(EvalError::InvalidKey),
                        Option::Some(key) => match map_get(&mp.map, &key) {
                            Option::Some(v) => {
                                proof {
                                    let w = choose|w: int|
                                        0 <= w < mp.map@.len() && *v == (
                                        #[trigger] mp.map@[w]).1;
                                    lemma_entries_wf_iff(entries_view(mp.map@));
                                    assert(val_wf((entries_view(mp.map@)[w]).1));
                                    assert(entries_view(mp.map@)[w].1 == val_view(mp.map@[w].1));
                                }
                                Result::Ok(clone_val(v))
                            },
                            Option::None => Result::Err(EvalError::NoSuchKey),
                        },
                    },
                    _ => Result::Err(EvalError::TypeMismatch),
                }
            },
            Member::FunctionCall(args) => match self {
                CelType::Function(name, recv) => match ctx.get_function(&name) {
                    Option::None => Result::Err(EvalError::UnknownFunction),
                    Option::Some(f) => match recv {
                        Option::Some(t) => f.call(Option::Some(&*t), args.as_slice(), ctx),
                        Option::None => {
                            if args.len() == 0 {
                                f.call(Option::None, args.as_slice(), ctx)
                            } else {
                                proof {
                                    assert(decreases_to!(*m => m->FunctionCall_0));
                                    assert(decreases_to!(m->FunctionCall_0
                                        => m->FunctionCall_0@));
                                    assert(decreases_to!(m->FunctionCall_0@
                                        => m->FunctionCall_0@[0]));
                                    lemma_exprs_wf_iff(args@);
                                }
                                let a0 = match CelType::resolve(&args[0], ctx) {
                                    Result::Err(err) => {
                                        return Result::Err(err);
                                    },
                                    Result::Ok(a0) => a0,
                                };
                                let rest = vstd::slice::slice_subrange(
                                    args.as_slice(),
                                    1,
                                    args.len(),
                                );
                                proof {
                                    lemma_exprs_wf_iff(args@.subrange(1, args@.len() as int));
                                }
                                f.call(Option::Some(&a0), rest, ctx)
                            }
                        },
                    },
                },
                _ => Result::Err(EvalError::NotCallable),
            },
        }
    }
}

} // verus!
