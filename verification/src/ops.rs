use vstd::prelude::*;
use crate::ast::{ArithmeticOp, RelationOp, UnaryOp};
use crate::decimal::{Dec, dec_add, dec_cmp, dec_div, dec_mul, dec_rem, dec_sub, pow10};
use crate::value::{CelKey, CelMap, CelType, EvalError, KeyV, ValV};
use crate::value::{CmpRes, abs_i, arith_v, cel_cmp, cel_cmp_lists, cel_eq, entries_view,
    in_v, int_in_range, is_substring, lemma_vals_wf_iff, lex_cmp_bytes,
    relation_v, res_view, trunc_div, trunc_rem, unary_v, val_to_key,
    lemma_list_elem_wf, lemma_mapping_entry_wf, lemma_maps_cel_eq_iff, lemma_seqs_cel_eq_iff,
    map_lookup, truthy, val_view, val_wf, vals_view};

verus! {

broadcast use
    vstd::seq::axiom_seq_index_decreases,
    crate::value::lemma_vals_view_len,
    crate::value::lemma_vals_view_index,
    crate::value::lemma_entries_view_len,
    crate::value::lemma_entries_view_index;

impl CelType {
    /// The truthiness projection used by the logical forms.
    pub fn to_bool(&self) -> (r: bool)
        ensures
            r == truthy(self@),
    {
        proof {
            reveal_with_fuel(crate::value::val_view, 2);
        }
        match self {
            CelType::List(v) => v.len() > 0,
            CelType::Mapping(m) => m.map.len() > 0,
            CelType::Function(_, _) => false,
            CelType::Integer(v) => *v != 0,
            CelType::Decimal(d) => d.mantissa != 0,
            CelType::String(s) => s.len() > 0,
            CelType::Bytes(b) => b.len() > 0,
            CelType::Bool(b) => *b,
            CelType::Null => false,
        }
    }
}

/// Byte-for-byte equality of two byte vectors.
#[verifier::loop_isolation(false)]
pub fn bytes_eq(a: &Vec<u8>, b: &Vec<u8>) -> (r: bool)
    ensures
        r == (a@ == b@),
{
    if a.len() != b.len() {
        return false;
    }
    let mut i: usize = 0;
    while i < a.len()
        invariant
            a@.len() == b@.len(),
            i <= a@.len(),
            forall|j: int| 0 <= j < i ==> a@[j] == b@[j],
        decreases a@.len() - i,
    {
        if a[i] != b[i] {
            return false;
        }
        i = i + 1;
    }
    proof {
        assert(a@ =~= b@);
    }
    true
}

/// A fresh copy of a byte vector.
#[verifier::loop_isolation(false)]
pub fn clone_bytes(v: &Vec<u8>) -> (r: Vec<u8>)
    ensures
        r@ == v@,
{
    let mut out: Vec<u8> = Vec::new();
    let mut i: usize = 0;
    while i < v.len()
        invariant
            i <= v@.len(),
            out@ == v@.take(i as int),
        decreases v@.len() - i,
    {
        out.push(v[i]);
        proof {
            assert(out@ =~= v@.take(i + 1 as int));
        }
        i = i + 1;
    }
    proof {
        assert(v@.take(v@.len() as int) =~= v@);
    }
    out
}

/// Equality of two map keys, the one key uniqueness goes by.
pub fn key_eq(a: &CelKey, b: &CelKey) -> (r: bool)
    ensures
        r == (a@ == b@),
{
    match (a, b) {
        (CelKey::Integer(x), CelKey::Integer(y)) => *x == *y,
        (CelKey::Uint(x), CelKey::Uint(y)) => *x == *y,
        (CelKey::Bool(x), CelKey::Bool(y)) => *x == *y,
        (CelKey::String(x), CelKey::String(y)) => bytes_eq(x, y),
        _ => false,
    }
}

/// A fresh copy of a map key.
pub fn clone_key(k: &CelKey) -> (r: CelKey)
    ensures
        r@ == k@,
{
    match k {
        CelKey::Integer(i) => CelKey::Integer(*i),
        CelKey::Uint(u) => CelKey::Uint(*u),
        CelKey::Bool(b) => CelKey::Bool(*b),
        CelKey::String(s) => CelKey::String(clone_bytes(s)),
    }
}

/// A fresh copy of a value, equal to the original in every contract.
#[verifier::loop_isolation(false)]
pub fn clone_val(v: &CelType) -> (r: CelType)
    ensures
        r@ == v@,
    decreases v,
{
    proof {
        reveal_with_fuel(crate::value::val_view, 2);
    }
    match v {
        CelType::Integer(i) => CelType::Integer(*i),
        CelType::Decimal(d) => CelType::Decimal(Dec { mantissa: d.mantissa, scale: d.scale }),
        CelType::String(s) => CelType::String(clone_bytes(s)),
        CelType::Bytes(b) => CelType::Bytes(clone_bytes(b)),
        CelType::Bool(b) => CelType::Bool(*b),
        CelType::Null => CelType::Null,
        CelType::Function(n, recv) => {
            let name = clone_bytes(n);
            let rc: Option<Box<CelType>> = match recv {
                Option::Some(b) => {
                    proof {
                        assert(decreases_to!(*v => v->Function_1));
                        assert(decreases_to!(v->Function_1 => *v->Function_1->0));
                    }
                    Option::Some(Box::new(clone_val(&**b)))
                },
                Option::None => Option::None,
            };
            CelType::Function(name, rc)
        },
        CelType::List(items) => {
            let mut out: Vec<CelType> = Vec::new();
            let mut i: usize = 0;
            while i < items.len()
                invariant
                    i <= items@.len(),
                    out@.len() == i,
                    forall|j: int| 0 <= j < i ==> val_view(out@[j]) == val_view(items@[j]),
                decreases items@.len() - i,
            {
                proof {
                    assert(decreases_to!(*v => v->List_0));
                    assert(decreases_to!(v->List_0 => v->List_0@));
                    assert(decreases_to!(v->List_0@ => v->List_0@[i as int]));
                }
                out.push(clone_val(&items[i]));
                i = i + 1;
            }
            proof {
                assert(vals_view(out@) =~= vals_view(items@));
            }
            CelType::List(out)
        },
        CelType::Mapping(m) => {
            let mut out: Vec<(CelKey, CelType)> = Vec::new();
            let mut i: usize = 0;
            while i < m.map.len()
                invariant
                    i <= m.map@.len(),
                    out@.len() == i,
                    forall|j: int| 0 <= j < i ==> (#[trigger] out@[j]).0@ == m.map@[j].0@
                        && val_view(out@[j].1) == val_view(m.map@[j].1),
                decreases m.map@.len() - i,
            {
                proof {
                    assert(decreases_to!(*v => v->Mapping_0));
                    assert(decreases_to!(v->Mapping_0 => v->Mapping_0.map));
                    assert(decreases_to!(v->Mapping_0.map => v->Mapping_0.map@));
                    assert(decreases_to!(v->Mapping_0.map@ => v->Mapping_0.map@[i as int]));
                }
                let k = clone_key(&m.map[i].0);
                let val = clone_val(&m.map[i].1);
                out.push((k, val));
                i = i + 1;
            }
            proof {
                assert(entries_view(out@) =~= entries_view(m.map@));
            }
            CelType::Mapping(CelMap { map: out })
        },
    }
}

/// The value stored under a key, by the first matching entry.
#[verifier::loop_isolation(false)]
pub fn map_get<'a>(es: &'a Vec<(CelKey, CelType)>, k: &CelKey) -> (r: Option<&'a CelType>)
    ensures
        match r {
            Option::Some(v) => map_lookup(entries_view(es@), k@) == Option::Some(val_view(*v))
                && exists|i: int| 0 <= i < es@.len() && *v == (#[trigger] es@[i]).1,
            Option::None => map_lookup(entries_view(es@), k@) is None,
        },
{
    proof {
        assert(entries_view(es@).skip(0) =~= entries_view(es@));
    }
    let mut i: usize = 0;
    while i < es.len()
        invariant
            i <= es@.len(),
            map_lookup(entries_view(es@), k@) == map_lookup(entries_view(es@).skip(i as int), k@),
        decreases es@.len() - i,
    {
        proof {
            assert(entries_view(es@).skip(i as int)[0] == entries_view(es@)[i as int]);
            assert(entries_view(es@).skip(i as int).drop_first() =~= entries_view(es@).skip(
                i + 1 as int,
            ));
        }
        if key_eq(&es[i].0, k) {
            proof {
                assert(es@[i as int] == es@[i as int]);
            }
            return Option::Some(&es[i].1);
        }
        i = i + 1;
    }
    proof {
        assert(entries_view(es@).skip(es@.len() as int).len() == 0);
    }
    Option::None
}

/// Structural equality of two values, promoting mixed numerics.
#[verifier::loop_isolation(false)]
pub fn cel_equals(a: &CelType, b: &CelType) -> (r: bool)
    requires
        val_wf(a@),
        val_wf(b@),
    ensures
        r == cel_eq(a@, b@),
    decreases a,
{
    proof {
        reveal_with_fuel(crate::value::val_view, 2);
        reveal_with_fuel(crate::value::val_wf, 2);
        assert(pow10(0) == 1);
    }
    match (a, b) {
        (CelType::Integer(i), CelType::Integer(j)) => *i == *j,
        (CelType::Integer(i), CelType::Decimal(d)) => dec_cmp(&Dec::from_i64(*i), d) == 0,
        (CelType::Decimal(d), CelType::Integer(i)) => dec_cmp(d, &Dec::from_i64(*i)) == 0,
        (CelType::Decimal(x), CelType::Decimal(y)) => dec_cmp(x, y) == 0,
        (CelType::String(x), CelType::String(y)) => bytes_eq(x, y),
        (CelType::Bytes(x), CelType::Bytes(y)) => bytes_eq(x, y),
        (CelType::Bool(x), CelType::Bool(y)) => *x == *y,
        (CelType::Null, CelType::Null) => true,
        (CelType::Function(n1, r1), CelType::Function(n2, r2)) => {
            if !bytes_eq(n1, n2) {
                false
            } else {
                match (r1, r2) {
                    (Option::Some(x), Option::Some(y)) => {
                        proof {
                            assert(decreases_to!(*a => a->Function_1));
                            assert(decreases_to!(a->Function_1 => *a->Function_1->0));
                        }
                        cel_equals(&**x, &**y)
                    },
                    (Option::None, Option::None) => true,
                    _ => false,
                }
            }
        },
        (CelType::List(xs), CelType::List(ys)) => {
            if xs.len() != ys.len() {
                return false;
            }
            let mut i: usize = 0;
            while i < xs.len()
                invariant
                    i <= xs@.len(),
                    forall|j: int| 0 <= j < i ==> cel_eq(
                        #[trigger] vals_view(xs@)[j],
                        vals_view(ys@)[j],
                    ),
                decreases xs@.len() - i,
            {
                proof {
                    assert(decreases_to!(*a => a->List_0));
                    assert(decreases_to!(a->List_0 => a->List_0@));
                    assert(decreases_to!(a->List_0@ => a->List_0@[i as int]));
                    reveal_with_fuel(crate::value::val_view, 2);
                    reveal_with_fuel(crate::value::val_wf, 2);
                    assert(a@ == ValV::List(vals_view(xs@)));
                    assert(b@ == ValV::List(vals_view(ys@)));
                    lemma_list_elem_wf(vals_view(xs@), i as int);
                    lemma_list_elem_wf(vals_view(ys@), i as int);
                    assert(val_wf(vals_view(ys@)[i as int]));
                }
                if !cel_equals(&xs[i], &ys[i]) {
                    proof {
                        if cel_eq(a@, b@) {
                            lemma_seqs_cel_eq_iff(vals_view(xs@), vals_view(ys@));
                            assert(cel_eq(vals_view(xs@)[i as int], vals_view(ys@)[i as int]));
                        }
                    }
                    return false;
                }
                i = i + 1;
            }
            proof {
                lemma_seqs_cel_eq_iff(vals_view(xs@), vals_view(ys@));
            }
            true
        },
        (CelType::Mapping(x), CelType::Mapping(y)) => {
            if x.map.len() != y.map.len() {
                return false;
            }
            let mut i: usize = 0;
            while i < x.map.len()
                invariant
                    i <= x.map@.len(),
                    forall|j: int| 0 <= j < i ==> (match map_lookup(
                        entries_view(y.map@),
                        (#[trigger] entries_view(x.map@)[j]).0,
                    ) {
                        Option::Some(v) => cel_eq(entries_view(x.map@)[j].1, v),
                        Option::None => false,
                    }),
                decreases x.map@.len() - i,
            {
                proof {
                    assert(decreases_to!(*a => a->Mapping_0));
                    assert(decreases_to!(a->Mapping_0 => a->Mapping_0.map));
                    assert(decreases_to!(a->Mapping_0.map => a->Mapping_0.map@));
                    assert(decreases_to!(a->Mapping_0.map@ => a->Mapping_0.map@[i as int]));
                }
                proof {
                    reveal_with_fuel(crate::value::val_view, 2);
                    assert(a@ == ValV::Mapping(entries_view(x.map@)));
                    assert(b@ == ValV::Mapping(entries_view(y.map@)));
                    lemma_mapping_entry_wf(entries_view(x.map@), i as int);
                    assert(entries_view(x.map@)[i as int].1 == val_view(x.map@[i as int].1));
                }
                match map_get(&y.map, &x.map[i].0) {
                    Option::Some(v) => {
                        proof {
                            let w = choose|w: int| 0 <= w < y.map@.len() && *v == (
                            #[trigger] y.map@[w]).1;
                            lemma_mapping_entry_wf(entries_view(y.map@), w);
                            assert(entries_view(y.map@)[w].1 == val_view(y.map@[w].1));
                        }
                        if !cel_equals(&x.map[i].1, v) {
                            proof {
                                if cel_eq(a@, b@) {
                                    lemma_maps_cel_eq_iff(
                                        entries_view(x.map@),
                                        entries_view(y.map@),
                                    );
                                    assert(match map_lookup(
                                        entries_view(y.map@),
                                        (#[trigger] entries_view(x.map@)[i as int]).0,
                                    ) {
                                        Option::Some(vv) => cel_eq(
                                            entries_view(x.map@)[i as int].1,
                                            vv,
                                        ),
                                        Option::None => false,
                                    });
                                }
                            }
                            return false;
                        }
                    },
                    Option::None => {
                        proof {
                            if cel_eq(a@, b@) {
                                lemma_maps_cel_eq_iff(
                                    entries_view(x.map@),
                                    entries_view(y.map@),
                                );
                                assert(match map_lookup(
                                    entries_view(y.map@),
                                    (#[trigger] entries_view(x.map@)[i as int]).0,
                                ) {
                                    Option::Some(vv) => cel_eq(
                                        entries_view(x.map@)[i as int].1,
                                        vv,
                                    ),
                                    Option::None => false,
                                });
                            }
                        }
                        return false;
                    },
                }
                i = i + 1;
            }
            proof {
                lemma_maps_cel_eq_iff(entries_view(x.map@), entries_view(y.map@));
            }
            true
        },
        _ => {
            proof {
                assert(!cel_eq(a@, b@));
            }
            false
        },
    }
}

/// Whether `n` stands at offset `i` of `h`.
#[verifier::loop_isolation(false)]
fn bytes_match_at(h: &Vec<u8>, n: &Vec<u8>, i: usize) -> (r: bool)
    requires
        i + n@.len() <= h@.len(),
    ensures
        r == (h@.subrange(i as int, i + n@.len()) == n@),
{
    let hl = h.len();
    let nl = n.len();
    let mut j: usize = 0;
    while j < nl
        invariant
            j <= n@.len(),
            forall|t: int| 0 <= t < j ==> h@[i + t] == n@[t],
        decreases n@.len() - j,
    {
        if h[i + j] != n[j] {
            proof {
                assert(h@.subrange(i as int, i + n@.len())[j as int] == h@[i + j]);
            }
            return false;
        }
        j = j + 1;
    }
    proof {
        assert(h@.subrange(i as int, i + n@.len()) =~= n@);
    }
    true
}

/// Whether `n` occurs contiguously inside `h`.
#[verifier::loop_isolation(false)]
pub fn contains_bytes(h: &Vec<u8>, n: &Vec<u8>) -> (r: bool)
    ensures
        r == is_substring(h@, n@),
{
    if n.len() > h.len() {
        proof {
            assert(!is_substring(h@, n@));
        }
        return false;
    }
    if n.len() == 0 {
        proof {
            assert(h@.subrange(0, 0 + n@.len() as int) =~= n@);
        }
        return true;
    }
    let bound = h.len() - n.len();
    let mut i: usize = 0;
    while i <= bound
        invariant
            0 < n@.len() <= h@.len(),
            bound == h@.len() - n@.len(),
            i <= h@.len() - n@.len() + 1,
            forall|s: int| 0 <= s < i ==> #[trigger] h@.subrange(s, s + n@.len()) != n@,
        decreases h@.len() - n@.len() - i + 1,
    {
        if bytes_match_at(h, n, i) {
            proof {
                assert(h@.subrange(i as int, i + n@.len()) == n@);
            }
            return true;
        }
        i = i + 1;
    }
    proof {
        if is_substring(h@, n@) {
            let s = choose|s: int| 0 <= s <= h@.len() - n@.len() && #[trigger] h@.subrange(
                s,
                s + n@.len(),
            ) == n@;
            assert(h@.subrange(s, s + n@.len()) != n@);
        }
    }
    false
}

/// Lexicographic comparison of two byte vectors.
#[verifier::loop_isolation(false)]
pub fn lex_compare_bytes(x: &Vec<u8>, y: &Vec<u8>) -> (r: CmpRes)
    ensures
        r == lex_cmp_bytes(x@, y@),
{
    proof {
        assert(x@.skip(0) =~= x@);
        assert(y@.skip(0) =~= y@);
    }
    let mut i: usize = 0;
    while i < x.len() && i < y.len()
        invariant
            i <= x@.len(),
            i <= y@.len(),
            lex_cmp_bytes(x@, y@) == lex_cmp_bytes(x@.skip(i as int), y@.skip(i as int)),
        decreases x@.len() - i,
    {
        proof {
            assert(x@.skip(i as int)[0] == x@[i as int]);
            assert(y@.skip(i as int)[0] == y@[i as int]);
            assert(x@.skip(i as int).drop_first() =~= x@.skip(i + 1 as int));
            assert(y@.skip(i as int).drop_first() =~= y@.skip(i + 1 as int));
        }
        if x[i] < y[i] {
            return CmpRes::Lt;
        }
        if x[i] > y[i] {
            return CmpRes::Gt;
        }
        i = i + 1;
    }
    proof {
        assert(x@.skip(i as int).len() == x@.len() - i);
        assert(y@.skip(i as int).len() == y@.len() - i);
    }
    if x.len() == y.len() {
        CmpRes::Eq
    } else if i == x.len() {
        CmpRes::Lt
    } else {
        CmpRes::Gt
    }
}

/// Order comparison of two values, per the relational operators.
#[verifier::loop_isolation(false)]
pub fn cel_compare(a: &CelType, b: &CelType) -> (r: Result<CmpRes, EvalError>)
    requires
        val_wf(a@),
        val_wf(b@),
    ensures
        r == cel_cmp(a@, b@),
    decreases a,
{
    proof {
        reveal_with_fuel(crate::value::val_view, 2);
        assert(pow10(0) == 1);
    }
    match (a, b) {
        (CelType::Integer(i), CelType::Integer(j)) => Result::Ok(
            if *i == *j {
                CmpRes::Eq
            } else if *i < *j {
                CmpRes::Lt
            } else {
                CmpRes::Gt
            },
        ),
        (CelType::Integer(i), CelType::Decimal(d)) => {
            let c = dec_cmp(&Dec::from_i64(*i), d);
            Result::Ok(
                if c == 0 {
                    CmpRes::Eq
                } else if c == -1 {
                    CmpRes::Lt
                } else {
                    CmpRes::Gt
                },
            )
        },
        (CelType::Decimal(d), CelType::Integer(i)) => {
            let c = dec_cmp(d, &Dec::from_i64(*i));
            Result::Ok(
                if c == 0 {
                    CmpRes::Eq
                } else if c == -1 {
                    CmpRes::Lt
                } else {
                    CmpRes::Gt
                },
            )
        },
        (CelType::Decimal(x), CelType::Decimal(y)) => {
            let c = dec_cmp(x, y);
            Result::Ok(
                if c == 0 {
                    CmpRes::Eq
                } else if c == -1 {
                    CmpRes::Lt
                } else {
                    CmpRes::Gt
                },
            )
        },
        (CelType::String(x), CelType::String(y)) => Result::Ok(lex_compare_bytes(x, y)),
        (CelType::Bytes(x), CelType::Bytes(y)) => Result::Ok(lex_compare_bytes(x, y)),
        (CelType::Bool(x), CelType::Bool(y)) => Result::Ok(
            if *x == *y {
                CmpRes::Eq
            } else if !*x {
                CmpRes::Lt
            } else {
                CmpRes::Gt
            },
        ),
        (CelType::List(xs), CelType::List(ys)) => {
            proof {
                assert(vals_view(xs@).skip(0) =~= vals_view(xs@));
                assert(vals_view(ys@).skip(0) =~= vals_view(ys@));
            }
            let mut i: usize = 0;
            while i < xs.len() && i < ys.len()
                invariant
                    i <= xs@.len(),
                    i <= ys@.len(),
                    cel_cmp_lists(vals_view(xs@), vals_view(ys@)) == cel_cmp_lists(
                        vals_view(xs@).skip(i as int),
                        vals_view(ys@).skip(i as int),
                    ),
                decreases xs@.len() - i,
            {
                proof {
                    assert(decreases_to!(*a => a->List_0));
                    assert(decreases_to!(a->List_0 => a->List_0@));
                    assert(decreases_to!(a->List_0@ => a->List_0@[i as int]));
                    lemma_list_elem_wf(vals_view(xs@), i as int);
                    lemma_list_elem_wf(vals_view(ys@), i as int);
                    assert(vals_view(xs@).skip(i as int)[0] == vals_view(xs@)[i as int]);
                    assert(vals_view(ys@).skip(i as int)[0] == vals_view(ys@)[i as int]);
                    assert(vals_view(xs@).skip(i as int).drop_first() =~= vals_view(xs@).skip(
                        i + 1 as int,
                    ));
                    assert(vals_view(ys@).skip(i as int).drop_first() =~= vals_view(ys@).skip(
                        i + 1 as int,
                    ));
                }
                match cel_compare(&xs[i], &ys[i]) {
                    Result::Err(e) => {
                        return Result::Err(e);
                    },
                    Result::Ok(CmpRes::Eq) => {
                        i = i + 1;
                    },
                    Result::Ok(o) => {
                        return Result::Ok(o);
                    },
                }
            }
            proof {
                assert(vals_view(xs@).skip(i as int).len() == xs@.len() - i);
                assert(vals_view(ys@).skip(i as int).len() == ys@.len() - i);
            }
            if xs.len() == ys.len() {
                Result::Ok(CmpRes::Eq)
            } else if i == xs.len() {
                Result::Ok(CmpRes::Lt)
            } else {
                Result::Ok(CmpRes::Gt)
            }
        },
        _ => {
            proof {
                assert(cel_cmp(a@, b@) == Result::<CmpRes, EvalError>::Err(
                    EvalError::TypeMismatch,
                ));
            }
            Result::Err(EvalError::TypeMismatch)
        },
    }
}

/// Concatenation of two byte vectors.
#[verifier::loop_isolation(false)]
pub fn concat_bytes(x: &Vec<u8>, y: &Vec<u8>) -> (r: Vec<u8>)
    ensures
        r@ == x@ + y@,
{
    let mut out = clone_bytes(x);
    let mut i: usize = 0;
    while i < y.len()
        invariant
            i <= y@.len(),
            out@ == x@ + y@.take(i as int),
        decreases y@.len() - i,
    {
        out.push(y[i]);
        proof {
            assert(out@ =~= x@ + y@.take(i + 1 as int));
        }
        i = i + 1;
    }
    proof {
        assert(x@ + y@.take(y@.len() as int) =~= x@ + y@);
    }
    out
}

/// Truncating division of machine integers, by magnitudes.
fn int_div(i: i64, j: i64) -> (r: Result<i64, EvalError>)
    requires
        j != 0,
    ensures
        match r {
            Result::Ok(q) => int_in_range(trunc_div(i as int, j as int)) && q == trunc_div(
                i as int,
                j as int,
            ),
            Result::Err(e) => e == EvalError::Overflow && !int_in_range(
                trunc_div(i as int, j as int),
            ),
        },
{
    let ua: u64 = if i < 0 {
        (-(i as i128)) as u64
    } else {
        i as u64
    };
    let ub: u64 = if j < 0 {
        (-(j as i128)) as u64
    } else {
        j as u64
    };
    proof {
        assert(ua as int == abs_i(i as int));
        assert(ub as int == abs_i(j as int));
        assert(ub != 0);
    }
    let q = ua / ub;
    proof {
        vstd::arithmetic::div_mod::lemma_div_nonincreasing(ua as int, ub as int);
        vstd::arithmetic::div_mod::lemma_div_pos_is_pos(ua as int, ub as int);
    }
    if (i < 0) == (j < 0) {
        if q > 0x7fff_ffff_ffff_ffffu64 {
            Result::Err(EvalError::Overflow)
        } else {
            Result::Ok(q as i64)
        }
    } else {
        Result::Ok((-(q as i128)) as i64)
    }
}

/// The remainder truncating division leaves on machine integers.
fn int_rem(i: i64, j: i64) -> (r: i64)
    requires
        j != 0,
    ensures
        r == trunc_rem(i as int, j as int),
        int_in_range(trunc_rem(i as int, j as int)),
{
    let ua: u64 = if i < 0 {
        (-(i as i128)) as u64
    } else {
        i as u64
    };
    let ub: u64 = if j < 0 {
        (-(j as i128)) as u64
    } else {
        j as u64
    };
    proof {
        assert(ua as int == abs_i(i as int));
        assert(ub as int == abs_i(j as int));
        assert(ub != 0);
    }
    let rm = ua % ub;
    proof {
        vstd::arithmetic::div_mod::lemma_mod_bound(ua as int, ub as int);
    }
    if i < 0 {
        (-(rm as i128)) as i64
    } else {
        rm as i64
    }
}

/// The key a value converts to, if its kind admits one.
pub fn val_as_key(v: &CelType) -> (r: Option<CelKey>)
    ensures
        match r {
            Option::Some(k) => val_to_key(v@) == Option::Some(k@),
            Option::None => val_to_key(v@) is None,
        },
{
    match v {
        CelType::Integer(i) => Option::Some(CelKey::Integer(*i)),
        CelType::String(s) => Option::Some(CelKey::String(clone_bytes(s))),
        CelType::Bool(b) => Option::Some(CelKey::Bool(*b)),
        _ => Option::None,
    }
}

/// Membership test of `a` inside `b`.
#[verifier::loop_isolation(false)]
pub fn eval_in(a: &CelType, b: &CelType) -> (r: Result<CelType, EvalError>)
    requires
        val_wf(a@),
        val_wf(b@),
    ensures
        res_view(r) == in_v(a@, b@),
        r matches Result::Ok(v) ==> val_wf(v@),
{
    proof {
        reveal_with_fuel(crate::value::val_view, 2);
    }
    match (a, b) {
        (CelType::String(n), CelType::String(h)) => Result::Ok(
            CelType::Bool(contains_bytes(h, n)),
        ),
        (x, CelType::List(items)) => {
            let mut i: usize = 0;
            while i < items.len()
                invariant
                    i <= items@.len(),
                    forall|j: int| 0 <= j < i ==> !cel_eq(a@, #[trigger] vals_view(items@)[j]),
                decreases items@.len() - i,
            {
                proof {
                    lemma_list_elem_wf(vals_view(items@), i as int);
                }
                if cel_equals(x, &items[i]) {
                    return Result::Ok(CelType::Bool(true));
                }
                i = i + 1;
            }
            Result::Ok(CelType::Bool(false))
        },
        (x, CelType::Mapping(m)) => match val_as_key(x) {
            Option::Some(k) => match map_get(&m.map, &k) {
                Option::Some(_) => Result::Ok(CelType::Bool(true)),
                Option::None => Result::Ok(CelType::Bool(false)),
            },
            Option::None => Result::Err(EvalError::InvalidKey),
        },
        _ => Result::Err(EvalError::TypeMismatch),
    }
}

/// Application of an arithmetic operator to two values.
#[verifier::loop_isolation(false)]
pub fn eval_arith(op: ArithmeticOp, a: CelType, b: CelType) -> (r: Result<CelType, EvalError>)
    requires
        val_wf(a@),
        val_wf(b@),
    ensures
        res_view(r) == arith_v(op, a@, b@),
        r matches Result::Ok(v) ==> val_wf(v@),
{
    proof {
        reveal_with_fuel(crate::value::val_view, 2);
        reveal_with_fuel(crate::value::val_wf, 2);
    }
    match (a, b) {
        (CelType::Integer(i), CelType::Integer(j)) => {
            match op {
                ArithmeticOp::Add => {
                    let w = i as i128 + j as i128;
                    if w < -0x8000000000000000i128 || w > 0x7fffffffffffffffi128 {
                        Result::Err(EvalError::Overflow)
                    } else {
                        Result::Ok(CelType::Integer(w as i64))
                    }
                },
                ArithmeticOp::Subtract => {
                    let w = i as i128 - j as i128;
                    if w < -0x8000000000000000i128 || w > 0x7fffffffffffffffi128 {
                        Result::Err(EvalError::Overflow)
                    } else {
                        Result::Ok(CelType::Integer(w as i64))
                    }
                },
                ArithmeticOp::Multiply => {
                    proof {
                        assert((i as int) * (j as int) <= 0x8000000000000000i128
                            * 0x8000000000000000i128 && (i as int) * (j as int) >= -(
                        0x8000000000000000i128 * 0x8000000000000000i128)) by (nonlinear_arith)
                            requires
                                -0x8000000000000000 <= i as int <= 0x7fffffffffffffff,
                                -0x8000000000000000 <= j as int <= 0x7fffffffffffffff,
                        ;
                    }
                    let w = (i as i128) * (j as i128);
                    if w < -0x8000000000000000i128 || w > 0x7fffffffffffffffi128 {
                        Result::Err(EvalError::Overflow)
                    } else {
                        Result::Ok(CelType::Integer(w as i64))
                    }
                },
                ArithmeticOp::Divide => {
                    if j == 0 {
                        Result::Err(EvalError::DivideByZero)
                    } else {
                        match int_div(i, j) {
                            Result::Ok(q) => Result::Ok(CelType::Integer(q)),
                            Result::Err(e) => Result::Err(e),
                        }
                    }
                },
                ArithmeticOp::Modulus => {
                    if j == 0 {
                        Result::Err(EvalError::DivideByZero)
                    } else {
                        Result::Ok(CelType::Integer(int_rem(i, j)))
                    }
                },
            }
        },
        (CelType::Decimal(x), CelType::Decimal(y)) => {
            let o = match op {
                ArithmeticOp::Add => dec_add(&x, &y),
                ArithmeticOp::Subtract => dec_sub(&x, &y),
                ArithmeticOp::Multiply => dec_mul(&x, &y),
                ArithmeticOp::Divide => {
                    if y.mantissa == 0 {
                        return Result::Err(EvalError::DivideByZero);
                    }
                    dec_div(&x, &y)
                },
                ArithmeticOp::Modulus => {
                    if y.mantissa == 0 {
                        return Result::Err(EvalError::DivideByZero);
                    }
                    dec_rem(&x, &y)
                },
            };
            match o {
                Option::Some(d) => Result::Ok(CelType::Decimal(d)),
                Option::None => Result::Err(EvalError::Overflow),
            }
        },
        (CelType::Integer(i), CelType::Decimal(y)) => {
            let x = Dec::from_i64(i);
            let o = match op {
                ArithmeticOp::Add => dec_add(&x, &y),
                ArithmeticOp::Subtract => dec_sub(&x, &y),
                ArithmeticOp::Multiply => dec_mul(&x, &y),
                ArithmeticOp::Divide => {
                    if y.mantissa == 0 {
                        return Result::Err(EvalError::DivideByZero);
                    }
                    dec_div(&x, &y)
                },
                ArithmeticOp::Modulus => {
                    if y.mantissa == 0 {
                        return Result::Err(EvalError::DivideByZero);
                    }
                    dec_rem(&x, &y)
                },
            };
            match o {
                Option::Some(d) => Result::Ok(CelType::Decimal(d)),
                Option::None => Result::Err(EvalError::Overflow),
            }
        },
        (CelType::Decimal(x), CelType::Integer(j)) => {
            let y = Dec::from_i64(j);
            let o = match op {
                ArithmeticOp::Add => dec_add(&y, &x),
                ArithmeticOp::Subtract => dec_sub(&x, &y),
                ArithmeticOp::Multiply => dec_mul(&y, &x),
                ArithmeticOp::Divide => {
                    if j == 0 {
                        return Result::Err(EvalError::DivideByZero);
                    }
                    dec_div(&x, &y)
                },
                ArithmeticOp::Modulus => {
                    if j == 0 {
                        return Result::Err(EvalError::DivideByZero);
                    }
                    dec_rem(&x, &y)
                },
            };
            match o {
                Option::Some(d) => Result::Ok(CelType::Decimal(d)),
                Option::None => Result::Err(EvalError::Overflow),
            }
        },
        (CelType::String(x), CelType::String(y)) => match op {
            ArithmeticOp::Add => Result::Ok(CelType::String(concat_bytes(&x, &y))),
            _ => Result::Err(EvalError::TypeMismatch),
        },
        (CelType::List(x), CelType::List(y)) => match op {
            ArithmeticOp::Add => {
                let mut out = x;
                let ghost xs = out@;
                let mut i: usize = 0;
                while i < y.len()
                    invariant
                        i <= y@.len(),
                        out@.len() == xs.len() + i,
                        out@.take(xs.len() as int) == xs,
                        forall|j: int| xs.len() <= j < out@.len() ==> val_view(
                            #[trigger] out@[j],
                        ) == val_view(y@[j - xs.len()]),
                    decreases y@.len() - i,
                {
                    out.push(clone_val(&y[i]));
                    proof {
                        assert(out@.take(xs.len() as int) =~= xs);
                    }
                    i = i + 1;
                }
                proof {
                    assert forall|j: int| 0 <= j < xs.len() implies out@[j] == xs[j] by {
                        assert(out@.take(xs.len() as int)[j] == out@[j]);
                    }
                    assert(vals_view(out@) =~= vals_view(xs) + vals_view(y@));
                    lemma_vals_wf_iff(vals_view(xs));
                    lemma_vals_wf_iff(vals_view(y@));
                    lemma_vals_wf_iff(vals_view(xs) + vals_view(y@));
                }
                Result::Ok(CelType::List(out))
            },
            _ => Result::Err(EvalError::TypeMismatch),
        },
        _ => Result::Err(EvalError::TypeMismatch),
    }
}

/// Application of a unary operator to a value.
pub fn eval_unary(op: UnaryOp, v: CelType) -> (r: Result<CelType, EvalError>)
    requires
        val_wf(v@),
    ensures
        res_view(r) == unary_v(op, v@),
        r matches Result::Ok(w) ==> val_wf(w@),
{
    proof {
        reveal_with_fuel(crate::value::val_view, 2);
        reveal_with_fuel(crate::value::val_wf, 2);
    }
    match op {
        UnaryOp::Not => {
            let t = v.to_bool();
            Result::Ok(CelType::Bool(!t))
        },
        UnaryOp::DoubleNot => {
            let t = v.to_bool();
            Result::Ok(CelType::Bool(t))
        },
        UnaryOp::Minus => match v {
            CelType::Integer(i) => {
                if i == -0x8000000000000000i64 {
                    Result::Err(EvalError::Overflow)
                } else {
                    Result::Ok(CelType::Integer(-i))
                }
            },
            CelType::Decimal(d) => Result::Ok(CelType::Decimal(d.neg())),
            _ => Result::Err(EvalError::TypeMismatch),
        },
        UnaryOp::DoubleMinus => match v {
            CelType::Integer(_) => Result::Ok(v),
            CelType::Decimal(_) => Result::Ok(v),
            _ => Result::Err(EvalError::TypeMismatch),
        },
    }
}

/// Application of a relational operator to two values.
pub fn eval_relation(op: RelationOp, a: &CelType, b: &CelType) -> (r: Result<CelType, EvalError>)
    requires
        val_wf(a@),
        val_wf(b@),
    ensures
        res_view(r) == relation_v(op, a@, b@),
        r matches Result::Ok(v) ==> val_wf(v@),
{
    proof {
        reveal_with_fuel(crate::value::val_view, 2);
        reveal_with_fuel(crate::value::val_wf, 2);
    }
    match op {
        RelationOp::Equals => Result::Ok(CelType::Bool(cel_equals(a, b))),
        RelationOp::NotEquals => Result::Ok(CelType::Bool(!cel_equals(a, b))),
        RelationOp::In => eval_in(a, b),
        RelationOp::LessThan => match cel_compare(a, b) {
            Result::Ok(c) => Result::Ok(CelType::Bool(matches!(c, CmpRes::Lt))),
            Result::Err(e) => Result::Err(e),
        },
        RelationOp::LessThanEq => match cel_compare(a, b) {
            Result::Ok(c) => Result::Ok(CelType::Bool(!matches!(c, CmpRes::Gt))),
            Result::Err(e) => Result::Err(e),
        },
        RelationOp::GreaterThan => match cel_compare(a, b) {
            Result::Ok(c) => Result::Ok(CelType::Bool(matches!(c, CmpRes::Gt))),
            Result::Err(e) => Result::Err(e),
        },
        RelationOp::GreaterThanEq => match cel_compare(a, b) {
            Result::Ok(c) => Result::Ok(CelType::Bool(!matches!(c, CmpRes::Lt))),
            Result::Err(e) => Result::Err(e),
        },
    }
}

} // verus!
