use vstd::prelude::*;
use crate::ast::{ArithmeticOp, RelationOp, UnaryOp};
use crate::decimal::{Dec, dec_add_of, dec_div_of, dec_mul_of, dec_rem_of, dec_sub_of, pow10};

verus! {

broadcast use vstd::seq::axiom_seq_index_decreases;

/// The error kinds evaluation surfaces to the caller.
#[derive(Debug, Clone, Copy, PartialEq, Eq, Structural)]
pub enum EvalError {
    TypeMismatch,
    InvalidKey,
    IndexOutOfRange,
    NoSuchKey,
    UnknownIdent,
    UnknownFunction,
    UnknownMember,
    NotCallable,
    Unsupported,
    DivideByZero,
    Overflow,
}

/// The subset of values admissible as map keys.
#[derive(Debug, PartialEq)]
pub enum CelKey {
    Integer(i64),
    Uint(u32),
    Bool(bool),
    String(Vec<u8>),
}

/// The mathematical shape of a map key.
pub enum KeyV {
    Integer(int),
    Uint(int),
    Bool(bool),
    String(Seq<u8>),
}

/// The mathematical shape of a value: what contracts speak of.
/// A decimal is its mantissa and scale; text and bytes are byte
/// sequences; a mapping is its entries, keys unique when well-formed.
pub enum ValV {
    List(Seq<ValV>),
    Mapping(Seq<(KeyV, ValV)>),
    Function(Seq<u8>, Option<Box<ValV>>),
    Integer(int),
    Decimal(int, int),
    String(Seq<u8>),
    Bytes(Seq<u8>),
    Bool(bool),
    Null,
}

/// A mapping from keys to values; entries carry the insertion order,
/// which no operation observes.
#[derive(Debug, PartialEq)]
pub struct CelMap {
    pub map: Vec<(CelKey, CelType)>,
}

/// A tagged runtime value of the expression language.
#[derive(Debug, PartialEq)]
pub enum CelType {
    List(Vec<CelType>),
    Mapping(CelMap),
    Function(Vec<u8>, Option<Box<CelType>>),
    Integer(i64),
    Decimal(Dec),
    String(Vec<u8>),
    Bytes(Vec<u8>),
    Bool(bool),
    Null,
}

pub open spec fn key_view(k: CelKey) -> KeyV {
    match k {
        CelKey::Integer(i) => KeyV::Integer(i as int),
        CelKey::Uint(u) => KeyV::Uint(u as int),
        CelKey::Bool(b) => KeyV::Bool(b),
        CelKey::String(s) => KeyV::String(s@),
    }
}

impl View for CelKey {
    type V = KeyV;

    open spec fn view(&self) -> KeyV {
        key_view(*self)
    }
}

pub open spec fn val_view(v: CelType) -> ValV
    decreases v,
{
    match v {
        CelType::List(items) => ValV::List(vals_view(items@)),
        CelType::Mapping(m) => ValV::Mapping(entries_view(m.map@)),
        CelType::Function(n, r) => ValV::Function(
            n@,
            match r {
                Option::Some(b) => Option::Some(Box::new(val_view(*b))),
                Option::None => Option::None,
            },
        ),
        CelType::Integer(i) => ValV::Integer(i as int),
        CelType::Decimal(d) => ValV::Decimal(d.mantissa as int, d.scale as int),
        CelType::String(s) => ValV::String(s@),
        CelType::Bytes(b) => ValV::Bytes(b@),
        CelType::Bool(b) => ValV::Bool(b),
        CelType::Null => ValV::Null,
    }
}

pub open spec fn vals_view(s: Seq<CelType>) -> Seq<ValV>
    decreases s,
{
    Seq::new(
        s.len(),
        |i: int|
            if 0 <= i < s.len() {
                val_view(s[i])
            } else {
                ValV::Null
            },
    )
}

pub open spec fn entry_view(p: (CelKey, CelType)) -> (KeyV, ValV)
    decreases p,
{
    (key_view(p.0), val_view(p.1))
}

pub open spec fn entries_view(s: Seq<(CelKey, CelType)>) -> Seq<(KeyV, ValV)>
    decreases s,
{
    Seq::new(
        s.len(),
        |i: int|
            if 0 <= i < s.len() {
                entry_view(s[i])
            } else {
                (KeyV::Bool(false), ValV::Null)
            },
    )
}

pub broadcast proof fn lemma_vals_view_len(s: Seq<CelType>)
    ensures
        #[trigger] vals_view(s).len() == s.len(),
{
}

pub broadcast proof fn lemma_vals_view_index(s: Seq<CelType>, i: int)
    requires
        0 <= i < s.len(),
    ensures
        #[trigger] vals_view(s)[i] == val_view(s[i]),
{
}

pub broadcast proof fn lemma_entries_view_len(s: Seq<(CelKey, CelType)>)
    ensures
        #[trigger] entries_view(s).len() == s.len(),
{
}

pub broadcast proof fn lemma_entries_view_index(s: Seq<(CelKey, CelType)>, i: int)
    requires
        0 <= i < s.len(),
    ensures
        #[trigger] entries_view(s)[i] == (key_view(s[i].0), val_view(s[i].1)),
{
}

impl View for CelType {
    type V = ValV;

    open spec fn view(&self) -> ValV {
        val_view(*self)
    }
}

impl View for CelMap {
    type V = Seq<(KeyV, ValV)>;

    open spec fn view(&self) -> Seq<(KeyV, ValV)> {
        entries_view(self.map@)
    }
}

/// Well-formedness: decimals lie in the representable range, and a
/// mapping's keys are unique.
pub open spec fn val_wf(v: ValV) -> bool
    decreases v,
{
    match v {
        ValV::List(items) => vals_wf(items),
        ValV::Mapping(es) => entries_wf(es) && keys_unique(es),
        ValV::Function(_, r) => match r {
            Option::Some(b) => val_wf(*b),
            Option::None => true,
        },
        ValV::Decimal(m, s) => -0x1000000000000000000000000 < m < 0x1000000000000000000000000
            && 0 <= s <= 28,
        _ => true,
    }
}

/// Well-formedness of every value of a sequence.
pub open spec fn vals_wf(items: Seq<ValV>) -> bool
    decreases items,
{
    items.len() == 0 || (val_wf(items[0]) && vals_wf(items.drop_first()))
}

/// Well-formedness of every value of a sequence of entries.
pub open spec fn entries_wf(es: Seq<(KeyV, ValV)>) -> bool
    decreases es,
{
    es.len() == 0 || (val_wf(es[0].1) && entries_wf(es.drop_first()))
}

/// No two entries share a key.
pub open spec fn keys_unique(es: Seq<(KeyV, ValV)>) -> bool {
    forall|i: int, j: int| 0 <= i < j < es.len() ==> (#[trigger] es[i]).0 != (#[trigger] es[j]).0
}

/// A sequence of values is well-formed exactly when each member is.
pub proof fn lemma_vals_wf_iff(items: Seq<ValV>)
    ensures
        vals_wf(items) <==> (forall|i: int| 0 <= i < items.len() ==> val_wf(#[trigger] items[i])),
    decreases items.len(),
{
    if items.len() > 0 {
        lemma_vals_wf_iff(items.drop_first());
        if val_wf(items[0]) && (forall|i: int|
            0 <= i < items.drop_first().len() ==> val_wf(#[trigger] items.drop_first()[i])) {
            assert forall|i: int| 0 <= i < items.len() implies val_wf(#[trigger] items[i]) by {
                if i > 0 {
                    assert(val_wf(items.drop_first()[i - 1]));
                }
            }
        }
        if forall|i: int| 0 <= i < items.len() ==> val_wf(#[trigger] items[i]) {
            assert forall|i: int| 0 <= i < items.drop_first().len() implies val_wf(
                #[trigger] items.drop_first()[i],
            ) by {
                assert(items.drop_first()[i] == items[i + 1]);
            }
        }
    }
}

/// A sequence of entries is well-formed exactly when each value is.
pub proof fn lemma_entries_wf_iff(es: Seq<(KeyV, ValV)>)
    ensures
        entries_wf(es) <==> (forall|i: int| 0 <= i < es.len() ==> val_wf((#[trigger] es[i]).1)),
    decreases es.len(),
{
    if es.len() > 0 {
        lemma_entries_wf_iff(es.drop_first());
        if val_wf(es[0].1) && (forall|i: int|
            0 <= i < es.drop_first().len() ==> val_wf((#[trigger] es.drop_first()[i]).1)) {
            assert forall|i: int| 0 <= i < es.len() implies val_wf((#[trigger] es[i]).1) by {
                if i > 0 {
                    assert(val_wf(es.drop_first()[i - 1].1));
                }
            }
        }
        if forall|i: int| 0 <= i < es.len() ==> val_wf((#[trigger] es[i]).1) {
            assert forall|i: int| 0 <= i < es.drop_first().len() implies val_wf(
                (#[trigger] es.drop_first()[i]).1,
            ) by {
                assert(es.drop_first()[i] == es[i + 1]);
            }
        }
    }
}

/// Each element of a well-formed list is well-formed.
pub proof fn lemma_list_elem_wf(items: Seq<ValV>, i: int)
    requires
        val_wf(ValV::List(items)),
        0 <= i < items.len(),
    ensures
        val_wf(items[i]),
{
    lemma_vals_wf_iff(items);
}

/// Each value of a well-formed mapping is well-formed.
pub proof fn lemma_mapping_entry_wf(es: Seq<(KeyV, ValV)>, i: int)
    requires
        val_wf(ValV::Mapping(es)),
        0 <= i < es.len(),
    ensures
        val_wf(es[i].1),
{
    lemma_entries_wf_iff(es);
}

/// The boolean a value projects to: empty containers, zero numbers,
/// null and function handles are false; everything else is true.
pub open spec fn truthy(v: ValV) -> bool {
    match v {
        ValV::List(items) => items.len() > 0,
        ValV::Mapping(es) => es.len() > 0,
        ValV::Function(_, _) => false,
        ValV::Integer(i) => i != 0,
        ValV::Decimal(m, _) => m != 0,
        ValV::String(s) => s.len() > 0,
        ValV::Bytes(b) => b.len() > 0,
        ValV::Bool(b) => b,
        ValV::Null => false,
    }
}

/// Outcome of an order comparison.
#[derive(Debug, Clone, Copy, PartialEq, Eq, Structural)]
pub enum CmpRes {
    Lt,
    Eq,
    Gt,
}

/// The value the first entry with the given key holds, if any.
pub open spec fn map_lookup(es: Seq<(KeyV, ValV)>, k: KeyV) -> Option<ValV>
    decreases es.len(),
{
    if es.len() == 0 {
        Option::None
    } else if es[0].0 == k {
        Option::Some(es[0].1)
    } else {
        map_lookup(es.drop_first(), k)
    }
}

/// Structural equality of the language: within one kind it compares
/// contents; between integer and decimal it promotes the integer;
/// mappings compare as key-to-value tables; anything else is unequal.
pub open spec fn cel_eq(a: ValV, b: ValV) -> bool
    decreases a,
{
    match (a, b) {
        (ValV::Integer(i), ValV::Integer(j)) => i == j,
        (ValV::Integer(i), ValV::Decimal(m, s)) => i * pow10(s as nat) == m,
        (ValV::Decimal(m, s), ValV::Integer(i)) => m == i * pow10(s as nat),
        (ValV::Decimal(m1, s1), ValV::Decimal(m2, s2)) => m1 * pow10(s2 as nat) == m2 * pow10(
            s1 as nat,
        ),
        (ValV::String(x), ValV::String(y)) => x == y,
        (ValV::Bytes(x), ValV::Bytes(y)) => x == y,
        (ValV::Bool(x), ValV::Bool(y)) => x == y,
        (ValV::Null, ValV::Null) => true,
        (ValV::Function(n1, r1), ValV::Function(n2, r2)) => n1 == n2 && (match (r1, r2) {
            (Option::Some(x), Option::Some(y)) => cel_eq(*x, *y),
            (Option::None, Option::None) => true,
            _ => false,
        }),
        (ValV::List(x), ValV::List(y)) => x.len() == y.len() && seqs_cel_eq(x, y),
        (ValV::Mapping(x), ValV::Mapping(y)) => x.len() == y.len() && maps_cel_eq(x, y),
        _ => false,
    }
}

/// Pointwise equality of two sequences of the same length.
pub open spec fn seqs_cel_eq(x: Seq<ValV>, y: Seq<ValV>) -> bool
    decreases x,
{
    x.len() == 0 || (cel_eq(x[0], y[0]) && seqs_cel_eq(x.drop_first(), y.drop_first()))
}

/// Every entry of `x` is found in `y` under its key, with an equal
/// value.
pub open spec fn maps_cel_eq(x: Seq<(KeyV, ValV)>, y: Seq<(KeyV, ValV)>) -> bool
    decreases x,
{
    x.len() == 0 || ((match map_lookup(y, x[0].0) {
        Option::Some(v) => cel_eq(x[0].1, v),
        Option::None => false,
    }) && maps_cel_eq(x.drop_first(), y))
}

/// Two sequences compare pointwise-equal exactly when each pair of
/// members does.
pub proof fn lemma_seqs_cel_eq_iff(x: Seq<ValV>, y: Seq<ValV>)
    requires
        x.len() == y.len(),
    ensures
        seqs_cel_eq(x, y) <==> (forall|i: int| 0 <= i < x.len() ==> cel_eq(#[trigger] x[i], y[i])),
    decreases x.len(),
{
    if x.len() > 0 {
        lemma_seqs_cel_eq_iff(x.drop_first(), y.drop_first());
        if cel_eq(x[0], y[0]) && (forall|i: int|
            0 <= i < x.drop_first().len() ==> cel_eq(
                #[trigger] x.drop_first()[i],
                y.drop_first()[i],
            )) {
            assert forall|i: int| 0 <= i < x.len() implies cel_eq(#[trigger] x[i], y[i]) by {
                if i > 0 {
                    assert(cel_eq(x.drop_first()[i - 1], y.drop_first()[i - 1]));
                }
            }
        }
        if forall|i: int| 0 <= i < x.len() ==> cel_eq(#[trigger] x[i], y[i]) {
            assert forall|i: int| 0 <= i < x.drop_first().len() implies cel_eq(
                #[trigger] x.drop_first()[i],
                y.drop_first()[i],
            ) by {
                assert(x.drop_first()[i] == x[i + 1]);
                assert(y.drop_first()[i] == y[i + 1]);
            }
        }
    }
}

/// A mapping matches another exactly when each of its entries is
/// found there.
pub proof fn lemma_maps_cel_eq_iff(x: Seq<(KeyV, ValV)>, y: Seq<(KeyV, ValV)>)
    ensures
        maps_cel_eq(x, y) <==> (forall|i: int|
            0 <= i < x.len() ==> (match map_lookup(y, (#[trigger] x[i]).0) {
                Option::Some(v) => cel_eq(x[i].1, v),
                Option::None => false,
            })),
    decreases x.len(),
{
    if x.len() > 0 {
        lemma_maps_cel_eq_iff(x.drop_first(), y);
        if (match map_lookup(y, x[0].0) {
            Option::Some(v) => cel_eq(x[0].1, v),
            Option::None => false,
        }) && (forall|i: int|
            0 <= i < x.drop_first().len() ==> (match map_lookup(
                y,
                (#[trigger] x.drop_first()[i]).0,
            ) {
                Option::Some(v) => cel_eq(x.drop_first()[i].1, v),
                Option::None => false,
            })) {
            assert forall|i: int| 0 <= i < x.len() implies (match map_lookup(
                y,
                (#[trigger] x[i]).0,
            ) {
                Option::Some(v) => cel_eq(x[i].1, v),
                Option::None => false,
            }) by {
                if i > 0 {
                    assert(x.drop_first()[i - 1] == x[i]);
                    assert(match map_lookup(y, x.drop_first()[i - 1].0) {
                        Option::Some(v) => cel_eq(x.drop_first()[i - 1].1, v),
                        Option::None => false,
                    });
                }
            }
        }
        if forall|i: int| 0 <= i < x.len() ==> (match map_lookup(y, (#[trigger] x[i]).0) {
            Option::Some(v) => cel_eq(x[i].1, v),
            Option::None => false,
        }) {
            assert forall|i: int| 0 <= i < x.drop_first().len() implies (match map_lookup(
                y,
                (#[trigger] x.drop_first()[i]).0,
            ) {
                Option::Some(v) => cel_eq(x.drop_first()[i].1, v),
                Option::None => false,
            }) by {
                assert(x.drop_first()[i] == x[i + 1]);
            }
        }
    }
}

/// Lexicographic order on byte sequences.
pub open spec fn lex_cmp_bytes(a: Seq<u8>, b: Seq<u8>) -> CmpRes
    decreases a.len(),
{
    if a.len() == 0 && b.len() == 0 {
        CmpRes::Eq
    } else if a.len() == 0 {
        CmpRes::Lt
    } else if b.len() == 0 {
        CmpRes::Gt
    } else if a[0] < b[0] {
        CmpRes::Lt
    } else if a[0] > b[0] {
        CmpRes::Gt
    } else {
        lex_cmp_bytes(a.drop_first(), b.drop_first())
    }
}

/// Order of two decimals given as mantissa and scale, by their exact
/// values.
pub open spec fn dec_cmp_v(m1: int, s1: int, m2: int, s2: int) -> CmpRes {
    let l = m1 * pow10(s2 as nat);
    let r = m2 * pow10(s1 as nat);
    if l == r {
        CmpRes::Eq
    } else if l < r {
        CmpRes::Lt
    } else {
        CmpRes::Gt
    }
}

/// The order the relational operators use: total within integers,
/// decimals (promoting a mixed integer), text, bytes and booleans,
/// lexicographic between lists, and undefined anywhere else.
pub open spec fn cel_cmp(a: ValV, b: ValV) -> Result<CmpRes, EvalError>
    decreases a,
{
    match (a, b) {
        (ValV::Integer(i), ValV::Integer(j)) => Result::Ok(
            if i == j {
                CmpRes::Eq
            } else if i < j {
                CmpRes::Lt
            } else {
                CmpRes::Gt
            },
        ),
        (ValV::Integer(i), ValV::Decimal(m, s)) => Result::Ok(dec_cmp_v(i, 0, m, s)),
        (ValV::Decimal(m, s), ValV::Integer(i)) => Result::Ok(dec_cmp_v(m, s, i, 0)),
        (ValV::Decimal(m1, s1), ValV::Decimal(m2, s2)) => Result::Ok(dec_cmp_v(m1, s1, m2, s2)),
        (ValV::String(x), ValV::String(y)) => Result::Ok(lex_cmp_bytes(x, y)),
        (ValV::Bytes(x), ValV::Bytes(y)) => Result::Ok(lex_cmp_bytes(x, y)),
        (ValV::Bool(x), ValV::Bool(y)) => Result::Ok(
            if x == y {
                CmpRes::Eq
            } else if !x {
                CmpRes::Lt
            } else {
                CmpRes::Gt
            },
        ),
        (ValV::List(x), ValV::List(y)) => cel_cmp_lists(x, y),
        _ => Result::Err(EvalError::TypeMismatch),
    }
}

/// Lexicographic order between lists, element by element.
pub open spec fn cel_cmp_lists(x: Seq<ValV>, y: Seq<ValV>) -> Result<CmpRes, EvalError>
    decreases x,
{
    if x.len() == 0 && y.len() == 0 {
        Result::Ok(CmpRes::Eq)
    } else if x.len() == 0 {
        Result::Ok(CmpRes::Lt)
    } else if y.len() == 0 {
        Result::Ok(CmpRes::Gt)
    } else {
        match cel_cmp(x[0], y[0]) {
            Result::Err(e) => Result::Err(e),
            Result::Ok(CmpRes::Eq) => cel_cmp_lists(x.drop_first(), y.drop_first()),
            Result::Ok(o) => Result::Ok(o),
        }
    }
}

/// Whether `n` occurs contiguously inside `h`.
pub open spec fn is_substring(h: Seq<u8>, n: Seq<u8>) -> bool {
    exists|i: int| 0 <= i <= h.len() - n.len() && #[trigger] h.subrange(i, i + n.len()) == n
}

/// The key a value converts to, for the kinds admissible as keys.
pub open spec fn val_to_key(v: ValV) -> Option<KeyV> {
    match v {
        ValV::Integer(i) => Option::Some(KeyV::Integer(i)),
        ValV::String(s) => Option::Some(KeyV::String(s)),
        ValV::Bool(b) => Option::Some(KeyV::Bool(b)),
        _ => Option::None,
    }
}

/// Membership: substring between texts, element equality in a list,
/// key containment in a mapping.
pub open spec fn in_v(a: ValV, b: ValV) -> Result<ValV, EvalError> {
    match (a, b) {
        (ValV::String(n), ValV::String(h)) => Result::Ok(ValV::Bool(is_substring(h, n))),
        (x, ValV::List(items)) => Result::Ok(
            ValV::Bool(exists|i: int| 0 <= i < items.len() && cel_eq(x, #[trigger] items[i])),
        ),
        (x, ValV::Mapping(es)) => match val_to_key(x) {
            Option::Some(k) => Result::Ok(ValV::Bool(map_lookup(es, k) is Some)),
            Option::None => Result::Err(EvalError::InvalidKey),
        },
        _ => Result::Err(EvalError::TypeMismatch),
    }
}

pub open spec fn int_in_range(i: int) -> bool {
    i64::MIN <= i <= i64::MAX
}

pub open spec fn abs_i(a: int) -> int {
    if a < 0 {
        -a
    } else {
        a
    }
}

/// Truncating integer division, as the machine division behaves.
pub open spec fn trunc_div(a: int, b: int) -> int {
    if (a < 0) == (b < 0) {
        abs_i(a) / abs_i(b)
    } else {
        -(abs_i(a) / abs_i(b))
    }
}

/// The remainder truncating division leaves: the sign of the
/// dividend on the magnitude `|a| % |b|`.
pub open spec fn trunc_rem(a: int, b: int) -> int {
    if a < 0 {
        -(abs_i(a) % abs_i(b))
    } else {
        abs_i(a) % abs_i(b)
    }
}

/// The mathematical reading of an evaluation outcome.
pub open spec fn res_view(r: Result<CelType, EvalError>) -> Result<ValV, EvalError> {
    match r {
        Result::Ok(v) => Result::Ok(val_view(v)),
        Result::Err(e) => Result::Err(e),
    }
}

pub open spec fn dec_result(o: Option<(int, int)>) -> Result<ValV, EvalError> {
    match o {
        Option::Some(p) => Result::Ok(ValV::Decimal(p.0, p.1)),
        Option::None => Result::Err(EvalError::Overflow),
    }
}

/// Addition: integers, decimals with integer promotion, text and list
/// concatenation.
pub open spec fn add_v(a: ValV, b: ValV) -> Result<ValV, EvalError> {
    match (a, b) {
        (ValV::Integer(i), ValV::Integer(j)) => if int_in_range(i + j) {
            Result::Ok(ValV::Integer(i + j))
        } else {
            Result::Err(EvalError::Overflow)
        },
        (ValV::Decimal(m1, s1), ValV::Decimal(m2, s2)) => dec_result(dec_add_of(m1, s1, m2, s2)),
        (ValV::Integer(i), ValV::Decimal(m, s)) => dec_result(dec_add_of(i, 0, m, s)),
        (ValV::Decimal(m, s), ValV::Integer(i)) => dec_result(dec_add_of(i, 0, m, s)),
        (ValV::String(x), ValV::String(y)) => Result::Ok(ValV::String(x + y)),
        (ValV::List(x), ValV::List(y)) => Result::Ok(ValV::List(x + y)),
        _ => Result::Err(EvalError::TypeMismatch),
    }
}

/// Subtraction over the numeric kinds, promoting a mixed integer.
pub open spec fn sub_v(a: ValV, b: ValV) -> Result<ValV, EvalError> {
    match (a, b) {
        (ValV::Integer(i), ValV::Integer(j)) => if int_in_range(i - j) {
            Result::Ok(ValV::Integer(i - j))
        } else {
            Result::Err(EvalError::Overflow)
        },
        (ValV::Decimal(m1, s1), ValV::Decimal(m2, s2)) => dec_result(dec_sub_of(m1, s1, m2, s2)),
        (ValV::Integer(i), ValV::Decimal(m, s)) => dec_result(dec_sub_of(i, 0, m, s)),
        (ValV::Decimal(m, s), ValV::Integer(i)) => dec_result(dec_sub_of(m, s, i, 0)),
        _ => Result::Err(EvalError::TypeMismatch),
    }
}

/// Multiplication over the numeric kinds, promoting a mixed integer.
pub open spec fn mul_v(a: ValV, b: ValV) -> Result<ValV, EvalError> {
    match (a, b) {
        (ValV::Integer(i), ValV::Integer(j)) => if int_in_range(i * j) {
            Result::Ok(ValV::Integer(i * j))
        } else {
            Result::Err(EvalError::Overflow)
        },
        (ValV::Decimal(m1, s1), ValV::Decimal(m2, s2)) => dec_result(dec_mul_of(m1, s1, m2, s2)),
        (ValV::Integer(i), ValV::Decimal(m, s)) => dec_result(dec_mul_of(i, 0, m, s)),
        (ValV::Decimal(m, s), ValV::Integer(i)) => dec_result(dec_mul_of(i, 0, m, s)),
        _ => Result::Err(EvalError::TypeMismatch),
    }
}

/// Division: truncating between integers, exact decimal division
/// otherwise; a zero divisor is refused.
pub open spec fn div_v(a: ValV, b: ValV) -> Result<ValV, EvalError> {
    match (a, b) {
        (ValV::Integer(i), ValV::Integer(j)) => if j == 0 {
            Result::Err(EvalError::DivideByZero)
        } else if !int_in_range(trunc_div(i, j)) {
            Result::Err(EvalError::Overflow)
        } else {
            Result::Ok(ValV::Integer(trunc_div(i, j)))
        },
        (ValV::Decimal(m1, s1), ValV::Decimal(m2, s2)) => if m2 == 0 {
            Result::Err(EvalError::DivideByZero)
        } else {
            dec_result(dec_div_of(m1, s1, m2, s2))
        },
        (ValV::Integer(i), ValV::Decimal(m, s)) => if m == 0 {
            Result::Err(EvalError::DivideByZero)
        } else {
            dec_result(dec_div_of(i, 0, m, s))
        },
        (ValV::Decimal(m, s), ValV::Integer(i)) => if i == 0 {
            Result::Err(EvalError::DivideByZero)
        } else {
            dec_result(dec_div_of(m, s, i, 0))
        },
        _ => Result::Err(EvalError::TypeMismatch),
    }
}

/// Remainder, with the sign truncating division gives it.
pub open spec fn rem_v(a: ValV, b: ValV) -> Result<ValV, EvalError> {
    match (a, b) {
        (ValV::Integer(i), ValV::Integer(j)) => if j == 0 {
            Result::Err(EvalError::DivideByZero)
        } else {
            Result::Ok(ValV::Integer(trunc_rem(i, j)))
        },
        (ValV::Decimal(m1, s1), ValV::Decimal(m2, s2)) => if m2 == 0 {
            Result::Err(EvalError::DivideByZero)
        } else {
            dec_result(dec_rem_of(m1, s1, m2, s2))
        },
        (ValV::Integer(i), ValV::Decimal(m, s)) => if m == 0 {
            Result::Err(EvalError::DivideByZero)
        } else {
            dec_result(dec_rem_of(i, 0, m, s))
        },
        (ValV::Decimal(m, s), ValV::Integer(i)) => if i == 0 {
            Result::Err(EvalError::DivideByZero)
        } else {
            dec_result(dec_rem_of(m, s, i, 0))
        },
        _ => Result::Err(EvalError::TypeMismatch),
    }
}

/// Dispatch of the arithmetic operators.
pub open spec fn arith_v(op: ArithmeticOp, a: ValV, b: ValV) -> Result<ValV, EvalError> {
    match op {
        ArithmeticOp::Add => add_v(a, b),
        ArithmeticOp::Subtract => sub_v(a, b),
        ArithmeticOp::Divide => div_v(a, b),
        ArithmeticOp::Multiply => mul_v(a, b),
        ArithmeticOp::Modulus => rem_v(a, b),
    }
}

/// The unary operators: truthiness negation and projection, numeric
/// negation and numeric identity.
pub open spec fn unary_v(op: UnaryOp, v: ValV) -> Result<ValV, EvalError> {
    match op {
        UnaryOp::Not => Result::Ok(ValV::Bool(!truthy(v))),
        UnaryOp::DoubleNot => Result::Ok(ValV::Bool(truthy(v))),
        UnaryOp::Minus => match v {
            ValV::Integer(i) => if int_in_range(-i) {
                Result::Ok(ValV::Integer(-i))
            } else {
                Result::Err(EvalError::Overflow)
            },
            ValV::Decimal(m, s) => Result::Ok(ValV::Decimal(-m, s)),
            _ => Result::Err(EvalError::TypeMismatch),
        },
        UnaryOp::DoubleMinus => match v {
            ValV::Integer(_) => Result::Ok(v),
            ValV::Decimal(_, _) => Result::Ok(v),
            _ => Result::Err(EvalError::TypeMismatch),
        },
    }
}

/// Dispatch of the relational operators over equality, order and
/// membership.
pub open spec fn relation_v(op: RelationOp, a: ValV, b: ValV) -> Result<ValV, EvalError> {
    match op {
        RelationOp::Equals => Result::Ok(ValV::Bool(cel_eq(a, b))),
        RelationOp::NotEquals => Result::Ok(ValV::Bool(!cel_eq(a, b))),
        RelationOp::In => in_v(a, b),
        RelationOp::LessThan => match cel_cmp(a, b) {
            Result::Ok(c) => Result::Ok(ValV::Bool(c is Lt)),
            Result::Err(e) => Result::Err(e),
        },
        RelationOp::LessThanEq => match cel_cmp(a, b) {
            Result::Ok(c) => Result::Ok(ValV::Bool(!(c is Gt))),
            Result::Err(e) => Result::Err(e),
        },
        RelationOp::GreaterThan => match cel_cmp(a, b) {
            Result::Ok(c) => Result::Ok(ValV::Bool(c is Gt)),
            Result::Err(e) => Result::Err(e),
        },
        RelationOp::GreaterThanEq => match cel_cmp(a, b) {
            Result::Ok(c) => Result::Ok(ValV::Bool(!(c is Lt))),
            Result::Err(e) => Result::Err(e),
        },
    }
}

} // verus!
