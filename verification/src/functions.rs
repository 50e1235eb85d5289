use vstd::prelude::*;
use crate::ast::Expression;
use crate::context::{Context, CtxV, HostCallable, recv_view};
use crate::value::{CelType, EvalError, ValV, res_view, val_wf};

verus! {

/// What `size` returns: the length of a list, mapping, text or byte
/// value as an integer; any other receiver has no size.
pub open spec fn size_spec(receiver: Option<ValV>) -> Result<ValV, EvalError> {
    match receiver {
        Option::Some(ValV::List(items)) => if items.len() <= 0x7fffffffffffffff {
            Result::Ok(ValV::Integer(items.len() as int))
        } else {
            Result::Err(EvalError::Overflow)
        },
        Option::Some(ValV::Mapping(es)) => if es.len() <= 0x7fffffffffffffff {
            Result::Ok(ValV::Integer(es.len() as int))
        } else {
            Result::Err(EvalError::Overflow)
        },
        Option::Some(ValV::String(s)) => if s.len() <= 0x7fffffffffffffff {
            Result::Ok(ValV::Integer(s.len() as int))
        } else {
            Result::Err(EvalError::Overflow)
        },
        Option::Some(ValV::Bytes(b)) => if b.len() <= 0x7fffffffffffffff {
            Result::Ok(ValV::Integer(b.len() as int))
        } else {
            Result::Err(EvalError::Overflow)
        },
        _ => Result::Err(EvalError::TypeMismatch),
    }
}

/// The `size` builtin. It reads only its receiver; the argument
/// expressions and the environment play no part.
pub fn size<F: HostCallable>(
    target: Option<&CelType>,
    args: &[Expression],
    ctx: &Context<F>,
) -> (r: Result<CelType, EvalError>)
    ensures
        res_view(r) == size_spec(recv_view(target)),
        r matches Result::Ok(v) ==> val_wf(v@),
{
    size_of(target)
}

/// The length computation behind `size`.
fn size_of(target: Option<&CelType>) -> (r: Result<CelType, EvalError>)
    ensures
        res_view(r) == size_spec(recv_view(target)),
        r matches Result::Ok(v) ==> val_wf(v@),
{
    proof {
        reveal_with_fuel(crate::value::val_view, 2);
    }
    match target {
        Option::Some(CelType::List(items)) => {
            let l = items.len();
            if (l as u64) > 0x7fffffffffffffffu64 {
                Result::Err(EvalError::Overflow)
            } else {
                Result::Ok(CelType::Integer(l as i64))
            }
        },
        Option::Some(CelType::Mapping(m)) => {
            let l = m.map.len();
            if (l as u64) > 0x7fffffffffffffffu64 {
                Result::Err(EvalError::Overflow)
            } else {
                Result::Ok(CelType::Integer(l as i64))
            }
        },
        Option::Some(CelType::String(s)) => {
            let l = s.len();
            if (l as u64) > 0x7fffffffffffffffu64 {
                Result::Err(EvalError::Overflow)
            } else {
                Result::Ok(CelType::Integer(l as i64))
            }
        },
        Option::Some(CelType::Bytes(b)) => {
            let l = b.len();
            if (l as u64) > 0x7fffffffffffffffu64 {
                Result::Err(EvalError::Overflow)
            } else {
                Result::Ok(CelType::Integer(l as i64))
            }
        },
        _ => Result::Err(EvalError::TypeMismatch),
    }
}

/// The functions the library itself offers a context.
#[derive(Debug, Clone, Copy, PartialEq, Eq, Structural)]
pub enum Builtin {
    Size,
}

impl HostCallable for Builtin {
    open spec fn call_spec(
        &self,
        receiver: Option<ValV>,
        args: Seq<Expression>,
        ctx: CtxV<Builtin>,
    ) -> Result<ValV, EvalError> {
        match self {
            Builtin::Size => size_spec(receiver),
        }
    }

    fn call(
        &self,
        receiver: Option<&CelType>,
        args: &[Expression],
        ctx: &Context<Builtin>,
    ) -> (r: Result<CelType, EvalError>) {
        match self {
            Builtin::Size => size_of(receiver),
        }
    }
}

} // verus!
