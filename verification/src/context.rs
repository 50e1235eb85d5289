use vstd::prelude::*;
use crate::ast::{Expression, exprs_wf};
use crate::ops::bytes_eq;
use crate::value::{CelType, EvalError, ValV, res_view, val_view, val_wf};

verus! {

/// The mathematical shape of a binding environment: what each name
/// stands for, with functions and variables in separate namespaces.
pub struct CtxV<F> {
    pub variables: Map<Seq<u8>, ValV>,
    pub functions: Map<Seq<u8>, F>,
}

/// The binding environment the evaluator reads: variables and host
/// functions by name. A later binding for a name shadows an earlier
/// one; the evaluator never writes it.
pub struct Context<F> {
    pub variables: Vec<(Vec<u8>, CelType)>,
    pub functions: Vec<(Vec<u8>, F)>,
}

pub open spec fn vars_map(s: Seq<(Vec<u8>, CelType)>) -> Map<Seq<u8>, ValV>
    decreases s.len(),
{
    if s.len() == 0 {
        Map::empty()
    } else {
        vars_map(s.drop_last()).insert(s.last().0@, val_view(s.last().1))
    }
}

pub open spec fn funcs_map<F>(s: Seq<(Vec<u8>, F)>) -> Map<Seq<u8>, F>
    decreases s.len(),
{
    if s.len() == 0 {
        Map::empty()
    } else {
        funcs_map(s.drop_last()).insert(s.last().0@, s.last().1)
    }
}

impl<F> View for Context<F> {
    type V = CtxV<F>;

    open spec fn view(&self) -> CtxV<F> {
        CtxV { variables: vars_map(self.variables@), functions: funcs_map(self.functions@) }
    }
}

impl<F> Context<F> {
    /// Every bound variable holds a well-formed value.
    pub open spec fn wf(&self) -> bool {
        forall|k: Seq<u8>|
            self@.variables.contains_key(k) ==> val_wf(#[trigger] self@.variables[k])
    }

    /// The empty environment.
    pub fn new() -> (r: Context<F>)
        ensures
            r@.variables == Map::<Seq<u8>, ValV>::empty(),
            r@.functions == Map::<Seq<u8>, F>::empty(),
            r.wf(),
    {
        Context { variables: Vec::new(), functions: Vec::new() }
    }

    /// Binds a variable; a later binding for the same name wins.
    pub fn set_variable(&mut self, name: Vec<u8>, v: CelType)
        requires
            val_wf(v@),
            old(self).wf(),
        ensures
            final(self)@.variables == old(self)@.variables.insert(name@, v@),
            final(self)@.functions == old(self)@.functions,
            final(self).wf(),
    {
        let ghost old_vars = self.variables@;
        self.variables.push((name, v));
        proof {
            assert(self.variables@.drop_last() =~= old_vars);
        }
    }

    /// Binds a host function; a later binding for the same name wins.
    pub fn set_function(&mut self, name: Vec<u8>, f: F)
        requires
            old(self).wf(),
        ensures
            final(self)@.functions == old(self)@.functions.insert(name@, f),
            final(self)@.variables == old(self)@.variables,
            final(self).wf(),
    {
        let ghost old_funcs = self.functions@;
        self.functions.push((name, f));
        proof {
            assert(self.functions@.drop_last() =~= old_funcs);
        }
    }

    /// The value bound to a name, by the latest binding.
    pub fn get_variable(&self, name: &Vec<u8>) -> (r: Option<&CelType>)
        ensures
            match r {
                Option::Some(v) => self@.variables.contains_key(name@) && self@.variables[name@]
                    == val_view(*v),
                Option::None => !self@.variables.contains_key(name@),
            },
    {
        proof {
            assert(self.variables@.take(self.variables@.len() as int) =~= self.variables@);
        }
        get_var_at(&self.variables, name, self.variables.len())
    }

    /// The host function bound to a name, by the latest binding.
    pub fn get_function(&self, name: &Vec<u8>) -> (r: Option<&F>)
        ensures
            match r {
                Option::Some(f) => self@.functions.contains_key(name@) && self@.functions[name@]
                    == *f,
                Option::None => !self@.functions.contains_key(name@),
            },
    {
        proof {
            assert(self.functions@.take(self.functions@.len() as int) =~= self.functions@);
        }
        get_fn_at(&self.functions, name, self.functions.len())
    }
}

fn get_var_at<'a>(s: &'a Vec<(Vec<u8>, CelType)>, name: &Vec<u8>, i: usize) -> (r: Option<
    &'a CelType,
>)
    requires
        i <= s@.len(),
    ensures
        match r {
            Option::Some(v) => vars_map(s@.take(i as int)).contains_key(name@) && vars_map(
                s@.take(i as int),
            )[name@] == val_view(*v),
            Option::None => !vars_map(s@.take(i as int)).contains_key(name@),
        },
    decreases i,
{
    if i == 0 {
        Option::None
    } else {
        proof {
            assert(s@.take(i as int).drop_last() =~= s@.take(i - 1 as int));
            assert(s@.take(i as int).last() == s@[i - 1 as int]);
        }
        if bytes_eq(&s[i - 1].0, name) {
            Option::Some(&s[i - 1].1)
        } else {
            get_var_at(s, name, i - 1)
        }
    }
}

fn get_fn_at<'a, F>(s: &'a Vec<(Vec<u8>, F)>, name: &Vec<u8>, i: usize) -> (r: Option<&'a F>)
    requires
        i <= s@.len(),
    ensures
        match r {
            Option::Some(f) => funcs_map(s@.take(i as int)).contains_key(name@) && funcs_map(
                s@.take(i as int),
            )[name@] == *f,
            Option::None => !funcs_map(s@.take(i as int)).contains_key(name@),
        },
    decreases i,
{
    if i == 0 {
        Option::None
    } else {
        proof {
            assert(s@.take(i as int).drop_last() =~= s@.take(i - 1 as int));
            assert(s@.take(i as int).last() == s@[i - 1 as int]);
        }
        if bytes_eq(&s[i - 1].0, name) {
            Option::Some(&s[i - 1].1)
        } else {
            get_fn_at(s, name, i - 1)
        }
    }
}

/// The mathematical reading of an optional receiver.
pub open spec fn recv_view(r: Option<&CelType>) -> Option<ValV> {
    match r {
        Option::Some(v) => Option::Some(val_view(*v)),
        Option::None => Option::None,
    }
}

/// A host function the environment can hold. The embedding
/// application implements it; the evaluator hands it the unevaluated
/// argument expressions and the live environment, so it may evaluate
/// them itself, or not at all.
pub trait HostCallable: Sized {
    /// What the call returns, as a function of its inputs. An
    /// implementation whose call reads anything else breaks this
    /// contract, and what is proved through it. Left unstated, the
    /// call's behaviour is some fixed but unknown function.
    open spec fn call_spec(&self, receiver: Option<ValV>, args: Seq<Expression>, ctx: CtxV<Self>) -> Result<ValV, EvalError> {
        vstd::pervasive::arbitrary()
    }

    /// The call itself. It receives the evaluated receiver, if any,
    /// and the argument expressions unevaluated.
    fn call(&self, receiver: Option<&CelType>, args: &[Expression], ctx: &Context<Self>) -> (r:
        Result<CelType, EvalError>)
        requires
            ctx.wf(),
            match receiver {
                Option::Some(v) => val_wf(v@),
                Option::None => true,
            },
            exprs_wf(args@),
        ensures
            res_view(r) == self.call_spec(recv_view(receiver), args@, ctx@),
            r matches Result::Ok(v) ==> val_wf(v@),
    ;
}

} // verus!
