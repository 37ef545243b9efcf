use crate::envroiment::Envroiment;
use crate::eval::eval_expression;
use crate::eval::sp_eval_minus;
use crate::eval::sp_eval_plus;
use crate::eval::sp_eval_rgb;
use crate::eval::EvalFault;
use crate::eval::Value;
use crate::parser::lemma_sp_exprs_view_index;
use crate::parser::lemma_sp_exprs_view_len;
use crate::parser::sp_exprs_view;
use crate::color::Color;
use crate::parser::Expression;
use vstd::prelude::*;

verus! {

/// Runs the builtin `plus`: a color expression followed by three integer
/// deltas, each channel raised with clamping at 255. The three deltas are
/// checked before the color argument is evaluated.
pub fn eval_plus_function(args: Vec<Expression>, env: &mut Envroiment) -> (r: Result<
    Value,
    EvalFault,
>)
    requires
        old(env).wf(),
    ensures
        *final(env) == *old(env),
        match r {
            Ok(v) => sp_eval_plus(sp_exprs_view(args@), old(env).vars_map()) == Ok::<
                Value,
                crate::eval::EvalFaultV,
            >(v),
            Err(f) => sp_eval_plus(sp_exprs_view(args@), old(env).vars_map()) == Err::<
                Value,
                crate::eval::EvalFaultV,
            >(f@),
        },
    decreases args,
{
    proof {
        lemma_sp_exprs_view_len(args@);
    }
    if args.len() != 4 {
        return Err(EvalFault::NumArgments { req: 4, got: args.len() });
    }
    proof {
        lemma_sp_exprs_view_index(args@, 0);
        lemma_sp_exprs_view_index(args@, 1);
        lemma_sp_exprs_view_index(args@, 2);
        lemma_sp_exprs_view_index(args@, 3);
    }
    let b = match &args[3] {
        Expression::Int(v) => *v,
        _ => {
            return Err(EvalFault::ArgType);
        },
    };
    let g = match &args[2] {
        Expression::Int(v) => *v,
        _ => {
            return Err(EvalFault::ArgType);
        },
    };
    let r = match &args[1] {
        Expression::Int(v) => *v,
        _ => {
            return Err(EvalFault::ArgType);
        },
    };
    let mut rest = args;
    let ghost args0 = rest@;
    let base = rest.remove(0);
    proof {
        assert(base == args0[0]);
    }
    let value = match eval_expression(base, env) {
        Err(f) => {
            return Err(f);
        },
        Ok(v) => v,
    };
    let color = match value {
        Value::Color(c) => c,
        Value::Int(_) => {
            return Err(EvalFault::ArgType);
        },
    };
    Ok(Value::Color(color.plus(r, g, b)))
}

/// Runs the builtin `minus`: like `plus`, with each channel lowered and
/// clamped at 0.
pub fn eval_minus_function(args: Vec<Expression>, env: &mut Envroiment) -> (r: Result<
    Value,
    EvalFault,
>)
    requires
        old(env).wf(),
    ensures
        *final(env) == *old(env),
        match r {
            Ok(v) => sp_eval_minus(sp_exprs_view(args@), old(env).vars_map()) == Ok::<
                Value,
                crate::eval::EvalFaultV,
            >(v),
            Err(f) => sp_eval_minus(sp_exprs_view(args@), old(env).vars_map()) == Err::<
                Value,
                crate::eval::EvalFaultV,
            >(f@),
        },
    decreases args,
{
    proof {
        lemma_sp_exprs_view_len(args@);
    }
    if args.len() != 4 {
        return Err(EvalFault::NumArgments { req: 4, got: args.len() });
    }
    proof {
        lemma_sp_exprs_view_index(args@, 0);
        lemma_sp_exprs_view_index(args@, 1);
        lemma_sp_exprs_view_index(args@, 2);
        lemma_sp_exprs_view_index(args@, 3);
    }
    let b = match &args[3] {
        Expression::Int(v) => *v,
        _ => {
            return Err(EvalFault::ArgType);
        },
    };
    let g = match &args[2] {
        Expression::Int(v) => *v,
        _ => {
            return Err(EvalFault::ArgType);
        },
    };
    let r = match &args[1] {
        Expression::Int(v) => *v,
        _ => {
            return Err(EvalFault::ArgType);
        },
    };
    let mut rest = args;
    let ghost args0 = rest@;
    let base = rest.remove(0);
    proof {
        assert(base == args0[0]);
    }
    let value = match eval_expression(base, env) {
        Err(f) => {
            return Err(f);
        },
        Ok(v) => v,
    };
    let color = match value {
        Value::Color(c) => c,
        Value::Int(_) => {
            return Err(EvalFault::ArgType);
        },
    };
    Ok(Value::Color(color.minus(r, g, b)))
}

/// Runs the builtin `rgb`: exactly three integer literals become the three
/// channels of a new color. Its arguments are never evaluated, so an
/// identifier or a nested call among them is a type fault.
pub fn eval_rgb_function(args: Vec<Expression>) -> (r: Result<Value, EvalFault>)
    ensures
        match r {
            Ok(v) => sp_eval_rgb(sp_exprs_view(args@)) == Ok::<Value, crate::eval::EvalFaultV>(v),
            Err(f) => sp_eval_rgb(sp_exprs_view(args@)) == Err::<Value, crate::eval::EvalFaultV>(
                f@,
            ),
        },
{
    proof {
        lemma_sp_exprs_view_len(args@);
    }
    if args.len() != 3 {
        return Err(EvalFault::NumArgments { req: 3, got: args.len() });
    }
    proof {
        lemma_sp_exprs_view_index(args@, 0);
        lemma_sp_exprs_view_index(args@, 1);
        lemma_sp_exprs_view_index(args@, 2);
    }
    let r = match &args[0] {
        Expression::Int(v) => *v,
        _ => {
            return Err(EvalFault::ArgType);
        },
    };
    let g = match &args[1] {
        Expression::Int(v) => *v,
        _ => {
            return Err(EvalFault::ArgType);
        },
    };
    let b = match &args[2] {
        Expression::Int(v) => *v,
        _ => {
            return Err(EvalFault::ArgType);
        },
    };
    Ok(Value::Color(Color::new(r, g, b)))
}

} // verus!
