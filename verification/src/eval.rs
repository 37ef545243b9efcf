use crate::app_path::join_or_abs;
use crate::app_path::sp_join_or_abs;
use crate::app_path::AbsFilePathError;
use crate::app_path::PathV;
use crate::envroiment::Envroiment;
use crate::files::FileSource;
use crate::parser::sp_expr_view;
use crate::parser::Call;
use crate::parser::IncludeStatement;
use crate::parser::LetStatement;
use crate::parser::Statement;
use crate::run::MAX_INCLUDE_DEPTH;
use crate::utils::lemma_prefix_refl;
use crate::utils::string_to_deque;
use vstd::string::StrSliceExecFns;
use crate::color::sp_color_minus;
use crate::color::sp_color_plus;
use crate::color::Color;
use crate::color::ColorInt;
use crate::parser::CallV;
use crate::parser::ExprV;
use crate::parser::Expression;
use crate::utils::append_decimal;
use crate::utils::sp_decimal;
use vstd::prelude::*;
use vstd::string::StringExecFns;

pub mod function;

verus! {

/// A value an expression evaluates to: a color, or a bare integer (valid
/// only as a function argument).
#[derive(Debug, PartialEq, Eq, Structural, Clone, Copy)]
pub enum Value {
    Color(Color),
    Int(ColorInt),
}

/// A fault raised while evaluating one statement.
#[derive(Debug)]
pub enum EvalFault {
    NotFound { target_name: String },
    NoSuchFile { path: String },
    Path { err: AbsFilePathError },
    IsNotFunction { target_name: String },
    NumArgments { req: usize, got: usize },
    ArgType,
    TooDeepInclude,
}

/// The mathematical value of an evaluation fault.
pub enum EvalFaultV {
    NotFound { target_name: Seq<char> },
    NoSuchFile { path: Seq<char> },
    Path { err: AbsFilePathError },
    IsNotFunction { target_name: Seq<char> },
    NumArgments { req: usize, got: usize },
    ArgType,
    TooDeepInclude,
}

impl View for EvalFault {
    type V = EvalFaultV;

    open spec fn view(&self) -> EvalFaultV {
        match self {
            EvalFault::NotFound { target_name } => EvalFaultV::NotFound {
                target_name: target_name@,
            },
            EvalFault::NoSuchFile { path } => EvalFaultV::NoSuchFile { path: path@ },
            EvalFault::Path { err } => EvalFaultV::Path { err: *err },
            EvalFault::IsNotFunction { target_name } => EvalFaultV::IsNotFunction {
                target_name: target_name@,
            },
            EvalFault::NumArgments { req, got } => EvalFaultV::NumArgments {
                req: *req,
                got: *got,
            },
            EvalFault::ArgType => EvalFaultV::ArgType,
            EvalFault::TooDeepInclude => EvalFaultV::TooDeepInclude,
        }
    }
}

/// Case analysis connecting fault value equality to the shapes of the two
/// faults; the nested matches force the prover through every pair.
proof fn lemma_eval_fault_view_eq(a: &EvalFault, b: &EvalFault)
    ensures
        (a@ == b@) <==> (match (a, b) {
            (
                EvalFault::NotFound { target_name: x },
                EvalFault::NotFound { target_name: y },
            ) => x@ == y@,
            (EvalFault::NoSuchFile { path: x }, EvalFault::NoSuchFile { path: y }) => x@ == y@,
            (EvalFault::Path { err: x }, EvalFault::Path { err: y }) => x == y,
            (
                EvalFault::IsNotFunction { target_name: x },
                EvalFault::IsNotFunction { target_name: y },
            ) => x@ == y@,
            (
                EvalFault::NumArgments { req: r1, got: g1 },
                EvalFault::NumArgments { req: r2, got: g2 },
            ) => r1 == r2 && g1 == g2,
            (EvalFault::ArgType, EvalFault::ArgType) => true,
            (EvalFault::TooDeepInclude, EvalFault::TooDeepInclude) => true,
            _ => false,
        }),
{
    match a {
        EvalFault::NotFound{ target_name: _ } => {
            match b {
                EvalFault::NotFound{ target_name: _ } => {},
                EvalFault::NoSuchFile{ path: _ } => {},
                EvalFault::Path{ err: _ } => {},
                EvalFault::IsNotFunction{ target_name: _ } => {},
                EvalFault::NumArgments{ req: _, got: _ } => {},
                EvalFault::ArgType => {},
                EvalFault::TooDeepInclude => {},
            }
        },
        EvalFault::NoSuchFile{ path: _ } => {
            match b {
                EvalFault::NotFound{ target_name: _ } => {},
                EvalFault::NoSuchFile{ path: _ } => {},
                EvalFault::Path{ err: _ } => {},
                EvalFault::IsNotFunction{ target_name: _ } => {},
                EvalFault::NumArgments{ req: _, got: _ } => {},
                EvalFault::ArgType => {},
                EvalFault::TooDeepInclude => {},
            }
        },
        EvalFault::Path{ err: _ } => {
            match b {
                EvalFault::NotFound{ target_name: _ } => {},
                EvalFault::NoSuchFile{ path: _ } => {},
                EvalFault::Path{ err: _ } => {},
                EvalFault::IsNotFunction{ target_name: _ } => {},
                EvalFault::NumArgments{ req: _, got: _ } => {},
                EvalFault::ArgType => {},
                EvalFault::TooDeepInclude => {},
            }
        },
        EvalFault::IsNotFunction{ target_name: _ } => {
            match b {
                EvalFault::NotFound{ target_name: _ } => {},
                EvalFault::NoSuchFile{ path: _ } => {},
                EvalFault::Path{ err: _ } => {},
                EvalFault::IsNotFunction{ target_name: _ } => {},
                EvalFault::NumArgments{ req: _, got: _ } => {},
                EvalFault::ArgType => {},
                EvalFault::TooDeepInclude => {},
            }
        },
        EvalFault::NumArgments{ req: _, got: _ } => {
            match b {
                EvalFault::NotFound{ target_name: _ } => {},
                EvalFault::NoSuchFile{ path: _ } => {},
                EvalFault::Path{ err: _ } => {},
                EvalFault::IsNotFunction{ target_name: _ } => {},
                EvalFault::NumArgments{ req: _, got: _ } => {},
                EvalFault::ArgType => {},
                EvalFault::TooDeepInclude => {},
            }
        },
        EvalFault::ArgType => {
            match b {
                EvalFault::NotFound{ target_name: _ } => {},
                EvalFault::NoSuchFile{ path: _ } => {},
                EvalFault::Path{ err: _ } => {},
                EvalFault::IsNotFunction{ target_name: _ } => {},
                EvalFault::NumArgments{ req: _, got: _ } => {},
                EvalFault::ArgType => {},
                EvalFault::TooDeepInclude => {},
            }
        },
        EvalFault::TooDeepInclude => {
            match b {
                EvalFault::NotFound{ target_name: _ } => {},
                EvalFault::NoSuchFile{ path: _ } => {},
                EvalFault::Path{ err: _ } => {},
                EvalFault::IsNotFunction{ target_name: _ } => {},
                EvalFault::NumArgments{ req: _, got: _ } => {},
                EvalFault::ArgType => {},
                EvalFault::TooDeepInclude => {},
            }
        },
    }
}

impl PartialEq for EvalFault {
    /// Two faults are equal when they have the same kind and payload.
    fn eq(&self, other: &EvalFault) -> (r: bool) {
        proof {
            lemma_eval_fault_view_eq(self, other);
        }
        match self {
            EvalFault::NotFound { target_name: x } => match other {
                EvalFault::NotFound { target_name: y } => *x == *y,
                _ => false,
            },
            EvalFault::NoSuchFile { path: x } => match other {
                EvalFault::NoSuchFile { path: y } => *x == *y,
                _ => false,
            },
            EvalFault::Path { err: x } => match other {
                EvalFault::Path { err: y } => *x == *y,
                _ => false,
            },
            EvalFault::IsNotFunction { target_name: x } => match other {
                EvalFault::IsNotFunction { target_name: y } => *x == *y,
                _ => false,
            },
            EvalFault::NumArgments { req: r1, got: g1 } => match other {
                EvalFault::NumArgments { req: r2, got: g2 } => *r1 == *r2 && *g1 == *g2,
                _ => false,
            },
            EvalFault::ArgType => matches!(other, EvalFault::ArgType),
            EvalFault::TooDeepInclude => matches!(other, EvalFault::TooDeepInclude),
        }
    }
}

impl vstd::std_specs::cmp::PartialEqSpecImpl for EvalFault {
    open spec fn obeys_eq_spec() -> bool {
        true
    }

    open spec fn eq_spec(&self, other: &EvalFault) -> bool {
        self@ == other@
    }
}

impl From<AbsFilePathError> for EvalFault {
    /// A path fault surfaces as an evaluation fault.
    fn from(value: AbsFilePathError) -> (r: Self) {
        EvalFault::Path { err: value }
    }
}

impl vstd::std_specs::convert::FromSpecImpl<AbsFilePathError> for EvalFault {
    open spec fn obeys_from_spec() -> bool {
        true
    }

    open spec fn from_spec(value: AbsFilePathError) -> Self {
        EvalFault::Path { err: value }
    }
}

/// The rendered name of a path fault.
pub open spec fn sp_path_err_text(e: AbsFilePathError) -> Seq<char> {
    match e {
        AbsFilePathError::ExpectAbsolutePath => "ExpectAbsolutePath"@,
        AbsFilePathError::FaultFileName => "FaultFileName"@,
        AbsFilePathError::ExpectRelativePath => "ExpectRelativePath"@,
        AbsFilePathError::FailureGetHomedir => "FailureGetHomedir"@,
    }
}

/// The fault message shown to the user.
pub open spec fn sp_eval_fault_msg(f: EvalFaultV) -> Seq<char> {
    match f {
        EvalFaultV::NotFound { target_name } => "RuntimeError: "@ + target_name
            + " is Not Found"@,
        EvalFaultV::NoSuchFile { path } => "RuntimeError: No such file. path:"@ + path,
        EvalFaultV::Path { err } => "RuntimeError: "@ + sp_path_err_text(err),
        EvalFaultV::IsNotFunction { target_name } => "RuntimeError: "@ + target_name
            + " is not function"@,
        EvalFaultV::NumArgments { req, got } => "RuntimeError: Wrong number of arguments. req="@
            + sp_decimal(req as nat) + " got="@ + sp_decimal(got as nat),
        EvalFaultV::ArgType => "RuntimeError: The type of the argument is differentent."@,
        EvalFaultV::TooDeepInclude => "RuntimeError: Include nesting is too deep."@,
    }
}

impl EvalFault {
    /// The fault message shown to the user.
    pub fn msg(&self) -> (r: String)
        ensures
            r@ == sp_eval_fault_msg(self@),
    {
        match self {
            EvalFault::NotFound { target_name } => {
                let mut buf = String::from_str("RuntimeError: ");
                buf.append(target_name.as_str());
                buf.append(" is Not Found");
                buf
            },
            EvalFault::NoSuchFile { path } => {
                let mut buf = String::from_str("RuntimeError: No such file. path:");
                buf.append(path.as_str());
                buf
            },
            EvalFault::Path { err } => {
                let mut buf = String::from_str("RuntimeError: ");
                let text = match err {
                    AbsFilePathError::ExpectAbsolutePath => "ExpectAbsolutePath",
                    AbsFilePathError::FaultFileName => "FaultFileName",
                    AbsFilePathError::ExpectRelativePath => "ExpectRelativePath",
                    AbsFilePathError::FailureGetHomedir => "FailureGetHomedir",
                };
                buf.append(text);
                buf
            },
            EvalFault::IsNotFunction { target_name } => {
                let mut buf = String::from_str("RuntimeError: ");
                buf.append(target_name.as_str());
                buf.append(" is not function");
                buf
            },
            EvalFault::NumArgments { req, got } => {
                let mut buf = String::from_str("RuntimeError: Wrong number of arguments. req=");
                append_decimal(&mut buf, *req);
                buf.append(" got=");
                append_decimal(&mut buf, *got);
                buf
            },
            EvalFault::ArgType => String::from_str(
                "RuntimeError: The type of the argument is differentent.",
            ),
            EvalFault::TooDeepInclude => String::from_str(
                "RuntimeError: Include nesting is too deep.",
            ),
        }
    }
}

/// What evaluating an expression yields, given the current bindings: colors
/// and integers stand for themselves, an identifier looks its color up, and
/// a call runs one of the three builtin functions.
pub open spec fn sp_eval_expr(e: ExprV, vars: Map<Seq<char>, Color>) -> Result<Value, EvalFaultV>
    decreases e,
{
    match e {
        ExprV::Color(c) => Ok(Value::Color(c)),
        ExprV::Int(v) => Ok(Value::Int(v)),
        ExprV::Identifier(name) => {
            if vars.contains_key(name) {
                Ok(Value::Color(vars[name]))
            } else {
                Err(EvalFaultV::NotFound { target_name: name })
            }
        },
        ExprV::Call(call) => sp_eval_call(call, vars),
    }
}

/// Dispatch of a call by name: `plus`, `minus` and `rgb` are the only
/// functions; any other name is a fault.
pub open spec fn sp_eval_call(call: CallV, vars: Map<Seq<char>, Color>) -> Result<
    Value,
    EvalFaultV,
>
    decreases call,
{
    if call.name == "plus"@ {
        sp_eval_plus(call.args, vars)
    } else if call.name == "minus"@ {
        sp_eval_minus(call.args, vars)
    } else if call.name == "rgb"@ {
        sp_eval_rgb(call.args)
    } else {
        Err(EvalFaultV::IsNotFunction { target_name: call.name })
    }
}

/// `plus` takes a color expression and three integer deltas; the deltas are
/// checked last-to-first before the color argument is evaluated.
pub open spec fn sp_eval_plus(args: Seq<ExprV>, vars: Map<Seq<char>, Color>) -> Result<
    Value,
    EvalFaultV,
>
    decreases args,
{
    if args.len() != 4 {
        Err(EvalFaultV::NumArgments { req: 4, got: args.len() as usize })
    } else if !(args[3] is Int) {
        Err(EvalFaultV::ArgType)
    } else if !(args[2] is Int) {
        Err(EvalFaultV::ArgType)
    } else if !(args[1] is Int) {
        Err(EvalFaultV::ArgType)
    } else {
        match sp_eval_expr(args[0], vars) {
            Err(f) => Err(f),
            Ok(Value::Int(_)) => Err(EvalFaultV::ArgType),
            Ok(Value::Color(c)) => Ok(
                Value::Color(sp_color_plus(c, args[1]->Int_0, args[2]->Int_0, args[3]->Int_0)),
            ),
        }
    }
}

/// `minus` mirrors `plus` with saturating subtraction.
pub open spec fn sp_eval_minus(args: Seq<ExprV>, vars: Map<Seq<char>, Color>) -> Result<
    Value,
    EvalFaultV,
>
    decreases args,
{
    if args.len() != 4 {
        Err(EvalFaultV::NumArgments { req: 4, got: args.len() as usize })
    } else if !(args[3] is Int) {
        Err(EvalFaultV::ArgType)
    } else if !(args[2] is Int) {
        Err(EvalFaultV::ArgType)
    } else if !(args[1] is Int) {
        Err(EvalFaultV::ArgType)
    } else {
        match sp_eval_expr(args[0], vars) {
            Err(f) => Err(f),
            Ok(Value::Int(_)) => Err(EvalFaultV::ArgType),
            Ok(Value::Color(c)) => Ok(
                Value::Color(sp_color_minus(c, args[1]->Int_0, args[2]->Int_0, args[3]->Int_0)),
            ),
        }
    }
}

/// `rgb` takes exactly three integer literals and builds the color with
/// those channels; its arguments are checked first-to-last.
pub open spec fn sp_eval_rgb(args: Seq<ExprV>) -> Result<Value, EvalFaultV> {
    if args.len() != 3 {
        Err(EvalFaultV::NumArgments { req: 3, got: args.len() as usize })
    } else if !(args[0] is Int) {
        Err(EvalFaultV::ArgType)
    } else if !(args[1] is Int) {
        Err(EvalFaultV::ArgType)
    } else if !(args[2] is Int) {
        Err(EvalFaultV::ArgType)
    } else {
        Ok(Value::Color(Color { r: args[0]->Int_0, g: args[1]->Int_0, b: args[2]->Int_0 }))
    }
}

/// What one `let` does to the bindings: the right-hand side must evaluate
/// to a color, which is then bound to the name, overwriting any earlier
/// binding; a bare integer is a type fault.
pub open spec fn sp_eval_let(
    name: Seq<char>,
    e: ExprV,
    vars: Map<Seq<char>, Color>,
) -> Result<Map<Seq<char>, Color>, EvalFaultV> {
    match sp_eval_expr(e, vars) {
        Err(f) => Err(f),
        Ok(Value::Int(_)) => Err(EvalFaultV::ArgType),
        Ok(Value::Color(c)) => Ok(vars.insert(name, c)),
    }
}

/// What holds of the environment and the result after one statement is
/// evaluated: the include stack is restored, faults only accumulate, and a
/// `let` has exactly the effect `sp_eval_let` describes. What an `include`
/// binds depends on what the file source answered, so only the frame
/// conditions are promised for it.
pub open spec fn sp_eval_post(
    stmt: Statement,
    pre: Envroiment,
    post: Envroiment,
    r: Result<(), EvalFault>,
) -> bool {
    &&& post.wf()
    &&& post.include_file_stack@ == pre.include_file_stack@
    &&& pre.faults@.is_prefix_of(post.faults@)
    &&& match stmt {
        Statement::Let(ls) => {
            &&& post.faults == pre.faults
            &&& match sp_eval_let(ls.left@, sp_expr_view(ls.right), pre.vars_map()) {
                Ok(m) => r == Ok::<(), EvalFault>(()) && post.vars_map() == m,
                Err(f) => r is Err && r->Err_0@ == f && post.vars_map() == pre.vars_map(),
            }
        },
        Statement::Include(_) => true,
    }
}

/// Looks an identifier up in the environment.
fn eval_identifer(name: String, env: &mut Envroiment) -> (r: Result<Value, EvalFault>)
    requires
        old(env).wf(),
    ensures
        *final(env) == *old(env),
        match r {
            Ok(v) => sp_eval_expr(ExprV::Identifier(name@), old(env).vars_map()) == Ok::<
                Value,
                EvalFaultV,
            >(v),
            Err(f) => sp_eval_expr(ExprV::Identifier(name@), old(env).vars_map()) == Err::<
                Value,
                EvalFaultV,
            >(f@),
        },
{
    match env.get(&name) {
        Some(color) => Ok(Value::Color(color)),
        None => Err(EvalFault::NotFound { target_name: name }),
    }
}

/// Dispatches a call to the builtin its name picks.
fn eval_call(call: Call, env: &mut Envroiment) -> (r: Result<Value, EvalFault>)
    requires
        old(env).wf(),
    ensures
        *final(env) == *old(env),
        match r {
            Ok(v) => sp_eval_call(call@, old(env).vars_map()) == Ok::<Value, EvalFaultV>(v),
            Err(f) => sp_eval_call(call@, old(env).vars_map()) == Err::<Value, EvalFaultV>(f@),
        },
    decreases call,
{
    let Call { name, args } = call;
    if name == String::from_str("plus") {
        self::function::eval_plus_function(args, env)
    } else if name == String::from_str("minus") {
        self::function::eval_minus_function(args, env)
    } else if name == String::from_str("rgb") {
        self::function::eval_rgb_function(args)
    } else {
        Err(EvalFault::IsNotFunction { target_name: name })
    }
}

/// Evaluates one expression to a value, reading (never changing) the
/// environment.
pub(crate) fn eval_expression(exp: Expression, env: &mut Envroiment) -> (r: Result<
    Value,
    EvalFault,
>)
    requires
        old(env).wf(),
    ensures
        *final(env) == *old(env),
        match r {
            Ok(v) => sp_eval_expr(sp_expr_view(exp), old(env).vars_map()) == Ok::<
                Value,
                EvalFaultV,
            >(v),
            Err(f) => sp_eval_expr(sp_expr_view(exp), old(env).vars_map()) == Err::<
                Value,
                EvalFaultV,
            >(f@),
        },
    decreases exp,
{
    match exp {
        Expression::Color(color) => Ok(Value::Color(color)),
        Expression::Identifier(name) => eval_identifer(name, env),
        Expression::Call(call) => eval_call(call, env),
        Expression::Int(v) => Ok(Value::Int(v)),
    }
}

/// Applies one `let`: the right-hand side must evaluate to a color, which
/// is bound to the name, overwriting any earlier binding.
fn eval_let_statement(let_stmt: LetStatement, env: &mut Envroiment) -> (r: Result<(), EvalFault>)
    requires
        old(env).wf(),
    ensures
        final(env).wf(),
        final(env).include_file_stack == old(env).include_file_stack,
        final(env).faults == old(env).faults,
        match sp_eval_let(let_stmt.left@, sp_expr_view(let_stmt.right), old(env).vars_map()) {
            Ok(m) => r == Ok::<(), EvalFault>(()) && final(env).vars_map() == m,
            Err(f) => r is Err && r->Err_0@ == f && final(env).vars_map() == old(env).vars_map(),
        },
{
    let LetStatement { left, right } = let_stmt;
    let value = match eval_expression(right, env) {
        Err(f) => {
            return Err(f);
        },
        Ok(v) => v,
    };
    let color = match value {
        Value::Color(c) => c,
        Value::Int(_) => {
            return Err(EvalFault::ArgType);
        },
    };
    env.set(left, color);
    Ok(())
}

/// Resolves and runs an included file: the path is resolved against the
/// file being processed (or read as absolute or home-rooted), its text is
/// fetched from the file source, and the whole pipeline runs over it
/// against the same environment. `fuel` bounds how deep includes may nest.
///
/// Resolving a path that is not home-rooted consults nothing outside, so a
/// malformed one is promised to give exactly its path fault.
fn eval_include_with_fuel<F: FileSource>(
    include_stmt: IncludeStatement,
    env: &mut Envroiment,
    fs: &mut F,
    fuel: u64,
) -> (r: Result<(), EvalFault>)
    requires
        old(env).wf(),
        old(env).include_file_stack@.len() > 0,
    ensures
        final(env).wf(),
        final(env).include_file_stack@ == old(env).include_file_stack@,
        old(env).faults@.is_prefix_of(final(env).faults@),
        sp_include_path_fault(
            include_stmt.path@,
            old(env).include_file_stack@.last(),
            fuel,
            *old(env),
            *final(env),
            r,
        ),
    decreases fuel, 0int,
{
    proof {
        lemma_prefix_refl(old(env).faults@);
    }
    if fuel == 0 {
        return Err(EvalFault::TooDeepInclude);
    }
    let starts_tilde = include_stmt.path.as_str().unicode_len() > 0
        && include_stmt.path.as_str().get_char(0) == '~';
    let home = if starts_tilde {
        fs.home_dir()
    } else {
        None
    };
    let home_ref: Option<&str> = match &home {
        Some(h) => Some(h.as_str()),
        None => None,
    };
    let target = {
        let current = env.include_file_stack.get_current_file();
        join_or_abs(current, include_stmt.path.as_str(), home_ref)
    };
    let target = match target {
        Ok(t) => t,
        Err(e) => {
            return Err(EvalFault::Path { err: e });
        },
    };
    let text = match fs.read_file(&target) {
        Some(t) => t,
        None => {
            return Err(EvalFault::NoSuchFile { path: include_stmt.path });
        },
    };
    let code_chars = string_to_deque(text.as_str());
    crate::run::run_with_fuel(env, code_chars, target, fs, fuel - 1);
    Ok(())
}

/// When an include's path does not lean on the home directory, resolving
/// it is pure; on such a malformed path the fault is pinned exactly, and
/// the environment is untouched.
pub open spec fn sp_include_path_fault(
    path: Seq<char>,
    base: PathV,
    fuel: u64,
    pre: Envroiment,
    post: Envroiment,
    r: Result<(), EvalFault>,
) -> bool {
    (fuel > 0 && (path.len() == 0 || path[0] != '~')) ==> match sp_join_or_abs(
        base,
        path,
        None,
    ) {
        Err(e) => r matches Err(f) && f@ == (EvalFaultV::Path { err: e }) && post == pre,
        Ok(_) => true,
    }
}

/// Evaluates one statement with a bound on include nesting.
pub(crate) fn eval_with_fuel<F: FileSource>(
    stmt: Statement,
    env: &mut Envroiment,
    fs: &mut F,
    fuel: u64,
) -> (r: Result<(), EvalFault>)
    requires
        old(env).wf(),
        stmt matches Statement::Include(_) ==> old(env).include_file_stack@.len() > 0,
    ensures
        sp_eval_post(stmt, *old(env), *final(env), r),
        stmt matches Statement::Include(inc) ==> (old(env).include_file_stack@.len() > 0
            ==> sp_include_path_fault(
            inc.path@,
            old(env).include_file_stack@.last(),
            fuel,
            *old(env),
            *final(env),
            r,
        )),
    decreases fuel, 1int,
{
    proof {
        lemma_prefix_refl(old(env).faults@);
    }
    match stmt {
        Statement::Let(let_stmt) => eval_let_statement(let_stmt, env),
        Statement::Include(include_stmt) => eval_include_with_fuel(include_stmt, env, fs, fuel),
    }
}

/// Evaluates one statement against the environment: a `let` binds, an
/// `include` runs a whole file. Faults only accumulate, and the include
/// stack is left as it was found.
pub fn eval<F: FileSource>(stmt: Statement, env: &mut Envroiment, fs: &mut F) -> (r: Result<
    (),
    EvalFault,
>)
    requires
        old(env).wf(),
        stmt matches Statement::Include(_) ==> old(env).include_file_stack@.len() > 0,
    ensures
        sp_eval_post(stmt, *old(env), *final(env), r),
        stmt matches Statement::Include(inc) ==> (old(env).include_file_stack@.len() > 0
            ==> sp_include_path_fault(
            inc.path@,
            old(env).include_file_stack@.last(),
            MAX_INCLUDE_DEPTH,
            *old(env),
            *final(env),
            r,
        )),
{
    eval_with_fuel(stmt, env, fs, MAX_INCLUDE_DEPTH)
}

} // verus!

