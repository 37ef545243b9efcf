use crate::envroiment::include_file_stack::IncludeFileStackFault;
use crate::eval::sp_eval_fault_msg;
use crate::eval::EvalFault;
use crate::eval::EvalFaultV;
use crate::lexer::LexFault;
use crate::parser::ParseFault;
use vstd::prelude::*;

verus! {

/// Any fault the pipeline can record: one bad statement never aborts the
/// file, its fault is appended to the environment and processing goes on.
#[derive(Debug)]
pub enum Fault {
    Lex(LexFault),
    Parse(ParseFault),
    Eval(EvalFault),
    Include(IncludeFileStackFault),
}

/// The mathematical value of a recorded fault; an include-cycle fault is
/// identified by the rendered path that closed the cycle.
pub enum FaultV {
    Lex(LexFault),
    Parse(ParseFault),
    Eval(EvalFaultV),
    Include(Seq<char>),
}

impl View for Fault {
    type V = FaultV;

    open spec fn view(&self) -> FaultV {
        match self {
            Fault::Lex(f) => FaultV::Lex(*f),
            Fault::Parse(f) => FaultV::Parse(*f),
            Fault::Eval(f) => FaultV::Eval(f@),
            Fault::Include(f) => FaultV::Include(f.path_view()),
        }
    }
}

impl Fault {
    /// The message shown to the user, prefixed with the fault's category.
    pub fn msg(&self) -> (r: String)
        ensures
            match self {
                Fault::Lex(_) => r@ == "LexError: value error"@,
                Fault::Parse(_) => r@ == "ParseError: Syntax"@,
                Fault::Eval(f) => r@ == sp_eval_fault_msg(f@),
                Fault::Include(f) => r@ == "IncludeError: Recursive inclusion detected. : "@
                    + f.path_view(),
            },
    {
        match self {
            Fault::Lex(f) => f.msg(),
            Fault::Parse(f) => f.msg(),
            Fault::Eval(f) => f.msg(),
            Fault::Include(f) => f.msg(),
        }
    }
}

} // verus!
