use crate::app_path::sp_split;
use crate::app_path::AbsFilePath;
use crate::color::Color;
use crate::envroiment::Envroiment;
use crate::eval::eval_with_fuel;
use crate::eval::sp_eval_let;
use crate::eval::sp_eval_post;
use crate::fault::Fault;
use crate::fault::FaultV;
use crate::files::FileSource;
use crate::lexer::lexer;
use crate::lexer::sp_lex;
use crate::lexer::sp_strip_comments;
use crate::parser::parse_tokens_to_statement;
use crate::parser::sp_statement;
use crate::parser::Statement;
use crate::parser::StmtV;
use crate::utils::lemma_prefix_of_push;
use crate::utils::lemma_prefix_refl;
use crate::utils::lemma_prefix_trans;
use std::collections::VecDeque;
use vstd::prelude::*;

verus! {

/// How deep includes may nest. A file's includes recurse; this bound keeps
/// the recursion finite, and reaching it is reported as a fault.
pub const MAX_INCLUDE_DEPTH: u64 = 4096;

/// The values of a list of recorded faults.
pub open spec fn sp_fault_views(fs: Seq<Fault>) -> Seq<FaultV> {
    fs.map_values(|f: Fault| f@)
}

/// What processing one `;`-delimited chunk does to the bindings, and the
/// fault it records if it faults: the chunk is lexed after comment
/// stripping, parsed when it has tokens at all, and a `let` statement is
/// applied. An `include` chunk is outside this pure description — what it
/// does depends on the file source — so it counts here as a no-op; the
/// contracts below use this function only for include-free chunks.
pub open spec fn sp_chunk_step(chunk: Seq<char>, vars: Map<Seq<char>, Color>) -> (
    Map<Seq<char>, Color>,
    Seq<FaultV>,
) {
    match sp_lex(sp_strip_comments(chunk)) {
        Err(e) => (vars, seq![FaultV::Lex(e)]),
        Ok(ts) => {
            if ts.len() == 0 {
                (vars, Seq::<FaultV>::empty())
            } else {
                match sp_statement(ts) {
                    Err(p) => (vars, seq![FaultV::Parse(p)]),
                    Ok(stmt) => match stmt {
                        StmtV::Let { name, right } => match sp_eval_let(name, right, vars) {
                            Ok(m) => (m, Seq::<FaultV>::empty()),
                            Err(f) => (vars, seq![FaultV::Eval(f)]),
                        },
                        StmtV::Include { .. } => (vars, Seq::<FaultV>::empty()),
                    },
                }
            }
        },
    }
}

/// A chunk whose statement is an `include`.
pub open spec fn sp_is_include_chunk(chunk: Seq<char>) -> bool {
    match sp_lex(sp_strip_comments(chunk)) {
        Ok(ts) => ts.len() > 0 && (sp_statement(ts) matches Ok(StmtV::Include { .. })),
        Err(_) => false,
    }
}

pub open spec fn sp_no_includes(chunks: Seq<Seq<char>>) -> bool {
    forall|i: int| 0 <= i < chunks.len() ==> !sp_is_include_chunk(#[trigger] chunks[i])
}

/// Processing the chunks in order: each one reads the bindings the earlier
/// ones left, and the recorded faults accumulate.
pub open spec fn sp_run_chunks(chunks: Seq<Seq<char>>, vars: Map<Seq<char>, Color>) -> (
    Map<Seq<char>, Color>,
    Seq<FaultV>,
)
    decreases chunks.len(),
{
    if chunks.len() == 0 {
        (vars, Seq::<FaultV>::empty())
    } else {
        let step = sp_chunk_step(chunks[0], vars);
        let rest = sp_run_chunks(chunks.skip(1), step.0);
        (rest.0, step.1 + rest.1)
    }
}

/// Text made of a separator-free part, the separator, and a rest splits
/// into that part followed by the rest's segments.
proof fn lemma_split_chunk(a: Seq<char>, b: Seq<char>)
    requires
        forall|i: int| 0 <= i < a.len() ==> a[i] != ';',
    ensures
        sp_split(a + seq![';'] + b, ';') == seq![a] + sp_split(b, ';'),
    decreases a.len(),
{
    let s = a + seq![';'] + b;
    if a.len() == 0 {
        assert(s[0] == ';');
        assert(s.skip(1) =~= b);
        assert(sp_split(s, ';') =~~= seq![a] + sp_split(b, ';'));
    } else {
        assert(s[0] == a[0]);
        assert(s.skip(1) =~= a.skip(1) + seq![';'] + b);
        lemma_split_chunk(a.skip(1), b);
        crate::app_path::lemma_sp_split_len(b, ';');
        let r = sp_split(s.skip(1), ';');
        assert(r[0] == a.skip(1));
        assert(r.skip(1) =~= sp_split(b, ';'));
        assert(seq![s[0]] + r[0] =~= a);
        assert(sp_split(s, ';') =~~= seq![a] + sp_split(b, ';'));
    }
}

/// Separator-free text is a single segment.
proof fn lemma_split_whole(a: Seq<char>)
    requires
        forall|i: int| 0 <= i < a.len() ==> a[i] != ';',
    ensures
        sp_split(a, ';') == seq![a],
    decreases a.len(),
{
    if a.len() > 0 {
        lemma_split_whole(a.skip(1));
        let r = sp_split(a.skip(1), ';');
        assert(r[0] == a.skip(1));
        assert(r.skip(1) =~= Seq::<Seq<char>>::empty());
        assert(seq![a[0]] + r[0] =~= a);
        assert(sp_split(a, ';') =~~= seq![a]);
    } else {
        assert(a =~= Seq::<char>::empty());
        assert(sp_split(a, ';') =~~= seq![a]);
    }
}

/// An empty chunk binds nothing and records nothing.
proof fn lemma_empty_chunk(vars: Map<Seq<char>, Color>)
    ensures
        sp_chunk_step(Seq::<char>::empty(), vars) == (vars, Seq::<FaultV>::empty()),
        !sp_is_include_chunk(Seq::<char>::empty()),
{
    assert(sp_strip_comments(Seq::<char>::empty()) =~= Seq::<char>::empty());
}

/// One loop iteration in terms of the chunk specs: the text starts with a
/// separator-free chunk, either closed by `;` or ending the text; running
/// all its chunks is that chunk's step followed by running the chunks of
/// what is left.
proof fn lemma_iter_step(
    code_iter: Seq<char>,
    line: Seq<char>,
    code_new: Seq<char>,
    vars: Map<Seq<char>, Color>,
)
    requires
        forall|i: int| 0 <= i < line.len() ==> line[i] != ';',
        (code_iter == line + seq![';'] + code_new) || (code_iter == line + code_new
            && code_new.len() == 0),
    ensures
        sp_split(code_iter, ';')[0] == line,
        sp_run_chunks(sp_split(code_iter, ';'), vars).0 == sp_run_chunks(
            sp_split(code_new, ';'),
            sp_chunk_step(line, vars).0,
        ).0,
        sp_run_chunks(sp_split(code_iter, ';'), vars).1 == sp_chunk_step(line, vars).1
            + sp_run_chunks(sp_split(code_new, ';'), sp_chunk_step(line, vars).0).1,
        sp_no_includes(sp_split(code_iter, ';')) ==> sp_no_includes(sp_split(code_new, ';')),
{
    let step = sp_chunk_step(line, vars);
    if code_iter == line + seq![';'] + code_new {
        lemma_split_chunk(line, code_new);
        let chunks = sp_split(code_iter, ';');
        let rest = sp_split(code_new, ';');
        assert(chunks[0] == line);
        assert(chunks.skip(1) =~= rest);
        if sp_no_includes(chunks) {
            assert forall|i: int| 0 <= i < rest.len() implies !sp_is_include_chunk(
                #[trigger] rest[i],
            ) by {
                assert(rest[i] == chunks[i + 1]);
            }
        }
    } else {
        assert(code_iter =~= line);
        lemma_split_whole(line);
        let chunks = sp_split(code_iter, ';');
        assert(chunks =~~= seq![line]);
        assert(code_new =~= Seq::<char>::empty());
        assert(sp_split(code_new, ';') =~~= seq![Seq::<char>::empty()]);
        lemma_empty_chunk(step.0);
        // both sides reduce to the one chunk's step: the leftover empty
        // chunk is a no-op
        assert(chunks[0] == line);
        assert(chunks.skip(1) =~= Seq::<Seq<char>>::empty());
        assert(sp_run_chunks(Seq::<Seq<char>>::empty(), step.0) == (
            step.0,
            Seq::<FaultV>::empty(),
        ));
        assert(sp_run_chunks(chunks, vars).0 == step.0);
        assert(sp_run_chunks(chunks, vars).1 =~= step.1);
        let rest = sp_split(code_new, ';');
        assert(rest[0] =~= Seq::<char>::empty());
        assert(sp_chunk_step(rest[0], step.0) == (step.0, Seq::<FaultV>::empty()));
        assert(rest.skip(1) =~= Seq::<Seq<char>>::empty());
        assert(sp_run_chunks(Seq::<Seq<char>>::empty(), step.0) == (
            step.0,
            Seq::<FaultV>::empty(),
        ));
        assert(sp_run_chunks(rest, step.0).0 == step.0);
        assert(sp_run_chunks(rest, step.0).1 =~= Seq::<FaultV>::empty());
        assert forall|i: int| 0 <= i < rest.len() implies !sp_is_include_chunk(
            #[trigger] rest[i],
        ) by {
            assert(rest[i] =~= Seq::<char>::empty());
            lemma_empty_chunk(step.0);
        }
    }
}

/// Runs the whole pipeline over one file's text: the text is split into
/// `;`-terminated chunks, and each chunk is lexed, parsed and evaluated in
/// turn. A fault in one chunk is recorded and the next chunk is processed;
/// nothing stops the file. The file itself is pushed on the include stack
/// while its statements run (a cycle is recorded as a fault instead), and
/// popped at the end whatever happened inside, so the stack is left as it
/// was found; faults only accumulate.
///
/// For text without `include` statements, nothing depends on the file
/// source, and the result is exactly the chunk-by-chunk outcome that
/// `sp_run_chunks` describes.
pub fn run<F: FileSource>(
    env: &mut Envroiment,
    code_chars: VecDeque<char>,
    file_path: AbsFilePath,
    fs: &mut F,
)
    requires
        old(env).wf(),
    ensures
        final(env).wf(),
        final(env).include_file_stack@ == old(env).include_file_stack@,
        old(env).faults@.is_prefix_of(final(env).faults@),
        (!old(env).include_file_stack@.contains(file_path@) && sp_no_includes(
            sp_split(code_chars@, ';'),
        )) ==> {
            let outcome = sp_run_chunks(sp_split(code_chars@, ';'), old(env).vars_map());
            &&& final(env).vars_map() == outcome.0
            &&& sp_fault_views(final(env).faults@) == sp_fault_views(old(env).faults@) + outcome.1
        },
{
    run_with_fuel(env, code_chars, file_path, fs, MAX_INCLUDE_DEPTH);
}

/// `run`, with a bound on how deep includes may still nest.
pub(crate) fn run_with_fuel<F: FileSource>(
    env: &mut Envroiment,
    code_chars: VecDeque<char>,
    file_path: AbsFilePath,
    fs: &mut F,
    fuel: u64,
)
    requires
        old(env).wf(),
    ensures
        final(env).wf(),
        final(env).include_file_stack@ == old(env).include_file_stack@,
        old(env).faults@.is_prefix_of(final(env).faults@),
        (!old(env).include_file_stack@.contains(file_path@) && sp_no_includes(
            sp_split(code_chars@, ';'),
        )) ==> {
            let outcome = sp_run_chunks(sp_split(code_chars@, ';'), old(env).vars_map());
            &&& final(env).vars_map() == outcome.0
            &&& sp_fault_views(final(env).faults@) == sp_fault_views(old(env).faults@) + outcome.1
        },
    decreases fuel, 2int,
{
    let ghost code0 = code_chars@;
    let ghost chunks0 = sp_split(code0, ';');
    let ghost vars0 = old(env).vars_map();
    let ghost fp = file_path@;
    let ghost stack0 = env.include_file_stack@;
    let ghost faults0 = env.faults@;
    let ghost total = sp_run_chunks(chunks0, vars0);
    let mut code_chars = code_chars;
    proof {
        lemma_prefix_refl(faults0);
    }
    let result = env.include_file_stack.push(file_path);
    match result {
        Err(err) => {
            env.faults.push(Fault::Include(err));
            proof {
                lemma_prefix_of_push(faults0, env.faults@.last());
                assert(env.faults@ =~= faults0.push(env.faults@.last()));
                assert(stack0.contains(fp));
            }
            return ;
        },
        Ok(_) => {},
    }
    while code_chars.len() > 0
        invariant
            env.wf(),
            stack0 == old(env).include_file_stack@,
            faults0 == old(env).faults@,
            env.include_file_stack@ == stack0.push(fp),
            faults0.is_prefix_of(env.faults@),
            (!stack0.contains(fp) && sp_no_includes(chunks0)) ==> {
                &&& sp_no_includes(sp_split(code_chars@, ';'))
                &&& sp_run_chunks(sp_split(code_chars@, ';'), env.vars_map()).0 == total.0
                &&& sp_fault_views(env.faults@) + sp_run_chunks(
                    sp_split(code_chars@, ';'),
                    env.vars_map(),
                ).1 == sp_fault_views(faults0) + total.1
            },
        decreases code_chars@.len(),
    {
        let ghost code_iter = code_chars@;
        let ghost chunks_iter = sp_split(code_iter, ';');
        let ghost vars_iter = env.vars_map();
        let mut line: VecDeque<char> = VecDeque::new();
        loop
            invariant_except_break
                code_iter == line@ + code_chars@,
            invariant
                code_iter.len() >= 1,
                forall|i: int| 0 <= i < line@.len() ==> line@[i] != ';',
            ensures
                forall|i: int| 0 <= i < line@.len() ==> line@[i] != ';',
                code_iter == line@ + seq![';'] + code_chars@ || (code_iter == line@ + code_chars@
                    && code_chars@.len() == 0),
                code_chars@.len() < code_iter.len(),
            decreases code_chars@.len(),
        {
            if code_chars.len() == 0 {
                break ;
            }
            let ghost before = code_chars@;
            let c = match code_chars.pop_front() {
                Some(c) => c,
                None => {
                    proof {
                        assert(false);
                    }
                    break ;
                },
            };
            if c == ';' {
                proof {
                    assert(code_iter =~= line@ + seq![';'] + code_chars@);
                }
                break ;
            }
            let ghost line_before = line@;
            line.push_back(c);
            proof {
                assert(line@ =~= line_before.push(c));
                assert(code_iter =~= line@ + code_chars@);
            }
        }
        let ghost code_new = code_chars@;
        let ghost rest_chunks = sp_split(code_new, ';');
        let ghost step = sp_chunk_step(line@, vars_iter);
        let ghost line_view = line@;
        proof {
            lemma_iter_step(code_iter, line_view, code_new, vars_iter);
            if !stack0.contains(fp) && sp_no_includes(chunks0) {
                assert(!sp_is_include_chunk(line_view));
            }
        }
        let tokens = match lexer(&mut line) {
            Ok(t) => t,
            Err(e) => {
                let ghost fprev = env.faults@;
                env.faults.push(Fault::Lex(e));
                proof {
                    lemma_prefix_of_push(fprev, env.faults@.last());
                    assert(env.faults@ =~= fprev.push(env.faults@.last()));
                    lemma_prefix_trans(faults0, fprev, env.faults@);
                    assert(step.1 =~= seq![FaultV::Lex(e)]);
                    assert(sp_fault_views(env.faults@) =~= sp_fault_views(fprev) + step.1);
                    assert(sp_fault_views(fprev) + (step.1 + sp_run_chunks(
                        rest_chunks,
                        step.0,
                    ).1) =~= (sp_fault_views(fprev) + step.1) + sp_run_chunks(
                        rest_chunks,
                        step.0,
                    ).1);
                }
                continue ;
            },
        };
        proof {
            assert(tokens.deep_view().len() == tokens@.len());
        }
        if tokens.len() == 0 {
            proof {
                assert(step == (vars_iter, Seq::<FaultV>::empty()));
                assert(step.1 + sp_run_chunks(rest_chunks, step.0).1 =~= sp_run_chunks(
                    rest_chunks,
                    step.0,
                ).1);
            }
            continue ;
        }
        let line_stmt = match parse_tokens_to_statement(tokens) {
            Ok(s) => s,
            Err(e) => {
                let ghost fprev = env.faults@;
                env.faults.push(Fault::Parse(e));
                proof {
                    lemma_prefix_of_push(fprev, env.faults@.last());
                    assert(env.faults@ =~= fprev.push(env.faults@.last()));
                    lemma_prefix_trans(faults0, fprev, env.faults@);
                    assert(step.1 =~= seq![FaultV::Parse(e)]);
                    assert(sp_fault_views(env.faults@) =~= sp_fault_views(fprev) + step.1);
                    assert(sp_fault_views(fprev) + (step.1 + sp_run_chunks(
                        rest_chunks,
                        step.0,
                    ).1) =~= (sp_fault_views(fprev) + step.1) + sp_run_chunks(
                        rest_chunks,
                        step.0,
                    ).1);
                }
                continue ;
            },
        };
        let ghost gstmt = line_stmt;
        let ghost fprev = env.faults@;
        let ghost pre_env = *env;
        let r = eval_with_fuel(line_stmt, env, fs, fuel);
        proof {
            assert(sp_eval_post(gstmt, pre_env, *env, r));
            if !stack0.contains(fp) && sp_no_includes(chunks0) {
                match gstmt {
                    Statement::Include(_) => {
                        assert(gstmt@ matches StmtV::Include { .. });
                        assert(false);
                    },
                    Statement::Let(_) => {},
                }
            }
        }
        match r {
            Err(runtime_fault) => {
                let ghost fmid = env.faults@;
                env.faults.push(Fault::Eval(runtime_fault));
                proof {
                    lemma_prefix_of_push(fmid, env.faults@.last());
                    assert(env.faults@ =~= fmid.push(env.faults@.last()));
                    lemma_prefix_trans(fprev, fmid, env.faults@);
                    lemma_prefix_trans(faults0, fprev, env.faults@);
                    if !stack0.contains(fp) && sp_no_includes(chunks0) {
                        assert(fmid == fprev);
                        assert(step.1 =~= seq![FaultV::Eval(runtime_fault@)]);
                        assert(sp_fault_views(env.faults@) =~= sp_fault_views(fprev) + step.1);
                        assert(env.vars_map() == step.0);
                        assert(sp_fault_views(fprev) + (step.1 + sp_run_chunks(
                            rest_chunks,
                            step.0,
                        ).1) =~= (sp_fault_views(fprev) + step.1) + sp_run_chunks(
                            rest_chunks,
                            step.0,
                        ).1);
                    }
                }
            },
            Ok(_) => {
                proof {
                    lemma_prefix_trans(faults0, fprev, env.faults@);
                    if !stack0.contains(fp) && sp_no_includes(chunks0) {
                        assert(env.faults@ == fprev);
                        assert(step.1 =~= Seq::<FaultV>::empty());
                        assert(env.vars_map() == step.0);
                        assert(step.1 + sp_run_chunks(rest_chunks, step.0).1 =~= sp_run_chunks(
                            rest_chunks,
                            step.0,
                        ).1);
                    }
                }
            },
        }
    }
    proof {
        if !stack0.contains(fp) && sp_no_includes(chunks0) {
            assert(code_chars@.len() == 0);
            assert(code_chars@ =~= Seq::<char>::empty());
            assert(sp_split(code_chars@, ';') =~~= seq![Seq::<char>::empty()]);
            lemma_empty_chunk(env.vars_map());
            let rem = sp_run_chunks(sp_split(code_chars@, ';'), env.vars_map());
            assert(sp_split(code_chars@, ';')[0] =~= Seq::<char>::empty());
            assert(sp_chunk_step(sp_split(code_chars@, ';')[0], env.vars_map()) == (
                env.vars_map(),
                Seq::<FaultV>::empty(),
            ));
            assert(sp_split(code_chars@, ';').skip(1) =~= Seq::<Seq<char>>::empty());
            assert(sp_run_chunks(Seq::<Seq<char>>::empty(), env.vars_map()) == (
                env.vars_map(),
                Seq::<FaultV>::empty(),
            ));
            assert(rem.0 == env.vars_map());
            assert(rem.1 =~= Seq::<FaultV>::empty());
            assert(sp_fault_views(env.faults@) + rem.1 =~= sp_fault_views(env.faults@));
        }
    }
    env.include_file_stack.pop();
    proof {
        assert(stack0.push(fp).drop_last() =~= stack0);
    }
}

} // verus!
