use vstd::prelude::*;
use crate::ast::{DeclarationV, ExprV, ExternV, FunctionV, ParamV, TyV};
use crate::compiler::{
    ChapterV, append_stmt, async_intro, async_outro, async_params, call, chapter_func, chapters_of, cont_ty, cps_args,
    cps_expr, cps_stmts, env_pop_call, env_push_call, env_ref_call, expand_decls, expand_extern, expand_function,
    expand_program, first_chapter, head_of, lemma_expand_decls_err, open_chapter, param_index, raw, split_funcs, var,
};
use crate::error::CompileErrorV;
use crate::names::{chapter_name, decimal};
use crate::parser::{
    is_name, is_name_char, lemma_decimal, law_print_parse_round_trip, name_start, p_decls,
    wf_decl, wf_decls, wf_expr, wf_param, wf_params, wf_ty,
};
use crate::printer::decls_src;
use crate::sigs::{SignatureV, decl_sig, lookup, sig_table};
use crate::value::{ValueV, recast_spec};

verus! {

// ---------------------------------------------------------------------------
// The asynchronous calls of a piece of code, in the order they are made.

/// The result types of the asynchronous calls that evaluating `e` makes, in
/// evaluation order (arguments left to right, then the call itself).
pub open spec fn async_rets(sigs: Seq<SignatureV>, e: ExprV) -> Seq<TyV>
    decreases e,
{
    match e {
        ExprV::OpCall(_, l, r) => async_rets(sigs, *l) + async_rets(sigs, *r),
        ExprV::FunCall(fe, args) => args_async_rets(sigs, args) + match *fe {
            ExprV::VarRef(callee) => match lookup(sigs, callee) {
                Some(ft) => if ft.is_async {
                    seq![*ft.ret_ty]
                } else {
                    Seq::empty()
                },
                None => Seq::empty(),
            },
            _ => Seq::empty(),
        },
        _ => Seq::empty(),
    }
}

pub open spec fn args_async_rets(sigs: Seq<SignatureV>, args: Seq<ExprV>) -> Seq<TyV>
    decreases args,
{
    if args.len() == 0 {
        Seq::empty()
    } else {
        args_async_rets(sigs, args.subrange(0, args.len() - 1)) + async_rets(sigs, args[args.len() - 1])
    }
}

/// The result types of the asynchronous calls of a statement sequence.
pub open spec fn stmts_async_rets(sigs: Seq<SignatureV>, stmts: Seq<ExprV>) -> Seq<TyV>
    decreases stmts.len(),
{
    if stmts.len() == 0 {
        Seq::empty()
    } else {
        stmts_async_rets(sigs, stmts.drop_last()) + async_rets(sigs, stmts.last())
    }
}

/// What rewriting a piece of code does to the chapters `chs`, which become
/// `c2`: one new chapter per asynchronous call, receiving that call's result
/// type, and the chapters that were there keep what they receive.
pub open spec fn grows_by(chs: Seq<ChapterV>, c2: Seq<ChapterV>, rets: Seq<TyV>) -> bool {
    &&& c2.len() == chs.len() + rets.len()
    &&& forall|i: int| 0 <= i < chs.len() ==> (#[trigger] c2[i]).arrives_with == chs[i].arrives_with
    &&& forall|j: int| 0 <= j < rets.len() ==> (#[trigger] c2[chs.len() + j]).arrives_with == Some(rets[j])
}

proof fn lemma_grows_trans(c0: Seq<ChapterV>, c1: Seq<ChapterV>, c2: Seq<ChapterV>, r1: Seq<TyV>, r2: Seq<TyV>)
    requires
        grows_by(c0, c1, r1),
        grows_by(c1, c2, r2),
    ensures
        grows_by(c0, c2, r1 + r2),
{
    assert forall|j: int| 0 <= j < (r1 + r2).len() implies (#[trigger] c2[c0.len() + j]).arrives_with == Some((r1 + r2)[j]) by {
        if j < r1.len() {
            assert(c2[c0.len() + j].arrives_with == c1[c0.len() + j].arrives_with);
        } else {
            assert(c2[c1.len() + (j - r1.len())].arrives_with == Some(r2[j - r1.len()]));
        }
    }
}

proof fn lemma_grows_none(c0: Seq<ChapterV>)
    ensures
        grows_by(c0, c0, Seq::empty()),
{
}

/// Rewriting an expression adds one chapter per asynchronous call it makes;
/// in a function's first chapter an expression without one comes out
/// unchanged.
pub proof fn lemma_cps_expr_chapters(sigs: Seq<SignatureV>, f: FunctionV, e: ExprV, chs: Seq<ChapterV>)
    requires
        chs.len() >= 1,
        cps_expr(sigs, f, e, chs) is Ok,
    ensures
        grows_by(chs, cps_expr(sigs, f, e, chs)->Ok_0.1, async_rets(sigs, e)),
        chs.len() == 1 && async_rets(sigs, e).len() == 0 ==> cps_expr(sigs, f, e, chs)->Ok_0 == (e, chs),
    decreases e,
{
    match e {
        ExprV::OpCall(op, l, r) => {
            lemma_cps_expr_chapters(sigs, f, *l, chs);
            let c1 = cps_expr(sigs, f, *l, chs)->Ok_0.1;
            lemma_cps_expr_chapters(sigs, f, *r, c1);
            let c2 = cps_expr(sigs, f, *r, c1)->Ok_0.1;
            lemma_grows_trans(chs, c1, c2, async_rets(sigs, *l), async_rets(sigs, *r));
        },
        ExprV::FunCall(fe, args) => {
            lemma_cps_args_chapters(sigs, f, args, chs);
            let c1 = cps_args(sigs, f, args, chs)->Ok_0.1;
            let ra = args_async_rets(sigs, args);
            match *fe {
                ExprV::VarRef(callee) => {
                    let ft = lookup(sigs, callee)->Some_0;
                    if ft.is_async {
                        let c2 = cps_expr(sigs, f, e, chs)->Ok_0.1;
                        assert(grows_by(c1, c2, seq![*ft.ret_ty]));
                        lemma_grows_trans(chs, c1, c2, ra, seq![*ft.ret_ty]);
                    } else {
                        assert(async_rets(sigs, e) =~= ra);
                    }
                },
                _ => {},
            }
        },
        _ => {
            lemma_grows_none(chs);
        },
    }
}

pub proof fn lemma_cps_args_chapters(sigs: Seq<SignatureV>, f: FunctionV, args: Seq<ExprV>, chs: Seq<ChapterV>)
    requires
        chs.len() >= 1,
        cps_args(sigs, f, args, chs) is Ok,
    ensures
        grows_by(chs, cps_args(sigs, f, args, chs)->Ok_0.1, args_async_rets(sigs, args)),
        chs.len() == 1 && args_async_rets(sigs, args).len() == 0 ==> cps_args(sigs, f, args, chs)->Ok_0 == (args, chs),
    decreases args,
{
    if args.len() == 0 {
        lemma_grows_none(chs);
    } else {
        let pre = args.subrange(0, args.len() - 1);
        let last = args[args.len() - 1];
        lemma_cps_args_chapters(sigs, f, pre, chs);
        let c1 = cps_args(sigs, f, pre, chs)->Ok_0.1;
        lemma_cps_expr_chapters(sigs, f, last, c1);
        let c2 = cps_expr(sigs, f, last, c1)->Ok_0.1;
        lemma_grows_trans(chs, c1, c2, args_async_rets(sigs, pre), async_rets(sigs, last));
        if chs.len() == 1 && args_async_rets(sigs, args).len() == 0 {
            assert(cps_args(sigs, f, pre, chs)->Ok_0.0.push(last) =~= args);
        }
    }
}

pub proof fn lemma_cps_stmts_chapters(sigs: Seq<SignatureV>, f: FunctionV, stmts: Seq<ExprV>, chs: Seq<ChapterV>)
    requires
        chs.len() >= 1,
        cps_stmts(sigs, f, stmts, chs) is Ok,
    ensures
        grows_by(chs, cps_stmts(sigs, f, stmts, chs)->Ok_0, stmts_async_rets(sigs, stmts)),
        chs.len() == 1 && stmts_async_rets(sigs, stmts).len() == 0 ==> cps_stmts(sigs, f, stmts, chs)->Ok_0
            == seq![ChapterV { stmts: chs[0].stmts + stmts, arrives_with: chs[0].arrives_with }],
    decreases stmts.len(),
{
    if stmts.len() == 0 {
        lemma_grows_none(chs);
        if chs.len() == 1 {
            assert(chs[0].stmts + stmts =~= chs[0].stmts);
            assert(chs =~= seq![ChapterV { stmts: chs[0].stmts + stmts, arrives_with: chs[0].arrives_with }]);
        }
    } else {
        let pre = stmts.drop_last();
        lemma_cps_stmts_chapters(sigs, f, pre, chs);
        let c1 = cps_stmts(sigs, f, pre, chs)->Ok_0;
        lemma_cps_expr_chapters(sigs, f, stmts.last(), c1);
        let c2 = cps_expr(sigs, f, stmts.last(), c1)->Ok_0.1;
        let c3 = cps_stmts(sigs, f, stmts, chs)->Ok_0;
        assert(grows_by(c2, c3, Seq::empty()));
        lemma_grows_trans(chs, c1, c2, stmts_async_rets(sigs, pre), async_rets(sigs, stmts.last()));
        lemma_grows_trans(chs, c2, c3, stmts_async_rets(sigs, stmts), Seq::empty());
        assert(stmts_async_rets(sigs, stmts) + Seq::<TyV>::empty() =~= stmts_async_rets(sigs, stmts));
        if chs.len() == 1 && stmts_async_rets(sigs, stmts).len() == 0 {
            assert(stmts_async_rets(sigs, pre).len() == 0);
            assert(async_rets(sigs, stmts.last()).len() == 0);
            assert(c1 == seq![ChapterV { stmts: chs[0].stmts + pre, arrives_with: chs[0].arrives_with }]);
            assert(c2 == c1);
            assert(cps_expr(sigs, f, stmts.last(), c1)->Ok_0.0 == stmts.last());
            assert((chs[0].stmts + pre).push(stmts.last()) =~= chs[0].stmts + stmts);
            assert(c3 =~= seq![ChapterV { stmts: chs[0].stmts + stmts, arrives_with: chs[0].arrives_with }]);
        }
    }
}

// ---------------------------------------------------------------------------
// Laws of the expansion.

/// A function that makes no asynchronous call comes out of the expansion
/// exactly as it went in.
pub proof fn law_no_async_is_identity(sigs: Seq<SignatureV>, f: FunctionV)
    requires
        stmts_async_rets(sigs, f.body_stmts).len() == 0,
        expand_function(sigs, f) is Ok,
    ensures
        expand_function(sigs, f) == Ok::<Seq<FunctionV>, CompileErrorV>(seq![f]),
{
    lemma_cps_stmts_chapters(sigs, head_of(f), f.body_stmts, seq![first_chapter()]);
    assert(Seq::<ExprV>::empty() + f.body_stmts =~= f.body_stmts);
    let fs = expand_function(sigs, f)->Ok_0;
    assert(fs[0] == f);
    assert(fs =~= seq![f]);
}

/// A function making N asynchronous calls becomes N + 1 functions, and
/// function i > 0 receives the result type of the i-th call, in the order the
/// calls are made.
pub proof fn law_chapter_count_and_types(sigs: Seq<SignatureV>, f: FunctionV)
    requires
        expand_function(sigs, f) is Ok,
    ensures
        ({
            let fs = expand_function(sigs, f)->Ok_0;
            let rets = stmts_async_rets(sigs, f.body_stmts);
            &&& fs.len() == rets.len() + 1
            &&& forall|i: int| 1 <= i < fs.len() ==> (#[trigger] fs[i]).params[1].ty == rets[i - 1]
        }),
{
    lemma_cps_stmts_chapters(sigs, head_of(f), f.body_stmts, seq![first_chapter()]);
    let chs = chapters_of(sigs, f)->Ok_0;
    let rets = stmts_async_rets(sigs, f.body_stmts);
    let fs = expand_function(sigs, f)->Ok_0;
    if chs.len() > 1 {
        assert forall|i: int| 1 <= i < fs.len() implies (#[trigger] fs[i]).params[1].ty == rets[i - 1] by {
            assert(chs[1 + (i - 1)].arrives_with == Some(rets[i - 1]));
        }
    }
}

/// Chapter 0 pushes the continuation first, at index 0, then parameter i at
/// index i + 1.
pub proof fn law_push_order(f: FunctionV, i: int)
    requires
        0 <= i < f.params.len(),
    ensures
        async_intro(f)[0] == env_push_call(var("$cont"@)),
        async_intro(f)[i + 1] == env_push_call(var(f.params[i].name)),
        async_intro(f).len() == f.params.len() + 1,
{
}

/// In any chapter after the first, however many suspensions came before it, a
/// reference to parameter i reads environment index i + 1.
pub proof fn law_param_read_index(sigs: Seq<SignatureV>, f: FunctionV, i: int, chs: Seq<ChapterV>)
    requires
        0 <= i < f.params.len(),
        param_index(f.params, f.params[i].name) == Some(i as nat),
        lookup(sigs, f.params[i].name) is None,
        chs.len() >= 2,
    ensures
        cps_expr(sigs, f, var(f.params[i].name), chs) == Ok::<(ExprV, Seq<ChapterV>), CompileErrorV>(
            (env_ref_call((i + 1) as nat), chs),
        ),
{
}

/// The last chapter of an expanded function ends by popping, with a count of
/// one more than the function's parameter count, the continuation it calls.
pub proof fn law_pop_count(sigs: Seq<SignatureV>, f: FunctionV)
    requires
        expand_function(sigs, f) is Ok,
        expand_function(sigs, f)->Ok_0.len() > 1,
    ensures
        ({
            let fs = expand_function(sigs, f)->Ok_0;
            let last = fs[fs.len() - 1].body_stmts;
            last[last.len() - 1]->FunCall_0 == Box::new(
                ExprV::Cast(
                    Box::new(call("chiika_env_pop"@, seq![var("$env"@), ExprV::Number((f.params.len() + 1) as i64)])),
                    cont_ty(f.ret_ty),
                ),
            )
        }),
{
    let chs = chapters_of(sigs, f)->Ok_0;
    let fs = expand_function(sigs, f)->Ok_0;
    assert(fs == split_funcs(head_of(f), chs));
    assert(fs[fs.len() - 1] == crate::compiler::chapter_func(head_of(f), chs, chs.len() - 1));
}

/// A call of a name that nothing declares stops the rewriting with
/// UnknownIdentifier naming it.
pub proof fn law_unknown_callee(sigs: Seq<SignatureV>, f: FunctionV, g: Seq<char>, args: Seq<ExprV>, chs: Seq<ChapterV>)
    requires
        lookup(sigs, g) is None,
        cps_args(sigs, f, args, chs) is Ok,
    ensures
        cps_expr(sigs, f, ExprV::FunCall(Box::new(var(g)), args), chs) == Err::<(ExprV, Seq<ChapterV>), CompileErrorV>(
            CompileErrorV::UnknownIdentifier(g),
        ),
{
}

/// A declaration whose expansion fails makes the whole program fail: nothing
/// is emitted for it.
pub proof fn law_failed_function_fails_program(ds: Seq<DeclarationV>, i: int)
    requires
        0 <= i < ds.len(),
        ds[i] is Function,
        expand_function(sig_table(ds), ds[i]->Function_0) is Err,
    ensures
        expand_program(ds) is Err,
{
    let sigs = sig_table(ds);
    let pre = ds.subrange(0, i + 1);
    assert(pre.drop_last() =~= ds.subrange(0, i));
    assert(pre.last() == ds[i]);
    assert(expand_decls(sigs, pre) is Err);
    lemma_expand_decls_err(sigs, ds, i + 1, expand_decls(sigs, pre)->Err_0);
}


// ---------------------------------------------------------------------------
// The expanded program has a textual form that reads back.

pub proof fn lemma_builtin_names()
    ensures
        is_name("$env"@),
        is_name("$cont"@),
        is_name("$async_result"@),
        is_name("chiika_env_push"@),
        is_name("chiika_env_pop"@),
        is_name("chiika_env_ref"@),
        is_name("$ENV"@),
        is_name("$FUTURE"@),
        is_name("$any"@),
        "chiika_env_push"@ != crate::parser::cast_kw(),
        "chiika_env_pop"@ != crate::parser::cast_kw(),
        "chiika_env_ref"@ != crate::parser::cast_kw(),
{
    reveal_strlit("$env");
    reveal_strlit("$cont");
    reveal_strlit("$async_result");
    reveal_strlit("chiika_env_push");
    reveal_strlit("chiika_env_pop");
    reveal_strlit("chiika_env_ref");
    reveal_strlit("$ENV");
    reveal_strlit("$FUTURE");
    reveal_strlit("$any");
    assert("$env"@ =~= seq!['$', 'e', 'n', 'v']);
    assert("$cont"@ =~= seq!['$', 'c', 'o', 'n', 't']);
    assert("$async_result"@ =~= seq!['$', 'a', 's', 'y', 'n', 'c', '_', 'r', 'e', 's', 'u', 'l', 't']);
    assert("chiika_env_push"@ =~= seq!['c', 'h', 'i', 'i', 'k', 'a', '_', 'e', 'n', 'v', '_', 'p', 'u', 's', 'h']);
    assert("chiika_env_pop"@ =~= seq!['c', 'h', 'i', 'i', 'k', 'a', '_', 'e', 'n', 'v', '_', 'p', 'o', 'p']);
    assert("chiika_env_ref"@ =~= seq!['c', 'h', 'i', 'i', 'k', 'a', '_', 'e', 'n', 'v', '_', 'r', 'e', 'f']);
    assert("$ENV"@ =~= seq!['$', 'E', 'N', 'V']);
    assert("$FUTURE"@ =~= seq!['$', 'F', 'U', 'T', 'U', 'R', 'E']);
    assert("$any"@ =~= seq!['$', 'a', 'n', 'y']);
    assert("chiika_env_push"@[0] != '$');
    assert("chiika_env_pop"@[0] != '$');
    assert("chiika_env_ref"@[0] != '$');
}

pub proof fn lemma_chapter_name_is_name(name: Seq<char>, i: nat)
    requires
        is_name(name),
    ensures
        is_name(chapter_name(name, i)),
{
    let c = chapter_name(name, i);
    lemma_decimal(i);
    let d = decimal(i);
    assert(c =~= name + seq!['_'] + d);
    assert(name_start(c) == name_start(name));
    assert(c[name_start(name)] == name[name_start(name)]);
    assert forall|k: int| name_start(c) < k < c.len() implies is_name_char(#[trigger] c[k]) by {
        if k < name.len() {
            assert(c[k] == name[k]);
        } else if k == name.len() {
            assert(c[k] == '_');
        } else {
            assert(c[k] == d[k - name.len() - 1]);
        }
    }
}

pub proof fn lemma_cont_ty_wf(ret: TyV)
    requires
        wf_ty(ret),
    ensures
        wf_ty(cont_ty(ret)),
{
    lemma_builtin_names();
    let ft = cont_ty(ret)->Fun_0;
    assert(wf_ty(raw("$FUTURE"@)));
    assert(wf_ty(*ft.ret_ty));
    assert forall|k: int| 0 <= k < ft.param_tys.len() implies wf_ty(#[trigger] ft.param_tys[k]) by {
        if k == 0 {
            assert(ft.param_tys[k] == raw("$ENV"@));
        } else {
            assert(ft.param_tys[k] == ret);
        }
    }
}

pub proof fn lemma_async_params_wf(ps: Seq<ParamV>, ret: TyV)
    requires
        wf_params(ps),
        wf_ty(ret),
    ensures
        wf_params(async_params(ps, ret)),
{
    lemma_builtin_names();
    lemma_cont_ty_wf(ret);
    let q = async_params(ps, ret);
    assert forall|k: int| 0 <= k < q.len() implies wf_param(#[trigger] q[k]) by {
        if k >= 2 {
            assert(q[k] == ps[k - 2]);
        }
    }
}

/// Every signature records a result type with a textual form.
pub open spec fn sigs_ok(sigs: Seq<SignatureV>) -> bool {
    forall|i: int| 0 <= i < sigs.len() ==> wf_ty(*(#[trigger] sigs[i]).fun_ty.ret_ty)
}

/// Every chapter's statements and received type have a textual form.
pub open spec fn chapters_ok(chs: Seq<ChapterV>) -> bool {
    forall|i: int|
        0 <= i < chs.len() ==> {
            &&& forall|k: int| 0 <= k < (#[trigger] chs[i]).stmts.len() ==> wf_expr(#[trigger] chs[i].stmts[k])
            &&& chs[i].arrives_with is Some ==> wf_ty(chs[i].arrives_with->Some_0)
        }
}

pub proof fn lemma_lookup_ok(sigs: Seq<SignatureV>, name: Seq<char>)
    requires
        sigs_ok(sigs),
        lookup(sigs, name) is Some,
    ensures
        wf_ty(*lookup(sigs, name)->Some_0.ret_ty),
    decreases sigs.len(),
{
    if sigs.last().name != name {
        assert forall|i: int| 0 <= i < sigs.drop_last().len() implies wf_ty(
            *(#[trigger] sigs.drop_last()[i]).fun_ty.ret_ty,
        ) by {
            assert(sigs.drop_last()[i] == sigs[i]);
        }
        lemma_lookup_ok(sigs.drop_last(), name);
    } else {
        assert(sigs[sigs.len() - 1] == sigs.last());
    }
}

pub proof fn lemma_sig_table_ok(ds: Seq<DeclarationV>)
    requires
        wf_decls(ds),
    ensures
        sigs_ok(sig_table(ds)),
{
    assert forall|i: int| 0 <= i < sig_table(ds).len() implies wf_ty(*(#[trigger] sig_table(ds)[i]).fun_ty.ret_ty) by {
        assert(wf_decl(ds[i]));
        assert(sig_table(ds)[i] == decl_sig(ds[i]));
    }
}

proof fn lemma_append_stmt_ok(chs: Seq<ChapterV>, st: ExprV)
    requires
        chapters_ok(chs),
        chs.len() >= 1,
        wf_expr(st),
    ensures
        chapters_ok(append_stmt(chs, st)),
{
    let c2 = append_stmt(chs, st);
    assert forall|i: int| 0 <= i < c2.len() implies {
        &&& forall|k: int| 0 <= k < (#[trigger] c2[i]).stmts.len() ==> wf_expr(#[trigger] c2[i].stmts[k])
        &&& c2[i].arrives_with is Some ==> wf_ty(c2[i].arrives_with->Some_0)
    } by {
        if i == chs.len() - 1 {
            assert forall|k: int| 0 <= k < c2[i].stmts.len() implies wf_expr(#[trigger] c2[i].stmts[k]) by {
                if k < chs[i].stmts.len() {
                    assert(c2[i].stmts[k] == chs[i].stmts[k]);
                }
            }
        } else {
            assert(c2[i] == chs[i]);
        }
    }
}

proof fn lemma_open_chapter_ok(chs: Seq<ChapterV>, st: ExprV, ty: TyV)
    requires
        chapters_ok(chs),
        chs.len() >= 1,
        wf_expr(st),
        wf_ty(ty),
    ensures
        chapters_ok(open_chapter(chs, st, ty)),
{
    lemma_append_stmt_ok(chs, st);
    let c1 = append_stmt(chs, st);
    assert(open_chapter(chs, st, ty) == c1.push(ChapterV { stmts: Seq::empty(), arrives_with: Some(ty) }));
    let c2 = open_chapter(chs, st, ty);
    assert forall|i: int| 0 <= i < c2.len() implies {
        &&& forall|k: int| 0 <= k < (#[trigger] c2[i]).stmts.len() ==> wf_expr(#[trigger] c2[i].stmts[k])
        &&& c2[i].arrives_with is Some ==> wf_ty(c2[i].arrives_with->Some_0)
    } by {
        if i < c1.len() {
            assert(c2[i] == c1[i]);
        }
    }
}

pub proof fn lemma_cps_expr_ok(sigs: Seq<SignatureV>, f: FunctionV, e: ExprV, chs: Seq<ChapterV>)
    requires
        sigs_ok(sigs),
        is_name(f.name),
        wf_params(f.params),
        wf_expr(e),
        chapters_ok(chs),
        chs.len() >= 1,
        cps_expr(sigs, f, e, chs) is Ok,
    ensures
        wf_expr(cps_expr(sigs, f, e, chs)->Ok_0.0),
        chapters_ok(cps_expr(sigs, f, e, chs)->Ok_0.1),
        cps_expr(sigs, f, e, chs)->Ok_0.1.len() >= chs.len(),
    decreases e,
{
    lemma_builtin_names();
    match e {
        ExprV::VarRef(name) => {
            let r = cps_expr(sigs, f, e, chs)->Ok_0.0;
            if r != e {
                let args = r->FunCall_1;
                assert forall|k: int| 0 <= k < args.len() implies wf_expr(#[trigger] args[k]) by {}
            }
        },
        ExprV::OpCall(op, l, r) => {
            lemma_cps_expr_ok(sigs, f, *l, chs);
            let c1 = cps_expr(sigs, f, *l, chs)->Ok_0.1;
            lemma_cps_expr_ok(sigs, f, *r, c1);
        },
        ExprV::FunCall(fe, args) => {
            lemma_cps_args_ok(sigs, f, args, chs);
            let (new_args, c1) = cps_args(sigs, f, args, chs)->Ok_0;
            let callee = (*fe)->VarRef_0;
            let ft = lookup(sigs, callee)->Some_0;
            if ft.is_async {
                lemma_lookup_ok(sigs, callee);
                lemma_chapter_name_is_name(f.name, c1.len());
                let full = seq![var("$env"@), var(chapter_name(f.name, c1.len()))] + new_args;
                assert forall|k: int| 0 <= k < full.len() implies wf_expr(#[trigger] full[k]) by {
                    if k >= 2 {
                        assert(full[k] == new_args[k - 2]);
                    }
                }
                lemma_open_chapter_ok(c1, call(callee, full), *ft.ret_ty);
            } else {
                assert forall|k: int| 0 <= k < new_args.len() implies wf_expr(#[trigger] new_args[k]) by {}
            }
        },
        _ => {},
    }
}

pub proof fn lemma_cps_args_ok(sigs: Seq<SignatureV>, f: FunctionV, args: Seq<ExprV>, chs: Seq<ChapterV>)
    requires
        sigs_ok(sigs),
        is_name(f.name),
        wf_params(f.params),
        forall|k: int| 0 <= k < args.len() ==> wf_expr(#[trigger] args[k]),
        chapters_ok(chs),
        chs.len() >= 1,
        cps_args(sigs, f, args, chs) is Ok,
    ensures
        forall|k: int|
            0 <= k < cps_args(sigs, f, args, chs)->Ok_0.0.len() ==> wf_expr(
                #[trigger] cps_args(sigs, f, args, chs)->Ok_0.0[k],
            ),
        chapters_ok(cps_args(sigs, f, args, chs)->Ok_0.1),
        cps_args(sigs, f, args, chs)->Ok_0.1.len() >= chs.len(),
    decreases args,
{
    if args.len() > 0 {
        let pre = args.subrange(0, args.len() - 1);
        assert forall|k: int| 0 <= k < pre.len() implies wf_expr(#[trigger] pre[k]) by {
            assert(pre[k] == args[k]);
        }
        lemma_cps_args_ok(sigs, f, pre, chs);
        let (done, c1) = cps_args(sigs, f, pre, chs)->Ok_0;
        lemma_cps_expr_ok(sigs, f, args[args.len() - 1], c1);
        let (a, c2) = cps_expr(sigs, f, args[args.len() - 1], c1)->Ok_0;
        let out = done.push(a);
        assert forall|k: int| 0 <= k < out.len() implies wf_expr(#[trigger] out[k]) by {
            if k < done.len() {
                assert(out[k] == done[k]);
            }
        }
    }
}

pub proof fn lemma_cps_stmts_ok(sigs: Seq<SignatureV>, f: FunctionV, ss: Seq<ExprV>, chs: Seq<ChapterV>)
    requires
        sigs_ok(sigs),
        is_name(f.name),
        wf_params(f.params),
        forall|k: int| 0 <= k < ss.len() ==> wf_expr(#[trigger] ss[k]),
        chapters_ok(chs),
        chs.len() >= 1,
        cps_stmts(sigs, f, ss, chs) is Ok,
    ensures
        chapters_ok(cps_stmts(sigs, f, ss, chs)->Ok_0),
        cps_stmts(sigs, f, ss, chs)->Ok_0.len() >= chs.len(),
        ss.len() > 0 ==> cps_stmts(sigs, f, ss, chs)->Ok_0.last().stmts.len() > 0,
    decreases ss.len(),
{
    if ss.len() > 0 {
        let pre = ss.drop_last();
        assert forall|k: int| 0 <= k < pre.len() implies wf_expr(#[trigger] pre[k]) by {
            assert(pre[k] == ss[k]);
        }
        lemma_cps_stmts_ok(sigs, f, pre, chs);
        let c1 = cps_stmts(sigs, f, pre, chs)->Ok_0;
        lemma_cps_expr_ok(sigs, f, ss.last(), c1);
        let (st, c2) = cps_expr(sigs, f, ss.last(), c1)->Ok_0;
        lemma_append_stmt_ok(c2, st);
    }
}

pub proof fn lemma_expand_function_ok(sigs: Seq<SignatureV>, f: FunctionV)
    requires
        sigs_ok(sigs),
        wf_decl(DeclarationV::Function(f)),
        expand_function(sigs, f) is Ok,
    ensures
        forall|i: int|
            0 <= i < expand_function(sigs, f)->Ok_0.len() ==> wf_decl(
                DeclarationV::Function(#[trigger] expand_function(sigs, f)->Ok_0[i]),
            ),
{
    lemma_builtin_names();
    let h = head_of(f);
    assert(chapters_ok(seq![first_chapter()])) by {
        assert forall|i: int| 0 <= i < 1 implies {
            &&& forall|k: int| 0 <= k < (#[trigger] seq![first_chapter()][i]).stmts.len() ==> wf_expr(
                #[trigger] seq![first_chapter()][i].stmts[k],
            )
            &&& seq![first_chapter()][i].arrives_with is Some ==> wf_ty(seq![first_chapter()][i].arrives_with->Some_0)
        } by {}
    }
    lemma_cps_stmts_ok(sigs, h, f.body_stmts, seq![first_chapter()]);
    lemma_cps_stmts_chapters(sigs, h, f.body_stmts, seq![first_chapter()]);
    let chs = chapters_of(sigs, f)->Ok_0;
    let fs = expand_function(sigs, f)->Ok_0;
    if chs.len() == 1 {
        assert(fs[0] == FunctionV { body_stmts: chs[0].stmts, ..f });
        assert(wf_decl(DeclarationV::Function(fs[0])));
    } else {
        assert(f.body_stmts.len() > 0) by {
            if f.body_stmts.len() == 0 {
                assert(chs == seq![first_chapter()]);
            }
        }
        assert forall|i: int| 0 <= i < fs.len() implies wf_decl(DeclarationV::Function(#[trigger] fs[i])) by {
            let g = chapter_func(h, chs, i);
            assert(fs[i] == g);
            if i == 0 {
                lemma_async_params_wf(f.params, f.ret_ty);
                let body = async_intro(h) + chs[0].stmts;
                assert forall|k: int| 0 <= k < body.len() implies wf_expr(#[trigger] body[k]) by {
                    if k < async_intro(h).len() {
                        assert(body[k] == async_intro(h)[k]);
                        let x = if k == 0 {
                            var("$cont"@)
                        } else {
                            assert(wf_param(f.params[k - 1]));
                            var(f.params[k - 1].name)
                        };
                        assert(wf_expr(x));
                        assert(body[k] == env_push_call(x));
                        let pargs = seq![var("$env"@), ExprV::Cast(Box::new(x), raw("$any"@))];
                        assert(wf_expr(ExprV::Cast(Box::new(x), raw("$any"@))));
                        assert forall|j: int| 0 <= j < pargs.len() implies wf_expr(#[trigger] pargs[j]) by {}
                        assert(body[k] == call("chiika_env_push"@, pargs));
                    } else {
                        assert(body[k] == chs[0].stmts[k - async_intro(h).len()]);
                    }
                }
            } else {
                lemma_chapter_name_is_name(f.name, i as nat);
                assert(chs[1 + (i - 1)].arrives_with == Some(stmts_async_rets(sigs, f.body_stmts)[i - 1]));
                assert(wf_params(g.params)) by {
                    assert forall|k: int| 0 <= k < g.params.len() implies wf_param(#[trigger] g.params[k]) by {}
                }
                if i == chs.len() - 1 {
                    let st = chs[i].stmts;
                    assert(chs.last() == chs[i]);
                    assert(st.len() > 0);
                    lemma_cont_ty_wf(f.ret_ty);
                    let body = async_outro(h, st);
                    let popped = env_pop_call(f.params.len());
                    let pargs = seq![var("$env"@), ExprV::Number((f.params.len() + 1) as i64)];
                    assert forall|j: int| 0 <= j < pargs.len() implies wf_expr(#[trigger] pargs[j]) by {}
                    assert(popped == call("chiika_env_pop"@, pargs));
                    assert(wf_expr(popped));
                    let cast = ExprV::Cast(Box::new(popped), cont_ty(f.ret_ty));
                    assert(wf_expr(cast));
                    assert(wf_expr(st[st.len() - 1]));
                    let cargs = seq![var("$env"@), st.last()];
                    assert forall|j: int| 0 <= j < cargs.len() implies wf_expr(#[trigger] cargs[j]) by {}
                    let last_call = ExprV::FunCall(Box::new(cast), cargs);
                    assert(wf_expr(last_call));
                    assert forall|k: int| 0 <= k < body.len() implies wf_expr(#[trigger] body[k]) by {
                        if k < st.len() - 1 {
                            assert(body[k] == st[k]);
                            assert(wf_expr(chs[i].stmts[k]));
                        } else {
                            assert(body[k] == last_call);
                        }
                    }
                }
            }
        }
    }
}

pub proof fn lemma_expand_extern_ok(x: ExternV)
    requires
        wf_decl(DeclarationV::Extern(x)),
    ensures
        wf_decl(DeclarationV::Extern(expand_extern(x))),
{
    lemma_builtin_names();
    if x.is_async {
        lemma_async_params_wf(x.params, x.ret_ty);
    }
}

pub proof fn lemma_expand_decls_ok(sigs: Seq<SignatureV>, ds: Seq<DeclarationV>)
    requires
        sigs_ok(sigs),
        wf_decls(ds),
        expand_decls(sigs, ds) is Ok,
    ensures
        wf_decls(expand_decls(sigs, ds)->Ok_0),
    decreases ds.len(),
{
    if ds.len() > 0 {
        let pre = ds.drop_last();
        assert(wf_decls(pre)) by {
            assert forall|k: int| 0 <= k < pre.len() implies wf_decl(#[trigger] pre[k]) by {
                assert(pre[k] == ds[k]);
            }
        }
        assert(wf_decl(ds[ds.len() - 1]));
        lemma_expand_decls_ok(sigs, pre);
        let prev = expand_decls(sigs, pre)->Ok_0;
        let out = expand_decls(sigs, ds)->Ok_0;
        match ds.last() {
            DeclarationV::Extern(x) => {
                lemma_expand_extern_ok(x);
                assert forall|k: int| 0 <= k < out.len() implies wf_decl(#[trigger] out[k]) by {
                    if k < prev.len() {
                        assert(out[k] == prev[k]);
                    }
                }
            },
            DeclarationV::Function(f) => {
                lemma_expand_function_ok(sigs, f);
                let fs = expand_function(sigs, f)->Ok_0;
                assert forall|k: int| 0 <= k < out.len() implies wf_decl(#[trigger] out[k]) by {
                    if k < prev.len() {
                        assert(out[k] == prev[k]);
                    } else {
                        assert(out[k] == DeclarationV::Function(fs[k - prev.len()]));
                    }
                }
            },
        }
    }
}

/// Whatever a program in the textual subset expands to, printing it and
/// parsing the text gives the expansion back.
pub proof fn law_expansion_round_trip(ds: Seq<DeclarationV>)
    requires
        wf_decls(ds),
        expand_program(ds) is Ok,
    ensures
        p_decls(decls_src(expand_program(ds)->Ok_0)) == Some(expand_program(ds)->Ok_0),
{
    lemma_sig_table_ok(ds);
    lemma_expand_decls_ok(sig_table(ds), ds);
    law_print_parse_round_trip(expand_program(ds)->Ok_0);
}


/// The continuation that chapter 0 receives and saves is read back by the
/// last chapter at exactly the type it was received with, and an erased slot
/// recast to that type is a function pointer carrying that signature.
pub proof fn law_continuation_type_agrees(sigs: Seq<SignatureV>, f: FunctionV, n: i64)
    requires
        expand_function(sigs, f) is Ok,
        expand_function(sigs, f)->Ok_0.len() > 1,
    ensures
        ({
            let fs = expand_function(sigs, f)->Ok_0;
            let last = fs[fs.len() - 1].body_stmts;
            &&& fs[0].params[1].ty == cont_ty(f.ret_ty)
            &&& (*last[last.len() - 1]->FunCall_0)->Cast_1 == cont_ty(f.ret_ty)
            &&& recast_spec(ValueV::Any(n), cont_ty(f.ret_ty)) == Some(ValueV::FuncPtr(n as u64, cont_ty(f.ret_ty)->Fun_0))
        }),
{
    law_pop_count(sigs, f);
    let chs = chapters_of(sigs, f)->Ok_0;
    let fs = expand_function(sigs, f)->Ok_0;
    assert(fs[0] == chapter_func(head_of(f), chs, 0));
}

} // verus!
