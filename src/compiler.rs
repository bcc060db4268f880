use vstd::prelude::*;
use crate::ast::{Declaration, DeclarationV, Expr, ExprV, Extern, ExternV, FunTyV, Function, FunctionV, Param, ParamV, Ty, TyV, decls_view, duplicate_params, exprs_view, params_view};
use crate::error::{CompileError, CompileErrorV};
use crate::names::{chapter_func_name, chapter_name};
use crate::sigs::{Signature, SignatureV, gather_sigs, lookup, lookup_sig, sig_table, sigs_view};

verus! {

// ---------------------------------------------------------------------------
// The transformation, stated over the model of the syntax tree.

/// A straight-line segment of a function, and the type of the value that the
/// suspension which opened it delivers (none for the first chapter).
pub struct ChapterV {
    pub stmts: Seq<ExprV>,
    pub arrives_with: Option<TyV>,
}

pub open spec fn raw(s: Seq<char>) -> TyV {
    TyV::Raw(s)
}

pub open spec fn var(s: Seq<char>) -> ExprV {
    ExprV::VarRef(s)
}

pub open spec fn call(callee: Seq<char>, args: Seq<ExprV>) -> ExprV {
    ExprV::FunCall(Box::new(var(callee)), args)
}

/// The type of the continuation of a function returning `ret`.
pub open spec fn cont_ty(ret: TyV) -> TyV {
    TyV::Fun(FunTyV { is_async: false, param_tys: seq![raw("$ENV"@), ret], ret_ty: Box::new(raw("$FUTURE"@)) })
}

/// The parameters of a function rewritten to continuation-passing style: the
/// environment handle and the continuation come first.
pub open spec fn async_params(ps: Seq<ParamV>, ret: TyV) -> Seq<ParamV> {
    seq![ParamV { ty: raw("$ENV"@), name: "$env"@ }, ParamV { ty: cont_ty(ret), name: "$cont"@ }] + ps
}

/// A read of the environment entry at `idx`.
pub open spec fn env_ref_call(idx: nat) -> ExprV {
    call("chiika_env_ref"@, seq![var("$env"@), ExprV::Number(idx as i64)])
}

/// A push of `x`, made erased, onto the environment.
pub open spec fn env_push_call(x: ExprV) -> ExprV {
    call("chiika_env_push"@, seq![var("$env"@), ExprV::Cast(Box::new(x), raw("$any"@))])
}

/// Where `name` first stands among the parameters.
pub open spec fn param_index(ps: Seq<ParamV>, name: Seq<char>) -> Option<nat>
    decreases ps.len(),
{
    if ps.len() == 0 {
        None
    } else if ps[0].name == name {
        Some(0)
    } else {
        match param_index(ps.subrange(1, ps.len() as int), name) {
            Some(i) => Some(i + 1),
            None => None,
        }
    }
}

/// Ends the current chapter with `last` and opens an empty one that receives
/// a value of type `ty`.
pub open spec fn open_chapter(chs: Seq<ChapterV>, last: ExprV, ty: TyV) -> Seq<ChapterV> {
    chs.update(
        chs.len() - 1,
        ChapterV { stmts: chs.last().stmts.push(last), arrives_with: chs.last().arrives_with },
    ).push(ChapterV { stmts: Seq::empty(), arrives_with: Some(ty) })
}

/// Appends `s` to the current chapter.
pub open spec fn append_stmt(chs: Seq<ChapterV>, s: ExprV) -> Seq<ChapterV> {
    chs.update(chs.len() - 1, ChapterV { stmts: chs.last().stmts.push(s), arrives_with: chs.last().arrives_with })
}

/// Rewrites one expression of function `f`, given the chapters so far; the
/// rewritten value and the chapters after it.
pub open spec fn cps_expr(sigs: Seq<SignatureV>, f: FunctionV, e: ExprV, chs: Seq<ChapterV>) -> Result<
    (ExprV, Seq<ChapterV>),
    CompileErrorV,
>
    decreases e,
{
    match e {
        ExprV::Number(_) => Ok((e, chs)),
        ExprV::VarRef(name) => {
            if lookup(sigs, name) is Some {
                Ok((e, chs))
            } else {
                match param_index(f.params, name) {
                    Some(i) => if chs.len() == 1 {
                        Ok((e, chs))
                    } else {
                        Ok((env_ref_call(i + 1), chs))
                    },
                    None => Err(CompileErrorV::UnknownIdentifier(name)),
                }
            }
        },
        ExprV::OpCall(op, l, r) => match cps_expr(sigs, f, *l, chs) {
            Ok((l2, c1)) => match cps_expr(sigs, f, *r, c1) {
                Ok((r2, c2)) => Ok((ExprV::OpCall(op, Box::new(l2), Box::new(r2)), c2)),
                Err(x) => Err(x),
            },
            Err(x) => Err(x),
        },
        ExprV::FunCall(fe, args) => match cps_args(sigs, f, args, chs) {
            Err(x) => Err(x),
            Ok((new_args, c1)) => match *fe {
                ExprV::VarRef(callee) => match lookup(sigs, callee) {
                    None => Err(CompileErrorV::UnknownIdentifier(callee)),
                    Some(ft) => if ft.is_async {
                        let cps = call(callee, seq![var("$env"@), var(chapter_name(f.name, c1.len()))] + new_args);
                        Ok((var("$async_result"@), open_chapter(c1, cps, *ft.ret_ty)))
                    } else {
                        Ok((call(callee, new_args), c1))
                    },
                },
                _ => Err(CompileErrorV::TypeShapeMismatch),
            },
        },
        _ => Err(CompileErrorV::UnsupportedConstruct),
    }
}

/// Rewrites call arguments left to right.
pub open spec fn cps_args(sigs: Seq<SignatureV>, f: FunctionV, args: Seq<ExprV>, chs: Seq<ChapterV>) -> Result<
    (Seq<ExprV>, Seq<ChapterV>),
    CompileErrorV,
>
    decreases args,
{
    if args.len() == 0 {
        Ok((Seq::empty(), chs))
    } else {
        match cps_args(sigs, f, args.subrange(0, args.len() - 1), chs) {
            Err(x) => Err(x),
            Ok((prev, c1)) => match cps_expr(sigs, f, args[args.len() - 1], c1) {
                Err(x) => Err(x),
                Ok((a, c2)) => Ok((prev.push(a), c2)),
            },
        }
    }
}

/// Rewrites the statements of a body in order; each one's value ends up in
/// the chapter that is current after it.
pub open spec fn cps_stmts(sigs: Seq<SignatureV>, f: FunctionV, stmts: Seq<ExprV>, chs: Seq<ChapterV>) -> Result<
    Seq<ChapterV>,
    CompileErrorV,
>
    decreases stmts.len(),
{
    if stmts.len() == 0 {
        Ok(chs)
    } else {
        match cps_stmts(sigs, f, stmts.drop_last(), chs) {
            Err(x) => Err(x),
            Ok(c1) => match cps_expr(sigs, f, stmts.last(), c1) {
                Err(x) => Err(x),
                Ok((s, c2)) => Ok(append_stmt(c2, s)),
            },
        }
    }
}

pub open spec fn first_chapter() -> ChapterV {
    ChapterV { stmts: Seq::empty(), arrives_with: None }
}

/// The function with its body left out: all that the rewriting of its
/// statements reads of it.
pub open spec fn head_of(f: FunctionV) -> FunctionV {
    FunctionV { body_stmts: Seq::empty(), ..f }
}

/// The chapters of function `f`.
pub open spec fn chapters_of(sigs: Seq<SignatureV>, f: FunctionV) -> Result<Seq<ChapterV>, CompileErrorV> {
    cps_stmts(sigs, head_of(f), f.body_stmts, seq![first_chapter()])
}

/// The pushes that open chapter 0: the continuation first, then each
/// parameter in order.
pub open spec fn async_intro(f: FunctionV) -> Seq<ExprV> {
    Seq::new(
        f.params.len() + 1,
        |k: int|
            if k == 0 {
                env_push_call(var("$cont"@))
            } else {
                env_push_call(var(f.params[k - 1].name))
            },
    )
}

/// The pop that retrieves the continuation at the end of the last chapter.
pub open spec fn env_pop_call(n_params: nat) -> ExprV {
    call("chiika_env_pop"@, seq![var("$env"@), ExprV::Number((n_params + 1) as i64)])
}

/// The last chapter's statements, with its final value handed to the
/// continuation popped from the environment.
pub open spec fn async_outro(f: FunctionV, stmts: Seq<ExprV>) -> Seq<ExprV> {
    stmts.drop_last().push(
        ExprV::FunCall(
            Box::new(ExprV::Cast(Box::new(env_pop_call(f.params.len())), cont_ty(f.ret_ty))),
            seq![var("$env"@), stmts.last()],
        ),
    )
}

/// The function emitted for chapter `i` of `f`.
pub open spec fn chapter_func(f: FunctionV, chs: Seq<ChapterV>, i: int) -> FunctionV {
    if i == 0 {
        FunctionV {
            name: f.name,
            params: async_params(f.params, f.ret_ty),
            ret_ty: raw("$FUTURE"@),
            body_stmts: async_intro(f) + chs[0].stmts,
        }
    } else {
        FunctionV {
            name: chapter_name(f.name, i as nat),
            params: seq![
                ParamV { ty: raw("$ENV"@), name: "$env"@ },
                ParamV { ty: chs[i].arrives_with->Some_0, name: "$async_result"@ },
            ],
            ret_ty: raw("$FUTURE"@),
            body_stmts: if i == chs.len() - 1 {
                async_outro(f, chs[i].stmts)
            } else {
                chs[i].stmts
            },
        }
    }
}

/// One function per chapter.
pub open spec fn split_funcs(f: FunctionV, chs: Seq<ChapterV>) -> Seq<FunctionV> {
    Seq::new(chs.len(), |i: int| chapter_func(f, chs, i))
}

/// What function `f` becomes: itself when it has a single chapter, one
/// function per chapter otherwise.
pub open spec fn expand_function(sigs: Seq<SignatureV>, f: FunctionV) -> Result<Seq<FunctionV>, CompileErrorV> {
    match chapters_of(sigs, f) {
        Err(x) => Err(x),
        Ok(chs) => if chs.len() == 1 {
            Ok(seq![FunctionV { body_stmts: chs[0].stmts, ..f }])
        } else {
            Ok(split_funcs(head_of(f), chs))
        },
    }
}

/// What an extern becomes: an asynchronous one gets the environment and
/// continuation parameters and returns a suspended computation.
pub open spec fn expand_extern(x: ExternV) -> ExternV {
    if x.is_async {
        ExternV { name: x.name, params: async_params(x.params, x.ret_ty), ret_ty: raw("$FUTURE"@), is_async: false }
    } else {
        x
    }
}

/// The whole program after expansion, declarations in order.
pub open spec fn expand_decls(sigs: Seq<SignatureV>, ds: Seq<DeclarationV>) -> Result<
    Seq<DeclarationV>,
    CompileErrorV,
>
    decreases ds.len(),
{
    if ds.len() == 0 {
        Ok(Seq::empty())
    } else {
        match expand_decls(sigs, ds.drop_last()) {
            Err(x) => Err(x),
            Ok(prev) => match ds.last() {
                DeclarationV::Extern(x) => Ok(prev.push(DeclarationV::Extern(expand_extern(x)))),
                DeclarationV::Function(f) => match expand_function(sigs, f) {
                    Err(x) => Err(x),
                    Ok(fs) => Ok(prev + fs.map_values(|g: FunctionV| DeclarationV::Function(g))),
                },
            },
        }
    }
}

/// The expansion of a whole program against its own signature table.
pub open spec fn expand_program(ds: Seq<DeclarationV>) -> Result<Seq<DeclarationV>, CompileErrorV> {
    expand_decls(sig_table(ds), ds)
}


// ---------------------------------------------------------------------------
// The transformation itself.

/// A chapter being filled.
pub struct Chapter {
    pub stmts: Vec<Expr>,
    pub arrives_with: Option<Ty>,
}

impl View for Chapter {
    type V = ChapterV;

    open spec fn view(&self) -> ChapterV {
        ChapterV {
            stmts: exprs_view(self.stmts@),
            arrives_with: match self.arrives_with {
                Some(t) => Some(t@),
                None => None,
            },
        }
    }
}

pub open spec fn chapters_view(s: Seq<Chapter>) -> Seq<ChapterV> {
    s.map_values(|c: Chapter| c@)
}

/// Every chapter but the first was opened by a suspension and knows what it
/// receives.
pub open spec fn chapters_wf(s: Seq<Chapter>) -> bool {
    &&& s.len() >= 1
    &&& forall|i: int| 1 <= i < s.len() ==> (#[trigger] s[i]).arrives_with is Some
}

impl Chapter {
    /// The empty first chapter of a function.
    pub fn new() -> (r: Chapter)
        ensures
            r@ == first_chapter(),
    {
        let r = Chapter { stmts: Vec::new(), arrives_with: None };
        assert(exprs_view(r.stmts@) =~= Seq::<ExprV>::empty());
        r
    }
}

pub proof fn lemma_funcall_view(f: Box<Expr>, args: Vec<Expr>)
    ensures
        Expr::FunCall(f, args)@ == ExprV::FunCall(Box::new((*f)@), exprs_view(args@)),
{
    assert(Expr::FunCall(f, args)@->FunCall_1 =~= exprs_view(args@));
}

/// A parameter list short enough that the environment indices addressing
/// it fit in a number of the language on any machine.
pub open spec fn params_fit(ps: Seq<ParamV>) -> bool {
    ps.len() < i32::MAX
}

/// Every function of the program has a parameter list that fits.
pub open spec fn decls_fit(ds: Seq<DeclarationV>) -> bool {
    forall|i: int| 0 <= i < ds.len() ==> match #[trigger] ds[i] {
        DeclarationV::Function(f) => params_fit(f.params),
        DeclarationV::Extern(_) => true,
    }
}

/// The state of one compilation: the signature table, and the chapters of
/// the function being rewritten.
struct Compiler {
    sigs: Vec<Signature>,
    chapters: Vec<Chapter>,
}

/// Where `name` first stands among `params`.
fn param_position(params: &Vec<Param>, name: &String) -> (r: Option<usize>)
    ensures
        match param_index(params_view(params@), name@) {
            Some(i) => r == Some(i as usize) && i < params@.len(),
            None => r is None,
        },
{
    let mut i: usize = 0;
    assert(params_view(params@).subrange(0, params@.len() as int) =~= params_view(params@));
    while i < params.len()
        invariant
            i <= params.len(),
            param_index(params_view(params@), name@) == match param_index(params_view(params@).subrange(i as int, params@.len() as int), name@) {
                Some(k) => Some((k + i) as nat),
                None => None,
            },
        decreases params.len() - i,
    {
        let ghost rest = params_view(params@).subrange(i as int, params@.len() as int);
        assert(rest.subrange(1, rest.len() as int) =~= params_view(params@).subrange(i + 1, params@.len() as int));
        if params[i].name == *name {
            return Some(i);
        }
        i = i + 1;
    }
    assert(params_view(params@).subrange(i as int, params@.len() as int).len() == 0);
    None
}

/// The type of the continuation of a function returning `result_ty`.
fn cont_fun_ty(result_ty: Ty) -> (r: Ty)
    ensures
        r@ == cont_ty(result_ty@),
{
    let ghost rv = result_ty@;
    let tys = vec![Ty::raw("$ENV"), result_ty];
    assert(crate::ast::tys_view(tys@) =~= seq![raw("$ENV"@), rv]);
    Ty::fun(tys, Ty::raw("$FUTURE"))
}

/// A read of the environment entry at `idx`.
fn env_ref(idx: usize) -> (r: Expr)
    requires
        idx < i64::MAX,
    ensures
        r@ == env_ref_call(idx as nat),
{
    let args = vec![Expr::var_ref("$env"), Expr::Number(idx as i64)];
    let f = Box::new(Expr::var_ref("chiika_env_ref"));
    proof {
        lemma_funcall_view(f, args);
        assert(exprs_view(args@) =~= seq![var("$env"@), ExprV::Number(idx as i64)]);
    }
    Expr::FunCall(f, args)
}

/// A push of `arg`, made erased, onto the environment.
fn env_push(arg: Expr) -> (r: Expr)
    ensures
        r@ == env_push_call(arg@),
{
    let ghost av = arg@;
    let cast = Expr::Cast(Box::new(arg), Ty::raw("$any"));
    let args = vec![Expr::var_ref("$env"), cast];
    let f = Box::new(Expr::var_ref("chiika_env_push"));
    proof {
        lemma_funcall_view(f, args);
        assert(exprs_view(args@) =~= seq![var("$env"@), ExprV::Cast(Box::new(av), raw("$any"@))]);
    }
    Expr::FunCall(f, args)
}

/// Prepends the environment handle and the continuation to a parameter list.
fn prepend_async_params(params: &Vec<Param>, result_ty: Ty) -> (r: Vec<Param>)
    ensures
        params_view(r@) == async_params(params_view(params@), result_ty@),
{
    let ghost rv = result_ty@;
    let mut new_params = duplicate_params(params);
    new_params.insert(0, Param::new(Ty::raw("$ENV"), "$env"));
    new_params.insert(1, Param::new(cont_fun_ty(result_ty), "$cont"));
    assert(params_view(new_params@) =~= async_params(params_view(params@), rv));
    new_params
}

/// Puts in front of `stmts` the pushes that save the continuation and each
/// parameter.
fn prepend_async_intro(orig_func: &Function, stmts: Vec<Expr>) -> (r: Vec<Expr>)
    ensures
        exprs_view(r@) == async_intro(orig_func@) + exprs_view(stmts@),
{
    let mut stmts = stmts;
    let ghost sv = exprs_view(stmts@);
    let mut push_calls: Vec<Expr> = Vec::new();
    push_calls.push(env_push(Expr::var_ref("$cont")));
    let mut i: usize = 0;
    while i < orig_func.params.len()
        invariant
            i <= orig_func.params.len(),
            push_calls@.len() == i + 1,
            forall|j: int| 0 <= j <= i ==> #[trigger] push_calls@[j]@ == async_intro(orig_func@)[j],
        decreases orig_func.params.len() - i,
    {
        push_calls.push(env_push(Expr::VarRef(orig_func.params[i].name.clone())));
        i = i + 1;
    }
    push_calls.append(&mut stmts);
    assert(exprs_view(push_calls@) =~= async_intro(orig_func@) + sv);
    push_calls
}

/// Replaces the last statement by a call of the continuation, popped from
/// the environment, with that statement's value.
fn append_async_outro(orig_func: &Function, stmts: Vec<Expr>, result_ty: Ty) -> (r: Vec<Expr>)
    requires
        stmts@.len() > 0,
        result_ty@ == orig_func@.ret_ty,
        params_fit(orig_func@.params),
    ensures
        exprs_view(r@) == async_outro(orig_func@, exprs_view(stmts@)),
{
    let ghost sv = exprs_view(stmts@);
    let mut stmts = stmts;
    let result_value = match stmts.pop() {
        Some(x) => x,
        None => Expr::Number(0),
    };
    let ghost value = result_value@;
    assert(orig_func@.params.len() == orig_func.params@.len());
    let n_pop = orig_func.params.len() + 1;
    let pop_args = vec![Expr::var_ref("$env"), Expr::Number(n_pop as i64)];
    let pop_f = Box::new(Expr::var_ref("chiika_env_pop"));
    proof {
        lemma_funcall_view(pop_f, pop_args);
        assert(exprs_view(pop_args@) =~= seq![var("$env"@), ExprV::Number(n_pop as i64)]);
    }
    let env_pop = Expr::FunCall(pop_f, pop_args);
    let cast = Box::new(Expr::Cast(Box::new(env_pop), cont_fun_ty(result_ty)));
    let args = vec![Expr::var_ref("$env"), result_value];
    proof {
        lemma_funcall_view(cast, args);
        assert(exprs_view(args@) =~= seq![var("$env"@), value]);
    }
    let call_cont = Expr::FunCall(cast, args);
    stmts.push(call_cont);
    assert(exprs_view(stmts@) =~= async_outro(orig_func@, sv));
    stmts
}

pub proof fn lemma_cps_args_err(sigs: Seq<SignatureV>, f: FunctionV, av: Seq<ExprV>, chs: Seq<ChapterV>, m: int, x: CompileErrorV)
    requires
        0 <= m <= av.len(),
        cps_args(sigs, f, av.subrange(0, m), chs) == Err::<(Seq<ExprV>, Seq<ChapterV>), CompileErrorV>(x),
    ensures
        cps_args(sigs, f, av, chs) == Err::<(Seq<ExprV>, Seq<ChapterV>), CompileErrorV>(x),
    decreases av.len() - m,
{
    if m == av.len() {
        assert(av.subrange(0, m) =~= av);
    } else {
        assert(av.subrange(0, m + 1).subrange(0, m) =~= av.subrange(0, m));
        lemma_cps_args_err(sigs, f, av, chs, m + 1, x);
    }
}

pub proof fn lemma_cps_stmts_err(sigs: Seq<SignatureV>, f: FunctionV, sv: Seq<ExprV>, chs: Seq<ChapterV>, m: int, x: CompileErrorV)
    requires
        0 <= m <= sv.len(),
        cps_stmts(sigs, f, sv.subrange(0, m), chs) == Err::<Seq<ChapterV>, CompileErrorV>(x),
    ensures
        cps_stmts(sigs, f, sv, chs) == Err::<Seq<ChapterV>, CompileErrorV>(x),
    decreases sv.len() - m,
{
    if m == sv.len() {
        assert(sv.subrange(0, m) =~= sv);
    } else {
        assert(sv.subrange(0, m + 1).drop_last() =~= sv.subrange(0, m));
        lemma_cps_stmts_err(sigs, f, sv, chs, m + 1, x);
    }
}

pub proof fn lemma_expand_decls_err(sigs: Seq<SignatureV>, ds: Seq<DeclarationV>, m: int, x: CompileErrorV)
    requires
        0 <= m <= ds.len(),
        expand_decls(sigs, ds.subrange(0, m)) == Err::<Seq<DeclarationV>, CompileErrorV>(x),
    ensures
        expand_decls(sigs, ds) == Err::<Seq<DeclarationV>, CompileErrorV>(x),
    decreases ds.len() - m,
{
    if m == ds.len() {
        assert(ds.subrange(0, m) =~= ds);
    } else {
        assert(ds.subrange(0, m + 1).drop_last() =~= ds.subrange(0, m));
        lemma_expand_decls_err(sigs, ds, m + 1, x);
    }
}

impl Compiler {
    /// Appends `s` to the current chapter.
    fn append_stmt(&mut self, s: Expr)
        requires
            chapters_wf(old(self).chapters@),
        ensures
            final(self).sigs == old(self).sigs,
            chapters_wf(final(self).chapters@),
            final(self).chapters@.len() == old(self).chapters@.len(),
            final(self).chapters@.last().stmts@.len() > 0,
            chapters_view(final(self).chapters@) == append_stmt(chapters_view(old(self).chapters@), s@),
    {
        let ghost cv = chapters_view(self.chapters@);
        let mut c = match self.chapters.pop() {
            Some(c) => c,
            None => Chapter { stmts: Vec::new(), arrives_with: None },
        };
        c.stmts.push(s);
        self.chapters.push(c);
        assert(exprs_view(c.stmts@) =~= cv.last().stmts.push(s@));
        assert(chapters_view(self.chapters@) =~= append_stmt(cv, s@));
    }

    /// Ends the current chapter with `last` and opens one that receives a
    /// value of type `ty`.
    fn open_chapter(&mut self, last: Expr, ty: Ty)
        requires
            chapters_wf(old(self).chapters@),
        ensures
            final(self).sigs == old(self).sigs,
            chapters_wf(final(self).chapters@),
            final(self).chapters@.len() == old(self).chapters@.len() + 1,
            chapters_view(final(self).chapters@) == open_chapter(chapters_view(old(self).chapters@), last@, ty@),
    {
        let ghost tv = ty@;
        self.append_stmt(last);
        let c = Chapter { stmts: Vec::new(), arrives_with: Some(ty) };
        assert(exprs_view(c.stmts@) =~= Seq::<ExprV>::empty());
        self.chapters.push(c);
        assert(chapters_view(self.chapters@) =~= open_chapter(chapters_view(old(self).chapters@), last@, tv));
    }

    fn compile_expr(&mut self, orig_func: &Function, e: Expr) -> (r: Result<Expr, CompileError>)
        requires
            chapters_wf(old(self).chapters@),
            params_fit(orig_func@.params),
        ensures
            final(self).sigs == old(self).sigs,
            chapters_wf(final(self).chapters@),
            match cps_expr(sigs_view(old(self).sigs@), orig_func@, e@, chapters_view(old(self).chapters@)) {
                Ok((e2, chs)) => r is Ok && r->Ok_0@ == e2 && chapters_view(final(self).chapters@) == chs,
                Err(x) => r is Err && r->Err_0@ == x,
            },
        decreases e,
    {
        let ghost ev = e@;
        match e {
            Expr::Number(n) => Ok(Expr::Number(n)),
            Expr::VarRef(name) => {
                let known = lookup_sig(&self.sigs, &name).is_some();
                if known {
                    Ok(Expr::VarRef(name))
                } else {
                    assert(orig_func@.params.len() == orig_func.params@.len());
                    match param_position(&orig_func.params, &name) {
                        Some(i) => {
                            if self.chapters.len() == 1 {
                                Ok(Expr::VarRef(name))
                            } else {
                                Ok(env_ref(i + 1))
                            }
                        },
                        None => Err(CompileError::UnknownIdentifier(name)),
                    }
                }
            },
            Expr::OpCall(op, l, r) => {
                let l2 = match self.compile_expr(orig_func, *l) {
                    Ok(x) => x,
                    Err(x) => return Err(x),
                };
                let r2 = match self.compile_expr(orig_func, *r) {
                    Ok(x) => x,
                    Err(x) => return Err(x),
                };
                Ok(Expr::OpCall(op, Box::new(l2), Box::new(r2)))
            },
            Expr::FunCall(fexpr, arg_exprs) => {
                proof {
                    lemma_funcall_view(fexpr, arg_exprs);
                }
                let mut new_args = match self.compile_args(orig_func, arg_exprs) {
                    Ok(x) => x,
                    Err(x) => return Err(x),
                };
                let callee_name = match *fexpr {
                    Expr::VarRef(n) => n,
                    _ => return Err(CompileError::TypeShapeMismatch),
                };
                let (is_async, ret_ty) = match lookup_sig(&self.sigs, &callee_name) {
                    Some(ft) => (ft.is_async, ft.ret_ty.duplicate()),
                    None => return Err(CompileError::UnknownIdentifier(callee_name)),
                };
                let ghost av = exprs_view(new_args@);
                if is_async {
                    let n = self.chapters.len();
                    new_args.insert(0, Expr::var_ref("$env"));
                    new_args.insert(1, Expr::VarRef(chapter_func_name(orig_func.name.as_str(), n)));
                    assert(exprs_view(new_args@) =~= seq![var("$env"@), var(chapter_name(orig_func@.name, n as nat))] + av);
                    let f = Box::new(Expr::VarRef(callee_name));
                    proof {
                        lemma_funcall_view(f, new_args);
                    }
                    let cps_call = Expr::FunCall(f, new_args);
                    self.open_chapter(cps_call, ret_ty);
                    Ok(Expr::var_ref("$async_result"))
                } else {
                    let f = Box::new(Expr::VarRef(callee_name));
                    proof {
                        lemma_funcall_view(f, new_args);
                    }
                    Ok(Expr::FunCall(f, new_args))
                }
            },
            _ => Err(CompileError::UnsupportedConstruct),
        }
    }

    fn compile_args(&mut self, orig_func: &Function, args: Vec<Expr>) -> (r: Result<Vec<Expr>, CompileError>)
        requires
            chapters_wf(old(self).chapters@),
            params_fit(orig_func@.params),
        ensures
            final(self).sigs == old(self).sigs,
            chapters_wf(final(self).chapters@),
            match cps_args(sigs_view(old(self).sigs@), orig_func@, exprs_view(args@), chapters_view(old(self).chapters@)) {
                Ok((a2, chs)) => r is Ok && exprs_view(r->Ok_0@) == a2 && chapters_view(final(self).chapters@) == chs,
                Err(x) => r is Err && r->Err_0@ == x,
            },
        decreases args,
    {
        let ghost sv = sigs_view(self.sigs@);
        let ghost av = exprs_view(args@);
        let ghost chs0 = chapters_view(self.chapters@);
        let ghost orig = args;
        let mut rest = args;
        let n = rest.len();
        let mut out: Vec<Expr> = Vec::new();
        let mut k: usize = 0;
        assert(av.subrange(0, 0) =~= Seq::<ExprV>::empty());
        assert(exprs_view(out@) =~= Seq::<ExprV>::empty());
        while k < n
            invariant
                n == av.len(),
                n == orig@.len(),
                orig == args,
                av == exprs_view(orig@),
                k <= n,
                rest@ == orig@.subrange(k as int, n as int),
                sv == sigs_view(self.sigs@),
                chs0 == chapters_view(old(self).chapters@),
                self.sigs == old(self).sigs,
                chapters_wf(self.chapters@),
                params_fit(orig_func@.params),
                cps_args(sv, orig_func@, av.subrange(0, k as int), chs0) == Ok::<(Seq<ExprV>, Seq<ChapterV>), CompileErrorV>((exprs_view(out@), chapters_view(self.chapters@))),
            decreases n - k,
        {
            let a = rest.remove(0);
            proof {
                assert(a == orig@[k as int]);
                assert(decreases_to!(orig => orig[k as int]));
                assert(av.subrange(0, k + 1).subrange(0, k as int) =~= av.subrange(0, k as int));
                assert(av.subrange(0, k + 1)[k as int] == a@);
            }
            let ghost cur = chapters_view(self.chapters@);
            let a2 = match self.compile_expr(orig_func, a) {
                Ok(x) => x,
                Err(x) => {
                    proof {
                        lemma_cps_args_err(sv, orig_func@, av, chs0, k + 1, x@);
                    }
                    return Err(x);
                },
            };
            let ghost prev = exprs_view(out@);
            out.push(a2);
            assert(exprs_view(out@) =~= prev.push(a2@));
            k = k + 1;
            assert(rest@ =~= orig@.subrange(k as int, n as int));
        }
        assert(av.subrange(0, n as int) =~= av);
        Ok(out)
    }

    /// Rewrites one function; the functions it becomes, in chapter order.
    fn compile_func(&mut self, f: Function) -> (r: Result<Vec<Function>, CompileError>)
        requires
            params_fit(f@.params),
        ensures
            final(self).sigs == old(self).sigs,
            match expand_function(sigs_view(old(self).sigs@), f@) {
                Ok(fs) => r is Ok && r->Ok_0@.map_values(|g: Function| g@) == fs,
                Err(x) => r is Err && r->Err_0@ == x,
            },
    {
        let ghost fv = f@;
        let ghost sv = sigs_view(self.sigs@);
        let Function { name, params, ret_ty, body_stmts } = f;
        let ghost bv = exprs_view(body_stmts@);
        let ghost orig = body_stmts;
        let head = Function { name, params, ret_ty, body_stmts: Vec::new() };
        assert(head@ == head_of(fv)) by {
            assert(exprs_view(head.body_stmts@) =~= Seq::<ExprV>::empty());
        }
        self.chapters = vec![Chapter::new()];
        let ghost chs0 = chapters_view(self.chapters@);
        assert(chs0 =~= seq![first_chapter()]);
        let mut rest = body_stmts;
        let n = rest.len();
        let mut k: usize = 0;
        assert(bv.subrange(0, 0) =~= Seq::<ExprV>::empty());
        while k < n
            invariant
                n == bv.len(),
                n == orig@.len(),
                bv == exprs_view(orig@),
                bv == fv.body_stmts,
                fv == f@,
                k <= n,
                rest@ == orig@.subrange(k as int, n as int),
                sv == sigs_view(self.sigs@),
                self.sigs == old(self).sigs,
                chs0 == seq![first_chapter()],
                head@ == head_of(fv),
                params_fit(head@.params),
                chapters_wf(self.chapters@),
                k > 0 ==> self.chapters@.last().stmts@.len() > 0,
                self.chapters@.len() > 1 ==> k > 0,
                cps_stmts(sv, head@, bv.subrange(0, k as int), chs0) == Ok::<Seq<ChapterV>, CompileErrorV>(chapters_view(self.chapters@)),
            decreases n - k,
        {
            let e = rest.remove(0);
            proof {
                assert(e == orig@[k as int]);
                assert(bv.subrange(0, k + 1).drop_last() =~= bv.subrange(0, k as int));
                assert(bv.subrange(0, k + 1).last() == e@);
            }
            let new_expr = match self.compile_expr(&head, e) {
                Ok(x) => x,
                Err(x) => {
                    proof {
                        lemma_cps_stmts_err(sv, head@, bv, chs0, k + 1, x@);
                    }
                    return Err(x);
                },
            };
            self.append_stmt(new_expr);
            k = k + 1;
            assert(rest@ =~= orig@.subrange(k as int, n as int));
        }
        assert(bv.subrange(0, n as int) =~= bv);
        assert(bv == fv.body_stmts);
        if self.chapters.len() == 1 {
            // No asynchronous call: the function stays as it is.
            let c = match self.chapters.pop() {
                Some(c) => c,
                None => Chapter { stmts: Vec::new(), arrives_with: None },
            };
            let Function { name, params, ret_ty, body_stmts: _ } = head;
            let g = Function { name, params, ret_ty, body_stmts: c.stmts };
            let r = vec![g];
            assert(r@.map_values(|g: Function| g@) =~= seq![FunctionV { body_stmts: c@.stmts, ..fv }]);
            Ok(r)
        } else {
            let mut chaps: Vec<Chapter> = Vec::new();
            std::mem::swap(&mut chaps, &mut self.chapters);
            Ok(self.generate_split_funcs(head, chaps))
        }
    }

    /// One function per chapter: chapter 0 keeps the name and saves the
    /// continuation and the parameters, the others receive the delivered value,
    /// and the last hands the result to the continuation.
    fn generate_split_funcs(&self, orig_func: Function, chapters: Vec<Chapter>) -> (r: Vec<Function>)
        requires
            chapters_wf(chapters@),
            chapters@.len() >= 2,
            chapters@.last().stmts@.len() > 0,
            params_fit(orig_func@.params),
        ensures
            r@.map_values(|g: Function| g@) == split_funcs(orig_func@, chapters_view(chapters@)),
    {
        let ghost cv = chapters_view(chapters@);
        let ghost orig = chapters;
        let n = chapters.len();
        let mut rest = chapters;
        let mut out: Vec<Function> = Vec::new();
        let mut i: usize = 0;
        while i < n
            invariant
                n == orig@.len(),
                n >= 2,
                cv == chapters_view(orig@),
                chapters_wf(orig@),
                orig@.last().stmts@.len() > 0,
                params_fit(orig_func@.params),
                i <= n,
                rest@ == orig@.subrange(i as int, n as int),
                out@.len() == i,
                forall|j: int| 0 <= j < i ==> #[trigger] out@[j]@ == chapter_func(orig_func@, cv, j),
            decreases n - i,
        {
            let chap = rest.remove(0);
            assert(chap == orig@[i as int]);
            assert(chap@ == cv[i as int]);
            let Chapter { stmts, arrives_with } = chap;
            let new_func = if i == 0 {
                Function {
                    name: orig_func.name.clone(),
                    params: prepend_async_params(&orig_func.params, orig_func.ret_ty.duplicate()),
                    ret_ty: Ty::raw("$FUTURE"),
                    body_stmts: prepend_async_intro(&orig_func, stmts),
                }
            } else {
                let ty = match arrives_with {
                    Some(t) => t,
                    None => Ty::raw("$FUTURE"),
                };
                let ghost tv = ty@;
                let params = vec![Param::new(Ty::raw("$ENV"), "$env"), Param::new(ty, "$async_result")];
                assert(params_view(params@) =~= seq![
                    ParamV { ty: raw("$ENV"@), name: "$env"@ },
                    ParamV { ty: tv, name: "$async_result"@ },
                ]);
                let body_stmts = if i == n - 1 {
                    append_async_outro(&orig_func, stmts, orig_func.ret_ty.duplicate())
                } else {
                    stmts
                };
                Function { name: chapter_func_name(orig_func.name.as_str(), i), params, ret_ty: Ty::raw("$FUTURE"), body_stmts }
            };
            out.push(new_func);
            i = i + 1;
            assert(rest@ =~= orig@.subrange(i as int, n as int));
        }
        assert(out@.map_values(|g: Function| g@) =~= split_funcs(orig_func@, cv));
        out
    }

    /// The externs keep their place; an asynchronous one gets the
    /// continuation-passing signature.
    fn compile_extern(&self, e: Extern) -> (r: Extern)
        ensures
            r@ == expand_extern(e@),
    {
        if e.is_async {
            let Extern { name, params, ret_ty, is_async: _ } = e;
            let new_params = prepend_async_params(&params, ret_ty);
            Extern { name, params: new_params, ret_ty: Ty::raw("$FUTURE"), is_async: false }
        } else {
            e
        }
    }
}


/// Appends each function of `fs`, as a declaration, to `out`.
fn append_functions(out: &mut Vec<Declaration>, fs: Vec<Function>)
    ensures
        decls_view(final(out)@) == decls_view(old(out)@) + fs@.map_values(|g: Function| g@).map_values(
            |g: FunctionV| DeclarationV::Function(g),
        ),
{
    let ghost orig = fs;
    let ghost start = decls_view(out@);
    let n = fs.len();
    let mut rest = fs;
    let mut i: usize = 0;
    while i < n
        invariant
            n == orig@.len(),
            i <= n,
            rest@ == orig@.subrange(i as int, n as int),
            decls_view(out@) == start + orig@.subrange(0, i as int).map_values(|g: Function| g@).map_values(
                |g: FunctionV| DeclarationV::Function(g),
            ),
        decreases n - i,
    {
        let g = rest.remove(0);
        assert(g == orig@[i as int]);
        let ghost prev = decls_view(out@);
        out.push(Declaration::Function(g));
        assert(decls_view(out@) =~= prev.push(DeclarationV::Function(g@)));
        assert(orig@.subrange(0, i + 1).map_values(|g: Function| g@).map_values(|g: FunctionV| DeclarationV::Function(g))
            =~= orig@.subrange(0, i as int).map_values(|g: Function| g@).map_values(|g: FunctionV| DeclarationV::Function(g)).push(
            DeclarationV::Function(g@),
        ));
        i = i + 1;
        assert(rest@ =~= orig@.subrange(i as int, n as int));
    }
    assert(orig@.subrange(0, n as int) =~= orig@);
}

/// Expands every asynchronous call of the program into continuation-passing
/// style. Declarations keep their order; a function with N asynchronous calls
/// becomes N + 1 functions. The first error stops the compilation.
pub fn compile(ast: Vec<Declaration>) -> (r: Result<Vec<Declaration>, CompileError>)
    requires
        decls_fit(decls_view(ast@)),
    ensures
        match expand_program(decls_view(ast@)) {
            Ok(ds) => r is Ok && decls_view(r->Ok_0@) == ds,
            Err(x) => r is Err && r->Err_0@ == x,
        },
{
    let ghost dv = decls_view(ast@);
    let ghost orig = ast;
    let mut c = Compiler { sigs: gather_sigs(&ast), chapters: Vec::new() };
    let ghost sv = sigs_view(c.sigs@);
    assert(sv == sig_table(dv));
    let n = ast.len();
    let mut rest = ast;
    let mut new_decls: Vec<Declaration> = Vec::new();
    let mut k: usize = 0;
    assert(decls_view(new_decls@) =~= Seq::<DeclarationV>::empty());
    while k < n
        invariant
            n == dv.len(),
            n == orig@.len(),
            dv == decls_view(orig@),
            orig == ast,
            decls_fit(dv),
            k <= n,
            rest@ == orig@.subrange(k as int, n as int),
            sv == sigs_view(c.sigs@),
            sv == sig_table(dv),
            expand_decls(sv, dv.subrange(0, k as int)) == Ok::<Seq<DeclarationV>, CompileErrorV>(decls_view(new_decls@)),
        decreases n - k,
    {
        let d = rest.remove(0);
        proof {
            assert(d == orig@[k as int]);
            assert(dv.subrange(0, k + 1).drop_last() =~= dv.subrange(0, k as int));
            assert(dv.subrange(0, k + 1).last() == d@);
            assert(dv[k as int] == d@);
        }
        match d {
            Declaration::Extern(x) => {
                let ghost prev = decls_view(new_decls@);
                new_decls.push(Declaration::Extern(c.compile_extern(x)));
                assert(decls_view(new_decls@) =~= prev.push(DeclarationV::Extern(expand_extern(x@))));
            },
            Declaration::Function(x) => {
                let fs = match c.compile_func(x) {
                    Ok(fs) => fs,
                    Err(e) => {
                        proof {
                            lemma_expand_decls_err(sv, dv, k + 1, e@);
                        }
                        return Err(e);
                    },
                };
                append_functions(&mut new_decls, fs);
            },
        }
        k = k + 1;
        assert(rest@ =~= orig@.subrange(k as int, n as int));
    }
    assert(dv.subrange(0, n as int) =~= dv);
    Ok(new_decls)
}

} // verus!
