use vstd::prelude::*;
use crate::ast::{BinOp, DeclarationV, ExprV, ExternV, FunTyV, FunctionV, ParamV, TyV};
use crate::names::{decimal, digit_char, signed_decimal};
use crate::printer::{
    args_parts, comma, decl_src, decls_parts, decls_src, expr_src, extern_src, function_src, head_src, join, op_src,
    param_src, params_parts, stmt_src, stmts_parts, ty_src, tys_parts,
};

verus! {

// ---------------------------------------------------------------------------
// Characters and names.

pub open spec fn is_digit(c: char) -> bool {
    '0' <= c && c <= '9'
}

pub open spec fn is_name_start(c: char) -> bool {
    ('a' <= c && c <= 'z') || ('A' <= c && c <= 'Z') || c == '_'
}

pub open spec fn is_name_char(c: char) -> bool {
    is_name_start(c) || is_digit(c)
}

/// Where a name's first letter stands: after an optional `$`.
pub open spec fn name_start(x: Seq<char>) -> int {
    if x.len() > 0 && x[0] == '$' {
        1
    } else {
        0
    }
}

/// A name: an optional `$`, a letter or `_`, then letters, digits and `_`.
pub open spec fn is_name(x: Seq<char>) -> bool {
    &&& name_start(x) < x.len()
    &&& is_name_start(x[name_start(x)])
    &&& forall|k: int| name_start(x) < k < x.len() ==> is_name_char(#[trigger] x[k])
}

pub open spec fn starts_with(s: Seq<char>, p: Seq<char>) -> bool {
    p.len() <= s.len() && s.subrange(0, p.len() as int) == p
}

pub open spec fn after(s: Seq<char>, n: int) -> Seq<char> {
    s.subrange(n, s.len() as int)
}

pub open spec fn name_end(s: Seq<char>, k: int) -> int
    decreases s.len() - k,
{
    if 0 <= k < s.len() && is_name_char(s[k]) {
        name_end(s, k + 1)
    } else {
        k
    }
}

pub open spec fn digits_end(s: Seq<char>, k: int) -> int
    decreases s.len() - k,
{
    if 0 <= k < s.len() && is_digit(s[k]) {
        digits_end(s, k + 1)
    } else {
        k
    }
}

pub open spec fn digit_value(c: char) -> int {
    (c as u32) - 48
}

/// The number that a run of digits denotes.
pub open spec fn digits_value(d: Seq<char>) -> int
    decreases d.len(),
{
    if d.len() == 0 {
        0
    } else {
        digits_value(d.drop_last()) * 10 + digit_value(d.last())
    }
}

// ---------------------------------------------------------------------------
// The parser, as a function from text to what it reads and what is left.

pub open spec fn p_name(s: Seq<char>) -> Option<(Seq<char>, Seq<char>)> {
    let st = name_start(s);
    if st < s.len() && is_name_start(s[st]) {
        let e = name_end(s, st + 1);
        Some((s.subrange(0, e), after(s, e)))
    } else {
        None
    }
}

pub open spec fn p_number(s: Seq<char>) -> Option<(i64, Seq<char>)> {
    let neg = s.len() > 0 && s[0] == '-';
    let st: int = if neg {
        1
    } else {
        0
    };
    if st < s.len() && is_digit(s[st]) {
        let e = digits_end(s, st);
        let v = digits_value(s.subrange(st, e));
        let n = if neg {
            -v
        } else {
            v
        };
        if i64::MIN <= n <= i64::MAX {
            Some((n as i64, after(s, e)))
        } else {
            None
        }
    } else {
        None
    }
}

pub open spec fn fn_kw() -> Seq<char> {
    seq!['$', 'F', 'N']
}

pub open spec fn cast_kw() -> Seq<char> {
    seq!['$', 'C', 'A', 'S', 'T']
}

pub open spec fn arrow() -> Seq<char> {
    seq![')', ' ', '-', '>', ' ']
}

pub open spec fn p_ty(s: Seq<char>) -> Option<(TyV, Seq<char>)>
    decreases s.len(), 0int,
{
    match p_name(s) {
        None => None,
        Some((name, r1)) => if name == fn_kw() && starts_with(r1, seq!['(', '(']) {
            let r2 = after(r1, 2);
            if r2.len() < s.len() {
                match p_tys(r2) {
                    Some((ts, r3)) => if r3.len() < s.len() && starts_with(r3, arrow()) {
                        match p_ty(after(r3, 5)) {
                            Some((ret, r4)) => if starts_with(r4, seq![')']) {
                                Some(
                                    (
                                        TyV::Fun(FunTyV { is_async: false, param_tys: ts, ret_ty: Box::new(ret) }),
                                        after(r4, 1),
                                    ),
                                )
                            } else {
                                None
                            },
                            None => None,
                        }
                    } else {
                        None
                    },
                    None => None,
                }
            } else {
                None
            }
        } else {
            Some((TyV::Raw(name), r1))
        },
    }
}

/// Types separated by `, `, up to a `)`.
pub open spec fn p_tys(s: Seq<char>) -> Option<(Seq<TyV>, Seq<char>)>
    decreases s.len(), 1int,
{
    if starts_with(s, seq![')']) {
        Some((Seq::empty(), s))
    } else {
        match p_ty(s) {
            Some((t, r1)) => if r1.len() < s.len() {
                match p_tys_tail(r1) {
                    Some((ts, r2)) => Some((seq![t] + ts, r2)),
                    None => None,
                }
            } else {
                None
            },
            None => None,
        }
    }
}

pub open spec fn p_tys_tail(s: Seq<char>) -> Option<(Seq<TyV>, Seq<char>)>
    decreases s.len(), 1int,
{
    if starts_with(s, comma()) {
        match p_ty(after(s, 2)) {
            Some((t, r1)) => if r1.len() < s.len() {
                match p_tys_tail(r1) {
                    Some((ts, r2)) => Some((seq![t] + ts, r2)),
                    None => None,
                }
            } else {
                None
            },
            None => None,
        }
    } else {
        Some((Seq::empty(), s))
    }
}

pub open spec fn p_expr(s: Seq<char>) -> Option<(ExprV, Seq<char>)>
    decreases s.len(), 0int,
{
    if s.len() == 0 {
        None
    } else if s[0] == '-' || is_digit(s[0]) {
        match p_number(s) {
            Some((n, r)) => Some((ExprV::Number(n), r)),
            None => None,
        }
    } else if s[0] == '(' {
        match p_expr(after(s, 1)) {
            Some((x, r1)) => if r1.len() < s.len() {
                if starts_with(r1, op_src(BinOp::Add)) || starts_with(r1, op_src(BinOp::Sub)) {
                    let op = if r1[1] == '+' {
                        BinOp::Add
                    } else {
                        BinOp::Sub
                    };
                    match p_expr(after(r1, 3)) {
                        Some((y, r2)) => if starts_with(r2, seq![')']) {
                            Some((ExprV::OpCall(op, Box::new(x), Box::new(y)), after(r2, 1)))
                        } else {
                            None
                        },
                        None => None,
                    }
                } else if starts_with(r1, seq![')', '(']) {
                    match p_args(after(r1, 2)) {
                        Some((args, r2)) => if starts_with(r2, seq![')']) {
                            Some((ExprV::FunCall(Box::new(x), args), after(r2, 1)))
                        } else {
                            None
                        },
                        None => None,
                    }
                } else {
                    None
                }
            } else {
                None
            },
            None => None,
        }
    } else {
        match p_name(s) {
            None => None,
            Some((name, r1)) => if r1.len() < s.len() && starts_with(r1, seq!['(']) {
                if name == cast_kw() {
                    match p_expr(after(r1, 1)) {
                        Some((x, r2)) => if starts_with(r2, seq![' ', 'a', 's', ' ']) {
                            match p_ty(after(r2, 4)) {
                                Some((t, r3)) => if starts_with(r3, seq![')']) {
                                    Some((ExprV::Cast(Box::new(x), t), after(r3, 1)))
                                } else {
                                    None
                                },
                                None => None,
                            }
                        } else {
                            None
                        },
                        None => None,
                    }
                } else {
                    match p_args(after(r1, 1)) {
                        Some((args, r2)) => if starts_with(r2, seq![')']) {
                            Some((ExprV::FunCall(Box::new(ExprV::VarRef(name)), args), after(r2, 1)))
                        } else {
                            None
                        },
                        None => None,
                    }
                }
            } else {
                Some((ExprV::VarRef(name), r1))
            },
        }
    }
}

/// Call arguments separated by `, `, up to a `)`.
pub open spec fn p_args(s: Seq<char>) -> Option<(Seq<ExprV>, Seq<char>)>
    decreases s.len(), 1int,
{
    if starts_with(s, seq![')']) {
        Some((Seq::empty(), s))
    } else {
        match p_expr(s) {
            Some((a, r1)) => if r1.len() < s.len() {
                match p_args_tail(r1) {
                    Some((args, r2)) => Some((seq![a] + args, r2)),
                    None => None,
                }
            } else {
                None
            },
            None => None,
        }
    }
}

pub open spec fn p_args_tail(s: Seq<char>) -> Option<(Seq<ExprV>, Seq<char>)>
    decreases s.len(), 1int,
{
    if starts_with(s, comma()) {
        match p_expr(after(s, 2)) {
            Some((a, r1)) => if r1.len() < s.len() {
                match p_args_tail(r1) {
                    Some((args, r2)) => Some((seq![a] + args, r2)),
                    None => None,
                }
            } else {
                None
            },
            None => None,
        }
    } else {
        Some((Seq::empty(), s))
    }
}


pub open spec fn p_param(s: Seq<char>) -> Option<(ParamV, Seq<char>)> {
    match p_ty(s) {
        Some((t, r1)) => if starts_with(r1, seq![' ']) {
            match p_name(after(r1, 1)) {
                Some((n, r2)) => Some((ParamV { ty: t, name: n }, r2)),
                None => None,
            }
        } else {
            None
        },
        None => None,
    }
}

/// Parameters separated by `, `, up to a `)`.
pub open spec fn p_params(s: Seq<char>) -> Option<(Seq<ParamV>, Seq<char>)> {
    if starts_with(s, seq![')']) {
        Some((Seq::empty(), s))
    } else {
        match p_param(s) {
            Some((p, r1)) => match p_params_tail(r1) {
                Some((ps, r2)) => Some((seq![p] + ps, r2)),
                None => None,
            },
            None => None,
        }
    }
}

pub open spec fn p_params_tail(s: Seq<char>) -> Option<(Seq<ParamV>, Seq<char>)>
    decreases s.len(),
{
    if starts_with(s, comma()) {
        match p_param(after(s, 2)) {
            Some((p, r1)) => if r1.len() < s.len() {
                match p_params_tail(r1) {
                    Some((ps, r2)) => Some((seq![p] + ps, r2)),
                    None => None,
                }
            } else {
                None
            },
            None => None,
        }
    } else {
        Some((Seq::empty(), s))
    }
}

/// `name(params) -> ret`: the name, the parameters, the result type.
pub open spec fn p_head(s: Seq<char>) -> Option<(Seq<char>, Seq<ParamV>, TyV, Seq<char>)> {
    match p_name(s) {
        Some((name, r1)) => if starts_with(r1, seq!['(']) {
            match p_params(after(r1, 1)) {
                Some((ps, r2)) => if starts_with(r2, arrow()) {
                    match p_ty(after(r2, 5)) {
                        Some((t, r3)) => Some((name, ps, t, r3)),
                        None => None,
                    }
                } else {
                    None
                },
                None => None,
            }
        } else {
            None
        },
        None => None,
    }
}

/// Statements, each indented by two spaces and ended by `;` and a newline.
pub open spec fn p_stmts(s: Seq<char>) -> Option<(Seq<ExprV>, Seq<char>)>
    decreases s.len(),
{
    if starts_with(s, seq![' ', ' ']) {
        match p_expr(after(s, 2)) {
            Some((e, r1)) => if starts_with(r1, seq![';', '\n']) && after(r1, 2).len() < s.len() {
                match p_stmts(after(r1, 2)) {
                    Some((es, r2)) => Some((seq![e] + es, r2)),
                    None => None,
                }
            } else {
                None
            },
            None => None,
        }
    } else {
        Some((Seq::empty(), s))
    }
}

pub open spec fn func_kw() -> Seq<char> {
    seq!['f', 'u', 'n', 'c', ' ']
}

pub open spec fn async_kw() -> Seq<char> {
    seq!['a', 's', 'y', 'n', 'c', ' ']
}

pub open spec fn extern_kw() -> Seq<char> {
    seq!['e', 'x', 't', 'e', 'r', 'n', ' ']
}

/// What follows `func `: a head, then the body in braces.
pub open spec fn p_function_rest(s: Seq<char>) -> Option<(DeclarationV, Seq<char>)> {
    match p_head(s) {
        Some((name, ps, t, r1)) => if starts_with(r1, seq![' ', '{', '\n']) {
            match p_stmts(after(r1, 3)) {
                Some((es, r2)) => if starts_with(r2, seq!['}', '\n']) {
                    Some(
                        (
                            DeclarationV::Function(FunctionV { name, params: ps, ret_ty: t, body_stmts: es }),
                            after(r2, 2),
                        ),
                    )
                } else {
                    None
                },
                None => None,
            }
        } else {
            None
        },
        None => None,
    }
}

/// What follows `extern `: an optional `async ` mark, a head, then `;`.
pub open spec fn p_extern_rest(r0: Seq<char>) -> Option<(DeclarationV, Seq<char>)> {
    let is_async = starts_with(r0, async_kw());
    let r = if is_async {
        after(r0, 6)
    } else {
        r0
    };
    match p_head(r) {
        Some((name, ps, t, r1)) => if starts_with(r1, seq![';', '\n']) {
            Some((DeclarationV::Extern(ExternV { name, params: ps, ret_ty: t, is_async }), after(r1, 2)))
        } else {
            None
        },
        None => None,
    }
}

pub open spec fn p_decl(s: Seq<char>) -> Option<(DeclarationV, Seq<char>)> {
    if starts_with(s, func_kw()) {
        p_function_rest(after(s, 5))
    } else if starts_with(s, extern_kw()) {
        p_extern_rest(after(s, 7))
    } else {
        None
    }
}

/// A whole program: declarations up to the end of the text.
pub open spec fn p_decls(s: Seq<char>) -> Option<Seq<DeclarationV>>
    decreases s.len(),
{
    if s.len() == 0 {
        Some(Seq::empty())
    } else {
        match p_decl(s) {
            Some((d, r1)) => if r1.len() < s.len() {
                match p_decls(r1) {
                    Some(ds) => Some(seq![d] + ds),
                    None => None,
                }
            } else {
                None
            },
            None => None,
        }
    }
}

/// Where reading a program fails, counted from the start of `s`: the offset
/// of the first declaration that cannot be read.
pub open spec fn decls_failure(s: Seq<char>) -> int
    decreases s.len(),
{
    if s.len() == 0 {
        0
    } else {
        match p_decl(s) {
            Some((d, r1)) => if r1.len() < s.len() {
                (s.len() - r1.len()) + decls_failure(r1)
            } else {
                0
            },
            None => 0,
        }
    }
}

// ---------------------------------------------------------------------------
// What the parser reads back: the subset of the syntax that has a textual
// form. Names are names, `$CAST` is never called, function types are not
// asynchronous, and local slots do not occur.

pub open spec fn wf_ty(t: TyV) -> bool
    decreases t,
{
    match t {
        TyV::Raw(n) => is_name(n),
        TyV::Fun(ft) => !ft.is_async && wf_ty(*ft.ret_ty) && forall|k: int|
            0 <= k < ft.param_tys.len() ==> wf_ty(#[trigger] ft.param_tys[k]),
    }
}

pub open spec fn wf_expr(e: ExprV) -> bool
    decreases e,
{
    match e {
        ExprV::Number(_) => true,
        ExprV::VarRef(n) => is_name(n),
        ExprV::OpCall(_, l, r) => wf_expr(*l) && wf_expr(*r),
        ExprV::FunCall(f, args) => (match *f {
            ExprV::VarRef(n) => is_name(n) && n != cast_kw(),
            _ => wf_expr(*f),
        }) && forall|k: int| 0 <= k < args.len() ==> wf_expr(#[trigger] args[k]),
        ExprV::Cast(x, t) => wf_expr(*x) && wf_ty(t),
        _ => false,
    }
}

pub open spec fn wf_param(p: ParamV) -> bool {
    wf_ty(p.ty) && is_name(p.name)
}

pub open spec fn wf_params(ps: Seq<ParamV>) -> bool {
    forall|k: int| 0 <= k < ps.len() ==> wf_param(#[trigger] ps[k])
}

pub open spec fn wf_decl(d: DeclarationV) -> bool {
    match d {
        DeclarationV::Function(f) => is_name(f.name) && wf_params(f.params) && wf_ty(f.ret_ty) && forall|k: int|
            0 <= k < f.body_stmts.len() ==> wf_expr(#[trigger] f.body_stmts[k]),
        DeclarationV::Extern(x) => is_name(x.name) && wf_params(x.params) && wf_ty(x.ret_ty),
    }
}

/// A program in the subset that has a textual form.
pub open spec fn wf_decls(ds: Seq<DeclarationV>) -> bool {
    forall|k: int| 0 <= k < ds.len() ==> wf_decl(#[trigger] ds[k])
}

/// What may follow an expression or a type in the text.
pub open spec fn follow(rest: Seq<char>) -> bool {
    rest.len() == 0 || rest[0] == ',' || rest[0] == ')' || rest[0] == ';' || rest[0] == ' '
}

// ---------------------------------------------------------------------------
// Lists, read from the front.

/// `sep` before each part.
pub open spec fn join_tail(parts: Seq<Seq<char>>, sep: Seq<char>) -> Seq<char>
    decreases parts.len(),
{
    if parts.len() == 0 {
        Seq::empty()
    } else {
        sep + parts[0] + join_tail(parts.subrange(1, parts.len() as int), sep)
    }
}

pub proof fn lemma_join_tail_push(q: Seq<Seq<char>>, sep: Seq<char>, x: Seq<char>)
    ensures
        join_tail(q.push(x), sep) == join_tail(q, sep) + sep + x,
    decreases q.len(),
{
    if q.len() == 0 {
        assert(q.push(x).subrange(1, 1) =~= Seq::<Seq<char>>::empty());
        assert(join_tail(Seq::<Seq<char>>::empty(), sep) == Seq::<char>::empty());
        assert(join_tail(q.push(x), sep) == sep + x + Seq::<char>::empty());
        assert(join_tail(q.push(x), sep) =~= join_tail(q, sep) + sep + x);
    } else {
        let t = q.subrange(1, q.len() as int);
        assert(q.push(x).subrange(1, q.len() + 1 as int) =~= t.push(x));
        lemma_join_tail_push(t, sep, x);
        assert(join_tail(q.push(x), sep) =~= join_tail(q, sep) + sep + x);
    }
}

/// A joined list read from the front: the first part, then each other part
/// after a separator.
pub proof fn lemma_join_front(p: Seq<Seq<char>>, sep: Seq<char>)
    requires
        p.len() >= 1,
    ensures
        join(p, sep) == p[0] + join_tail(p.subrange(1, p.len() as int), sep),
    decreases p.len(),
{
    if p.len() == 1 {
        assert(p.subrange(1, 1) =~= Seq::<Seq<char>>::empty());
        assert(p[0] + Seq::<char>::empty() =~= p[0]);
    } else {
        let d = p.drop_last();
        lemma_join_front(d, sep);
        assert(d.subrange(1, d.len() as int).push(p.last()) =~= p.subrange(1, p.len() as int));
        lemma_join_tail_push(d.subrange(1, d.len() as int), sep, p.last());
        assert(join(p, sep) =~= p[0] + join_tail(p.subrange(1, p.len() as int), sep));
    }
}

pub proof fn lemma_tys_parts(ts: Seq<TyV>)
    ensures
        tys_parts(ts).len() == ts.len(),
        forall|k: int| 0 <= k < ts.len() ==> #[trigger] tys_parts(ts)[k] == ty_src(ts[k]),
    decreases ts.len(),
{
    if ts.len() > 0 {
        lemma_tys_parts(ts.subrange(0, ts.len() - 1));
    }
}

pub proof fn lemma_args_parts(xs: Seq<ExprV>)
    ensures
        args_parts(xs).len() == xs.len(),
        forall|k: int| 0 <= k < xs.len() ==> #[trigger] args_parts(xs)[k] == expr_src(xs[k]),
    decreases xs.len(),
{
    if xs.len() > 0 {
        lemma_args_parts(xs.subrange(0, xs.len() - 1));
    }
}

pub proof fn lemma_params_parts(ps: Seq<ParamV>)
    ensures
        params_parts(ps).len() == ps.len(),
        forall|k: int| 0 <= k < ps.len() ==> #[trigger] params_parts(ps)[k] == param_src(ps[k]),
    decreases ps.len(),
{
    if ps.len() > 0 {
        lemma_params_parts(ps.drop_last());
    }
}

pub proof fn lemma_stmts_parts(ss: Seq<ExprV>)
    ensures
        stmts_parts(ss).len() == ss.len(),
        forall|k: int| 0 <= k < ss.len() ==> #[trigger] stmts_parts(ss)[k] == stmt_src(ss[k]),
    decreases ss.len(),
{
    if ss.len() > 0 {
        lemma_stmts_parts(ss.drop_last());
    }
}

pub proof fn lemma_decls_parts(ds: Seq<DeclarationV>)
    ensures
        decls_parts(ds).len() == ds.len(),
        forall|k: int| 0 <= k < ds.len() ==> #[trigger] decls_parts(ds)[k] == decl_src(ds[k]),
    decreases ds.len(),
{
    if ds.len() > 0 {
        lemma_decls_parts(ds.drop_last());
    }
}

// ---------------------------------------------------------------------------
// Names and numbers read back.

pub proof fn lemma_name_end(s: Seq<char>, k: int, e: int)
    requires
        0 <= k <= e <= s.len(),
        forall|j: int| k <= j < e ==> is_name_char(#[trigger] s[j]),
        e == s.len() || !is_name_char(s[e]),
    ensures
        name_end(s, k) == e,
    decreases e - k,
{
    if k < e {
        lemma_name_end(s, k + 1, e);
    }
}

pub proof fn lemma_p_name(x: Seq<char>, rest: Seq<char>)
    requires
        is_name(x),
        rest.len() == 0 || !is_name_char(rest[0]),
    ensures
        p_name(x + rest) == Some((x, rest)),
{
    let s = x + rest;
    let st = name_start(x);
    assert(name_start(s) == st);
    assert(s[st] == x[st]);
    assert forall|j: int| st + 1 <= j < x.len() implies is_name_char(#[trigger] s[j]) by {
        assert(s[j] == x[j]);
    }
    if rest.len() > 0 {
        assert(s[x.len() as int] == rest[0]);
    }
    lemma_name_end(s, st + 1, x.len() as int);
    assert(s.subrange(0, x.len() as int) =~= x);
    assert(after(s, x.len() as int) =~= rest);
}

pub proof fn lemma_digits_end(s: Seq<char>, k: int, e: int)
    requires
        0 <= k <= e <= s.len(),
        forall|j: int| k <= j < e ==> is_digit(#[trigger] s[j]),
        e == s.len() || !is_digit(s[e]),
    ensures
        digits_end(s, k) == e,
    decreases e - k,
{
    if k < e {
        lemma_digits_end(s, k + 1, e);
    }
}

pub proof fn lemma_digit(d: nat)
    requires
        d < 10,
    ensures
        is_digit(digit_char(d)),
        digit_value(digit_char(d)) == d,
{
    if d == 0 {
        assert(digit_char(d) == '0');
    } else if d == 1 {
        assert(digit_char(d) == '1');
    } else if d == 2 {
        assert(digit_char(d) == '2');
    } else if d == 3 {
        assert(digit_char(d) == '3');
    } else if d == 4 {
        assert(digit_char(d) == '4');
    } else if d == 5 {
        assert(digit_char(d) == '5');
    } else if d == 6 {
        assert(digit_char(d) == '6');
    } else if d == 7 {
        assert(digit_char(d) == '7');
    } else if d == 8 {
        assert(digit_char(d) == '8');
    } else {
        assert(digit_char(d) == '9');
    }
}

pub proof fn lemma_decimal(m: nat)
    ensures
        decimal(m).len() >= 1,
        forall|j: int| 0 <= j < decimal(m).len() ==> is_digit(#[trigger] decimal(m)[j]),
        digits_value(decimal(m)) == m,
    decreases m,
{
    if m < 10 {
        lemma_digit(m);
        assert(decimal(m).drop_last() =~= Seq::<char>::empty());
        assert(digits_value(Seq::<char>::empty()) == 0);
        assert(decimal(m).last() == digit_char(m));
    } else {
        lemma_decimal(m / 10);
        lemma_digit(m % 10);
        assert(decimal(m).drop_last() =~= decimal(m / 10));
        assert(decimal(m).last() == digit_char(m % 10));
        assert(digits_value(decimal(m)) == digits_value(decimal(m / 10)) * 10 + digit_value(digit_char(m % 10)));
        assert((m / 10) * 10 + m % 10 == m);
    }
}

pub proof fn lemma_p_number(n: i64, rest: Seq<char>)
    requires
        rest.len() == 0 || !is_digit(rest[0]),
    ensures
        p_number(signed_decimal(n) + rest) == Some((n, rest)),
{
    let s = signed_decimal(n) + rest;
    if n < 0 {
        let m = (-(n as int)) as nat;
        let d = decimal(m);
        lemma_decimal(m);
        assert(s =~= seq!['-'] + (d + rest));
        assert(s[0] == '-');
        assert forall|j: int| 1 <= j < 1 + d.len() implies is_digit(#[trigger] s[j]) by {
            assert(s[j] == d[j - 1]);
        }
        let e: int = 1 + d.len() as int;
        if rest.len() > 0 {
            assert(s[e] == rest[0]);
        }
        lemma_digits_end(s, 1, e);
        assert(s.subrange(1, e) =~= d);
        assert(after(s, e) =~= rest);
    } else {
        let m = n as nat;
        let d = decimal(m);
        lemma_decimal(m);
        assert(s =~= d + rest);
        assert(s[0] == d[0]);
        assert(s[0] != '-');
        assert forall|j: int| 0 <= j < d.len() implies is_digit(#[trigger] s[j]) by {
            assert(s[j] == d[j]);
        }
        if rest.len() > 0 {
            assert(s[d.len() as int] == rest[0]);
        }
        lemma_digits_end(s, 0, d.len() as int);
        assert(s.subrange(0, d.len() as int) =~= d);
        assert(after(s, d.len() as int) =~= rest);
    }
}


// ---------------------------------------------------------------------------
// Types read back.

pub proof fn lemma_ty_src_start(t: TyV)
    requires
        wf_ty(t),
    ensures
        ty_src(t).len() > 0,
        ty_src(t)[0] == '$' || is_name_start(ty_src(t)[0]),
{
}

pub proof fn lemma_fn_kw_is_name()
    ensures
        is_name(fn_kw()),
        is_name(cast_kw()),
{
    assert(is_name_char(fn_kw()[2]));
    assert(is_name_char(cast_kw()[2]));
    assert(is_name_char(cast_kw()[3]));
    assert(is_name_char(cast_kw()[4]));
}

pub proof fn lemma_p_ty(t: TyV, rest: Seq<char>)
    requires
        wf_ty(t),
        follow(rest),
    ensures
        p_ty(ty_src(t) + rest) == Some((t, rest)),
    decreases t,
{
    let text = ty_src(t) + rest;
    match t {
        TyV::Raw(name) => {
            lemma_p_name(name, rest);
            assert(text =~= name + rest);
            if rest.len() >= 2 {
                assert(rest.subrange(0, 2)[0] == rest[0]);
            }
        },
        TyV::Fun(ft) => {
            let ts = ft.param_tys;
            let ret = *ft.ret_ty;
            let jt = join(tys_parts(ts), comma());
            let r3 = arrow() + ty_src(ret) + seq![')'] + rest;
            let r1 = seq!['(', '('] + jt + r3;
            lemma_fn_kw_is_name();
            lemma_p_name(fn_kw(), r1);
            assert(text =~= fn_kw() + r1);
            assert(r1.subrange(0, 2) =~= seq!['(', '(']);
            assert(after(r1, 2) =~= jt + r3);
            assert(decreases_to!(t => ft));
            lemma_p_tys(ts, r3);
            assert(r3.subrange(0, 5) =~= arrow());
            assert(after(r3, 5) =~= ty_src(ret) + (seq![')'] + rest));
            lemma_p_ty(ret, seq![')'] + rest);
            assert((seq![')'] + rest).subrange(0, 1) =~= seq![')']);
            assert(after(seq![')'] + rest, 1) =~= rest);
            assert(ft == FunTyV { is_async: false, param_tys: ts, ret_ty: Box::new(ret) });
        },
    }
}

pub proof fn lemma_p_tys(ts: Seq<TyV>, rest: Seq<char>)
    requires
        forall|k: int| 0 <= k < ts.len() ==> wf_ty(#[trigger] ts[k]),
        rest.len() > 0 && rest[0] == ')',
    ensures
        p_tys(join(tys_parts(ts), comma()) + rest) == Some((ts, rest)),
    decreases ts,
{
    let text = join(tys_parts(ts), comma()) + rest;
    assert(rest.subrange(0, 1) =~= seq![')']);
    if ts.len() == 0 {
        assert(text =~= rest);
        assert(ts =~= Seq::<TyV>::empty());
    } else {
        let ts1 = ts.subrange(1, ts.len() as int);
        lemma_tys_parts(ts);
        lemma_tys_parts(ts1);
        lemma_join_front(tys_parts(ts), comma());
        assert(tys_parts(ts).subrange(1, ts.len() as int) =~= tys_parts(ts1));
        let jt1 = join_tail(tys_parts(ts1), comma());
        assert(text =~= ty_src(ts[0]) + (jt1 + rest));
        lemma_ty_src_start(ts[0]);
        assert(text[0] == ty_src(ts[0])[0]);
        assert(!starts_with(text, seq![')'])) by {
            if starts_with(text, seq![')']) {
                assert(text.subrange(0, 1)[0] == text[0]);
            }
        }
        if ts1.len() > 0 {
            assert((jt1 + rest)[0] == ',');
        } else {
            assert(jt1 + rest =~= rest);
        }
        lemma_p_ty(ts[0], jt1 + rest);
        lemma_p_tys_tail(ts1, rest);
        assert(seq![ts[0]] + ts1 =~= ts);
    }
}

pub proof fn lemma_p_tys_tail(ts: Seq<TyV>, rest: Seq<char>)
    requires
        forall|k: int| 0 <= k < ts.len() ==> wf_ty(#[trigger] ts[k]),
        rest.len() > 0 && rest[0] == ')',
    ensures
        p_tys_tail(join_tail(tys_parts(ts), comma()) + rest) == Some((ts, rest)),
    decreases ts,
{
    let text = join_tail(tys_parts(ts), comma()) + rest;
    if ts.len() == 0 {
        assert(text =~= rest);
        assert(!starts_with(rest, comma())) by {
            if starts_with(rest, comma()) {
                assert(rest.subrange(0, 2)[0] == rest[0]);
            }
        }
        assert(ts =~= Seq::<TyV>::empty());
    } else {
        let ts1 = ts.subrange(1, ts.len() as int);
        lemma_tys_parts(ts);
        lemma_tys_parts(ts1);
        assert(tys_parts(ts).subrange(1, ts.len() as int) =~= tys_parts(ts1));
        let jt1 = join_tail(tys_parts(ts1), comma());
        assert(text =~= comma() + (ty_src(ts[0]) + (jt1 + rest)));
        assert(text.subrange(0, 2) =~= comma());
        assert(after(text, 2) =~= ty_src(ts[0]) + (jt1 + rest));
        lemma_ty_src_start(ts[0]);
        if ts1.len() > 0 {
            assert((jt1 + rest)[0] == ',');
        } else {
            assert(jt1 + rest =~= rest);
        }
        lemma_p_ty(ts[0], jt1 + rest);
        lemma_p_tys_tail(ts1, rest);
        assert(seq![ts[0]] + ts1 =~= ts);
    }
}


// ---------------------------------------------------------------------------
// Expressions read back.

pub proof fn lemma_expr_src_start(e: ExprV)
    requires
        wf_expr(e),
    ensures
        expr_src(e).len() > 0,
        expr_src(e)[0] == '-' || is_digit(expr_src(e)[0]) || expr_src(e)[0] == '(' || expr_src(e)[0] == '$'
            || is_name_start(expr_src(e)[0]),
{
    match e {
        ExprV::Number(n) => {
            if n < 0 {
                lemma_decimal((-(n as int)) as nat);
            } else {
                lemma_decimal(n as nat);
            }
        },
        _ => {},
    }
}

#[verifier::rlimit(80)]
pub proof fn lemma_p_expr(e: ExprV, rest: Seq<char>)
    requires
        wf_expr(e),
        follow(rest),
    ensures
        p_expr(expr_src(e) + rest) == Some((e, rest)),
    decreases e,
{
    let text = expr_src(e) + rest;
    lemma_expr_src_start(e);
    assert(text[0] == expr_src(e)[0]);
    match e {
        ExprV::Number(n) => {
            if rest.len() > 0 {
                assert(!is_digit(rest[0]));
            }
            lemma_p_number(n, rest);
        },
        ExprV::VarRef(name) => {
            lemma_p_name(name, rest);
            if rest.len() > 0 {
                assert(!starts_with(rest, seq!['('])) by {
                    if starts_with(rest, seq!['(']) {
                        assert(rest.subrange(0, 1)[0] == rest[0]);
                    }
                }
            }
        },
        ExprV::OpCall(op, l, r) => {
            let tail = op_src(op) + expr_src(*r) + seq![')'] + rest;
            assert(text =~= seq!['('] + (expr_src(*l) + tail));
            assert(after(text, 1) =~= expr_src(*l) + tail);
            lemma_p_expr(*l, tail);
            assert(tail.subrange(0, 3) =~= op_src(op));
            assert(after(tail, 3) =~= expr_src(*r) + (seq![')'] + rest));
            lemma_p_expr(*r, seq![')'] + rest);
            assert((seq![')'] + rest).subrange(0, 1) =~= seq![')']);
            assert(after(seq![')'] + rest, 1) =~= rest);
            assert(tail[1] == op_src(op)[1]);
        },
        ExprV::FunCall(f, args) => {
            let a = join(args_parts(args), comma());
            let close = seq![')'] + rest;
            assert(close.subrange(0, 1) =~= seq![')']);
            assert(after(close, 1) =~= rest);
            lemma_p_args(args, close);
            match *f {
                ExprV::VarRef(name) => {
                    let r1 = seq!['('] + a + close;
                    assert(text =~= name + r1);
                    lemma_p_name(name, r1);
                    assert(r1.subrange(0, 1) =~= seq!['(']);
                    assert(after(r1, 1) =~= a + close);
                },
                _ => {
                    let r1 = seq![')', '('] + a + close;
                    assert(text =~= seq!['('] + (expr_src(*f) + r1));
                    assert(after(text, 1) =~= expr_src(*f) + r1);
                    lemma_p_expr(*f, r1);
                    assert(r1.subrange(0, 2) =~= seq![')', '(']);
                    assert(!starts_with(r1, op_src(BinOp::Add)) && !starts_with(r1, op_src(BinOp::Sub))) by {
                        if starts_with(r1, op_src(BinOp::Add)) || starts_with(r1, op_src(BinOp::Sub)) {
                            assert(r1.subrange(0, 3)[0] == r1[0]);
                        }
                    }
                    assert(after(r1, 2) =~= a + close);
                },
            }
        },
        ExprV::Cast(x, t) => {
            let r2 = seq![' ', 'a', 's', ' '] + ty_src(t) + seq![')'] + rest;
            let r1 = seq!['('] + expr_src(*x) + r2;
            lemma_fn_kw_is_name();
            assert(text =~= cast_kw() + r1);
            lemma_p_name(cast_kw(), r1);
            assert(r1.subrange(0, 1) =~= seq!['(']);
            assert(after(r1, 1) =~= expr_src(*x) + r2);
            lemma_p_expr(*x, r2);
            assert(r2.subrange(0, 4) =~= seq![' ', 'a', 's', ' ']);
            assert(after(r2, 4) =~= ty_src(t) + (seq![')'] + rest));
            lemma_p_ty(t, seq![')'] + rest);
            assert((seq![')'] + rest).subrange(0, 1) =~= seq![')']);
            assert(after(seq![')'] + rest, 1) =~= rest);
        },
        _ => {},
    }
}

pub proof fn lemma_p_args(args: Seq<ExprV>, rest: Seq<char>)
    requires
        forall|k: int| 0 <= k < args.len() ==> wf_expr(#[trigger] args[k]),
        rest.len() > 0 && rest[0] == ')',
    ensures
        p_args(join(args_parts(args), comma()) + rest) == Some((args, rest)),
    decreases args,
{
    let text = join(args_parts(args), comma()) + rest;
    assert(rest.subrange(0, 1) =~= seq![')']);
    if args.len() == 0 {
        assert(text =~= rest);
        assert(args =~= Seq::<ExprV>::empty());
    } else {
        let a1 = args.subrange(1, args.len() as int);
        lemma_args_parts(args);
        lemma_args_parts(a1);
        lemma_join_front(args_parts(args), comma());
        assert(args_parts(args).subrange(1, args.len() as int) =~= args_parts(a1));
        let jt1 = join_tail(args_parts(a1), comma());
        assert(text =~= expr_src(args[0]) + (jt1 + rest));
        lemma_expr_src_start(args[0]);
        assert(text[0] == expr_src(args[0])[0]);
        assert(!starts_with(text, seq![')'])) by {
            if starts_with(text, seq![')']) {
                assert(text.subrange(0, 1)[0] == text[0]);
            }
        }
        if a1.len() > 0 {
            assert((jt1 + rest)[0] == ',');
        } else {
            assert(jt1 + rest =~= rest);
        }
        lemma_p_expr(args[0], jt1 + rest);
        lemma_p_args_tail(a1, rest);
        assert(seq![args[0]] + a1 =~= args);
    }
}

pub proof fn lemma_p_args_tail(args: Seq<ExprV>, rest: Seq<char>)
    requires
        forall|k: int| 0 <= k < args.len() ==> wf_expr(#[trigger] args[k]),
        rest.len() > 0 && rest[0] == ')',
    ensures
        p_args_tail(join_tail(args_parts(args), comma()) + rest) == Some((args, rest)),
    decreases args,
{
    let text = join_tail(args_parts(args), comma()) + rest;
    if args.len() == 0 {
        assert(text =~= rest);
        assert(!starts_with(rest, comma())) by {
            if starts_with(rest, comma()) {
                assert(rest.subrange(0, 2)[0] == rest[0]);
            }
        }
        assert(args =~= Seq::<ExprV>::empty());
    } else {
        let a1 = args.subrange(1, args.len() as int);
        lemma_args_parts(args);
        lemma_args_parts(a1);
        assert(args_parts(args).subrange(1, args.len() as int) =~= args_parts(a1));
        let jt1 = join_tail(args_parts(a1), comma());
        assert(text =~= comma() + (expr_src(args[0]) + (jt1 + rest)));
        assert(text.subrange(0, 2) =~= comma());
        assert(after(text, 2) =~= expr_src(args[0]) + (jt1 + rest));
        if a1.len() > 0 {
            assert((jt1 + rest)[0] == ',');
        } else {
            assert(jt1 + rest =~= rest);
        }
        lemma_p_expr(args[0], jt1 + rest);
        lemma_p_args_tail(a1, rest);
        assert(seq![args[0]] + a1 =~= args);
    }
}


// ---------------------------------------------------------------------------
// Declarations read back.

pub proof fn lemma_p_param(p: ParamV, rest: Seq<char>)
    requires
        wf_param(p),
        rest.len() > 0 && (rest[0] == ',' || rest[0] == ')'),
    ensures
        p_param(param_src(p) + rest) == Some((p, rest)),
{
    let r1 = seq![' '] + p.name + rest;
    assert(param_src(p) + rest =~= ty_src(p.ty) + r1);
    lemma_p_ty(p.ty, r1);
    assert(r1.subrange(0, 1) =~= seq![' ']);
    assert(after(r1, 1) =~= p.name + rest);
    lemma_p_name(p.name, rest);
}

pub proof fn lemma_p_params_tail(ps: Seq<ParamV>, rest: Seq<char>)
    requires
        wf_params(ps),
        rest.len() > 0 && rest[0] == ')',
    ensures
        p_params_tail(join_tail(params_parts(ps), comma()) + rest) == Some((ps, rest)),
    decreases ps.len(),
{
    let text = join_tail(params_parts(ps), comma()) + rest;
    if ps.len() == 0 {
        assert(text =~= rest);
        assert(!starts_with(rest, comma())) by {
            if starts_with(rest, comma()) {
                assert(rest.subrange(0, 2)[0] == rest[0]);
            }
        }
        assert(ps =~= Seq::<ParamV>::empty());
    } else {
        let ps1 = ps.subrange(1, ps.len() as int);
        lemma_params_parts(ps);
        lemma_params_parts(ps1);
        assert(params_parts(ps).subrange(1, ps.len() as int) =~= params_parts(ps1));
        let jt1 = join_tail(params_parts(ps1), comma());
        assert(text =~= comma() + (param_src(ps[0]) + (jt1 + rest)));
        assert(text.subrange(0, 2) =~= comma());
        assert(after(text, 2) =~= param_src(ps[0]) + (jt1 + rest));
        if ps1.len() > 0 {
            assert((jt1 + rest)[0] == ',');
        } else {
            assert(jt1 + rest =~= rest);
        }
        lemma_p_param(ps[0], jt1 + rest);
        assert(param_src(ps[0]).len() > 0) by {
            lemma_ty_src_start(ps[0].ty);
        }
        assert(wf_params(ps1)) by {
            assert forall|k: int| 0 <= k < ps1.len() implies wf_param(#[trigger] ps1[k]) by {
                assert(ps1[k] == ps[k + 1]);
            }
        }
        lemma_p_params_tail(ps1, rest);
        assert(seq![ps[0]] + ps1 =~= ps);
    }
}

pub proof fn lemma_p_params(ps: Seq<ParamV>, rest: Seq<char>)
    requires
        wf_params(ps),
        rest.len() > 0 && rest[0] == ')',
    ensures
        p_params(join(params_parts(ps), comma()) + rest) == Some((ps, rest)),
{
    let text = join(params_parts(ps), comma()) + rest;
    assert(rest.subrange(0, 1) =~= seq![')']);
    if ps.len() == 0 {
        assert(text =~= rest);
        assert(ps =~= Seq::<ParamV>::empty());
    } else {
        let ps1 = ps.subrange(1, ps.len() as int);
        lemma_params_parts(ps);
        lemma_params_parts(ps1);
        lemma_join_front(params_parts(ps), comma());
        assert(params_parts(ps).subrange(1, ps.len() as int) =~= params_parts(ps1));
        let jt1 = join_tail(params_parts(ps1), comma());
        assert(text =~= param_src(ps[0]) + (jt1 + rest));
        lemma_ty_src_start(ps[0].ty);
        assert(text[0] == ty_src(ps[0].ty)[0]);
        assert(!starts_with(text, seq![')'])) by {
            if starts_with(text, seq![')']) {
                assert(text.subrange(0, 1)[0] == text[0]);
            }
        }
        if ps1.len() > 0 {
            assert((jt1 + rest)[0] == ',');
        } else {
            assert(jt1 + rest =~= rest);
        }
        lemma_p_param(ps[0], jt1 + rest);
        assert(wf_params(ps1)) by {
            assert forall|k: int| 0 <= k < ps1.len() implies wf_param(#[trigger] ps1[k]) by {
                assert(ps1[k] == ps[k + 1]);
            }
        }
        lemma_p_params_tail(ps1, rest);
        assert(seq![ps[0]] + ps1 =~= ps);
    }
}

pub proof fn lemma_p_head(name: Seq<char>, ps: Seq<ParamV>, t: TyV, rest: Seq<char>)
    requires
        is_name(name),
        wf_params(ps),
        wf_ty(t),
        follow(rest),
    ensures
        p_head(head_src(name, ps, t) + rest) == Some((name, ps, t, rest)),
{
    let r2 = arrow() + ty_src(t) + rest;
    let r1 = seq!['('] + join(params_parts(ps), comma()) + r2;
    assert(head_src(name, ps, t) + rest =~= name + r1);
    lemma_p_name(name, r1);
    assert(r1.subrange(0, 1) =~= seq!['(']);
    assert(after(r1, 1) =~= join(params_parts(ps), comma()) + r2);
    lemma_p_params(ps, r2);
    assert(r2.subrange(0, 5) =~= arrow());
    assert(after(r2, 5) =~= ty_src(t) + rest);
    lemma_p_ty(t, rest);
}

pub proof fn lemma_p_stmts(ss: Seq<ExprV>, rest: Seq<char>)
    requires
        forall|k: int| 0 <= k < ss.len() ==> wf_expr(#[trigger] ss[k]),
        rest.len() > 0 && rest[0] == '}',
    ensures
        p_stmts(join_tail(stmts_parts(ss), Seq::empty()) + rest) == Some((ss, rest)),
    decreases ss.len(),
{
    let text = join_tail(stmts_parts(ss), Seq::empty()) + rest;
    if ss.len() == 0 {
        assert(text =~= rest);
        assert(!starts_with(rest, seq![' ', ' '])) by {
            if starts_with(rest, seq![' ', ' ']) {
                assert(rest.subrange(0, 2)[0] == rest[0]);
            }
        }
        assert(ss =~= Seq::<ExprV>::empty());
    } else {
        let s1 = ss.subrange(1, ss.len() as int);
        lemma_stmts_parts(ss);
        lemma_stmts_parts(s1);
        assert(stmts_parts(ss).subrange(1, ss.len() as int) =~= stmts_parts(s1));
        let jt1 = join_tail(stmts_parts(s1), Seq::empty());
        let r1 = seq![';', '\n'] + (jt1 + rest);
        assert(text =~= seq![' ', ' '] + (expr_src(ss[0]) + r1));
        assert(text.subrange(0, 2) =~= seq![' ', ' ']);
        assert(after(text, 2) =~= expr_src(ss[0]) + r1);
        lemma_p_expr(ss[0], r1);
        assert(r1.subrange(0, 2) =~= seq![';', '\n']);
        assert(after(r1, 2) =~= jt1 + rest);
        lemma_p_stmts(s1, rest);
        assert(seq![ss[0]] + s1 =~= ss);
    }
}

pub proof fn lemma_join_empty_sep(p: Seq<Seq<char>>)
    ensures
        join(p, Seq::empty()) == join_tail(p, Seq::empty()),
{
    if p.len() > 0 {
        lemma_join_front(p, Seq::empty());
        assert(join_tail(p, Seq::empty()) =~= p[0] + join_tail(p.subrange(1, p.len() as int), Seq::empty()));
    }
}

pub proof fn lemma_p_function(f: FunctionV, rest: Seq<char>)
    requires
        wf_decl(DeclarationV::Function(f)),
    ensures
        p_decl(function_src(f) + rest) == Some((DeclarationV::Function(f), rest)),
{
    let text = function_src(f) + rest;
    lemma_join_empty_sep(stmts_parts(f.body_stmts));
    let st = join_tail(stmts_parts(f.body_stmts), Seq::empty());
    let r2 = seq!['}', '\n'] + rest;
    let r1 = seq![' ', '{', '\n'] + st + r2;
    assert(text =~= func_kw() + (head_src(f.name, f.params, f.ret_ty) + r1));
    assert(text.subrange(0, 5) =~= func_kw());
    assert(after(text, 5) =~= head_src(f.name, f.params, f.ret_ty) + r1);
    lemma_p_head(f.name, f.params, f.ret_ty, r1);
    assert(r1.subrange(0, 3) =~= seq![' ', '{', '\n']);
    assert(after(r1, 3) =~= st + r2);
    lemma_p_stmts(f.body_stmts, r2);
    assert(r2.subrange(0, 2) =~= seq!['}', '\n']);
    assert(after(r2, 2) =~= rest);
}

/// The text of a head does not begin with the async mark.
pub proof fn lemma_head_not_async(name: Seq<char>, ps: Seq<ParamV>, t: TyV, rest: Seq<char>)
    requires
        is_name(name),
    ensures
        !starts_with(head_src(name, ps, t) + rest, async_kw()),
{
    let text = head_src(name, ps, t) + rest;
    if starts_with(text, async_kw()) {
        let k: int = if name.len() < 5 {
            name.len() as int
        } else {
            5
        };
        assert(text.subrange(0, 6)[k] == text[k]);
        if name.len() <= 5 {
            assert(text[name.len() as int] == '(');
        } else {
            assert(text[5] == name[5]);
            assert(name_start(name) < 5);
        }
    }
}

pub proof fn lemma_p_extern(x: ExternV, rest: Seq<char>)
    requires
        wf_decl(DeclarationV::Extern(x)),
    ensures
        p_decl(extern_src(x) + rest) == Some((DeclarationV::Extern(x), rest)),
{
    let text = extern_src(x) + rest;
    let r1 = seq![';', '\n'] + rest;
    let hd = head_src(x.name, x.params, x.ret_ty) + r1;
    let mark = if x.is_async {
        async_kw()
    } else {
        Seq::empty()
    };
    assert(text =~= extern_kw() + (mark + hd));
    assert(!starts_with(text, func_kw())) by {
        if starts_with(text, func_kw()) {
            assert(text.subrange(0, 5)[0] == text[0]);
        }
    }
    assert(text.subrange(0, 7) =~= extern_kw());
    assert(after(text, 7) =~= mark + hd);
    if x.is_async {
        assert((mark + hd).subrange(0, 6) =~= async_kw());
        assert(after(mark + hd, 6) =~= hd);
    } else {
        assert(mark + hd =~= hd);
        lemma_head_not_async(x.name, x.params, x.ret_ty, r1);
    }
    lemma_p_head(x.name, x.params, x.ret_ty, r1);
    assert(r1.subrange(0, 2) =~= seq![';', '\n']);
    assert(after(r1, 2) =~= rest);
}

pub proof fn lemma_p_decl(d: DeclarationV, rest: Seq<char>)
    requires
        wf_decl(d),
    ensures
        p_decl(decl_src(d) + rest) == Some((d, rest)),
{
    match d {
        DeclarationV::Function(f) => lemma_p_function(f, rest),
        DeclarationV::Extern(x) => lemma_p_extern(x, rest),
    }
}

pub proof fn lemma_p_decls(ds: Seq<DeclarationV>)
    requires
        wf_decls(ds),
    ensures
        p_decls(join_tail(decls_parts(ds), Seq::empty())) == Some(ds),
    decreases ds.len(),
{
    let text = join_tail(decls_parts(ds), Seq::empty());
    if ds.len() == 0 {
        assert(ds =~= Seq::<DeclarationV>::empty());
    } else {
        let d1 = ds.subrange(1, ds.len() as int);
        lemma_decls_parts(ds);
        lemma_decls_parts(d1);
        assert(decls_parts(ds).subrange(1, ds.len() as int) =~= decls_parts(d1));
        let jt1 = join_tail(decls_parts(d1), Seq::empty());
        assert(text =~= decl_src(ds[0]) + jt1);
        lemma_p_decl(ds[0], jt1);
        assert(decl_src(ds[0]).len() > 0);
        assert(wf_decls(d1)) by {
            assert forall|k: int| 0 <= k < d1.len() implies wf_decl(#[trigger] d1[k]) by {
                assert(d1[k] == ds[k + 1]);
            }
        }
        lemma_p_decls(d1);
        assert(seq![ds[0]] + d1 =~= ds);
    }
}

/// Printing and parsing are inverse on every program of the printable
/// subset: parsing the text of `ds` gives `ds` back.
pub proof fn law_print_parse_round_trip(ds: Seq<DeclarationV>)
    requires
        wf_decls(ds),
    ensures
        p_decls(decls_src(ds)) == Some(ds),
{
    lemma_join_empty_sep(decls_parts(ds));
    lemma_p_decls(ds);
}

} // verus!
