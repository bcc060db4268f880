use vstd::prelude::*;
use crate::ast::{
    BinOp, Declaration, DeclarationV, Expr, ExprV, Extern, ExternV, Function, FunctionV, Param, ParamV, Ty, TyV,
    decls_view, exprs_view, params_view, tys_view,
};
use crate::names::{push_signed_decimal, signed_decimal};

verus! {

// ---------------------------------------------------------------------------
// The textual form of a program.

/// `parts` one after another, with `sep` between two neighbours.
pub open spec fn join(parts: Seq<Seq<char>>, sep: Seq<char>) -> Seq<char>
    decreases parts.len(),
{
    if parts.len() == 0 {
        Seq::empty()
    } else if parts.len() == 1 {
        parts[0]
    } else {
        join(parts.drop_last(), sep) + sep + parts.last()
    }
}

pub open spec fn comma() -> Seq<char> {
    seq![',', ' ']
}

/// A type: its name, or `$FN((A, B) -> R)`.
pub open spec fn ty_src(t: TyV) -> Seq<char>
    decreases t,
{
    match t {
        TyV::Raw(n) => n,
        TyV::Fun(ft) => seq!['$', 'F', 'N', '(', '('] + join(tys_parts(ft.param_tys), comma()) + seq![
            ')',
            ' ',
            '-',
            '>',
            ' ',
        ] + ty_src(*ft.ret_ty) + seq![')'],
    }
}

/// The text of each type.
pub open spec fn tys_parts(ts: Seq<TyV>) -> Seq<Seq<char>>
    decreases ts,
{
    if ts.len() == 0 {
        Seq::empty()
    } else {
        tys_parts(ts.subrange(0, ts.len() - 1)).push(ty_src(ts[ts.len() - 1]))
    }
}

/// Types separated by `, `.
pub open spec fn tys_src(ts: Seq<TyV>) -> Seq<char> {
    join(tys_parts(ts), comma())
}

pub open spec fn op_src(op: BinOp) -> Seq<char> {
    match op {
        BinOp::Add => seq![' ', '+', ' '],
        BinOp::Sub => seq![' ', '-', ' '],
    }
}

/// An expression. Operations are parenthesised; a callee that is not a name
/// is too.
pub open spec fn expr_src(e: ExprV) -> Seq<char>
    decreases e,
{
    match e {
        ExprV::Number(n) => signed_decimal(n),
        ExprV::VarRef(s) => s,
        ExprV::OpCall(op, l, r) => seq!['('] + expr_src(*l) + op_src(op) + expr_src(*r) + seq![')'],
        ExprV::FunCall(f, args) => (match *f {
            ExprV::VarRef(s) => s,
            _ => seq!['('] + expr_src(*f) + seq![')'],
        }) + seq!['('] + join(args_parts(args), comma()) + seq![')'],
        ExprV::Cast(x, t) => seq!['$', 'C', 'A', 'S', 'T', '('] + expr_src(*x) + seq![' ', 'a', 's', ' '] + ty_src(t)
            + seq![')'],
        ExprV::Alloc(s) => seq!['a', 'l', 'l', 'o', 'c', ' '] + s,
        ExprV::Assign(s, x) => s + seq![' ', '=', ' '] + expr_src(*x),
    }
}

/// The text of each argument.
pub open spec fn args_parts(args: Seq<ExprV>) -> Seq<Seq<char>>
    decreases args,
{
    if args.len() == 0 {
        Seq::empty()
    } else {
        args_parts(args.subrange(0, args.len() - 1)).push(expr_src(args[args.len() - 1]))
    }
}

/// Call arguments separated by `, `.
pub open spec fn args_src(args: Seq<ExprV>) -> Seq<char> {
    join(args_parts(args), comma())
}

/// A parameter: its type, a space, its name.
pub open spec fn param_src(p: ParamV) -> Seq<char> {
    ty_src(p.ty) + seq![' '] + p.name
}

pub open spec fn params_parts(ps: Seq<ParamV>) -> Seq<Seq<char>>
    decreases ps.len(),
{
    if ps.len() == 0 {
        Seq::empty()
    } else {
        params_parts(ps.drop_last()).push(param_src(ps.last()))
    }
}

pub open spec fn params_src(ps: Seq<ParamV>) -> Seq<char> {
    join(params_parts(ps), comma())
}

/// A statement on a line of its own, indented by two spaces and ended by `;`.
pub open spec fn stmt_src(e: ExprV) -> Seq<char> {
    seq![' ', ' '] + expr_src(e) + seq![';', '\n']
}

pub open spec fn stmts_parts(ss: Seq<ExprV>) -> Seq<Seq<char>>
    decreases ss.len(),
{
    if ss.len() == 0 {
        Seq::empty()
    } else {
        stmts_parts(ss.drop_last()).push(stmt_src(ss.last()))
    }
}

pub open spec fn stmts_src(ss: Seq<ExprV>) -> Seq<char> {
    join(stmts_parts(ss), Seq::empty())
}

/// `name(params) -> ret`.
pub open spec fn head_src(name: Seq<char>, ps: Seq<ParamV>, ret: TyV) -> Seq<char> {
    name + seq!['('] + params_src(ps) + seq![')', ' ', '-', '>', ' '] + ty_src(ret)
}

pub open spec fn function_src(f: FunctionV) -> Seq<char> {
    seq!['f', 'u', 'n', 'c', ' '] + head_src(f.name, f.params, f.ret_ty) + seq![' ', '{', '\n'] + stmts_src(
        f.body_stmts,
    ) + seq!['}', '\n']
}

pub open spec fn extern_src(x: ExternV) -> Seq<char> {
    seq!['e', 'x', 't', 'e', 'r', 'n', ' '] + (if x.is_async {
        seq!['a', 's', 'y', 'n', 'c', ' ']
    } else {
        Seq::empty()
    }) + head_src(x.name, x.params, x.ret_ty) + seq![';', '\n']
}

pub open spec fn decl_src(d: DeclarationV) -> Seq<char> {
    match d {
        DeclarationV::Extern(x) => extern_src(x),
        DeclarationV::Function(f) => function_src(f),
    }
}

pub open spec fn decls_parts(ds: Seq<DeclarationV>) -> Seq<Seq<char>>
    decreases ds.len(),
{
    if ds.len() == 0 {
        Seq::empty()
    } else {
        decls_parts(ds.drop_last()).push(decl_src(ds.last()))
    }
}

/// A program: its declarations one after another.
pub open spec fn decls_src(ds: Seq<DeclarationV>) -> Seq<char> {
    join(decls_parts(ds), Seq::empty())
}

/// Adding one more part to a joined list.
pub proof fn lemma_join_push(parts: Seq<Seq<char>>, sep: Seq<char>, x: Seq<char>)
    ensures
        join(parts.push(x), sep) == join(parts, sep) + (if parts.len() == 0 {
            Seq::empty()
        } else {
            sep
        }) + x,
{
    assert(parts.push(x).drop_last() =~= parts);
    if parts.len() == 0 {
        assert(Seq::<char>::empty() + Seq::<char>::empty() + x =~= x);
    }
}

// ---------------------------------------------------------------------------
// Printing.

/// Appends the characters of `lit`.
fn push_lit(s: &mut String, lit: &str)
    ensures
        final(s)@ == old(s)@ + lit@,
{
    s.append(lit);
}

fn push_ty(s: &mut String, t: &Ty)
    ensures
        final(s)@ == old(s)@ + ty_src(t@),
    decreases t,
{
    match t {
        Ty::Raw(n) => {
            push_lit(s, n.as_str());
        },
        Ty::Fun(ft) => {
            proof {
                reveal_strlit("$FN((");
                reveal_strlit(") -> ");
                reveal_strlit(")");
                crate::ast::lemma_fun_ty_view_params(*ft);
            }
            push_lit(s, "$FN((");
            push_tys(s, &ft.param_tys);
            push_lit(s, ") -> ");
            push_ty(s, &ft.ret_ty);
            push_lit(s, ")");
            assert(final(s)@ =~= old(s)@ + ty_src(t@));
        },
    }
}

fn push_tys(s: &mut String, ts: &Vec<Ty>)
    ensures
        final(s)@ == old(s)@ + tys_src(tys_view(ts@)),
    decreases ts,
{
    let ghost start = s@;
    let ghost tv = tys_view(ts@);
    let mut i: usize = 0;
    proof {
        reveal_strlit(", ");
    }
    assert(tys_parts(tv.subrange(0, 0)) =~= Seq::<Seq<char>>::empty());
    while i < ts.len()
        invariant
            i <= ts.len(),
            tv == tys_view(ts@),
            s@ == start + join(tys_parts(tv.subrange(0, i as int)), comma()),
        decreases ts.len() - i,
    {
        proof {
            assert(decreases_to!(*ts => ts[i as int]));
        }
        proof {
            reveal_strlit(", ");
        }
        if i > 0 {
            push_lit(s, ", ");
        }
        push_ty(s, &ts[i]);
        proof {
            let ghost sub = tv.subrange(0, i + 1);
            assert(sub.subrange(0, i as int) =~= tv.subrange(0, i as int));
            assert(sub.drop_last() =~= tv.subrange(0, i as int));
            lemma_join_push(tys_parts(tv.subrange(0, i as int)), comma(), tys_parts(sub).last());
        }
        assert(s@ =~= start + join(tys_parts(tv.subrange(0, i + 1)), comma()));
        i = i + 1;
    }
    assert(tv.subrange(0, i as int) =~= tv);
}

fn push_expr(s: &mut String, e: &Expr)
    ensures
        final(s)@ == old(s)@ + expr_src(e@),
    decreases e,
{
    proof {
        reveal_strlit("(");
        reveal_strlit(")");
        reveal_strlit(" + ");
        reveal_strlit(" - ");
        reveal_strlit("$CAST(");
        reveal_strlit(" as ");
        reveal_strlit("alloc ");
        reveal_strlit(" = ");
    }
    match e {
        Expr::Number(n) => {
            push_signed_decimal(s, *n);
        },
        Expr::VarRef(name) => {
            push_lit(s, name.as_str());
        },
        Expr::OpCall(op, l, r) => {
            push_lit(s, "(");
            push_expr(s, l);
            match op {
                BinOp::Add => push_lit(s, " + "),
                BinOp::Sub => push_lit(s, " - "),
            }
            push_expr(s, r);
            push_lit(s, ")");
            assert(final(s)@ =~= old(s)@ + expr_src(e@));
        },
        Expr::FunCall(f, args) => {
            proof {
                crate::compiler::lemma_funcall_view(*f, *args);
            }
            match &**f {
                Expr::VarRef(name) => {
                    push_lit(s, name.as_str());
                },
                _ => {
                    push_lit(s, "(");
                    push_expr(s, f);
                    push_lit(s, ")");
                },
            }
            push_lit(s, "(");
            push_args(s, args);
            push_lit(s, ")");
            assert(final(s)@ =~= old(s)@ + expr_src(e@));
        },
        Expr::Cast(x, t) => {
            push_lit(s, "$CAST(");
            push_expr(s, x);
            push_lit(s, " as ");
            push_ty(s, t);
            push_lit(s, ")");
            assert(final(s)@ =~= old(s)@ + expr_src(e@));
        },
        Expr::Alloc(name) => {
            push_lit(s, "alloc ");
            push_lit(s, name.as_str());
            assert(final(s)@ =~= old(s)@ + expr_src(e@));
        },
        Expr::Assign(name, x) => {
            push_lit(s, name.as_str());
            push_lit(s, " = ");
            push_expr(s, x);
            assert(final(s)@ =~= old(s)@ + expr_src(e@));
        },
    }
}

fn push_args(s: &mut String, args: &Vec<Expr>)
    ensures
        final(s)@ == old(s)@ + args_src(exprs_view(args@)),
    decreases args,
{
    let ghost start = s@;
    let ghost av = exprs_view(args@);
    let mut i: usize = 0;
    proof {
        reveal_strlit(", ");
    }
    assert(args_parts(av.subrange(0, 0)) =~= Seq::<Seq<char>>::empty());
    while i < args.len()
        invariant
            i <= args.len(),
            av == exprs_view(args@),
            s@ == start + join(args_parts(av.subrange(0, i as int)), comma()),
        decreases args.len() - i,
    {
        proof {
            assert(decreases_to!(*args => args[i as int]));
        }
        proof {
            reveal_strlit(", ");
        }
        if i > 0 {
            push_lit(s, ", ");
        }
        push_expr(s, &args[i]);
        proof {
            let ghost sub = av.subrange(0, i + 1);
            assert(sub.subrange(0, i as int) =~= av.subrange(0, i as int));
            assert(sub.drop_last() =~= av.subrange(0, i as int));
            lemma_join_push(args_parts(av.subrange(0, i as int)), comma(), args_parts(sub).last());
        }
        assert(s@ =~= start + join(args_parts(av.subrange(0, i + 1)), comma()));
        i = i + 1;
    }
    assert(av.subrange(0, i as int) =~= av);
}

fn push_params(s: &mut String, ps: &Vec<Param>)
    ensures
        final(s)@ == old(s)@ + params_src(params_view(ps@)),
{
    let ghost start = s@;
    let ghost pv = params_view(ps@);
    let mut i: usize = 0;
    proof {
        reveal_strlit(", ");
        reveal_strlit(" ");
    }
    assert(params_parts(pv.subrange(0, 0)) =~= Seq::<Seq<char>>::empty());
    while i < ps.len()
        invariant
            i <= ps.len(),
            pv == params_view(ps@),
            s@ == start + join(params_parts(pv.subrange(0, i as int)), comma()),
        decreases ps.len() - i,
    {
        proof {
            reveal_strlit(", ");
        }
        proof {
            reveal_strlit(" ");
        }
        if i > 0 {
            push_lit(s, ", ");
        }
        push_ty(s, &ps[i].ty);
        push_lit(s, " ");
        push_lit(s, ps[i].name.as_str());
        proof {
            let ghost sub = pv.subrange(0, i + 1);
            assert(sub.subrange(0, i as int) =~= pv.subrange(0, i as int));
            assert(sub.drop_last() =~= pv.subrange(0, i as int));
            lemma_join_push(params_parts(pv.subrange(0, i as int)), comma(), params_parts(sub).last());
        }
        assert(s@ =~= start + join(params_parts(pv.subrange(0, i + 1)), comma()));
        i = i + 1;
    }
    assert(pv.subrange(0, i as int) =~= pv);
}

fn push_head(s: &mut String, name: &String, ps: &Vec<Param>, ret: &Ty)
    ensures
        final(s)@ == old(s)@ + head_src(name@, params_view(ps@), ret@),
{
    proof {
        reveal_strlit("(");
        reveal_strlit(") -> ");
    }
    push_lit(s, name.as_str());
    push_lit(s, "(");
    push_params(s, ps);
    push_lit(s, ") -> ");
    push_ty(s, ret);
    assert(final(s)@ =~= old(s)@ + head_src(name@, params_view(ps@), ret@));
}

fn push_function(s: &mut String, f: &Function)
    ensures
        final(s)@ == old(s)@ + function_src(f@),
{
    proof {
        reveal_strlit("func ");
        reveal_strlit(" {\n");
        reveal_strlit("  ");
        reveal_strlit(";\n");
        reveal_strlit("}\n");
    }
    push_lit(s, "func ");
    push_head(s, &f.name, &f.params, &f.ret_ty);
    push_lit(s, " {\n");
    let ghost start = s@;
    let ghost sv = exprs_view(f.body_stmts@);
    let mut i: usize = 0;
    assert(stmts_parts(sv.subrange(0, 0)) =~= Seq::<Seq<char>>::empty());
    while i < f.body_stmts.len()
        invariant
            i <= f.body_stmts.len(),
            sv == exprs_view(f.body_stmts@),
            s@ == start + join(stmts_parts(sv.subrange(0, i as int)), Seq::empty()),
        decreases f.body_stmts.len() - i,
    {
        proof {
            reveal_strlit("  ");
            reveal_strlit(";\n");
        }
        push_lit(s, "  ");
        push_expr(s, &f.body_stmts[i]);
        push_lit(s, ";\n");
        proof {
            let ghost sub = sv.subrange(0, i + 1);
            assert(sub.subrange(0, i as int) =~= sv.subrange(0, i as int));
            assert(sub.drop_last() =~= sv.subrange(0, i as int));
            lemma_join_push(stmts_parts(sv.subrange(0, i as int)), Seq::empty(), stmts_parts(sub).last());
        }
        assert(s@ =~= start + join(stmts_parts(sv.subrange(0, i + 1)), Seq::empty()));
        i = i + 1;
    }
    assert(sv.subrange(0, i as int) =~= sv);
    push_lit(s, "}\n");
    assert(final(s)@ =~= old(s)@ + function_src(f@));
}

fn push_extern(s: &mut String, x: &Extern)
    ensures
        final(s)@ == old(s)@ + extern_src(x@),
{
    proof {
        reveal_strlit("extern ");
        reveal_strlit("async ");
        reveal_strlit(";\n");
    }
    push_lit(s, "extern ");
    if x.is_async {
        push_lit(s, "async ");
    }
    push_head(s, &x.name, &x.params, &x.ret_ty);
    push_lit(s, ";\n");
    assert(final(s)@ =~= old(s)@ + extern_src(x@));
}

/// The textual form of a program.
pub fn to_source(ast: Vec<Declaration>) -> (r: String)
    ensures
        r@ == decls_src(decls_view(ast@)),
{
    let mut s = String::new();
    let ghost dv = decls_view(ast@);
    let mut i: usize = 0;
    assert(decls_parts(dv.subrange(0, 0)) =~= Seq::<Seq<char>>::empty());
    while i < ast.len()
        invariant
            i <= ast.len(),
            dv == decls_view(ast@),
            s@ == join(decls_parts(dv.subrange(0, i as int)), Seq::empty()),
        decreases ast.len() - i,
    {
        match &ast[i] {
            Declaration::Extern(x) => push_extern(&mut s, x),
            Declaration::Function(f) => push_function(&mut s, f),
        }
        proof {
            let ghost sub = dv.subrange(0, i + 1);
            assert(sub.subrange(0, i as int) =~= dv.subrange(0, i as int));
            assert(sub.drop_last() =~= dv.subrange(0, i as int));
            lemma_join_push(decls_parts(dv.subrange(0, i as int)), Seq::empty(), decls_parts(sub).last());
        }
        assert(s@ =~= join(decls_parts(dv.subrange(0, i + 1)), Seq::empty()));
        i = i + 1;
    }
    assert(dv.subrange(0, i as int) =~= dv);
    s
}

} // verus!
