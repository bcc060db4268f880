use vstd::prelude::*;
use crate::ast::{
    BinOp, Declaration, DeclarationV, Expr, ExprV, Extern, FunTy, Function, Param, Ty, decls_view, exprs_view,
    params_view, tys_view,
};
use crate::names::push_char;
use crate::value::str_eq;
use crate::parser::{
    after, digit_value, digits_end, digits_value, is_digit, is_name_char, is_name_start, name_end, p_args,
    p_args_tail, p_decl, p_decls, p_expr, p_head, p_name, p_number, p_param, p_params, p_params_tail, p_stmts, p_ty,
    p_tys, p_tys_tail, starts_with, decls_failure,
};

verus! {

/// Why a text could not be read: the offset of the declaration that does not
/// have the expected form.
#[derive(PartialEq, Eq, Structural, Debug, Clone, Copy)]
pub struct ParseError {
    pub offset: usize,
}

pub proof fn lemma_after(s: Seq<char>, a: int, b: int)
    requires
        0 <= a,
        0 <= b,
        a + b <= s.len(),
    ensures
        after(after(s, a), b) == after(s, a + b),
        after(s, a).len() == s.len() - a,
{
    assert(after(after(s, a), b) =~= after(s, a + b));
}

fn is_digit_char(c: char) -> (r: bool)
    ensures
        r == is_digit(c),
{
    '0' <= c && c <= '9'
}

fn is_name_start_char(c: char) -> (r: bool)
    ensures
        r == is_name_start(c),
{
    ('a' <= c && c <= 'z') || ('A' <= c && c <= 'Z') || c == '_'
}

fn is_name_char_exec(c: char) -> (r: bool)
    ensures
        r == is_name_char(c),
{
    is_name_start_char(c) || is_digit_char(c)
}

/// Whether the text at `pos` begins with `lit`.
fn starts_at(s: &Vec<char>, pos: usize, lit: &str) -> (r: bool)
    requires
        pos <= s@.len(),
    ensures
        r == starts_with(after(s@, pos as int), lit@),
{
    let ghost t = after(s@, pos as int);
    let n = lit.unicode_len();
    if n > s.len() - pos {
        return false;
    }
    let mut k: usize = 0;
    while k < n
        invariant
            n == lit@.len(),
            k <= n,
            pos <= s@.len(),
            n <= s@.len() - pos,
            t == after(s@, pos as int),
            forall|j: int| 0 <= j < k ==> t[j] == lit@[j],
        decreases n - k,
    {
        assert(pos + k < s.len());
        if s[pos + k] != lit.get_char(k) {
            assert(t[k as int] == s@[pos + k]);
            assert(!starts_with(t, lit@)) by {
                if starts_with(t, lit@) {
                    assert(t.subrange(0, n as int)[k as int] == t[k as int]);
                }
            }
            return false;
        }
        assert(t[k as int] == s@[pos + k]);
        k = k + 1;
    }
    assert(t.subrange(0, n as int) =~= lit@);
    true
}

/// The characters of `s` from `a` to `b` as a string.
fn chars_to_string(s: &Vec<char>, a: usize, b: usize) -> (r: String)
    requires
        a <= b <= s@.len(),
    ensures
        r@ == s@.subrange(a as int, b as int),
{
    let mut out = String::new();
    let mut i: usize = a;
    while i < b
        invariant
            a <= i <= b,
            b <= s@.len(),
            out@ == s@.subrange(a as int, i as int),
        decreases b - i,
    {
        push_char(&mut out, s[i]);
        i = i + 1;
        assert(out@ =~= s@.subrange(a as int, i as int));
    }
    out
}

/// The characters of `src`.
pub fn chars_of(src: &str) -> (r: Vec<char>)
    ensures
        r@ == src@,
{
    let n = src.unicode_len();
    let mut out: Vec<char> = Vec::new();
    let mut i: usize = 0;
    while i < n
        invariant
            n == src@.len(),
            i <= n,
            out@ == src@.subrange(0, i as int),
        decreases n - i,
    {
        out.push(src.get_char(i));
        i = i + 1;
        assert(out@ =~= src@.subrange(0, i as int));
    }
    assert(src@.subrange(0, n as int) =~= src@);
    out
}

fn parse_name(s: &Vec<char>, pos: usize) -> (r: Option<(String, usize)>)
    requires
        pos <= s@.len(),
    ensures
        match p_name(after(s@, pos as int)) {
            Some((x, rest)) => r is Some && r->Some_0.0@ == x && pos < r->Some_0.1 <= s@.len() && after(
                s@,
                r->Some_0.1 as int,
            ) == rest,
            None => r is None,
        },
{
    let ghost t = after(s@, pos as int);
    let st: usize = if pos < s.len() && s[pos] == '$' {
        1
    } else {
        0
    };
    if pos + st < s.len() && is_name_start_char(s[pos + st]) {
        assert(t[st as int] == s@[pos + st]);
        let mut e: usize = pos + st + 1;
        while e < s.len() && is_name_char_exec(s[e])
            invariant
                pos + st + 1 <= e <= s@.len(),
                t == after(s@, pos as int),
                name_end(t, st + 1) == name_end(t, e - pos),
            decreases s@.len() - e,
        {
            assert(t[e - pos] == s@[e as int]);
            e = e + 1;
        }
        if e < s.len() {
            assert(t[e - pos] == s@[e as int]);
        }
        assert(name_end(t, e - pos) == e - pos);
        let name = chars_to_string(s, pos, e);
        assert(t.subrange(0, e - pos) =~= s@.subrange(pos as int, e as int));
        proof {
            lemma_after(s@, pos as int, e - pos);
        }
        Some((name, e))
    } else {
        if pos + st < s.len() {
            assert(t[st as int] == s@[pos + st]);
        }
        None
    }
}

pub proof fn lemma_digits_value_nonneg(d: Seq<char>)
    requires
        forall|j: int| 0 <= j < d.len() ==> is_digit(#[trigger] d[j]),
    ensures
        digits_value(d) >= 0,
    decreases d.len(),
{
    if d.len() > 0 {
        lemma_digits_value_nonneg(d.drop_last());
    }
}

/// A longer run of digits denotes at least as much.
pub proof fn lemma_digits_value_grows(d: Seq<char>, j: int)
    requires
        0 <= j <= d.len(),
        forall|k: int| 0 <= k < d.len() ==> is_digit(#[trigger] d[k]),
    ensures
        digits_value(d) >= digits_value(d.subrange(0, j)),
    decreases d.len(),
{
    if j < d.len() {
        let dl = d.drop_last();
        lemma_digits_value_grows(dl, j);
        lemma_digits_value_nonneg(dl);
        assert(dl.subrange(0, j) =~= d.subrange(0, j));
    } else {
        assert(d.subrange(0, j) =~= d);
    }
}

fn parse_number(s: &Vec<char>, pos: usize) -> (r: Option<(i64, usize)>)
    requires
        pos <= s@.len(),
    ensures
        match p_number(after(s@, pos as int)) {
            Some((n, rest)) => r is Some && r->Some_0.0 == n && pos < r->Some_0.1 <= s@.len() && after(
                s@,
                r->Some_0.1 as int,
            ) == rest,
            None => r is None,
        },
{
    let ghost t = after(s@, pos as int);
    let neg = pos < s.len() && s[pos] == '-';
    if pos < s.len() {
        assert(t[0] == s@[pos as int]);
    }
    let st: usize = if neg {
        1
    } else {
        0
    };
    if pos + st < s.len() && is_digit_char(s[pos + st]) {
        assert(t[st as int] == s@[pos + st]);
        let mut e: usize = pos + st;
        let mut v: u128 = 0;
        assert(t.subrange(st as int, st as int) =~= Seq::<char>::empty());
        while e < s.len() && is_digit_char(s[e])
            invariant
                pos + st <= e <= s@.len(),
                t == after(s@, pos as int),
                digits_end(t, st as int) == digits_end(t, e - pos),
                forall|k: int| st <= k < e - pos ==> is_digit(#[trigger] t[k]),
                v == digits_value(t.subrange(st as int, e - pos)),
                v <= 0x8000_0000_0000_0000,
                neg == (t.len() > 0 && t[0] == '-'),
                st == (if neg { 1usize } else { 0usize }),
            decreases s@.len() - e,
        {
            let c = s[e];
            assert(t[e - pos] == c);
            let ghost prev = t.subrange(st as int, e - pos);
            let ghost next = t.subrange(st as int, e - pos + 1);
            assert(next.drop_last() =~= prev);
            assert(next.last() == c);
            let d = (c as u32 - 48) as u128;
            assert(d == digit_value(c));
            v = v * 10 + d;
            assert(v == digits_value(next));
            if v > 0x8000_0000_0000_0000 {
                proof {
                    let de = digits_end(t, st as int);
                    lemma_digits_end_bound(t, e - pos + 1, st as int);
                    lemma_digits_end_range(t, st as int);
                    let all = t.subrange(st as int, de);
                    assert forall|k: int| 0 <= k < all.len() implies is_digit(#[trigger] all[k]) by {
                        assert(all[k] == t[st + k]);
                    }
                    lemma_digits_value_grows(all, e - pos + 1 - st);
                    assert(all.subrange(0, e - pos + 1 - st) =~= next);
                }
                return None;
            }
            e = e + 1;
        }
        if e < s.len() {
            assert(t[e - pos] == s@[e as int]);
        }
        assert(digits_end(t, e - pos) == e - pos);
        proof {
            lemma_after(s@, pos as int, e - pos);
        }
        if neg {
            if v == 0x8000_0000_0000_0000 {
                Some((i64::MIN, e))
            } else {
                Some((-(v as i64), e))
            }
        } else {
            if v > 0x7fff_ffff_ffff_ffff {
                None
            } else {
                Some((v as i64, e))
            }
        }
    } else {
        if pos + st < s.len() {
            assert(t[st as int] == s@[pos + st]);
        }
        None
    }
}

/// A run of digits starting at `k` ends within the text, and holds digits only.
pub proof fn lemma_digits_end_range(t: Seq<char>, k: int)
    requires
        0 <= k <= t.len(),
    ensures
        k <= digits_end(t, k) <= t.len(),
        forall|j: int| k <= j < digits_end(t, k) ==> is_digit(#[trigger] t[j]),
    decreases t.len() - k,
{
    if k < t.len() && is_digit(t[k]) {
        lemma_digits_end_range(t, k + 1);
    }
}

pub proof fn lemma_digits_end_bound(t: Seq<char>, k: int, st: int)
    requires
        0 <= st <= k,
        forall|j: int| st <= j < k ==> is_digit(#[trigger] t[j]),
        k <= t.len(),
    ensures
        digits_end(t, st) >= k,
    decreases k - st,
{
    if st < k {
        lemma_digits_end_bound(t, k, st + 1);
    } else {
        lemma_digits_end_range(t, st);
    }
}


fn parse_ty(s: &Vec<char>, pos: usize) -> (r: Option<(Ty, usize)>)
    requires
        pos <= s@.len(),
    ensures
        match p_ty(after(s@, pos as int)) {
            Some((x, rest)) => r is Some && r->Some_0.0@ == x && pos <= r->Some_0.1 <= s@.len() && after(
                s@,
                r->Some_0.1 as int,
            ) == rest,
            None => r is None,
        },
    decreases s@.len() - pos, 0int,
{
    let ghost t = after(s@, pos as int);
    proof {
        reveal_strlit("((");
        reveal_strlit(") -> ");
        reveal_strlit(")");
        assert("(("@ =~= seq!['(', '(']);
        assert(") -> "@ =~= crate::parser::arrow());
        assert(")"@ =~= seq![')']);
    }
    match parse_name(s, pos) {
        None => None,
        Some((name, at1)) => {
            let is_fn = str_eq(name.as_str(), "$FN");
            proof {
                reveal_strlit("$FN");
                assert("$FN"@ =~= crate::parser::fn_kw());
            }
            if is_fn && starts_at(s, at1, "((") {
                proof {
                    lemma_after(s@, at1 as int, 0);
                    lemma_after(s@, at1 as int, 2);
                }
                assert(at1 + 2 <= s.len());
                let at2 = at1 + 2;
                match parse_tys(s, at2) {
                    Some((ts, at3)) => {
                        if starts_at(s, at3, ") -> ") {
                            proof {
                                lemma_after(s@, at3 as int, 0);
                                assert(at3 + 5 <= s.len());
                                lemma_after(s@, at3 as int, 5);
                                lemma_after(s@, pos as int, at3 - pos);
                            }
                            match parse_ty(s, at3 + 5) {
                                Some((ret, at4)) => {
                                    if starts_at(s, at4, ")") {
                                        proof {
                                            lemma_after(s@, at4 as int, 0);
                                            assert(at4 + 1 <= s.len());
                                            lemma_after(s@, at4 as int, 1);
                                        }
                                        let r = Ty::Fun(FunTy { is_async: false, param_tys: ts, ret_ty: Box::new(ret) });
                                        proof {
                                            crate::ast::lemma_fun_ty_view_params(r->Fun_0);
                                        }
                                        Some((r, at4 + 1))
                                    } else {
                                        None
                                    }
                                },
                                None => None,
                            }
                        } else {
                            None
                        }
                    },
                    None => None,
                }
            } else {
                Some((Ty::Raw(name), at1))
            }
        },
    }
}

fn parse_tys(s: &Vec<char>, pos: usize) -> (r: Option<(Vec<Ty>, usize)>)
    requires
        pos <= s@.len(),
    ensures
        match p_tys(after(s@, pos as int)) {
            Some((x, rest)) => r is Some && tys_view(r->Some_0.0@) == x && pos <= r->Some_0.1 <= s@.len() && after(
                s@,
                r->Some_0.1 as int,
            ) == rest,
            None => r is None,
        },
    decreases s@.len() - pos, 1int,
{
    proof {
        reveal_strlit(")");
        assert(")"@ =~= seq![')']);
    }
    if starts_at(s, pos, ")") {
        let v: Vec<Ty> = Vec::new();
        assert(tys_view(v@) =~= Seq::<crate::ast::TyV>::empty());
        return Some((v, pos));
    }
    match parse_ty(s, pos) {
        Some((t, at1)) => {
            if at1 > pos {
                proof {
                    lemma_after(s@, pos as int, at1 - pos);
                }
                match parse_tys_tail(s, at1) {
                    Some((ts, at2)) => {
                        let ghost tv = tys_view(ts@);
                        let mut ts = ts;
                        ts.insert(0, t);
                        assert(tys_view(ts@) =~= seq![ts@[0]@] + tv);
                        Some((ts, at2))
                    },
                    None => None,
                }
            } else {
                None
            }
        },
        None => None,
    }
}

fn parse_tys_tail(s: &Vec<char>, pos: usize) -> (r: Option<(Vec<Ty>, usize)>)
    requires
        pos <= s@.len(),
    ensures
        match p_tys_tail(after(s@, pos as int)) {
            Some((x, rest)) => r is Some && tys_view(r->Some_0.0@) == x && pos <= r->Some_0.1 <= s@.len() && after(
                s@,
                r->Some_0.1 as int,
            ) == rest,
            None => r is None,
        },
    decreases s@.len() - pos, 1int,
{
    proof {
        reveal_strlit(", ");
        assert(", "@ =~= crate::printer::comma());
    }
    if starts_at(s, pos, ", ") {
        proof {
            lemma_after(s@, pos as int, 0);
            assert(pos + 2 <= s.len());
            lemma_after(s@, pos as int, 2);
        }
        match parse_ty(s, pos + 2) {
            Some((t, at1)) => {
                if at1 > pos {
                    proof {
                        lemma_after(s@, pos as int, at1 - pos);
                    }
                    match parse_tys_tail(s, at1) {
                        Some((ts, at2)) => {
                            let ghost tv = tys_view(ts@);
                            let mut ts = ts;
                            ts.insert(0, t);
                            assert(tys_view(ts@) =~= seq![ts@[0]@] + tv);
                            Some((ts, at2))
                        },
                        None => None,
                    }
                } else {
                    None
                }
            },
            None => None,
        }
    } else {
        let v: Vec<Ty> = Vec::new();
        assert(tys_view(v@) =~= Seq::<crate::ast::TyV>::empty());
        Some((v, pos))
    }
}


fn parse_expr(s: &Vec<char>, pos: usize) -> (r: Option<(Expr, usize)>)
    requires
        pos <= s@.len(),
    ensures
        match p_expr(after(s@, pos as int)) {
            Some((x, rest)) => r is Some && r->Some_0.0@ == x && pos <= r->Some_0.1 <= s@.len() && after(
                s@,
                r->Some_0.1 as int,
            ) == rest,
            None => r is None,
        },
    decreases s@.len() - pos, 0int,
{
    let ghost t = after(s@, pos as int);
    proof {
        reveal_strlit(" + ");
        reveal_strlit(" - ");
        reveal_strlit(")(");
        reveal_strlit(")");
        reveal_strlit("(");
        reveal_strlit(" as ");
        reveal_strlit("$CAST");
        assert(" + "@ =~= crate::printer::op_src(BinOp::Add));
        assert(" - "@ =~= crate::printer::op_src(BinOp::Sub));
        assert(")("@ =~= seq![')', '(']);
        assert(")"@ =~= seq![')']);
        assert("("@ =~= seq!['(']);
        assert(" as "@ =~= seq![' ', 'a', 's', ' ']);
        assert("$CAST"@ =~= crate::parser::cast_kw());
        lemma_after(s@, pos as int, 0);
    }
    if pos >= s.len() {
        return None;
    }
    let c = s[pos];
    assert(t[0] == c);
    if c == '-' || is_digit_char(c) {
        match parse_number(s, pos) {
            Some((n, at1)) => Some((Expr::Number(n), at1)),
            None => None,
        }
    } else if c == '(' {
        proof {
            lemma_after(s@, pos as int, 1);
        }
        match parse_expr(s, pos + 1) {
            Some((x, at1)) => {
                if at1 > pos {
                    proof {
                        lemma_after(s@, at1 as int, 0);
                    }
                    if starts_at(s, at1, " + ") || starts_at(s, at1, " - ") {
                        assert(at1 + 3 <= s.len());
                        proof {
                            lemma_after(s@, at1 as int, 3);
                            assert(after(s@, at1 as int)[1] == s@[at1 + 1]);
                        }
                        let op = if s[at1 + 1] == '+' {
                            BinOp::Add
                        } else {
                            BinOp::Sub
                        };
                        match parse_expr(s, at1 + 3) {
                            Some((y, at2)) => {
                                if starts_at(s, at2, ")") {
                                    proof {
                                        lemma_after(s@, at2 as int, 0);
                                        lemma_after(s@, at2 as int, 1);
                                    }
                                    assert(at2 + 1 <= s.len());
                                    Some((Expr::OpCall(op, Box::new(x), Box::new(y)), at2 + 1))
                                } else {
                                    None
                                }
                            },
                            None => None,
                        }
                    } else if starts_at(s, at1, ")(") {
                        assert(at1 + 2 <= s.len());
                        proof {
                            lemma_after(s@, at1 as int, 2);
                        }
                        match parse_args(s, at1 + 2) {
                            Some((args, at2)) => {
                                if starts_at(s, at2, ")") {
                                    proof {
                                        lemma_after(s@, at2 as int, 0);
                                        lemma_after(s@, at2 as int, 1);
                                    }
                                    assert(at2 + 1 <= s.len());
                                    let f = Box::new(x);
                                    proof {
                                        crate::compiler::lemma_funcall_view(f, args);
                                    }
                                    Some((Expr::FunCall(f, args), at2 + 1))
                                } else {
                                    None
                                }
                            },
                            None => None,
                        }
                    } else {
                        None
                    }
                } else {
                    None
                }
            },
            None => None,
        }
    } else {
        match parse_name(s, pos) {
            None => None,
            Some((name, at1)) => {
                proof {
                    lemma_after(s@, at1 as int, 0);
                }
                if at1 > pos && starts_at(s, at1, "(") {
                    assert(at1 + 1 <= s.len());
                    proof {
                        lemma_after(s@, at1 as int, 1);
                    }
                    if str_eq(name.as_str(), "$CAST") {
                        match parse_expr(s, at1 + 1) {
                            Some((x, at2)) => {
                                proof {
                                    lemma_after(s@, at2 as int, 0);
                                }
                                if starts_at(s, at2, " as ") {
                                    assert(at2 + 4 <= s.len());
                                    proof {
                                        lemma_after(s@, at2 as int, 4);
                                    }
                                    match parse_ty(s, at2 + 4) {
                                        Some((ty, at3)) => {
                                            if starts_at(s, at3, ")") {
                                                proof {
                                                    lemma_after(s@, at3 as int, 0);
                                                    lemma_after(s@, at3 as int, 1);
                                                }
                                                assert(at3 + 1 <= s.len());
                                                Some((Expr::Cast(Box::new(x), ty), at3 + 1))
                                            } else {
                                                None
                                            }
                                        },
                                        None => None,
                                    }
                                } else {
                                    None
                                }
                            },
                            None => None,
                        }
                    } else {
                        match parse_args(s, at1 + 1) {
                            Some((args, at2)) => {
                                if starts_at(s, at2, ")") {
                                    proof {
                                        lemma_after(s@, at2 as int, 0);
                                        lemma_after(s@, at2 as int, 1);
                                    }
                                    assert(at2 + 1 <= s.len());
                                    let f = Box::new(Expr::VarRef(name));
                                    proof {
                                        crate::compiler::lemma_funcall_view(f, args);
                                    }
                                    Some((Expr::FunCall(f, args), at2 + 1))
                                } else {
                                    None
                                }
                            },
                            None => None,
                        }
                    }
                } else {
                    Some((Expr::VarRef(name), at1))
                }
            },
        }
    }
}

fn parse_args(s: &Vec<char>, pos: usize) -> (r: Option<(Vec<Expr>, usize)>)
    requires
        pos <= s@.len(),
    ensures
        match p_args(after(s@, pos as int)) {
            Some((x, rest)) => r is Some && exprs_view(r->Some_0.0@) == x && pos <= r->Some_0.1 <= s@.len() && after(
                s@,
                r->Some_0.1 as int,
            ) == rest,
            None => r is None,
        },
    decreases s@.len() - pos, 1int,
{
    proof {
        reveal_strlit(")");
        assert(")"@ =~= seq![')']);
    }
    if starts_at(s, pos, ")") {
        let v: Vec<Expr> = Vec::new();
        assert(exprs_view(v@) =~= Seq::<ExprV>::empty());
        return Some((v, pos));
    }
    match parse_expr(s, pos) {
        Some((a, at1)) => {
            if at1 > pos {
                proof {
                    lemma_after(s@, pos as int, at1 - pos);
                }
                match parse_args_tail(s, at1) {
                    Some((args, at2)) => {
                        let ghost av = exprs_view(args@);
                        let mut args = args;
                        args.insert(0, a);
                        assert(exprs_view(args@) =~= seq![args@[0]@] + av);
                        Some((args, at2))
                    },
                    None => None,
                }
            } else {
                None
            }
        },
        None => None,
    }
}

fn parse_args_tail(s: &Vec<char>, pos: usize) -> (r: Option<(Vec<Expr>, usize)>)
    requires
        pos <= s@.len(),
    ensures
        match p_args_tail(after(s@, pos as int)) {
            Some((x, rest)) => r is Some && exprs_view(r->Some_0.0@) == x && pos <= r->Some_0.1 <= s@.len() && after(
                s@,
                r->Some_0.1 as int,
            ) == rest,
            None => r is None,
        },
    decreases s@.len() - pos, 1int,
{
    proof {
        reveal_strlit(", ");
        assert(", "@ =~= crate::printer::comma());
    }
    if starts_at(s, pos, ", ") {
        proof {
            lemma_after(s@, pos as int, 0);
            assert(pos + 2 <= s.len());
            lemma_after(s@, pos as int, 2);
        }
        match parse_expr(s, pos + 2) {
            Some((a, at1)) => {
                if at1 > pos {
                    proof {
                        lemma_after(s@, pos as int, at1 - pos);
                    }
                    match parse_args_tail(s, at1) {
                        Some((args, at2)) => {
                            let ghost av = exprs_view(args@);
                            let mut args = args;
                            args.insert(0, a);
                            assert(exprs_view(args@) =~= seq![args@[0]@] + av);
                            Some((args, at2))
                        },
                        None => None,
                    }
                } else {
                    None
                }
            },
            None => None,
        }
    } else {
        let v: Vec<Expr> = Vec::new();
        assert(exprs_view(v@) =~= Seq::<ExprV>::empty());
        Some((v, pos))
    }
}


fn parse_param(s: &Vec<char>, pos: usize) -> (r: Option<(Param, usize)>)
    requires
        pos <= s@.len(),
    ensures
        match p_param(after(s@, pos as int)) {
            Some((x, rest)) => r is Some && r->Some_0.0@ == x && pos <= r->Some_0.1 <= s@.len() && after(
                s@,
                r->Some_0.1 as int,
            ) == rest,
            None => r is None,
        },
{
    proof {
        reveal_strlit(" ");
        assert(" "@ =~= seq![' ']);
    }
    match parse_ty(s, pos) {
        Some((t, at1)) => {
            if starts_at(s, at1, " ") {
                proof {
                    lemma_after(s@, at1 as int, 0);
                    lemma_after(s@, at1 as int, 1);
                }
                assert(at1 + 1 <= s.len());
                match parse_name(s, at1 + 1) {
                    Some((n, at2)) => Some((Param { ty: t, name: n }, at2)),
                    None => None,
                }
            } else {
                None
            }
        },
        None => None,
    }
}

fn parse_params_tail(s: &Vec<char>, pos: usize) -> (r: Option<(Vec<Param>, usize)>)
    requires
        pos <= s@.len(),
    ensures
        match p_params_tail(after(s@, pos as int)) {
            Some((x, rest)) => r is Some && params_view(r->Some_0.0@) == x && pos <= r->Some_0.1 <= s@.len() && after(
                s@,
                r->Some_0.1 as int,
            ) == rest,
            None => r is None,
        },
    decreases s@.len() - pos,
{
    proof {
        reveal_strlit(", ");
        assert(", "@ =~= crate::printer::comma());
    }
    if starts_at(s, pos, ", ") {
        proof {
            lemma_after(s@, pos as int, 0);
            assert(pos + 2 <= s.len());
            lemma_after(s@, pos as int, 2);
        }
        match parse_param(s, pos + 2) {
            Some((p, at1)) => {
                if at1 > pos {
                    proof {
                        lemma_after(s@, pos as int, at1 - pos);
                    }
                    match parse_params_tail(s, at1) {
                        Some((ps, at2)) => {
                            let ghost pv = params_view(ps@);
                            let mut ps = ps;
                            ps.insert(0, p);
                            assert(params_view(ps@) =~= seq![ps@[0]@] + pv);
                            Some((ps, at2))
                        },
                        None => None,
                    }
                } else {
                    None
                }
            },
            None => None,
        }
    } else {
        let v: Vec<Param> = Vec::new();
        assert(params_view(v@) =~= Seq::<crate::ast::ParamV>::empty());
        Some((v, pos))
    }
}

fn parse_params(s: &Vec<char>, pos: usize) -> (r: Option<(Vec<Param>, usize)>)
    requires
        pos <= s@.len(),
    ensures
        match p_params(after(s@, pos as int)) {
            Some((x, rest)) => r is Some && params_view(r->Some_0.0@) == x && pos <= r->Some_0.1 <= s@.len() && after(
                s@,
                r->Some_0.1 as int,
            ) == rest,
            None => r is None,
        },
{
    proof {
        reveal_strlit(")");
        assert(")"@ =~= seq![')']);
    }
    if starts_at(s, pos, ")") {
        let v: Vec<Param> = Vec::new();
        assert(params_view(v@) =~= Seq::<crate::ast::ParamV>::empty());
        return Some((v, pos));
    }
    match parse_param(s, pos) {
        Some((p, at1)) => {
            match parse_params_tail(s, at1) {
                Some((ps, at2)) => {
                    let ghost pv = params_view(ps@);
                    let mut ps = ps;
                    ps.insert(0, p);
                    assert(params_view(ps@) =~= seq![ps@[0]@] + pv);
                    Some((ps, at2))
                },
                None => None,
            }
        },
        None => None,
    }
}

fn parse_head(s: &Vec<char>, pos: usize) -> (r: Option<(String, Vec<Param>, Ty, usize)>)
    requires
        pos <= s@.len(),
    ensures
        match p_head(after(s@, pos as int)) {
            Some((name, ps, t, rest)) => r is Some && r->Some_0.0@ == name && params_view(r->Some_0.1@) == ps
                && r->Some_0.2@ == t && pos <= r->Some_0.3 <= s@.len() && after(s@, r->Some_0.3 as int) == rest,
            None => r is None,
        },
{
    proof {
        reveal_strlit("(");
        reveal_strlit(") -> ");
        assert("("@ =~= seq!['(']);
        assert(") -> "@ =~= crate::parser::arrow());
    }
    match parse_name(s, pos) {
        Some((name, at1)) => {
            if starts_at(s, at1, "(") {
                proof {
                    lemma_after(s@, at1 as int, 0);
                    lemma_after(s@, at1 as int, 1);
                }
                assert(at1 + 1 <= s.len());
                match parse_params(s, at1 + 1) {
                    Some((ps, at2)) => {
                        if starts_at(s, at2, ") -> ") {
                            proof {
                                lemma_after(s@, at2 as int, 0);
                                lemma_after(s@, at2 as int, 5);
                            }
                            assert(at2 + 5 <= s.len());
                            match parse_ty(s, at2 + 5) {
                                Some((t, at3)) => Some((name, ps, t, at3)),
                                None => None,
                            }
                        } else {
                            None
                        }
                    },
                    None => None,
                }
            } else {
                None
            }
        },
        None => None,
    }
}

fn parse_stmts(s: &Vec<char>, pos: usize) -> (r: Option<(Vec<Expr>, usize)>)
    requires
        pos <= s@.len(),
    ensures
        match p_stmts(after(s@, pos as int)) {
            Some((x, rest)) => r is Some && exprs_view(r->Some_0.0@) == x && pos <= r->Some_0.1 <= s@.len() && after(
                s@,
                r->Some_0.1 as int,
            ) == rest,
            None => r is None,
        },
    decreases s@.len() - pos,
{
    proof {
        reveal_strlit("  ");
        reveal_strlit(";\n");
        assert("  "@ =~= seq![' ', ' ']);
        assert(";\n"@ =~= seq![';', '\n']);
    }
    if starts_at(s, pos, "  ") {
        proof {
            lemma_after(s@, pos as int, 0);
            lemma_after(s@, pos as int, 2);
        }
        assert(pos + 2 <= s.len());
        match parse_expr(s, pos + 2) {
            Some((e, at1)) => {
                if starts_at(s, at1, ";\n") {
                    proof {
                        lemma_after(s@, at1 as int, 0);
                        lemma_after(s@, at1 as int, 2);
                        lemma_after(s@, pos as int, at1 + 2 - pos);
                    }
                    assert(at1 + 2 <= s.len());
                    match parse_stmts(s, at1 + 2) {
                        Some((es, at2)) => {
                            let ghost ev = exprs_view(es@);
                            let mut es = es;
                            es.insert(0, e);
                            assert(exprs_view(es@) =~= seq![es@[0]@] + ev);
                            Some((es, at2))
                        },
                        None => None,
                    }
                } else {
                    None
                }
            },
            None => None,
        }
    } else {
        let v: Vec<Expr> = Vec::new();
        assert(exprs_view(v@) =~= Seq::<ExprV>::empty());
        Some((v, pos))
    }
}

fn parse_decl(s: &Vec<char>, pos: usize) -> (r: Option<(Declaration, usize)>)
    requires
        pos <= s@.len(),
    ensures
        match p_decl(after(s@, pos as int)) {
            Some((x, rest)) => r is Some && r->Some_0.0@ == x && pos <= r->Some_0.1 <= s@.len() && after(
                s@,
                r->Some_0.1 as int,
            ) == rest,
            None => r is None,
        },
{
    proof {
        reveal_strlit("func ");
        reveal_strlit("extern ");
        reveal_strlit(" {\n");
        reveal_strlit("}\n");
        reveal_strlit(";\n");
        reveal_strlit("async ");
        assert("async "@ =~= crate::parser::async_kw());
        assert("func "@ =~= crate::parser::func_kw());
        assert("extern "@ =~= crate::parser::extern_kw());
        assert(" {\n"@ =~= seq![' ', '{', '\n']);
        assert("}\n"@ =~= seq!['}', '\n']);
        assert(";\n"@ =~= seq![';', '\n']);
        lemma_after(s@, pos as int, 0);
    }
    if starts_at(s, pos, "func ") {
        proof {
            lemma_after(s@, pos as int, 5);
        }
        assert(pos + 5 <= s.len());
        match parse_head(s, pos + 5) {
            Some((name, params, ret_ty, at1)) => {
                if starts_at(s, at1, " {\n") {
                    proof {
                        lemma_after(s@, at1 as int, 0);
                        lemma_after(s@, at1 as int, 3);
                    }
                    assert(at1 + 3 <= s.len());
                    match parse_stmts(s, at1 + 3) {
                        Some((body_stmts, at2)) => {
                            if starts_at(s, at2, "}\n") {
                                proof {
                                    lemma_after(s@, at2 as int, 0);
                                    lemma_after(s@, at2 as int, 2);
                                }
                                assert(at2 + 2 <= s.len());
                                Some((Declaration::Function(Function { name, params, ret_ty, body_stmts }), at2 + 2))
                            } else {
                                None
                            }
                        },
                        None => None,
                    }
                } else {
                    None
                }
            },
            None => None,
        }
    } else if starts_at(s, pos, "extern ") {
        proof {
            lemma_after(s@, pos as int, 7);
        }
        assert(pos + 7 <= s.len());
        let is_async = starts_at(s, pos + 7, "async ");
        let at0 = if is_async {
            proof {
                lemma_after(s@, pos + 7, 0);
                lemma_after(s@, pos + 7, 6);
            }
            assert(pos + 13 <= s.len());
            pos + 13
        } else {
            pos + 7
        };
        match parse_head(s, at0) {
            Some((name, params, ret_ty, at1)) => {
                if starts_at(s, at1, ";\n") {
                    proof {
                        lemma_after(s@, at1 as int, 0);
                        lemma_after(s@, at1 as int, 2);
                    }
                    assert(at1 + 2 <= s.len());
                    Some((Declaration::Extern(Extern { name, params, ret_ty, is_async }), at1 + 2))
                } else {
                    None
                }
            },
            None => None,
        }
    } else {
        None
    }
}

fn parse_decls(s: &Vec<char>, pos: usize) -> (r: Result<Vec<Declaration>, usize>)
    requires
        pos <= s@.len(),
    ensures
        match p_decls(after(s@, pos as int)) {
            Some(ds) => r is Ok && decls_view(r->Ok_0@) == ds,
            None => r is Err && r->Err_0 == pos + decls_failure(after(s@, pos as int)),
        },
    decreases s@.len() - pos,
{
    proof {
        lemma_after(s@, pos as int, 0);
    }
    if pos >= s.len() {
        let v: Vec<Declaration> = Vec::new();
        assert(decls_view(v@) =~= Seq::<DeclarationV>::empty());
        return Ok(v);
    }
    match parse_decl(s, pos) {
        Some((d, at1)) => {
            if at1 > pos {
                proof {
                    lemma_after(s@, pos as int, at1 - pos);
                }
                match parse_decls(s, at1) {
                    Ok(ds) => {
                        let ghost dv = decls_view(ds@);
                        let mut ds = ds;
                        ds.insert(0, d);
                        assert(decls_view(ds@) =~= seq![ds@[0]@] + dv);
                        Ok(ds)
                    },
                    Err(at) => Err(at),
                }
            } else {
                Err(pos)
            }
        },
        None => Err(pos),
    }
}

/// Reads a program in its textual form. The text is read exactly as the
/// printer writes it; where it has another form, the error gives the offset
/// of the first declaration that could not be read.
pub fn parse_program(src: &str) -> (r: Result<Vec<Declaration>, ParseError>)
    ensures
        match p_decls(src@) {
            Some(ds) => r is Ok && decls_view(r->Ok_0@) == ds,
            None => r is Err && r->Err_0.offset == decls_failure(src@),
        },
{
    let s = chars_of(src);
    assert(after(s@, 0) =~= src@);
    match parse_decls(&s, 0) {
        Ok(ds) => Ok(ds),
        Err(at) => Err(ParseError { offset: at }),
    }
}

} // verus!
