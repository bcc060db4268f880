use vstd::prelude::*;

verus! {

/// The two binary operators of the language.
#[derive(PartialEq, Eq, Structural, Debug, Clone, Copy)]
pub enum BinOp {
    Add,
    Sub,
}

/// A type as it is written in source text.
#[derive(PartialEq, Debug)]
pub enum Ty {
    /// A named type: `int`, `$ENV`, `$FUTURE`, `$any`.
    Raw(String),
    /// A function type.
    Fun(FunTy),
}

/// The shape of a function: its parameter types, result type and asyncness.
#[derive(PartialEq, Debug)]
pub struct FunTy {
    pub is_async: bool,
    pub param_tys: Vec<Ty>,
    pub ret_ty: Box<Ty>,
}

#[derive(PartialEq, Debug)]
pub struct Param {
    pub ty: Ty,
    pub name: String,
}

#[derive(PartialEq, Debug)]
pub enum Expr {
    Number(i64),
    VarRef(String),
    OpCall(BinOp, Box<Expr>, Box<Expr>),
    FunCall(Box<Expr>, Vec<Expr>),
    Cast(Box<Expr>, Ty),
    Alloc(String),
    Assign(String, Box<Expr>),
}

/// A locally defined function.
#[derive(PartialEq, Debug)]
pub struct Function {
    pub name: String,
    pub params: Vec<Param>,
    pub ret_ty: Ty,
    pub body_stmts: Vec<Expr>,
}

/// A function implemented outside the program; it may be asynchronous.
#[derive(PartialEq, Debug)]
pub struct Extern {
    pub name: String,
    pub params: Vec<Param>,
    pub ret_ty: Ty,
    pub is_async: bool,
}

#[derive(PartialEq, Debug)]
pub enum Declaration {
    Extern(Extern),
    Function(Function),
}

// ---------------------------------------------------------------------------
// Mathematical model of the syntax tree: names become character sequences and
// vectors become sequences.
pub enum TyV {
    Raw(Seq<char>),
    Fun(FunTyV),
}

pub struct FunTyV {
    pub is_async: bool,
    pub param_tys: Seq<TyV>,
    pub ret_ty: Box<TyV>,
}

pub struct ParamV {
    pub ty: TyV,
    pub name: Seq<char>,
}

pub enum ExprV {
    Number(i64),
    VarRef(Seq<char>),
    OpCall(BinOp, Box<ExprV>, Box<ExprV>),
    FunCall(Box<ExprV>, Seq<ExprV>),
    Cast(Box<ExprV>, TyV),
    Alloc(Seq<char>),
    Assign(Seq<char>, Box<ExprV>),
}

pub struct FunctionV {
    pub name: Seq<char>,
    pub params: Seq<ParamV>,
    pub ret_ty: TyV,
    pub body_stmts: Seq<ExprV>,
}

pub struct ExternV {
    pub name: Seq<char>,
    pub params: Seq<ParamV>,
    pub ret_ty: TyV,
    pub is_async: bool,
}

pub enum DeclarationV {
    Extern(ExternV),
    Function(FunctionV),
}

pub open spec fn ty_view(t: Ty) -> TyV
    decreases t,
{
    match t {
        Ty::Raw(s) => TyV::Raw(s@),
        Ty::Fun(ft) => TyV::Fun(fun_ty_view(ft)),
    }
}

pub open spec fn fun_ty_view(ft: FunTy) -> FunTyV
    decreases ft,
{
    FunTyV {
        is_async: ft.is_async,
        param_tys: Seq::new(
            ft.param_tys.len() as nat,
            |i: int|
                if 0 <= i < ft.param_tys.len() {
                    ty_view(ft.param_tys[i])
                } else {
                    TyV::Raw(Seq::empty())
                },
        ),
        ret_ty: Box::new(ty_view(*ft.ret_ty)),
    }
}

pub open spec fn expr_view(e: Expr) -> ExprV
    decreases e,
{
    match e {
        Expr::Number(n) => ExprV::Number(n),
        Expr::VarRef(s) => ExprV::VarRef(s@),
        Expr::OpCall(op, l, r) => ExprV::OpCall(op, Box::new(expr_view(*l)), Box::new(expr_view(*r))),
        Expr::FunCall(f, args) => ExprV::FunCall(
            Box::new(expr_view(*f)),
            Seq::new(
                args.len() as nat,
                |i: int|
                    if 0 <= i < args.len() {
                        expr_view(args[i])
                    } else {
                        ExprV::Number(0)
                    },
            ),
        ),
        Expr::Cast(x, t) => ExprV::Cast(Box::new(expr_view(*x)), ty_view(t)),
        Expr::Alloc(s) => ExprV::Alloc(s@),
        Expr::Assign(s, x) => ExprV::Assign(s@, Box::new(expr_view(*x))),
    }
}

impl View for Ty {
    type V = TyV;

    open spec fn view(&self) -> TyV {
        ty_view(*self)
    }
}

impl View for FunTy {
    type V = FunTyV;

    open spec fn view(&self) -> FunTyV {
        fun_ty_view(*self)
    }
}

impl View for Param {
    type V = ParamV;

    open spec fn view(&self) -> ParamV {
        ParamV { ty: self.ty@, name: self.name@ }
    }
}

impl View for Expr {
    type V = ExprV;

    open spec fn view(&self) -> ExprV {
        expr_view(*self)
    }
}

/// The model of a sequence of expressions.
pub open spec fn exprs_view(s: Seq<Expr>) -> Seq<ExprV> {
    s.map_values(|e: Expr| e@)
}

pub open spec fn params_view(s: Seq<Param>) -> Seq<ParamV> {
    s.map_values(|p: Param| p@)
}

pub open spec fn tys_view(s: Seq<Ty>) -> Seq<TyV> {
    s.map_values(|t: Ty| t@)
}

impl View for Function {
    type V = FunctionV;

    open spec fn view(&self) -> FunctionV {
        FunctionV {
            name: self.name@,
            params: params_view(self.params@),
            ret_ty: self.ret_ty@,
            body_stmts: exprs_view(self.body_stmts@),
        }
    }
}

impl View for Extern {
    type V = ExternV;

    open spec fn view(&self) -> ExternV {
        ExternV {
            name: self.name@,
            params: params_view(self.params@),
            ret_ty: self.ret_ty@,
            is_async: self.is_async,
        }
    }
}

impl View for Declaration {
    type V = DeclarationV;

    open spec fn view(&self) -> DeclarationV {
        match self {
            Declaration::Extern(x) => DeclarationV::Extern(x@),
            Declaration::Function(x) => DeclarationV::Function(x@),
        }
    }
}

pub open spec fn decls_view(s: Seq<Declaration>) -> Seq<DeclarationV> {
    s.map_values(|d: Declaration| d@)
}


impl Ty {
    /// A named type.
    pub fn raw(name: &str) -> (r: Ty)
        ensures
            r@ == TyV::Raw(name@),
    {
        Ty::Raw(String::from_str(name))
    }

    /// A function type that is not asynchronous.
    pub fn fun(param_tys: Vec<Ty>, ret_ty: Ty) -> (r: Ty)
        ensures
            r@ == TyV::Fun(FunTyV { is_async: false, param_tys: tys_view(param_tys@), ret_ty: Box::new(ret_ty@) }),
    {
        let r = Ty::Fun(FunTy { is_async: false, param_tys, ret_ty: Box::new(ret_ty) });
        proof {
            assert(r@->Fun_0.param_tys =~= tys_view(param_tys@));
        }
        r
    }

    /// A copy of the whole type tree.
    pub fn duplicate(&self) -> (r: Ty)
        ensures
            r@ == self@,
        decreases self,
    {
        match self {
            Ty::Raw(s) => Ty::Raw(s.clone()),
            Ty::Fun(ft) => {
                let r = Ty::Fun(FunTy { is_async: ft.is_async, param_tys: duplicate_tys(&ft.param_tys), ret_ty: Box::new(ft.ret_ty.duplicate()) });
                proof {
                    lemma_fun_ty_view_params(r->Fun_0);
                    lemma_fun_ty_view_params(*ft);
                }
                r
            },
        }
    }
}

impl FunTy {
    /// A copy of the whole function type.
    pub fn duplicate(&self) -> (r: FunTy)
        ensures
            r@ == self@,
    {
        let r = FunTy { is_async: self.is_async, param_tys: duplicate_tys(&self.param_tys), ret_ty: Box::new(self.ret_ty.duplicate()) };
        proof {
            lemma_fun_ty_view_params(r);
            lemma_fun_ty_view_params(*self);
        }
        r
    }
}

pub proof fn lemma_fun_ty_view_params(ft: FunTy)
    ensures
        fun_ty_view(ft).param_tys == tys_view(ft.param_tys@),
{
    assert(fun_ty_view(ft).param_tys =~= tys_view(ft.param_tys@));
}

/// A copy of each type of `v`.
pub fn duplicate_tys(v: &Vec<Ty>) -> (r: Vec<Ty>)
    ensures
        tys_view(r@) == tys_view(v@),
    decreases v,
{
    let mut out: Vec<Ty> = Vec::new();
    let mut i: usize = 0;
    while i < v.len()
        invariant
            i <= v.len(),
            out@.len() == i,
            forall|j: int| 0 <= j < i ==> out@[j]@ == v@[j]@,
        decreases v.len() - i,
    {
        proof {
            assert(decreases_to!(*v => v[i as int]));
        }
        out.push(v[i].duplicate());
        i = i + 1;
    }
    assert(tys_view(out@) =~= tys_view(v@));
    out
}


/// The types of a parameter list, in order.
pub open spec fn param_tys_of(ps: Seq<ParamV>) -> Seq<TyV> {
    ps.map_values(|p: ParamV| p.ty)
}

/// The types of `params`, copied.
fn param_tys(params: &Vec<Param>) -> (r: Vec<Ty>)
    ensures
        tys_view(r@) == param_tys_of(params_view(params@)),
{
    let mut out: Vec<Ty> = Vec::new();
    let mut i: usize = 0;
    while i < params.len()
        invariant
            i <= params.len(),
            out@.len() == i,
            forall|j: int| 0 <= j < i ==> out@[j]@ == params@[j].ty@,
        decreases params.len() - i,
    {
        out.push(params[i].ty.duplicate());
        i = i + 1;
    }
    assert(tys_view(out@) =~= param_tys_of(params_view(params@)));
    out
}

impl Param {
    pub fn new(ty: Ty, name: &str) -> (r: Param)
        ensures
            r@ == (ParamV { ty: ty@, name: name@ }),
    {
        Param { ty, name: String::from_str(name) }
    }

    pub fn duplicate(&self) -> (r: Param)
        ensures
            r@ == self@,
    {
        Param { ty: self.ty.duplicate(), name: self.name.clone() }
    }
}

/// A copy of each parameter of `v`.
pub fn duplicate_params(v: &Vec<Param>) -> (r: Vec<Param>)
    ensures
        params_view(r@) == params_view(v@),
{
    let mut out: Vec<Param> = Vec::new();
    let mut i: usize = 0;
    while i < v.len()
        invariant
            i <= v.len(),
            out@.len() == i,
            forall|j: int| 0 <= j < i ==> out@[j]@ == v@[j]@,
        decreases v.len() - i,
    {
        out.push(v[i].duplicate());
        i = i + 1;
    }
    assert(params_view(out@) =~= params_view(v@));
    out
}

impl Expr {
    /// A reference to the variable or function `name`.
    pub fn var_ref(name: &str) -> (r: Expr)
        ensures
            r@ == ExprV::VarRef(name@),
    {
        Expr::VarRef(String::from_str(name))
    }
}

impl Function {
    /// The signature of the function; a locally defined function is never asynchronous.
    pub fn fun_ty(&self) -> (r: FunTy)
        ensures
            r@ == (FunTyV { is_async: false, param_tys: param_tys_of(self@.params), ret_ty: Box::new(self@.ret_ty) }),
    {
        let r = FunTy { is_async: false, param_tys: param_tys(&self.params), ret_ty: Box::new(self.ret_ty.duplicate()) };
        proof {
            lemma_fun_ty_view_params(r);
        }
        r
    }
}

impl Extern {
    /// The signature of the extern, with its asyncness.
    pub fn fun_ty(&self) -> (r: FunTy)
        ensures
            r@ == (FunTyV { is_async: self.is_async, param_tys: param_tys_of(self@.params), ret_ty: Box::new(self@.ret_ty) }),
    {
        let r = FunTy { is_async: self.is_async, param_tys: param_tys(&self.params), ret_ty: Box::new(self.ret_ty.duplicate()) };
        proof {
            lemma_fun_ty_view_params(r);
        }
        r
    }
}

/// The externs among `ds`, last one first.
pub open spec fn rev_externs(ds: Seq<DeclarationV>) -> Seq<ExternV>
    decreases ds.len(),
{
    if ds.len() == 0 {
        Seq::empty()
    } else {
        rev_externs(ds.subrange(1, ds.len() as int)) + match ds[0] {
            DeclarationV::Extern(x) => seq![x],
            DeclarationV::Function(_) => Seq::empty(),
        }
    }
}

/// The functions among `ds`, last one first.
pub open spec fn rev_functions(ds: Seq<DeclarationV>) -> Seq<FunctionV>
    decreases ds.len(),
{
    if ds.len() == 0 {
        Seq::empty()
    } else {
        rev_functions(ds.subrange(1, ds.len() as int)) + match ds[0] {
            DeclarationV::Function(x) => seq![x],
            DeclarationV::Extern(_) => Seq::empty(),
        }
    }
}

impl Declaration {
    /// Sorts the declarations into externs and functions. Both lists come
    /// out in reverse order of declaration.
    pub fn split(decls: Vec<Declaration>) -> (r: (Vec<Extern>, Vec<Function>))
        ensures
            r.0@.map_values(|x: Extern| x@) == rev_externs(decls_view(decls@)),
            r.1@.map_values(|x: Function| x@) == rev_functions(decls_view(decls@)),
    {
        let ghost orig = decls_view(decls@);
        let mut decls = decls;
        let mut externs: Vec<Extern> = Vec::new();
        let mut funcs: Vec<Function> = Vec::new();
        while decls.len() > 0
            invariant
                decls@.len() <= orig.len(),
                decls_view(decls@) == orig.subrange(0, decls@.len() as int),
                externs@.map_values(|x: Extern| x@) == rev_externs(orig.subrange(decls@.len() as int, orig.len() as int)),
                funcs@.map_values(|x: Function| x@) == rev_functions(orig.subrange(decls@.len() as int, orig.len() as int)),
            decreases decls@.len(),
        {
            let ghost m = decls@.len() as int;
            let ghost rest = orig.subrange(m - 1, orig.len() as int);
            assert(rest.subrange(1, rest.len() as int) =~= orig.subrange(m, orig.len() as int));
            assert(rest[0] == orig[m - 1]);
            assert(decls_view(decls@)[m - 1] == decls@[m - 1]@);
            assert(orig.subrange(0, m)[m - 1] == orig[m - 1]);
            match decls.pop() {
                Some(Declaration::Extern(x)) => {
                    externs.push(x);
                    assert(externs@.map_values(|x: Extern| x@) =~= rev_externs(rest));
                    assert(funcs@.map_values(|x: Function| x@) =~= rev_functions(rest));
                },
                Some(Declaration::Function(x)) => {
                    funcs.push(x);
                    assert(externs@.map_values(|x: Extern| x@) =~= rev_externs(rest));
                    assert(funcs@.map_values(|x: Function| x@) =~= rev_functions(rest));
                },
                None => {},
            }
            assert(decls_view(decls@) =~= orig.subrange(0, decls@.len() as int));
        }
        assert(orig.subrange(0, orig.len() as int) =~= orig);
        (externs, funcs)
    }
}

} // verus!
