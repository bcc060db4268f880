use vstd::prelude::*;
use crate::ast::{Declaration, DeclarationV, FunTy, FunTyV, decls_view, param_tys_of};

verus! {

/// What the signature table records of one declared name.
pub struct Signature {
    pub name: String,
    pub fun_ty: FunTy,
}

pub struct SignatureV {
    pub name: Seq<char>,
    pub fun_ty: FunTyV,
}

impl View for Signature {
    type V = SignatureV;

    open spec fn view(&self) -> SignatureV {
        SignatureV { name: self.name@, fun_ty: self.fun_ty@ }
    }
}

pub open spec fn sigs_view(s: Seq<Signature>) -> Seq<SignatureV> {
    s.map_values(|x: Signature| x@)
}

/// The signature that a declaration contributes: externs carry their own
/// asyncness, locally defined functions are never asynchronous.
pub open spec fn decl_sig(d: DeclarationV) -> SignatureV {
    match d {
        DeclarationV::Extern(x) => SignatureV {
            name: x.name,
            fun_ty: FunTyV { is_async: x.is_async, param_tys: param_tys_of(x.params), ret_ty: Box::new(x.ret_ty) },
        },
        DeclarationV::Function(x) => SignatureV {
            name: x.name,
            fun_ty: FunTyV { is_async: false, param_tys: param_tys_of(x.params), ret_ty: Box::new(x.ret_ty) },
        },
    }
}

/// The table of a program: one entry per declaration, in order.
pub open spec fn sig_table(ds: Seq<DeclarationV>) -> Seq<SignatureV> {
    ds.map_values(|d: DeclarationV| decl_sig(d))
}

/// The signature recorded for `name`; where a name is declared twice, the
/// later declaration wins.
pub open spec fn lookup(sigs: Seq<SignatureV>, name: Seq<char>) -> Option<FunTyV>
    decreases sigs.len(),
{
    if sigs.len() == 0 {
        None
    } else if sigs.last().name == name {
        Some(sigs.last().fun_ty)
    } else {
        lookup(sigs.drop_last(), name)
    }
}

/// Builds the signature table of a program in one pass.
pub fn gather_sigs(ast: &Vec<Declaration>) -> (r: Vec<Signature>)
    ensures
        sigs_view(r@) == sig_table(decls_view(ast@)),
{
    let mut out: Vec<Signature> = Vec::new();
    let mut i: usize = 0;
    while i < ast.len()
        invariant
            i <= ast.len(),
            out@.len() == i,
            forall|j: int| 0 <= j < i ==> out@[j]@ == decl_sig(ast@[j]@),
        decreases ast.len() - i,
    {
        let s = match &ast[i] {
            Declaration::Extern(x) => Signature { name: x.name.clone(), fun_ty: x.fun_ty() },
            Declaration::Function(x) => Signature { name: x.name.clone(), fun_ty: x.fun_ty() },
        };
        out.push(s);
        i = i + 1;
    }
    assert(sigs_view(out@) =~= sig_table(decls_view(ast@)));
    out
}

/// Finds the signature of `name` in the table.
pub fn lookup_sig<'a>(sigs: &'a Vec<Signature>, name: &String) -> (r: Option<&'a FunTy>)
    ensures
        match r {
            Some(ft) => lookup(sigs_view(sigs@), name@) == Some(ft@),
            None => lookup(sigs_view(sigs@), name@) is None,
        },
{
    let mut i: usize = sigs.len();
    assert(sigs@.subrange(0, i as int) =~= sigs@);
    while i > 0
        invariant
            i <= sigs.len(),
            lookup(sigs_view(sigs@), name@) == lookup(sigs_view(sigs@.subrange(0, i as int)), name@),
        decreases i,
    {
        let ghost pre = sigs_view(sigs@.subrange(0, i as int));
        assert(pre.last() == sigs@[i - 1]@);
        assert(pre.drop_last() =~= sigs_view(sigs@.subrange(0, i - 1)));
        if sigs[i - 1].name == *name {
            return Some(&sigs[i - 1].fun_ty);
        }
        i = i - 1;
    }
    None
}

} // verus!
