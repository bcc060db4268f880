use vstd::prelude::*;
use crate::ast::{FunTy, FunTyV, Ty, TyV};
use crate::error::{CompileError, CompileErrorV};

verus! {

/// How a value is carried at machine level.
#[derive(PartialEq, Eq, Structural, Debug, Clone, Copy)]
pub enum MachineTy {
    /// A 64-bit integer.
    I64,
    /// A pointer-sized untyped address.
    Ptr,
}

/// A machine-level value, as a call passes it or a function returns it.
#[derive(PartialEq, Eq, Structural, Debug, Clone, Copy)]
pub enum BasicValue {
    Int(i64),
    Ptr(u64),
}

/// A value with the shape that the language gives it.
#[derive(PartialEq, Debug)]
pub enum Value {
    /// A plain integer.
    Int(i64),
    /// An erased slot: an integer whose meaning is not known here.
    Any(i64),
    /// An environment or suspended-computation handle.
    Opaque(u64),
    /// A statically named function, at its address.
    Func(u64, FunTy),
    /// A function reached through a pointer, with the signature it is known
    /// to carry.
    FuncPtr(u64, FunTy),
}

pub enum ValueV {
    Int(i64),
    Any(i64),
    Opaque(u64),
    Func(u64, FunTyV),
    FuncPtr(u64, FunTyV),
}

impl View for Value {
    type V = ValueV;

    open spec fn view(&self) -> ValueV {
        match self {
            Value::Int(n) => ValueV::Int(*n),
            Value::Any(n) => ValueV::Any(*n),
            Value::Opaque(p) => ValueV::Opaque(*p),
            Value::Func(p, ft) => ValueV::Func(*p, ft@),
            Value::FuncPtr(p, ft) => ValueV::FuncPtr(*p, ft@),
        }
    }
}

/// Whether a call is made to a named function or through a pointer.
#[derive(PartialEq, Eq, Structural, Debug, Clone, Copy)]
pub enum CallKind {
    Direct,
    Indirect,
}

/// The machine representation of a type: integers and erased slots are
/// 64-bit integers, handles and functions are pointers; other names have none.
pub open spec fn machine_ty(t: TyV) -> Option<MachineTy> {
    match t {
        TyV::Raw(n) => if n == "int"@ || n == "$any"@ {
            Some(MachineTy::I64)
        } else if n == "$ENV"@ || n == "$FUTURE"@ {
            Some(MachineTy::Ptr)
        } else {
            None
        },
        TyV::Fun(_) => Some(MachineTy::Ptr),
    }
}

/// A machine value as a value of type `t`, where its representation allows.
pub open spec fn cast_spec(v: BasicValue, t: TyV) -> Option<ValueV> {
    match (v, t) {
        (BasicValue::Int(n), TyV::Raw(name)) => if name == "int"@ {
            Some(ValueV::Int(n))
        } else if name == "$any"@ {
            Some(ValueV::Any(n))
        } else {
            None
        },
        (BasicValue::Ptr(p), TyV::Raw(name)) => if name == "$ENV"@ || name == "$FUTURE"@ {
            Some(ValueV::Opaque(p))
        } else {
            None
        },
        (BasicValue::Ptr(p), TyV::Fun(ft)) => Some(ValueV::FuncPtr(p, ft)),
        (BasicValue::Int(_), TyV::Fun(_)) => None,
    }
}

/// The machine value that carries `v`.
pub open spec fn arg_value(v: ValueV) -> BasicValue {
    match v {
        ValueV::Int(n) => BasicValue::Int(n),
        ValueV::Any(n) => BasicValue::Int(n),
        ValueV::Opaque(p) => BasicValue::Ptr(p),
        ValueV::Func(p, _) => BasicValue::Ptr(p),
        ValueV::FuncPtr(p, _) => BasicValue::Ptr(p),
    }
}

/// The bits of `v` read as an integer.
pub open spec fn integer_of(v: ValueV) -> i64 {
    match arg_value(v) {
        BasicValue::Int(n) => n,
        BasicValue::Ptr(p) => p as i64,
    }
}

/// `v` converted to type `t`: an erased slot becomes a pointer when a
/// function is asked for, anything becomes its integer bits when an erased
/// slot is asked for, and otherwise the machine value must already fit `t`.
pub open spec fn recast_spec(v: ValueV, t: TyV) -> Option<ValueV> {
    match (v, t) {
        (ValueV::Any(n), TyV::Fun(_)) => cast_spec(BasicValue::Ptr(n as u64), t),
        _ => if t == TyV::Raw("$any"@) {
            cast_spec(BasicValue::Int(integer_of(v)), t)
        } else {
            cast_spec(arg_value(v), t)
        },
    }
}

/// Whether two strings hold the same characters.
pub fn str_eq(a: &str, b: &str) -> (r: bool)
    ensures
        r == (a@ == b@),
{
    let n = a.unicode_len();
    if n != b.unicode_len() {
        return false;
    }
    let mut i: usize = 0;
    while i < n
        invariant
            n == a@.len(),
            n == b@.len(),
            i <= n,
            forall|j: int| 0 <= j < i ==> a@[j] == b@[j],
        decreases n - i,
    {
        if a.get_char(i) != b.get_char(i) {
            return false;
        }
        i = i + 1;
    }
    assert(a@ =~= b@);
    true
}

/// The machine representation of `ty`.
pub fn machine_type(ty: &Ty) -> (r: Result<MachineTy, CompileError>)
    ensures
        match machine_ty(ty@) {
            Some(m) => r == Ok::<MachineTy, CompileError>(m),
            None => r is Err && r->Err_0@ == CompileErrorV::TypeShapeMismatch,
        },
{
    match ty {
        Ty::Raw(name) => {
            if str_eq(name.as_str(), "int") || str_eq(name.as_str(), "$any") {
                Ok(MachineTy::I64)
            } else if str_eq(name.as_str(), "$ENV") || str_eq(name.as_str(), "$FUTURE") {
                Ok(MachineTy::Ptr)
            } else {
                Err(CompileError::TypeShapeMismatch)
            }
        },
        Ty::Fun(_) => Ok(MachineTy::Ptr),
    }
}

/// Reads the machine value `v` as a value of type `ty`; a representation
/// that does not fit is a TypeShapeMismatch.
pub fn cast(v: BasicValue, ty: &Ty) -> (r: Result<Value, CompileError>)
    ensures
        match cast_spec(v, ty@) {
            Some(x) => r is Ok && r->Ok_0@ == x,
            None => r is Err && r->Err_0@ == CompileErrorV::TypeShapeMismatch,
        },
{
    match (v, ty) {
        (BasicValue::Int(n), Ty::Raw(name)) => {
            if str_eq(name.as_str(), "int") {
                Ok(Value::Int(n))
            } else if str_eq(name.as_str(), "$any") {
                Ok(Value::Any(n))
            } else {
                Err(CompileError::TypeShapeMismatch)
            }
        },
        (BasicValue::Ptr(p), Ty::Raw(name)) => {
            if str_eq(name.as_str(), "$ENV") || str_eq(name.as_str(), "$FUTURE") {
                Ok(Value::Opaque(p))
            } else {
                Err(CompileError::TypeShapeMismatch)
            }
        },
        (BasicValue::Ptr(p), Ty::Fun(ft)) => Ok(Value::FuncPtr(p, ft.duplicate())),
        (BasicValue::Int(_), Ty::Fun(_)) => Err(CompileError::TypeShapeMismatch),
    }
}

impl Value {
    /// The machine value that carries this value.
    pub fn into_arg_value(self) -> (r: BasicValue)
        ensures
            r == arg_value(self@),
    {
        match self {
            Value::Int(x) => BasicValue::Int(x),
            Value::Any(x) => BasicValue::Int(x),
            Value::Opaque(x) => BasicValue::Ptr(x),
            Value::Func(x, _) => BasicValue::Ptr(x),
            Value::FuncPtr(x, _) => BasicValue::Ptr(x),
        }
    }

    /// The bits of this value read as an integer.
    pub fn into_integer(self) -> (r: i64)
        ensures
            r == integer_of(self@),
    {
        match self {
            Value::Int(x) => x,
            Value::Any(x) => x,
            Value::Opaque(x) => x as i64,
            Value::Func(x, _) => x as i64,
            Value::FuncPtr(x, _) => x as i64,
        }
    }

    /// The integer, for a plain integer; anything else is a TypeShapeMismatch.
    pub fn expect_int(self) -> (r: Result<i64, CompileError>)
        ensures
            match self@ {
                ValueV::Int(n) => r == Ok::<i64, CompileError>(n),
                _ => r is Err && r->Err_0@ == CompileErrorV::TypeShapeMismatch,
            },
    {
        match self {
            Value::Int(x) => Ok(x),
            _ => Err(CompileError::TypeShapeMismatch),
        }
    }

    /// How to call this value and the signature the call must use; only
    /// functions can be called.
    pub fn call_target(self) -> (r: Result<(CallKind, u64, FunTy), CompileError>)
        ensures
            match self@ {
                ValueV::Func(p, ft) => r is Ok && r->Ok_0.0 == CallKind::Direct && r->Ok_0.1 == p && r->Ok_0.2@ == ft,
                ValueV::FuncPtr(p, ft) => r is Ok && r->Ok_0.0 == CallKind::Indirect && r->Ok_0.1 == p && r->Ok_0.2@
                    == ft,
                _ => r is Err && r->Err_0@ == CompileErrorV::TypeShapeMismatch,
            },
    {
        match self {
            Value::Func(p, ft) => Ok((CallKind::Direct, p, ft)),
            Value::FuncPtr(p, ft) => Ok((CallKind::Indirect, p, ft)),
            _ => Err(CompileError::TypeShapeMismatch),
        }
    }
}

/// Converts `v` to type `ty` (see `recast_spec`).
pub fn recast(v: Value, ty: &Ty) -> (r: Result<Value, CompileError>)
    ensures
        match recast_spec(v@, ty@) {
            Some(x) => r is Ok && r->Ok_0@ == x,
            None => r is Err && r->Err_0@ == CompileErrorV::TypeShapeMismatch,
        },
{
    let is_any = match ty {
        Ty::Raw(name) => str_eq(name.as_str(), "$any"),
        Ty::Fun(_) => false,
    };
    proof {
        reveal_strlit("$any");
    }
    match (v, ty) {
        (Value::Any(n), Ty::Fun(_)) => cast(BasicValue::Ptr(n as u64), ty),
        (v, _) => {
            if is_any {
                cast(BasicValue::Int(v.into_integer()), ty)
            } else {
                cast(v.into_arg_value(), ty)
            }
        },
    }
}


// ---------------------------------------------------------------------------
// The same rules on shapes alone, for a generator whose values are opaque
// handles: which machine step a conversion takes, and which shape results.

/// What a value is known to be, without the value itself.
#[derive(PartialEq, Debug)]
pub enum Shape {
    Int,
    Any,
    Opaque,
    Func(FunTy),
    FuncPtr(FunTy),
}

pub enum ShapeV {
    Int,
    Any,
    Opaque,
    Func(FunTyV),
    FuncPtr(FunTyV),
}

impl View for Shape {
    type V = ShapeV;

    open spec fn view(&self) -> ShapeV {
        match self {
            Shape::Int => ShapeV::Int,
            Shape::Any => ShapeV::Any,
            Shape::Opaque => ShapeV::Opaque,
            Shape::Func(ft) => ShapeV::Func(ft@),
            Shape::FuncPtr(ft) => ShapeV::FuncPtr(ft@),
        }
    }
}

/// The machine-level operation that a conversion performs first.
#[derive(PartialEq, Eq, Structural, Debug, Clone, Copy)]
pub enum Step {
    Keep,
    PtrToInt,
    IntToPtr,
}

pub open spec fn shape_of(v: ValueV) -> ShapeV {
    match v {
        ValueV::Int(_) => ShapeV::Int,
        ValueV::Any(_) => ShapeV::Any,
        ValueV::Opaque(_) => ShapeV::Opaque,
        ValueV::Func(_, ft) => ShapeV::Func(ft),
        ValueV::FuncPtr(_, ft) => ShapeV::FuncPtr(ft),
    }
}

pub open spec fn machine_of(s: ShapeV) -> MachineTy {
    match s {
        ShapeV::Int => MachineTy::I64,
        ShapeV::Any => MachineTy::I64,
        _ => MachineTy::Ptr,
    }
}

/// The step that converting a value of shape `s` to type `t` takes.
pub open spec fn step_spec(s: ShapeV, t: TyV) -> Step {
    match (s, t) {
        (ShapeV::Any, TyV::Fun(_)) => Step::IntToPtr,
        _ => if t == TyV::Raw("$any"@) && machine_of(s) == MachineTy::Ptr {
            Step::PtrToInt
        } else {
            Step::Keep
        },
    }
}

/// The machine representation after the step.
pub open spec fn stepped(s: ShapeV, t: TyV) -> MachineTy {
    match step_spec(s, t) {
        Step::Keep => machine_of(s),
        Step::PtrToInt => MachineTy::I64,
        Step::IntToPtr => MachineTy::Ptr,
    }
}

/// The shape that a machine value of representation `m` has when read as
/// type `t`, where the representation fits.
pub open spec fn cast_shape_spec(m: MachineTy, t: TyV) -> Option<ShapeV> {
    match (m, t) {
        (MachineTy::I64, TyV::Raw(name)) => if name == "int"@ {
            Some(ShapeV::Int)
        } else if name == "$any"@ {
            Some(ShapeV::Any)
        } else {
            None
        },
        (MachineTy::Ptr, TyV::Raw(name)) => if name == "$ENV"@ || name == "$FUTURE"@ {
            Some(ShapeV::Opaque)
        } else {
            None
        },
        (MachineTy::Ptr, TyV::Fun(ft)) => Some(ShapeV::FuncPtr(ft)),
        (MachineTy::I64, TyV::Fun(_)) => None,
    }
}

/// The shape-level rules agree with the value-level ones: converting a value
/// succeeds exactly when its shape's plan does, and yields the planned shape.
pub proof fn law_shapes_follow_values(v: ValueV, t: TyV)
    ensures
        recast_spec(v, t) is Some <==> cast_shape_spec(stepped(shape_of(v), t), t) is Some,
        recast_spec(v, t) is Some ==> shape_of(recast_spec(v, t)->Some_0) == cast_shape_spec(
            stepped(shape_of(v), t),
            t,
        )->Some_0,
{
}

/// The shape of a machine value of representation `m` read as type `ty`.
pub fn cast_shape(m: MachineTy, ty: &Ty) -> (r: Result<Shape, CompileError>)
    ensures
        match cast_shape_spec(m, ty@) {
            Some(x) => r is Ok && r->Ok_0@ == x,
            None => r is Err && r->Err_0@ == CompileErrorV::TypeShapeMismatch,
        },
{
    match (m, ty) {
        (MachineTy::I64, Ty::Raw(name)) => {
            if str_eq(name.as_str(), "int") {
                Ok(Shape::Int)
            } else if str_eq(name.as_str(), "$any") {
                Ok(Shape::Any)
            } else {
                Err(CompileError::TypeShapeMismatch)
            }
        },
        (MachineTy::Ptr, Ty::Raw(name)) => {
            if str_eq(name.as_str(), "$ENV") || str_eq(name.as_str(), "$FUTURE") {
                Ok(Shape::Opaque)
            } else {
                Err(CompileError::TypeShapeMismatch)
            }
        },
        (MachineTy::Ptr, Ty::Fun(ft)) => Ok(Shape::FuncPtr(ft.duplicate())),
        (MachineTy::I64, Ty::Fun(_)) => Err(CompileError::TypeShapeMismatch),
    }
}

/// How to convert a value of shape `s` to type `ty`: the machine step, and
/// the shape of the result; a conversion that does not fit is a
/// TypeShapeMismatch.
pub fn recast_plan(s: &Shape, ty: &Ty) -> (r: Result<(Step, Shape), CompileError>)
    ensures
        match cast_shape_spec(stepped(s@, ty@), ty@) {
            Some(x) => r is Ok && r->Ok_0.0 == step_spec(s@, ty@) && r->Ok_0.1@ == x,
            None => r is Err && r->Err_0@ == CompileErrorV::TypeShapeMismatch,
        },
{
    let is_any = match ty {
        Ty::Raw(name) => str_eq(name.as_str(), "$any"),
        Ty::Fun(_) => false,
    };
    let is_ptr = match s {
        Shape::Int | Shape::Any => false,
        _ => true,
    };
    let step = match (s, ty) {
        (Shape::Any, Ty::Fun(_)) => Step::IntToPtr,
        _ => if is_any && is_ptr {
            Step::PtrToInt
        } else {
            Step::Keep
        },
    };
    let m = match step {
        Step::Keep => if is_ptr {
            MachineTy::Ptr
        } else {
            MachineTy::I64
        },
        Step::PtrToInt => MachineTy::I64,
        Step::IntToPtr => MachineTy::Ptr,
    };
    match cast_shape(m, ty) {
        Ok(x) => Ok((step, x)),
        Err(e) => Err(e),
    }
}

/// How a value of shape `s` is called, and with which signature; only
/// functions can be called.
pub fn call_kind(s: &Shape) -> (r: Result<(CallKind, FunTy), CompileError>)
    ensures
        match s@ {
            ShapeV::Func(ft) => r is Ok && r->Ok_0.0 == CallKind::Direct && r->Ok_0.1@ == ft,
            ShapeV::FuncPtr(ft) => r is Ok && r->Ok_0.0 == CallKind::Indirect && r->Ok_0.1@ == ft,
            _ => r is Err && r->Err_0@ == CompileErrorV::TypeShapeMismatch,
        },
{
    match s {
        Shape::Func(ft) => Ok((CallKind::Direct, ft.duplicate())),
        Shape::FuncPtr(ft) => Ok((CallKind::Indirect, ft.duplicate())),
        _ => Err(CompileError::TypeShapeMismatch),
    }
}

} // verus!
