//! What the visitor reads of the program: types, expressions and patterns, with the facts that
//! the compiler and the place lookup have established about each of them.

use crate::data::{Name, ResourceAccessPoint, ResourceTy};
use vstd::prelude::*;

verus! {

#[derive(Debug, Clone, Copy, PartialEq, Eq, Structural)]
pub enum Mutability {
    Not,
    Mut,
}

#[derive(Debug, Clone, Copy, PartialEq, Eq, Structural)]
pub enum AdtKind {
    Struct,
    Union,
    Enum,
}

#[derive(Debug, Clone, Copy, PartialEq, Eq, Structural)]
pub enum UnOp {
    Deref,
    Not,
    Neg,
}

/// One of the parts that a type is made of.
#[derive(Debug, Clone, Copy, PartialEq, Eq, Structural)]
pub enum GenericArg {
    Lifetime,
    Type { is_ref: bool },
    Const,
}

#[derive(Debug)]
pub enum TyKind {
    Ref { mutability: Mutability },
    /// A struct, union or enum, with the names of its fields.
    Adt { kind: AdtKind, fields: Vec<String> },
    /// A function, with the type that it returns.
    Fn { output: Box<Ty> },
    Other,
}

/// A type, at the place in the program where it is used.
#[derive(Debug)]
pub struct Ty {
    pub kind: TyKind,
    /// Values of the type are copied, not moved.
    pub is_copy: bool,
    /// The type is a struct or enum that is shown as a plain owner.
    pub is_special_owner: bool,
    /// For a type that can be dereferenced: whether what it points to is a reference.
    pub deref_is_ref: Option<bool>,
    /// The parts of the type below itself, outermost first.
    pub parts: Vec<GenericArg>,
}

/// A path that has been resolved.
#[derive(Debug)]
pub struct Path {
    pub line: usize,
    pub segments: Vec<String>,
    /// The path names a constructor.
    pub is_ctor: bool,
}

#[derive(Debug)]
pub struct ExprField {
    pub name: String,
    pub expr: Expr,
}

#[derive(Debug)]
pub enum ExprKind {
    Path(Path),
    /// A call of a named function; the line is that of the function's name.
    Call { line: usize, fn_name: String },
    /// A call of a method; the line is that of the receiver.
    MethodCall { line: usize, fn_name: String },
    Lit,
    Binary,
    Unary(UnOp, Box<Expr>),
    AddrOf(Mutability, Box<Expr>),
    /// A block, with the expression it ends in.
    Block(Option<Box<Expr>>),
    /// A struct initializer.
    Struct(Vec<ExprField>),
    Field(Box<Expr>, String),
    Ret(Option<Box<Expr>>),
    /// The two branches of a conditional.
    If(Box<Expr>, Option<Box<Expr>>),
    DropTemps(Box<Expr>),
    Other,
}

#[derive(Debug)]
pub struct Expr {
    /// The line on which the expression starts.
    pub line: usize,
    pub ty: Ty,
    /// The access point that the expression comes down to once references and dereferences are
    /// stripped, if it comes down to one.
    pub rap: Option<ResourceAccessPoint>,
    /// The resource that the expression denotes.
    pub resource: ResourceTy,
    /// For a reference that is copied: the resource that it borrows from.
    pub lender: ResourceTy,
    pub kind: ExprKind,
}

/// A variable that a pattern binds.
#[derive(Debug)]
pub struct Binding {
    pub mutability: Mutability,
    pub line: usize,
    pub name: String,
    pub ty: Ty,
    /// The pattern that the bound value has to match as well: `p` in `x @ p`.
    pub sub: Option<Box<Pat>>,
}

#[derive(Debug)]
pub enum Pat {
    TupleStruct(Vec<Pat>),
    /// The patterns of the fields that a struct pattern names.
    Struct(Vec<Pat>),
    Tuple(Vec<Pat>),
    Slice(Vec<Pat>),
    /// The pattern behind a reference or in a box.
    Ref(Box<Pat>),
    /// Alternatives. All of them bind the same variables.
    Or(Vec<Pat>),
    Binding(Binding),
    /// A pattern that binds nothing.
    Other,
}

pub open spec fn spec_bool_of_mut(m: Mutability) -> bool {
    m == Mutability::Mut
}

pub fn bool_of_mut(m: Mutability) -> (result: bool)
    ensures
        result == spec_bool_of_mut(m),
{
    match m {
        Mutability::Not => false,
        Mutability::Mut => true,
    }
}

impl Ty {
    pub open spec fn spec_is_ref(self) -> bool {
        self.kind is Ref
    }

    pub fn is_ref(&self) -> (result: bool)
        ensures
            result == self.spec_is_ref(),
    {
        match self.kind {
            TyKind::Ref { .. } => true,
            _ => false,
        }
    }

    /// A part of the type, or the type itself, is a reference.
    pub open spec fn mentions_ref(self) -> bool {
        self.spec_is_ref() || exists|i: int|
            0 <= i < self.parts@.len() && #[trigger] self.parts@[i] == (GenericArg::Type {
                is_ref: true,
            })
    }

    /// Looking for a reference among the parts meets nothing but types before it ends.
    pub open spec fn parts_are_types(self) -> bool {
        self.spec_is_ref() || forall|i: int|
            0 <= i < self.parts@.len() && !(#[trigger] self.parts@[i] is Type) ==> exists|j: int|
                0 <= j < i && #[trigger] self.parts@[j] == (GenericArg::Type { is_ref: true })
    }
}

impl Expr {
    /// The expression takes an address.
    pub open spec fn spec_is_addr(self) -> bool {
        self.kind is AddrOf
    }

    pub fn is_addr(&self) -> (result: bool)
        ensures
            result == self.spec_is_addr(),
    {
        match self.kind {
            ExprKind::AddrOf(..) => true,
            _ => false,
        }
    }

    /// The mutability of the last reference in a chain such as `&&&mut x`.
    pub open spec fn spec_fetch_mutability(self) -> Option<Mutability>
        decreases self,
    {
        match self.kind {
            ExprKind::AddrOf(m, inner) => match inner.spec_fetch_mutability() {
                Some(last) => Some(last),
                None => Some(m),
            },
            _ => None,
        }
    }

    pub fn fetch_mutability(&self) -> (result: Option<Mutability>)
        ensures
            result == self.spec_fetch_mutability(),
        decreases self,
    {
        match &self.kind {
            ExprKind::AddrOf(m, inner) => match inner.fetch_mutability() {
                Some(last) => Some(last),
                None => Some(*m),
            },
            _ => None,
        }
    }
}

/// A field's name behind the name of what it is a field of: `name.field`.
pub open spec fn dotted(name: Name, field: Name) -> Name {
    name + seq!['.'] + field
}

pub fn field_name(name: &String, field: &String) -> (result: String)
    ensures
        result@ == dotted(name@, field@),
{
    proof {
        reveal_strlit(".");
    }
    let result = name.clone().concat(".").concat(field.as_str());
    assert("."@ =~= seq!['.']);
    result
}

/// The segments with `::` between them.
pub open spec fn joined(segments: Seq<String>) -> Name
    decreases segments.len(),
{
    if segments.len() == 0 {
        Seq::empty()
    } else if segments.len() == 1 {
        segments[0]@
    } else {
        joined(segments.drop_last()) + seq![':', ':'] + segments.last()@
    }
}

impl Path {
    /// The name under which the path's target is known: all of the path for a constructor, its
    /// first segment for anything else.
    pub open spec fn target(self) -> Name {
        if self.is_ctor {
            joined(self.segments@)
        } else {
            self.segments@[0]@
        }
    }

    pub fn target_name(&self) -> (result: String)
        requires
            self.is_ctor || self.segments@.len() > 0,
        ensures
            result@ == self.target(),
    {
        if !self.is_ctor {
            return self.segments[0].clone();
        }
        proof {
            reveal_strlit("::");
            assert("::"@ =~= seq![':', ':']);
        }
        let mut name = String::new();
        let mut i: usize = 0;
        while i < self.segments.len()
            invariant
                i <= self.segments@.len(),
                "::"@ == seq![':', ':'],
                name@ == if i == 0 || i == self.segments@.len() {
                    joined(self.segments@.take(i as int))
                } else {
                    joined(self.segments@.take(i as int)) + seq![':', ':']
                },
            decreases self.segments@.len() - i,
        {
            let ghost before = self.segments@.take(i as int);
            let ghost after = self.segments@.take(i + 1);
            assert(after.drop_last() =~= before);
            assert(after.last() == self.segments@[i as int]);
            name.append(self.segments[i].as_str());
            assert(name@ =~= joined(after));
            if i < self.segments.len() - 1 {
                name.append("::");
            }
            i += 1;
        }
        assert(self.segments@.take(i as int) =~= self.segments@);
        name
    }
}

} // verus!
