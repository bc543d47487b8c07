//! What is read off types, expressions and names.

use crate::data::Name;
use crate::declare::{returns_copyable, returns_ref};
use crate::hir::{
    dotted, joined, spec_bool_of_mut, Expr, ExprKind, GenericArg, Mutability, Path, Ty, TyKind,
};
use vstd::prelude::*;

verus! {

/// Only `mut` is mutable, and only reference types are references.
pub proof fn law_mutability_and_references(ty: Ty, m: Mutability)
    ensures
        spec_bool_of_mut(Mutability::Mut),
        !spec_bool_of_mut(Mutability::Not),
        ty.kind == (TyKind::Ref { mutability: m }) ==> ty.spec_is_ref(),
        ty.kind is Adt || ty.kind is Fn || ty.kind is Other ==> !ty.spec_is_ref(),
{
}

/// A return type is judged by itself: it is a reference if it is one outright, and copyable if it
/// can be copied and neither it nor any part of it is a reference.
pub proof fn law_return_type_is_judged_by_itself(fn_expr: Expr, output: Ty)
    requires
        fn_expr.ty.kind == (TyKind::Fn { output: Box::new(output) }),
    ensures
        returns_ref(fn_expr) <==> output.kind is Ref,
        returns_copyable(fn_expr) ==> output.is_copy && !returns_ref(fn_expr),
        forall|i: int|
            0 <= i < output.parts@.len() && #[trigger] output.parts@[i] == (GenericArg::Type {
                is_ref: true,
            }) ==> !returns_copyable(fn_expr),
        output.is_copy && !(output.kind is Ref) && (forall|i: int|
            0 <= i < output.parts@.len() ==> #[trigger] output.parts@[i] != (GenericArg::Type {
                is_ref: true,
            })) ==> returns_copyable(fn_expr),
{
}

/// A type can be asked for its references if it is one, if all its parts are types, or if one of
/// its parts is a reference and all parts before that are types.
pub proof fn law_parts_are_asked_in_order(ty: Ty)
    ensures
        ty.kind is Ref ==> ty.parts_are_types(),
        (forall|i: int| 0 <= i < ty.parts@.len() ==> #[trigger] ty.parts@[i] is Type)
            ==> ty.parts_are_types(),
        !(ty.kind is Ref) ==> forall|i: int|
            0 <= i < ty.parts@.len() && !(#[trigger] ty.parts@[i] is Type) && (forall|j: int|
                0 <= j < i ==> #[trigger] ty.parts@[j] != (GenericArg::Type { is_ref: true }))
                ==> !ty.parts_are_types(),
{
}

/// Only taking an address is taking an address. In a chain of addresses the innermost one decides
/// on mutability.
pub proof fn law_innermost_address_decides(expr: Expr, m: Mutability, inner: Expr)
    ensures
        expr.spec_is_addr() <==> expr.kind is AddrOf,
        !(expr.kind is AddrOf) ==> expr.spec_fetch_mutability() is None,
        expr.kind == ExprKind::AddrOf(m, Box::new(inner)) && !(inner.kind is AddrOf)
            ==> expr.spec_fetch_mutability() == Some(m),
        expr.kind == ExprKind::AddrOf(m, Box::new(inner)) && inner.kind is AddrOf
            ==> expr.spec_fetch_mutability() == inner.spec_fetch_mutability(),
        expr.kind is AddrOf ==> expr.spec_fetch_mutability() is Some,
    decreases expr,
{
    reveal_with_fuel(Expr::spec_fetch_mutability, 2);
    if let ExprKind::AddrOf(_, e) = expr.kind {
        if let ExprKind::AddrOf(n, f) = e.kind {
            law_innermost_address_decides(*e, n, *f);
        }
    }
}

/// A field is named after what it is a field of, with a dot between the names.
pub proof fn law_field_name_has_a_dot(name: Name, field: Name)
    ensures
        dotted(name, field).len() == name.len() + 1 + field.len(),
        dotted(name, field).take(name.len() as int) == name,
        dotted(name, field)[name.len() as int] == '.',
        dotted(name, field).skip((name.len() + 1) as int) == field,
{
    assert(dotted(name, field).take(name.len() as int) =~= name);
    assert(dotted(name, field).skip((name.len() + 1) as int) =~= field);
}

/// A path goes by its first segment, and one that names a constructor by all of its segments, with
/// two colons between them.
pub proof fn law_path_goes_by_its_segments(p: Path, segments: Seq<String>, last: String)
    ensures
        !p.is_ctor ==> p.target() == p.segments@[0]@,
        p.is_ctor ==> p.target() == joined(p.segments@),
        joined(Seq::empty()) == Seq::<char>::empty(),
        joined(seq![last]) == last@,
        segments.len() > 0 ==> joined(segments.push(last)) == joined(segments) + seq![':', ':']
            + last@,
{
    assert(segments.push(last).drop_last() =~= segments);
}

} // verus!
