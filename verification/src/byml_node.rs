use vstd::prelude::*;

use roead::byml::Byml;

verus! {

/// One level of a BYML node: the value of a scalar, the children of an
/// array or of a string-keyed map.  Floating-point values and the
/// integer-keyed maps are known by their kind alone.
pub enum NodeView {
    Str(Seq<char>),
    Binary(Seq<u8>),
    File(Seq<u8>),
    Array(Seq<Byml>),
    StrMap(Map<Seq<char>, Byml>),
    U32Map,
    U32ValueMap,
    Bool(bool),
    I32(i32),
    Float,
    U32(u32),
    I64(i64),
    U64(u64),
    Double,
    Null,
}

/// What a BYML node holds, one level deep.
pub uninterp spec fn byml_view(node: Byml) -> NodeView;

/// Whether `Byml::eq` counts `a` equal to `b`: the same kind with equal
/// values, floating-point values compared with a tolerance, containers
/// compared item by item.
pub uninterp spec fn byml_equal(a: Byml, b: Byml) -> bool;

/// The node `Byml::U32(h)`.
pub uninterp spec fn u32_node(h: u32) -> Byml;

/// `Byml::eq`: whether two nodes are equal as BYML compares them.
#[verifier::external_body]
pub fn byml_eq(a: &Byml, b: &Byml) -> (res: bool)
    ensures
        res == byml_equal(*a, *b),
{
    a == b
}

/// `Byml::U32`: the unsigned-integer node holding `h`.
#[verifier::external_body]
pub fn make_u32_node(h: u32) -> (res: Byml)
    ensures
        res == u32_node(h),
        byml_view(res) == NodeView::U32(h),
{
    Byml::U32(h)
}

/// A node read as a `u32`, as `Byml::as_int` reads it: an integer node is
/// cast with `as`, another kind has no integer value.
pub open spec fn spec_as_u32(v: NodeView) -> Option<u32> {
    match v {
        NodeView::I32(x) => Some(x as u32),
        NodeView::U32(x) => Some(x),
        NodeView::I64(x) => Some(x as u32),
        NodeView::U64(x) => Some(x as u32),
        _ => None,
    }
}

/// `Byml::as_int::<u32>`: the node read as a `u32`, when it is an integer.
#[verifier::external_body]
pub fn byml_as_u32(n: &Byml) -> (res: Option<u32>)
    ensures
        res == spec_as_u32(byml_view(*n)),
{
    n.as_int::<u32>().ok()
}

/// A copy of a BYML node (`Byml::clone`, derived: it copies every field).
#[verifier::external_body]
pub fn clone_byml(b: &Byml) -> (res: Byml)
    ensures
        res == *b,
{
    b.clone()
}

} // verus!
