use vstd::prelude::*;
use crate::arena::{Arena, Index};
use crate::ast::{FieldPath, Identifier, Range};

verus! {

/// Whether an integer satisfies a range.
pub open spec fn in_range(r: Range<i64>, x: int) -> bool {
    match r {
        Range::Single(v) => x == v,
        Range::Low(v) => x >= v,
        Range::High(v) => x <= v,
        Range::Both(lo, hi) => lo <= x <= hi,
    }
}

/// A range is well formed unless it is `Both(lo, hi)` with `lo > hi`.
pub open spec fn range_well_formed(r: Range<i64>) -> bool {
    match r {
        Range::Both(lo, hi) => lo <= hi,
        _ => true,
    }
}

/// A length range is well formed when it is well formed and no bound is negative.
pub open spec fn len_range_well_formed(r: Range<i64>) -> bool {
    range_well_formed(r) && match r {
        Range::Single(v) => v >= 0,
        Range::Low(v) => v >= 0,
        Range::High(v) => v >= 0,
        Range::Both(lo, hi) => lo >= 0 && hi >= 0,
    }
}

/// Whether `x` satisfies `r`.
pub fn range_contains(r: &Range<i64>, x: i64) -> (b: bool)
    ensures
        b == in_range(*r, x as int),
{
    match r {
        Range::Single(v) => x == *v,
        Range::Low(v) => x >= *v,
        Range::High(v) => x <= *v,
        Range::Both(lo, hi) => *lo <= x && x <= *hi,
    }
}

/// Whether `r` is well formed.
pub fn range_is_well_formed(r: &Range<i64>) -> (b: bool)
    ensures
        b == range_well_formed(*r),
{
    match r {
        Range::Both(lo, hi) => *lo <= *hi,
        _ => true,
    }
}

/// Whether `r` is a well-formed length range.
pub fn len_range_is_well_formed(r: &Range<i64>) -> (b: bool)
    ensures
        b == len_range_well_formed(*r),
{
    range_is_well_formed(r) && match r {
        Range::Single(v) => *v >= 0,
        Range::Low(v) => *v >= 0,
        Range::High(v) => *v >= 0,
        Range::Both(lo, hi) => *lo >= 0 && *hi >= 0,
    }
}

/// The same range over `i64`.
pub open spec fn widen8(r: Range<i8>) -> Range<i64> {
    match r {
        Range::Single(v) => Range::Single(v as i64),
        Range::Low(v) => Range::Low(v as i64),
        Range::High(v) => Range::High(v as i64),
        Range::Both(a, b) => Range::Both(a as i64, b as i64),
    }
}

pub open spec fn widen16(r: Range<i16>) -> Range<i64> {
    match r {
        Range::Single(v) => Range::Single(v as i64),
        Range::Low(v) => Range::Low(v as i64),
        Range::High(v) => Range::High(v as i64),
        Range::Both(a, b) => Range::Both(a as i64, b as i64),
    }
}

pub open spec fn widen32(r: Range<i32>) -> Range<i64> {
    match r {
        Range::Single(v) => Range::Single(v as i64),
        Range::Low(v) => Range::Low(v as i64),
        Range::High(v) => Range::High(v as i64),
        Range::Both(a, b) => Range::Both(a as i64, b as i64),
    }
}

pub fn widen_range8(r: &Range<i8>) -> (w: Range<i64>)
    ensures
        w == widen8(*r),
{
    match r {
        Range::Single(v) => Range::Single(*v as i64),
        Range::Low(v) => Range::Low(*v as i64),
        Range::High(v) => Range::High(*v as i64),
        Range::Both(a, b) => Range::Both(*a as i64, *b as i64),
    }
}

pub fn widen_range16(r: &Range<i16>) -> (w: Range<i64>)
    ensures
        w == widen16(*r),
{
    match r {
        Range::Single(v) => Range::Single(*v as i64),
        Range::Low(v) => Range::Low(*v as i64),
        Range::High(v) => Range::High(*v as i64),
        Range::Both(a, b) => Range::Both(*a as i64, *b as i64),
    }
}

pub fn widen_range32(r: &Range<i32>) -> (w: Range<i64>)
    ensures
        w == widen32(*r),
{
    match r {
        Range::Single(v) => Range::Single(*v as i64),
        Range::Low(v) => Range::Low(*v as i64),
        Range::High(v) => Range::High(*v as i64),
        Range::Both(a, b) => Range::Both(*a as i64, *b as i64),
    }
}

pub fn copy_range(r: &Range<i64>) -> (w: Range<i64>)
    ensures
        w == *r,
{
    match r {
        Range::Single(v) => Range::Single(*v),
        Range::Low(v) => Range::Low(*v),
        Range::High(v) => Range::High(*v),
        Range::Both(a, b) => Range::Both(*a, *b),
    }
}

/// Scalar kinds of numbers, arrays and enums.
#[derive(PartialEq, Eq, Structural, Clone, Copy)]
pub enum NumKind {
    Byte,
    Short,
    Int,
    Long,
    Float,
    Double,
}

/// A field type with every name reference replaced by an arena handle.
pub enum ResolvedType {
    Boolean,
    Number { kind: NumKind, range: Option<Range<i64>> },
    Str,
    Array { kind: NumKind, value_range: Option<Range<i64>>, len_range: Option<Range<i64>> },
    List { item: Box<ResolvedType>, len_range: Option<Range<i64>> },
    Compound(Index<ResolvedCompound>),
    Enum(Index<ResolvedEnum>),
    RegistryIndex { target: Identifier, path: Vec<FieldPath> },
    Id(Identifier),
    Or(Vec<ResolvedType>),
}

pub struct ResolvedField {
    pub description: String,
    pub optional: bool,
    pub ty: ResolvedType,
}

/// What a resolved compound extends.
pub enum ResolvedSuper {
    Static(Index<ResolvedCompound>),
    RegistryDispatch { registry: Identifier, discriminator: Vec<FieldPath> },
}

pub struct ResolvedCompound {
    pub description: String,
    /// Own fields in declaration order, injected fields after them.
    pub fields: Vec<(String, ResolvedField)>,
    pub sup: Option<ResolvedSuper>,
}

/// A declared enum value: integers widened to `i64`, floats as bit patterns.
pub enum EnumLiteral {
    Int(i64),
    Bits(u64),
    Str(String),
}

pub struct ResolvedEnum {
    pub description: String,
    pub kind: EnumKind,
    /// Variants by name, in declaration order, injected ones after them.
    pub values: Vec<(String, EnumVariant)>,
}

pub struct EnumVariant {
    pub value: EnumLiteral,
    pub description: String,
}

#[derive(PartialEq, Eq, Structural, Clone, Copy)]
pub enum EnumKind {
    Byte,
    Short,
    Int,
    Long,
    Float,
    Double,
    Str,
}

/// A describe binding: values under `key` of `registry` conform to `target`; a binding
/// without a key covers every key of the registry that no keyed binding names.
pub struct Binding {
    pub registry: Identifier,
    pub key: Option<Identifier>,
    pub target: Index<ResolvedCompound>,
}

/// The static `extend` target of each compound, by position.
pub open spec fn static_supers(cs: Seq<ResolvedCompound>) -> Seq<Option<usize>> {
    cs.map_values(|c: ResolvedCompound| match c.sup {
        Some(ResolvedSuper::Static(i)) => Some(i.spec_pos() as usize),
        _ => None,
    })
}

/// The closed result of resolution.
pub struct Schema {
    pub compounds: Arena<ResolvedCompound>,
    pub enums: Arena<ResolvedEnum>,
    pub describes: Vec<Binding>,
}

} // verus!
