use vstd::prelude::*;

verus! {

/// A namespaced name such as `minecraft:stone`.
#[derive(Clone, Debug, PartialEq)]
pub struct Identifier {
    pub namespace: String,
    pub path: String,
}

/// One step through a value tree: a named key of a compound or a position in a list.
#[derive(Clone, Debug, PartialEq)]
pub enum FieldPath {
    Key(String),
    Index(usize),
}

/// One segment of a name reference as written in a schema source.
#[derive(Clone, Debug, PartialEq)]
pub enum PathPart {
    Root,
    Super,
    Regular(String),
}

/// The syntax tree of one schema module.
#[derive(Debug, PartialEq)]
pub struct NbtDocFile {
    /// Imports: `true` marks a glob import of every name of the named module.
    pub uses: Vec<(bool, Vec<PathPart>)>,
    pub compounds: Vec<(String, CompoundDef)>,
    pub enums: Vec<(String, EnumDef)>,
    pub describes: Vec<(Vec<PathPart>, DescribeDef)>,
    pub mods: Vec<String>,
    pub injects: Vec<InjectDef>,
}

/// Members added to a compound or enum that another module declares.
#[derive(Debug, PartialEq)]
pub struct InjectDef {
    pub ty: InjectType,
    pub target: Vec<PathPart>,
}

#[derive(Debug, PartialEq)]
pub enum InjectType {
    Compound(Vec<(String, Field)>),
    Enum(EnumType),
}

#[derive(Debug, PartialEq)]
pub struct CompoundDef {
    pub description: String,
    pub fields: Vec<(String, Field)>,
    pub extend: Option<CompoundSuper>,
}

/// What a compound extends: another compound, or whatever a registry key read from the value names.
#[derive(Debug, PartialEq)]
pub enum CompoundSuper {
    Compound(Vec<PathPart>),
    Registry { target: Identifier, path: Vec<FieldPath> },
}

#[derive(Debug, PartialEq)]
pub struct Field {
    pub description: String,
    pub optional: bool,
    pub field_type: FieldType,
}

/// A bound on a number or a length.
#[derive(Debug, PartialEq)]
pub enum Range<T> {
    Single(T),
    Low(T),
    High(T),
    Both(T, T),
}

#[derive(Debug, PartialEq)]
pub enum FieldType {
    BooleanType,
    NumberType(NumberPrimitiveType),
    StringType,
    ArrayType(NumberArrayType),
    ListType { item_type: Box<FieldType>, len_range: Option<Range<i32>> },
    NamedType(Vec<PathPart>),
    IndexType { target: Identifier, path: Vec<FieldPath> },
    IdType(Identifier),
    OrType(Vec<FieldType>),
}

/// Numeric field kinds. Float kinds carry no range here: their bounds are not checked.
#[derive(Debug, PartialEq)]
pub enum NumberPrimitiveType {
    Byte(Option<Range<i8>>),
    Short(Option<Range<i16>>),
    Int(Option<Range<i32>>),
    Long(Option<Range<i64>>),
    Float,
    Double,
}

#[derive(Debug, PartialEq)]
pub enum NumberArrayType {
    Byte { value_range: Option<Range<i8>>, len_range: Option<Range<i32>> },
    Int { value_range: Option<Range<i32>>, len_range: Option<Range<i32>> },
    Long { value_range: Option<Range<i64>>, len_range: Option<Range<i32>> },
}

/// Enum variants with their values. Float values are held as their IEEE-754 bit patterns.
#[derive(Debug, PartialEq)]
pub enum EnumType {
    Byte(Vec<(String, EnumValue<i8>)>),
    Short(Vec<(String, EnumValue<i16>)>),
    Int(Vec<(String, EnumValue<i32>)>),
    Long(Vec<(String, EnumValue<i64>)>),
    Float(Vec<(String, EnumValue<u32>)>),
    Double(Vec<(String, EnumValue<u64>)>),
    String(Vec<(String, EnumValue<String>)>),
}

#[derive(Debug, PartialEq)]
pub struct EnumDef {
    pub description: String,
    pub values: EnumType,
}

#[derive(Debug, PartialEq)]
pub struct EnumValue<T> {
    pub description: String,
    pub value: T,
}

/// Binds registry keys (`targets`, or every key when absent) of a registry to a compound.
#[derive(Debug, PartialEq)]
pub struct DescribeDef {
    pub describe_type: Identifier,
    pub targets: Option<Vec<Identifier>>,
}

} // verus!
