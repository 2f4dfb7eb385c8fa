use vstd::prelude::*;
use vstd::string::StrSliceExecFns;
use crate::arena::Index;
use crate::ast::{FieldPath, Identifier, Range};
use crate::names::str_eq;
use crate::schema::{
    in_range, range_contains, Binding, EnumLiteral, NumKind, ResolvedCompound, ResolvedEnum,
    ResolvedSuper, ResolvedType, Schema,
};

verus! {

broadcast use vstd::std_specs::vec::axiom_vec_index_decreases;

/// A decoded value tree. Float payloads are their IEEE-754 bit patterns.
pub enum Value {
    Byte(i8),
    Short(i16),
    Int(i32),
    Long(i64),
    Float(u32),
    Double(u64),
    Str(String),
    ByteArray(Vec<i8>),
    IntArray(Vec<i32>),
    LongArray(Vec<i64>),
    List(Vec<Value>),
    Compound(Vec<(String, Value)>),
}

pub enum ValidationErrorKind {
    TypeMismatch,
    RangeViolation,
    LengthViolation,
    EnumValueNotFound,
    UnknownRegistryKey,
    /// No alternative of an `Or` accepted the value: the errors of each, in order.
    NoAlternative { alternatives: Vec<Vec<ValidationError>> },
}

/// A failure, with the path of keys and list positions from the validated root.
pub struct ValidationError {
    pub path: Vec<FieldPath>,
    pub kind: ValidationErrorKind,
}

/// The numeric kind of a scalar value.
pub open spec fn num_kind_of(v: Value) -> Option<NumKind> {
    match v {
        Value::Byte(_) => Some(NumKind::Byte),
        Value::Short(_) => Some(NumKind::Short),
        Value::Int(_) => Some(NumKind::Int),
        Value::Long(_) => Some(NumKind::Long),
        Value::Float(_) => Some(NumKind::Float),
        Value::Double(_) => Some(NumKind::Double),
        _ => None,
    }
}

/// The integer a whole-number value holds.
pub open spec fn int_of(v: Value) -> Option<int> {
    match v {
        Value::Byte(x) => Some(x as int),
        Value::Short(x) => Some(x as int),
        Value::Int(x) => Some(x as int),
        Value::Long(x) => Some(x as int),
        _ => None,
    }
}

pub open spec fn opt_in_range(r: Option<Range<i64>>, x: int) -> bool {
    match r {
        Some(r) => in_range(r, x),
        None => true,
    }
}

/// The integers held by an array value, with its kind.
pub open spec fn array_of(v: Value) -> Option<(NumKind, Seq<int>)> {
    match v {
        Value::ByteArray(a) => Some((NumKind::Byte, a@.map_values(|x: i8| x as int))),
        Value::IntArray(a) => Some((NumKind::Int, a@.map_values(|x: i32| x as int))),
        Value::LongArray(a) => Some((NumKind::Long, a@.map_values(|x: i64| x as int))),
        _ => None,
    }
}

/// Whether a value conforms to a type that has no parts to descend into.
pub open spec fn scalar_conforms(t: ResolvedType, v: Value) -> bool {
    match t {
        ResolvedType::Boolean => v == Value::Byte(0) || v == Value::Byte(1),
        ResolvedType::Str => v is Str,
        ResolvedType::Number { kind, range } => num_kind_of(v) == Some(kind)
            && (int_of(v) is Some ==> opt_in_range(range, int_of(v)->0)),
        ResolvedType::Array { kind, value_range, len_range } => match array_of(v) {
            Some((k, xs)) => k == kind && opt_in_range(len_range, xs.len() as int)
                && forall|i: int| 0 <= i < xs.len() ==> opt_in_range(value_range, #[trigger] xs[i]),
            None => false,
        },
        _ => false,
    }
}

pub open spec fn is_scalar_type(t: ResolvedType) -> bool {
    t is Boolean || t is Str || t is Number || t is Array
}

/// What checking `v` against the alternatives `alts` adds to `before`: nothing, or one
/// failure that holds a non-empty list of errors for each alternative, in order. A scalar
/// alternative that `v` conforms to means nothing is added.
pub open spec fn or_outcome(alts: Seq<ResolvedType>, v: Value, before: Seq<ValidationError>, after: Seq<ValidationError>) -> bool {
    &&& keeps(after, before)
    &&& after.len() == before.len() || (after.len() == before.len() + 1 && match after.last().kind {
        ValidationErrorKind::NoAlternative { alternatives } => alternatives@.len() == alts.len()
            && forall|k: int| 0 <= k < alternatives@.len() ==> (#[trigger] alternatives@[k])@.len() > 0,
        _ => false,
    })
    &&& (exists|k: int| 0 <= k < alts.len() && is_scalar_type(alts[k]) && #[trigger] scalar_conforms(alts[k], v))
        ==> after.len() == before.len()
    &&& (forall|k: int| 0 <= k < alts.len() ==> is_scalar_type(#[trigger] alts[k]) && !scalar_conforms(alts[k], v))
        ==> after.len() == before.len() + 1 && after.last().kind is NoAlternative
}

/// Types whose check reports at most one failure.
pub open spec fn is_simple_type(t: ResolvedType) -> bool {
    t is Boolean || t is Str || t is Number
}

/// The one failure kind that a simple type reports for a value that does not conform.
pub open spec fn simple_failure(t: ResolvedType, v: Value) -> ValidationErrorKind {
    match t {
        ResolvedType::Number { kind, range } => if num_kind_of(v) == Some(kind) {
            ValidationErrorKind::RangeViolation
        } else {
            ValidationErrorKind::TypeMismatch
        },
        _ => ValidationErrorKind::TypeMismatch,
    }
}

/// How many of the items do not conform to the simple type `t`.
pub open spec fn bad_count(t: ResolvedType, items: Seq<Value>) -> nat
    decreases items.len(),
{
    if items.len() == 0 {
        0
    } else {
        bad_count(t, items.drop_last()) + if scalar_conforms(t, items.last()) { 0nat } else { 1nat }
    }
}

/// What checking a list value against a list type of simple items adds: one length
/// failure when the count is out of range, then one failure per item that does not conform.
pub open spec fn list_outcome(t: ResolvedType, v: Value, before: Seq<ValidationError>, after: Seq<ValidationError>) -> bool {
    match (t, v) {
        (ResolvedType::List { item, len_range }, Value::List(items)) => is_simple_type(*item) ==>
            after.len() == before.len() + (if list_too_long_or_short(t, v) { 1nat } else { 0nat })
                + bad_count(*item, items@),
        _ => true,
    }
}

/// A list value whose item count is outside the length range of a list type.
pub open spec fn list_too_long_or_short(t: ResolvedType, v: Value) -> bool {
    match (t, v) {
        (ResolvedType::List { len_range: Some(r), .. }, Value::List(items)) => !in_range(r, items@.len() as int),
        _ => false,
    }
}

/// Whether a value equals one declared value of an enum.
pub open spec fn enum_has(e: ResolvedEnum, v: Value) -> bool {
    exists|i: int| 0 <= i < e.values@.len() && #[trigger] literal_matches(e.values@[i].1.value, v)
}

pub open spec fn literal_matches(l: EnumLiteral, v: Value) -> bool {
    match l {
        EnumLiteral::Int(x) => int_of(v) == Some(x as int),
        EnumLiteral::Bits(b) => match v {
            Value::Float(f) => f as u64 == b,
            Value::Double(d) => d == b,
            _ => false,
        },
        EnumLiteral::Str(s) => match v {
            Value::Str(t) => s@ == t@,
            _ => false,
        },
    }
}

/// `b` is a prefix of `a`.
pub open spec fn keeps(a: Seq<ValidationError>, b: Seq<ValidationError>) -> bool {
    b.len() <= a.len() && forall|j: int| 0 <= j < b.len() ==> a[j] == b[j]
}

/// The text form `namespace:path` of an identifier.
pub open spec fn id_text(id: Identifier) -> Seq<char> {
    id.namespace@ + seq![':'] + id.path@
}

/// Whether `s` is the text form of `id`.
pub fn id_matches(s: &String, id: &Identifier) -> (r: bool)
    ensures
        r == (s@ == id_text(*id)),
{
    let t = s.as_str();
    let ns = id.namespace.as_str();
    let p = id.path.as_str();
    let n = ns.unicode_len();
    let m = p.unicode_len();
    let len = t.unicode_len();
    if n as u128 + m as u128 + 1 != len as u128 {
        return false;
    }
    let ghost want = id_text(*id);
    let mut i: usize = 0;
    while i < len
        invariant
            len == s@.len(),
            t@ == s@,
            n == ns@.len(),
            m == p@.len(),
            want == id_text(*id),
            ns@ == id.namespace@,
            p@ == id.path@,
            want.len() == len,
            i <= len,
            forall|j: int| 0 <= j < i ==> s@[j] == want[j],
        decreases len - i,
    {
        let c = t.get_char(i);
        let w = if i < n {
            ns.get_char(i)
        } else if i == n {
            ':'
        } else {
            p.get_char(i - n - 1)
        };
        assert(w == want[i as int]);
        if c != w {
            assert(s@[i as int] != want[i as int]);
            return false;
        }
        i = i + 1;
    }
    assert(s@ =~= want);
    true
}

/// Whether two identifiers are the same.
pub fn same_id(a: &Identifier, b: &Identifier) -> (r: bool)
    ensures
        r == (a.namespace@ == b.namespace@ && a.path@ == b.path@),
{
    str_eq(&a.namespace, &b.namespace) && str_eq(&a.path, &b.path)
}

/// Whether `b` binds the key written `key` in `registry`.
pub open spec fn binds_key(b: Binding, registry: Identifier, key: Seq<char>) -> bool {
    b.registry.namespace@ == registry.namespace@ && b.registry.path@ == registry.path@
        && b.key is Some && id_text(b.key->0) == key
}

/// Whether `b` covers every key of `registry`.
pub open spec fn binds_all(b: Binding, registry: Identifier) -> bool {
    b.registry.namespace@ == registry.namespace@ && b.registry.path@ == registry.path@ && b.key is None
}

/// The compound bound to `key` in `registry`: the first binding that names the key,
/// else the first that covers every key.
pub open spec fn bound_compound(bs: Seq<Binding>, registry: Identifier, key: Seq<char>) -> Option<usize> {
    if exists|i: int| 0 <= i < bs.len() && #[trigger] binds_key(bs[i], registry, key) {
        let i = choose|i: int| 0 <= i < bs.len() && binds_key(bs[i], registry, key)
            && forall|j: int| 0 <= j < i ==> !#[trigger] binds_key(bs[j], registry, key);
        Some(bs[i].target.spec_pos() as usize)
    } else if exists|i: int| 0 <= i < bs.len() && #[trigger] binds_all(bs[i], registry) {
        let i = choose|i: int| 0 <= i < bs.len() && binds_all(bs[i], registry)
            && forall|j: int| 0 <= j < i ==> !#[trigger] binds_all(bs[j], registry);
        Some(bs[i].target.spec_pos() as usize)
    } else {
        None
    }
}

/// Looks up the compound bound to the key written `key` in `registry`.
pub fn lookup_binding(bs: &Vec<Binding>, registry: &Identifier, key: &String) -> (r: Option<usize>)
    ensures
        r == bound_compound(bs@, *registry, key@),
{
    let mut i: usize = 0;
    while i < bs.len()
        invariant
            i <= bs@.len(),
            forall|j: int| 0 <= j < i ==> !#[trigger] binds_key(bs@[j], *registry, key@),
        decreases bs@.len() - i,
    {
        let b = &bs[i];
        if same_id(&b.registry, registry) {
            if let Some(k) = &b.key {
                if id_matches(key, k) {
                    assert(binds_key(bs@[i as int], *registry, key@));
                    return Some(b.target.pos());
                }
            }
        }
        i = i + 1;
    }
    let mut i: usize = 0;
    while i < bs.len()
        invariant
            i <= bs@.len(),
            forall|j: int| 0 <= j < bs@.len() ==> !#[trigger] binds_key(bs@[j], *registry, key@),
            forall|j: int| 0 <= j < i ==> !#[trigger] binds_all(bs@[j], *registry),
        decreases bs@.len() - i,
    {
        let b = &bs[i];
        if same_id(&b.registry, registry) && b.key.is_none() {
            assert(binds_all(bs@[i as int], *registry));
            return Some(b.target.pos());
        }
        i = i + 1;
    }
    None
}

/// Whether a length satisfies a range.
pub fn len_in_range(r: &Range<i64>, n: usize) -> (b: bool)
    ensures
        b == in_range(*r, n as int),
{
    let x = n as i128;
    match r {
        Range::Single(v) => x == *v as i128,
        Range::Low(v) => x >= *v as i128,
        Range::High(v) => x <= *v as i128,
        Range::Both(lo, hi) => *lo as i128 <= x && x <= *hi as i128,
    }
}

/// Records a failure at `path`.
fn report(path: &Vec<FieldPath>, kind: ValidationErrorKind, out: &mut Vec<ValidationError>)
    ensures
        final(out)@.len() == old(out)@.len() + 1,
        final(out)@.last().kind == kind,
        keeps(final(out)@, old(out)@),
{
    out.push(ValidationError { path: path.clone(), kind });
}

/// The integers of an array value, with its kind.
fn array_ints(v: &Value) -> (r: Option<(NumKind, Vec<i64>)>)
    ensures
        r is Some <==> array_of(*v) is Some,
        r is Some ==> (r->0).0 == (array_of(*v)->0).0
            && (r->0).1@.map_values(|x: i64| x as int) == (array_of(*v)->0).1,
{
    match v {
        Value::ByteArray(a) => {
            let mut out: Vec<i64> = Vec::new();
            for i in 0..a.len()
                invariant
                    out@.len() == i,
                    forall|j: int| 0 <= j < i ==> #[trigger] out@[j] == a@[j] as i64,
            {
                out.push(a[i] as i64);
            }
            assert(out@.map_values(|x: i64| x as int) =~= a@.map_values(|x: i8| x as int));
            Some((NumKind::Byte, out))
        },
        Value::IntArray(a) => {
            let mut out: Vec<i64> = Vec::new();
            for i in 0..a.len()
                invariant
                    out@.len() == i,
                    forall|j: int| 0 <= j < i ==> #[trigger] out@[j] == a@[j] as i64,
            {
                out.push(a[i] as i64);
            }
            assert(out@.map_values(|x: i64| x as int) =~= a@.map_values(|x: i32| x as int));
            Some((NumKind::Int, out))
        },
        Value::LongArray(a) => {
            let mut out: Vec<i64> = Vec::new();
            for i in 0..a.len()
                invariant
                    out@.len() == i,
                    forall|j: int| 0 <= j < i ==> #[trigger] out@[j] == a@[j],
            {
                out.push(a[i]);
            }
            assert(out@.map_values(|x: i64| x as int) =~= a@.map_values(|x: i64| x as int));
            Some((NumKind::Long, out))
        },
        _ => None,
    }
}

/// Whether the value held at a declared enum position matches `v`.
fn literal_is(l: &EnumLiteral, v: &Value) -> (r: bool)
    ensures
        r == literal_matches(*l, *v),
{
    match l {
        EnumLiteral::Int(x) => match v {
            Value::Byte(y) => *y as i64 == *x,
            Value::Short(y) => *y as i64 == *x,
            Value::Int(y) => *y as i64 == *x,
            Value::Long(y) => *y == *x,
            _ => false,
        },
        EnumLiteral::Bits(b) => match v {
            Value::Float(f) => *f as u64 == *b,
            Value::Double(d) => *d == *b,
            _ => false,
        },
        EnumLiteral::Str(s) => match v {
            Value::Str(t) => str_eq(s, t),
            _ => false,
        },
    }
}

/// Whether `v` equals a value that `e` declares.
pub fn enum_contains(e: &ResolvedEnum, v: &Value) -> (r: bool)
    ensures
        r == enum_has(*e, *v),
{
    let mut i: usize = 0;
    while i < e.values.len()
        invariant
            i <= e.values@.len(),
            forall|j: int| 0 <= j < i ==> !#[trigger] literal_matches(e.values@[j].1.value, *v),
        decreases e.values@.len() - i,
    {
        if literal_is(&e.values[i].1.value, v) {
            return true;
        }
        i = i + 1;
    }
    false
}

/// The position of the first entry called `k`, searching from `j` on.
pub open spec fn find_key(entries: Seq<(String, Value)>, k: Seq<char>, j: int) -> Option<int>
    decreases entries.len() - j,
{
    if j < 0 || j >= entries.len() {
        None
    } else if entries[j].0@ == k {
        Some(j)
    } else {
        find_key(entries, k, j + 1)
    }
}

/// The value reached from `v` by following `path` from position `i` on.
pub open spec fn value_at(v: Value, path: Seq<FieldPath>, i: int) -> Option<Value>
    decreases path.len() - i,
{
    if i < 0 || i >= path.len() {
        Some(v)
    } else {
        match (path[i], v) {
            (FieldPath::Key(k), Value::Compound(es)) => match find_key(es@, k@, 0) {
                Some(j) => value_at(es@[j].1, path, i + 1),
                None => None,
            },
            (FieldPath::Index(n), Value::List(items)) => if n < items@.len() {
                value_at(items@[n as int], path, i + 1)
            } else {
                None
            },
            _ => None,
        }
    }
}

pub open spec fn deref_opt(r: Option<&Value>) -> Option<Value> {
    match r {
        Some(x) => Some(*x),
        None => None,
    }
}

/// The value reached from `v` by following `path` from position `i` on.
pub fn read_at<'a>(v: &'a Value, path: &Vec<FieldPath>, i: usize) -> (r: Option<&'a Value>)
    ensures
        deref_opt(r) == value_at(*v, path@, i as int),
    decreases path@.len() - i,
{
    if i >= path.len() {
        return Some(v);
    }
    let next = i + 1;
    match (&path[i], v) {
        (FieldPath::Key(k), Value::Compound(entries)) => {
            let mut j: usize = 0;
            while j < entries.len()
                invariant
                    next == i + 1,
                    i < path@.len(),
                    path@[i as int] == FieldPath::Key(*k),
                    *v == Value::Compound(*entries),
                    j <= entries@.len(),
                    find_key(entries@, k@, 0) == find_key(entries@, k@, j as int),
                decreases entries@.len() - j,
            {
                if str_eq(&entries[j].0, k) {
                    return read_at(&entries[j].1, path, next);
                }
                j = j + 1;
            }
            None
        },
        (FieldPath::Index(n), Value::List(items)) => {
            if *n < items.len() {
                read_at(&items[*n], path, next)
            } else {
                None
            }
        },
        _ => None,
    }
}

/// Compound `c` declares a required field that no entry of the value carries.
pub open spec fn missing_required(schema: Schema, c: int, entries: Seq<(String, Value)>) -> bool {
    exists|i: int| 0 <= i < schema.compounds@[c].fields@.len()
        && !(#[trigger] schema.compounds@[c].fields@[i]).1.optional
        && forall|j: int| 0 <= j < entries.len() ==> (#[trigger] entries[j]).0@ != schema.compounds@[c].fields@[i].0@
}

/// A compound value lacks a required field of compound `c` itself, or of the compound that
/// its registry key selects.
pub open spec fn compound_misses_field(schema: Schema, c: int, v: Value) -> bool {
    match v {
        Value::Compound(entries) => missing_required(schema, c, entries@)
            || (dispatch_target(schema, c, v) is Some && dispatch_target(schema, c, v)->0 < schema.compounds@.len()
                && missing_required(schema, dispatch_target(schema, c, v)->0 as int, entries@)),
        _ => false,
    }
}

/// The compound that registry dispatch of compound `c` picks for `v`, if it picks one.
pub open spec fn dispatch_target(schema: Schema, c: int, v: Value) -> Option<usize> {
    match schema.compounds@[c].sup {
        Some(ResolvedSuper::RegistryDispatch { registry, discriminator }) =>
            match value_at(v, discriminator@, 0) {
                Some(Value::Str(key)) => bound_compound(schema.describes@, registry, key@),
                _ => None,
            },
        _ => None,
    }
}

/// Compound `c` dispatches on a registry, and the key read from `v` is absent, not a
/// string, or bound to nothing.
pub open spec fn dispatch_fails(schema: Schema, c: int, v: Value) -> bool {
    match schema.compounds@[c].sup {
        Some(ResolvedSuper::RegistryDispatch { registry, discriminator }) =>
            match value_at(v, discriminator@, 0) {
                Some(Value::Str(key)) => bound_compound(schema.describes@, registry, key@) is None,
                _ => true,
            },
        _ => false,
    }
}

/// Whether compound `c` declares a field called `name`.
fn declares(c: &ResolvedCompound, name: &String) -> (r: bool) {
    let mut i: usize = 0;
    while i < c.fields.len()
        decreases c.fields@.len() - i,
    {
        if str_eq(&c.fields[i].0, name) {
            return true;
        }
        i = i + 1;
    }
    false
}

/// The static chain of compound `c`, most derived first, at most as long as the arena.
fn static_chain(schema: &Schema, c: usize) -> (r: Vec<usize>)
    ensures
        forall|i: int| 0 <= i < r@.len() ==> #[trigger] r@[i] < schema.compounds@.len(),
        c < schema.compounds@.len() ==> r@.len() > 0 && r@[0] == c,
{
    let n = schema.compounds.len();
    let mut out: Vec<usize> = Vec::new();
    let mut cur: Option<usize> = Some(c);
    let mut steps: usize = 0;
    while steps < n
        invariant
            n == schema.compounds@.len(),
            forall|i: int| 0 <= i < out@.len() ==> #[trigger] out@[i] < n,
            steps == 0 ==> cur == Some(c) && out@.len() == 0,
            steps > 0 ==> out@.len() > 0 && out@[0] == c,
        decreases n - steps,
    {
        match cur {
            Some(x) => {
                if x >= n {
                    return out;
                }
                out.push(x);
                cur = match &schema.compounds.get(&Index::from_pos(x)).sup {
                    Some(ResolvedSuper::Static(i)) => Some(i.pos()),
                    _ => None,
                };
            },
            None => {
                return out;
            },
        }
        steps = steps + 1;
    }
    out
}

/// Checks the fields of compound `c` against the entries of a compound value; a field that
/// a compound in `over` also declares is left to that compound.
fn check_fields(
    schema: &Schema,
    c: usize,
    over: &Vec<usize>,
    entries: &Vec<(String, Value)>,
    path: &mut Vec<FieldPath>,
    out: &mut Vec<ValidationError>,
)
    requires
        c < schema.compounds@.len(),
        forall|i: int| 0 <= i < over@.len() ==> #[trigger] over@[i] < schema.compounds@.len(),
    ensures
        keeps(final(out)@, old(out)@),
        final(path)@ == old(path)@,
        over@.len() == 0 && missing_required(*schema, c as int, entries@) ==> final(out)@.len() > old(out)@.len(),
    decreases entries, entries,
{
    let comp = schema.compounds.get(&Index::from_pos(c));
    let ghost start = out@.len();
    let mut i: usize = 0;
    while i < comp.fields.len()
        invariant
            c < schema.compounds@.len(),
            *comp == schema.compounds@[c as int],
            forall|q: int| 0 <= q < over@.len() ==> #[trigger] over@[q] < schema.compounds@.len(),
            keeps(out@, old(out)@),
            path@ == old(path)@,
            i <= comp.fields@.len(),
            over@.len() == 0 && (exists|q: int| 0 <= q < i && !(#[trigger] comp.fields@[q]).1.optional
                && forall|j: int| 0 <= j < entries@.len() ==> (#[trigger] entries@[j]).0@ != comp.fields@[q].0@)
                ==> out@.len() > old(out)@.len(),
        decreases comp.fields@.len() - i,
    {
        let (name, field) = &comp.fields[i];
        let mut shadowed = false;
        let mut o: usize = 0;
        while o < over.len()
            invariant
                forall|q: int| 0 <= q < over@.len() ==> #[trigger] over@[q] < schema.compounds@.len(),
                over@.len() == 0 ==> !shadowed,
            decreases over@.len() - o,
        {
            if declares(schema.compounds.get(&Index::from_pos(over[o])), name) {
                shadowed = true;
            }
            o = o + 1;
        }
        if !shadowed {
            let mut found: Option<usize> = None;
            let mut j: usize = 0;
            while j < entries.len()
                invariant
                    found is Some ==> found->0 < entries@.len(),
                    found is None ==> forall|q: int| 0 <= q < j ==> (#[trigger] entries@[q]).0@ != name@,
                    found is Some ==> entries@[found->0 as int].0@ == name@,
                    j <= entries@.len(),
                decreases entries@.len() - j,
            {
                if found.is_none() && str_eq(&entries[j].0, name) {
                    found = Some(j);
                }
                j = j + 1;
            }
            let ghost before = out@;
            path.push(FieldPath::Key(name.clone()));
            match found {
                Some(j) => check(schema, &field.ty, &entries[j].1, path, out),
                None => {
                    if !field.optional {
                        report(path, ValidationErrorKind::TypeMismatch, out);
                    }
                },
            }
            path.pop();
        }
        proof {
            if over@.len() == 0 && !comp.fields@[i as int].1.optional
                && forall|q: int| 0 <= q < entries@.len() ==> (#[trigger] entries@[q]).0@ != comp.fields@[i as int].0@ {
                assert(out@.len() > old(out)@.len());
            }
        }
        i = i + 1;
    }
}

/// Checks a compound value against compound `c`: its own and inherited fields, then, where
/// `c` dispatches on a registry, the fields of the compound bound to the key read from it.
fn check_compound(
    schema: &Schema,
    c: usize,
    v: &Value,
    entries: &Vec<(String, Value)>,
    path: &mut Vec<FieldPath>,
    out: &mut Vec<ValidationError>,
)
    requires
        c < schema.compounds@.len(),
        *v == Value::Compound(*entries),
    ensures
        keeps(final(out)@, old(out)@),
        final(path)@ == old(path)@,
        dispatch_fails(*schema, c as int, *v) ==> final(out)@.len() > old(out)@.len()
            && final(out)@.last().kind is UnknownRegistryKey,
        missing_required(*schema, c as int, entries@) ==> final(out)@.len() > old(out)@.len(),
        (dispatch_target(*schema, c as int, *v) is Some && dispatch_target(*schema, c as int, *v)->0 < schema.compounds@.len()
            && missing_required(*schema, dispatch_target(*schema, c as int, *v)->0 as int, entries@))
            ==> final(out)@.len() > old(out)@.len(),
    decreases entries, v,
{
    let chain = static_chain(schema, c);
    let mut k: usize = chain.len();
    let mut over: Vec<usize> = Vec::new();
    while k > 0
        invariant
            k <= chain@.len(),
            *v == Value::Compound(*entries),
            c < schema.compounds@.len(),
            chain@.len() > 0 && chain@[0] == c,
            (k == 0 && missing_required(*schema, c as int, entries@)) ==> out@.len() > old(out)@.len(),
            forall|i: int| 0 <= i < chain@.len() ==> #[trigger] chain@[i] < schema.compounds@.len(),
            keeps(out@, old(out)@),
            path@ == old(path)@,
        decreases k,
    {
        k = k - 1;
        let mut more: Vec<usize> = Vec::new();
        let mut q: usize = 0;
        while q < k
            invariant
                q <= k,
                k < chain@.len(),
                forall|i: int| 0 <= i < chain@.len() ==> #[trigger] chain@[i] < schema.compounds@.len(),
                forall|i: int| 0 <= i < more@.len() ==> #[trigger] more@[i] < schema.compounds@.len(),
                more@.len() == q,
            decreases k - q,
        {
            more.push(chain[q]);
            q = q + 1;
        }
        proof {
            assert(decreases_to!(*v => v->Compound_0));
        }
        check_fields(schema, chain[k], &more, entries, path, out);
        over = more;
    }
    if let Some(ResolvedSuper::RegistryDispatch { registry, discriminator }) = &schema.compounds.get(&Index::from_pos(c)).sup {
        let mut bound: Option<usize> = None;
        if let Some(Value::Str(key)) = read_at(v, discriminator, 0) {
            bound = lookup_binding(&schema.describes, registry, key);
        }
        match bound {
            Some(b) => {
                assert(!dispatch_fails(*schema, c as int, *v));
                assert(dispatch_target(*schema, c as int, *v) == Some(b));
                if b < schema.compounds.len() {
                    let none: Vec<usize> = Vec::new();
                    proof {
                        assert(decreases_to!(*v => v->Compound_0));
                    }
                    check_fields(schema, b, &none, entries, path, out);
                }
            },
            None => report(path, ValidationErrorKind::UnknownRegistryKey, out),
        }
    }
}

/// Appends to `out` every way in which `v` fails to conform to `t`, each at its path below
/// `path`.
fn check(
    schema: &Schema,
    t: &ResolvedType,
    v: &Value,
    path: &mut Vec<FieldPath>,
    out: &mut Vec<ValidationError>,
)
    ensures
        keeps(final(out)@, old(out)@),
        final(path)@ == old(path)@,
        is_scalar_type(*t) ==> (final(out)@.len() == old(out)@.len() <==> scalar_conforms(*t, *v)),
        (t is Enum && schema.enums.contains(t->Enum_0)) ==> (final(out)@.len() == old(out)@.len()
            <==> enum_has(schema.enums@[t->Enum_0.spec_pos() as int], *v)),
        list_too_long_or_short(*t, *v) ==> final(out)@.len() > old(out)@.len()
            && final(out)@[old(out)@.len() as int].kind is LengthViolation,
        t is Or ==> or_outcome(t->Or_0@, *v, old(out)@, final(out)@),
        (t is Compound && v is Compound && schema.compounds.contains(t->Compound_0)
            && dispatch_fails(*schema, t->Compound_0.spec_pos() as int, *v)) ==> final(out)@.len() > old(out)@.len()
            && final(out)@.last().kind is UnknownRegistryKey,
        (t is Compound && v is Compound && schema.compounds.contains(t->Compound_0)
            && compound_misses_field(*schema, t->Compound_0.spec_pos() as int, *v)) ==> final(out)@.len() > old(out)@.len(),
        is_simple_type(*t) ==> final(out)@.len() == old(out)@.len() + (if scalar_conforms(*t, *v) { 0nat } else { 1nat }),
        is_simple_type(*t) && !scalar_conforms(*t, *v) ==> final(out)@.last().kind == simple_failure(*t, *v),
        list_outcome(*t, *v, old(out)@, final(out)@),
    decreases v, t,
{
    match t {
        ResolvedType::Boolean => {
            let ok = match v {
                Value::Byte(b) => *b == 0 || *b == 1,
                _ => false,
            };
            if !ok {
                report(path, ValidationErrorKind::TypeMismatch, out);
            }
        },
        ResolvedType::Str => {
            if !matches!(v, Value::Str(_)) {
                report(path, ValidationErrorKind::TypeMismatch, out);
            }
        },
        ResolvedType::Number { kind, range } => {
            let (vk, x): (NumKind, Option<i64>) = match v {
                Value::Byte(y) => (NumKind::Byte, Some(*y as i64)),
                Value::Short(y) => (NumKind::Short, Some(*y as i64)),
                Value::Int(y) => (NumKind::Int, Some(*y as i64)),
                Value::Long(y) => (NumKind::Long, Some(*y)),
                Value::Float(_) => (NumKind::Float, None),
                Value::Double(_) => (NumKind::Double, None),
                _ => {
                    report(path, ValidationErrorKind::TypeMismatch, out);
                    return;
                },
            };
            if vk != *kind {
                report(path, ValidationErrorKind::TypeMismatch, out);
            } else if let (Some(r), Some(x)) = (range, x) {
                if !range_contains(r, x) {
                    report(path, ValidationErrorKind::RangeViolation, out);
                }
            }
        },
        ResolvedType::Array { kind, value_range, len_range } => {
            match array_ints(v) {
                None => report(path, ValidationErrorKind::TypeMismatch, out),
                Some((k, xs)) => {
                    if k != *kind {
                        report(path, ValidationErrorKind::TypeMismatch, out);
                    } else {
                        let ghost start = out@.len();
                        let ghost ints = xs@.map_values(|x: i64| x as int);
                        let len_ok = match len_range {
                            Some(r) => len_in_range(r, xs.len()),
                            None => true,
                        };
                        if !len_ok {
                            report(path, ValidationErrorKind::LengthViolation, out);
                        }
                        let ghost after_len = out@.len();
                        let mut i: usize = 0;
                        while i < xs.len()
                            invariant
                                i <= xs@.len(),
                                keeps(out@, old(out)@),
                                path@ == old(path)@,
                                ints == xs@.map_values(|x: i64| x as int),
                                after_len <= out@.len(),
                                (out@.len() == after_len) <==> (forall|j: int| 0 <= j < i ==> opt_in_range(*value_range, #[trigger] ints[j])),
                            decreases xs@.len() - i,
                        {
                            if let Some(r) = value_range {
                                if !range_contains(r, xs[i]) {
                                    path.push(FieldPath::Index(i));
                                    report(path, ValidationErrorKind::RangeViolation, out);
                                    path.pop();
                                    assert(!opt_in_range(*value_range, ints[i as int]));
                                }
                            }
                            i = i + 1;
                        }
                    }
                },
            }
        },
        ResolvedType::List { item, len_range } => {
            match v {
                Value::List(items) => {
                    let len_ok = match len_range {
                        Some(r) => len_in_range(r, items.len()),
                        None => true,
                    };
                    if !len_ok {
                        report(path, ValidationErrorKind::LengthViolation, out);
                    }
                    let mut i: usize = 0;
                    assert(items@.subrange(0, 0) =~= Seq::<Value>::empty());
                    while i < items.len()
                        invariant
                            *v == Value::List(*items),
                            *t == (ResolvedType::List { item: *item, len_range: *len_range }),
                            list_too_long_or_short(*t, *v) ==> out@.len() > old(out)@.len()
                                && out@[old(out)@.len() as int].kind is LengthViolation,
                            i <= items@.len(),
                            is_simple_type(**item) ==> out@.len() == old(out)@.len()
                                + (if list_too_long_or_short(*t, *v) { 1nat } else { 0nat })
                                + bad_count(**item, items@.subrange(0, i as int)),
                            keeps(out@, old(out)@),
                            path@ == old(path)@,
                        decreases items@.len() - i,
                    {
                        path.push(FieldPath::Index(i));
                        proof {
                            assert(decreases_to!(*v => v->List_0));
                            assert(decreases_to!(*items => items@[i as int]));
                        }
                        check(schema, item, &items[i], path, out);
                        path.pop();
                        proof {
                            assert(items@.subrange(0, i + 1).drop_last() =~= items@.subrange(0, i as int));
                        }
                        i = i + 1;
                    }
                    assert(items@.subrange(0, items@.len() as int) =~= items@);
                },
                _ => report(path, ValidationErrorKind::TypeMismatch, out),
            }
        },
        ResolvedType::Enum(h) => {
            if h.pos() < schema.enums.len() {
                if !enum_contains(schema.enums.get(h), v) {
                    report(path, ValidationErrorKind::EnumValueNotFound, out);
                }
            } else {
                report(path, ValidationErrorKind::EnumValueNotFound, out);
            }
        },
        ResolvedType::Compound(h) => {
            match v {
                Value::Compound(entries) => {
                    if h.pos() < schema.compounds.len() {
                        check_compound(schema, h.pos(), v, entries, path, out);
                    } else {
                        report(path, ValidationErrorKind::TypeMismatch, out);
                    }
                },
                _ => report(path, ValidationErrorKind::TypeMismatch, out),
            }
        },
        ResolvedType::RegistryIndex { target, path: key_path } => {
            let mut bound: Option<usize> = None;
            if let Some(Value::Str(key)) = read_at(v, key_path, 0) {
                bound = lookup_binding(&schema.describes, target, key);
            }
            match (bound, v) {
                (Some(b), Value::Compound(entries)) => {
                    if b < schema.compounds.len() {
                        let none: Vec<usize> = Vec::new();
                        check_fields(schema, b, &none, entries, path, out);
                    }
                },
                (Some(_), _) => report(path, ValidationErrorKind::TypeMismatch, out),
                (None, _) => report(path, ValidationErrorKind::UnknownRegistryKey, out),
            }
        },
        ResolvedType::Id(registry) => {
            match v {
                Value::Str(key) => {
                    if lookup_binding(&schema.describes, registry, key).is_none() {
                        report(path, ValidationErrorKind::UnknownRegistryKey, out);
                    }
                },
                _ => report(path, ValidationErrorKind::TypeMismatch, out),
            }
        },
        ResolvedType::Or(alts) => {
            let mut failures: Vec<Vec<ValidationError>> = Vec::new();
            let mut i: usize = 0;
            while i < alts.len()
                invariant
                    *t == ResolvedType::Or(*alts),
                    out@ == old(out)@,
                    path@ == old(path)@,
                    i <= alts@.len(),
                    failures@.len() == i,
                    forall|k: int| 0 <= k < i ==> !(is_scalar_type(#[trigger] alts@[k]) && scalar_conforms(alts@[k], *v)),
                    forall|k: int| 0 <= k < i ==> (#[trigger] failures@[k])@.len() > 0,
                    forall|k: int| 0 <= k < i ==> is_scalar_type(#[trigger] alts@[k]) ==> !scalar_conforms(alts@[k], *v),
                decreases alts@.len() - i,
            {
                let mut errs: Vec<ValidationError> = Vec::new();
                proof {
                    assert(decreases_to!(*t => t->Or_0));
                    assert(decreases_to!(*alts => alts@[i as int]));
                }
                check(schema, &alts[i], v, path, &mut errs);
                if errs.len() == 0 {
                    return;
                }
                failures.push(errs);
                i = i + 1;
            }
            let ghost fs = failures@;
            let kind = ValidationErrorKind::NoAlternative { alternatives: failures };
            report(path, kind, out);
            proof {
                assert(out@.last().kind == kind);
                if exists|k: int| 0 <= k < alts@.len() && is_scalar_type(alts@[k]) && #[trigger] scalar_conforms(alts@[k], *v) {
                    let k = choose|k: int| 0 <= k < alts@.len() && is_scalar_type(alts@[k]) && #[trigger] scalar_conforms(alts@[k], *v);
                    assert(is_scalar_type(alts@[k]) ==> !scalar_conforms(alts@[k], *v));
                }
            }
        },
    }
}

/// Checks a value tree against a type of `schema`. Every independent failure is reported,
/// each with its path; an empty result means that the value conforms.
pub fn validate(schema: &Schema, t: &ResolvedType, v: &Value) -> (r: Vec<ValidationError>)
    ensures
        is_scalar_type(*t) ==> (r@.len() == 0 <==> scalar_conforms(*t, *v)),
        (t is Enum && schema.enums.contains(t->Enum_0)) ==> (r@.len() == 0
            <==> enum_has(schema.enums@[t->Enum_0.spec_pos() as int], *v)),
        list_too_long_or_short(*t, *v) ==> r@.len() > 0 && r@[0].kind is LengthViolation,
        t is Or ==> or_outcome(t->Or_0@, *v, Seq::empty(), r@),
        is_simple_type(*t) ==> r@.len() == (if scalar_conforms(*t, *v) { 0nat } else { 1nat }),
        is_simple_type(*t) && !scalar_conforms(*t, *v) ==> r@[0].kind == simple_failure(*t, *v),
        list_outcome(*t, *v, Seq::empty(), r@),
        (t is Compound && v is Compound && schema.compounds.contains(t->Compound_0)
            && compound_misses_field(*schema, t->Compound_0.spec_pos() as int, *v)) ==> r@.len() > 0,
        (t is Compound && v is Compound && schema.compounds.contains(t->Compound_0)
            && dispatch_fails(*schema, t->Compound_0.spec_pos() as int, *v)) ==> r@.len() > 0
            && r@.last().kind is UnknownRegistryKey,
{
    let mut path: Vec<FieldPath> = Vec::new();
    let mut out: Vec<ValidationError> = Vec::new();
    check(schema, t, v, &mut path, &mut out);
    out
}

} // verus!
