use vstd::prelude::*;
use crate::arena::{Arena, Index};
use crate::ast::{
    CompoundSuper, EnumType, Field, InjectType, FieldType, NbtDocFile, NumberArrayType, NumberPrimitiveType,
    PathPart, Range,
};
use crate::inherit::{check_inheritance, has_inheritance_cycle, lemma_self_extension_is_a_cycle, on_cycle};
use crate::names::{copy_names, names_eq, names_view, rewrite, rewrite_path, str_eq};
use crate::schema::{
    copy_range, len_range_is_well_formed, len_range_well_formed, range_is_well_formed,
    range_well_formed, widen16, widen32, widen8, widen_range16, widen_range32, widen_range8,
    Binding, EnumKind, EnumLiteral, NumKind, ResolvedCompound, ResolvedEnum, ResolvedField,
    ResolvedSuper, ResolvedType, Schema, EnumVariant, static_supers,
};

verus! {

broadcast use vstd::std_specs::vec::axiom_vec_index_decreases;

/// A problem found while resolving a set of modules.
pub enum ResolveError {
    UnresolvedReference { module: Vec<String>, path: Vec<PathPart> },
    AmbiguousImport { module: Vec<String>, first: Vec<String>, second: Vec<String> },
    DuplicateDefinition { name: Vec<String> },
    DuplicateMember { target: Vec<String>, member: String },
    CyclicInheritance { chain: Vec<usize> },
    InfiniteStructure { compound: Vec<String>, field: String },
    InvalidRange,
    /// A warning: an alternative of fewer than two types.
    RedundantOrType,
}

/// A declared compound or enum: its qualified name and its slot in the matching arena.
pub struct Decl {
    pub name: Vec<String>,
    pub is_enum: bool,
    pub slot: usize,
}

/// `b` is a prefix of `a`.
pub open spec fn extends(a: Seq<ResolveError>, b: Seq<ResolveError>) -> bool {
    b.len() <= a.len() && forall|j: int| 0 <= j < b.len() ==> a[j] == b[j]
}

pub open spec fn has_invalid_range(s: Seq<ResolveError>) -> bool {
    exists|j: int| 0 <= j < s.len() && #[trigger] s[j] is InvalidRange
}

proof fn lemma_keeps_invalid_range(a: Seq<ResolveError>, b: Seq<ResolveError>)
    requires
        extends(a, b),
        has_invalid_range(b),
    ensures
        has_invalid_range(a),
{
    let j = choose|j: int| 0 <= j < b.len() && #[trigger] b[j] is InvalidRange;
    assert(a[j] is InvalidRange);
}

/// Whether a declared type holds a malformed range, in itself or in the items of its lists
/// (the alternatives of an `Or` are checked too, but not covered here).
pub open spec fn bad_range_in(t: FieldType) -> bool
    decreases t,
{
    match t {
        FieldType::NumberType(n) => match n {
            NumberPrimitiveType::Byte(Some(r)) => !range_well_formed(widen8(r)),
            NumberPrimitiveType::Short(Some(r)) => !range_well_formed(widen16(r)),
            NumberPrimitiveType::Int(Some(r)) => !range_well_formed(widen32(r)),
            NumberPrimitiveType::Long(Some(r)) => !range_well_formed(r),
            _ => false,
        },
        FieldType::ArrayType(a) => match a {
            NumberArrayType::Byte { value_range, len_range } =>
                (value_range is Some && !range_well_formed(widen8(value_range->0)))
                || (len_range is Some && !len_range_well_formed(widen32(len_range->0))),
            NumberArrayType::Int { value_range, len_range } =>
                (value_range is Some && !range_well_formed(widen32(value_range->0)))
                || (len_range is Some && !len_range_well_formed(widen32(len_range->0))),
            NumberArrayType::Long { value_range, len_range } =>
                (value_range is Some && !range_well_formed(value_range->0))
                || (len_range is Some && !len_range_well_formed(widen32(len_range->0))),
        },
        FieldType::ListType { item_type, len_range } =>
            bad_range_in(*item_type)
            || (len_range is Some && !len_range_well_formed(widen32(len_range->0))),
        _ => false,
    }
}

/// The kind and widened range of a declared number type.
pub open spec fn number_form(n: NumberPrimitiveType) -> (NumKind, Option<Range<i64>>) {
    match n {
        NumberPrimitiveType::Byte(r) => (NumKind::Byte, match r { Some(x) => Some(widen8(x)), None => None }),
        NumberPrimitiveType::Short(r) => (NumKind::Short, match r { Some(x) => Some(widen16(x)), None => None }),
        NumberPrimitiveType::Int(r) => (NumKind::Int, match r { Some(x) => Some(widen32(x)), None => None }),
        NumberPrimitiveType::Long(r) => (NumKind::Long, r),
        NumberPrimitiveType::Float => (NumKind::Float, None),
        NumberPrimitiveType::Double => (NumKind::Double, None),
    }
}

/// The kind and widened ranges of a declared array type.
pub open spec fn array_form(a: NumberArrayType) -> (NumKind, Option<Range<i64>>, Option<Range<i64>>) {
    match a {
        NumberArrayType::Byte { value_range, len_range } => (NumKind::Byte,
            match value_range { Some(x) => Some(widen8(x)), None => None },
            match len_range { Some(x) => Some(widen32(x)), None => None }),
        NumberArrayType::Int { value_range, len_range } => (NumKind::Int,
            match value_range { Some(x) => Some(widen32(x)), None => None },
            match len_range { Some(x) => Some(widen32(x)), None => None }),
        NumberArrayType::Long { value_range, len_range } => (NumKind::Long,
            value_range,
            match len_range { Some(x) => Some(widen32(x)), None => None }),
    }
}

/// The resolved form of a declared type, as far as it does not depend on name lookup or
/// on the conversion of nested types.
pub open spec fn converted_shape(t: FieldType, r: ResolvedType) -> bool
    decreases t,
{
    match t {
        FieldType::BooleanType => r is Boolean,
        FieldType::StringType => r is Str,
        FieldType::NumberType(n) => r == (ResolvedType::Number { kind: number_form(n).0, range: number_form(n).1 }),
        FieldType::ArrayType(a) => r == (ResolvedType::Array {
            kind: array_form(a).0,
            value_range: array_form(a).1,
            len_range: array_form(a).2,
        }),
        FieldType::ListType { item_type, len_range } => match r {
            ResolvedType::List { item, len_range: l } => l == match len_range {
                Some(x) => Some(widen32(x)),
                None => None::<Range<i64>>,
            } && converted_shape(*item_type, *item),
            _ => false,
        },
        FieldType::NamedType(_) => r is Compound || r is Enum || r is Boolean,
        FieldType::IndexType { .. } => r is RegistryIndex,
        FieldType::IdType(_) => r is Id,
        FieldType::OrType(alts) => r is Or && r->Or_0@.len() == alts@.len(),
    }
}

/// `r` is the handle of declaration `d`.
pub open spec fn names_decl(d: Decl, r: ResolvedType) -> bool {
    if d.is_enum {
        r is Enum && r->Enum_0.spec_pos() == d.slot
    } else {
        r is Compound && r->Compound_0.spec_pos() == d.slot
    }
}

/// Some field of the list declares a malformed range.
pub open spec fn bad_range_in_fields(fields: Seq<(String, Field)>) -> bool {
    exists|k: int| 0 <= k < fields.len() && #[trigger] bad_range_in(fields[k].1.field_type)
}

/// Finds the declaration with the given qualified name.
pub fn find_decl(decls: &Vec<Decl>, name: &Vec<String>) -> (r: Option<usize>)
    ensures
        r is Some ==> r->0 < decls@.len() && names_view(decls@[r->0 as int].name@) == names_view(name@),
        r is None ==> forall|j: int| 0 <= j < decls@.len() ==> names_view(#[trigger] decls@[j].name@) != names_view(name@),
{
    let mut i: usize = 0;
    while i < decls.len()
        invariant
            i <= decls@.len(),
            forall|j: int| 0 <= j < i ==> names_view(#[trigger] decls@[j].name@) != names_view(name@),
        decreases decls@.len() - i,
    {
        if names_eq(&decls[i].name, name) {
            return Some(i);
        }
        i = i + 1;
    }
    None
}

/// The module an import makes a reference relative to: a glob import names the module
/// itself; an explicit import `a::b::X` supplies `X`, so for a reference starting with `X`
/// it names `a::b`.
pub open spec fn import_base(glob: bool, upath: Seq<PathPart>, first: Seq<char>) -> Option<Seq<Seq<char>>> {
    match rewrite(Seq::<Seq<char>>::empty(), upath) {
        None => None,
        Some(imp) => if glob {
            Some(imp)
        } else if imp.len() > 0 && imp.last() == first {
            Some(imp.drop_last())
        } else {
            None
        },
    }
}

/// The qualified name that import `u` gives a reference starting with `first`.
pub open spec fn import_candidate(u: (bool, Vec<PathPart>), first: Seq<char>, parts: Seq<PathPart>) -> Option<Seq<Seq<char>>> {
    match import_base(u.0, u.1@, first) {
        Some(b) => rewrite(b, parts),
        None => None,
    }
}

/// Import `u` supplies a declaration for the reference.
pub open spec fn supplies(decls: Seq<Decl>, u: (bool, Vec<PathPart>), first: Seq<char>, parts: Seq<PathPart>) -> bool {
    import_candidate(u, first, parts) is Some && registered(decls, import_candidate(u, first, parts)->0)
}

/// The reference names a declaration of the module itself.
pub open spec fn found_locally(decls: Seq<Decl>, module: Seq<Seq<char>>, parts: Seq<PathPart>) -> bool {
    rewrite(module, parts) is Some && registered(decls, rewrite(module, parts)->0)
}

/// The first segment of the reference, when it is a plain name.
pub open spec fn first_name(parts: Seq<PathPart>) -> Option<Seq<char>> {
    if parts.len() > 0 {
        match parts[0] {
            PathPart::Regular(s) => Some(s@),
            _ => None,
        }
    } else {
        None
    }
}

/// Resolves a reference written in `module`: first against the module itself (after
/// `root` and `super`), then through the module's imports. Two imports that both supply
/// the reference make it ambiguous.
pub fn lookup(
    decls: &Vec<Decl>,
    module: &Vec<String>,
    uses: &Vec<(bool, Vec<PathPart>)>,
    parts: &Vec<PathPart>,
) -> (r: Result<usize, ResolveError>)
    ensures
        r is Ok ==> r->Ok_0 < decls@.len(),
        found_locally(decls@, names_view(module@), parts@) ==> r is Ok && names_view(decls@[r->Ok_0 as int].name@)
            == rewrite(names_view(module@), parts@)->0,
        r is Err ==> r->Err_0 is UnresolvedReference || r->Err_0 is AmbiguousImport,
        !found_locally(decls@, names_view(module@), parts@) && first_name(parts@) is Some
            && (exists|k1: int, k2: int| 0 <= k1 < k2 < uses@.len()
                && #[trigger] supplies(decls@, uses@[k1], first_name(parts@)->0, parts@)
                && #[trigger] supplies(decls@, uses@[k2], first_name(parts@)->0, parts@))
            ==> r is Err && r->Err_0 is AmbiguousImport,
        !found_locally(decls@, names_view(module@), parts@) && first_name(parts@) is Some
            && (exists|k: int| 0 <= k < uses@.len() && #[trigger] supplies(decls@, uses@[k], first_name(parts@)->0, parts@)
                && forall|q: int| 0 <= q < uses@.len() && q != k
                    ==> !#[trigger] supplies(decls@, uses@[q], first_name(parts@)->0, parts@))
            ==> r is Ok,
        r is Ok && !found_locally(decls@, names_view(module@), parts@) ==> first_name(parts@) is Some
            && exists|k: int| 0 <= k < uses@.len() && #[trigger] supplies(decls@, uses@[k], first_name(parts@)->0, parts@)
                && names_view(decls@[r->Ok_0 as int].name@) == import_candidate(uses@[k], first_name(parts@)->0, parts@)->0,
        !found_locally(decls@, names_view(module@), parts@) && (first_name(parts@) is None
            || forall|k: int| 0 <= k < uses@.len() ==> !#[trigger] supplies(decls@, uses@[k], first_name(parts@)->0, parts@))
            ==> r is Err && r->Err_0 is UnresolvedReference,
{
    if let Some(local) = rewrite_path(module, parts) {
        if let Some(d) = find_decl(decls, &local) {
            return Ok(d);
        }
    }
    let ghost local_missing = !found_locally(decls@, names_view(module@), parts@);
    assert(local_missing);
    let mut found: Option<(usize, Vec<String>)> = None;
    if parts.len() > 0 {
        if let PathPart::Regular(first) = &parts[0] {
            let ghost fnm = first@;
            assert(first_name(parts@) == Some(fnm));
            let empty: Vec<String> = Vec::new();
            assert(names_view(empty@) =~= Seq::<Seq<char>>::empty());
            let mut u: usize = 0;
            while u < uses.len()
                invariant
                    u <= uses@.len(),
                    local_missing,
                    local_missing == !found_locally(decls@, names_view(module@), parts@),
                    first_name(parts@) == Some(fnm),
                    first@ == fnm,
                    names_view(empty@) == Seq::<Seq<char>>::empty(),
                    found is None ==> forall|q: int| 0 <= q < u ==> !#[trigger] supplies(decls@, uses@[q], fnm, parts@),
                    found is Some ==> (found->0).0 < decls@.len() && exists|k: int| 0 <= k < u
                        && #[trigger] supplies(decls@, uses@[k], fnm, parts@)
                        && names_view(decls@[(found->0).0 as int].name@) == import_candidate(uses@[k], fnm, parts@)->0
                        && forall|q: int| 0 <= q < u && q != k ==> !#[trigger] supplies(decls@, uses@[q], fnm, parts@),
                decreases uses@.len() - u,
            {
                let (glob, upath) = &uses[u];
                let ghost cand_spec = import_candidate(uses@[u as int], fnm, parts@);
                let mut hit: Option<(usize, Vec<String>)> = None;
                if let Some(mut imp) = rewrite_path(&empty, upath) {
                    let mut applies = *glob;
                    let ghost full_imp = names_view(imp@);
                    if !*glob && imp.len() > 0 {
                        let last = imp.len() - 1;
                        applies = str_eq(&imp[last], first);
                        imp.pop();
                        assert(names_view(imp@) =~= full_imp.drop_last());
                    }
                    if applies {
                        assert(import_base(*glob, upath@, fnm) == Some(names_view(imp@)));
                        if let Some(cand) = rewrite_path(&imp, parts) {
                            if let Some(d) = find_decl(decls, &cand) {
                                assert(supplies(decls@, uses@[u as int], fnm, parts@));
                                hit = Some((d, cand));
                            } else {
                                assert(!supplies(decls@, uses@[u as int], fnm, parts@));
                            }
                        }
                    } else {
                        assert(import_base(*glob, upath@, fnm) is None);
                    }
                }
                assert(hit is None ==> !supplies(decls@, uses@[u as int], fnm, parts@));
                match hit {
                    Some((d, cand)) => {
                        match &found {
                            Some((_, earlier)) => {
                                return Err(ResolveError::AmbiguousImport {
                                    module: copy_names(module),
                                    first: copy_names(earlier),
                                    second: cand,
                                });
                            },
                            None => {
                                found = Some((d, cand));
                            },
                        }
                    },
                    None => {},
                }
                u = u + 1;
            }
        }
    }
    match found {
        Some((d, _)) => Ok(d),
        None => Err(ResolveError::UnresolvedReference { module: copy_names(module), path: parts.clone() }),
    }
}

/// Checks a number range, recording `InvalidRange` when it is malformed.
fn check_range(r: &Range<i64>, errs: &mut Vec<ResolveError>)
    ensures
        extends(final(errs)@, old(errs)@),
        !range_well_formed(*r) ==> has_invalid_range(final(errs)@),
{
    if !range_is_well_formed(r) {
        errs.push(ResolveError::InvalidRange);
        assert(final(errs)@[old(errs)@.len() as int] is InvalidRange);
    }
}

/// Checks a length range, recording `InvalidRange` when it is malformed or negative.
fn check_len_range(r: &Option<Range<i32>>, errs: &mut Vec<ResolveError>) -> (w: Option<Range<i64>>)
    ensures
        extends(final(errs)@, old(errs)@),
        (r is Some && !len_range_well_formed(widen32(r->0))) ==> has_invalid_range(final(errs)@),
        w == match r { Some(x) => Some(widen32(*x)), None => None::<Range<i64>> },
{
    match r {
        Some(x) => {
            let w = widen_range32(x);
            if !len_range_is_well_formed(&w) {
                errs.push(ResolveError::InvalidRange);
                assert(final(errs)@[old(errs)@.len() as int] is InvalidRange);
            }
            Some(w)
        },
        None => None,
    }
}

/// Checks an optional value range, already widened.
fn check_opt_range(r: Option<Range<i64>>, errs: &mut Vec<ResolveError>) -> (w: Option<Range<i64>>)
    ensures
        extends(final(errs)@, old(errs)@),
        (r is Some && !range_well_formed(r->0)) ==> has_invalid_range(final(errs)@),
        w == r,
{
    match &r {
        Some(x) => check_range(x, errs),
        None => {},
    }
    r
}

/// What a module sees while its declarations are resolved.
pub struct Scope<'a> {
    pub decls: &'a Vec<Decl>,
    pub module: &'a Vec<String>,
    pub uses: &'a Vec<(bool, Vec<PathPart>)>,
}

/// Turns a declared field type into a resolved one. Problems are appended to `errs`
/// (a malformed range always is), warnings to `warns`; neither loses what it held.
pub fn convert_type(
    scope: &Scope,
    t: &FieldType,
    errs: &mut Vec<ResolveError>,
    warns: &mut Vec<ResolveError>,
) -> (r: ResolvedType)
    ensures
        extends(final(errs)@, old(errs)@),
        bad_range_in(*t) ==> has_invalid_range(final(errs)@),
        converted_shape(*t, r),
        t is NamedType && r is Boolean ==> final(errs)@.len() == old(errs)@.len() + 1,
        t is NamedType && !(r is Boolean) ==> final(errs)@ == old(errs)@,
        t is NamedType && !(r is Boolean) ==> exists|d: int| 0 <= d < scope.decls@.len()
            && #[trigger] names_decl(scope.decls@[d], r)
            && (found_locally(scope.decls@, names_view(scope.module@), t->NamedType_0@)
                ==> names_view(scope.decls@[d].name@) == rewrite(names_view(scope.module@), t->NamedType_0@)->0),
    decreases t,
{
    match t {
        FieldType::BooleanType => ResolvedType::Boolean,
        FieldType::StringType => ResolvedType::Str,
        FieldType::NumberType(n) => {
            let (kind, range) = match n {
                NumberPrimitiveType::Byte(r) => (NumKind::Byte, match r {
                    Some(x) => Some(widen_range8(x)),
                    None => None,
                }),
                NumberPrimitiveType::Short(r) => (NumKind::Short, match r {
                    Some(x) => Some(widen_range16(x)),
                    None => None,
                }),
                NumberPrimitiveType::Int(r) => (NumKind::Int, match r {
                    Some(x) => Some(widen_range32(x)),
                    None => None,
                }),
                NumberPrimitiveType::Long(r) => (NumKind::Long, match r {
                    Some(x) => Some(copy_range(x)),
                    None => None,
                }),
                NumberPrimitiveType::Float => (NumKind::Float, None),
                NumberPrimitiveType::Double => (NumKind::Double, None),
            };
            let range = check_opt_range(range, errs);
            ResolvedType::Number { kind, range }
        },
        FieldType::ArrayType(a) => {
            let (kind, value_range, len_range) = match a {
                NumberArrayType::Byte { value_range, len_range } => (NumKind::Byte, match value_range {
                    Some(x) => Some(widen_range8(x)),
                    None => None,
                }, len_range),
                NumberArrayType::Int { value_range, len_range } => (NumKind::Int, match value_range {
                    Some(x) => Some(widen_range32(x)),
                    None => None,
                }, len_range),
                NumberArrayType::Long { value_range, len_range } => (NumKind::Long, match value_range {
                    Some(x) => Some(copy_range(x)),
                    None => None,
                }, len_range),
            };
            let ghost mid = errs@;
            let value_range = check_opt_range(value_range, errs);
            let ghost mid2 = errs@;
            let len_range = check_len_range(len_range, errs);
            proof {
                if has_invalid_range(mid2) {
                    lemma_keeps_invalid_range(errs@, mid2);
                }
            }
            ResolvedType::Array { kind, value_range, len_range }
        },
        FieldType::ListType { item_type, len_range } => {
            let item = convert_type(scope, item_type, errs, warns);
            let ghost mid = errs@;
            let len_range = check_len_range(len_range, errs);
            proof {
                if has_invalid_range(mid) {
                    lemma_keeps_invalid_range(errs@, mid);
                }
            }
            ResolvedType::List { item: Box::new(item), len_range }
        },
        FieldType::NamedType(path) => {
            match lookup(scope.decls, scope.module, scope.uses, path) {
                Ok(d) => {
                    let decl = &scope.decls[d];
                    let r = if decl.is_enum {
                        ResolvedType::Enum(Index::from_pos(decl.slot))
                    } else {
                        ResolvedType::Compound(Index::from_pos(decl.slot))
                    };
                    assert(names_decl(scope.decls@[d as int], r));
                    r
                },
                Err(e) => {
                    errs.push(e);
                    ResolvedType::Boolean
                },
            }
        },
        FieldType::IndexType { target, path } => ResolvedType::RegistryIndex {
            target: target.clone(),
            path: path.clone(),
        },
        FieldType::IdType(id) => ResolvedType::Id(id.clone()),
        FieldType::OrType(alts) => {
            if alts.len() < 2 {
                warns.push(ResolveError::RedundantOrType);
            }
            let ghost start = errs@;
            let mut out: Vec<ResolvedType> = Vec::new();
            let mut i: usize = 0;
            while i < alts.len()
                invariant
                    *t is OrType,
                    t->OrType_0 == *alts,
                    i <= alts@.len(),
                    out@.len() == i,
                    extends(errs@, start),
                decreases alts@.len() - i,
            {
                let ghost before = errs@;
                let x = convert_type(scope, &alts[i], errs, warns);
                out.push(x);
                i = i + 1;
            }
            ResolvedType::Or(out)
        },
    }
}

/// Names of the members of a compound, in order.
pub open spec fn member_names<F>(fields: Seq<(String, F)>) -> Seq<Seq<char>> {
    fields.map_values(|p: (String, F)| p.0@)
}

/// Adds an injected member unless a member of that name is already there (declared or
/// injected before): then nothing changes and `false` comes back.
pub fn inject_member<F>(fields: &mut Vec<(String, F)>, name: String, member: F) -> (added: bool)
    ensures
        added == !member_names(old(fields)@).contains(name@),
        added ==> final(fields)@ == old(fields)@.push((name, member)),
        !added ==> final(fields)@ == old(fields)@,
{
    let mut i: usize = 0;
    while i < fields.len()
        invariant
            i <= fields@.len(),
            forall|j: int| 0 <= j < i ==> (#[trigger] fields@[j]).0@ != name@,
        decreases fields@.len() - i,
    {
        if str_eq(&fields[i].0, &name) {
            assert(member_names(fields@)[i as int] == name@);
            return false;
        }
        i = i + 1;
    }
    proof {
        if member_names(fields@).contains(name@) {
            let k = choose|k: int| 0 <= k < member_names(fields@).len() && member_names(fields@)[k] == name@;
            assert(fields@[k].0@ == name@);
        }
    }
    fields.push((name, member));
    true
}

/// A member that the target already has, declared or injected, is refused; a new one is
/// then one of its members.
pub proof fn lemma_injection_outcome<F>(before: Seq<(String, F)>, after: Seq<(String, F)>, name: String, member: F, added: bool)
    requires
        added == !member_names(before).contains(name@),
        added ==> after == before.push((name, member)),
        !added ==> after == before,
    ensures
        member_names(before).contains(name@) ==> !added && after == before,
        !member_names(before).contains(name@) ==> added && member_names(after).contains(name@),
{
    if added {
        assert(member_names(after)[before.len() as int] == name@);
    }
}

/// Compound `c` of file `f` declares a malformed range in one of its own fields.
pub open spec fn compound_has_bad_range(files: Seq<(Vec<String>, NbtDocFile)>, f: int, c: int) -> bool {
    bad_range_in_fields(files[f].1.compounds@[c].1.fields@)
}

/// Some compound of the input declares a malformed range in one of its own fields.
pub open spec fn input_has_bad_range(files: Seq<(Vec<String>, NbtDocFile)>) -> bool {
    exists|f: int, c: int|
        0 <= f < files.len() && 0 <= c < files[f].1.compounds@.len()
            && #[trigger] compound_has_bad_range(files, f, c)
}

/// Resolves the fields a compound declares, flagging a required field of the compound's
/// own type (`self_slot`), which could never end.
fn convert_fields(
    scope: &Scope,
    fields: &Vec<(String, Field)>,
    self_slot: Option<usize>,
    cname: &Vec<String>,
    errs: &mut Vec<ResolveError>,
    warns: &mut Vec<ResolveError>,
) -> (r: Vec<(String, ResolvedField)>)
    ensures
        extends(final(errs)@, old(errs)@),
        bad_range_in_fields(fields@) ==> has_invalid_range(final(errs)@),
{
    let mut out: Vec<(String, ResolvedField)> = Vec::new();
    let mut k: usize = 0;
    while k < fields.len()
        invariant
            k <= fields@.len(),
            extends(errs@, old(errs)@),
            (exists|j: int| 0 <= j < k && #[trigger] bad_range_in(fields@[j].1.field_type)) ==> has_invalid_range(errs@),
        decreases fields@.len() - k,
    {
        let ghost before = errs@;
        let (name, field) = &fields[k];
        let ty = convert_type(scope, &field.field_type, errs, warns);
        let ghost mid = errs@;
        if !field.optional {
            if let ResolvedType::Compound(target) = &ty {
                if let Some(me) = self_slot {
                    if target.pos() == me {
                        errs.push(ResolveError::InfiniteStructure { compound: copy_names(cname), field: name.clone() });
                    }
                }
            }
        }
        out.push((name.clone(), ResolvedField { description: field.description.clone(), optional: field.optional, ty }));
        proof {
            if has_invalid_range(before) {
                lemma_keeps_invalid_range(mid, before);
            }
            if has_invalid_range(mid) {
                lemma_keeps_invalid_range(errs@, mid);
            }
        }
        k = k + 1;
    }
    out
}

/// The kind and variants of a declared enum.
fn convert_enum(t: &EnumType) -> (r: (EnumKind, Vec<(String, EnumVariant)>)) {
    let mut out: Vec<(String, EnumVariant)> = Vec::new();
    match t {
        EnumType::Byte(v) => {
            for i in 0..v.len() {
                out.push((v[i].0.clone(), EnumVariant { value: EnumLiteral::Int(v[i].1.value as i64), description: v[i].1.description.clone() }));
            }
            (EnumKind::Byte, out)
        },
        EnumType::Short(v) => {
            for i in 0..v.len() {
                out.push((v[i].0.clone(), EnumVariant { value: EnumLiteral::Int(v[i].1.value as i64), description: v[i].1.description.clone() }));
            }
            (EnumKind::Short, out)
        },
        EnumType::Int(v) => {
            for i in 0..v.len() {
                out.push((v[i].0.clone(), EnumVariant { value: EnumLiteral::Int(v[i].1.value as i64), description: v[i].1.description.clone() }));
            }
            (EnumKind::Int, out)
        },
        EnumType::Long(v) => {
            for i in 0..v.len() {
                out.push((v[i].0.clone(), EnumVariant { value: EnumLiteral::Int(v[i].1.value), description: v[i].1.description.clone() }));
            }
            (EnumKind::Long, out)
        },
        EnumType::Float(v) => {
            for i in 0..v.len() {
                out.push((v[i].0.clone(), EnumVariant { value: EnumLiteral::Bits(v[i].1.value as u64), description: v[i].1.description.clone() }));
            }
            (EnumKind::Float, out)
        },
        EnumType::Double(v) => {
            for i in 0..v.len() {
                out.push((v[i].0.clone(), EnumVariant { value: EnumLiteral::Bits(v[i].1.value), description: v[i].1.description.clone() }));
            }
            (EnumKind::Double, out)
        },
        EnumType::String(v) => {
            for i in 0..v.len() {
                out.push((v[i].0.clone(), EnumVariant { value: EnumLiteral::Str(v[i].1.value.clone()), description: v[i].1.description.clone() }));
            }
            (EnumKind::Str, out)
        },
    }
}

/// The qualified name of a declaration in `module`.
fn qualify(module: &Vec<String>, name: &String) -> (r: Vec<String>)
    ensures
        names_view(r@) == names_view(module@).push(name@),
{
    let mut full = copy_names(module);
    let ghost before = full@;
    full.push(name.clone());
    assert(names_view(full@) =~= names_view(before).push(name@));
    full
}

/// The qualified name of compound `c` of file `f`.
pub open spec fn compound_name(files: Seq<(Vec<String>, NbtDocFile)>, f: int, c: int) -> Seq<Seq<char>> {
    names_view(files[f].0@).push(files[f].1.compounds@[c].0@)
}

/// Compound `c` of file `f` comes before the point `(pf, pc)` of a walk over the input.
pub open spec fn walked(files: Seq<(Vec<String>, NbtDocFile)>, f: int, c: int, pf: int, pc: int) -> bool {
    0 <= f < files.len() && 0 <= c < files[f].1.compounds@.len() && (f < pf || (f == pf && c < pc))
}

/// Two compounds before `(pf, pc)` share a qualified name.
pub open spec fn duplicate_before(files: Seq<(Vec<String>, NbtDocFile)>, pf: int, pc: int) -> bool {
    exists|f1: int, c1: int, f2: int, c2: int|
        #[trigger] walked(files, f1, c1, pf, pc) && #[trigger] walked(files, f2, c2, pf, pc)
            && (f1 < f2 || (f1 == f2 && c1 < c2))
            && compound_name(files, f1, c1) == compound_name(files, f2, c2)
}

/// Two compounds of the input share a qualified name.
pub open spec fn input_has_duplicate(files: Seq<(Vec<String>, NbtDocFile)>) -> bool {
    duplicate_before(files, files.len() as int, 0)
}

pub open spec fn has_duplicate_definition(s: Seq<ResolveError>) -> bool {
    exists|j: int| 0 <= j < s.len() && #[trigger] s[j] is DuplicateDefinition
}

proof fn lemma_keeps_duplicate(a: Seq<ResolveError>, b: Seq<ResolveError>)
    requires
        extends(a, b),
        has_duplicate_definition(b),
    ensures
        has_duplicate_definition(a),
{
    let j = choose|j: int| 0 <= j < b.len() && #[trigger] b[j] is DuplicateDefinition;
    assert(a[j] is DuplicateDefinition);
}

/// Some declaration carries the name `n`.
pub open spec fn registered(ds: Seq<Decl>, n: Seq<Seq<char>>) -> bool {
    exists|j: int| 0 <= j < ds.len() && names_view(#[trigger] ds[j].name@) == n
}

proof fn lemma_registered_push(ds: Seq<Decl>, d: Decl, n: Seq<Seq<char>>)
    requires
        registered(ds, n),
    ensures
        registered(ds.push(d), n),
{
    let j = choose|j: int| 0 <= j < ds.len() && names_view(#[trigger] ds[j].name@) == n;
    assert(ds.push(d)[j] == ds[j]);
}

/// Registers every compound and enum by qualified name; a name declared twice is reported.
/// Returns the table and, for each compound in input order, its slot (none for a duplicate).
fn collect_decls(
    files: &Vec<(Vec<String>, NbtDocFile)>,
    errs: &mut Vec<ResolveError>,
) -> (r: (Vec<Decl>, Vec<Option<usize>>, usize, usize))
    ensures
        extends(final(errs)@, old(errs)@),
        files@.len() == 0 ==> final(errs)@ == old(errs)@,
        input_has_duplicate(files@) ==> has_duplicate_definition(final(errs)@),
{
    let mut decls: Vec<Decl> = Vec::new();
    let mut slots: Vec<Option<usize>> = Vec::new();
    let mut n_comp: usize = 0;
    let mut n_enum: usize = 0;
    let mut f: usize = 0;
    while f < files.len()
        invariant
            f <= files@.len(),
            files@.len() == 0 ==> errs@ == old(errs)@,
            extends(errs@, old(errs)@),
            forall|ff: int, cc: int| #[trigger] walked(files@, ff, cc, f as int, 0)
                ==> registered(decls@, compound_name(files@, ff, cc)),
            duplicate_before(files@, f as int, 0) ==> has_duplicate_definition(errs@),
        decreases files@.len() - f,
    {
        let (module, file) = &files[f];
        let mut c: usize = 0;
        while c < file.compounds.len()
            invariant
                c <= file.compounds@.len(),
                f < files@.len(),
                *file == files@[f as int].1,
                *module == files@[f as int].0,
                extends(errs@, old(errs)@),
                forall|ff: int, cc: int| #[trigger] walked(files@, ff, cc, f as int, c as int)
                    ==> registered(decls@, compound_name(files@, ff, cc)),
                duplicate_before(files@, f as int, c as int) ==> has_duplicate_definition(errs@),
            decreases file.compounds@.len() - c,
        {
            let full = qualify(module, &file.compounds[c].0);
            let ghost before_errs = errs@;
            let ghost before_decls = decls@;
            assert(names_view(full@) == compound_name(files@, f as int, c as int));
            let known = find_decl(&decls, &full);
            if known.is_some() {
                errs.push(ResolveError::DuplicateDefinition { name: full });
                slots.push(None);
                proof {
                    assert(errs@[errs@.len() - 1] is DuplicateDefinition);
                    assert(registered(decls@, compound_name(files@, f as int, c as int)));
                }
            } else {
                let name = copy_names(&full);
                let ghost d = Decl { name: full, is_enum: false, slot: n_comp };
                decls.push(Decl { name: full, is_enum: false, slot: n_comp });
                if n_comp < usize::MAX {
                    slots.push(Some(n_comp));
                    n_comp = n_comp + 1;
                } else {
                    errs.push(ResolveError::DuplicateDefinition { name });
                    slots.push(None);
                }
                proof {
                    assert forall|ff: int, cc: int| #[trigger] walked(files@, ff, cc, f as int, c as int)
                        implies registered(decls@, compound_name(files@, ff, cc)) by {
                        lemma_registered_push(before_decls, d, compound_name(files@, ff, cc));
                    }
                    assert(decls@[decls@.len() - 1] == d);
                    assert(names_view(decls@[decls@.len() - 1].name@) == compound_name(files@, f as int, c as int));
                    assert(registered(decls@, compound_name(files@, f as int, c as int)));
                }
            }
            proof {
                assert forall|ff: int, cc: int| #[trigger] walked(files@, ff, cc, f as int, c + 1)
                    implies registered(decls@, compound_name(files@, ff, cc)) by {
                    if !walked(files@, ff, cc, f as int, c as int) {
                        assert(ff == f && cc == c);
                    }
                }
                if duplicate_before(files@, f as int, c + 1) {
                    if duplicate_before(files@, f as int, c as int) {
                        lemma_keeps_duplicate(errs@, before_errs);
                    } else {
                        let (f1, c1, f2, c2) = choose|f1: int, c1: int, f2: int, c2: int|
                            #[trigger] walked(files@, f1, c1, f as int, c + 1) && #[trigger] walked(files@, f2, c2, f as int, c + 1)
                                && (f1 < f2 || (f1 == f2 && c1 < c2))
                                && compound_name(files@, f1, c1) == compound_name(files@, f2, c2);
                        if walked(files@, f2, c2, f as int, c as int) {
                            assert(walked(files@, f1, c1, f as int, c as int));
                            assert(false);
                        }
                        assert(f2 == f && c2 == c);
                        assert(walked(files@, f1, c1, f as int, c as int));
                        assert(registered(before_decls, compound_name(files@, f as int, c as int)));
                        assert(known is Some);
                    }
                }
            }
            c = c + 1;
        }
        proof {
            assert forall|ff: int, cc: int| #[trigger] walked(files@, ff, cc, f + 1, 0)
                implies walked(files@, ff, cc, f as int, c as int) by {}
            if duplicate_before(files@, f + 1, 0) {
                let (f1, c1, f2, c2) = choose|f1: int, c1: int, f2: int, c2: int|
                    #[trigger] walked(files@, f1, c1, f + 1, 0) && #[trigger] walked(files@, f2, c2, f + 1, 0)
                        && (f1 < f2 || (f1 == f2 && c1 < c2))
                        && compound_name(files@, f1, c1) == compound_name(files@, f2, c2);
                assert(walked(files@, f1, c1, f as int, c as int));
                assert(walked(files@, f2, c2, f as int, c as int));
            }
        }
        let mut e: usize = 0;
        while e < file.enums.len()
            invariant
                e <= file.enums@.len(),
                extends(errs@, old(errs)@),
                forall|ff: int, cc: int| #[trigger] walked(files@, ff, cc, f + 1, 0)
                    ==> registered(decls@, compound_name(files@, ff, cc)),
                duplicate_before(files@, f + 1, 0) ==> has_duplicate_definition(errs@),
            decreases file.enums@.len() - e,
        {
            let full = qualify(module, &file.enums[e].0);
            let ghost before_errs = errs@;
            let ghost before_decls = decls@;
            if find_decl(&decls, &full).is_some() || n_enum == usize::MAX {
                errs.push(ResolveError::DuplicateDefinition { name: full });
            } else {
                let ghost d = Decl { name: full, is_enum: true, slot: n_enum };
                decls.push(Decl { name: full, is_enum: true, slot: n_enum });
                n_enum = n_enum + 1;
                proof {
                    assert forall|ff: int, cc: int| #[trigger] walked(files@, ff, cc, f + 1, 0)
                        implies registered(decls@, compound_name(files@, ff, cc)) by {
                        lemma_registered_push(before_decls, d, compound_name(files@, ff, cc));
                    }
                }
            }
            proof {
                if duplicate_before(files@, f + 1, 0) {
                    lemma_keeps_duplicate(errs@, before_errs);
                }
            }
            e = e + 1;
        }
        f = f + 1;
    }
    (decls, slots, n_comp, n_enum)
}

/// A compound injection, by target slot: the file and the position of the `inject` in it.
pub struct Injection {
    pub target: usize,
    pub file: usize,
    pub index: usize,
}

/// Resolves the target of every injection, in file order and then declaration order.
/// Returns compound injections and enum injections separately.
fn collect_injections(
    files: &Vec<(Vec<String>, NbtDocFile)>,
    decls: &Vec<Decl>,
    errs: &mut Vec<ResolveError>,
) -> (r: (Vec<Injection>, Vec<Injection>))
    ensures
        extends(final(errs)@, old(errs)@),
        files@.len() == 0 ==> final(errs)@ == old(errs)@,
        forall|i: int| 0 <= i < r.0@.len() ==> (#[trigger] r.0@[i]).file < files@.len()
            && r.0@[i].index < files@[r.0@[i].file as int].1.injects@.len(),
        forall|i: int| 0 <= i < r.1@.len() ==> (#[trigger] r.1@[i]).file < files@.len()
            && r.1@[i].index < files@[r.1@[i].file as int].1.injects@.len(),
{
    let mut comp: Vec<Injection> = Vec::new();
    let mut en: Vec<Injection> = Vec::new();
    let mut f: usize = 0;
    while f < files.len()
        invariant
            f <= files@.len(),
            files@.len() == 0 ==> errs@ == old(errs)@,
            extends(errs@, old(errs)@),
            forall|i: int| 0 <= i < comp@.len() ==> (#[trigger] comp@[i]).file < files@.len()
                && comp@[i].index < files@[comp@[i].file as int].1.injects@.len(),
            forall|i: int| 0 <= i < en@.len() ==> (#[trigger] en@[i]).file < files@.len()
                && en@[i].index < files@[en@[i].file as int].1.injects@.len(),
        decreases files@.len() - f,
    {
        let (module, file) = &files[f];
        let scope = Scope { decls, module, uses: &file.uses };
        let mut i: usize = 0;
        while i < file.injects.len()
            invariant
                i <= file.injects@.len(),
                f < files@.len(),
                *file == files@[f as int].1,
                extends(errs@, old(errs)@),
                forall|j: int| 0 <= j < comp@.len() ==> (#[trigger] comp@[j]).file < files@.len()
                    && comp@[j].index < files@[comp@[j].file as int].1.injects@.len(),
                forall|j: int| 0 <= j < en@.len() ==> (#[trigger] en@[j]).file < files@.len()
                    && en@[j].index < files@[en@[j].file as int].1.injects@.len(),
            decreases file.injects@.len() - i,
        {
            let inj = &file.injects[i];
            match lookup(decls, module, &file.uses, &inj.target) {
                Ok(d) => {
                    let is_enum_inject = match &inj.ty {
                        InjectType::Enum(_) => true,
                        InjectType::Compound(_) => false,
                    };
                    if decls[d].is_enum != is_enum_inject {
                        errs.push(ResolveError::UnresolvedReference { module: copy_names(module), path: inj.target.clone() });
                    } else if is_enum_inject {
                        en.push(Injection { target: decls[d].slot, file: f, index: i });
                    } else {
                        comp.push(Injection { target: decls[d].slot, file: f, index: i });
                    }
                },
                Err(e) => errs.push(e),
            }
            i = i + 1;
        }
        f = f + 1;
    }
    (comp, en)
}

/// The static `extend` target of a compound, resolved in its module.
fn convert_super(scope: &Scope, sup: &Option<CompoundSuper>, errs: &mut Vec<ResolveError>) -> (r: Option<ResolvedSuper>)
    ensures
        extends(final(errs)@, old(errs)@),
{
    match sup {
        None => None,
        Some(CompoundSuper::Compound(path)) => match lookup(scope.decls, scope.module, scope.uses, path) {
            Ok(d) => {
                if scope.decls[d].is_enum {
                    errs.push(ResolveError::UnresolvedReference { module: copy_names(scope.module), path: path.clone() });
                    None
                } else {
                    Some(ResolvedSuper::Static(Index::from_pos(scope.decls[d].slot)))
                }
            },
            Err(e) => {
                errs.push(e);
                None
            },
        },
        Some(CompoundSuper::Registry { target, path }) => Some(ResolvedSuper::RegistryDispatch {
            registry: target.clone(),
            discriminator: path.clone(),
        }),
    }
}

/// Applies, in order, the compound injections aimed at `slot`.
fn apply_injections(
    files: &Vec<(Vec<String>, NbtDocFile)>,
    decls: &Vec<Decl>,
    injections: &Vec<Injection>,
    slot: usize,
    cname: &Vec<String>,
    fields: &mut Vec<(String, ResolvedField)>,
    errs: &mut Vec<ResolveError>,
    warns: &mut Vec<ResolveError>,
)
    requires
        forall|i: int| 0 <= i < injections@.len() ==> (#[trigger] injections@[i]).file < files@.len()
            && injections@[i].index < files@[injections@[i].file as int].1.injects@.len(),
    ensures
        extends(final(errs)@, old(errs)@),
{
    let mut i: usize = 0;
    while i < injections.len()
        invariant
            i <= injections@.len(),
            extends(errs@, old(errs)@),
            forall|j: int| 0 <= j < injections@.len() ==> (#[trigger] injections@[j]).file < files@.len()
                && injections@[j].index < files@[injections@[j].file as int].1.injects@.len(),
        decreases injections@.len() - i,
    {
        let inj = &injections[i];
        if inj.target == slot {
            let (module, file) = &files[inj.file];
            let scope = Scope { decls, module, uses: &file.uses };
            if let InjectType::Compound(added) = &file.injects[inj.index].ty {
                let mut k: usize = 0;
                while k < added.len()
                    invariant
                        k <= added@.len(),
                        extends(errs@, old(errs)@),
                    decreases added@.len() - k,
                {
                    let (name, decl) = &added[k];
                    let field = ResolvedField {
                        description: decl.description.clone(),
                        optional: decl.optional,
                        ty: convert_type(&scope, &decl.field_type, errs, warns),
                    };
                    if !inject_member(fields, name.clone(), field) {
                        errs.push(ResolveError::DuplicateMember { target: copy_names(cname), member: name.clone() });
                    }
                    k = k + 1;
                }
            }
        }
        i = i + 1;
    }
}

/// The static `extend` target of one compound.
pub open spec fn super_pos(c: ResolvedCompound) -> Option<usize> {
    match c.sup {
        Some(ResolvedSuper::Static(i)) => Some(i.spec_pos() as usize),
        _ => None,
    }
}

/// Builds every compound in declaration order, with its injected members.
fn build_compounds(
    files: &Vec<(Vec<String>, NbtDocFile)>,
    decls: &Vec<Decl>,
    slots: &Vec<Option<usize>>,
    injections: &Vec<Injection>,
    errs: &mut Vec<ResolveError>,
    warns: &mut Vec<ResolveError>,
) -> (r: (Arena<ResolvedCompound>, Vec<Option<usize>>))
    requires
        forall|i: int| 0 <= i < injections@.len() ==> (#[trigger] injections@[i]).file < files@.len()
            && injections@[i].index < files@[injections@[i].file as int].1.injects@.len(),
    ensures
        extends(final(errs)@, old(errs)@),
        files@.len() == 0 ==> final(errs)@ == old(errs)@,
        input_has_bad_range(files@) ==> has_invalid_range(final(errs)@),
        r.1@ == static_supers(r.0@),
        files@.len() == 0 ==> r.0@.len() == 0,
{
    let mut compounds: Arena<ResolvedCompound> = Arena::new();
    let mut supers: Vec<Option<usize>> = Vec::new();
    let mut k: usize = 0;
    let mut f: usize = 0;
    while f < files.len()
        invariant
            f <= files@.len(),
            files@.len() == 0 ==> errs@ == old(errs)@,
            files@.len() == 0 ==> compounds@.len() == 0,
            extends(errs@, old(errs)@),
            supers@ =~= static_supers(compounds@),
            forall|i: int| 0 <= i < injections@.len() ==> (#[trigger] injections@[i]).file < files@.len()
                && injections@[i].index < files@[injections@[i].file as int].1.injects@.len(),
            (exists|ff: int, c: int| 0 <= ff < f && 0 <= c < files@[ff].1.compounds@.len()
                && #[trigger] compound_has_bad_range(files@, ff, c)) ==> has_invalid_range(errs@),
        decreases files@.len() - f,
    {
        let (module, file) = &files[f];
        let scope = Scope { decls, module, uses: &file.uses };
        let mut c: usize = 0;
        while c < file.compounds.len()
            invariant
                c <= file.compounds@.len(),
                f < files@.len(),
                *file == files@[f as int].1,
                extends(errs@, old(errs)@),
                supers@ =~= static_supers(compounds@),
                forall|i: int| 0 <= i < injections@.len() ==> (#[trigger] injections@[i]).file < files@.len()
                    && injections@[i].index < files@[injections@[i].file as int].1.injects@.len(),
                ((exists|ff: int, cc: int| 0 <= ff < f && 0 <= cc < files@[ff].1.compounds@.len()
                    && #[trigger] compound_has_bad_range(files@, ff, cc))
                || (exists|cc: int| 0 <= cc < c && #[trigger] compound_has_bad_range(files@, f as int, cc)))
                    ==> has_invalid_range(errs@),
            decreases file.compounds@.len() - c,
        {
            let ghost before = errs@;
            let (name, def) = &file.compounds[c];
            let cname = qualify(module, name);
            let slot = if k < slots.len() { slots[k] } else { None };
            let mut fields = convert_fields(&scope, &def.fields, slot, &cname, errs, warns);
            let ghost mid = errs@;
            if let Some(me) = slot {
                apply_injections(files, decls, injections, me, &cname, &mut fields, errs, warns);
                let sup = convert_super(&scope, &def.extend, errs);
                if compounds.len() < usize::MAX {
                    let ghost cs = compounds@;
                    let sp = match &sup {
                        Some(ResolvedSuper::Static(i)) => Some(i.pos()),
                        _ => None,
                    };
                    let rc = ResolvedCompound { description: def.description.clone(), fields, sup };
                    assert(super_pos(rc) == sp);
                    compounds.push(rc);
                    supers.push(sp);
                    assert(static_supers(compounds@) =~= static_supers(cs).push(sp));
                }
            }
            proof {
                if has_invalid_range(before) {
                    lemma_keeps_invalid_range(mid, before);
                }
                if has_invalid_range(mid) {
                    lemma_keeps_invalid_range(errs@, mid);
                }
            }
            if k < usize::MAX {
                k = k + 1;
            }
            c = c + 1;
        }
        f = f + 1;
    }
    (compounds, supers)
}

/// Builds every enum in declaration order, with its injected variants.
fn build_enums(
    files: &Vec<(Vec<String>, NbtDocFile)>,
    injections: &Vec<Injection>,
    errs: &mut Vec<ResolveError>,
) -> (r: Arena<ResolvedEnum>)
    requires
        forall|i: int| 0 <= i < injections@.len() ==> (#[trigger] injections@[i]).file < files@.len()
            && injections@[i].index < files@[injections@[i].file as int].1.injects@.len(),
    ensures
        extends(final(errs)@, old(errs)@),
        files@.len() == 0 ==> final(errs)@ == old(errs)@,
{
    let mut enums: Arena<ResolvedEnum> = Arena::new();
    let mut seen: Vec<Vec<String>> = Vec::new();
    let mut f: usize = 0;
    while f < files.len()
        invariant
            f <= files@.len(),
            files@.len() == 0 ==> errs@ == old(errs)@,
            extends(errs@, old(errs)@),
            forall|i: int| 0 <= i < injections@.len() ==> (#[trigger] injections@[i]).file < files@.len()
                && injections@[i].index < files@[injections@[i].file as int].1.injects@.len(),
        decreases files@.len() - f,
    {
        let (module, file) = &files[f];
        let mut e: usize = 0;
        while e < file.enums.len()
            invariant
                e <= file.enums@.len(),
                extends(errs@, old(errs)@),
                forall|i: int| 0 <= i < injections@.len() ==> (#[trigger] injections@[i]).file < files@.len()
                    && injections@[i].index < files@[injections@[i].file as int].1.injects@.len(),
            decreases file.enums@.len() - e,
        {
            let (name, def) = &file.enums[e];
            let ename = qualify(module, name);
            let mut known = false;
            let mut j: usize = 0;
            while j < seen.len()
                decreases seen@.len() - j,
            {
                if names_eq(&seen[j], &ename) {
                    known = true;
                }
                j = j + 1;
            }
            if !known && enums.len() < usize::MAX {
                let slot = enums.len();
                let (kind, mut values) = convert_enum(&def.values);
                let mut i: usize = 0;
                while i < injections.len()
                    invariant
                        extends(errs@, old(errs)@),
                        forall|q: int| 0 <= q < injections@.len() ==> (#[trigger] injections@[q]).file < files@.len()
                            && injections@[q].index < files@[injections@[q].file as int].1.injects@.len(),
                    decreases injections@.len() - i,
                {
                    let inj = &injections[i];
                    if inj.target == slot {
                        if let InjectType::Enum(t) = &files[inj.file].1.injects[inj.index].ty {
                            let (_, added) = convert_enum(t);
                            let mut a: usize = 0;
                            while a < added.len()
                                invariant
                                    extends(errs@, old(errs)@),
                                decreases added@.len() - a,
                            {
                                let v = EnumVariant {
                                    value: match &added[a].1.value {
                                        EnumLiteral::Int(x) => EnumLiteral::Int(*x),
                                        EnumLiteral::Bits(x) => EnumLiteral::Bits(*x),
                                        EnumLiteral::Str(x) => EnumLiteral::Str(x.clone()),
                                    },
                                    description: added[a].1.description.clone(),
                                };
                                if !inject_member(&mut values, added[a].0.clone(), v) {
                                    errs.push(ResolveError::DuplicateMember { target: copy_names(&ename), member: added[a].0.clone() });
                                }
                                a = a + 1;
                            }
                        }
                    }
                    i = i + 1;
                }
                enums.push(ResolvedEnum { description: def.description.clone(), kind, values });
                seen.push(ename);
            }
            e = e + 1;
        }
        f = f + 1;
    }
    enums
}

/// Binds registry keys to compounds as each `describe` says.
fn collect_bindings(
    files: &Vec<(Vec<String>, NbtDocFile)>,
    decls: &Vec<Decl>,
    errs: &mut Vec<ResolveError>,
) -> (r: Vec<Binding>)
    ensures
        extends(final(errs)@, old(errs)@),
        files@.len() == 0 ==> final(errs)@ == old(errs)@,
{
    let mut out: Vec<Binding> = Vec::new();
    let mut f: usize = 0;
    while f < files.len()
        invariant
            f <= files@.len(),
            files@.len() == 0 ==> errs@ == old(errs)@,
            extends(errs@, old(errs)@),
        decreases files@.len() - f,
    {
        let (module, file) = &files[f];
        let mut i: usize = 0;
        while i < file.describes.len()
            invariant
                i <= file.describes@.len(),
                extends(errs@, old(errs)@),
            decreases file.describes@.len() - i,
        {
            let (path, def) = &file.describes[i];
            match lookup(decls, module, &file.uses, path) {
                Ok(d) => {
                    if decls[d].is_enum {
                        errs.push(ResolveError::UnresolvedReference { module: copy_names(module), path: path.clone() });
                    } else {
                        let target = decls[d].slot;
                        match &def.targets {
                            Some(keys) => {
                                let mut k: usize = 0;
                                while k < keys.len()
                                    decreases keys@.len() - k,
                                {
                                    out.push(Binding {
                                        registry: def.describe_type.clone(),
                                        key: Some(keys[k].clone()),
                                        target: Index::from_pos(target),
                                    });
                                    k = k + 1;
                                }
                            },
                            None => out.push(Binding {
                                registry: def.describe_type.clone(),
                                key: None,
                                target: Index::from_pos(target),
                            }),
                        }
                    }
                },
                Err(e) => errs.push(e),
            }
            i = i + 1;
        }
        f = f + 1;
    }
    out
}

/// Resolves a set of modules, each given with its qualified module path, into a schema.
/// Structural problems are all reported together; an inheritance cycle is reported as
/// soon as it is found. On success the warnings come with the schema.
pub fn resolve(files: &Vec<(Vec<String>, NbtDocFile)>) -> (r: Result<(Schema, Vec<ResolveError>), Vec<ResolveError>>)
    ensures
        input_has_bad_range(files@) ==> r is Err && has_invalid_range(r->Err_0@),
        input_has_duplicate(files@) ==> r is Err && has_duplicate_definition(r->Err_0@),
        files@.len() == 0 ==> r is Ok && r->Ok_0.0.compounds@.len() == 0,
        r is Ok ==> !has_inheritance_cycle(static_supers(r->Ok_0.0.compounds@)),
        r is Ok ==> forall|c: int| 0 <= c < r->Ok_0.0.compounds@.len()
            ==> !on_cycle(static_supers(r->Ok_0.0.compounds@), c),
{
    let mut errs: Vec<ResolveError> = Vec::new();
    let mut warns: Vec<ResolveError> = Vec::new();
    let (decls, slots, _n_comp, _n_enum) = collect_decls(files, &mut errs);
    let ghost declared = errs@;
    let (comp_inj, enum_inj) = collect_injections(files, &decls, &mut errs);
    let (compounds, supers) = build_compounds(files, &decls, &slots, &comp_inj, &mut errs, &mut warns);
    let ghost mid = errs@;
    let enums = build_enums(files, &enum_inj, &mut errs);
    let describes = collect_bindings(files, &decls, &mut errs);
    proof {
        if input_has_bad_range(files@) {
            lemma_keeps_invalid_range(errs@, mid);
        }
        if input_has_duplicate(files@) {
            lemma_keeps_duplicate(errs@, declared);
        }
    }
    match check_inheritance(&supers) {
        Err(chain) => {
            let ghost pre = errs@;
            errs.push(ResolveError::CyclicInheritance { chain });
            proof {
                if input_has_bad_range(files@) {
                    lemma_keeps_invalid_range(errs@, pre);
                }
                if input_has_duplicate(files@) {
                    lemma_keeps_duplicate(errs@, pre);
                }
            }
            return Err(errs);
        },
        Ok(()) => {},
    }
    if errs.len() > 0 {
        return Err(errs);
    }
    proof {
        assert forall|c: int| 0 <= c < compounds@.len() implies !on_cycle(static_supers(compounds@), c) by {
            if on_cycle(static_supers(compounds@), c) {
                lemma_self_extension_is_a_cycle(static_supers(compounds@), c);
            }
        }
    }
    Ok((Schema { compounds, enums, describes }, warns))
}

} // verus!
