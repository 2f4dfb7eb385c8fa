use nbtdoc::arena::{Arena, Index};
use nbtdoc::ast::{
    CompoundDef, CompoundSuper, DescribeDef, EnumDef, EnumType, EnumValue, Field, FieldPath,
    FieldType, Identifier, InjectDef, InjectType, NbtDocFile, NumberArrayType,
    NumberPrimitiveType, PathPart, Range,
};
use nbtdoc::inherit::check_inheritance;
use nbtdoc::resolve::{lookup, resolve, Decl, ResolveError};
use nbtdoc::schema::{ResolvedSuper, ResolvedType, Schema};

fn s(x: &str) -> String {
    x.to_string()
}

fn path(parts: &[&str]) -> Vec<PathPart> {
    parts
        .iter()
        .map(|p| match *p {
            "root" => PathPart::Root,
            "super" => PathPart::Super,
            other => PathPart::Regular(s(other)),
        })
        .collect()
}

fn field(t: FieldType) -> Field {
    Field { description: s(""), optional: false, field_type: t }
}

fn compound(fields: Vec<(&str, Field)>, extend: Option<CompoundSuper>) -> CompoundDef {
    CompoundDef {
        description: s(""),
        fields: fields.into_iter().map(|(n, f)| (s(n), f)).collect(),
        extend,
    }
}

fn empty_file() -> NbtDocFile {
    NbtDocFile {
        uses: vec![],
        compounds: vec![],
        enums: vec![],
        describes: vec![],
        mods: vec![],
        injects: vec![],
    }
}

fn module(name: &str, file: NbtDocFile) -> (Vec<String>, NbtDocFile) {
    (vec![s(name)], file)
}

fn errors(files: &Vec<(Vec<String>, NbtDocFile)>) -> Vec<ResolveError> {
    match resolve(files) {
        Ok(_) => panic!("resolution should fail"),
        Err(e) => e,
    }
}

fn schema(files: &Vec<(Vec<String>, NbtDocFile)>) -> (Schema, Vec<ResolveError>) {
    match resolve(files) {
        Ok(r) => r,
        Err(e) => panic!("resolution failed with {} errors", e.len()),
    }
}

fn int_field(r: Range<i32>) -> Field {
    field(FieldType::NumberType(NumberPrimitiveType::Int(Some(r))))
}

#[test]
fn arena_push_get_set() {
    let mut a: Arena<u32> = Arena::new();
    assert_eq!(a.len(), 0);
    let i = a.push(7);
    let j = a.push(9);
    assert_eq!(i.pos(), 0);
    assert_eq!(j.pos(), 1);
    assert_eq!(*a.get(&j), 9);
    a.set(&i, 3);
    assert_eq!(*a.get(&i), 3);
    assert_eq!(a.iter().copied().collect::<Vec<u32>>(), vec![3, 9]);
    assert!(i.same(&Index::from_pos(0)));
    assert!(!i.same(&j));
    assert!(i == Index::from_pos(0));
    assert!(i != j);
}

#[test]
fn arena_default_is_empty() {
    let a: Arena<u8> = Arena::default();
    assert_eq!(a.len(), 0);
}

#[test]
fn empty_input_resolves_to_empty_schema() {
    let (sc, warns) = schema(&vec![]);
    assert_eq!(sc.compounds.len(), 0);
    assert!(warns.is_empty());
}

#[test]
fn ast_values_compare_structurally() {
    assert_eq!(path(&["root", "m", "A"]), path(&["root", "m", "A"]));
    assert_ne!(int_field(Range::Low(1)), int_field(Range::Low(2)));
}

#[test]
fn arena_iter_mut_changes_in_place() {
    let mut a: Arena<u32> = Arena::new();
    a.push(1);
    a.push(2);
    for x in a.iter_mut() {
        *x += 10;
    }
    assert_eq!(a.iter().copied().collect::<Vec<u32>>(), vec![11, 12]);
}

#[test]
fn inverted_number_range_is_invalid() {
    for (lo, hi) in [(5, 1), (0, -1), (i32::MAX, i32::MIN)] {
        let mut f = empty_file();
        f.compounds.push((s("A"), compound(vec![("x", int_field(Range::Both(lo, hi)))], None)));
        let errs = errors(&vec![module("m", f)]);
        assert!(errs.iter().any(|e| matches!(e, ResolveError::InvalidRange)));
    }
}

#[test]
fn inverted_byte_range_in_list_item_is_invalid() {
    let mut f = empty_file();
    let item = FieldType::NumberType(NumberPrimitiveType::Byte(Some(Range::Both(3, 2))));
    let t = FieldType::ListType { item_type: Box::new(item), len_range: None };
    f.compounds.push((s("A"), compound(vec![("x", field(t))], None)));
    let errs = errors(&vec![module("m", f)]);
    assert!(errs.iter().any(|e| matches!(e, ResolveError::InvalidRange)));
}

#[test]
fn negative_length_bound_is_invalid() {
    let mut f = empty_file();
    let t = FieldType::ArrayType(NumberArrayType::Int { value_range: None, len_range: Some(Range::Low(-1)) });
    f.compounds.push((s("A"), compound(vec![("x", field(t))], None)));
    let errs = errors(&vec![module("m", f)]);
    assert!(errs.iter().any(|e| matches!(e, ResolveError::InvalidRange)));
}

#[test]
fn equal_bounds_are_valid() {
    let mut f = empty_file();
    f.compounds.push((s("A"), compound(vec![("x", int_field(Range::Both(4, 4)))], None)));
    let (sc, warns) = schema(&vec![module("m", f)]);
    assert_eq!(sc.compounds.len(), 1);
    assert!(warns.is_empty());
}

#[test]
fn two_step_extend_cycle_is_reported() {
    let mut f = empty_file();
    f.compounds.push((s("A"), compound(vec![], Some(CompoundSuper::Compound(path(&["B"]))))));
    f.compounds.push((s("B"), compound(vec![], Some(CompoundSuper::Compound(path(&["A"]))))));
    let errs = errors(&vec![module("m", f)]);
    assert!(errs.iter().any(|e| matches!(e, ResolveError::CyclicInheritance { .. })));
}

#[test]
fn self_extend_is_reported() {
    let mut f = empty_file();
    f.compounds.push((s("A"), compound(vec![], Some(CompoundSuper::Compound(path(&["A"]))))));
    let errs = errors(&vec![module("m", f)]);
    assert!(errs.iter().any(|e| matches!(e, ResolveError::CyclicInheritance { .. })));
}

#[test]
fn long_extend_cycle_is_reported() {
    let mut f = empty_file();
    let names = ["A", "B", "C", "D", "E"];
    for i in 0..names.len() {
        let next = names[(i + 1) % names.len()];
        f.compounds.push((s(names[i]), compound(vec![], Some(CompoundSuper::Compound(path(&[next]))))));
    }
    let errs = errors(&vec![module("m", f)]);
    assert!(errs.iter().any(|e| matches!(e, ResolveError::CyclicInheritance { .. })));
}

#[test]
fn chain_check_on_positions() {
    assert!(check_inheritance(&vec![Some(1), None]).is_ok());
    assert!(check_inheritance(&vec![]).is_ok());
    let chain = check_inheritance(&vec![None, Some(2), Some(1)]).unwrap_err();
    assert_eq!(chain[0], 1);
    assert_eq!(&chain[..3], &[1, 2, 1]);
}

#[test]
fn acyclic_extend_resolves() {
    let mut f = empty_file();
    f.compounds.push((s("A"), compound(vec![], Some(CompoundSuper::Compound(path(&["B"]))))));
    f.compounds.push((s("B"), compound(vec![], None)));
    let (sc, _) = schema(&vec![module("m", f)]);
    match &sc.compounds.get(&Index::from_pos(0)).sup {
        Some(ResolvedSuper::Static(i)) => assert_eq!(i.pos(), 1),
        _ => panic!("A should extend B"),
    }
}

fn inject_into_a(name: &str) -> NbtDocFile {
    let mut g = empty_file();
    g.injects.push(InjectDef {
        ty: InjectType::Compound(vec![(s(name), field(FieldType::StringType))]),
        target: path(&["root", "m", "A"]),
    });
    g
}

#[test]
fn injecting_a_declared_field_is_a_duplicate() {
    let mut f = empty_file();
    f.compounds.push((s("A"), compound(vec![("x", field(FieldType::BooleanType))], None)));
    let errs = errors(&vec![module("m", f), module("n", inject_into_a("x"))]);
    assert!(errs.iter().any(|e| matches!(e, ResolveError::DuplicateMember { member, .. } if member == "x")));
}

#[test]
fn injecting_a_new_field_adds_it() {
    let mut f = empty_file();
    f.compounds.push((s("A"), compound(vec![("x", field(FieldType::BooleanType))], None)));
    let (sc, _) = schema(&vec![module("m", f), module("n", inject_into_a("y"))]);
    let a = sc.compounds.get(&Index::from_pos(0));
    let names: Vec<&str> = a.fields.iter().map(|(n, _)| n.as_str()).collect();
    assert_eq!(names, vec!["x", "y"]);
    assert!(matches!(a.fields[1].1.ty, ResolvedType::Str));
}

#[test]
fn two_injections_of_one_name_conflict() {
    let mut f = empty_file();
    f.compounds.push((s("A"), compound(vec![], None)));
    let errs = errors(&vec![module("m", f), module("n", inject_into_a("y")), module("o", inject_into_a("y"))]);
    let n = errs.iter().filter(|e| matches!(e, ResolveError::DuplicateMember { .. })).count();
    assert_eq!(n, 1);
}

#[test]
fn duplicate_definition_is_reported() {
    let mut f = empty_file();
    f.compounds.push((s("A"), compound(vec![], None)));
    f.compounds.push((s("A"), compound(vec![], None)));
    let errs = errors(&vec![module("m", f)]);
    assert!(errs.iter().any(|e| matches!(e, ResolveError::DuplicateDefinition { .. })));
}

#[test]
fn unresolved_reference_is_reported() {
    let mut f = empty_file();
    f.compounds.push((s("A"), compound(vec![("x", field(FieldType::NamedType(path(&["Nope"]))))], None)));
    let errs = errors(&vec![module("m", f)]);
    assert!(errs.iter().any(|e| matches!(e, ResolveError::UnresolvedReference { .. })));
}

#[test]
fn self_containment_is_infinite() {
    let mut f = empty_file();
    f.compounds.push((s("A"), compound(vec![("me", field(FieldType::NamedType(path(&["A"]))))], None)));
    let errs = errors(&vec![module("m", f)]);
    assert!(errs.iter().any(|e| matches!(e, ResolveError::InfiniteStructure { .. })));
}

#[test]
fn optional_self_reference_is_fine() {
    let mut f = empty_file();
    let mut me = field(FieldType::NamedType(path(&["A"])));
    me.optional = true;
    f.compounds.push((s("A"), compound(vec![("me", me)], None)));
    let (sc, _) = schema(&vec![module("m", f)]);
    assert!(matches!(&sc.compounds.get(&Index::from_pos(0)).fields[0].1.ty, ResolvedType::Compound(i) if i.pos() == 0));
}

#[test]
fn single_alternative_is_a_warning() {
    let mut f = empty_file();
    f.compounds.push((s("A"), compound(vec![("x", field(FieldType::OrType(vec![FieldType::StringType])))], None)));
    let (_, warns) = schema(&vec![module("m", f)]);
    assert_eq!(warns.len(), 1);
    assert!(matches!(warns[0], ResolveError::RedundantOrType));
}

fn decl(name: &[&str], slot: usize) -> Decl {
    Decl { name: name.iter().map(|x| s(x)).collect(), is_enum: false, slot }
}

#[test]
fn lookup_goes_local_then_imports() {
    let decls = vec![decl(&["a", "X"], 0), decl(&["b", "Y"], 1), decl(&["c", "Y"], 2), decl(&["a", "k", "Z"], 3)];
    let here = vec![s("a")];
    let none: Vec<(bool, Vec<PathPart>)> = vec![];
    assert_eq!(lookup(&decls, &here, &none, &path(&["X"])).ok(), Some(0));
    assert_eq!(lookup(&decls, &here, &none, &path(&["k", "Z"])).ok(), Some(3));
    assert_eq!(lookup(&decls, &vec![s("a"), s("k")], &none, &path(&["super", "X"])).ok(), Some(0));
    assert_eq!(lookup(&decls, &here, &none, &path(&["root", "b", "Y"])).ok(), Some(1));
    assert!(matches!(lookup(&decls, &here, &none, &path(&["Y"])), Err(ResolveError::UnresolvedReference { .. })));
    assert!(matches!(lookup(&decls, &vec![], &none, &path(&["super", "X"])), Err(ResolveError::UnresolvedReference { .. })));
    let explicit = vec![(false, path(&["b", "Y"]))];
    assert_eq!(lookup(&decls, &here, &explicit, &path(&["Y"])).ok(), Some(1));
    let glob = vec![(true, path(&["c"]))];
    assert_eq!(lookup(&decls, &here, &glob, &path(&["Y"])).ok(), Some(2));
    let both = vec![(true, path(&["b"])), (true, path(&["c"]))];
    assert!(matches!(lookup(&decls, &here, &both, &path(&["Y"])), Err(ResolveError::AmbiguousImport { .. })));
}

fn id(ns: &str, p: &str) -> Identifier {
    Identifier { namespace: s(ns), path: s(p) }
}

fn sample_input() -> Vec<(Vec<String>, NbtDocFile)> {
    let mut f = empty_file();
    f.compounds.push((s("Base"), compound(vec![("a", field(FieldType::StringType))], None)));
    f.compounds.push((s("Item"), compound(vec![("b", int_field(Range::Low(0)))], Some(CompoundSuper::Compound(path(&["Base"]))))));
    f.compounds.push((s("Entity"), compound(vec![], Some(CompoundSuper::Registry { target: id("ns", "reg"), path: vec![FieldPath::Key(s("id"))] }))));
    f.enums.push((s("Color"), EnumDef {
        description: s(""),
        values: EnumType::Byte(vec![(s("Red"), EnumValue { description: s(""), value: 1 })]),
    }));
    f.describes.push((path(&["Item"]), DescribeDef { describe_type: id("ns", "reg"), targets: Some(vec![id("ns", "foo")]) }));
    vec![module("m", f)]
}

fn render(sc: &Schema) -> String {
    let mut out = String::new();
    for c in sc.compounds.iter() {
        out.push_str(&format!("{}|", c.fields.iter().map(|(n, _)| n.clone()).collect::<Vec<_>>().join(",")));
        match &c.sup {
            Some(ResolvedSuper::Static(i)) => out.push_str(&format!("static {};", i.pos())),
            Some(ResolvedSuper::RegistryDispatch { registry, .. }) => out.push_str(&format!("dispatch {}:{};", registry.namespace, registry.path)),
            None => out.push_str("none;"),
        }
    }
    for e in sc.enums.iter() {
        out.push_str(&format!("enum {};", e.values.iter().map(|(n, _)| n.clone()).collect::<Vec<_>>().join(",")));
    }
    for b in sc.describes.iter() {
        out.push_str(&format!("bind {} {};", b.key.as_ref().map(|k| format!("{}:{}", k.namespace, k.path)).unwrap_or_default(), b.target.pos()));
    }
    out
}

#[test]
fn resolution_is_deterministic() {
    let input = sample_input();
    let (one, _) = schema(&input);
    let (two, _) = schema(&input);
    assert_eq!(render(&one), render(&two));
    assert_eq!(render(&one), "a|none;b|static 0;|dispatch ns:reg;enum Red;bind ns:foo 1;");
}
