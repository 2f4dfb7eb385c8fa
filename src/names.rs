use vstd::prelude::*;
use crate::ast::PathPart;

verus! {

/// The characters of each name.
pub open spec fn names_view(v: Seq<String>) -> Seq<Seq<char>> {
    v.map_values(|s: String| s@)
}

/// Whether two strings hold the same characters.
pub fn str_eq(a: &String, b: &String) -> (r: bool)
    ensures
        r == (a@ == b@),
{
    a.eq(b)
}

/// Whether two qualified names are the same.
pub fn names_eq(a: &Vec<String>, b: &Vec<String>) -> (r: bool)
    ensures
        r == (names_view(a@) == names_view(b@)),
{
    if a.len() != b.len() {
        assert(names_view(a@).len() != names_view(b@).len());
        return false;
    }
    let mut i: usize = 0;
    while i < a.len()
        invariant
            a@.len() == b@.len(),
            i <= a@.len(),
            forall|j: int| 0 <= j < i ==> a@[j]@ == b@[j]@,
        decreases a@.len() - i,
    {
        if !str_eq(&a[i], &b[i]) {
            assert(names_view(a@)[i as int] != names_view(b@)[i as int]);
            return false;
        }
        i = i + 1;
    }
    assert(names_view(a@) =~= names_view(b@));
    true
}

/// A copy of a qualified name.
pub fn copy_names(a: &Vec<String>) -> (r: Vec<String>)
    ensures
        names_view(r@) == names_view(a@),
{
    let mut r: Vec<String> = Vec::new();
    let mut i: usize = 0;
    while i < a.len()
        invariant
            i <= a@.len(),
            r@.len() == i,
            forall|j: int| 0 <= j < i ==> #[trigger] r@[j]@ == a@[j]@,
        decreases a@.len() - i,
    {
        let s: String = a[i].clone();
        r.push(s);
        i = i + 1;
    }
    assert(names_view(r@) =~= names_view(a@));
    r
}

/// Applies the segments of a reference to a starting module: `root` goes to the top,
/// `super` to the parent (and fails above the top), a name descends into it.
pub open spec fn rewrite(base: Seq<Seq<char>>, parts: Seq<PathPart>) -> Option<Seq<Seq<char>>>
    decreases parts.len(),
{
    if parts.len() == 0 {
        Some(base)
    } else {
        match rewrite(base, parts.drop_last()) {
            None => None,
            Some(b) => match parts.last() {
                PathPart::Root => Some(Seq::<Seq<char>>::empty()),
                PathPart::Super => if b.len() == 0 {
                    None
                } else {
                    Some(b.drop_last())
                },
                PathPart::Regular(s) => Some(b.push(s@)),
            },
        }
    }
}

/// Executes `rewrite`.
pub fn rewrite_path(base: &Vec<String>, parts: &Vec<PathPart>) -> (r: Option<Vec<String>>)
    ensures
        r is Some <==> rewrite(names_view(base@), parts@) is Some,
        r is Some ==> Some(names_view(r->0@)) == rewrite(names_view(base@), parts@),
{
    let mut cur = copy_names(base);
    let mut i: usize = 0;
    while i < parts.len()
        invariant
            i <= parts@.len(),
            rewrite(names_view(base@), parts@.subrange(0, i as int)) == Some(names_view(cur@)),
        decreases parts@.len() - i,
    {
        let ghost before = cur@;
        assert(parts@.subrange(0, i + 1).drop_last() =~= parts@.subrange(0, i as int));
        match &parts[i] {
            PathPart::Root => {
                cur = Vec::new();
                assert(names_view(cur@) =~= Seq::<Seq<char>>::empty());
            },
            PathPart::Super => {
                if cur.len() == 0 {
                    proof {
                        let k = i as int;
                        lemma_rewrite_none_extends(names_view(base@), parts@, k + 1);
                    }
                    return None;
                }
                cur.pop();
                assert(names_view(cur@) =~= names_view(before).drop_last());
            },
            PathPart::Regular(s) => {
                cur.push(s.clone());
                assert(names_view(cur@) =~= names_view(before).push(s@));
            },
        }
        i = i + 1;
    }
    assert(parts@.subrange(0, parts@.len() as int) =~= parts@);
    Some(cur)
}

/// Once a prefix of the segments fails, so does the whole.
proof fn lemma_rewrite_none_extends(base: Seq<Seq<char>>, parts: Seq<PathPart>, k: int)
    requires
        0 <= k <= parts.len(),
        rewrite(base, parts.subrange(0, k)) is None,
    ensures
        rewrite(base, parts) is None,
    decreases parts.len() - k,
{
    if k == parts.len() {
        assert(parts.subrange(0, k) =~= parts);
    } else {
        assert(parts.subrange(0, k + 1).drop_last() =~= parts.subrange(0, k));
        lemma_rewrite_none_extends(base, parts, k + 1);
    }
}

} // verus!
