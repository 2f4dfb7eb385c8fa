use vstd::prelude::*;

verus! {

/// One step up the static `extend` chain.
pub open spec fn step(s: Seq<Option<usize>>, c: Option<int>) -> Option<int> {
    match c {
        Some(d) => if 0 <= d < s.len() {
            match s[d] {
                Some(e) => Some(e as int),
                None => None,
            }
        } else {
            None
        },
        None => None,
    }
}

/// The compound reached from `c` after `k` steps up its `extend` chain, if the chain is that long.
pub open spec fn follow(s: Seq<Option<usize>>, c: int, k: nat) -> Option<int>
    decreases k,
{
    if k == 0 {
        Some(c)
    } else {
        step(s, follow(s, c, (k - 1) as nat))
    }
}

/// `c` extends itself, directly or through other compounds.
pub open spec fn on_cycle(s: Seq<Option<usize>>, c: int) -> bool {
    exists|m: nat| m >= 1 && #[trigger] follow(s, c, m) == Some(c)
}

/// The chain from `c` is longer than the number of compounds, so it never ends.
pub open spec fn chain_unbounded(s: Seq<Option<usize>>, c: int) -> bool {
    follow(s, c, s.len()) is Some
}

/// Some compound's chain never ends.
pub open spec fn has_inheritance_cycle(s: Seq<Option<usize>>) -> bool {
    exists|c: int| 0 <= c < s.len() && #[trigger] chain_unbounded(s, c)
}

pub open spec fn bind(s: Seq<Option<usize>>, o: Option<int>, b: nat) -> Option<int> {
    match o {
        Some(d) => follow(s, d, b),
        None => None,
    }
}

proof fn lemma_follow_add(s: Seq<Option<usize>>, c: int, a: nat, b: nat)
    ensures
        follow(s, c, a + b) == bind(s, follow(s, c, a), b),
    decreases b,
{
    if b == 0 {
        assert(a + b == a);
    } else {
        lemma_follow_add(s, c, a, (b - 1) as nat);
        assert((a + b - 1) as nat == a + (b - 1) as nat);
        match follow(s, c, a) {
            Some(d) => {},
            None => {},
        }
    }
}

proof fn lemma_cycle_never_ends(s: Seq<Option<usize>>, c: int, m: nat, k: nat)
    requires
        m >= 1,
        follow(s, c, m) == Some(c),
    ensures
        follow(s, c, k) is Some,
    decreases k,
{
    if k < m {
        lemma_follow_add(s, c, k, (m - k) as nat);
        assert(k + (m - k) as nat == m);
    } else {
        lemma_follow_add(s, c, m, (k - m) as nat);
        assert(m + (k - m) as nat == k);
        lemma_cycle_never_ends(s, c, m, (k - m) as nat);
    }
}

/// A compound that extends itself, through a chain of any length (`A -> A`, `A -> B -> A`, ...),
/// makes the inheritance check fail.
pub proof fn lemma_self_extension_is_a_cycle(s: Seq<Option<usize>>, c: int)
    requires
        0 <= c < s.len(),
        on_cycle(s, c),
    ensures
        has_inheritance_cycle(s),
{
    let m = choose|m: nat| m >= 1 && #[trigger] follow(s, c, m) == Some(c);
    lemma_cycle_never_ends(s, c, m, s.len());
    assert(chain_unbounded(s, c));
}

/// The full static chain from `start`, `limit` steps long, or shorter where it ends.
pub fn chain_from(supers: &Vec<Option<usize>>, start: usize, limit: usize) -> (r: (Vec<usize>, Option<usize>))
    requires
        start < supers@.len(),
    ensures
        r.1 is Some <==> follow(supers@, start as int, limit as nat) is Some,
        r.1 is Some ==> follow(supers@, start as int, limit as nat) == Some(r.1->0 as int),
        r.0@.len() <= limit,
        r.0@.len() > 0 && r.0@[0] == start || limit == 0,
{
    let mut chain: Vec<usize> = Vec::new();
    let mut cur: Option<usize> = Some(start);
    let mut i: usize = 0;
    while i < limit
        invariant
            i <= limit,
            start < supers@.len(),
            follow(supers@, start as int, i as nat) == match cur {
                Some(x) => Some(x as int),
                None => None::<int>,
            },
            chain@.len() <= i,
            i > 0 ==> chain@.len() > 0 && chain@[0] == start,
        decreases limit - i,
    {
        match cur {
            Some(x) => {
                chain.push(x);
                if x < supers.len() {
                    cur = supers[x];
                } else {
                    cur = None;
                }
            },
            None => {},
        }
        i = i + 1;
    }
    (chain, cur)
}

/// Checks that no compound extends itself. On failure, returns the chain that starts at
/// the first compound whose chain never ends.
pub fn check_inheritance(supers: &Vec<Option<usize>>) -> (r: Result<(), Vec<usize>>)
    ensures
        r is Ok <==> !has_inheritance_cycle(supers@),
        r is Err ==> r->Err_0@.len() > 0 && chain_unbounded(supers@, r->Err_0@[0] as int),
{
    let n = supers.len();
    let mut c: usize = 0;
    while c < n
        invariant
            n == supers@.len(),
            c <= n,
            forall|d: int| 0 <= d < c ==> !#[trigger] chain_unbounded(supers@, d),
        decreases n - c,
    {
        let (chain, end) = chain_from(supers, c, n);
        if end.is_some() {
            assert(chain_unbounded(supers@, c as int));
            return Err(chain);
        }
        c = c + 1;
    }
    Ok(())
}

} // verus!
