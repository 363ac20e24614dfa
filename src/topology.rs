//! Grouping of CPU cores into frequency clusters.
use vstd::prelude::*;

verus! {

/// Cores that share one hardware frequency ceiling.
pub struct CoreGroup {
    pub max_freq: i32,
    pub cores: Vec<i32>,
}

pub open spec fn group_view(g: CoreGroup) -> (i32, Seq<i32>) {
    (g.max_freq, g.cores@)
}

pub open spec fn groups_view(gs: Seq<CoreGroup>) -> Seq<(i32, Seq<i32>)> {
    gs.map_values(|g: CoreGroup| group_view(g))
}

/// Some core of `cs` reports the positive ceiling `f`.
pub open spec fn has_freq(cs: Seq<(i32, i32)>, f: i32) -> bool {
    f > 0 && exists|i: int| 0 <= i < cs.len() && #[trigger] cs[i].1 == f
}

/// The cores of `cs` whose ceiling is `f`, in the order of `cs`.
pub open spec fn members(cs: Seq<(i32, i32)>, f: i32) -> Seq<i32>
    decreases cs.len(),
{
    if cs.len() == 0 {
        Seq::empty()
    } else if cs.last().1 == f {
        members(cs.drop_last(), f).push(cs.last().0)
    } else {
        members(cs.drop_last(), f)
    }
}

/// `gs` holds one group per positive ceiling of `cs`, in ascending order of
/// ceiling, each with exactly the cores of that ceiling.
pub open spec fn is_grouping(cs: Seq<(i32, i32)>, gs: Seq<(i32, Seq<i32>)>) -> bool {
    &&& forall|i: int, j: int| 0 <= i < j < gs.len() ==> gs[i].0 < gs[j].0
    &&& forall|i: int|
        0 <= i < gs.len() ==> has_freq(cs, #[trigger] gs[i].0) && gs[i].1 == members(
            cs,
            gs[i].0,
        )
    &&& forall|f: i32| has_freq(cs, f) ==> exists|i: int| 0 <= i < gs.len() && #[trigger] gs[i].0 == f
}

fn cores_with(cs: &Vec<(i32, i32)>, f: i32) -> (r: Vec<i32>)
    ensures
        r@ == members(cs@, f),
{
    let mut out: Vec<i32> = Vec::new();
    let mut i: usize = 0;
    while i < cs.len()
        invariant
            i <= cs@.len(),
            out@ == members(cs@.subrange(0, i as int), f),
        decreases cs@.len() - i,
    {
        assert(cs@.subrange(0, i + 1).drop_last() =~= cs@.subrange(0, i as int));
        if cs[i].1 == f {
            out.push(cs[i].0);
        }
        i = i + 1;
    }
    assert(cs@.subrange(0, cs@.len() as int) =~= cs@);
    out
}

/// The smallest ceiling of `cs` above `last`, if any.
fn next_ceiling(cs: &Vec<(i32, i32)>, last: i64) -> (r: Option<i32>)
    ensures
        match r {
            Some(b) => b > last && (exists|i: int| 0 <= i < cs@.len() && #[trigger] cs@[i].1 == b)
                && forall|i: int| 0 <= i < cs@.len() && cs@[i].1 > last ==> cs@[i].1 >= b,
            None => forall|i: int| 0 <= i < cs@.len() ==> cs@[i].1 <= last,
        },
{
    let mut best: Option<i32> = None;
    let mut i: usize = 0;
    while i < cs.len()
        invariant
            i <= cs@.len(),
            match best {
                Some(b) => b > last && (exists|k: int| 0 <= k < i && #[trigger] cs@[k].1 == b)
                    && forall|k: int| 0 <= k < i && cs@[k].1 > last ==> cs@[k].1 >= b,
                None => forall|k: int| 0 <= k < i ==> cs@[k].1 <= last,
            },
        decreases cs@.len() - i,
    {
        let f = cs[i].1;
        if f as i64 > last {
            match best {
                Some(b) => {
                    if f < b {
                        best = Some(f);
                    }
                },
                None => {
                    best = Some(f);
                },
            }
        }
        i = i + 1;
    }
    best
}

/// Groups cores by identical positive hardware ceiling: one group per
/// ceiling, ascending, each with its cores in the given order. A core whose
/// ceiling is not positive belongs to no group.
pub fn group_cores(cs: &Vec<(i32, i32)>) -> (r: Vec<CoreGroup>)
    ensures
        is_grouping(cs@, groups_view(r@)),
{
    let mut out: Vec<CoreGroup> = Vec::new();
    let mut last: i64 = 0;
    loop
        invariant
            0 <= last <= i32::MAX,
            forall|i: int, j: int| 0 <= i < j < out@.len() ==> out@[i].max_freq < out@[j].max_freq,
            forall|i: int|
                0 <= i < out@.len() ==> has_freq(cs@, #[trigger] out@[i].max_freq)
                    && out@[i].max_freq <= last && out@[i].cores@ == members(
                    cs@,
                    out@[i].max_freq,
                ),
            forall|f: i32|
                has_freq(cs@, f) && f <= last ==> exists|i: int|
                    0 <= i < out@.len() && #[trigger] out@[i].max_freq == f,
        decreases i32::MAX - last,
    {
        match next_ceiling(cs, last) {
            None => {
                assert(groups_view(out@).len() == out@.len());
                assert forall|f: i32| has_freq(cs@, f) implies exists|i: int|
                    0 <= i < groups_view(out@).len() && #[trigger] groups_view(out@)[i].0 == f by {
                    let k = choose|k: int| 0 <= k < cs@.len() && #[trigger] cs@[k].1 == f;
                    assert(cs@[k].1 <= last);
                    let i = choose|i: int| 0 <= i < out@.len() && #[trigger] out@[i].max_freq == f;
                    assert(groups_view(out@)[i].0 == f);
                }
                return out;
            },
            Some(b) => {
                let cores = cores_with(cs, b);
                let ghost before = out@;
                out.push(CoreGroup { max_freq: b, cores });
                assert forall|f: i32| has_freq(cs@, f) && f <= b implies exists|i: int|
                    0 <= i < out@.len() && #[trigger] out@[i].max_freq == f by {
                    if f <= last {
                        let i = choose|i: int|
                            0 <= i < before.len() && #[trigger] before[i].max_freq == f;
                        assert(out@[i].max_freq == f);
                    } else {
                        let k = choose|k: int| 0 <= k < cs@.len() && #[trigger] cs@[k].1 == f;
                        assert(cs@[k].1 >= b);
                        assert(out@[before.len() as int].max_freq == f);
                    }
                }
                last = b as i64;
            },
        }
    }
}

/// Two strictly ascending sequences with the same elements are equal.
proof fn lemma_ascending_unique(a: Seq<i32>, b: Seq<i32>)
    requires
        forall|i: int, j: int| 0 <= i < j < a.len() ==> a[i] < a[j],
        forall|i: int, j: int| 0 <= i < j < b.len() ==> b[i] < b[j],
        forall|x: i32| a.contains(x) <==> b.contains(x),
    ensures
        a == b,
    decreases a.len(),
{
    if a.len() == 0 {
        if b.len() > 0 {
            assert(b.contains(b[0]));
        }
        assert(a =~= b);
    } else {
        assert(a.contains(a[0]));
        assert(b.len() > 0);
        assert(b.contains(b[0]));
        let k = choose|k: int| 0 <= k < b.len() && b[k] == a[0];
        let m = choose|m: int| 0 <= m < a.len() && a[m] == b[0];
        assert(a[0] == b[0]);
        let a1 = a.drop_first();
        let b1 = b.drop_first();
        assert forall|x: i32| a1.contains(x) <==> b1.contains(x) by {
            if a1.contains(x) {
                let i = choose|i: int| 0 <= i < a1.len() && a1[i] == x;
                assert(a[i + 1] == x);
                assert(b.contains(x));
                let j = choose|j: int| 0 <= j < b.len() && b[j] == x;
                assert(j != 0);
                assert(b1[j - 1] == x);
            }
            if b1.contains(x) {
                let i = choose|i: int| 0 <= i < b1.len() && b1[i] == x;
                assert(b[i + 1] == x);
                assert(a.contains(x));
                let j = choose|j: int| 0 <= j < a.len() && a[j] == x;
                assert(j != 0);
                assert(a1[j - 1] == x);
            }
        }
        lemma_ascending_unique(a1, b1);
        assert(a =~= seq![a[0]] + a1);
        assert(b =~= seq![b[0]] + b1);
    }
}

proof fn lemma_members_contains(cs: Seq<(i32, i32)>, f: i32, x: i32)
    ensures
        members(cs, f).contains(x) <==> cs.contains((x, f)),
    decreases cs.len(),
{
    if cs.len() > 0 {
        let p = cs.drop_last();
        lemma_members_contains(p, f, x);
        assert(cs =~= p.push(cs.last()));
        if p.contains((x, f)) {
            let i = choose|i: int| 0 <= i < p.len() && p[i] == (x, f);
            assert(cs[i] == (x, f));
        }
        if cs.contains((x, f)) {
            let i = choose|i: int| 0 <= i < cs.len() && cs[i] == (x, f);
            if i < cs.len() - 1 {
                assert(p[i] == (x, f));
            }
        }
        if members(p, f).contains(x) && cs.last().1 == f {
            let i = choose|i: int| 0 <= i < members(p, f).len() && members(p, f)[i] == x;
            assert(members(cs, f)[i] == x);
        }
        if cs.last().1 == f && cs.last().0 == x {
            assert(members(cs, f)[members(p, f).len() as int] == x);
        }
    }
}

/// Cluster layout does not depend on the order in which cores were found:
/// for two discovery orders of the same cores, the groups have the same
/// ceilings in the same order, and each group the same members.
pub proof fn lemma_grouping_order_independent(
    cs1: Seq<(i32, i32)>,
    cs2: Seq<(i32, i32)>,
    g1: Seq<(i32, Seq<i32>)>,
    g2: Seq<(i32, Seq<i32>)>,
)
    requires
        forall|c: (i32, i32)| cs1.contains(c) <==> cs2.contains(c),
        is_grouping(cs1, g1),
        is_grouping(cs2, g2),
    ensures
        g1.len() == g2.len(),
        forall|i: int|
            0 <= i < g1.len() ==> g1[i].0 == g2[i].0 && g1[i].1.to_set() == g2[i].1.to_set(),
{
    let f1 = g1.map_values(|g: (i32, Seq<i32>)| g.0);
    let f2 = g2.map_values(|g: (i32, Seq<i32>)| g.0);
    assert forall|f: i32| has_freq(cs1, f) <==> has_freq(cs2, f) by {
        if has_freq(cs1, f) {
            let i = choose|i: int| 0 <= i < cs1.len() && #[trigger] cs1[i].1 == f;
            assert(cs1.contains(cs1[i]));
            let j = choose|j: int| 0 <= j < cs2.len() && cs2[j] == cs1[i];
            assert(cs2[j].1 == f);
        }
        if has_freq(cs2, f) {
            let i = choose|i: int| 0 <= i < cs2.len() && #[trigger] cs2[i].1 == f;
            assert(cs2.contains(cs2[i]));
            let j = choose|j: int| 0 <= j < cs1.len() && cs1[j] == cs2[i];
            assert(cs1[j].1 == f);
        }
    }
    assert forall|f: i32| f1.contains(f) <==> f2.contains(f) by {
        if f1.contains(f) {
            let i = choose|i: int| 0 <= i < f1.len() && f1[i] == f;
            assert(has_freq(cs1, g1[i].0));
            let j = choose|j: int| 0 <= j < g2.len() && #[trigger] g2[j].0 == f;
            assert(f2[j] == f);
        }
        if f2.contains(f) {
            let i = choose|i: int| 0 <= i < f2.len() && f2[i] == f;
            assert(has_freq(cs2, g2[i].0));
            let j = choose|j: int| 0 <= j < g1.len() && #[trigger] g1[j].0 == f;
            assert(f1[j] == f);
        }
    }
    lemma_ascending_unique(f1, f2);
    assert(g1.len() == f1.len() && f2.len() == g2.len());
    assert forall|i: int| 0 <= i < g1.len() implies g1[i].0 == g2[i].0 && g1[i].1.to_set()
        == g2[i].1.to_set() by {
        assert(f1[i] == g1[i].0);
        assert(f2[i] == g2[i].0);
        let f = g1[i].0;
        assert forall|x: i32| g1[i].1.to_set().contains(x) <==> g2[i].1.to_set().contains(x) by {
            lemma_members_contains(cs1, f, x);
            lemma_members_contains(cs2, f, x);
        }
        assert(g1[i].1.to_set() =~= g2[i].1.to_set());
    }
}

} // verus!
