//! The neighbour lists, filled from a quadrant tree over the agents' positions.

use crate::boids::{BoidNeighborsCaptureRange, BoidNeighborsSeparation, BoidSettings, Flock};
use crate::quadtree::{dist_sq, in_disc, referents, Bounds, QuadTree};
use vstd::prelude::*;

verus! {

/// How many entries a leaf of the neighbour index holds before it is split.
pub const LEAF_CAPACITY: usize = 8;

/// `list` names, each once, the agents other than `i` that are closer to
/// agent `i` than `range`.
pub open spec fn is_neighbor_list(positions: Seq<[i32; 2]>, i: int, range: u32, list: Seq<usize>)
    -> bool {
    &&& list.no_duplicates()
    &&& forall|j: usize|
        list.contains(j) <==> j < positions.len() && j != i && dist_sq(
            #[trigger] positions[j as int],
            positions[i],
        ) < range * range
}

/// The positions with their agents' numbers, as the neighbour index stores them.
pub open spec fn indexed(positions: Seq<[i32; 2]>) -> Seq<([i32; 2], usize)> {
    Seq::new(positions.len(), |j: int| (positions[j], j as usize))
}

/// No two entries carry the same agent.
pub open spec fn distinct_agents(s: Seq<([i32; 2], usize)>) -> bool {
    forall|a: int, b: int| 0 <= a < b < s.len() ==> (#[trigger] s[a]).1 != (#[trigger] s[b]).1
}

/// Every entry carries an agent together with that agent's position.
pub open spec fn true_to(s: Seq<([i32; 2], usize)>, positions: Seq<[i32; 2]>) -> bool {
    forall|a: int|
        0 <= a < s.len() ==> (#[trigger] s[a]).1 < positions.len() && s[a].0 == positions[s[a].1 as int]
}

/// A sequence that holds what `indexed(positions)` holds, in any order,
/// names every agent once, with its position.
pub proof fn lemma_indexed_entries(entries: Seq<([i32; 2], usize)>, positions: Seq<[i32; 2]>)
    requires
        positions.len() <= usize::MAX,
        entries.to_multiset() == indexed(positions).to_multiset(),
    ensures
        distinct_agents(entries),
        true_to(entries, positions),
        forall|j: int| 0 <= j < positions.len() ==> entries.contains(#[trigger] indexed(positions)[j]),
{
    broadcast use vstd::seq_lib::to_multiset_contains;

    let expected = indexed(positions);
    assert(expected.no_duplicates());
    expected.lemma_multiset_has_no_duplicates();
    entries.lemma_multiset_has_no_duplicates_conv();
    assert forall|a: int| 0 <= a < entries.len() implies (#[trigger] entries[a]).1 < positions.len()
        && entries[a].0 == positions[entries[a].1 as int] by {
        assert(entries.contains(entries[a]));
        assert(entries.to_multiset().count(entries[a]) > 0);
        assert(expected.contains(entries[a]));
    }
    assert forall|j: int| 0 <= j < positions.len() implies entries.contains(
        #[trigger] indexed(positions)[j],
    ) by {
        assert(expected.contains(expected[j]));
        assert(expected.to_multiset().count(expected[j]) > 0);
    }
}

/// Filtering keeps entries apart and true to the positions.
pub proof fn lemma_filter_keeps(
    s: Seq<([i32; 2], usize)>,
    positions: Seq<[i32; 2]>,
    pred: spec_fn(([i32; 2], usize)) -> bool,
)
    requires
        distinct_agents(s),
        true_to(s, positions),
    ensures
        distinct_agents(s.filter(pred)),
        true_to(s.filter(pred), positions),
        forall|a: int| 0 <= a < s.filter(pred).len() ==> pred(#[trigger] s.filter(pred)[a]),
        forall|a: int| 0 <= a < s.len() && pred(s[a]) ==> s.filter(pred).contains(#[trigger] s[a]),
        forall|a: int| 0 <= a < s.filter(pred).len() ==> s.contains(#[trigger] s.filter(pred)[a]),
    decreases s.len(),
{
    reveal(Seq::filter);
    if s.len() > 0 {
        let t = s.drop_last();
        let x = s.last();
        lemma_filter_keeps(t, positions, pred);
        let ft = t.filter(pred);
        let fs = s.filter(pred);
        assert forall|a: int| 0 <= a < fs.len() implies s.contains(#[trigger] fs[a]) by {
            if a < ft.len() {
                assert(fs[a] == ft[a]);
                assert(t.contains(ft[a]));
                let w = choose|w: int| 0 <= w < t.len() && t[w] == ft[a];
                assert(s[w] == fs[a]);
            } else {
                assert(s[s.len() - 1] == fs[a]);
            }
        }
        assert forall|a: int| 0 <= a < s.len() && pred(s[a]) implies fs.contains(
            #[trigger] s[a],
        ) by {
            if a < t.len() {
                assert(t[a] == s[a]);
                assert(ft.contains(t[a]));
                let w = choose|w: int| 0 <= w < ft.len() && ft[w] == t[a];
                assert(fs[w] == s[a]);
            } else {
                assert(fs[fs.len() - 1] == s[a]);
            }
        }
        assert forall|a: int, b: int| 0 <= a < b < fs.len() implies (#[trigger] fs[a]).1 != (
        #[trigger] fs[b]).1 by {
            if b < ft.len() {
                assert(fs[a] == ft[a] && fs[b] == ft[b]);
            } else {
                assert(fs[a] == ft[a]);
                assert(t.contains(ft[a]));
                let w = choose|w: int| 0 <= w < t.len() && t[w] == ft[a];
                assert(s[w] == ft[a]);
                assert(s[s.len() - 1] == fs[b]);
            }
        }
        assert forall|a: int| 0 <= a < fs.len() implies (#[trigger] fs[a]).1 < positions.len()
            && fs[a].0 == positions[fs[a].1 as int] by {
            if a < ft.len() {
                assert(fs[a] == ft[a]);
            } else {
                assert(fs[a] == s[s.len() - 1]);
            }
        }
    }
}

/// Whether some position has `value` as its coordinate on `axis`.
pub open spec fn touches(positions: Seq<[i32; 2]>, axis: int, value: int) -> bool {
    exists|j: int| 0 <= j < positions.len() && (#[trigger] positions[j])[axis] == value
}

/// The smallest rectangle that contains every position: each of its edges
/// passes through a position, the right and top edge one step beyond it.
/// Without positions it is the empty rectangle at the origin.
pub fn bounding_box(positions: &Vec<[i32; 2]>) -> (b: Bounds)
    ensures
        forall|j: int| 0 <= j < positions@.len() ==> b.spec_contains(#[trigger] positions@[j]),
        positions@.len() == 0 ==> b.x_min == 0 && b.x_max == 0 && b.y_min == 0 && b.y_max == 0,
        positions@.len() > 0 ==> {
            &&& touches(positions@, 0, b.x_min as int)
            &&& touches(positions@, 0, b.x_max - 1)
            &&& touches(positions@, 1, b.y_min as int)
            &&& touches(positions@, 1, b.y_max - 1)
        },
{
    if positions.len() == 0 {
        return Bounds { x_min: 0, x_max: 0, y_min: 0, y_max: 0 };
    }
    let first = positions[0];
    let mut x_min: i32 = first[0];
    let mut x_max: i32 = first[0];
    let mut y_min: i32 = first[1];
    let mut y_max: i32 = first[1];
    let mut i: usize = 1;
    while i < positions.len()
        invariant
            1 <= i <= positions.len(),
            forall|j: int|
                0 <= j < i ==> x_min <= (#[trigger] positions@[j])[0] <= x_max && y_min
                    <= positions@[j][1] <= y_max,
            touches(positions@, 0, x_min as int),
            touches(positions@, 0, x_max as int),
            touches(positions@, 1, y_min as int),
            touches(positions@, 1, y_max as int),
        decreases positions.len() - i,
    {
        let p = positions[i];
        if p[0] < x_min {
            x_min = p[0];
        }
        if p[0] > x_max {
            x_max = p[0];
        }
        if p[1] < y_min {
            y_min = p[1];
        }
        if p[1] > y_max {
            y_max = p[1];
        }
        i += 1;
    }
    Bounds {
        x_min: x_min as i64,
        x_max: x_max as i64 + 1,
        y_min: y_min as i64,
        y_max: y_max as i64 + 1,
    }
}

/// The agents other than `entity` among the candidates, in their order.
fn others(candidates: &Vec<&([i32; 2], usize)>, entity: usize) -> (list: Vec<usize>)
    requires
        distinct_agents(referents(candidates@)),
    ensures
        list@.no_duplicates(),
        forall|j: usize|
            list@.contains(j) <==> j != entity && exists|a: int|
                0 <= a < candidates@.len() && (#[trigger] referents(candidates@)[a]).1 == j,
{
    let mut list: Vec<usize> = Vec::new();
    let mut k: usize = 0;
    let ghost cand = referents(candidates@);
    while k < candidates.len()
        invariant
            k <= candidates.len(),
            cand == referents(candidates@),
            distinct_agents(cand),
            list@.no_duplicates(),
            forall|j: usize|
                list@.contains(j) <==> j != entity && exists|a: int|
                    0 <= a < k && (#[trigger] cand[a]).1 == j,
        decreases candidates.len() - k,
    {
        let agent = candidates[k].1;
        let ghost before = list@;
        assert(cand[k as int].1 == agent);
        if agent != entity {
            proof {
                if before.contains(agent) {
                    let a = choose|a: int| 0 <= a < k && (#[trigger] cand[a]).1 == agent;
                    assert(cand[a].1 != cand[k as int].1);
                }
            }
            list.push(agent);
            proof {
                assert(list@[before.len() as int] == agent);
                assert forall|j: usize| list@.contains(j) <==> j != entity && exists|a: int|
                    0 <= a < k + 1 && (#[trigger] cand[a]).1 == j by {
                    if list@.contains(j) {
                        let w = choose|w: int| 0 <= w < list@.len() && list@[w] == j;
                        if w < before.len() {
                            assert(before[w] == j);
                            assert(before.contains(j));
                            let a = choose|a: int| 0 <= a < k && (#[trigger] cand[a]).1 == j;
                            assert(0 <= a < k + 1 && cand[a].1 == j);
                        }
                    }
                    if j != entity && exists|a: int| 0 <= a < k + 1 && (#[trigger] cand[a]).1 == j {
                        let a = choose|a: int| 0 <= a < k + 1 && (#[trigger] cand[a]).1 == j;
                        if a < k {
                            assert(before.contains(j));
                            let w = choose|w: int| 0 <= w < before.len() && before[w] == j;
                            assert(list@[w] == j);
                        }
                    }
                }
            }
        } else {
            proof {
                assert forall|j: usize| list@.contains(j) <==> j != entity && exists|a: int|
                    0 <= a < k + 1 && (#[trigger] cand[a]).1 == j by {
                    if list@.contains(j) {
                        let a = choose|a: int| 0 <= a < k && (#[trigger] cand[a]).1 == j;
                        assert(0 <= a < k + 1 && cand[a].1 == j);
                    }
                    if j != entity && exists|a: int| 0 <= a < k + 1 && (#[trigger] cand[a]).1 == j {
                        let a = choose|a: int| 0 <= a < k + 1 && (#[trigger] cand[a]).1 == j;
                        assert(a < k);
                    }
                }
            }
        }
        k += 1;
    }
    list
}

/// The agents other than `entity` that are closer to it than `range`,
/// looked up in an index that holds every agent at its position.
pub fn neighbors_within(
    tree: &QuadTree<usize, LEAF_CAPACITY>,
    positions: &Vec<[i32; 2]>,
    entity: usize,
    range: u32,
) -> (list: Vec<usize>)
    requires
        tree.wf(),
        entity < positions@.len(),
        tree.contents() == indexed(positions@).to_multiset(),
    ensures
        is_neighbor_list(positions@, entity as int, range, list@),
{
    let center = positions[entity];
    let candidates = tree.query_distance(center, range);
    proof {
        assert(positions@.len() == positions.len());
        lemma_indexed_entries(tree.entries(), positions@);
        lemma_filter_keeps(tree.entries(), positions@, in_disc(center, range));
    }
    let list = others(&candidates, entity);
    proof {
        let cand = referents(candidates@);
        let pred = in_disc::<usize>(center, range);
        assert forall|j: usize|
            list@.contains(j) <==> j < positions@.len() && j != entity && dist_sq(
                #[trigger] positions@[j as int],
                positions@[entity as int],
            ) < range * range by {
            if list@.contains(j) {
                let a = choose|a: int| 0 <= a < candidates@.len() && (#[trigger] cand[a]).1 == j;
                assert(pred(cand[a]));
            }
            if j < positions@.len() && j != entity && dist_sq(
                positions@[j as int],
                positions@[entity as int],
            ) < range * range {
                let e = indexed(positions@)[j as int];
                assert(tree.entries().contains(e));
                let w = choose|w: int| 0 <= w < tree.entries().len() && tree.entries()[w] == e;
                assert(pred(tree.entries()[w]));
                assert(cand.contains(tree.entries()[w]));
                let a = choose|a: int| 0 <= a < cand.len() && cand[a] == e;
                assert(cand[a].1 == j);
            }
        }
    }
    list
}

/// Fills both neighbour lists of every agent from the agents' positions.
///
/// After the call the capture-range list of an agent names, each once, the
/// other agents closer to it than `capture_range`, and its separation list
/// those closer than `separation_distance`. What the lists held before is
/// gone.
pub fn update_boid_neighbors(flock: &mut Flock, boid_settings: &BoidSettings)
    requires
        old(flock).wf(),
    ensures
        final(flock).wf(),
        final(flock).positions == old(flock).positions,
        final(flock).colors == old(flock).colors,
        final(flock).leaders == old(flock).leaders,
        final(flock).input_bound == old(flock).input_bound,
        forall|i: int|
            0 <= i < old(flock).positions@.len() ==> is_neighbor_list(
                old(flock).positions@,
                i,
                boid_settings.capture_range,
                #[trigger] final(flock).capture_neighbors@[i].entities@,
            ),
        forall|i: int|
            0 <= i < old(flock).positions@.len() ==> is_neighbor_list(
                old(flock).positions@,
                i,
                boid_settings.separation_distance,
                #[trigger] final(flock).separation_neighbors@[i].entities@,
            ),
{
    let n = flock.positions.len();
    let bounds = bounding_box(&flock.positions);
    let mut tree: QuadTree<usize, LEAF_CAPACITY> = QuadTree::new(bounds);
    let mut i: usize = 0;
    proof {
        assert(indexed(flock.positions@).take(0) =~= tree.entries());
    }
    while i < n
        invariant
            i <= n,
            n == flock.positions@.len(),
            flock == old(flock),
            tree.wf(),
            tree.bounds() == bounds,
            forall|j: int| 0 <= j < n ==> bounds.spec_contains(#[trigger] flock.positions@[j]),
            tree.contents() == indexed(flock.positions@).take(i as int).to_multiset(),
        decreases n - i,
    {
        let p = flock.positions[i];
        proof {
            let seen = indexed(flock.positions@).take(i as int);
            assert(indexed(flock.positions@).take(i + 1) =~= seen.push((p, i)));
            vstd::seq_lib::to_multiset_build(seen, (p, i));
        }
        tree.insert(p, i);
        i += 1;
    }
    proof {
        assert(indexed(flock.positions@).take(n as int) =~= indexed(flock.positions@));
    }
    let mut i: usize = 0;
    while i < n
        invariant
            i <= n,
            n == flock.positions@.len(),
            flock.wf(),
            flock.positions == old(flock).positions,
            flock.colors == old(flock).colors,
            flock.leaders == old(flock).leaders,
            flock.input_bound == old(flock).input_bound,
            tree.wf(),
            tree.contents() == indexed(flock.positions@).to_multiset(),
            forall|k: int|
                0 <= k < i ==> is_neighbor_list(
                    flock.positions@,
                    k,
                    boid_settings.capture_range,
                    #[trigger] flock.capture_neighbors@[k].entities@,
                ),
            forall|k: int|
                0 <= k < i ==> is_neighbor_list(
                    flock.positions@,
                    k,
                    boid_settings.separation_distance,
                    #[trigger] flock.separation_neighbors@[k].entities@,
                ),
        decreases n - i,
    {
        let s = neighbors_within(&tree, &flock.positions, i, boid_settings.separation_distance);
        let c = neighbors_within(&tree, &flock.positions, i, boid_settings.capture_range);
        flock.capture_neighbors[i] = BoidNeighborsCaptureRange { entities: c };
        flock.separation_neighbors[i] = BoidNeighborsSeparation { entities: s };
        i += 1;
    }
}
} // verus!
