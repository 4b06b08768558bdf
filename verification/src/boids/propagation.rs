//! Colour propagation: the vote at every agent, conversions, captures and
//! the end of the round.

use crate::boids::{BoidColor, BoidNeighborsCaptureRange, Flock, GameEvent, Winner, PALETTE_SIZE};
use itertools::Itertools;
use vstd::prelude::*;

verus! {

/// How many hops a flood follows from the agent it started at.
pub const FLOOD_DEPTH: usize = 10;

/// Whether `x` occurs in `v`.
pub fn contains_entity(v: &Vec<usize>, x: usize) -> (r: bool)
    ensures
        r == v@.contains(x),
{
    let mut i: usize = 0;
    while i < v.len()
        invariant
            i <= v.len(),
            forall|j: int| 0 <= j < i ==> v@[j] != x,
        decreases v.len() - i,
    {
        if v[i] == x {
            return true;
        }
        i += 1;
    }
    false
}

/// Whether a flood for `color` that started at `origin` takes up agent `e`:
/// the agent exists, has that colour and is not the origin.
pub open spec fn accepts(
    query: Seq<BoidNeighborsCaptureRange>,
    colors: Seq<Option<BoidColor>>,
    origin: usize,
    e: usize,
    color: BoidColor,
) -> bool {
    &&& e < query.len()
    &&& e < colors.len()
    &&& colors[e as int] == Some(color)
    &&& e != origin
}

/// The agents gathered by a flood that walks `list` from place `k` on.
///
/// An accepted agent that is not yet among `results` is appended, and its own
/// capture-range neighbours are walked with one hop less before the walk of
/// `list` goes on. With no hop left nothing is added.
pub open spec fn flood(
    query: Seq<BoidNeighborsCaptureRange>,
    colors: Seq<Option<BoidColor>>,
    origin: usize,
    list: Seq<usize>,
    k: nat,
    color: BoidColor,
    results: Seq<usize>,
    depth: nat,
) -> Seq<usize>
    decreases depth, list.len() - k,
{
    if depth == 0 || k >= list.len() {
        results
    } else {
        let e = list[k as int];
        if accepts(query, colors, origin, e, color) && !results.contains(e) {
            let deeper = flood(
                query,
                colors,
                origin,
                query[e as int].entities@,
                0,
                color,
                results.push(e),
                (depth - 1) as nat,
            );
            flood(query, colors, origin, list, k + 1, color, deeper, depth)
        } else {
            flood(query, colors, origin, list, k + 1, color, results, depth)
        }
    }
}

/// Gathers into `results` the agents of `color` that can be reached from
/// `entity` over capture-range links between agents of that colour, at most
/// `depth` hops away. `neighbors` are the agents to start from; `entity`
/// itself is never gathered, and no agent is gathered twice.
pub fn get_neighbors_of_color_recursive(
    entity: usize,
    neighbors: &BoidNeighborsCaptureRange,
    color: BoidColor,
    query: &Vec<BoidNeighborsCaptureRange>,
    colors: &Vec<Option<BoidColor>>,
    results: &mut Vec<usize>,
    depth: usize,
)
    ensures
        final(results)@ == flood(
            query@,
            colors@,
            entity,
            neighbors.entities@,
            0,
            color,
            old(results)@,
            depth as nat,
        ),
    decreases depth,
{
    if depth == 0 {
        return ;
    }
    let mut k: usize = 0;
    while k < neighbors.entities.len()
        invariant
            depth > 0,
            k <= neighbors.entities.len(),
            flood(query@, colors@, entity, neighbors.entities@, k as nat, color, results@, depth as nat)
                == flood(
                query@,
                colors@,
                entity,
                neighbors.entities@,
                0,
                color,
                old(results)@,
                depth as nat,
            ),
        decreases neighbors.entities.len() - k,
    {
        let e = neighbors.entities[k];
        if e < query.len() && e < colors.len() && e != entity {
            let same = match colors[e] {
                Some(c) => c == color,
                None => false,
            };
            if same && !contains_entity(results, e) {
                results.push(e);
                get_neighbors_of_color_recursive(
                    entity,
                    &query[e],
                    color,
                    query,
                    colors,
                    results,
                    depth - 1,
                );
            }
        }
        k += 1;
    }
}

/// What a flood adds to `results`: it keeps what was there and its order,
/// every agent it appends is accepted, it appends no agent twice, and with at
/// least one hop it reaches every accepted agent of `list` from place `k` on.
pub proof fn lemma_flood_gathers(
    query: Seq<BoidNeighborsCaptureRange>,
    colors: Seq<Option<BoidColor>>,
    origin: usize,
    list: Seq<usize>,
    k: nat,
    color: BoidColor,
    results: Seq<usize>,
    depth: nat,
)
    ensures
        ({
            let out = flood(query, colors, origin, list, k, color, results, depth);
            &&& results.len() <= out.len()
            &&& forall|i: int| 0 <= i < results.len() ==> out[i] == results[i]
            &&& forall|i: int|
                results.len() <= i < out.len() ==> accepts(
                    query,
                    colors,
                    origin,
                    #[trigger] out[i],
                    color,
                )
            &&& results.no_duplicates() ==> out.no_duplicates()
            &&& depth > 0 ==> forall|j: int|
                k <= j < list.len() && accepts(query, colors, origin, #[trigger] list[j], color)
                    ==> out.contains(list[j])
        }),
    decreases depth, list.len() - k,
{
    if depth == 0 || k >= list.len() {
    } else {
        let e = list[k as int];
        let out = flood(query, colors, origin, list, k, color, results, depth);
        if accepts(query, colors, origin, e, color) && !results.contains(e) {
            let pushed = results.push(e);
            let deeper = flood(
                query,
                colors,
                origin,
                query[e as int].entities@,
                0,
                color,
                pushed,
                (depth - 1) as nat,
            );
            lemma_flood_gathers(
                query,
                colors,
                origin,
                query[e as int].entities@,
                0,
                color,
                pushed,
                (depth - 1) as nat,
            );
            lemma_flood_gathers(query, colors, origin, list, k + 1, color, deeper, depth);
            assert(deeper[results.len() as int] == e);
            assert(out[results.len() as int] == e);
            assert forall|i: int| results.len() <= i < out.len() implies accepts(
                query,
                colors,
                origin,
                #[trigger] out[i],
                color,
            ) by {
                if i < deeper.len() {
                    assert(out[i] == deeper[i]);
                    if i > results.len() {
                        assert(accepts(query, colors, origin, deeper[i], color));
                    }
                }
            }
            assert(out.contains(e));
        } else {
            lemma_flood_gathers(query, colors, origin, list, k + 1, color, results, depth);
            if accepts(query, colors, origin, e, color) {
                let w = choose|w: int| 0 <= w < results.len() && results[w] == e;
                assert(out[w] == e);
            }
        }
    }
}

/// `path` is a chain of accepted agents: it starts at an agent of `start`,
/// and each of its agents has the next one in its capture-range list.
pub open spec fn is_chain(
    query: Seq<BoidNeighborsCaptureRange>,
    colors: Seq<Option<BoidColor>>,
    origin: usize,
    color: BoidColor,
    start: Seq<usize>,
    path: Seq<usize>,
) -> bool {
    &&& path.len() > 0
    &&& start.contains(path[0])
    &&& forall|i: int|
        0 <= i < path.len() ==> accepts(query, colors, origin, #[trigger] path[i], color)
    &&& forall|i: int|
        0 <= i < path.len() - 1 ==> query[(#[trigger] path[i]) as int].entities@.contains(
            path[i + 1],
        )
}

/// Agent `e` ends a chain of at most `hops` accepted agents that starts in `start`.
pub open spec fn reaches(
    query: Seq<BoidNeighborsCaptureRange>,
    colors: Seq<Option<BoidColor>>,
    origin: usize,
    color: BoidColor,
    start: Seq<usize>,
    e: usize,
    hops: nat,
) -> bool {
    exists|path: Seq<usize>| #[trigger]
        is_chain(query, colors, origin, color, start, path) && path.len() <= hops && path.last()
            == e
}

/// Every agent that a flood appends is linked to the agents it started from:
/// it ends a chain of at most `depth` agents of the flood's colour, none of
/// them the origin, that starts in `list`.
pub proof fn lemma_flood_reaches(
    query: Seq<BoidNeighborsCaptureRange>,
    colors: Seq<Option<BoidColor>>,
    origin: usize,
    list: Seq<usize>,
    k: nat,
    color: BoidColor,
    results: Seq<usize>,
    depth: nat,
)
    ensures
        ({
            let out = flood(query, colors, origin, list, k, color, results, depth);
            forall|i: int|
                results.len() <= i < out.len() ==> reaches(
                    query,
                    colors,
                    origin,
                    color,
                    list,
                    #[trigger] out[i],
                    depth,
                )
        }),
    decreases depth, list.len() - k,
{
    if depth == 0 || k >= list.len() {
    } else {
        let e = list[k as int];
        let out = flood(query, colors, origin, list, k, color, results, depth);
        if accepts(query, colors, origin, e, color) && !results.contains(e) {
            let pushed = results.push(e);
            let inner = query[e as int].entities@;
            let deeper = flood(query, colors, origin, inner, 0, color, pushed, (depth - 1) as nat);
            lemma_flood_gathers(query, colors, origin, inner, 0, color, pushed, (depth - 1) as nat);
            lemma_flood_gathers(query, colors, origin, list, k + 1, color, deeper, depth);
            lemma_flood_reaches(query, colors, origin, inner, 0, color, pushed, (depth - 1) as nat);
            lemma_flood_reaches(query, colors, origin, list, k + 1, color, deeper, depth);
            assert forall|i: int| results.len() <= i < out.len() implies reaches(
                query,
                colors,
                origin,
                color,
                list,
                #[trigger] out[i],
                depth,
            ) by {
                if i == results.len() {
                    assert(deeper[i] == pushed[i]);
                    assert(out[i] == e);
                    let path = seq![e];
                    assert(path[0] == e);
                    assert(is_chain(query, colors, origin, color, list, path));
                    assert(path.last() == e);
                } else if i < deeper.len() {
                    assert(out[i] == deeper[i]);
                    assert(reaches(
                        query,
                        colors,
                        origin,
                        color,
                        inner,
                        deeper[i],
                        (depth - 1) as nat,
                    ));
                    let tail = choose|tail: Seq<usize>| #[trigger]
                        is_chain(query, colors, origin, color, inner, tail) && tail.len() <= depth
                            - 1 && tail.last() == deeper[i];
                    let path = seq![e] + tail;
                    assert(path[0] == e);
                    assert forall|j: int| 0 <= j < path.len() implies accepts(
                        query,
                        colors,
                        origin,
                        #[trigger] path[j],
                        color,
                    ) by {
                        if j > 0 {
                            assert(path[j] == tail[j - 1]);
                        }
                    }
                    assert forall|j: int| 0 <= j < path.len() - 1 implies query[(
                    #[trigger] path[j]) as int].entities@.contains(path[j + 1]) by {
                        assert(path[j + 1] == tail[j]);
                        if j > 0 {
                            assert(path[j] == tail[j - 1]);
                        }
                    }
                    assert(is_chain(query, colors, origin, color, list, path));
                    assert(path.last() == tail.last());
                } else {
                    assert(reaches(query, colors, origin, color, list, out[i], depth));
                }
            }
        } else {
            lemma_flood_reaches(query, colors, origin, list, k + 1, color, results, depth);
            assert(out == flood(query, colors, origin, list, k + 1, color, results, depth));
            assert forall|i: int| results.len() <= i < out.len() implies reaches(
                query,
                colors,
                origin,
                color,
                list,
                #[trigger] out[i],
                depth,
            ) by {}
        }
    }
}

/// The colour of an agent, `None` for a neutral agent or one that does not exist.
pub open spec fn color_of(colors: Seq<Option<BoidColor>>, e: usize) -> Option<BoidColor> {
    if e < colors.len() {
        colors[e as int]
    } else {
        None
    }
}

/// How many agents of `color` a full-depth flood from `entity` reaches.
pub open spec fn reach_count(
    query: Seq<BoidNeighborsCaptureRange>,
    colors: Seq<Option<BoidColor>>,
    entity: usize,
    color: BoidColor,
) -> nat
    recommends
        entity < query.len(),
{
    flood(
        query,
        colors,
        entity,
        query[entity as int].entities@,
        0,
        color,
        Seq::empty(),
        FLOOD_DEPTH as nat,
    ).len()
}

/// The place of a colour among an agent's candidates: palette order, with the
/// agent's own colour moved to the end.
pub open spec fn rank(own: Option<BoidColor>, c: BoidColor) -> nat {
    if own == Some(c) {
        PALETTE_SIZE as nat
    } else {
        c.spec_index()
    }
}

/// Whether a colour other than the agent's own reaches anyone from it.
pub open spec fn contested(
    query: Seq<BoidNeighborsCaptureRange>,
    colors: Seq<Option<BoidColor>>,
    entity: usize,
) -> bool {
    exists|c: BoidColor|
        Some(c) != color_of(colors, entity) && #[trigger] reach_count(query, colors, entity, c) > 0
}

/// The count a colour enters the vote with. The agent's own colour counts
/// only when the agent is contested.
pub open spec fn tally(
    query: Seq<BoidNeighborsCaptureRange>,
    colors: Seq<Option<BoidColor>>,
    entity: usize,
    c: BoidColor,
) -> nat {
    if Some(c) == color_of(colors, entity) && !contested(query, colors, entity) {
        0
    } else {
        reach_count(query, colors, entity, c)
    }
}

/// Colour `c` wins the vote at `entity` with `n` agents: no colour has more,
/// and among the colours with as many it is the first candidate.
pub open spec fn is_dominant(
    query: Seq<BoidNeighborsCaptureRange>,
    colors: Seq<Option<BoidColor>>,
    entity: usize,
    c: BoidColor,
    n: nat,
) -> bool {
    &&& n > 0
    &&& n == tally(query, colors, entity, c)
    &&& forall|d: BoidColor| #[trigger] tally(query, colors, entity, d) <= n
    &&& forall|d: BoidColor|
        rank(color_of(colors, entity), d) < rank(color_of(colors, entity), c) ==> #[trigger] tally(
            query,
            colors,
            entity,
            d,
        ) < n
}

/// The winner of the vote at `entity` and its count, if any colour reaches anyone.
pub open spec fn spec_dominant(
    query: Seq<BoidNeighborsCaptureRange>,
    colors: Seq<Option<BoidColor>>,
    entity: usize,
) -> Option<(BoidColor, nat)> {
    if exists|c: BoidColor, n: nat| is_dominant(query, colors, entity, c, n) {
        Some(choose|p: (BoidColor, nat)| is_dominant(query, colors, entity, p.0, p.1))
    } else {
        None
    }
}

/// At most one colour wins the vote.
pub proof fn lemma_dominant_unique(
    query: Seq<BoidNeighborsCaptureRange>,
    colors: Seq<Option<BoidColor>>,
    entity: usize,
    c: BoidColor,
    n: nat,
)
    requires
        is_dominant(query, colors, entity, c, n),
    ensures
        spec_dominant(query, colors, entity) == Some((c, n)),
{
    assert(is_dominant(query, colors, entity, (c, n).0, (c, n).1));
    let p = choose|p: (BoidColor, nat)| is_dominant(query, colors, entity, p.0, p.1);
    assert(tally(query, colors, entity, c) <= p.1);
    assert(tally(query, colors, entity, p.0) <= n);
    let own = color_of(colors, entity);
    if rank(own, c) < rank(own, p.0) {
        assert(tally(query, colors, entity, c) < p.1);
    }
    if rank(own, p.0) < rank(own, c) {
        assert(tally(query, colors, entity, p.0) < n);
    }
    assert(p.0 == c);
}

/// No colour wins the vote when no colour reaches anyone.
pub proof fn lemma_dominant_none(
    query: Seq<BoidNeighborsCaptureRange>,
    colors: Seq<Option<BoidColor>>,
    entity: usize,
)
    requires
        forall|d: BoidColor| #[trigger] tally(query, colors, entity, d) == 0,
    ensures
        spec_dominant(query, colors, entity) is None,
{
}

/// Counts the agents of `color` that a full-depth flood from `entity` reaches.
pub fn count_reachable(
    entity: usize,
    color: BoidColor,
    query: &Vec<BoidNeighborsCaptureRange>,
    colors: &Vec<Option<BoidColor>>,
) -> (n: usize)
    requires
        entity < query.len(),
    ensures
        n == reach_count(query@, colors@, entity, color),
{
    let mut results: Vec<usize> = Vec::new();
    get_neighbors_of_color_recursive(
        entity,
        &query[entity],
        color,
        query,
        colors,
        &mut results,
        FLOOD_DEPTH,
    );
    results.len()
}

/// The colour that wins the vote at `entity`, with its count.
///
/// Every palette colour but the agent's own is counted in palette order; the
/// agent's own colour is counted last, and only if another colour reached
/// anyone. A later candidate replaces an earlier one only with a strictly
/// higher count.
pub fn dominant_color(
    entity: usize,
    query: &Vec<BoidNeighborsCaptureRange>,
    colors: &Vec<Option<BoidColor>>,
) -> (r: Option<(BoidColor, usize)>)
    requires
        entity < query.len(),
        query.len() == colors.len(),
    ensures
        r matches Some((c, n)) ==> spec_dominant(query@, colors@, entity) == Some((c, n as nat)),
        r is None ==> spec_dominant(query@, colors@, entity) is None,
{
    let own = colors[entity];
    let mut best: Option<(BoidColor, usize)> = None;
    let mut idx: usize = 0;
    while idx < PALETTE_SIZE
        invariant
            idx <= PALETTE_SIZE,
            entity < query.len(),
            own == color_of(colors@, entity),
            best is None ==> forall|d: BoidColor|
                d.spec_index() < idx && Some(d) != own ==> #[trigger] reach_count(
                    query@,
                    colors@,
                    entity,
                    d,
                ) == 0,
            best matches Some((c, n)) ==> {
                &&& Some(c) != own
                &&& c.spec_index() < idx
                &&& n > 0
                &&& n == reach_count(query@, colors@, entity, c)
                &&& forall|d: BoidColor|
                    d.spec_index() < idx && Some(d) != own ==> #[trigger] reach_count(
                        query@,
                        colors@,
                        entity,
                        d,
                    ) <= n
                &&& forall|d: BoidColor|
                    d.spec_index() < c.spec_index() && Some(d) != own ==> #[trigger] reach_count(
                        query@,
                        colors@,
                        entity,
                        d,
                    ) < n
            },
        decreases PALETTE_SIZE - idx,
    {
        let candidate = BoidColor::from_index(idx).unwrap();
        let is_own = match own {
            Some(o) => o == candidate,
            None => false,
        };
        if !is_own {
            let count = count_reachable(entity, candidate, query, colors);
            let better = match best {
                Some((_, n)) => count > n,
                None => count > 0,
            };
            if better {
                best = Some((candidate, count));
            }
        }
        idx += 1;
    }
    match (own, best) {
        (Some(o), Some((c, n))) => {
            let count = count_reachable(entity, o, query, colors);
            if count > n {
                best = Some((o, count));
            }
            proof {
                assert(reach_count(query@, colors@, entity, c) > 0);
                assert(contested(query@, colors@, entity));
            }
        },
        _ => {},
    }
    proof {
        match best {
            Some((c, n)) => {
                assert(contested(query@, colors@, entity)) by {
                    if Some(c) == own {
                    } else {
                        assert(reach_count(query@, colors@, entity, c) > 0);
                    }
                }
                assert forall|d: BoidColor| #[trigger]
                    tally(query@, colors@, entity, d) <= n by {
                    if Some(d) != own {
                        assert(reach_count(query@, colors@, entity, d) <= n);
                    }
                }
                assert forall|d: BoidColor| rank(own, d) < rank(own, c) implies #[trigger] tally(
                    query@,
                    colors@,
                    entity,
                    d,
                ) < n by {
                    if Some(d) != own {
                        assert(reach_count(query@, colors@, entity, d) <= n);
                    }
                }
                assert(is_dominant(query@, colors@, entity, c, n as nat));
                lemma_dominant_unique(query@, colors@, entity, c, n as nat);
            },
            None => {
                assert forall|d: BoidColor| #[trigger]
                    tally(query@, colors@, entity, d) == 0 by {
                    if Some(d) != own {
                        assert(reach_count(query@, colors@, entity, d) == 0);
                    } else {
                        assert(!contested(query@, colors@, entity));
                    }
                }
                lemma_dominant_none(query@, colors@, entity);
            },
        }
    }
    best
}

/// What the vote at one agent leads to.
#[derive(PartialEq, Eq, Structural, Copy, Clone, Debug)]
pub enum Verdict {
    /// Nothing changes.
    Keep,
    /// The agent takes this colour now.
    Recolor(BoidColor),
    /// The agent leads this colour and was out-coloured; it keeps the colour
    /// until the capture is handled.
    Capture(BoidColor),
}

/// The verdict for an agent of colour `own` when `color` won the vote with
/// `count` agents. One agent alone converts nobody.
pub open spec fn spec_verdict(own: Option<BoidColor>, leader: bool, color: BoidColor, count: nat)
    -> Verdict {
    if own != Some(color) && count > 1 {
        match own {
            None => Verdict::Recolor(color),
            Some(o) => if leader {
                Verdict::Capture(o)
            } else {
                Verdict::Recolor(color)
            },
        }
    } else {
        Verdict::Keep
    }
}

pub fn verdict(own: Option<BoidColor>, leader: bool, dominant: Option<(BoidColor, usize)>) -> (r:
    Verdict)
    ensures
        r == match dominant {
            Some((color, count)) => spec_verdict(own, leader, color, count as nat),
            None => Verdict::Keep,
        },
{
    match dominant {
        Some((color, count)) => {
            let differs = match own {
                Some(o) => o != color,
                None => true,
            };
            if differs && count > 1 {
                match own {
                    None => Verdict::Recolor(color),
                    Some(o) => if leader {
                        Verdict::Capture(o)
                    } else {
                        Verdict::Recolor(color)
                    },
                }
            } else {
                Verdict::Keep
            }
        },
        None => Verdict::Keep,
    }
}

/// The verdict for agent `i` in a flock with these columns.
pub open spec fn agent_verdict(
    query: Seq<BoidNeighborsCaptureRange>,
    colors: Seq<Option<BoidColor>>,
    leaders: Seq<bool>,
    i: usize,
) -> Verdict {
    match spec_dominant(query, colors, i) {
        Some((c, n)) => spec_verdict(colors[i as int], leaders[i as int], c, n),
        None => Verdict::Keep,
    }
}

/// The colours once the first `n` agents have been judged in turn, each on
/// the colours that the agents before it left behind.
pub open spec fn colors_after(
    query: Seq<BoidNeighborsCaptureRange>,
    colors: Seq<Option<BoidColor>>,
    leaders: Seq<bool>,
    n: nat,
) -> Seq<Option<BoidColor>>
    decreases n,
{
    if n == 0 {
        colors
    } else {
        let before = colors_after(query, colors, leaders, (n - 1) as nat);
        match agent_verdict(query, before, leaders, (n - 1) as usize) {
            Verdict::Recolor(c) => before.update(n - 1, Some(c)),
            _ => before,
        }
    }
}

/// The captures reported while the first `n` agents were judged, in order.
pub open spec fn captures_after(
    query: Seq<BoidNeighborsCaptureRange>,
    colors: Seq<Option<BoidColor>>,
    leaders: Seq<bool>,
    n: nat,
) -> Seq<GameEvent>
    decreases n,
{
    if n == 0 {
        Seq::empty()
    } else {
        let before = colors_after(query, colors, leaders, (n - 1) as nat);
        let earlier = captures_after(query, colors, leaders, (n - 1) as nat);
        match agent_verdict(query, before, leaders, (n - 1) as usize) {
            Verdict::Capture(o) => earlier.push(GameEvent::LeaderCaptured(o)),
            _ => earlier,
        }
    }
}

/// Some agent has colour `c`, and no agent has another colour.
pub open spec fn only_color(colors: Seq<Option<BoidColor>>, c: BoidColor) -> bool {
    &&& exists|i: int| 0 <= i < colors.len() && #[trigger] colors[i] == Some(c)
    &&& forall|i: int| 0 <= i < colors.len() && (#[trigger] colors[i]) is Some ==> colors[i] == Some(c)
}

/// The winner, if exactly one colour is left among the coloured agents.
pub open spec fn winner_of(colors: Seq<Option<BoidColor>>) -> Option<Winner> {
    if exists|c: BoidColor| only_color(colors, c) {
        Some(Winner { color: choose|c: BoidColor| only_color(colors, c) })
    } else {
        None
    }
}

/// The event that closes a propagation pass: a game over if one colour is left.
pub open spec fn game_over_events(colors: Seq<Option<BoidColor>>) -> Seq<GameEvent> {
    match winner_of(colors) {
        Some(w) => seq![GameEvent::GameOver(w)],
        None => Seq::empty(),
    }
}

/// The elements of `s` without repetitions, each at the place of its first occurrence.
pub open spec fn first_occurrences(s: Seq<u8>) -> Seq<u8>
    decreases s.len(),
{
    if s.len() == 0 {
        s
    } else {
        let head = first_occurrences(s.drop_last());
        if head.contains(s.last()) {
            head
        } else {
            head.push(s.last())
        }
    }
}

/// The first occurrences hold what the sequence holds, each element once.
pub proof fn lemma_first_occurrences(s: Seq<u8>)
    ensures
        first_occurrences(s).no_duplicates(),
        forall|x: u8| #[trigger] first_occurrences(s).contains(x) <==> s.contains(x),
    decreases s.len(),
{
    if s.len() > 0 {
        let t = s.drop_last();
        let head = first_occurrences(t);
        lemma_first_occurrences(t);
        assert forall|x: u8| #[trigger] first_occurrences(s).contains(x) <==> s.contains(x) by {
            assert(head.contains(x) <==> t.contains(x));
            if s.contains(x) {
                let j = choose|j: int| 0 <= j < s.len() && s[j] == x;
                if j < t.len() {
                    assert(t[j] == x);
                    assert(t.contains(x));
                    let w = choose|w: int| 0 <= w < head.len() && head[w] == x;
                    assert(first_occurrences(s)[w] == x);
                } else {
                    if !head.contains(x) {
                        assert(first_occurrences(s)[head.len() as int] == x);
                    }
                }
            }
            if first_occurrences(s).contains(x) {
                let w = choose|w: int|
                    0 <= w < first_occurrences(s).len() && first_occurrences(s)[w] == x;
                if w < head.len() {
                    assert(head[w] == x);
                    assert(head.contains(x));
                    let j = choose|j: int| 0 <= j < t.len() && t[j] == x;
                    assert(s[j] == x);
                } else {
                    assert(s[s.len() - 1] == x);
                }
            }
        }
    }
}

/// Calls `Itertools::unique` on the elements of `places`. The adaptor yields
/// an element when it meets it for the first time and skips it afterwards, so
/// the result is the sequence of first occurrences.
#[verifier::external_body]
fn unique_places(places: &Vec<u8>) -> (r: Vec<u8>)
    ensures
        r@ == first_occurrences(places@),
{
    places.iter().copied().unique().collect()
}

/// Decides from the distinct palette places of the coloured agents whether
/// the round is won: it is when there is exactly one place.
pub fn winner_from_distinct(distinct: &Vec<u8>) -> (r: Option<Winner>)
    ensures
        r == if distinct@.len() == 1 {
            match BoidColor::spec_from_index(distinct@[0] as nat) {
                Some(c) => Some(Winner { color: c }),
                None => None,
            }
        } else {
            None
        },
{
    if distinct.len() == 1 {
        match BoidColor::from_index(distinct[0] as usize) {
            Some(c) => Some(Winner { color: c }),
            None => None,
        }
    } else {
        None
    }
}

/// The winner of the round: the one colour left among the coloured agents,
/// if there is exactly one.
pub fn remaining_winner(colors: &Vec<Option<BoidColor>>) -> (r: Option<Winner>)
    ensures
        r == winner_of(colors@),
        r matches Some(w) ==> only_color(colors@, w.color),
        r is None ==> forall|c: BoidColor| !only_color(colors@, c),
{
    let mut places: Vec<u8> = Vec::new();
    let mut i: usize = 0;
    while i < colors.len()
        invariant
            i <= colors.len(),
            forall|j: int|
                0 <= j < places@.len() ==> exists|k: int|
                    0 <= k < i && #[trigger] colors@[k] == BoidColor::spec_from_index(
                        (#[trigger] places@[j]) as nat,
                    ) && colors@[k] is Some,
            forall|k: int|
                0 <= k < i && (#[trigger] colors@[k]) is Some ==> places@.contains(
                    colors@[k].unwrap().spec_index() as u8,
                ),
        decreases colors.len() - i,
    {
        match colors[i] {
            Some(c) => {
                let ghost before = places@;
                let place: u8 = c.index() as u8;
                places.push(place);
                proof {
                    assert(places@[before.len() as int] == place);
                    assert forall|k: int|
                        0 <= k < i + 1 && (#[trigger] colors@[k]) is Some implies places@.contains(
                        colors@[k].unwrap().spec_index() as u8,
                    ) by {
                        if k < i {
                            let x = colors@[k].unwrap().spec_index() as u8;
                            let w = choose|w: int| 0 <= w < before.len() && before[w] == x;
                            assert(places@[w] == x);
                        }
                    }
                    assert forall|j: int| 0 <= j < places@.len() implies exists|k: int|
                        0 <= k < i + 1 && #[trigger] colors@[k] == BoidColor::spec_from_index(
                            (#[trigger] places@[j]) as nat,
                        ) && colors@[k] is Some by {
                        if j < before.len() {
                            assert(places@[j] == before[j]);
                            let k = choose|k: int|
                                0 <= k < i && #[trigger] colors@[k] == BoidColor::spec_from_index(
                                    before[j] as nat,
                                ) && colors@[k] is Some;
                            assert(0 <= k < i + 1 && colors@[k] == BoidColor::spec_from_index(
                                places@[j] as nat,
                            ) && colors@[k] is Some);
                        } else {
                            assert(colors@[i as int] == BoidColor::spec_from_index(
                                places@[j] as nat,
                            ));
                        }
                    }
                }
            },
            None => {},
        }
        i += 1;
    }
    let distinct = unique_places(&places);
    let r = winner_from_distinct(&distinct);
    proof {
        lemma_first_occurrences(places@);
        let d = distinct@;
        if d.len() == 1 {
            let x = d[0];
            assert(d.contains(x));
            assert(places@.contains(x));
            let j = choose|j: int| 0 <= j < places@.len() && places@[j] == x;
            let k = choose|k: int|
                0 <= k < i && #[trigger] colors@[k] == BoidColor::spec_from_index(
                    places@[j] as nat,
                ) && colors@[k] is Some;
            let c = colors@[k].unwrap();
            assert forall|m: int| 0 <= m < colors@.len() && (#[trigger] colors@[m]) is Some implies colors@[m]
                == Some(c) by {
                let y = colors@[m].unwrap().spec_index() as u8;
                assert(places@.contains(y));
                assert(d.contains(y));
                let w = choose|w: int| 0 <= w < d.len() && d[w] == y;
                assert(y == x);
            }
            assert(only_color(colors@, c));
            lemma_only_color_unique(colors@, c);
        } else {
            assert forall|c: BoidColor| !only_color(colors@, c) by {
                if only_color(colors@, c) {
                    let m = choose|m: int| 0 <= m < colors@.len() && #[trigger] colors@[m] == Some(c);
                    let y = c.spec_index() as u8;
                    assert(colors@[m].unwrap().spec_index() as u8 == y);
                    assert(places@.contains(y));
                    assert(d.contains(y));
                    assert(d.len() >= 2);
                    let other = if d[0] == y {
                        d[1]
                    } else {
                        d[0]
                    };
                    assert(d.contains(other));
                    assert(places@.contains(other));
                    let j = choose|j: int| 0 <= j < places@.len() && places@[j] == other;
                    let k = choose|k: int|
                        0 <= k < i && #[trigger] colors@[k] == BoidColor::spec_from_index(
                            places@[j] as nat,
                        ) && colors@[k] is Some;
                    assert(colors@[k] == Some(c));
                }
            }
        }
    }
    r
}

/// If one colour is the only one left, it is the winner.
pub proof fn lemma_only_color_unique(colors: Seq<Option<BoidColor>>, c: BoidColor)
    requires
        only_color(colors, c),
    ensures
        winner_of(colors) == Some(Winner { color: c }),
{
    let d = choose|d: BoidColor| only_color(colors, d);
    let i = choose|i: int| 0 <= i < colors.len() && #[trigger] colors[i] == Some(d);
    assert(colors[i] == Some(c));
}

/// Judges every agent in turn and recolours it where the vote says so, then
/// looks for a winner.
///
/// An agent is judged on the colours as the agents before it left them and
/// on the capture-range lists as they stand. A neutral agent and a follower
/// take the winning colour at once. A leader keeps its colour: its capture
/// is reported and left to `leader_defeated`. The reported captures come
/// first, in agent order; a game over, if one colour is left at the end,
/// comes last.
pub fn propagate_boid_color(flock: &mut Flock) -> (events: Vec<GameEvent>)
    requires
        old(flock).wf(),
    ensures
        final(flock).wf(),
        final(flock).positions == old(flock).positions,
        final(flock).leaders == old(flock).leaders,
        final(flock).input_bound == old(flock).input_bound,
        final(flock).capture_neighbors == old(flock).capture_neighbors,
        final(flock).separation_neighbors == old(flock).separation_neighbors,
        final(flock).colors@ == colors_after(
            old(flock).capture_neighbors@,
            old(flock).colors@,
            old(flock).leaders@,
            old(flock).positions@.len(),
        ),
        events@ == captures_after(
            old(flock).capture_neighbors@,
            old(flock).colors@,
            old(flock).leaders@,
            old(flock).positions@.len(),
        ) + game_over_events(final(flock).colors@),
{
    let n = flock.colors.len();
    let mut events: Vec<GameEvent> = Vec::new();
    let mut i: usize = 0;
    while i < n
        invariant
            i <= n,
            n == flock.positions@.len(),
            flock.wf(),
            flock.positions == old(flock).positions,
            flock.leaders == old(flock).leaders,
            flock.input_bound == old(flock).input_bound,
            flock.capture_neighbors == old(flock).capture_neighbors,
            flock.separation_neighbors == old(flock).separation_neighbors,
            flock.colors@ == colors_after(
                old(flock).capture_neighbors@,
                old(flock).colors@,
                old(flock).leaders@,
                i as nat,
            ),
            events@ == captures_after(
                old(flock).capture_neighbors@,
                old(flock).colors@,
                old(flock).leaders@,
                i as nat,
            ),
        decreases n - i,
    {
        let dominant = dominant_color(i, &flock.capture_neighbors, &flock.colors);
        let v = verdict(flock.colors[i], flock.leaders[i], dominant);
        match v {
            Verdict::Recolor(c) => {
                flock.colors[i] = Some(c);
            },
            Verdict::Capture(o) => {
                events.push(GameEvent::LeaderCaptured(o));
            },
            Verdict::Keep => {},
        }
        i += 1;
    }
    let ghost captures = events@;
    match remaining_winner(&flock.colors) {
        Some(w) => {
            events.push(GameEvent::GameOver(w));
            assert(events@ =~= captures + seq![GameEvent::GameOver(w)]);
        },
        None => {
            assert(events@ =~= captures + Seq::empty());
        },
    }
    events
}

/// Whether the events report the capture of colour `c`.
pub open spec fn captured(events: Seq<GameEvent>, c: BoidColor) -> bool {
    events.contains(GameEvent::LeaderCaptured(c))
}

/// Whether agent `i` has a colour whose capture the events report.
pub open spec fn stripped(events: Seq<GameEvent>, colors: Seq<Option<BoidColor>>, i: int) -> bool {
    colors[i] matches Some(c) && captured(events, c)
}

/// How handling `events` leaves agent `i`: an agent of a captured colour is
/// neutral, leads nothing and is steered by no player; any other agent is as
/// it was.
pub open spec fn handled(events: Seq<GameEvent>, before: Flock, after: Flock, i: int) -> bool {
    if stripped(events, before.colors@, i) {
        &&& after.colors@[i] is None
        &&& !after.leaders@[i]
        &&& !after.input_bound@[i]
    } else {
        &&& after.colors@[i] == before.colors@[i]
        &&& after.leaders@[i] == before.leaders@[i]
        &&& after.input_bound@[i] == before.input_bound@[i]
    }
}

/// The winner named by the last game over among the events.
pub open spec fn last_winner(events: Seq<GameEvent>) -> Option<Winner>
    decreases events.len(),
{
    if events.len() == 0 {
        None
    } else {
        match events.last() {
            GameEvent::GameOver(w) => Some(w),
            GameEvent::LeaderCaptured(_) => last_winner(events.drop_last()),
        }
    }
}

/// Handles the events of a propagation pass.
///
/// Every agent of a captured colour, its leader included, becomes a neutral
/// follower that no player steers. All other agents stay as they are. The
/// result is the winner that the last game over names.
pub fn leader_defeated(flock: &mut Flock, events: &Vec<GameEvent>) -> (winner: Option<Winner>)
    requires
        old(flock).wf(),
    ensures
        final(flock).wf(),
        final(flock).positions == old(flock).positions,
        final(flock).capture_neighbors == old(flock).capture_neighbors,
        final(flock).separation_neighbors == old(flock).separation_neighbors,
        forall|i: int|
            0 <= i < old(flock).positions@.len() ==> #[trigger] handled(
                events@,
                *old(flock),
                *final(flock),
                i,
            ),
        winner == last_winner(events@),
{
    let n = flock.colors.len();
    let mut winner: Option<Winner> = None;
    let mut k: usize = 0;
    proof {
        assert(events@.take(0) =~= Seq::empty());
    }
    while k < events.len()
        invariant
            k <= events.len(),
            n == flock.positions@.len(),
            n == old(flock).colors@.len(),
            n == old(flock).leaders@.len(),
            n == old(flock).input_bound@.len(),
            flock.wf(),
            flock.positions == old(flock).positions,
            flock.capture_neighbors == old(flock).capture_neighbors,
            flock.separation_neighbors == old(flock).separation_neighbors,
            winner == last_winner(events@.take(k as int)),
            forall|i: int|
                0 <= i < n ==> #[trigger] handled(events@.take(k as int), *old(flock), *flock, i),
        decreases events.len() - k,
    {
        let ghost seen = events@.take(k as int);
        let ghost next = events@.take(k + 1);
        proof {
            assert(next =~= seen.push(events@[k as int]));
            assert(next.drop_last() =~= seen);
            assert forall|c: BoidColor| #[trigger]
                captured(next, c) <==> captured(seen, c) || events@[k as int]
                    == GameEvent::LeaderCaptured(c) by {
                if captured(seen, c) {
                    let w = choose|w: int|
                        0 <= w < seen.len() && seen[w] == GameEvent::LeaderCaptured(c);
                    assert(next[w] == GameEvent::LeaderCaptured(c));
                }
                if events@[k as int] == GameEvent::LeaderCaptured(c) {
                    assert(next[k as int] == GameEvent::LeaderCaptured(c));
                }
            }
        }
        match events[k] {
            GameEvent::LeaderCaptured(color) => {
                let mut j: usize = 0;
                while j < n
                    invariant
                        j <= n,
                        k < events.len(),
                        n == flock.positions@.len(),
                        n == old(flock).colors@.len(),
                        n == old(flock).leaders@.len(),
                        n == old(flock).input_bound@.len(),
                        seen == events@.take(k as int),
                        next == events@.take(k + 1),
                        flock.wf(),
                        flock.positions == old(flock).positions,
                        flock.capture_neighbors == old(flock).capture_neighbors,
                        flock.separation_neighbors == old(flock).separation_neighbors,
                        events@[k as int] == GameEvent::LeaderCaptured(color),
                        forall|c: BoidColor| #[trigger]
                            captured(next, c) <==> captured(seen, c) || events@[k as int]
                                == GameEvent::LeaderCaptured(c),
                        forall|i: int|
                            0 <= i < j ==> #[trigger] handled(next, *old(flock), *flock, i),
                        forall|i: int|
                            j <= i < n ==> #[trigger] handled(seen, *old(flock), *flock, i),
                    decreases n - j,
                {
                    let ghost prior = *flock;
                    let hit = match flock.colors[j] {
                        Some(c) => c == color,
                        None => false,
                    };
                    if hit {
                        flock.colors[j] = None;
                        flock.leaders[j] = false;
                        flock.input_bound[j] = false;
                    }
                    proof {
                        assert(captured(next, color));
                        assert(handled(seen, *old(flock), prior, j as int));
                        assert(handled(next, *old(flock), *flock, j as int));
                        assert forall|i: int| 0 <= i < j implies #[trigger] handled(
                            next,
                            *old(flock),
                            *flock,
                            i,
                        ) by {
                            assert(handled(next, *old(flock), prior, i));
                        }
                        assert forall|i: int| j < i < n implies #[trigger] handled(
                            seen,
                            *old(flock),
                            *flock,
                            i,
                        ) by {
                            assert(handled(seen, *old(flock), prior, i));
                        }
                    }
                    j += 1;
                }
            },
            GameEvent::GameOver(w) => {
                winner = Some(w);
                proof {
                    assert forall|i: int| 0 <= i < n implies #[trigger] handled(
                        next,
                        *old(flock),
                        *flock,
                        i,
                    ) by {
                        assert(handled(seen, *old(flock), *flock, i));
                        match old(flock).colors@[i] {
                            Some(c) => {
                                assert(captured(next, c) <==> captured(seen, c));
                            },
                            None => {},
                        }
                    }
                }
            },
        }
        k += 1;
    }
    proof {
        assert(events@.take(k as int) =~= events@);
    }
    winner
}

/// One agent alone converts nobody, two convert a neutral agent: a neutral
/// agent keeps no colour when the winning colour reaches one agent, and
/// takes the winning colour when it reaches more.
pub proof fn lemma_conversion_threshold(leader: bool, color: BoidColor, count: nat)
    ensures
        count <= 1 ==> spec_verdict(None, leader, color, count) == Verdict::Keep,
        count >= 2 ==> spec_verdict(None, leader, color, count) == Verdict::Recolor(color),
{
}

/// A leader's capture is deferred: when another colour wins the vote at a
/// leader with more than one agent, judging the leader reports its capture
/// and changes no colour; once events that hold this report are handled, the
/// leader is neutral, leads nothing and is steered by no player.
pub proof fn lemma_leader_capture_deferred(
    query: Seq<BoidNeighborsCaptureRange>,
    colors: Seq<Option<BoidColor>>,
    leaders: Seq<bool>,
    n: nat,
    own: BoidColor,
    winning: BoidColor,
    count: nat,
    events: Seq<GameEvent>,
    before: Flock,
    after: Flock,
)
    requires
        n < colors.len(),
        n < leaders.len(),
        n < usize::MAX,
        colors_after(query, colors, leaders, n)[n as int] == Some(own),
        leaders[n as int],
        spec_dominant(query, colors_after(query, colors, leaders, n), n as usize) == Some(
            (winning, count),
        ),
        winning != own,
        count > 1,
        events.contains(GameEvent::LeaderCaptured(own)),
        before.colors@[n as int] == colors_after(query, colors, leaders, n + 1)[n as int],
        handled(events, before, after, n as int),
    ensures
        colors_after(query, colors, leaders, n + 1) == colors_after(query, colors, leaders, n),
        captures_after(query, colors, leaders, n + 1) == captures_after(
            query,
            colors,
            leaders,
            n,
        ).push(GameEvent::LeaderCaptured(own)),
        after.colors@[n as int] is None,
        !after.leaders@[n as int],
        !after.input_bound@[n as int],
{
    let earlier = colors_after(query, colors, leaders, n);
    assert(agent_verdict(query, earlier, leaders, n as usize) == Verdict::Capture(own));
}

/// A pass reports at most one game over, as its last event, and it names
/// the one colour left; with two colours left it reports none.
pub proof fn lemma_game_over_once(
    query: Seq<BoidNeighborsCaptureRange>,
    colors: Seq<Option<BoidColor>>,
    leaders: Seq<bool>,
    n: nat,
    left: Seq<Option<BoidColor>>,
)
    ensures
        forall|i: int|
            0 <= i < captures_after(query, colors, leaders, n).len() ==> (
            #[trigger] captures_after(query, colors, leaders, n)[i]) is LeaderCaptured,
        game_over_events(left).len() <= 1,
        forall|c: BoidColor|
            only_color(left, c) ==> game_over_events(left) == seq![
                GameEvent::GameOver(Winner { color: c }),
            ],
        (forall|c: BoidColor| !only_color(left, c)) ==> game_over_events(left).len() == 0,
    decreases n,
{
    if n > 0 {
        lemma_game_over_once(query, colors, leaders, (n - 1) as nat, left);
    }
    assert forall|c: BoidColor| only_color(left, c) implies game_over_events(left) == seq![
        GameEvent::GameOver(Winner { color: c }),
    ] by {
        lemma_only_color_unique(left, c);
    }
}
} // verus!
