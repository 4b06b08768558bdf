//! A quadrant tree over lattice points.
//!
//! A node covers a half-open rectangle (left and bottom edges inclusive,
//! right and top edges exclusive), so every lattice point inside a branch
//! belongs to exactly one of its four children.

use vstd::multiset::Multiset;
use vstd::prelude::*;

verus! {

/// An axis-aligned rectangle. The edges are `i64` so that the bounding
/// square of any disc around a lattice point can be written down.
#[derive(Copy, Clone, Debug)]
pub struct Bounds {
    pub x_min: i64,
    pub x_max: i64,
    pub y_min: i64,
    pub y_max: i64,
}

/// Anything that has a position on the lattice.
pub trait Point: Copy {
    /// The coordinates, x first.
    spec fn spec_xy(&self) -> [i32; 2];

    fn xy(&self) -> (r: &[i32; 2])
        ensures
            *r == self.spec_xy(),
    ;
}

impl Point for [i32; 2] {
    open spec fn spec_xy(&self) -> [i32; 2] {
        *self
    }

    fn xy(&self) -> (r: &[i32; 2]) {
        self
    }
}

/// The point halfway between `lo` and `hi`, rounded towards `lo`.
pub open spec fn spec_midpoint(lo: int, hi: int) -> int {
    lo + (hi - lo) / 2
}

fn midpoint(lo: i64, hi: i64) -> (m: i64)
    requires
        lo <= hi,
    ensures
        m == spec_midpoint(lo as int, hi as int),
        lo <= m <= hi,
{
    let half: i128 = (hi as i128 - lo as i128) / 2;
    (lo as i128 + half) as i64
}

impl Bounds {
    /// Whether the two rectangles, taken with all four edges, share a point.
    pub open spec fn spec_overlaps(self, other: Bounds) -> bool {
        &&& self.x_min <= other.x_max
        &&& self.x_max >= other.x_min
        &&& self.y_min <= other.y_max
        &&& self.y_max >= other.y_min
    }

    /// Whether the lattice point lies in the half-open rectangle.
    pub open spec fn spec_contains(self, p: [i32; 2]) -> bool {
        &&& self.x_min <= p[0] < self.x_max
        &&& self.y_min <= p[1] < self.y_max
    }

    /// Width plus height, each counted as zero when the rectangle is inverted.
    pub open spec fn extent(self) -> nat {
        let w = if self.x_max > self.x_min { self.x_max - self.x_min } else { 0 };
        let h = if self.y_max > self.y_min { self.y_max - self.y_min } else { 0 };
        (w + h) as nat
    }

    /// A rectangle can be split when it holds more than one lattice cell.
    pub open spec fn splittable(self) -> bool {
        &&& self.x_min < self.x_max
        &&& self.y_min < self.y_max
        &&& (self.x_max - self.x_min >= 2 || self.y_max - self.y_min >= 2)
    }

    pub open spec fn mid_x(self) -> i64 {
        spec_midpoint(self.x_min as int, self.x_max as int) as i64
    }

    pub open spec fn mid_y(self) -> i64 {
        spec_midpoint(self.y_min as int, self.y_max as int) as i64
    }

    pub open spec fn top_left(self) -> Bounds {
        Bounds { x_min: self.x_min, x_max: self.mid_x(), y_min: self.y_min, y_max: self.mid_y() }
    }

    pub open spec fn top_right(self) -> Bounds {
        Bounds { x_min: self.mid_x(), x_max: self.x_max, y_min: self.y_min, y_max: self.mid_y() }
    }

    pub open spec fn bottom_left(self) -> Bounds {
        Bounds { x_min: self.x_min, x_max: self.mid_x(), y_min: self.mid_y(), y_max: self.y_max }
    }

    pub open spec fn bottom_right(self) -> Bounds {
        Bounds { x_min: self.mid_x(), x_max: self.x_max, y_min: self.mid_y(), y_max: self.y_max }
    }

    pub fn overlaps(&self, other: Bounds) -> (r: bool)
        ensures
            r == self.spec_overlaps(other),
    {
        (self.x_min <= other.x_max && self.x_max >= other.x_min) && (self.y_min <= other.y_max
            && self.y_max >= other.y_min)
    }

    pub fn contains<P: Point>(&self, point: P) -> (r: bool)
        ensures
            r == self.spec_contains(point.spec_xy()),
    {
        let p = point.xy();
        let x: i64 = p[0] as i64;
        let y: i64 = p[1] as i64;
        self.x_min <= x && x < self.x_max && self.y_min <= y && y < self.y_max
    }
}

/// A point of a splittable rectangle lies in exactly one quadrant, and every
/// quadrant is smaller than the rectangle.
pub proof fn lemma_quadrants(b: Bounds)
    requires
        b.splittable(),
    ensures
        b.top_left().extent() < b.extent(),
        b.top_right().extent() < b.extent(),
        b.bottom_left().extent() < b.extent(),
        b.bottom_right().extent() < b.extent(),
        forall|p: [i32; 2]| #[trigger]
            b.spec_contains(p) ==> (b.top_left().spec_contains(p) <==> p[0] < b.mid_x() && p[1]
                < b.mid_y()),
        forall|p: [i32; 2]| #[trigger]
            b.spec_contains(p) ==> (b.top_right().spec_contains(p) <==> p[0] >= b.mid_x() && p[1]
                < b.mid_y()),
        forall|p: [i32; 2]| #[trigger]
            b.spec_contains(p) ==> (b.bottom_left().spec_contains(p) <==> p[0] < b.mid_x() && p[1]
                >= b.mid_y()),
        forall|p: [i32; 2]| #[trigger]
            b.spec_contains(p) ==> (b.bottom_right().spec_contains(p) <==> p[0] >= b.mid_x()
                && p[1] >= b.mid_y()),
        forall|p: [i32; 2]|
            (#[trigger] b.top_left().spec_contains(p) || #[trigger] b.top_right().spec_contains(p)
                || #[trigger] b.bottom_left().spec_contains(p)
                || #[trigger] b.bottom_right().spec_contains(p)) ==> b.spec_contains(p),
{
}

/// Whether the point of every entry lies in the rectangle.
pub open spec fn all_inside<UserData>(b: Bounds, items: Seq<([i32; 2], UserData)>) -> bool {
    forall|i: int| 0 <= i < items.len() ==> b.spec_contains((#[trigger] items[i]).0)
}

/// Selects the entries whose point lies in the rectangle.
pub open spec fn in_rect<UserData>(b: Bounds) -> spec_fn(([i32; 2], UserData)) -> bool {
    |e: ([i32; 2], UserData)| b.spec_contains(e.0)
}

/// The squared Euclidean distance between two lattice points.
pub open spec fn dist_sq(p: [i32; 2], q: [i32; 2]) -> int {
    (p[0] - q[0]) * (p[0] - q[0]) + (p[1] - q[1]) * (p[1] - q[1])
}

/// Computes the squared Euclidean distance between two lattice points.
pub fn distance_squared(p: [i32; 2], q: [i32; 2]) -> (d: i128)
    ensures
        d == dist_sq(p, q),
{
    let a: i128 = p[0] as i128 - q[0] as i128;
    let b: i128 = p[1] as i128 - q[1] as i128;
    assert(0 <= a * a <= 0x1_0000_0000_0000_0000 && 0 <= b * b <= 0x1_0000_0000_0000_0000)
        by (nonlinear_arith)
        requires
            -0x1_0000_0000 <= a <= 0x1_0000_0000,
            -0x1_0000_0000 <= b <= 0x1_0000_0000,
    ;
    a * a + b * b
}

/// Selects the entries whose point is closer to `center` than `radius`.
pub open spec fn in_disc<UserData>(center: [i32; 2], radius: u32) -> spec_fn(
    ([i32; 2], UserData),
) -> bool {
    |e: ([i32; 2], UserData)| dist_sq(e.0, center) < radius * radius
}

/// The square with the disc's centre and twice its radius as side.
pub open spec fn bounding_square(center: [i32; 2], radius: u32) -> Bounds {
    Bounds {
        x_min: (center[0] - radius) as i64,
        x_max: (center[0] + radius) as i64,
        y_min: (center[1] - radius) as i64,
        y_max: (center[1] + radius) as i64,
    }
}

/// The values that a sequence of references points to.
pub open spec fn referents<T>(s: Seq<&T>) -> Seq<T> {
    Seq::new(s.len(), |i: int| *s[i])
}

/// A filter that no element passes leaves nothing.
pub proof fn lemma_filter_none<T>(s: Seq<T>, pred: spec_fn(T) -> bool)
    requires
        forall|i: int| 0 <= i < s.len() ==> !pred(#[trigger] s[i]),
    ensures
        s.filter(pred) == Seq::<T>::empty(),
    decreases s.len(),
{
    reveal(Seq::filter);
    if s.len() > 0 {
        lemma_filter_none(s.drop_last(), pred);
    }
}

/// A filter that every element passes changes nothing.
pub proof fn lemma_filter_all<T>(s: Seq<T>, pred: spec_fn(T) -> bool)
    requires
        forall|i: int| 0 <= i < s.len() ==> pred(#[trigger] s[i]),
    ensures
        s.filter(pred) == s,
    decreases s.len(),
{
    reveal(Seq::filter);
    if s.len() > 0 {
        lemma_filter_all(s.drop_last(), pred);
        assert(s.drop_last().push(s.last()) =~= s);
    }
}

/// Filtering by a wide predicate and then by a narrower one is filtering by
/// the narrower one.
pub proof fn lemma_filter_narrow<T>(s: Seq<T>, wide: spec_fn(T) -> bool, narrow: spec_fn(T) -> bool)
    requires
        forall|x: T| #[trigger] narrow(x) ==> wide(x),
    ensures
        s.filter(wide).filter(narrow) == s.filter(narrow),
    decreases s.len(),
{
    reveal(Seq::filter);
    if s.len() > 0 {
        let t = s.drop_last();
        let x = s.last();
        lemma_filter_narrow(t, wide, narrow);
        if wide(x) {
            t.filter(wide).lemma_filter_push(x, narrow);
        }
    }
}

/// A point closer to the centre than the radius lies in the bounding square.
pub proof fn lemma_disc_in_square(p: [i32; 2], center: [i32; 2], radius: u32)
    requires
        dist_sq(p, center) < radius * radius,
    ensures
        bounding_square(center, radius).spec_contains(p),
{
    let dx = p[0] - center[0];
    let dy = p[1] - center[1];
    let r = radius as int;
    assert(dx * dx >= 0 && dy * dy >= 0) by (nonlinear_arith);
    assert((dx >= r || dx <= -r) && r >= 0 ==> dx * dx >= r * r) by (nonlinear_arith);
    assert((dy >= r || dy <= -r) && r >= 0 ==> dy * dy >= r * r) by (nonlinear_arith);
}

/// A node of the tree together with the rectangle it covers.
pub struct QuadTree<UserData, const MAX_LEAF_ITEMS: usize> {
    node_data: NodeData<UserData, MAX_LEAF_ITEMS>,
    bounds: Bounds,
}

pub enum NodeData<UserData, const MAX_LEAF_ITEMS: usize> {
    Branch {
        top_left: Box<QuadTree<UserData, MAX_LEAF_ITEMS>>,
        top_right: Box<QuadTree<UserData, MAX_LEAF_ITEMS>>,
        bottom_left: Box<QuadTree<UserData, MAX_LEAF_ITEMS>>,
        bottom_right: Box<QuadTree<UserData, MAX_LEAF_ITEMS>>,
    },
    Leaf(Vec<([i32; 2], UserData)>),
}

impl<UserData, const MAX_LEAF_ITEMS: usize> NodeData<UserData, MAX_LEAF_ITEMS> {
    fn empty_leaf() -> (r: Self)
        ensures
            r matches NodeData::Leaf(v) && v@.len() == 0,
    {
        let v: Vec<([i32; 2], UserData)> = Vec::new();
        NodeData::Leaf(v)
    }
}

impl<UserData, const MAX_LEAF_ITEMS: usize> QuadTree<UserData, MAX_LEAF_ITEMS> {
    /// The rectangle that the node covers.
    pub closed spec fn bounds(self) -> Bounds {
        self.bounds
    }

    /// Every stored entry, children in the order top left, top right,
    /// bottom left, bottom right.
    pub closed spec fn entries(self) -> Seq<([i32; 2], UserData)>
        decreases self,
    {
        match self.node_data {
            NodeData::Leaf(items) => items@,
            NodeData::Branch { top_left, top_right, bottom_left, bottom_right } => {
                top_left.entries() + top_right.entries() + bottom_left.entries()
                    + bottom_right.entries()
            },
        }
    }

    /// The stored entries without their order.
    pub open spec fn contents(self) -> Multiset<([i32; 2], UserData)> {
        self.entries().to_multiset()
    }

    /// Every entry sits in a leaf whose rectangle contains its point, a leaf
    /// that can be split holds at most `MAX_LEAF_ITEMS` entries, and the
    /// children of a branch cover the four quadrants of its rectangle.
    pub closed spec fn wf(self) -> bool
        decreases self,
    {
        match self.node_data {
            NodeData::Leaf(items) => {
                &&& all_inside(self.bounds, items@)
                &&& self.bounds.splittable() ==> items@.len() <= MAX_LEAF_ITEMS
            },
            NodeData::Branch { top_left, top_right, bottom_left, bottom_right } => {
                &&& self.bounds.splittable()
                &&& top_left.bounds == self.bounds.top_left()
                &&& top_right.bounds == self.bounds.top_right()
                &&& bottom_left.bounds == self.bounds.bottom_left()
                &&& bottom_right.bounds == self.bounds.bottom_right()
                &&& top_left.wf()
                &&& top_right.wf()
                &&& bottom_left.wf()
                &&& bottom_right.wf()
            },
        }
    }

    /// The points of all entries lie in the node's rectangle.
    pub proof fn lemma_entries_in_bounds(self)
        requires
            self.wf(),
        ensures
            all_inside(self.bounds(), self.entries()),
        decreases self,
    {
        match self.node_data {
            NodeData::Leaf(items) => {},
            NodeData::Branch { top_left, top_right, bottom_left, bottom_right } => {
                top_left.lemma_entries_in_bounds();
                top_right.lemma_entries_in_bounds();
                bottom_left.lemma_entries_in_bounds();
                bottom_right.lemma_entries_in_bounds();
                lemma_quadrants(self.bounds);
            },
        }
    }

    /// An empty index over `bounds`.
    pub fn new(bounds: Bounds) -> (r: Self)
        ensures
            r.wf(),
            r.bounds() == bounds,
            r.entries() == Seq::<([i32; 2], UserData)>::empty(),
    {
        Self { node_data: NodeData::empty_leaf(), bounds }
    }

    pub fn contains_point<P: Point>(&self, point: P) -> (r: bool)
        ensures
            r == self.bounds().spec_contains(point.spec_xy()),
    {
        self.bounds.contains(point)
    }

    /// Adds one entry. A point outside the node's rectangle is not stored.
    /// A leaf that already holds `MAX_LEAF_ITEMS` entries is split first,
    /// unless its rectangle is a single lattice cell.
    pub fn insert<P: Point>(&mut self, point: P, data: UserData)
        requires
            old(self).wf(),
        ensures
            final(self).wf(),
            final(self).bounds() == old(self).bounds(),
            old(self).bounds().spec_contains(point.spec_xy()) ==> final(self).contents() == old(
                self,
            ).contents().insert((point.spec_xy(), data)),
            !old(self).bounds().spec_contains(point.spec_xy()) ==> final(self).entries() == old(
                self,
            ).entries(),
        decreases old(self).bounds().extent(), 2int,
    {
        if !self.bounds.contains(point) {
            return ;
        }
        let is_full_leaf = match &self.node_data {
            NodeData::Leaf(items) => items.len() >= MAX_LEAF_ITEMS,
            NodeData::Branch { .. } => false,
        };
        if is_full_leaf && self.can_split() {
            self.subdivide();
        }
        match &mut self.node_data {
            NodeData::Leaf(items) => {
                let p: [i32; 2] = *point.xy();
                proof {
                    vstd::seq_lib::to_multiset_build(items@, (p, data));
                }
                items.push((p, data));
            },
            NodeData::Branch { .. } => {
                self.insert_into_child(point, data);
            },
        }
    }

    /// Hands an entry whose point lies in this branch to the child that owns it.
    fn insert_into_child<P: Point>(&mut self, point: P, data: UserData)
        requires
            old(self).wf(),
            old(self).node_data is Branch,
            old(self).bounds.spec_contains(point.spec_xy()),
        ensures
            final(self).wf(),
            final(self).node_data is Branch,
            final(self).bounds == old(self).bounds,
            final(self).contents() == old(self).contents().insert((point.spec_xy(), data)),
        decreases old(self).bounds().extent(), 0int,
    {
        let ghost before = *self;
        let b = self.bounds;
        match &mut self.node_data {
            NodeData::Leaf(_) => {},
            NodeData::Branch { top_left, top_right, bottom_left, bottom_right } => {
                proof {
                    lemma_quadrants(b);
                    before.lemma_branch_contents();
                }
                let p = point.xy();
                let left = (p[0] as i64) < top_right.bounds.x_min;
                let top = (p[1] as i64) < bottom_left.bounds.y_min;
                if top {
                    if left {
                        top_left.insert(point, data);
                    } else {
                        top_right.insert(point, data);
                    }
                } else {
                    if left {
                        bottom_left.insert(point, data);
                    } else {
                        bottom_right.insert(point, data);
                    }
                }
            },
        }
        proof {
            self.lemma_branch_contents();
        }
    }

    /// The entries whose point lies in `bounds`, in the order of `entries`.
    /// Subtrees whose rectangle does not touch `bounds` are not visited.
    pub fn query(&self, bounds: Bounds) -> (result: Vec<&([i32; 2], UserData)>)
        requires
            self.wf(),
        ensures
            referents(result@) == self.entries().filter(in_rect(bounds)),
        decreases self,
    {
        let mut result = Vec::new();
        if !self.bounds.overlaps(bounds) {
            proof {
                self.lemma_entries_in_bounds();
                lemma_filter_none(self.entries(), in_rect(bounds));
                assert(referents(result@) =~= Seq::empty());
            }
            return result;
        }
        match &self.node_data {
            NodeData::Branch { top_left, top_right, bottom_left, bottom_right } => {
                let mut a = top_left.query(bounds);
                let mut b = top_right.query(bounds);
                let mut c = bottom_left.query(bounds);
                let mut d = bottom_right.query(bounds);
                let ghost (sa, sb, sc, sd) = (a@, b@, c@, d@);
                result.append(&mut a);
                result.append(&mut b);
                result.append(&mut c);
                result.append(&mut d);
                proof {
                    let pred = in_rect::<UserData>(bounds);
                    let (ea, eb, ec, ed) = (
                        top_left.entries(),
                        top_right.entries(),
                        bottom_left.entries(),
                        bottom_right.entries(),
                    );
                    Seq::filter_distributes_over_add(ea, eb, pred);
                    Seq::filter_distributes_over_add(ea + eb, ec, pred);
                    Seq::filter_distributes_over_add(ea + eb + ec, ed, pred);
                    assert(result@ =~= sa + sb + sc + sd);
                    assert(referents(result@) =~= referents(sa) + referents(sb) + referents(sc)
                        + referents(sd));
                }
            },
            NodeData::Leaf(points) => {
                let mut i: usize = 0;
                proof {
                    assert(points@.take(0) =~= Seq::empty());
                    lemma_filter_none(points@.take(0), in_rect(bounds));
                    assert(referents(result@) =~= Seq::empty());
                }
                while i < points.len()
                    invariant
                        i <= points.len(),
                        referents(result@) == points@.take(i as int).filter(in_rect(bounds)),
                    decreases points.len() - i,
                {
                    let point = &points[i];
                    let ghost before = result@;
                    if bounds.contains(point.0) {
                        result.push(point);
                        assert(referents(result@) =~= referents(before).push(*point));
                    }
                    proof {
                        points@.take(i as int).lemma_filter_push(points@[i as int], in_rect(bounds));
                        assert(points@.take(i + 1) =~= points@.take(i as int).push(
                            points@[i as int],
                        ));
                    }
                    i += 1;
                }
                assert(points@.take(i as int) =~= points@);
            },
        }
        result
    }

    /// The entries whose point is closer to `point` than `distance`, in the
    /// order of `entries`.
    pub fn query_distance<P: Point>(&self, point: P, distance: u32) -> (result: Vec<
        &([i32; 2], UserData),
    >)
        requires
            self.wf(),
        ensures
            referents(result@) == self.entries().filter(in_disc(point.spec_xy(), distance)),
    {
        let center: [i32; 2] = *point.xy();
        let reach: i64 = distance as i64;
        let square = Bounds {
            x_min: center[0] as i64 - reach,
            x_max: center[0] as i64 + reach,
            y_min: center[1] as i64 - reach,
            y_max: center[1] as i64 + reach,
        };
        let candidates = self.query(square);
        assert(reach * reach <= 0x1_0000_0000_0000_0000) by (nonlinear_arith)
            requires
                0 <= reach <= 0xffff_ffff,
        ;
        let limit: i128 = (reach as i128) * (reach as i128);
        let mut result = Vec::new();
        let mut i: usize = 0;
        proof {
            assert(referents(candidates@).take(0) =~= Seq::empty());
            lemma_filter_none(referents(candidates@).take(0), in_disc(center, distance));
            assert(referents(result@) =~= Seq::empty());
        }
        while i < candidates.len()
            invariant
                i <= candidates.len(),
                limit == distance * distance,
                referents(result@) == referents(candidates@).take(i as int).filter(
                    in_disc(center, distance),
                ),
            decreases candidates.len() - i,
        {
            let entry = candidates[i];
            let ghost before = result@;
            if distance_squared(entry.0, center) < limit {
                result.push(entry);
                assert(referents(result@) =~= referents(before).push(*entry));
            }
            proof {
                let seen = referents(candidates@).take(i as int);
                seen.lemma_filter_push(*entry, in_disc(center, distance));
                assert(referents(candidates@).take(i + 1) =~= seen.push(*entry));
            }
            i += 1;
        }
        proof {
            assert(referents(candidates@).take(i as int) =~= referents(candidates@));
            assert(square == bounding_square(center, distance));
            assert forall|e: ([i32; 2], UserData)| #[trigger]
                in_disc(center, distance)(e) implies in_rect(square)(e) by {
                lemma_disc_in_square(e.0, center, distance);
            }
            lemma_filter_narrow(self.entries(), in_rect(square), in_disc(center, distance));
        }
        result
    }

    /// Asking for the node's own rectangle gives every stored entry.
    pub proof fn lemma_query_whole_bounds(self)
        requires
            self.wf(),
        ensures
            self.entries().filter(in_rect(self.bounds())) == self.entries(),
    {
        self.lemma_entries_in_bounds();
        lemma_filter_all(self.entries(), in_rect(self.bounds()));
    }

    /// Entries neither get lost nor come twice: once an entry has been added
    /// to the contents, asking for the node's own rectangle gives what it
    /// gave before and that entry once more.
    pub proof fn lemma_whole_query_after_insert(before: Self, after: Self, e: ([i32; 2], UserData))
        requires
            before.wf(),
            after.wf(),
            after.contents() == before.contents().insert(e),
        ensures
            after.entries().filter(in_rect(after.bounds())).to_multiset()
                == before.entries().filter(in_rect(before.bounds())).to_multiset().insert(e),
    {
        before.lemma_query_whole_bounds();
        after.lemma_query_whole_bounds();
    }

    /// The contents of a branch are the contents of its four children together.
    proof fn lemma_branch_contents(self)
        requires
            self.node_data is Branch,
        ensures
            self.node_data matches NodeData::Branch {
                top_left,
                top_right,
                bottom_left,
                bottom_right,
            } && self.contents() =~= top_left.contents().add(top_right.contents()).add(
                bottom_left.contents(),
            ).add(bottom_right.contents()),
    {
        match self.node_data {
            NodeData::Leaf(items) => {},
            NodeData::Branch { top_left, top_right, bottom_left, bottom_right } => {
                let a = top_left.entries();
                let b = top_right.entries();
                let c = bottom_left.entries();
                let d = bottom_right.entries();
                vstd::seq_lib::lemma_multiset_commutative(a, b);
                vstd::seq_lib::lemma_multiset_commutative(a + b, c);
                vstd::seq_lib::lemma_multiset_commutative(a + b + c, d);
            },
        }
    }

    fn can_split(&self) -> (r: bool)
        ensures
            r == self.bounds.splittable(),
    {
        let b = self.bounds;
        b.x_min < b.x_max && b.y_min < b.y_max && (b.x_max as i128 - b.x_min as i128 >= 2
            || b.y_max as i128 - b.y_min as i128 >= 2)
    }

    /// Turns a leaf into a branch and hands its entries to the four children.
    fn subdivide(&mut self)
        requires
            old(self).wf(),
            old(self).node_data is Leaf,
            old(self).bounds.splittable(),
        ensures
            final(self).wf(),
            final(self).node_data is Branch,
            final(self).bounds == old(self).bounds,
            final(self).contents() == old(self).contents(),
        decreases old(self).bounds().extent(), 1int,
    {
        let bounds = self.bounds;
        let mid_x = midpoint(bounds.x_min, bounds.x_max);
        let mid_y = midpoint(bounds.y_min, bounds.y_max);
        let mut old_data = NodeData::Branch {
                top_left: Box::new(
                    QuadTree {
                        node_data: NodeData::empty_leaf(),
                        bounds: Bounds {
                            x_min: bounds.x_min,
                            x_max: mid_x,
                            y_min: bounds.y_min,
                            y_max: mid_y,
                        },
                    },
                ),
                top_right: Box::new(
                    QuadTree {
                        node_data: NodeData::empty_leaf(),
                        bounds: Bounds {
                            x_min: mid_x,
                            x_max: bounds.x_max,
                            y_min: bounds.y_min,
                            y_max: mid_y,
                        },
                    },
                ),
                bottom_left: Box::new(
                    QuadTree {
                        node_data: NodeData::empty_leaf(),
                        bounds: Bounds {
                            x_min: bounds.x_min,
                            x_max: mid_x,
                            y_min: mid_y,
                            y_max: bounds.y_max,
                        },
                    },
                ),
                bottom_right: Box::new(
                    QuadTree {
                        node_data: NodeData::empty_leaf(),
                        bounds: Bounds {
                            x_min: mid_x,
                            x_max: bounds.x_max,
                            y_min: mid_y,
                            y_max: bounds.y_max,
                        },
                    },
                ),
        };
        std::mem::swap(&mut self.node_data, &mut old_data);
        let ghost total = old(self).contents();
        match old_data {
            NodeData::Leaf(mut items) => {
                let ghost fresh = *self;
                proof {
                    broadcast use vstd::multiset::group_multiset_axioms;

                    assert(bounds.mid_x() == mid_x);
                    assert(bounds.mid_y() == mid_y);
                    match fresh.node_data {
                        NodeData::Leaf(_) => {},
                        NodeData::Branch { top_left, top_right, bottom_left, bottom_right } => {
                            assert(top_left.wf());
                            assert(top_right.wf());
                            assert(bottom_left.wf());
                            assert(bottom_right.wf());
                            assert(top_left.entries() =~= Seq::empty());
                            assert(top_right.entries() =~= Seq::empty());
                            assert(bottom_left.entries() =~= Seq::empty());
                            assert(bottom_right.entries() =~= Seq::empty());
                        },
                    }
                    assert(self.wf());
                    assert(self.entries() =~= Seq::empty());
                    Seq::<([i32; 2], UserData)>::empty().to_multiset_ensures();
                    assert(self.contents() =~= Multiset::empty());
                    assert(total == items@.to_multiset());
                }
                while items.len() > 0
                    invariant
                        self.wf(),
                        self.node_data is Branch,
                        self.bounds == bounds,
                        bounds == old(self).bounds,
                        bounds.splittable(),
                        all_inside(bounds, items@),
                        self.contents().add(items@.to_multiset()) =~= total,
                    decreases items.len(),
                {
                    let ghost prev = items@;
                    let item = items.pop().unwrap();
                    proof {
                        assert(prev =~= items@.push(item));
                        vstd::seq_lib::to_multiset_build(items@, item);
                        assert(bounds.spec_contains(prev.last().0));
                    }
                    self.insert_into_child(item.0, item.1);
                }
                proof {
                    broadcast use vstd::multiset::group_multiset_axioms;

                    assert(items@ =~= Seq::empty());
                    items@.to_multiset_ensures();
                    assert(items@.to_multiset() =~= Multiset::empty());
                }
            },
            NodeData::Branch { .. } => {},
        }
    }
}

} // verus!
