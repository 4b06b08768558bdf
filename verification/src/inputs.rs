//! The per-agent accumulator of steering requests.
//!
//! Requests are fixed-point numbers: `ONE` stands for 1.0. A request that is
//! not a number is `None`.

use vstd::prelude::*;

verus! {

/// The fixed-point number that stands for 1.0.
pub const ONE: i32 = 1_000_000;

/// The sum of the values.
pub open spec fn total(values: Seq<i32>) -> int
    decreases values.len(),
{
    if values.len() == 0 {
        0
    } else {
        total(values.drop_last()) + values.last()
    }
}

/// The arithmetic mean of the values, rounded towards zero; zero for no values.
pub open spec fn mean(values: Seq<i32>) -> int {
    if values.len() == 0 {
        0
    } else if total(values) >= 0 {
        total(values) / (values.len() as int)
    } else {
        -((-total(values)) / (values.len() as int))
    }
}

/// The sum lies between the smallest and the largest value times the count.
pub proof fn lemma_total_bounds(values: Seq<i32>)
    ensures
        values.len() * i32::MIN <= total(values) <= values.len() * i32::MAX,
    decreases values.len(),
{
    if values.len() > 0 {
        lemma_total_bounds(values.drop_last());
        assert(values.len() * i32::MIN == (values.len() - 1) * i32::MIN + i32::MIN)
            by (nonlinear_arith);
        assert(values.len() * i32::MAX == (values.len() - 1) * i32::MAX + i32::MAX)
            by (nonlinear_arith);
    }
}

/// The mean of values lies between the smallest and the largest value there is.
pub proof fn lemma_mean_bounds(values: Seq<i32>)
    ensures
        i32::MIN <= mean(values) <= i32::MAX,
{
    lemma_total_bounds(values);
    let n = values.len() as int;
    let t = total(values);
    if n > 0 {
        if t >= 0 {
            assert(t / n <= i32::MAX && t / n >= 0) by (nonlinear_arith)
                requires
                    0 <= t <= n * i32::MAX,
                    n > 0,
            ;
        } else {
            assert(0 <= (-t) / n <= 0x8000_0000) by (nonlinear_arith)
                requires
                    0 < -t <= n * 0x8000_0000,
                    n > 0,
            ;
        }
    }
}

/// Taking one value out of a sequence takes it out of the sum.
pub proof fn lemma_total_remove(s: Seq<i32>, i: int)
    requires
        0 <= i < s.len(),
    ensures
        total(s) == total(s.remove(i)) + s[i],
    decreases s.len(),
{
    if i == s.len() - 1 {
        assert(s.remove(i) =~= s.drop_last());
    } else {
        lemma_total_remove(s.drop_last(), i);
        assert(s.remove(i).drop_last() =~= s.drop_last().remove(i));
        assert(s.remove(i).last() == s.last());
    }
}

/// The sum of the values does not depend on their order.
pub proof fn lemma_total_ignores_order(a: Seq<i32>, b: Seq<i32>)
    requires
        a.to_multiset() == b.to_multiset(),
    ensures
        total(a) == total(b),
        a.len() == b.len(),
    decreases a.len(),
{
    broadcast use vstd::multiset::group_multiset_axioms;

    vstd::seq_lib::to_multiset_len(a);
    vstd::seq_lib::to_multiset_len(b);
    if a.len() > 0 {
        let x = a.last();
        let front = a.drop_last();
        assert(front.push(x) =~= a);
        vstd::seq_lib::to_multiset_build(front, x);
        vstd::seq_lib::to_multiset_contains(b, x);
        assert(b.to_multiset().count(x) > 0);
        let i = choose|i: int| 0 <= i < b.len() && b[i] == x;
        vstd::seq_lib::to_multiset_remove(b, i);
        assert(front.to_multiset() =~= b.remove(i).to_multiset());
        lemma_total_ignores_order(front, b.remove(i));
        lemma_total_remove(b, i);
    }
}

/// The mean of the requests is their arithmetic mean in whatever order they
/// were submitted: two sequences that hold the same values as often have the
/// same mean.
pub proof fn lemma_mean_ignores_order(a: Seq<i32>, b: Seq<i32>)
    requires
        a.to_multiset() == b.to_multiset(),
    ensures
        mean(a) == mean(b),
{
    lemma_total_ignores_order(a, b);
}

/// After a reset the mean is zero, and the first request alone is its own mean.
pub proof fn lemma_mean_after_reset(x: i32)
    ensures
        mean(Seq::<i32>::empty()) == 0,
        mean(Seq::<i32>::empty().push(x)) == x,
{
    let one = Seq::<i32>::empty().push(x);
    assert(one.drop_last() =~= Seq::<i32>::empty());
    assert(one.last() == x);
    assert(total(one.drop_last()) == 0);
    assert(total(one) == total(one.drop_last()) + one.last());
}

/// Collects the turn and speed requests of one tick and averages each kind,
/// so that every source of steering pulls with equal weight however often it
/// submits.
pub struct BoidAveragedInputs {
    turn_sum: i64,
    turn_count: u32,
    speed_sum: i64,
    speed_count: u32,
    turns: Ghost<Seq<i32>>,
    speeds: Ghost<Seq<i32>>,
}

impl BoidAveragedInputs {
    /// The turn requests taken up since the last reset, in order.
    pub closed spec fn turns(self) -> Seq<i32> {
        self.turns@
    }

    /// The speed requests taken up since the last reset, in order.
    pub closed spec fn speeds(self) -> Seq<i32> {
        self.speeds@
    }

    /// The sums and counts are those of the requests taken up.
    pub closed spec fn wf(self) -> bool {
        &&& self.turn_sum == total(self.turns@)
        &&& self.turn_count == self.turns@.len()
        &&& self.speed_sum == total(self.speeds@)
        &&& self.speed_count == self.speeds@.len()
    }

    pub fn new() -> (r: Self)
        ensures
            r.wf(),
            r.turns() == Seq::<i32>::empty(),
            r.speeds() == Seq::<i32>::empty(),
    {
        BoidAveragedInputs {
            turn_sum: 0,
            turn_count: 0,
            speed_sum: 0,
            speed_count: 0,
            turns: Ghost(Seq::empty()),
            speeds: Ghost(Seq::empty()),
        }
    }

    /// How many turn requests were taken up since the last reset.
    pub fn turn_count(&self) -> (n: u32)
        requires
            self.wf(),
        ensures
            n == self.turns().len(),
    {
        self.turn_count
    }

    /// How many speed requests were taken up since the last reset.
    pub fn speed_count(&self) -> (n: u32)
        requires
            self.wf(),
        ensures
            n == self.speeds().len(),
    {
        self.speed_count
    }

    /// Takes up a turn request. A request that is not a number is dropped.
    pub fn add_turn(&mut self, direction: Option<i32>)
        requires
            old(self).wf(),
            old(self).turns().len() < u32::MAX,
        ensures
            final(self).wf(),
            final(self).speeds() == old(self).speeds(),
            final(self).turns() == match direction {
                Some(value) => old(self).turns().push(value),
                None => old(self).turns(),
            },
    {
        match direction {
            None => {},
            Some(value) => {
                proof {
                    lemma_total_bounds(self.turns@);
                    assert(self.turns@.push(value).drop_last() =~= self.turns@);
                    assert(self.turns@.len() * i32::MIN >= 0xffff_ffff * i32::MIN
                        && self.turns@.len() * i32::MAX <= 0xffff_ffff * i32::MAX)
                        by (nonlinear_arith)
                        requires
                            self.turns@.len() <= 0xffff_ffff,
                    ;
                }
                self.turn_count += 1;
                self.turn_sum = self.turn_sum + value as i64;
                self.turns = Ghost(self.turns@.push(value));
            },
        }
    }

    /// The mean of the turn requests taken up since the last reset, zero if
    /// there was none.
    pub fn turn_average(&self) -> (r: i32)
        requires
            self.wf(),
        ensures
            r == mean(self.turns()),
    {
        proof {
            lemma_mean_bounds(self.turns@);
        }
        average(self.turn_sum, self.turn_count)
    }

    /// Takes up a speed request. A request that is not a number is dropped.
    pub fn add_speed(&mut self, input: Option<i32>)
        requires
            old(self).wf(),
            old(self).speeds().len() < u32::MAX,
        ensures
            final(self).wf(),
            final(self).turns() == old(self).turns(),
            final(self).speeds() == match input {
                Some(value) => old(self).speeds().push(value),
                None => old(self).speeds(),
            },
    {
        match input {
            None => {},
            Some(value) => {
                proof {
                    lemma_total_bounds(self.speeds@);
                    assert(self.speeds@.push(value).drop_last() =~= self.speeds@);
                    assert(self.speeds@.len() * i32::MIN >= 0xffff_ffff * i32::MIN
                        && self.speeds@.len() * i32::MAX <= 0xffff_ffff * i32::MAX)
                        by (nonlinear_arith)
                        requires
                            self.speeds@.len() <= 0xffff_ffff,
                    ;
                }
                self.speed_count += 1;
                self.speed_sum = self.speed_sum + value as i64;
                self.speeds = Ghost(self.speeds@.push(value));
            },
        }
    }

    /// The mean of the speed requests taken up since the last reset, zero if
    /// there was none.
    pub fn speed_average(&self) -> (r: i32)
        requires
            self.wf(),
        ensures
            r == mean(self.speeds()),
    {
        proof {
            lemma_mean_bounds(self.speeds@);
        }
        average(self.speed_sum, self.speed_count)
    }

    /// Forgets every request.
    pub fn reset(&mut self)
        ensures
            final(self).wf(),
            final(self).turns() == Seq::<i32>::empty(),
            final(self).speeds() == Seq::<i32>::empty(),
    {
        self.turn_sum = 0;
        self.speed_sum = 0;
        self.turn_count = 0;
        self.speed_count = 0;
        self.turns = Ghost(Seq::empty());
        self.speeds = Ghost(Seq::empty());
    }
}

impl Default for BoidAveragedInputs {
    fn default() -> (r: Self)
        ensures
            r.wf(),
            r.turns() == Seq::<i32>::empty(),
            r.speeds() == Seq::<i32>::empty(),
    {
        BoidAveragedInputs::new()
    }
}

/// `sum / count` rounded towards zero, zero for a count of zero.
fn average(sum: i64, count: u32) -> (r: i32)
    requires
        count == 0 ==> sum == 0,
        count > 0 && sum >= 0 ==> (sum as int) / (count as int) <= i32::MAX,
        count > 0 && sum < 0 ==> (-(sum as int)) / (count as int) <= 0x8000_0000,
    ensures
        r == if count == 0 {
            0
        } else if sum >= 0 {
            (sum as int) / (count as int)
        } else {
            -((-(sum as int)) / (count as int))
        },
{
    if count == 0 {
        0
    } else if sum >= 0 {
        let q: u64 = (sum as u64) / (count as u64);
        q as i32
    } else {
        let magnitude: u64 = (-(sum as i128)) as u64;
        let q: u64 = magnitude / (count as u64);
        (-(q as i64)) as i32
    }
}

} // verus!
