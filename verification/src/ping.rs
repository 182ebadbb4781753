//! The ping monitor's running statistics.
use vstd::prelude::*;

verus! {

/// Round-trip statistics over the replies so far, in milliseconds.
pub struct PingStats {
    pub min: u32,
    pub max: u32,
    pub sum: u32,
    pub points: u32,
    pub dropped: u32,
}

/// What one probe shows: the value graphed (the reply time, or the average
/// for a dropped probe) and the average so far.
#[derive(Clone, Copy, Debug, PartialEq, Eq, Structural)]
pub struct PingSample {
    pub shown: u32,
    pub avg: u32,
}

impl PingStats {
    /// No replies yet: the minimum starts at `u32::MAX`, the rest at zero.
    pub fn new() -> (s: PingStats)
        ensures
            s.min == u32::MAX,
            s.max == 0,
            s.sum == 0,
            s.points == 0,
            s.dropped == 0,
    {
        PingStats { min: u32::MAX, max: 0, sum: 0, points: 0, dropped: 0 }
    }

    /// The sum lies between `points` times the minimum and `points` times the
    /// maximum, as a sum of replies each within those bounds does.
    pub open spec fn consistent(&self) -> bool {
        &&& self.points == 0 ==> self.sum == 0
        &&& self.points > 0 ==> self.points * self.min <= self.sum <= self.points * self.max
    }

    /// Whether a probe result can be taken in: a reply adds to the sum and
    /// count, which must not overflow; a drop (no reply, or a reply of
    /// `u32::MAX`) shows the average, so some reply must have come before.
    pub open spec fn can_record(&self, rtt: Option<u32>) -> bool {
        match rtt {
            Some(r) if r != u32::MAX => self.sum + r <= u32::MAX && self.points < u32::MAX,
            _ => self.dropped < u32::MAX && self.points > 0,
        }
    }

    /// Takes in one probe result: `Some(ms)` for a reply, `None` for a
    /// failure. A reply of `u32::MAX` ms (a time-out) counts as dropped. A
    /// reply updates the minimum, maximum, sum and count; a drop only the
    /// drop count. `None` (and no change) when the result cannot be taken in.
    pub fn record(&mut self, rtt: Option<u32>) -> (r: Option<PingSample>)
        ensures
            r is Some <==> old(self).can_record(rtt),
            r is None ==> *final(self) == *old(self),
            r matches Some(p) ==> match rtt {
                Some(v) if v != u32::MAX => {
                    &&& final(self).sum == old(self).sum + v
                    &&& final(self).points == old(self).points + 1
                    &&& final(self).min == if v < old(self).min {
                        v
                    } else {
                        old(self).min
                    }
                    &&& final(self).max == if v > old(self).max {
                        v
                    } else {
                        old(self).max
                    }
                    &&& final(self).dropped == old(self).dropped
                    &&& p.shown == v
                    &&& p.avg == final(self).sum / final(self).points
                },
                _ => {
                    &&& final(self).dropped == old(self).dropped + 1
                    &&& final(self).sum == old(self).sum
                    &&& final(self).points == old(self).points
                    &&& final(self).min == old(self).min
                    &&& final(self).max == old(self).max
                    &&& p.shown == old(self).sum / old(self).points
                    &&& p.avg == p.shown
                },
            },
            r is Some && old(self).consistent() ==> final(self).consistent(),
    {
        match rtt {
            Some(v) if v != u32::MAX => {
                if self.points == u32::MAX || v > u32::MAX - self.sum {
                    return None;
                }
                let ghost old_self = *self;
                self.sum = self.sum + v;
                self.points = self.points + 1;
                if v < self.min {
                    self.min = v;
                }
                if v > self.max {
                    self.max = v;
                }
                proof {
                    if old_self.consistent() {
                        lemma_add_reply(
                            old_self.points as int,
                            old_self.sum as int,
                            old_self.min as int,
                            old_self.max as int,
                            v as int,
                            self.min as int,
                            self.max as int,
                        );
                    }
                }
                Some(PingSample { shown: v, avg: self.sum / self.points })
            },
            _ => {
                if self.dropped == u32::MAX || self.points == 0 {
                    return None;
                }
                self.dropped = self.dropped + 1;
                let a = self.sum / self.points;
                Some(PingSample { shown: a, avg: a })
            },
        }
    }
}

proof fn lemma_add_reply(p: int, s: int, lo: int, hi: int, v: int, lo2: int, hi2: int)
    requires
        p >= 0,
        0 <= lo2 <= lo,
        lo2 <= v <= hi2,
        hi <= hi2,
        p == 0 ==> s == 0,
        p > 0 ==> p * lo <= s <= p * hi,
    ensures
        (p + 1) * lo2 <= s + v <= (p + 1) * hi2,
{
    if p > 0 {
        assert(p * lo2 <= p * lo) by (nonlinear_arith)
            requires
                p > 0,
                lo2 <= lo,
        ;
        assert(p * hi <= p * hi2) by (nonlinear_arith)
            requires
                p > 0,
                hi <= hi2,
        ;
        assert((p + 1) * lo2 == p * lo2 + lo2) by (nonlinear_arith);
        assert((p + 1) * hi2 == p * hi2 + hi2) by (nonlinear_arith);
    }
}

/// The average reply time lies between the fastest and the slowest reply.
pub proof fn average_within_bounds(s: PingStats)
    requires
        s.consistent(),
        s.points > 0,
    ensures
        s.min <= s.sum / s.points <= s.max,
{
    let p = s.points as int;
    let a = s.sum as int / p;
    assert(p * a <= s.sum < p * (a + 1)) by (nonlinear_arith)
        requires
            p > 0,
            a == s.sum as int / p,
    ;
    assert(s.min <= a) by (nonlinear_arith)
        requires
            p * s.min <= s.sum,
            s.sum < p * (a + 1),
            p > 0,
    ;
    assert(a <= s.max) by (nonlinear_arith)
        requires
            p * a <= s.sum,
            s.sum <= p * s.max,
            p > 0,
    ;
}

/// The value a reply time is divided by to place it in the graph: the next
/// round scale above the slowest reply (100, 250, 500, 1000 ms), or the
/// slowest reply plus 10 ms beyond that.
pub fn graph_scale(max: u32) -> (d: u64)
    ensures
        d == if max < 90 {
            100
        } else if max < 240 {
            250
        } else if max < 490 {
            500
        } else if max < 990 {
            1000
        } else {
            max + 10
        },
{
    if max < 90 {
        100
    } else if max < 240 {
        250
    } else if max < 490 {
        500
    } else if max < 990 {
        1000
    } else {
        max as u64 + 10
    }
}

/// How long the monitor waits before the next probe: the value shown, less
/// 100 ms, in milliseconds (never below zero).
pub fn pause_ms(shown: u32) -> (ms: u64)
    ensures
        ms == if shown >= 100 {
            shown - 100
        } else {
            0
        },
{
    shown.saturating_sub(100) as u64
}

} // verus!
