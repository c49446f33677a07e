//! Replay of a recorded motion log: each recorded measurement is due a fixed
//! number of microseconds after the one before it, and the log loops.
use vstd::prelude::*;

verus! {

/// Every measurement of the log takes a positive time.
pub open spec fn all_positive(deltas: Seq<i64>) -> bool {
    forall|k: int| 0 <= k < deltas.len() ==> #[trigger] deltas[k] > 0
}

/// The index that follows `idx` in a log of `len` entries, wrapping to the start.
pub open spec fn following(idx: nat, len: nat) -> nat {
    if idx + 1 >= len {
        0
    } else {
        (idx + 1) as nat
    }
}

/// Replays the log from entry `idx` with `timer` microseconds accumulated:
/// while the timer covers the current entry's delay, that entry fires, its
/// delay is taken off the timer and the log moves on. A timer below the
/// current delay, a negative one included, fires nothing. Gives the entries
/// fired in order, the entry reached and the time left over.
pub open spec fn replay(deltas: Seq<i64>, idx: nat, timer: int) -> (Seq<usize>, nat, int)
    decreases timer,
    when idx < deltas.len() && all_positive(deltas)
{
    if timer >= deltas[idx as int] {
        let rest = replay(deltas, following(idx, deltas.len()), timer - deltas[idx as int]);
        (seq![idx as usize].add(rest.0), rest.1, rest.2)
    } else {
        (Seq::empty(), idx, timer)
    }
}

/// Splitting elapsed time in two does not change what fires: replaying
/// `timer + extra` fires what replaying `timer` fires, then what replaying
/// the leftover time plus `extra` from the entry reached fires.
pub proof fn lemma_replay_split(deltas: Seq<i64>, idx: nat, timer: int, extra: int)
    requires
        idx < deltas.len(),
        all_positive(deltas),
        extra >= 0,
    ensures
        ({
            let first = replay(deltas, idx, timer);
            let second = replay(deltas, first.1, first.2 + extra);
            let whole = replay(deltas, idx, timer + extra);
            &&& first.1 < deltas.len()
            &&& first.2 < deltas[first.1 as int]
            &&& whole.0 == first.0 + second.0
            &&& whole.1 == second.1
            &&& whole.2 == second.2
        }),
    decreases timer,
{
    if timer >= deltas[idx as int] {
        let nidx = following(idx, deltas.len());
        lemma_replay_split(deltas, nidx, timer - deltas[idx as int], extra);
        assert(timer + extra - deltas[idx as int] == timer - deltas[idx as int] + extra);
        let first = replay(deltas, idx, timer);
        let rest = replay(deltas, nidx, timer - deltas[idx as int]);
        let second = replay(deltas, first.1, first.2 + extra);
        let whole_rest = replay(deltas, nidx, timer - deltas[idx as int] + extra);
        assert(whole_rest.0 == rest.0 + second.0);
        assert(seq![idx as usize].add(rest.0 + second.0) =~= seq![idx as usize].add(rest.0) + second.0);
    } else {
        let first = replay(deltas, idx, timer);
        assert(first.0 + replay(deltas, idx, timer + extra).0 =~= replay(deltas, idx, timer + extra).0);
    }
}

/// A replayed motion log: the delay of each recorded measurement, the entry
/// that is current and the time accumulated towards it.
pub struct MotionDevice {
    time_deltas_us: Vec<i64>,
    idx: usize,
    timer_us: i64,
}

impl MotionDevice {
    /// The delay of each entry, in microseconds.
    pub closed spec fn deltas(self) -> Seq<i64> {
        self.time_deltas_us@
    }

    /// The entry that is current.
    pub closed spec fn index(self) -> nat {
        self.idx as nat
    }

    /// The time accumulated towards the current entry, in microseconds.
    pub closed spec fn timer(self) -> int {
        self.timer_us as int
    }

    /// The log can be replayed: it is not empty, every delay is positive and
    /// the current entry exists.
    pub open spec fn can_replay(self) -> bool {
        &&& self.deltas().len() > 0
        &&& all_positive(self.deltas())
        &&& self.index() < self.deltas().len()
    }

    /// Starts a replay at the first entry with nothing accumulated.
    pub fn new(time_deltas_us: Vec<i64>) -> (r: MotionDevice)
        ensures
            r.deltas() == time_deltas_us@,
            r.index() == 0,
            r.timer() == 0,
    {
        MotionDevice { time_deltas_us, idx: 0, timer_us: 0 }
    }

    /// Adds `delta_time_us` microseconds (a negative step takes time off) and
    /// fires every entry that falls due, in order; returns the indices of the
    /// entries fired.
    pub fn update(&mut self, delta_time_us: i64) -> (fired: Vec<usize>)
        requires
            old(self).can_replay(),
            i64::MIN <= old(self).timer() + delta_time_us <= i64::MAX,
        ensures
            ({
                let r = replay(old(self).deltas(), old(self).index(), old(self).timer() + delta_time_us);
                &&& fired@ == r.0
                &&& final(self).index() == r.1
                &&& final(self).timer() == r.2
            }),
            final(self).deltas() == old(self).deltas(),
            final(self).can_replay(),
            final(self).timer() < final(self).deltas()[final(self).index() as int],
    {
        self.timer_us = self.timer_us + delta_time_us;
        let ghost target = replay(self.deltas(), self.index(), self.timer());
        let mut fired: Vec<usize> = Vec::new();
        while self.timer_us >= self.time_deltas_us[self.idx]
            invariant
                self.can_replay(),
                self.deltas() == old(self).deltas(),
                ({
                    let rest = replay(self.deltas(), self.index(), self.timer());
                    &&& fired@ + rest.0 == target.0
                    &&& rest.1 == target.1
                    &&& rest.2 == target.2
                }),
            decreases self.timer_us,
        {
            let ghost before = replay(self.deltas(), self.index(), self.timer());
            let ghost idx0 = self.idx;
            fired.push(self.idx);
            self.timer_us = self.timer_us - self.time_deltas_us[self.idx];
            self.step();
            proof {
                let after = replay(self.deltas(), self.index(), self.timer());
                assert(before.0 == seq![idx0].add(after.0));
                assert(fired@ + after.0 =~= fired@.drop_last() + before.0);
            }
        }
        proof {
            let rest = replay(self.deltas(), self.index(), self.timer());
            assert(rest.0 =~= Seq::<usize>::empty());
            assert(fired@ =~= fired@ + rest.0);
        }
        fired
    }

    fn step(&mut self)
        requires
            old(self).idx < old(self).time_deltas_us.len(),
        ensures
            final(self).idx == following(old(self).idx as nat, old(self).time_deltas_us@.len()),
            final(self).time_deltas_us == old(self).time_deltas_us,
            final(self).timer_us == old(self).timer_us,
    {
        self.idx = self.idx + 1;
        if self.idx >= self.time_deltas_us.len() {
            self.idx = 0;
        }
    }

    /// Whether `update(delta_time_us)` may be called: the log can be replayed
    /// and the timer stays within `i64`.
    pub fn ready_for(&self, delta_time_us: i64) -> (r: bool)
        ensures
            r == (self.can_replay() && i64::MIN <= self.timer() + delta_time_us <= i64::MAX),
    {
        if self.time_deltas_us.len() == 0 || self.idx >= self.time_deltas_us.len() {
            return false;
        }
        if delta_time_us > 0 && self.timer_us > i64::MAX - delta_time_us {
            return false;
        }
        if delta_time_us < 0 && self.timer_us < i64::MIN - delta_time_us {
            return false;
        }
        let mut k: usize = 0;
        while k < self.time_deltas_us.len()
            invariant
                k <= self.time_deltas_us@.len(),
                forall|j: int| 0 <= j < k ==> #[trigger] self.time_deltas_us@[j] > 0,
            decreases self.time_deltas_us@.len() - k,
        {
            if self.time_deltas_us[k] <= 0 {
                return false;
            }
            k = k + 1;
        }
        true
    }

    /// The index of the current entry.
    pub fn current(&self) -> (r: usize)
        ensures
            r == self.index(),
    {
        self.idx
    }
}

} // verus!
