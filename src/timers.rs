use vstd::prelude::*;

verus! {

/// A pending timer: fires once the clock reaches `fire_at` (milliseconds);
/// a repeating one carries its interval.
#[derive(Debug, Clone, Copy, PartialEq, Eq, Structural)]
pub struct Timer {
    pub id: u32,
    pub fire_at: u64,
    pub interval: Option<u64>,
}

/// `a + b`, held at `u64::MAX`.
pub open spec fn sat_add(a: u64, b: u64) -> u64 {
    if a as int + b as int > u64::MAX as int {
        u64::MAX
    } else {
        (a + b) as u64
    }
}

/// The ids of the timers due at `now`, in the order they were scheduled.
pub open spec fn due_ids(s: Seq<Timer>, now: u64) -> Seq<u32>
    decreases s.len(),
{
    if s.len() == 0 {
        Seq::empty()
    } else if s.last().fire_at <= now {
        due_ids(s.drop_last(), now).push(s.last().id)
    } else {
        due_ids(s.drop_last(), now)
    }
}

/// The timers left after a tick at `now`: a due one-shot timer is gone, a
/// due repeating timer is rescheduled one interval after `now` (so any
/// lateness carries over), the rest stay as they were.
pub open spec fn after_tick(s: Seq<Timer>, now: u64) -> Seq<Timer>
    decreases s.len(),
{
    if s.len() == 0 {
        Seq::empty()
    } else {
        let t = s.last();
        let rest = after_tick(s.drop_last(), now);
        if t.fire_at <= now {
            match t.interval {
                Some(iv) => rest.push(Timer { id: t.id, fire_at: sat_add(now, iv), interval: Some(iv) }),
                None => rest,
            }
        } else {
            rest.push(t)
        }
    }
}

/// The timers other than the one with id `id`.
pub open spec fn without(s: Seq<Timer>, id: u32) -> Seq<Timer>
    decreases s.len(),
{
    if s.len() == 0 {
        Seq::empty()
    } else if s.last().id == id {
        without(s.drop_last(), id)
    } else {
        without(s.drop_last(), id).push(s.last())
    }
}

/// Hands out `*next_id` and advances it.
pub fn allocate_id(next_id: &mut u32) -> (id: u32)
    requires
        *old(next_id) < u32::MAX,
    ensures
        id == *old(next_id),
        *final(next_id) == *old(next_id) + 1,
{
    let id = *next_id;
    *next_id = *next_id + 1;
    id
}

/// The pending timers of a script context, in the order they were scheduled.
#[derive(Debug)]
pub struct Timers {
    pub timers: Vec<Timer>,
    pub next_id: u32,
}

impl Timers {
    /// Every id is below `next_id`, and no two timers share one.
    pub open spec fn wf(&self) -> bool {
        &&& forall|i: int| 0 <= i < self.timers@.len() ==> (#[trigger] self.timers@[i]).id < self.next_id
        &&& forall|i: int, j: int| 0 <= i < j < self.timers@.len() ==> (#[trigger] self.timers@[i]).id
            != (#[trigger] self.timers@[j]).id
    }

    pub fn new() -> (t: Timers)
        ensures
            t.wf(),
            t.timers@.len() == 0,
            t.next_id == 1,
    {
        Timers { timers: Vec::new(), next_id: 1 }
    }

    fn schedule(&mut self, fire_at: u64, interval: Option<u64>) -> (r: Option<u32>)
        requires
            old(self).wf(),
        ensures
            final(self).wf(),
            old(self).next_id == u32::MAX ==> r is None && *final(self) == *old(self),
            old(self).next_id < u32::MAX ==> r == Some(old(self).next_id)
                && final(self).next_id == old(self).next_id + 1
                && final(self).timers@ == old(self).timers@.push(Timer { id: old(self).next_id, fire_at, interval }),
    {
        if self.next_id == u32::MAX {
            return None;
        }
        let id = allocate_id(&mut self.next_id);
        self.timers.push(Timer { id, fire_at, interval });
        Some(id)
    }

    /// Schedules a one-shot timer `delay` ms after `now`; `None` once the
    /// ids are used up.
    pub fn set_timeout(&mut self, now: u64, delay: u64) -> (r: Option<u32>)
        requires
            old(self).wf(),
        ensures
            final(self).wf(),
            old(self).next_id == u32::MAX ==> r is None && *final(self) == *old(self),
            old(self).next_id < u32::MAX ==> r == Some(old(self).next_id)
                && final(self).next_id == old(self).next_id + 1
                && final(self).timers@ == old(self).timers@.push(
                    Timer { id: old(self).next_id, fire_at: sat_add(now, delay), interval: None },
                ),
    {
        let at = now.saturating_add(delay);
        self.schedule(at, None)
    }

    /// Schedules a timer that fires every `interval` ms, first `interval` ms
    /// after `now`.
    pub fn set_interval(&mut self, now: u64, interval: u64) -> (r: Option<u32>)
        requires
            old(self).wf(),
        ensures
            final(self).wf(),
            old(self).next_id == u32::MAX ==> r is None && *final(self) == *old(self),
            old(self).next_id < u32::MAX ==> r == Some(old(self).next_id)
                && final(self).next_id == old(self).next_id + 1
                && final(self).timers@ == old(self).timers@.push(
                    Timer { id: old(self).next_id, fire_at: sat_add(now, interval), interval: Some(interval) },
                ),
    {
        let at = now.saturating_add(interval);
        self.schedule(at, Some(interval))
    }

    /// Cancels the timer with id `id`, if it is still pending.
    pub fn cancel(&mut self, id: u32)
        requires
            old(self).wf(),
        ensures
            final(self).wf(),
            final(self).next_id == old(self).next_id,
            final(self).timers@ == without(old(self).timers@, id),
    {
        let ghost old_t = self.timers@;
        let mut kept: Vec<Timer> = Vec::new();
        let mut i: usize = 0;
        while i < self.timers.len()
            invariant
                i <= old_t.len(),
                self.timers@ == old_t,
                *self == *old(self),
                old(self).wf(),
                kept@ == without(old_t.take(i as int), id),
                forall|k: int| 0 <= k < kept@.len() ==> exists|m: int| 0 <= m < i && #[trigger] kept@[k] == old_t[m],
                forall|k: int, l: int| 0 <= k < l < kept@.len() ==> exists|m: int, n: int| 0 <= m < n < i
                    && #[trigger] kept@[k] == old_t[m] && #[trigger] kept@[l] == old_t[n],
            decreases old_t.len() - i,
        {
            let t = self.timers[i];
            proof {
                assert(old_t.take(i + 1).drop_last() =~= old_t.take(i as int));
                assert(old_t.take(i + 1).last() == old_t[i as int]);
            }
            if t.id != id {
                let ghost pre = kept@;
                kept.push(t);
                proof {
                    assert forall|k: int| 0 <= k < kept@.len() implies exists|m: int| 0 <= m < i + 1 && #[trigger] kept@[k] == old_t[m] by {
                        if k < pre.len() {
                            assert(kept@[k] == pre[k]);
                        } else {
                            assert(kept@[k] == old_t[i as int]);
                        }
                    }
                    assert forall|k: int, l: int| 0 <= k < l < kept@.len() implies exists|m: int, n: int| 0 <= m < n < i + 1
                        && #[trigger] kept@[k] == old_t[m] && #[trigger] kept@[l] == old_t[n] by {
                        if l < pre.len() {
                            assert(kept@[k] == pre[k] && kept@[l] == pre[l]);
                        } else {
                            assert(kept@[k] == pre[k]);
                            let m = choose|m: int| 0 <= m < i && pre[k] == old_t[m];
                            assert(kept@[l] == old_t[i as int]);
                        }
                    }
                }
            }
            i = i + 1;
        }
        proof {
            assert(old_t.take(i as int) =~= old_t);
        }
        self.timers = kept;
        proof {
            assert forall|k: int| 0 <= k < self.timers@.len() implies (#[trigger] self.timers@[k]).id < self.next_id by {
                let m = choose|m: int| 0 <= m < old_t.len() && self.timers@[k] == old_t[m];
                assert(old_t[m].id < old(self).next_id);
            }
            assert forall|k: int, l: int| 0 <= k < l < self.timers@.len() implies (#[trigger] self.timers@[k]).id
                != (#[trigger] self.timers@[l]).id by {
                let (m, n) = choose|m: int, n: int| 0 <= m < n < old_t.len() && self.timers@[k] == old_t[m] && self.timers@[l] == old_t[n];
                assert(old_t[m].id != old_t[n].id);
            }
        }
    }

    /// Takes out the timers due at `now` and returns their ids in the order
    /// they were scheduled, for the caller to run; repeating timers are
    /// rescheduled, one-shot timers removed.
    pub fn tick(&mut self, now: u64) -> (fired: Vec<u32>)
        requires
            old(self).wf(),
        ensures
            final(self).wf(),
            final(self).next_id == old(self).next_id,
            fired@ == due_ids(old(self).timers@, now),
            final(self).timers@ == after_tick(old(self).timers@, now),
    {
        let ghost old_t = self.timers@;
        let mut kept: Vec<Timer> = Vec::new();
        let mut fired: Vec<u32> = Vec::new();
        let mut i: usize = 0;
        while i < self.timers.len()
            invariant
                i <= old_t.len(),
                self.timers@ == old_t,
                *self == *old(self),
                old(self).wf(),
                kept@ == after_tick(old_t.take(i as int), now),
                fired@ == due_ids(old_t.take(i as int), now),
                forall|k: int| 0 <= k < kept@.len() ==> exists|m: int| 0 <= m < i && (#[trigger] kept@[k]).id == old_t[m].id,
                forall|k: int, l: int| 0 <= k < l < kept@.len() ==> exists|m: int, n: int| 0 <= m < n < i
                    && (#[trigger] kept@[k]).id == old_t[m].id && (#[trigger] kept@[l]).id == old_t[n].id,
            decreases old_t.len() - i,
        {
            let t = self.timers[i];
            proof {
                assert(old_t.take(i + 1).drop_last() =~= old_t.take(i as int));
                assert(old_t.take(i + 1).last() == old_t[i as int]);
            }
            let ghost pre = kept@;
            if t.fire_at <= now {
                fired.push(t.id);
                match t.interval {
                    Some(iv) => {
                        kept.push(Timer { id: t.id, fire_at: now.saturating_add(iv), interval: Some(iv) });
                    },
                    None => {},
                }
            } else {
                kept.push(t);
            }
            proof {
                assert forall|k: int| 0 <= k < kept@.len() implies exists|m: int| 0 <= m < i + 1 && (#[trigger] kept@[k]).id == old_t[m].id by {
                    if k < pre.len() {
                        assert(kept@[k] == pre[k]);
                    } else {
                        assert(kept@[k].id == old_t[i as int].id);
                    }
                }
                assert forall|k: int, l: int| 0 <= k < l < kept@.len() implies exists|m: int, n: int| 0 <= m < n < i + 1
                    && (#[trigger] kept@[k]).id == old_t[m].id && (#[trigger] kept@[l]).id == old_t[n].id by {
                    if l < pre.len() {
                        assert(kept@[k] == pre[k] && kept@[l] == pre[l]);
                    } else {
                        assert(kept@[k] == pre[k]);
                        let m = choose|m: int| 0 <= m < i && pre[k].id == old_t[m].id;
                        assert(kept@[l].id == old_t[i as int].id);
                    }
                }
            }
            i = i + 1;
        }
        proof {
            assert(old_t.take(i as int) =~= old_t);
        }
        self.timers = kept;
        proof {
            assert forall|k: int| 0 <= k < self.timers@.len() implies (#[trigger] self.timers@[k]).id < self.next_id by {
                let m = choose|m: int| 0 <= m < old_t.len() && self.timers@[k].id == old_t[m].id;
                assert(old_t[m].id < old(self).next_id);
            }
            assert forall|k: int, l: int| 0 <= k < l < self.timers@.len() implies (#[trigger] self.timers@[k]).id
                != (#[trigger] self.timers@[l]).id by {
                let (m, n) = choose|m: int, n: int| 0 <= m < n < old_t.len() && self.timers@[k].id == old_t[m].id
                    && self.timers@[l].id == old_t[n].id;
                assert(old_t[m].id != old_t[n].id);
            }
        }
        fired
    }

    /// Drops every timer; the script context's handles go with them.
    pub fn clear(&mut self)
        requires
            old(self).wf(),
        ensures
            final(self).wf(),
            final(self).next_id == old(self).next_id,
            final(self).timers@.len() == 0,
    {
        self.timers = Vec::new();
    }
}

/// A timer scheduled last that is due at `now` fires in this tick, after
/// the earlier due timers; a one-shot timer is then gone, so it fires once.
pub proof fn lemma_due_timer_fires_once(s: Seq<Timer>, t: Timer, now: u64)
    requires
        t.fire_at <= now,
        t.interval is None,
        forall|i: int| 0 <= i < s.len() ==> (#[trigger] s[i]).id != t.id,
    ensures
        due_ids(s.push(t), now) == due_ids(s, now).push(t.id),
        forall|i: int| 0 <= i < after_tick(s.push(t), now).len() ==> (#[trigger] after_tick(s.push(t), now)[i]).id != t.id,
{
    assert(s.push(t).drop_last() =~= s);
    assert(after_tick(s.push(t), now) == after_tick(s, now));
    lemma_after_tick_ids(s, now);
    assert forall|i: int| 0 <= i < after_tick(s, now).len() implies (#[trigger] after_tick(s, now)[i]).id != t.id by {
        let j = choose|j: int| 0 <= j < s.len() && after_tick(s, now)[i].id == s[j].id;
    }
}

/// Every timer left by a tick was there before it, under the same id.
pub proof fn lemma_after_tick_ids(s: Seq<Timer>, now: u64)
    ensures
        forall|i: int| 0 <= i < after_tick(s, now).len() ==> exists|j: int| 0 <= j < s.len()
            && (#[trigger] after_tick(s, now)[i]).id == s[j].id,
    decreases s.len(),
{
    if s.len() > 0 {
        lemma_after_tick_ids(s.drop_last(), now);
        let rest = after_tick(s.drop_last(), now);
        assert forall|i: int| 0 <= i < after_tick(s, now).len() implies exists|j: int| 0 <= j < s.len()
            && (#[trigger] after_tick(s, now)[i]).id == s[j].id by {
            if i < rest.len() {
                let j = choose|j: int| 0 <= j < s.drop_last().len() && rest[i].id == s.drop_last()[j].id;
                assert(after_tick(s, now)[i] == rest[i]);
                assert(s[j] == s.drop_last()[j]);
            } else {
                assert(after_tick(s, now)[i].id == s[s.len() - 1].id);
            }
        }
    }
}

/// A repeating timer that fires at `now` is due again one interval after
/// `now`, and not before.
pub proof fn lemma_interval_rescheduled(s: Seq<Timer>, t: Timer, now: u64, later: u64)
    requires
        t.fire_at <= now,
        t.interval is Some,
    ensures
        after_tick(s.push(t), now).last() == (Timer { id: t.id, fire_at: sat_add(now, t.interval->0), interval: t.interval }),
        later < sat_add(now, t.interval->0) ==> !(after_tick(s.push(t), now).last().fire_at <= later),
{
    assert(s.push(t).drop_last() =~= s);
}

/// The number of times `id` occurs in `s`.
pub open spec fn occurrences(s: Seq<u32>, id: u32) -> nat
    decreases s.len(),
{
    if s.len() == 0 {
        0
    } else {
        occurrences(s.drop_last(), id) + if s.last() == id { 1nat } else { 0nat }
    }
}

/// Among timers with distinct ids, a timer due at `now`, wherever it stands,
/// fires exactly once in the tick at `now`; a one-shot timer is then gone,
/// and a repeating one stays, due one interval after `now`.
pub proof fn lemma_due_timer_in_tick(s: Seq<Timer>, i: int, now: u64)
    requires
        0 <= i < s.len(),
        s[i].fire_at <= now,
        forall|a: int, b: int| 0 <= a < b < s.len() ==> (#[trigger] s[a]).id != (#[trigger] s[b]).id,
    ensures
        occurrences(due_ids(s, now), s[i].id) == 1,
        s[i].interval is None ==> forall|k: int| 0 <= k < after_tick(s, now).len()
            ==> (#[trigger] after_tick(s, now)[k]).id != s[i].id,
        s[i].interval is Some ==> exists|k: int| 0 <= k < after_tick(s, now).len()
            && #[trigger] after_tick(s, now)[k] == (Timer { id: s[i].id, fire_at: sat_add(now, s[i].interval->0), interval: s[i].interval }),
    decreases s.len(),
{
    let t = s[i];
    let init = s.drop_last();
    lemma_after_tick_ids(init, now);
    lemma_due_step(s, t.id, now);
    if i == s.len() - 1 {
        assert forall|a: int| 0 <= a < init.len() implies (#[trigger] init[a]).id != t.id by {
            assert(s[a] == init[a]);
        }
        lemma_absent_never_due(init, t.id, now);
        if t.interval is Some {
            let k = after_tick(init, now).len() as int;
            assert(after_tick(s, now)[k] == (Timer { id: t.id, fire_at: sat_add(now, t.interval->0), interval: t.interval }));
        } else {
            assert forall|k: int| 0 <= k < after_tick(s, now).len() implies (#[trigger] after_tick(s, now)[k]).id != t.id by {
                let j = choose|j: int| 0 <= j < init.len() && after_tick(init, now)[k].id == init[j].id;
                assert(after_tick(s, now)[k] == after_tick(init, now)[k]);
            }
        }
    } else {
        assert(init[i] == t);
        assert forall|a: int, b: int| 0 <= a < b < init.len() implies (#[trigger] init[a]).id != (#[trigger] init[b]).id by {
            assert(s[a] == init[a] && s[b] == init[b]);
        }
        lemma_due_timer_in_tick(init, i, now);
        let last = s.last();
        assert(last.id != t.id) by {
            assert(s[s.len() - 1] == last);
        }
        if t.interval is None {
            assert forall|k: int| 0 <= k < after_tick(s, now).len() implies (#[trigger] after_tick(s, now)[k]).id != t.id by {
                if k < after_tick(init, now).len() {
                    assert(after_tick(s, now)[k] == after_tick(init, now)[k]);
                }
            }
        } else {
            let k = choose|k: int| 0 <= k < after_tick(init, now).len()
                && #[trigger] after_tick(init, now)[k] == (Timer { id: t.id, fire_at: sat_add(now, t.interval->0), interval: t.interval });
            assert(after_tick(s, now)[k] == after_tick(init, now)[k]);
        }
    }
}

proof fn lemma_occurrences_push(x: Seq<u32>, v: u32, id: u32)
    ensures
        occurrences(x.push(v), id) == occurrences(x, id) + if v == id { 1nat } else { 0nat },
{
    assert(x.push(v).drop_last() =~= x);
}

proof fn lemma_due_step(s: Seq<Timer>, id: u32, now: u64)
    requires
        s.len() > 0,
    ensures
        occurrences(due_ids(s, now), id) == occurrences(due_ids(s.drop_last(), now), id)
            + if s.last().fire_at <= now && s.last().id == id { 1nat } else { 0nat },
{
    if s.last().fire_at <= now {
        lemma_occurrences_push(due_ids(s.drop_last(), now), s.last().id, id);
    }
}

proof fn lemma_absent_never_due(s: Seq<Timer>, id: u32, now: u64)
    requires
        forall|a: int| 0 <= a < s.len() ==> (#[trigger] s[a]).id != id,
    ensures
        occurrences(due_ids(s, now), id) == 0,
    decreases s.len(),
{
    if s.len() > 0 {
        assert forall|a: int| 0 <= a < s.drop_last().len() implies (#[trigger] s.drop_last()[a]).id != id by {
            assert(s[a] == s.drop_last()[a]);
        }
        lemma_absent_never_due(s.drop_last(), id, now);
        assert(s[s.len() - 1].id != id);
        lemma_due_step(s, id, now);
    }
}

} // verus!
