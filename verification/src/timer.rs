//! Tick-based cooperative scheduler: named events with per-event deadlines.
//!
//! Workers register named events with a bound in milliseconds; each tick
//! (one tick stands for `TICK_MILLIS` milliseconds of real time) advances
//! every counter by one, saturating at the event's threshold. An event is
//! expired once its counter has reached the threshold, and stays expired
//! until it is explicitly reset or removed. The timer never fires callbacks;
//! owners poll. The embedding program is expected to sleep `TICK_MILLIS`
//! between successive calls of [`Timer::tick`].

use vstd::prelude::*;
use crate::QuoteError;

verus! {

/// Milliseconds of one timer tick.
pub const TICK_MILLIS: u64 = 10;

/// Ticks that must elapse before an event with the given bound expires:
/// the bound in milliseconds divided by the tick length, rounded up.
pub open spec fn spec_threshold(bound_millis: u64) -> u64 {
    if bound_millis % (TICK_MILLIS as u64) == 0 {
        (bound_millis / (TICK_MILLIS as u64)) as u64
    } else {
        (bound_millis / (TICK_MILLIS as u64) + 1) as u64
    }
}

/// One monitored event: how many ticks have elapsed since the last reset,
/// saturating at the threshold derived from the bound.
pub struct Event {
    /// Elapsed ticks since registration or the last reset, saturated.
    pub counter: u64,
    /// The event's deadline in milliseconds.
    pub bound: u64,
}

impl Event {
    /// An event's counter never exceeds its threshold.
    pub open spec fn wf(self) -> bool {
        self.counter <= spec_threshold(self.bound)
    }

    /// Whether this event has reached its deadline.
    pub open spec fn spec_expired(self) -> bool {
        self.counter >= spec_threshold(self.bound)
    }

    /// Registers a new event: the counter starts at zero.
    pub fn new(bound_millis: u64) -> (r: Event)
        ensures
            r.counter == 0,
            r.bound == bound_millis,
            r.wf(),
    {
        Event { counter: 0, bound: bound_millis }
    }

    /// The number of ticks after which this event expires.
    pub fn threshold(&self) -> (r: u64)
        ensures
            r == spec_threshold(self.bound),
    {
        if self.bound % TICK_MILLIS == 0 {
            self.bound / TICK_MILLIS
        } else {
            self.bound / TICK_MILLIS + 1
        }
    }

    /// Advances the counter by one tick, saturating at the threshold.
    pub fn tick(&mut self)
        requires
            old(self).wf(),
        ensures
            *final(self) == old(self).spec_tick(),
            final(self).wf(),
    {
        if self.counter < self.threshold() {
            self.counter = self.counter + 1;
        }
    }

    /// The value of an event after one tick.
    pub open spec fn spec_tick(self) -> Event {
        if self.counter < spec_threshold(self.bound) {
            Event { counter: (self.counter + 1) as u64, bound: self.bound }
        } else {
            self
        }
    }

    /// True once at least `spec_threshold(bound)` ticks have elapsed since
    /// the last reset; sticky until an explicit reset.
    pub fn is_expired(&self) -> (r: bool)
        ensures
            r == self.spec_expired(),
    {
        self.counter >= self.threshold()
    }
}

/// An event after `k` ticks.
pub open spec fn spec_tick_n(e: Event, k: nat) -> Event
    decreases k,
{
    if k == 0 {
        e
    } else {
        spec_tick_n(e, (k - 1) as nat).spec_tick()
    }
}

/// Ticking saturates the counter at the threshold: after `k` ticks it holds
/// the smaller of `counter + k` and the threshold.
pub proof fn lemma_tick_n_counter(e: Event, k: nat)
    requires
        e.wf(),
    ensures
        spec_tick_n(e, k).bound == e.bound,
        spec_tick_n(e, k).wf(),
        spec_tick_n(e, k).counter == if e.counter + k <= spec_threshold(e.bound) {
            e.counter + k
        } else {
            spec_threshold(e.bound) as int
        },
    decreases k,
{
    if k > 0 {
        lemma_tick_n_counter(e, (k - 1) as nat);
    }
}

/// An event is expired exactly once at least `⌈bound / TICK_MILLIS⌉` ticks
/// have elapsed since it was added or last reset (both of which start its
/// counter at zero), and stays expired until the next reset.
pub proof fn lemma_expired_iff_enough_ticks(bound_millis: u64, k: nat)
    ensures
        spec_tick_n(Event { counter: 0, bound: bound_millis }, k).spec_expired() <==> k
            >= spec_threshold(bound_millis),
{
    let e = Event { counter: 0, bound: bound_millis };
    lemma_tick_n_counter(e, k);
}

/// A cooperative timer with a minimal tick of `TICK_MILLIS` milliseconds,
/// monitoring any number of named events with different time windows.
pub struct Timer {
    events: Vec<(String, Event)>,
}

impl Timer {
    /// The registered events, as a map from event name to event state.
    pub closed spec fn view(self) -> Map<Seq<char>, Event> {
        Self::as_map(self.events@)
    }

    /// The map held by a sequence of name/event pairs; later pairs win.
    pub closed spec fn as_map(s: Seq<(String, Event)>) -> Map<Seq<char>, Event>
        decreases s.len(),
    {
        if s.len() == 0 {
            Map::empty()
        } else {
            Self::as_map(s.drop_last()).insert(s.last().0@, s.last().1)
        }
    }

    /// All registered events are well formed and no name occurs twice.
    pub closed spec fn wf(self) -> bool {
        &&& (forall|i: int, j: int|
            0 <= i < j < self.events@.len() ==> self.events@[i].0@ != self.events@[j].0@)
        &&& (forall|i: int| 0 <= i < self.events@.len() ==> (#[trigger] self.events@[i]).1.wf())
    }

    proof fn lemma_as_map_keys(s: Seq<(String, Event)>)
        ensures
            forall|k: Seq<char>|
                Self::as_map(s).contains_key(k) <==> exists|i: int| 0 <= i < s.len() && s[i].0@ == k,
        decreases s.len(),
    {
        if s.len() > 0 {
            Self::lemma_as_map_keys(s.drop_last());
            assert forall|k: Seq<char>|
                Self::as_map(s).contains_key(k) implies exists|i: int|
                0 <= i < s.len() && s[i].0@ == k by {
                if k == s.last().0@ {
                    assert(s[s.len() - 1].0@ == k);
                } else {
                    assert(Self::as_map(s.drop_last()).contains_key(k));
                    let i = choose|i: int| 0 <= i < s.drop_last().len() && s.drop_last()[i].0@ == k;
                    assert(s.drop_last()[i] == s[i]);
                    assert(s[i].0@ == k);
                }
            }
            assert forall|k: Seq<char>|
                (exists|i: int| 0 <= i < s.len() && s[i].0@ == k) implies Self::as_map(
                s,
            ).contains_key(k) by {
                let i = choose|i: int| 0 <= i < s.len() && s[i].0@ == k;
                if i < s.len() - 1 {
                    assert(s.drop_last()[i] == s[i]);
                    assert(s.drop_last()[i].0@ == k);
                    assert(Self::as_map(s.drop_last()).contains_key(k));
                }
            }
        }
    }

    proof fn lemma_as_map_index(s: Seq<(String, Event)>, i: int)
        requires
            0 <= i < s.len(),
            forall|a: int, b: int| 0 <= a < b < s.len() ==> s[a].0@ != s[b].0@,
        ensures
            Self::as_map(s).contains_key(s[i].0@),
            Self::as_map(s)[s[i].0@] == s[i].1,
        decreases s.len(),
    {
        Self::lemma_as_map_keys(s);
        if i < s.len() - 1 {
            assert(s.last().0@ != s[i].0@);
            assert(s.drop_last()[i] == s[i]);
            Self::lemma_as_map_index(s.drop_last(), i);
        }
    }

    /// A fresh timer monitors nothing.
    pub fn new() -> (r: Timer)
        ensures
            r@ == Map::<Seq<char>, Event>::empty(),
            r.wf(),
    {
        Timer { events: Vec::new() }
    }

    /// The position of the event with the given name, if one is registered.
    fn find_idx(&self, event_name: &String) -> (r: Option<usize>)
        requires
            self.wf(),
        ensures
            match r {
                Some(i) => i < self.events@.len() && self.events@[i as int].0@ == event_name@,
                None => !self@.contains_key(event_name@),
            },
    {
        proof {
            Self::lemma_as_map_keys(self.events@);
        }
        let mut i: usize = 0;
        while i < self.events.len()
            invariant
                i <= self.events@.len(),
                forall|j: int| 0 <= j < i ==> self.events@[j].0@ != event_name@,
            decreases self.events@.len() - i,
        {
            if self.events[i].0 == *event_name {
                return Some(i);
            }
            i = i + 1;
        }
        None
    }

    /// Registers the event under the given name, or replaces the event that
    /// held that name: the counter starts at zero either way.
    pub fn add_event(&mut self, event_name: &str, bound_millis: u64)
        requires
            old(self).wf(),
        ensures
            final(self).wf(),
            final(self)@ == old(self)@.insert(
                event_name@,
                Event { counter: 0, bound: bound_millis },
            ),
    {
        let owned: String = event_name.to_owned();
        let evt = Event::new(bound_millis);
        match self.find_idx(&owned) {
            Some(i) => {
                proof {
                    Self::lemma_as_map_keys(self.events@);
                }
                self.events.set(i, (owned, evt));
                proof {
                    Self::lemma_replace_is_insert(old(self).events@, self.events@, i as int);
                }
            },
            None => {
                proof {
                    Self::lemma_as_map_keys(self.events@);
                }
                self.events.push((owned, evt));
                proof {
                    assert(self.events@.drop_last() =~= old(self).events@);
                }
            },
        }
    }

    proof fn lemma_replace_is_insert(pre: Seq<(String, Event)>, post: Seq<(String, Event)>, i: int)
        requires
            0 <= i < pre.len(),
            post.len() == pre.len(),
            post[i].0@ == pre[i].0@,
            forall|j: int| 0 <= j < pre.len() && j != i ==> post[j] == pre[j],
            forall|a: int, b: int| 0 <= a < b < pre.len() ==> pre[a].0@ != pre[b].0@,
        ensures
            Self::as_map(post) == Self::as_map(pre).insert(pre[i].0@, post[i].1),
        decreases pre.len(),
    {
        if i == pre.len() - 1 {
            assert(post.drop_last() =~= pre.drop_last());
            assert(Self::as_map(post) =~= Self::as_map(pre).insert(pre[i].0@, post[i].1));
        } else {
            assert(post.last() == pre.last());
            Self::lemma_replace_is_insert(pre.drop_last(), post.drop_last(), i);
            assert(pre.drop_last()[i] == pre[i]);
            assert(post.drop_last()[i] == post[i]);
            assert(pre.last().0@ != pre[i].0@);
            assert(Self::as_map(post) =~= Self::as_map(pre).insert(pre[i].0@, post[i].1));
        }
    }

    proof fn lemma_remove(pre: Seq<(String, Event)>, post: Seq<(String, Event)>, i: int)
        requires
            0 <= i < pre.len(),
            post =~= pre.subrange(0, i) + pre.subrange(i + 1, pre.len() as int),
            forall|a: int, b: int| 0 <= a < b < pre.len() ==> pre[a].0@ != pre[b].0@,
        ensures
            Self::as_map(post) == Self::as_map(pre).remove(pre[i].0@),
        decreases pre.len(),
    {
        Self::lemma_as_map_keys(pre);
        Self::lemma_as_map_keys(post);
        if i == pre.len() - 1 {
            assert(post =~= pre.drop_last());
            assert forall|k: Seq<char>| Self::as_map(post).contains_key(k) implies k
                != pre[i].0@ by {
                let j = choose|j: int| 0 <= j < post.len() && post[j].0@ == k;
                assert(pre[j] == post[j]);
            }
            assert(Self::as_map(post) =~= Self::as_map(pre).remove(pre[i].0@));
        } else {
            assert(post.last() == pre.last());
            assert(post.drop_last() =~= pre.drop_last().subrange(0, i) + pre.drop_last().subrange(
                i + 1,
                pre.drop_last().len() as int,
            ));
            Self::lemma_remove(pre.drop_last(), post.drop_last(), i);
            assert(pre.drop_last()[i] == pre[i]);
            assert(pre.last().0@ != pre[i].0@);
            assert(Self::as_map(post) =~= Self::as_map(pre).remove(pre[i].0@));
        }
    }

    /// Withdraws the event with the given name from monitoring; fails with
    /// `UnknownEvent` if no event of that name is registered.
    pub fn remove_event(&mut self, event_name: &str) -> (r: Result<(), QuoteError>)
        requires
            old(self).wf(),
        ensures
            final(self).wf(),
            match r {
                Ok(()) => old(self)@.contains_key(event_name@) && final(self)@ == old(
                    self,
                )@.remove(event_name@),
                Err(e) => e == QuoteError::UnknownEvent && !old(self)@.contains_key(event_name@)
                    && final(self)@ == old(self)@,
            },
    {
        let owned: String = event_name.to_owned();
        match self.find_idx(&owned) {
            Some(i) => {
                proof {
                    Self::lemma_as_map_index(self.events@, i as int);
                }
                self.events.remove(i);
                proof {
                    Self::lemma_remove(old(self).events@, self.events@, i as int);
                    assert forall|a: int, b: int|
                        0 <= a < b < self.events@.len() implies self.events@[a].0@
                        != self.events@[b].0@ by {
                        let pre = old(self).events@;
                        let ai: int = if a < i { a } else { a + 1 };
                        let bi: int = if b < i { b } else { b + 1 };
                        assert(self.events@[a] == pre[ai]);
                        assert(self.events@[b] == pre[bi]);
                    }
                    assert forall|j: int| 0 <= j < self.events@.len() implies (
                    #[trigger] self.events@[j]).1.wf() by {
                        let pre = old(self).events@;
                        let ji: int = if j < i { j } else { j + 1 };
                        assert(self.events@[j] == pre[ji]);
                    }
                }
                Ok(())
            },
            None => Err(QuoteError::UnknownEvent),
        }
    }

    /// Starts the event's time window anew: the counter returns to zero.
    /// Fails with `UnknownEvent` if no event of that name is registered.
    pub fn reset_event(&mut self, event_name: &str) -> (r: Result<(), QuoteError>)
        requires
            old(self).wf(),
        ensures
            final(self).wf(),
            match r {
                Ok(()) => old(self)@.contains_key(event_name@) && final(self)@ == old(
                    self,
                )@.insert(
                    event_name@,
                    Event { counter: 0, bound: old(self)@[event_name@].bound },
                ),
                Err(e) => e == QuoteError::UnknownEvent && !old(self)@.contains_key(event_name@)
                    && final(self)@ == old(self)@,
            },
    {
        let owned: String = event_name.to_owned();
        match self.find_idx(&owned) {
            Some(i) => {
                proof {
                    Self::lemma_as_map_index(self.events@, i as int);
                }
                let bound = self.events[i].1.bound;
                let name = self.events[i].0.clone();
                self.events.set(i, (name, Event { counter: 0, bound }));
                proof {
                    Self::lemma_replace_is_insert(old(self).events@, self.events@, i as int);
                }
                Ok(())
            },
            None => Err(QuoteError::UnknownEvent),
        }
    }

    /// Whether the named event's time window has elapsed: true exactly when
    /// at least `spec_threshold(bound)` ticks have passed since the event was
    /// added or last reset. Fails with `UnknownEvent` for an unknown name.
    pub fn is_expired_event(&self, event_name: &str) -> (r: Result<bool, QuoteError>)
        requires
            self.wf(),
        ensures
            match r {
                Ok(b) => self@.contains_key(event_name@) && b == self@[event_name@].spec_expired(),
                Err(e) => e == QuoteError::UnknownEvent && !self@.contains_key(event_name@),
            },
    {
        let owned: String = event_name.to_owned();
        match self.find_idx(&owned) {
            Some(i) => {
                proof {
                    Self::lemma_as_map_index(self.events@, i as int);
                }
                Ok(self.events[i].1.is_expired())
            },
            None => Err(QuoteError::UnknownEvent),
        }
    }

    /// Advances every registered event's counter by one tick, saturating at
    /// each event's threshold. The embedding program calls this once per
    /// `TICK_MILLIS` of real time, after sleeping.
    pub fn tick(&mut self)
        requires
            old(self).wf(),
        ensures
            final(self).wf(),
            final(self)@.dom() == old(self)@.dom(),
            forall|k: Seq<char>|
                old(self)@.contains_key(k) ==> final(self)@[k] == old(self)@[k].spec_tick(),
    {
        let n = self.events.len();
        let mut i: usize = 0;
        while i < n
            invariant
                n == self.events@.len(),
                i <= n,
                self.events@.len() == old(self).events@.len(),
                forall|j: int|
                    0 <= j < n ==> (#[trigger] self.events@[j]).0@ == old(self).events@[j].0@,
                forall|j: int|
                    0 <= j < i ==> (#[trigger] self.events@[j]).1 == old(
                        self,
                    ).events@[j].1.spec_tick(),
                forall|j: int|
                    i <= j < n ==> (#[trigger] self.events@[j]).1 == old(self).events@[j].1,
                old(self).wf(),
                self.wf(),
            decreases n - i,
        {
            let name_keep = self.events[i].0.clone();
            let mut evt = Event { counter: self.events[i].1.counter, bound: self.events[i].1.bound };
            evt.tick();
            self.events.set(i, (name_keep, evt));
            i = i + 1;
        }
        proof {
            Self::lemma_tick_map(old(self).events@, self.events@);
        }
    }

    proof fn lemma_tick_map(pre: Seq<(String, Event)>, post: Seq<(String, Event)>)
        requires
            post.len() == pre.len(),
            forall|j: int| 0 <= j < pre.len() ==> (#[trigger] post[j]).0@ == pre[j].0@,
            forall|j: int| 0 <= j < pre.len() ==> (#[trigger] post[j]).1 == pre[j].1.spec_tick(),
        ensures
            Self::as_map(post).dom() == Self::as_map(pre).dom(),
            forall|k: Seq<char>|
                Self::as_map(pre).contains_key(k) ==> Self::as_map(post)[k] == Self::as_map(
                    pre,
                )[k].spec_tick(),
        decreases pre.len(),
    {
        if pre.len() > 0 {
            assert(post.drop_last().len() == pre.drop_last().len());
            assert(forall|j: int|
                0 <= j < pre.drop_last().len() ==> (#[trigger] post.drop_last()[j]).0@
                    == pre.drop_last()[j].0@);
            assert(forall|j: int|
                0 <= j < pre.drop_last().len() ==> (#[trigger] post.drop_last()[j]).1
                    == pre.drop_last()[j].1.spec_tick());
            Self::lemma_tick_map(pre.drop_last(), post.drop_last());
            assert(post[pre.len() - 1].0@ == pre.last().0@);
            assert(post.last().1 == pre.last().1.spec_tick());
            assert(Self::as_map(post).dom() =~= Self::as_map(pre).dom());
        }
    }
}

impl Default for Timer {
    /// A fresh timer monitors nothing.
    fn default() -> (r: Timer)
        ensures
            r@ == Map::<Seq<char>, Event>::empty(),
            r.wf(),
    {
        Timer::new()
    }
}

} // verus!
