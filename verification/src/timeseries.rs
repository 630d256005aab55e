//! A circular buffer holding one metric entry per epoch.
//!
//! The buffer keeps a vector of `(epoch, value)` entries and two indices: `first_idx`, where
//! the active window starts, and `active_items`, how many entries the window holds. The window
//! may wrap around the end of the vector, which lets the series advance in time without
//! shifting or reallocating its entries.

use vstd::prelude::*;
use crate::timeseries_laws::{lemma_iterated_window, lemma_upsert_window, max_capacity, well_formed, window_after};

verus! {

/// How a value is combined with a value already recorded for the same epoch.
#[derive(Debug, Clone, Copy, PartialEq, Eq, Structural)]
pub enum ValueCollisionPolicy {
    Overwrite,
    Increment,
    Decrement,
    Ignore,
}

impl Default for ValueCollisionPolicy {
    fn default() -> (r: ValueCollisionPolicy)
        ensures
            r == ValueCollisionPolicy::Increment,
    {
        ValueCollisionPolicy::Increment
    }
}

/// The branch the last `upsert` took.
#[derive(Debug, Clone, Copy, PartialEq, Eq, Structural)]
pub enum UpsertType {
    Empty,
    TooOld,
    VectorDiscarded,
    PrevEpochInputVecFull,
    PrevEpochInputVecNotFull,
    OverwritePrevEpoch,
    OverwriteLastEpoch,
    NewEpoch,
}

impl Default for UpsertType {
    fn default() -> (r: UpsertType)
        ensures
            r == UpsertType::Empty,
    {
        UpsertType::Empty
    }
}

/// The state of a series as mathematical values.
pub struct SeriesModel<V> {
    /// The entries of the underlying vector.
    pub slots: Seq<(u64, Option<V>)>,
    /// The number of epochs the series keeps.
    pub capacity: int,
    /// Where the active window starts.
    pub first: int,
    /// How many entries the active window holds.
    pub active: int,
    /// The copy of the entries kept for troubleshooting.
    pub snapshot: Seq<(u64, Option<V>)>,
    /// Whether the statistics of the series are out of date.
    pub dirty: bool,
}

/// Index of the last entry of the active window.
pub open spec fn last_slot<V>(s: SeriesModel<V>) -> int {
    (s.first + s.active - 1) % (s.slots.len() as int)
}

/// The entries of the active window, oldest first.
pub open spec fn window<V>(s: SeriesModel<V>) -> Seq<(u64, Option<V>)> {
    Seq::new(s.active as nat, |k: int| s.slots[(s.first + k) % (s.slots.len() as int)])
}

/// `push_model` can run without failing: the slot it writes exists and no counter overflows.
pub open spec fn push_safe<V>(s: SeriesModel<V>) -> bool {
    let len = s.slots.len() as int;
    &&& s.capacity > 0
    &&& s.active < usize::MAX
    &&& s.first + s.active <= usize::MAX
    &&& len < s.capacity && s.active < len ==> {
        &&& s.first + s.active >= 1
        &&& (last_slot(s) + 1) % s.capacity < len
    }
    &&& len >= s.capacity ==> s.active <= s.capacity
}

/// Adds an entry after the end of the active window. While the vector is shorter than the
/// capacity it grows (or reuses an entry left over from a discarded window); once it is full
/// the new entry overwrites the oldest one and the window start moves on.
pub open spec fn push_model<V>(s: SeriesModel<V>, x: (u64, Option<V>)) -> SeriesModel<V> {
    let len = s.slots.len() as int;
    if len < s.capacity {
        if s.active < len {
            SeriesModel {
                slots: s.slots.update((last_slot(s) + 1) % s.capacity, x),
                active: s.active + 1,
                dirty: true,
                ..s
            }
        } else {
            SeriesModel { slots: s.slots.push(x), active: s.active + 1, dirty: true, ..s }
        }
    } else {
        let target = (s.first + s.active) % s.capacity;
        if s.active < s.capacity {
            SeriesModel { slots: s.slots.update(target, x), active: s.active + 1, dirty: true, ..s }
        } else {
            SeriesModel {
                slots: s.slots.update(target, x),
                first: (s.first + 1) % s.capacity,
                dirty: true,
                ..s
            }
        }
    }
}

/// Pushes empty entries for the epochs `from .. to`, in order.
pub open spec fn fill_model<V>(s: SeriesModel<V>, from: int, to: int) -> SeriesModel<V>
    decreases to - from,
{
    if from >= to {
        s
    } else {
        fill_model(push_model(s, (from as u64, None)), from + 1, to)
    }
}

/// Every push of `fill_model(s, from, to)` can run without failing.
pub open spec fn fill_safe<V>(s: SeriesModel<V>, from: int, to: int) -> bool
    decreases to - from,
{
    from >= to || (push_safe(s) && fill_safe(push_model(s, (from as u64, None)), from + 1, to))
}

/// Copies the entries into the snapshot when both have the same length, or appends the last
/// entry to the snapshot otherwise.
pub open spec fn sync_snapshot<V>(s: SeriesModel<V>) -> SeriesModel<V> {
    if s.snapshot.len() == s.slots.len() {
        SeriesModel { snapshot: s.slots, ..s }
    } else {
        SeriesModel { snapshot: s.snapshot.push(s.slots.last()), ..s }
    }
}

/// Index that lies `offset` entries away from the last entry, wrapping around the vector.
pub open spec fn tail_offset<V>(s: SeriesModel<V>, offset: int) -> int {
    (s.slots.len() + last_slot(s) + offset) % (s.slots.len() as int)
}

/// Result of walking the window from `curr` towards `last`, checking that epochs increase.
#[derive(PartialEq, Eq, Structural)]
pub enum SanityWalk {
    /// The walk reached the last entry and every step increased the epoch.
    Increasing,
    /// A step did not increase the epoch.
    NotIncreasing,
    /// The walk would read outside the vector or never reach the last entry.
    Stuck,
}

/// Walks the entries from `curr` to `last`, one index at a time modulo the capacity.
pub open spec fn sanity_walk<V>(
    slots: Seq<(u64, Option<V>)>,
    capacity: int,
    curr: int,
    last: int,
    fuel: nat,
) -> SanityWalk
    decreases fuel,
{
    if curr == last {
        SanityWalk::Increasing
    } else if fuel == 0 || capacity <= 0 {
        SanityWalk::Stuck
    } else {
        let next = (curr + 1) % capacity;
        if !(0 <= curr < slots.len() && 0 <= next < slots.len()) {
            SanityWalk::Stuck
        } else if slots[curr].0 >= slots[next].0 {
            SanityWalk::NotIncreasing
        } else {
            sanity_walk(slots, capacity, next, last, (fuel - 1) as nat)
        }
    }
}

/// The outcome of checking the window: always sane for fewer than two entries, otherwise the
/// outcome of the walk from the first to the last entry.
pub open spec fn sanity_outcome<V>(s: SeriesModel<V>) -> SanityWalk {
    if s.slots.len() <= 1 {
        SanityWalk::Increasing
    } else {
        sanity_walk(s.slots, s.capacity, s.first, last_slot(s), (s.capacity + 1) as nat)
    }
}

/// `value` is what the collision policy makes of `existing` and `new` for one epoch.
pub open spec fn collision_resolves<V, I: Fn(V, V) -> V, D: Fn(V, V) -> V>(
    policy: ValueCollisionPolicy,
    increment: I,
    decrement: D,
    existing: Option<V>,
    new: Option<V>,
    value: Option<V>,
) -> bool {
    match new {
        None => value == existing,
        Some(n) => match existing {
            None => value == Some(n),
            Some(x) => match policy {
                ValueCollisionPolicy::Overwrite => value == Some(n),
                ValueCollisionPolicy::Ignore => value == Some(x),
                ValueCollisionPolicy::Increment => value matches Some(y) && call_ensures(
                    increment,
                    (x, n),
                    y,
                ),
                ValueCollisionPolicy::Decrement => value matches Some(y) && call_ensures(
                    decrement,
                    (x, n),
                    y,
                ),
            },
        },
    }
}


/// What an upsert does to a series: the new state, the branch taken, the number of entries it
/// reports as inserted, and the entry whose value the collision policy decides, if any.
pub struct UpsertOutcome<V> {
    pub next: SeriesModel<V>,
    pub kind: UpsertType,
    pub count: int,
    pub collision: Option<int>,
}

/// The entries an upsert places before a window that starts at a later epoch: the input, then
/// empty entries for the epochs up to the window.
pub open spec fn padding_entries<V>(input: (u64, Option<V>), padding: int) -> Seq<(u64, Option<V>)> {
    Seq::new(
        padding as nat,
        |i: int|
            if i == 0 {
                input
            } else {
                ((input.0 + i) as u64, None)
            },
    )
}

/// The entries that stay behind the padding an upsert places before a window that starts at a
/// later epoch, in a vector shorter than the capacity: all of them, or only the window's when
/// the entries left over after the window would push the vector past the capacity.
pub open spec fn kept_before_padding<V>(s: SeriesModel<V>, padding: int) -> Seq<(u64, Option<V>)> {
    if s.slots.len() + padding > s.capacity && s.active < s.slots.len() {
        s.slots.take(s.active)
    } else {
        s.slots
    }
}

/// The effect of upserting `input` into a series in state `s`.
pub open spec fn upsert_model<V>(s: SeriesModel<V>, input: (u64, Option<V>)) -> UpsertOutcome<V> {
    let e = input.0 as int;
    let len = s.slots.len() as int;
    if len == 0 {
        UpsertOutcome {
            next: push_model(s, input),
            kind: UpsertType::Empty,
            count: 1,
            collision: None,
        }
    } else {
        let last = last_slot(s);
        let last_epoch = s.slots[last].0 as int;
        let inactive = e - last_epoch;
        if last_epoch - e >= s.capacity {
            UpsertOutcome { next: s, kind: UpsertType::TooOld, count: 0, collision: None }
        } else if inactive > s.capacity {
            let t = sync_snapshot(s);
            UpsertOutcome {
                next: SeriesModel { slots: t.slots.update(0, input), first: 0, active: 1, ..t },
                kind: UpsertType::VectorDiscarded,
                count: 1,
                collision: None,
            }
        } else if inactive < 0 {
            let first_epoch = s.slots[s.first].0 as int;
            if first_epoch > e {
                let padding = first_epoch - e;
                let t = sync_snapshot(s);
                if len < s.capacity {
                    UpsertOutcome {
                        next: SeriesModel {
                            slots: padding_entries(input, padding) + kept_before_padding(t, padding),
                            active: s.active + padding,
                            ..t
                        },
                        kind: UpsertType::PrevEpochInputVecNotFull,
                        count: padding,
                        collision: None,
                    }
                } else {
                    let target = tail_offset(s, inactive);
                    let t2 = SeriesModel {
                        slots: t.slots.update(target, input),
                        first: target,
                        active: 1,
                        ..t
                    };
                    let t3 = fill_model(t2, e + 1, first_epoch);
                    UpsertOutcome {
                        next: SeriesModel { active: t3.active + s.active, ..t3 },
                        kind: UpsertType::PrevEpochInputVecFull,
                        count: padding,
                        collision: None,
                    }
                }
            } else {
                let target = tail_offset(s, inactive);
                if s.slots[target].0 == input.0 {
                    UpsertOutcome {
                        next: s,
                        kind: UpsertType::OverwritePrevEpoch,
                        count: 0,
                        collision: Some(target),
                    }
                } else {
                    UpsertOutcome {
                        next: SeriesModel {
                            slots: s.slots.update(0, input),
                            first: 0,
                            active: 1,
                            ..s
                        },
                        kind: UpsertType::OverwritePrevEpoch,
                        count: 0,
                        collision: None,
                    }
                }
            }
        } else if inactive == 0 {
            UpsertOutcome {
                next: SeriesModel { dirty: true, ..s },
                kind: UpsertType::OverwriteLastEpoch,
                count: 0,
                collision: Some(last),
            }
        } else {
            UpsertOutcome {
                next: push_model(fill_model(s, last_epoch + 1, e), input),
                kind: UpsertType::NewEpoch,
                count: 1,
                collision: None,
            }
        }
    }
}

/// Reading the entry `offset` places from the last one stays inside the vector and the
/// arithmetic that finds it does not overflow.
pub open spec fn tail_offset_safe<V>(s: SeriesModel<V>, offset: int) -> bool {
    &&& s.slots.len() + last_slot(s) <= i64::MAX
    &&& 0 <= s.slots.len() + last_slot(s) + offset <= i64::MAX
}

/// Upserting `input` into a series in state `s` runs without failing: every index it reads
/// exists, no counter overflows and the window check it performs terminates.
pub open spec fn upsert_safe<V>(s: SeriesModel<V>, input: (u64, Option<V>)) -> bool {
    let e = input.0 as int;
    let len = s.slots.len() as int;
    &&& 0 < s.capacity <= i64::MAX
    &&& e <= i64::MAX
    &&& len < usize::MAX
    &&& s.snapshot.len() < usize::MAX
    &&& len == 0 ==> push_safe(s)
    &&& len > 0 ==> {
        let last = last_slot(s);
        let last_epoch = s.slots[last].0 as int;
        let inactive = e - last_epoch;
        &&& s.first + s.active >= 1
        &&& s.first + s.active <= usize::MAX
        &&& sanity_outcome(s) != SanityWalk::Stuck
        &&& last_epoch <= i64::MAX
        &&& last_epoch - e < s.capacity && inactive < 0 ==> {
            &&& s.first < len
            &&& s.slots[s.first].0 > e ==> {
                let first_epoch = s.slots[s.first].0 as int;
                let padding = first_epoch - e;
                let t = sync_snapshot(s);
                &&& padding <= usize::MAX
                &&& len < s.capacity ==> s.active + padding <= usize::MAX
                &&& len >= s.capacity ==> {
                    let target = tail_offset(s, inactive);
                    let t2 = SeriesModel {
                        slots: t.slots.update(target, input),
                        first: target,
                        active: 1,
                        ..t
                    };
                    &&& tail_offset_safe(s, inactive)
                    &&& fill_safe(t2, e + 1, first_epoch)
                    &&& fill_model(t2, e + 1, first_epoch).active + s.active <= usize::MAX
                }
            }
            &&& s.slots[s.first].0 <= e ==> tail_offset_safe(s, inactive)
        }
        &&& 0 < inactive <= s.capacity ==> {
            &&& fill_safe(s, last_epoch + 1, e)
            &&& push_safe(fill_model(s, last_epoch + 1, e))
        }
    }
}


/// Position of the iterator over a series after `k` steps from `first` over `len` entries:
/// each step moves to the index after the entry just read, which is `len` after the last entry
/// of the vector.
pub open spec fn iter_pos(first: int, len: int, k: nat) -> int
    decreases k,
{
    if k == 0 {
        first
    } else {
        iter_pos(first, len, (k - 1) as nat) % len + 1
    }
}

/// The entries the iterator over a series yields, in order.
pub open spec fn iterated<V>(s: SeriesModel<V>) -> Seq<(u64, Option<V>)> {
    if s.slots.len() == 0 {
        Seq::empty()
    } else {
        Seq::new(
            s.active as nat,
            |k: int| s.slots[iter_pos(s.first, s.slots.len() as int, k as nat) % (s.slots.len() as int)],
        )
    }
}

/// The last recorded value of a sequence of entries, if any.
pub open spec fn last_value<V>(entries: Seq<(u64, Option<V>)>) -> Option<V>
    decreases entries.len(),
{
    if entries.len() == 0 {
        None
    } else if entries.last().1 is Some {
        entries.last().1
    } else {
        last_value(entries.drop_last())
    }
}

/// The first recorded value of a sequence of entries, if any.
pub open spec fn first_value<V>(entries: Seq<(u64, Option<V>)>) -> Option<V>
    decreases entries.len(),
{
    if entries.len() == 0 {
        None
    } else if entries[0].1 is Some {
        entries[0].1
    } else {
        first_value(entries.drop_first())
    }
}

/// An iterator over the active window of a series.
pub struct IterTimeSeries<'a, V, I, D> {
    /// The series iterated over.
    pub inner: &'a TimeSeries<V, I, D>,
    /// The current position.
    pub pos: usize,
    /// How many entries were yielded.
    pub current_item: usize,
}

impl<'a, V: Copy, I: Fn(V, V) -> V, D: Fn(V, V) -> V> IterTimeSeries<'a, V, I, D> {
    /// Yields the entry at the current position, unless as many entries as the window holds
    /// were yielded already.
    pub fn next(&mut self) -> (r: Option<&'a (u64, Option<V>)>)
        requires
            old(self).inner.metrics@.len() > 0 && old(self).current_item != old(self).inner.active_items
                ==> old(self).current_item < usize::MAX,
        ensures
            final(self).inner == old(self).inner,
            old(self).inner.metrics@.len() == 0 || old(self).current_item == old(
                self,
            ).inner.active_items ==> r is None && *final(self) == *old(self),
            old(self).inner.metrics@.len() > 0 && old(self).current_item != old(
                self,
            ).inner.active_items ==> {
                let len = old(self).inner.metrics@.len() as int;
                &&& r == Some(&old(self).inner.metrics@[(old(self).pos as int) % len])
                &&& final(self).pos == (old(self).pos as int) % len + 1
                &&& final(self).current_item == old(self).current_item + 1
            },
    {
        let len = self.inner.metrics.len();
        if len == 0 || self.current_item == self.inner.active_items {
            return None;
        }
        let curr_pos = self.pos % len;
        self.pos = curr_pos + 1;
        self.current_item = self.current_item + 1;
        Some(&self.inner.metrics[curr_pos])
    }
}

/// A series of per-epoch metrics kept in a circular buffer.
///
/// `increment` and `decrement` are the arithmetic of the value type, used when a value arrives
/// for an epoch that already holds one and the collision policy adds or subtracts.
pub struct TimeSeries<V, I, D> {
    /// One entry per epoch.
    pub metrics: Vec<(u64, Option<V>)>,
    /// Number of epochs the series keeps.
    pub metrics_capacity: usize,
    /// How values for an epoch that already holds one are combined.
    pub collision_policy: ValueCollisionPolicy,
    /// The first entry of the active window.
    pub first_idx: usize,
    /// How many entries the active window holds.
    pub active_items: usize,
    /// The entries as they were before the last rewrite, for troubleshooting.
    pub prev_snapshot: Vec<(u64, Option<V>)>,
    /// The input of the last upsert.
    pub prev_value: (u64, Option<V>),
    /// The branch the last upsert took.
    pub upsert_type: UpsertType,
    /// Whether statistics computed from the entries are out of date.
    pub stats_dirty: bool,
    /// Adds two values.
    pub increment: I,
    /// Subtracts the second value from the first.
    pub decrement: D,
}

impl<V: Copy, I: Fn(V, V) -> V, D: Fn(V, V) -> V> TimeSeries<V, I, D> {
    /// The series as mathematical values.
    pub open spec fn model(&self) -> SeriesModel<V> {
        SeriesModel {
            slots: self.metrics@,
            capacity: self.metrics_capacity as int,
            first: self.first_idx as int,
            active: self.active_items as int,
            snapshot: self.prev_snapshot@,
            dirty: self.stats_dirty,
        }
    }

    /// The arithmetic of the value type can be called on any two values.
    pub open spec fn arithmetic_total(&self) -> bool {
        &&& forall|x: V, y: V| call_requires(self.increment, (x, y))
        &&& forall|x: V, y: V| call_requires(self.decrement, (x, y))
    }

    /// A series that keeps 300 epochs, adds colliding values and holds no entry.
    pub fn new(increment: I, decrement: D) -> (r: Self)
        ensures
            r.metrics@.len() == 0,
            r.metrics_capacity == 300,
            r.collision_policy == ValueCollisionPolicy::Increment,
            r.first_idx == 0,
            r.active_items == 0,
            r.prev_snapshot@.len() == 0,
            r.prev_value == (0u64, None::<V>),
            r.upsert_type == UpsertType::Empty,
            !r.stats_dirty,
            r.increment == increment,
            r.decrement == decrement,
            well_formed(r.model()),
    {
        let default_capacity: usize = 300;
        TimeSeries {
            metrics: Vec::with_capacity(default_capacity),
            metrics_capacity: default_capacity,
            collision_policy: ValueCollisionPolicy::Increment,
            first_idx: 0,
            active_items: 0,
            prev_snapshot: Vec::with_capacity(default_capacity),
            prev_value: (0, None),
            upsert_type: UpsertType::Empty,
            stats_dirty: false,
            increment,
            decrement,
        }
    }

    /// Changes the number of epochs the series keeps, dropping every entry.
    pub fn with_capacity(self, n: usize) -> (r: Self)
        ensures
            r.metrics@.len() == 0,
            r.metrics_capacity == n,
            r.collision_policy == self.collision_policy,
            r.first_idx == self.first_idx,
            r.active_items == self.active_items,
            r.prev_snapshot == self.prev_snapshot,
            r.prev_value == self.prev_value,
            r.upsert_type == self.upsert_type,
            r.stats_dirty == self.stats_dirty,
            r.increment == self.increment,
            r.decrement == self.decrement,
            self.first_idx == 0 && self.active_items == 0 && 0 < n <= max_capacity() && 2 * n <= usize::MAX
                ==> well_formed(
                r.model(),
            ),
    {
        let mut new_self = self;
        new_self.metrics = Vec::with_capacity(n);
        new_self.metrics_capacity = n;
        new_self
    }

    /// Index of the last entry of the active window.
    pub fn get_last_idx(&self) -> (r: usize)
        requires
            self.metrics@.len() > 0,
            self.first_idx + self.active_items >= 1,
            self.first_idx + self.active_items <= usize::MAX,
        ensures
            r == last_slot(self.model()),
            r < self.metrics@.len(),
    {
        (self.first_idx + self.active_items - 1) % self.metrics.len()
    }

    /// Index that lies `offset` entries away from the last entry, wrapping around the vector.
    /// An offset that reaches back further than the vector's length plus the last index gives
    /// the negative remainder, cast to `usize`.
    pub fn get_tail_backwards_offset_idx(&self, offset: i64) -> (r: usize)
        requires
            self.metrics@.len() > 0,
            self.first_idx + self.active_items >= 1,
            self.first_idx + self.active_items <= usize::MAX,
            self.metrics@.len() + last_slot(self.model()) <= i64::MAX,
            i64::MIN <= self.metrics@.len() + last_slot(self.model()) + offset <= i64::MAX,
        ensures
            ({
                let len = self.metrics@.len() as int;
                let total = len + last_slot(self.model()) + offset;
                &&& total >= 0 ==> r == tail_offset(self.model(), offset as int) && r < len
                &&& total < 0 ==> r == (-((-total) % len)) as usize
            }),
    {
        let len = self.metrics.len() as i64;
        let last = self.get_last_idx() as i64;
        let total = len + last + offset;
        (total % len) as usize
    }

    /// Adds an entry after the end of the active window, overwriting the oldest entry once the
    /// vector is full.
    pub fn circular_push(&mut self, input: (u64, Option<V>))
        requires
            push_safe(old(self).model()),
        ensures
            final(self).model() == push_model(old(self).model(), input),
            final(self).metrics_capacity == old(self).metrics_capacity,
            final(self).collision_policy == old(self).collision_policy,
            final(self).prev_value == old(self).prev_value,
            final(self).upsert_type == old(self).upsert_type,
            final(self).increment == old(self).increment,
            final(self).decrement == old(self).decrement,
    {
        if self.metrics.len() < self.metrics_capacity {
            if self.active_items < self.metrics.len() {
                let next_idx = (self.get_last_idx() + 1) % self.metrics_capacity;
                self.metrics.set(next_idx, input);
            } else {
                self.metrics.push(input);
            }
            self.active_items = self.active_items + 1;
        } else {
            let target_idx = (self.first_idx + self.active_items) % self.metrics_capacity;
            self.metrics.set(target_idx, input);
            if self.active_items < self.metrics_capacity {
                self.active_items = self.active_items + 1;
            } else {
                self.first_idx = (self.first_idx + 1) % self.metrics_capacity;
            }
        }
        self.stats_dirty = true;
    }

    /// Copies the entries into the snapshot when both have the same length, or appends the
    /// last entry to the snapshot otherwise.
    fn sync_prev_snapshot(&mut self)
        requires
            old(self).prev_snapshot@.len() != old(self).metrics@.len() ==> old(
                self,
            ).metrics@.len() > 0,
        ensures
            final(self).model() == sync_snapshot(old(self).model()),
            final(self).metrics_capacity == old(self).metrics_capacity,
            final(self).collision_policy == old(self).collision_policy,
            final(self).prev_value == old(self).prev_value,
            final(self).upsert_type == old(self).upsert_type,
            final(self).increment == old(self).increment,
            final(self).decrement == old(self).decrement,
    {
        let len = self.metrics.len();
        if len == self.prev_snapshot.len() {
            let mut item_num: usize = 0;
            while item_num < len
                invariant
                    len == self.metrics@.len(),
                    len == self.prev_snapshot@.len(),
                    item_num <= len,
                    self.metrics == old(self).metrics,
                    self.metrics_capacity == old(self).metrics_capacity,
                    self.collision_policy == old(self).collision_policy,
                    self.first_idx == old(self).first_idx,
                    self.active_items == old(self).active_items,
                    self.prev_value == old(self).prev_value,
                    self.upsert_type == old(self).upsert_type,
                    self.stats_dirty == old(self).stats_dirty,
                    self.increment == old(self).increment,
                    self.decrement == old(self).decrement,
                    forall|j: int| 0 <= j < item_num ==> self.prev_snapshot@[j] == self.metrics@[j],
                decreases len - item_num,
            {
                let entry = self.metrics[item_num];
                self.prev_snapshot.set(item_num, entry);
                item_num = item_num + 1;
            }
            assert(self.prev_snapshot@ =~= self.metrics@);
        } else {
            let entry = self.metrics[len - 1];
            self.prev_snapshot.push(entry);
        }
    }

    /// Checks that the epochs of the active window increase from its first to its last entry.
    pub fn sanity_check(&self) -> (r: bool)
        requires
            self.metrics@.len() > 1 ==> {
                &&& self.first_idx + self.active_items >= 1
                &&& self.first_idx + self.active_items <= usize::MAX
            },
            sanity_outcome(self.model()) != SanityWalk::Stuck,
        ensures
            r == (sanity_outcome(self.model()) == SanityWalk::Increasing),
    {
        if self.metrics.len() == 0 || self.metrics.len() == 1 {
            return true;
        }
        let last = self.get_last_idx();
        let mut curr_idx = self.first_idx;
        let ghost mut fuel: nat = (self.metrics_capacity + 1) as nat;
        while curr_idx != last
            invariant
                last == last_slot(self.model()),
                self.metrics@.len() > 1,
                sanity_walk(self.metrics@, self.metrics_capacity as int, curr_idx as int, last as int, fuel)
                    == sanity_outcome(self.model()),
                sanity_outcome(self.model()) != SanityWalk::Stuck,
            decreases fuel,
        {
            assert(fuel > 0 && self.metrics_capacity > 0 && curr_idx < self.metrics.len()) by {
                reveal_with_fuel(sanity_walk, 1);
            }
            let next_idx = (curr_idx + 1) % self.metrics_capacity;
            if self.metrics[curr_idx].0 >= self.metrics[next_idx].0 {
                return false;
            }
            curr_idx = next_idx;
            proof {
                fuel = (fuel - 1) as nat;
            }
        }
        true
    }

    /// Applies the collision policy to a value already recorded for an epoch and a new one.
    pub fn resolve_metric_collision(&self, existing: Option<V>, new: Option<V>) -> (r: Option<V>)
        requires
            self.arithmetic_total(),
        ensures
            collision_resolves(
                self.collision_policy,
                self.increment,
                self.decrement,
                existing,
                new,
                r,
            ),
    {
        if let Some(new) = new {
            if let Some(existing) = existing {
                Some(
                    match self.collision_policy {
                        ValueCollisionPolicy::Increment => (self.increment)(existing, new),
                        ValueCollisionPolicy::Overwrite => new,
                        ValueCollisionPolicy::Decrement => (self.decrement)(existing, new),
                        ValueCollisionPolicy::Ignore => existing,
                    },
                )
            } else {
                Some(new)
            }
        } else {
            existing
        }
    }

    /// Pushes an empty entry for each epoch of `from .. to`, in order.
    fn fill_epochs(&mut self, from: u64, to: u64)
        requires
            fill_safe(old(self).model(), from as int, to as int),
        ensures
            final(self).model() == fill_model(old(self).model(), from as int, to as int),
            final(self).metrics_capacity == old(self).metrics_capacity,
            final(self).collision_policy == old(self).collision_policy,
            final(self).prev_value == old(self).prev_value,
            final(self).upsert_type == old(self).upsert_type,
            final(self).increment == old(self).increment,
            final(self).decrement == old(self).decrement,
    {
        let mut fill_epoch = from;
        while fill_epoch < to
            invariant
                fill_model(self.model(), fill_epoch as int, to as int) == fill_model(
                    old(self).model(),
                    from as int,
                    to as int,
                ),
                fill_safe(self.model(), fill_epoch as int, to as int),
                self.metrics_capacity == old(self).metrics_capacity,
                self.collision_policy == old(self).collision_policy,
                self.prev_value == old(self).prev_value,
                self.upsert_type == old(self).upsert_type,
                self.increment == old(self).increment,
                self.decrement == old(self).decrement,
            decreases to - fill_epoch,
        {
            self.circular_push((fill_epoch, None));
            fill_epoch = fill_epoch + 1;
        }
    }

    /// Places `input` and empty entries for the `padding - 1` epochs after it before every
    /// entry of the vector.
    fn prepend_padding(&mut self, input: (u64, Option<V>), padding: usize)
        requires
            padding >= 1,
            input.0 + padding <= u64::MAX,
        ensures
            final(self).metrics@ == padding_entries(input, padding as int) + old(self).metrics@,
            final(self).metrics_capacity == old(self).metrics_capacity,
            final(self).collision_policy == old(self).collision_policy,
            final(self).first_idx == old(self).first_idx,
            final(self).active_items == old(self).active_items,
            final(self).prev_snapshot == old(self).prev_snapshot,
            final(self).prev_value == old(self).prev_value,
            final(self).upsert_type == old(self).upsert_type,
            final(self).stats_dirty == old(self).stats_dirty,
            final(self).increment == old(self).increment,
            final(self).decrement == old(self).decrement,
    {
        self.metrics.insert(0, input);
        let mut idx: usize = 1;
        assert(self.metrics@ =~= padding_entries(input, 1) + old(self).metrics@);
        while idx < padding
            invariant
                1 <= idx <= padding,
                input.0 + padding <= u64::MAX,
                self.metrics@ == padding_entries(input, idx as int) + old(self).metrics@,
                self.metrics_capacity == old(self).metrics_capacity,
                self.collision_policy == old(self).collision_policy,
                self.first_idx == old(self).first_idx,
                self.active_items == old(self).active_items,
                self.prev_snapshot == old(self).prev_snapshot,
                self.prev_value == old(self).prev_value,
                self.upsert_type == old(self).upsert_type,
                self.stats_dirty == old(self).stats_dirty,
                self.increment == old(self).increment,
                self.decrement == old(self).decrement,
            decreases padding - idx,
        {
            self.metrics.insert(idx, (input.0 + idx as u64, None));
            assert(self.metrics@ =~= padding_entries(input, idx + 1) + old(self).metrics@);
            idx = idx + 1;
        }
    }

    /// Records `input` for its epoch, adding empty entries for the epochs missing between the
    /// window and the input, discarding the whole window when the input is far newer than it,
    /// and ignoring inputs that are older than the series can keep. Returns the number of
    /// entries reported as inserted.
    pub fn upsert(&mut self, input: (u64, Option<V>)) -> (r: usize)
        requires
            old(self).arithmetic_total(),
            upsert_safe(old(self).model(), input),
        ensures
            ({
                let out = upsert_model(old(self).model(), input);
                &&& r == out.count
                &&& final(self).upsert_type == out.kind
                &&& out.collision is None ==> final(self).model() == out.next
                &&& out.collision matches Some(i) ==> {
                    &&& final(self).model() == SeriesModel {
                        slots: out.next.slots.update(i, (out.next.slots[i].0, final(self).metrics@[i].1)),
                        ..out.next
                    }
                    &&& collision_resolves(
                        old(self).collision_policy,
                        old(self).increment,
                        old(self).decrement,
                        old(self).metrics@[i].1,
                        input.1,
                        final(self).metrics@[i].1,
                    )
                }
            }),
            well_formed(old(self).model()) ==> {
                let v = match upsert_model(old(self).model(), input).collision {
                    Some(i) => final(self).metrics@[i].1,
                    None => input.1,
                };
                &&& well_formed(final(self).model())
                &&& window(final(self).model()) == window_after(
                    window(old(self).model()),
                    old(self).metrics_capacity as int,
                    input,
                    v,
                )
            },
            final(self).prev_value == input,
            final(self).metrics_capacity == old(self).metrics_capacity,
            final(self).collision_policy == old(self).collision_policy,
            final(self).increment == old(self).increment,
            final(self).decrement == old(self).decrement,
    {
        let count = self.upsert_entry(input);
        proof {
            if well_formed(old(self).model()) {
                let v = match upsert_model(old(self).model(), input).collision {
                    Some(i) => self.metrics@[i].1,
                    None => input.1,
                };
                lemma_upsert_window(old(self).model(), input, v);
            }
        }
        count
    }

    /// The branches of `upsert`.
    fn upsert_entry(&mut self, input: (u64, Option<V>)) -> (r: usize)
        requires
            old(self).arithmetic_total(),
            upsert_safe(old(self).model(), input),
        ensures
            ({
                let out = upsert_model(old(self).model(), input);
                &&& r == out.count
                &&& final(self).upsert_type == out.kind
                &&& out.collision is None ==> final(self).model() == out.next
                &&& out.collision matches Some(i) ==> {
                    &&& final(self).model() == SeriesModel {
                        slots: out.next.slots.update(i, (out.next.slots[i].0, final(self).metrics@[i].1)),
                        ..out.next
                    }
                    &&& collision_resolves(
                        old(self).collision_policy,
                        old(self).increment,
                        old(self).decrement,
                        old(self).metrics@[i].1,
                        input.1,
                        final(self).metrics@[i].1,
                    )
                }
            }),
            final(self).prev_value == input,
            final(self).metrics_capacity == old(self).metrics_capacity,
            final(self).collision_policy == old(self).collision_policy,
            final(self).increment == old(self).increment,
            final(self).decrement == old(self).decrement,
    {
        if self.metrics.len() == 0 {
            self.circular_push(input);
            self.upsert_type = UpsertType::Empty;
            self.prev_value = input;
            return 1;
        }
        let _sane = self.sanity_check();
        let last_idx = self.get_last_idx();
        let last_epoch = self.metrics[last_idx].0;
        if last_epoch as i64 - input.0 as i64 >= self.metrics_capacity as i64 {
            // The epoch is older than anything the series can keep.
            self.upsert_type = UpsertType::TooOld;
            self.prev_value = input;
            return 0;
        }
        let inactive_time = input.0 as i64 - last_epoch as i64;
        if inactive_time > self.metrics_capacity as i64 {
            // Every entry is outdated: the window restarts at the input.
            self.sync_prev_snapshot();
            self.first_idx = 0;
            self.metrics.set(0, input);
            self.active_items = 1;
            self.upsert_type = UpsertType::VectorDiscarded;
            self.prev_value = input;
            1
        } else if inactive_time < 0 {
            let current_min_epoch = self.metrics[self.first_idx].0;
            if current_min_epoch > input.0 {
                // The input is older than the window but still within the capacity.
                let padding_items = (current_min_epoch - input.0) as usize;
                self.sync_prev_snapshot();
                if self.metrics.len() < self.metrics_capacity {
                    // The vector still has room: the window grows at its front. Entries left
                    // over after the window go when keeping them would overflow the capacity.
                    if padding_items > self.metrics_capacity - self.metrics.len()
                        && self.active_items < self.metrics.len() {
                        self.metrics.truncate(self.active_items);
                    }
                    self.prepend_padding(input, padding_items);
                    self.active_items = self.active_items + padding_items;
                    self.upsert_type = UpsertType::PrevEpochInputVecNotFull;
                    self.prev_value = input;
                    padding_items
                } else {
                    let previous_min_epoch = current_min_epoch;
                    let target_idx = self.get_tail_backwards_offset_idx(inactive_time);
                    self.metrics.set(target_idx, input);
                    self.first_idx = target_idx;
                    let previous_active_items = self.active_items;
                    self.active_items = 1;
                    self.fill_epochs(input.0 + 1, previous_min_epoch);
                    self.upsert_type = UpsertType::PrevEpochInputVecFull;
                    self.prev_value = input;
                    self.active_items = self.active_items + previous_active_items;
                    (previous_min_epoch - input.0) as usize
                }
            } else {
                // The epoch is inside the window.
                let target_idx = self.get_tail_backwards_offset_idx(inactive_time);
                if self.metrics[target_idx].0 == input.0 {
                    let existing = self.metrics[target_idx].1;
                    let resolved = self.resolve_metric_collision(existing, input.1);
                    self.metrics.set(target_idx, (input.0, resolved));
                } else {
                    // The window lost track of its epochs: restart it at the input.
                    self.first_idx = 0;
                    self.metrics.set(0, input);
                    self.active_items = 1;
                }
                self.upsert_type = UpsertType::OverwritePrevEpoch;
                self.prev_value = input;
                0
            }
        } else if inactive_time == 0 {
            let existing = self.metrics[last_idx].1;
            let resolved = self.resolve_metric_collision(existing, input.1);
            self.metrics.set(last_idx, (last_epoch, resolved));
            self.upsert_type = UpsertType::OverwriteLastEpoch;
            self.prev_value = input;
            self.stats_dirty = true;
            0
        } else {
            // The input is newer than the window: fill the gap with empty entries.
            self.fill_epochs(last_epoch + 1, input.0);
            self.circular_push(input);
            self.upsert_type = UpsertType::NewEpoch;
            self.prev_value = input;
            1
        }
    }

    /// An iterator over the active window, starting at its first entry.
    pub fn iter(&self) -> (r: IterTimeSeries<'_, V, I, D>)
        ensures
            r.inner == self,
            r.pos == self.first_idx,
            r.current_item == 0,
    {
        IterTimeSeries { inner: self, pos: self.first_idx, current_item: 0 }
    }

    /// The entries the iterator over the window yields, as a vector.
    pub fn as_vec(&self) -> (r: Vec<(u64, Option<V>)>)
        ensures
            r@ == iterated(self.model()),
            self.metrics@.len() == 0 ==> r@.len() == 0,
            self.metrics@.len() > 0 ==> r@ == window(self.model()),
    {
        if self.metrics.len() == 0 {
            return Vec::new();
        }
        let len = self.metrics.len();
        let mut res: Vec<(u64, Option<V>)> = Vec::with_capacity(self.metrics_capacity);
        let mut it = self.iter();
        while it.current_item < self.active_items
            invariant
                it.inner == self,
                len == self.metrics@.len(),
                len > 0,
                it.current_item <= self.active_items,
                it.pos == iter_pos(self.first_idx as int, len as int, it.current_item as nat),
                res@.len() == it.current_item,
                forall|k: int|
                    0 <= k < it.current_item ==> res@[k] == self.metrics@[iter_pos(
                        self.first_idx as int,
                        len as int,
                        k as nat,
                    ) % (len as int)],
            decreases self.active_items - it.current_item,
        {
            let entry = it.next();
            match entry {
                Some(e) => res.push(*e),
                None => {},
            }
        }
        assert(res@ =~= iterated(self.model()));
        proof {
            lemma_iterated_window(self.model());
        }
        res
    }

    /// The first recorded value of the window, in the order the iterator yields it.
    pub fn get_first_filled(&self) -> (r: Option<V>)
        ensures
            r == first_value(iterated(self.model())),
            self.metrics@.len() > 0 ==> r == first_value(window(self.model())),
    {
        let entries = self.as_vec();
        let mut idx: usize = 0;
        assert(entries@.subrange(0, entries@.len() as int) =~= entries@);
        while idx < entries.len()
            invariant
                entries@ == iterated(self.model()),
                self.metrics@.len() > 0 ==> entries@ == window(self.model()),
                idx <= entries@.len(),
                first_value(entries@.subrange(idx as int, entries@.len() as int)) == first_value(
                    entries@,
                ),
            decreases entries@.len() - idx,
        {
            assert(entries@.subrange(idx as int + 1, entries@.len() as int) =~= entries@.subrange(
                idx as int,
                entries@.len() as int,
            ).drop_first());
            if let Some(metric) = entries[idx].1 {
                return Some(metric);
            }
            idx = idx + 1;
        }
        None
    }

    /// The value of the latest entry of the window that holds one, if any.
    pub fn get_last_filled(&self) -> (r: Option<V>)
        requires
            self.metrics@.len() > 0 ==> self.first_idx + self.active_items <= usize::MAX,
        ensures
            self.metrics@.len() == 0 ==> r is None,
            self.metrics@.len() > 0 ==> r == last_value(window(self.model())),
    {
        let len = self.metrics.len();
        if len == 0 {
            return None;
        }
        let ghost w = window(self.model());
        let mut k: usize = self.active_items;
        assert(w.take(k as int) =~= w);
        while k > 0
            invariant
                len == self.metrics@.len(),
                len > 0,
                k <= self.active_items,
                self.first_idx + self.active_items <= usize::MAX,
                w == window(self.model()),
                last_value(w.take(k as int)) == last_value(w),
            decreases k,
        {
            let idx = (self.first_idx + k - 1) % len;
            assert(w.take(k as int).drop_last() =~= w.take(k as int - 1));
            assert(w.take(k as int).last() == self.metrics@[idx as int]);
            if let Some(value) = self.metrics[idx].1 {
                return Some(value);
            }
            k = k - 1;
        }
        None
    }
}

} // verus!
