//! When loading a run of entries into a series is safe.

use vstd::prelude::*;
use crate::timeseries::{
    SeriesModel, ValueCollisionPolicy, collision_resolves, fill_model, push_model, sync_snapshot, upsert_model,
    window,
};
use crate::timeseries_laws::{
    lemma_known_epoch_not_counted, lemma_upsert_inside, keep_last, lemma_keep_last_last, lemma_upsert_safe, lemma_upsert_window,
    lemma_window_ends, upserted, well_formed, window_after, empty_run,
};
use crate::prometheus::{count_total, loaded_by, loads_safely, upsert_chain, upsert_step};

verus! {

/// The epochs of the entries never decrease.
pub open spec fn nondecreasing_epochs<V>(inputs: Seq<(u64, Option<V>)>) -> bool {
    forall|i: int, j: int| 0 <= i <= j < inputs.len() ==> #[trigger] inputs[i].0 <= #[trigger] inputs[j].0
}

/// The snapshot can grow by one entry per upsert, or become a copy of the entries, without
/// its length reaching the largest `usize`.
pub open spec fn snapshot_room<V>(s: SeriesModel<V>, n: int) -> bool {
    &&& s.snapshot.len() + n + s.capacity < usize::MAX
    &&& 2 * s.capacity + n < usize::MAX
}

/// Filling keeps the capacity and the snapshot.
pub proof fn lemma_fill_keeps<V>(s: SeriesModel<V>, from: int, to: int)
    ensures
        fill_model(s, from, to).capacity == s.capacity,
        fill_model(s, from, to).snapshot == s.snapshot,
    decreases to - from,
{
    if from < to {
        lemma_fill_keeps(push_model(s, (from as u64, None)), from + 1, to);
    }
}

/// An upsert keeps the capacity, and the snapshot grows by at most one entry or becomes a
/// copy of the entries.
pub proof fn lemma_upsert_keeps<V>(s: SeriesModel<V>, input: (u64, Option<V>), v: Option<V>)
    ensures
        upserted(s, input, v).capacity == s.capacity,
        upserted(s, input, v).snapshot.len() <= s.snapshot.len() + 1
            || upserted(s, input, v).snapshot == s.slots,
{
    let len = s.slots.len() as int;
    if len > 0 {
        let e = input.0 as int;
        let last_epoch = s.slots[(s.first + s.active - 1) % len].0 as int;
        let first_epoch = s.slots[s.first].0 as int;
        let t = sync_snapshot(s);
        let target = (s.slots.len() + (s.first + s.active - 1) % len + (e - last_epoch)) % len;
        let t2 = SeriesModel { slots: t.slots.update(target, input), first: target, active: 1, ..t };
        lemma_fill_keeps(t2, e + 1, first_epoch);
        lemma_fill_keeps(s, last_epoch + 1, e);
    }
}

/// Loading entries whose epochs never decrease, starting at or after the first epoch of the
/// window, into a well-formed series is safe: no upsert fails, and each reports at most one
/// new entry.
pub proof fn lemma_ordered_inputs_load_safely<V, I: Fn(V, V) -> V, D: Fn(V, V) -> V>(
    policy: ValueCollisionPolicy,
    increment: I,
    decrement: D,
    s: SeriesModel<V>,
    inputs: Seq<(u64, Option<V>)>,
    budget: int,
)
    requires
        well_formed(s),
        nondecreasing_epochs(inputs),
        forall|i: int| 0 <= i < inputs.len() ==> #[trigger] inputs[i].0 <= i64::MAX,
        s.slots.len() > 0 && inputs.len() > 0 ==> window(s)[0].0 <= inputs[0].0,
        snapshot_room(s, inputs.len() as int),
        inputs.len() <= budget,
    ensures
        loads_safely(policy, increment, decrement, s, inputs, budget),
    decreases inputs.len(),
{
    if inputs.len() > 0 {
        let x = inputs[0];
        let e = x.0 as int;
        assert(x.0 <= i64::MAX);
        lemma_upsert_safe(s, x);
        if s.slots.len() > 0 {
            lemma_window_ends(s);
        }
        let rest = inputs.drop_first();
        assert forall|next: SeriesModel<V>, count: int|
            #[trigger] upsert_step(policy, increment, decrement, s, x, next, count) implies {
                &&& count <= budget
                &&& loads_safely(policy, increment, decrement, next, rest, budget - count)
            } by {
            let out = upsert_model(s, x);
            let v = match out.collision {
                Some(i) => next.slots[i].1,
                None => x.1,
            };
            assert(next == upserted(s, x, v));
            lemma_upsert_window(s, x, v);
            lemma_upsert_keeps(s, x, v);
            assert(count <= 1);
            let w = window(s);
            let w2 = window(next);
            assert(w2 == window_after(w, s.capacity, x, v));
            if rest.len() > 0 {
                assert(rest[0] == inputs[1]);
                assert(inputs[0].0 <= inputs[1].0);
                if w.len() == 0 || e - w.last().0 > s.capacity {
                    assert(w2[0] == x);
                } else if e <= w.last().0 {
                    assert(w2[0].0 <= e);
                } else {
                    let q = w + empty_run::<V>(w.last().0 + 1, e) + seq![x];
                    lemma_keep_last_last(q, s.capacity);
                    assert(w2 == keep_last(q, s.capacity));
                    assert(w2.last() == x);
                    assert(w2.len() == next.active);
                    assert(w2[next.active - 1].0 == w2[0].0 + next.active - 1);
                }
                assert(next.slots.len() > 0);
                assert(window(next)[0].0 <= rest[0].0);
            }
            assert forall|i: int| 0 <= i < rest.len() implies #[trigger] rest[i].0 <= i64::MAX by {
                assert(rest[i] == inputs[i + 1]);
            }
            assert forall|i: int, j: int| 0 <= i <= j < rest.len() implies #[trigger] rest[i].0 <= #[trigger] rest[j].0 by {
                assert(rest[i] == inputs[i + 1]);
                assert(rest[j] == inputs[j + 1]);
            }
            lemma_ordered_inputs_load_safely(policy, increment, decrement, next, rest, budget - count);
        }
    }
}


/// An upsert into a well-formed series reports at most as many entries as the series keeps.
pub proof fn lemma_count_bounded<V>(s: SeriesModel<V>, input: (u64, Option<V>))
    requires
        well_formed(s),
    ensures
        0 <= upsert_model(s, input).count <= s.capacity,
{
    if s.slots.len() > 0 {
        lemma_window_ends(s);
    }
}

/// Loading entries in any order into a well-formed series is safe as long as every epoch fits
/// the signed 64-bit range, the snapshot has room, and `budget` covers the capacity of the
/// series once per entry: no upsert fails, and each reports at most the capacity.
pub proof fn lemma_inputs_load_safely<V, I: Fn(V, V) -> V, D: Fn(V, V) -> V>(
    policy: ValueCollisionPolicy,
    increment: I,
    decrement: D,
    s: SeriesModel<V>,
    inputs: Seq<(u64, Option<V>)>,
    budget: int,
)
    requires
        well_formed(s),
        forall|i: int| 0 <= i < inputs.len() ==> #[trigger] inputs[i].0 <= i64::MAX,
        snapshot_room(s, inputs.len() as int),
        inputs.len() * s.capacity <= budget,
    ensures
        loads_safely(policy, increment, decrement, s, inputs, budget),
    decreases inputs.len(),
{
    if inputs.len() > 0 {
        let x = inputs[0];
        assert(x.0 <= i64::MAX);
        lemma_upsert_safe(s, x);
        let rest = inputs.drop_first();
        assert forall|next: SeriesModel<V>, count: int|
            #[trigger] upsert_step(policy, increment, decrement, s, x, next, count) implies {
                &&& count <= budget
                &&& loads_safely(policy, increment, decrement, next, rest, budget - count)
            } by {
            let v = lemma_step_upserted(policy, increment, decrement, s, x, next, count);
            lemma_upsert_window(s, x, v);
            lemma_upsert_keeps(s, x, v);
            lemma_count_bounded(s, x);
            assert(inputs.len() * s.capacity == rest.len() * s.capacity + s.capacity) by (nonlinear_arith)
                requires
                    inputs.len() == rest.len() + 1,
            ;
            assert forall|i: int| 0 <= i < rest.len() implies #[trigger] rest[i].0 <= i64::MAX by {
                assert(rest[i] == inputs[i + 1]);
            }
            lemma_inputs_load_safely(policy, increment, decrement, next, rest, budget - count);
        }
    }
}

/// After `k` of the upserts of a trace that starts in a well-formed series with entries whose
/// epochs fit the signed 64-bit range, the series is still well formed, keeps its capacity,
/// and every upsert so far reported at most the capacity.
pub proof fn lemma_chain_well_formed<V, I: Fn(V, V) -> V, D: Fn(V, V) -> V>(
    policy: ValueCollisionPolicy,
    increment: I,
    decrement: D,
    inputs: Seq<(u64, Option<V>)>,
    states: Seq<SeriesModel<V>>,
    counts: Seq<int>,
    extra: int,
    k: int,
)
    requires
        well_formed(states[0]),
        forall|i: int| 0 <= i < inputs.len() ==> #[trigger] inputs[i].0 <= i64::MAX,
        extra >= 0,
        snapshot_room(states[0], inputs.len() + extra),
        upsert_chain(policy, increment, decrement, inputs, states, counts),
        0 <= k <= inputs.len(),
    ensures
        well_formed(states[k]),
        states[k].capacity == states[0].capacity,
        snapshot_room(states[k], inputs.len() - k + extra),
        forall|j: int| 0 <= j < k ==> 0 <= #[trigger] counts[j] <= states[0].capacity,
    decreases k,
{
    if k > 0 {
        lemma_chain_well_formed(policy, increment, decrement, inputs, states, counts, extra, k - 1);
        let prev = states[k - 1];
        let x = inputs[k - 1];
        assert(x.0 <= i64::MAX);
        assert(counts[k - 1] == counts[k - 1]);
        let v = lemma_step_upserted(policy, increment, decrement, prev, x, states[k], counts[k - 1]);
        lemma_upsert_keeps(prev, x, v);
        lemma_upsert_window(prev, x, v);
        lemma_count_bounded(prev, x);
    }
}

/// Loading entries in any order into a well-formed series, with epochs that fit the signed
/// 64-bit range and room in the snapshot, leaves the series well formed with the same
/// capacity, and reports at most the capacity per entry.
pub proof fn lemma_loaded_well_formed<V, I: Fn(V, V) -> V, D: Fn(V, V) -> V>(
    policy: ValueCollisionPolicy,
    increment: I,
    decrement: D,
    s: SeriesModel<V>,
    inputs: Seq<(u64, Option<V>)>,
    last: SeriesModel<V>,
    total: int,
    extra: int,
)
    requires
        well_formed(s),
        forall|i: int| 0 <= i < inputs.len() ==> #[trigger] inputs[i].0 <= i64::MAX,
        extra >= 0,
        snapshot_room(s, inputs.len() + extra),
        loaded_by(policy, increment, decrement, s, inputs, last, total),
    ensures
        well_formed(last),
        last.capacity == s.capacity,
        snapshot_room(last, extra),
        0 <= total <= inputs.len() * s.capacity,
{
    let n = inputs.len() as int;
    let (states, counts) = choose|states: Seq<SeriesModel<V>>, counts: Seq<int>| {
        &&& upsert_chain(policy, increment, decrement, inputs, states, counts)
        &&& states[0] == s
        &&& states.last() == last
        &&& count_total(counts) == total
    };
    lemma_chain_well_formed(policy, increment, decrement, inputs, states, counts, extra, n);
    lemma_count_total_bounded(counts, s.capacity);
}

/// Counts that each lie between zero and `c` add up to at most `c` times their number.
pub proof fn lemma_count_total_bounded(counts: Seq<int>, c: int)
    requires
        forall|j: int| 0 <= j < counts.len() ==> 0 <= #[trigger] counts[j] <= c,
    ensures
        0 <= count_total(counts) <= counts.len() * c,
    decreases counts.len(),
{
    if counts.len() > 0 {
        let rest = counts.drop_last();
        assert forall|j: int| 0 <= j < rest.len() implies 0 <= #[trigger] rest[j] <= c by {
            assert(rest[j] == counts[j]);
        }
        lemma_count_total_bounded(rest, c);
        assert(counts[counts.len() - 1] <= c);
        assert(counts.len() * c == rest.len() * c + c) by (nonlinear_arith)
            requires
                counts.len() == rest.len() + 1,
        ;
    }
}

/// The value an upsert step leaves in the entry the collision policy decides: the step is the
/// upsert of `input` with that value.
pub proof fn lemma_step_upserted<V, I: Fn(V, V) -> V, D: Fn(V, V) -> V>(
    policy: ValueCollisionPolicy,
    increment: I,
    decrement: D,
    s: SeriesModel<V>,
    input: (u64, Option<V>),
    next: SeriesModel<V>,
    count: int,
) -> (v: Option<V>)
    requires
        upsert_step(policy, increment, decrement, s, input, next, count),
    ensures
        next == upserted(s, input, v),
        count == upsert_model(s, input).count,
        v == match upsert_model(s, input).collision {
            Some(i) => next.slots[i].1,
            None => input.1,
        },
{
    match upsert_model(s, input).collision {
        Some(i) => next.slots[i].1,
        None => input.1,
    }
}

/// A well-formed series takes an epoch into account: the epoch is in its window, or older than
/// the window's last epoch by at least the capacity, so that upserting it again adds nothing.
pub open spec fn covers<V>(t: SeriesModel<V>, e: int) -> bool {
    &&& t.slots.len() > 0
    &&& {
        ||| window(t)[0].0 <= e <= window(t).last().0
        ||| window(t).last().0 - e >= t.capacity
    }
}

/// Two series whose windows hold the same epochs.
pub open spec fn same_epochs<V>(a: SeriesModel<V>, b: SeriesModel<V>) -> bool {
    &&& window(a).len() == window(b).len()
    &&& forall|k: int| 0 <= k < window(a).len() ==> #[trigger] window(a)[k].0 == window(b)[k].0
}

/// Upserting an epoch at or after the window's first epoch covers that epoch and keeps every
/// older epoch the series covered covered.
proof fn lemma_cover_step<V>(s: SeriesModel<V>, x: (u64, Option<V>), v: Option<V>, y: int)
    requires
        well_formed(s),
        x.0 <= i64::MAX,
        s.snapshot.len() < usize::MAX,
        s.slots.len() > 0 ==> window(s)[0].0 <= x.0,
        y <= x.0,
        y == x.0 || covers(s, y),
    ensures
        covers(upserted(s, x, v), y),
        window(upserted(s, x, v))[0].0 <= x.0,
{
    let u = upserted(s, x, v);
    let e = x.0 as int;
    lemma_upsert_window(s, x, v);
    lemma_upsert_keeps(s, x, v);
    let w = window(s);
    let w2 = window(u);
    assert(w2 == window_after(w, s.capacity, x, v));
    if s.slots.len() > 0 {
        lemma_window_ends(s);
    }
    if w.len() == 0 || e - w.last().0 > s.capacity {
        assert(w2 == seq![x]);
        assert(u.slots.len() > 0);
    } else if e <= w.last().0 {
        assert(w2 == w.update(e - w[0].0, (x.0, v)));
        assert(w2[0].0 == w[0].0);
        assert(w2.last().0 == w.last().0);
        assert(u.slots.len() > 0);
    } else {
        let q = w + empty_run::<V>(w.last().0 + 1, e) + seq![x];
        lemma_keep_last_last(q, s.capacity);
        assert(w2 == keep_last(q, s.capacity));
        assert(w2.last() == x);
        assert(w2.len() == u.active);
        assert(u.slots.len() > 0);
        lemma_window_ends(u);
        if q.len() <= s.capacity {
            assert(w2 == q);
            assert(w2[0] == w[0]);
        } else {
            assert(w2.len() == s.capacity);
        }
    }
}

/// Upserting an epoch a series covers adds nothing and keeps the epochs of its window.
proof fn lemma_known_step<V>(t: SeriesModel<V>, x: (u64, Option<V>), v: Option<V>)
    requires
        well_formed(t),
        covers(t, x.0 as int),
        x.0 <= i64::MAX,
        t.snapshot.len() < usize::MAX,
    ensures
        upsert_model(t, x).count == 0,
        well_formed(upserted(t, x, v)),
        same_epochs(upserted(t, x, v), t),
{
    lemma_window_ends(t);
    if window(t)[0].0 <= x.0 {
        lemma_known_epoch_not_counted(t, x, v);
    } else {
        assert(upserted(t, x, v) == t);
    }
}

/// After `k` upserts of entries whose epochs never decrease, starting at or after the first
/// epoch of the window, every epoch upserted so far is covered.
proof fn lemma_chain_covers<V, I: Fn(V, V) -> V, D: Fn(V, V) -> V>(
    policy: ValueCollisionPolicy,
    increment: I,
    decrement: D,
    inputs: Seq<(u64, Option<V>)>,
    states: Seq<SeriesModel<V>>,
    counts: Seq<int>,
    extra: int,
    k: int,
)
    requires
        well_formed(states[0]),
        nondecreasing_epochs(inputs),
        forall|i: int| 0 <= i < inputs.len() ==> #[trigger] inputs[i].0 <= i64::MAX,
        states[0].slots.len() > 0 && inputs.len() > 0 ==> window(states[0])[0].0 <= inputs[0].0,
        extra >= 0,
        snapshot_room(states[0], inputs.len() + extra),
        upsert_chain(policy, increment, decrement, inputs, states, counts),
        0 <= k <= inputs.len(),
    ensures
        well_formed(states[k]),
        states[k].capacity == states[0].capacity,
        snapshot_room(states[k], inputs.len() - k + extra),
        k < inputs.len() && states[k].slots.len() > 0 ==> window(states[k])[0].0 <= inputs[k].0,
        forall|j: int| 0 <= j < k ==> #[trigger] covers(states[k], inputs[j].0 as int),
    decreases k,
{
    if k > 0 {
        lemma_chain_covers(policy, increment, decrement, inputs, states, counts, extra, k - 1);
        let prev = states[k - 1];
        let x = inputs[k - 1];
        assert(x.0 <= i64::MAX);
        assert(counts[k - 1] == counts[k - 1]);
        let v = lemma_step_upserted(policy, increment, decrement, prev, x, states[k], counts[k - 1]);
        lemma_upsert_keeps(prev, x, v);
        lemma_upsert_window(prev, x, v);
        lemma_cover_step(prev, x, v, x.0 as int);
        assert forall|j: int| 0 <= j < k implies #[trigger] covers(states[k], inputs[j].0 as int) by {
            assert(inputs[j].0 <= inputs[k - 1].0);
            lemma_cover_step(prev, x, v, inputs[j].0 as int);
        }
        if k < inputs.len() {
            assert(inputs[k - 1].0 <= inputs[k].0);
        }
    }
}

/// After `k` upserts of epochs a series covers, nothing was added and the window holds the same
/// epochs.
proof fn lemma_chain_known<V, I: Fn(V, V) -> V, D: Fn(V, V) -> V>(
    policy: ValueCollisionPolicy,
    increment: I,
    decrement: D,
    inputs: Seq<(u64, Option<V>)>,
    states: Seq<SeriesModel<V>>,
    counts: Seq<int>,
    k: int,
)
    requires
        well_formed(states[0]),
        states[0].slots.len() > 0,
        forall|i: int| 0 <= i < inputs.len() ==> #[trigger] inputs[i].0 <= i64::MAX,
        forall|i: int| 0 <= i < inputs.len() ==> #[trigger] covers(states[0], inputs[i].0 as int),
        snapshot_room(states[0], inputs.len() as int),
        upsert_chain(policy, increment, decrement, inputs, states, counts),
        0 <= k <= inputs.len(),
    ensures
        well_formed(states[k]),
        states[k].capacity == states[0].capacity,
        states[k].slots.len() > 0,
        same_epochs(states[k], states[0]),
        snapshot_room(states[k], inputs.len() - k),
        count_total(counts.take(k)) == 0,
    decreases k,
{
    if k == 0 {
        assert(counts.take(0) =~= Seq::<int>::empty());
    } else {
        lemma_chain_known(policy, increment, decrement, inputs, states, counts, k - 1);
        let prev = states[k - 1];
        let x = inputs[k - 1];
        assert(x.0 <= i64::MAX);
        assert(counts[k - 1] == counts[k - 1]);
        let v = lemma_step_upserted(policy, increment, decrement, prev, x, states[k], counts[k - 1]);
        lemma_upsert_keeps(prev, x, v);
        assert(covers(states[0], x.0 as int));
        lemma_window_ends(prev);
        lemma_window_ends(states[0]);
        assert(covers(prev, x.0 as int));
        lemma_known_step(prev, x, v);
        lemma_window_ends(states[k]);
        assert(counts.take(k).drop_last() =~= counts.take(k - 1));
    }
}

/// Loading the same entries a second time, once a load of entries whose epochs never decrease
/// (starting at or after the first epoch of the window) is done, adds nothing and leaves the
/// window holding the same epochs.
pub proof fn lemma_reload_adds_nothing<V, I: Fn(V, V) -> V, D: Fn(V, V) -> V>(
    policy: ValueCollisionPolicy,
    increment: I,
    decrement: D,
    s: SeriesModel<V>,
    inputs: Seq<(u64, Option<V>)>,
    loaded: SeriesModel<V>,
    first_total: int,
    reloaded: SeriesModel<V>,
    second_total: int,
)
    requires
        well_formed(s),
        nondecreasing_epochs(inputs),
        forall|i: int| 0 <= i < inputs.len() ==> #[trigger] inputs[i].0 <= i64::MAX,
        s.slots.len() > 0 && inputs.len() > 0 ==> window(s)[0].0 <= inputs[0].0,
        snapshot_room(s, 2 * inputs.len() as int),
        loaded_by(policy, increment, decrement, s, inputs, loaded, first_total),
        loaded_by(policy, increment, decrement, loaded, inputs, reloaded, second_total),
    ensures
        second_total == 0,
        well_formed(reloaded),
        inputs.len() > 0 ==> same_epochs(reloaded, loaded),
{
    let n = inputs.len() as int;
    let (states1, counts1) = choose|states: Seq<SeriesModel<V>>, counts: Seq<int>| {
        &&& upsert_chain(policy, increment, decrement, inputs, states, counts)
        &&& states[0] == s
        &&& states.last() == loaded
        &&& count_total(counts) == first_total
    };
    let (states2, counts2) = choose|states: Seq<SeriesModel<V>>, counts: Seq<int>| {
        &&& upsert_chain(policy, increment, decrement, inputs, states, counts)
        &&& states[0] == loaded
        &&& states.last() == reloaded
        &&& count_total(counts) == second_total
    };
    lemma_chain_covers(policy, increment, decrement, inputs, states1, counts1, n, n);
    assert(states1[n] == loaded);
    if n == 0 {
        assert(states2.len() == 1);
        assert(counts2.len() == 0);
        assert(reloaded == loaded);
    } else {
        assert forall|i: int| 0 <= i < n implies #[trigger] covers(states2[0], inputs[i].0 as int) by {
            assert(covers(states1[n], inputs[i].0 as int));
        }
        assert(covers(states1[n], inputs[0].0 as int));
        lemma_chain_known(policy, increment, decrement, inputs, states2, counts2, n);
        assert(counts2.take(n) =~= counts2);
        assert(states2[n] == reloaded);
    }
}

/// The epochs of the entries strictly increase.
pub open spec fn increasing_epochs<V>(inputs: Seq<(u64, Option<V>)>) -> bool {
    forall|i: int, j: int| 0 <= i < j < inputs.len() ==> #[trigger] inputs[i].0 < #[trigger] inputs[j].0
}

/// A well-formed series keeps what upserting `x` recorded: it covers the epoch of `x`, and
/// when that epoch is in the window and `x` has a value, the window holds that value for it.
pub open spec fn holds_entry<V>(t: SeriesModel<V>, x: (u64, Option<V>)) -> bool {
    &&& covers(t, x.0 as int)
    &&& (window(t)[0].0 <= x.0 <= window(t).last().0 && x.1 is Some)
        ==> window(t)[x.0 - window(t)[0].0].1 == x.1
}

/// Upserting `x` (at or after the window's first epoch, its value kept when it has one) makes
/// the series hold `x`, and keeps holding every entry of an older epoch it held.
proof fn lemma_hold_step<V>(s: SeriesModel<V>, x: (u64, Option<V>), v: Option<V>, y: (u64, Option<V>))
    requires
        well_formed(s),
        x.0 <= i64::MAX,
        s.snapshot.len() < usize::MAX,
        s.slots.len() > 0 ==> window(s)[0].0 <= x.0,
        x.1 is Some ==> v == x.1,
        y == x || (y.0 < x.0 && holds_entry(s, y)),
    ensures
        holds_entry(upserted(s, x, v), y),
{
    let u = upserted(s, x, v);
    let e = x.0 as int;
    lemma_cover_step(s, x, v, y.0 as int);
    lemma_upsert_window(s, x, v);
    let w = window(s);
    let w2 = window(u);
    assert(w2 == window_after(w, s.capacity, x, v));
    lemma_window_ends(u);
    if s.slots.len() > 0 {
        lemma_window_ends(s);
    }
    if w.len() == 0 || e - w.last().0 > s.capacity {
        assert(w2 == seq![x]);
    } else if e <= w.last().0 {
        assert(w2 == w.update(e - w[0].0, (x.0, v)));
    } else {
        let w0 = w[0].0 as int;
        let le = w.last().0 as int;
        let q = w + empty_run::<V>(le + 1, e) + seq![x];
        lemma_keep_last_last(q, s.capacity);
        assert(w2 == keep_last(q, s.capacity));
        assert forall|m: int| 0 <= m < q.len() implies #[trigger] q[m].0 == w0 + m by {
            if m < w.len() {
                assert(q[m] == w[m]);
            } else if m < w.len() + (e - le - 1) {
                assert(q[m] == empty_run::<V>(le + 1, e)[m - w.len()]);
            } else {
                assert(q[m] == x);
            }
        }
        let off = if q.len() <= s.capacity {
            0
        } else {
            q.len() - s.capacity
        };
        assert forall|k: int| 0 <= k < w2.len() implies #[trigger] w2[k] == q[off + k] by {}
        if y != x && w2[0].0 <= y.0 <= w2.last().0 && y.1 is Some {
            assert(w2[0].0 == w0 + off);
            if w.last().0 - y.0 >= s.capacity {
                assert(false);
            }
            let i = y.0 - w0;
            assert(0 <= i < w.len());
            assert(q[i] == w[i]);
            assert(w2[i - off] == q[i]);
        }
    }
}

/// After `k` upserts, with colliding values overwriting each other, of entries whose epochs
/// strictly increase, starting at or after the window's first epoch, the series holds every
/// entry upserted so far.
proof fn lemma_chain_holds<V, I: Fn(V, V) -> V, D: Fn(V, V) -> V>(
    increment: I,
    decrement: D,
    inputs: Seq<(u64, Option<V>)>,
    states: Seq<SeriesModel<V>>,
    counts: Seq<int>,
    extra: int,
    k: int,
)
    requires
        well_formed(states[0]),
        increasing_epochs(inputs),
        forall|i: int| 0 <= i < inputs.len() ==> #[trigger] inputs[i].0 <= i64::MAX,
        states[0].slots.len() > 0 && inputs.len() > 0 ==> window(states[0])[0].0 <= inputs[0].0,
        extra >= 0,
        snapshot_room(states[0], inputs.len() + extra),
        upsert_chain(ValueCollisionPolicy::Overwrite, increment, decrement, inputs, states, counts),
        0 <= k <= inputs.len(),
    ensures
        forall|j: int| 0 <= j < k ==> #[trigger] holds_entry(states[k], inputs[j]),
    decreases k,
{
    assert(nondecreasing_epochs(inputs)) by {
        assert forall|i: int, j: int| 0 <= i <= j < inputs.len() implies #[trigger] inputs[i].0 <= #[trigger] inputs[j].0 by {
            if i < j {
                assert(inputs[i].0 < inputs[j].0);
            }
        }
    }
    if k > 0 {
        lemma_chain_holds(increment, decrement, inputs, states, counts, extra, k - 1);
        lemma_chain_covers(ValueCollisionPolicy::Overwrite, increment, decrement, inputs, states, counts, extra, k - 1);
        let prev = states[k - 1];
        let x = inputs[k - 1];
        assert(x.0 <= i64::MAX);
        assert(counts[k - 1] == counts[k - 1]);
        let v = lemma_step_upserted(ValueCollisionPolicy::Overwrite, increment, decrement, prev, x, states[k], counts[k - 1]);
        assert(x.1 is Some ==> v == x.1) by {
            match upsert_model(prev, x).collision {
                Some(i) => {
                    assert(collision_resolves(ValueCollisionPolicy::Overwrite, increment, decrement, prev.slots[i].1, x.1, states[k].slots[i].1));
                },
                None => {},
            }
        }
        lemma_hold_step(prev, x, v, x);
        assert forall|j: int| 0 <= j < k implies #[trigger] holds_entry(states[k], inputs[j]) by {
            if j < k - 1 {
                assert(inputs[j].0 < inputs[k - 1].0);
                assert(holds_entry(prev, inputs[j]));
                lemma_hold_step(prev, x, v, inputs[j]);
            }
        }
    }
}

/// Upserting, with colliding values overwriting each other, an entry a well-formed series
/// holds reports nothing and changes nothing but whether the statistics are out of date.
proof fn lemma_held_step<V, I: Fn(V, V) -> V, D: Fn(V, V) -> V>(
    increment: I,
    decrement: D,
    t: SeriesModel<V>,
    x: (u64, Option<V>),
    next: SeriesModel<V>,
    count: int,
)
    requires
        well_formed(t),
        holds_entry(t, x),
        x.0 <= i64::MAX,
        t.snapshot.len() < usize::MAX,
        upsert_step(ValueCollisionPolicy::Overwrite, increment, decrement, t, x, next, count),
    ensures
        count == 0,
        next == (SeriesModel { dirty: next.dirty, ..t }),
{
    lemma_window_ends(t);
    let w = window(t);
    if w[0].0 <= x.0 {
        let v = next.slots[(t.first + (x.0 - w[0].0)) % (t.slots.len() as int)].1;
        lemma_upsert_inside(t, x, v);
        let target = (t.first + (x.0 - w[0].0)) % (t.slots.len() as int);
        let j = x.0 - w[0].0;
        assert(w[j].0 == w[0].0 + j);
        assert(collision_resolves(ValueCollisionPolicy::Overwrite, increment, decrement, t.slots[target].1, x.1, v));
        assert(v == t.slots[target].1);
        assert(t.slots.update(target, (t.slots[target].0, v)) =~= t.slots);
    }
}

/// After `k` upserts, with colliding values overwriting each other, of entries a well-formed
/// series holds, nothing was reported and nothing changed but whether the statistics are out
/// of date.
proof fn lemma_chain_held<V, I: Fn(V, V) -> V, D: Fn(V, V) -> V>(
    increment: I,
    decrement: D,
    inputs: Seq<(u64, Option<V>)>,
    states: Seq<SeriesModel<V>>,
    counts: Seq<int>,
    k: int,
)
    requires
        well_formed(states[0]),
        states[0].snapshot.len() < usize::MAX,
        forall|i: int| 0 <= i < inputs.len() ==> #[trigger] inputs[i].0 <= i64::MAX,
        forall|i: int| 0 <= i < inputs.len() ==> #[trigger] holds_entry(states[0], inputs[i]),
        upsert_chain(ValueCollisionPolicy::Overwrite, increment, decrement, inputs, states, counts),
        0 <= k <= inputs.len(),
    ensures
        states[k] == (SeriesModel { dirty: states[k].dirty, ..states[0] }),
        count_total(counts.take(k)) == 0,
    decreases k,
{
    if k == 0 {
        assert(counts.take(0) =~= Seq::<int>::empty());
    } else {
        lemma_chain_held(increment, decrement, inputs, states, counts, k - 1);
        let s0 = states[0];
        let prev = states[k - 1];
        let x = inputs[k - 1];
        assert(x.0 <= i64::MAX);
        assert(counts[k - 1] == counts[k - 1]);
        assert(window(prev) =~= window(s0));
        assert(holds_entry(s0, x));
        assert(well_formed(prev));
        assert(holds_entry(prev, x));
        lemma_held_step(increment, decrement, prev, x, states[k], counts[k - 1]);
        assert(counts.take(k).drop_last() =~= counts.take(k - 1));
    }
}

/// With colliding values overwriting each other, loading the same entries a second time, once
/// a load of entries whose epochs strictly increase (starting at or after the first epoch of
/// the window) is done, adds nothing and changes nothing but whether the statistics are out of
/// date: the entries, the window's start and length, the capacity and the snapshot stay as the
/// first load left them.
pub proof fn lemma_reload_changes_nothing<V, I: Fn(V, V) -> V, D: Fn(V, V) -> V>(
    increment: I,
    decrement: D,
    s: SeriesModel<V>,
    inputs: Seq<(u64, Option<V>)>,
    loaded: SeriesModel<V>,
    first_total: int,
    reloaded: SeriesModel<V>,
    second_total: int,
)
    requires
        well_formed(s),
        increasing_epochs(inputs),
        forall|i: int| 0 <= i < inputs.len() ==> #[trigger] inputs[i].0 <= i64::MAX,
        s.slots.len() > 0 && inputs.len() > 0 ==> window(s)[0].0 <= inputs[0].0,
        snapshot_room(s, 2 * inputs.len() as int),
        loaded_by(ValueCollisionPolicy::Overwrite, increment, decrement, s, inputs, loaded, first_total),
        loaded_by(ValueCollisionPolicy::Overwrite, increment, decrement, loaded, inputs, reloaded, second_total),
    ensures
        second_total == 0,
        reloaded == (SeriesModel { dirty: reloaded.dirty, ..loaded }),
{
    let policy = ValueCollisionPolicy::Overwrite;
    let n = inputs.len() as int;
    let (states1, counts1) = choose|states: Seq<SeriesModel<V>>, counts: Seq<int>| {
        &&& upsert_chain(policy, increment, decrement, inputs, states, counts)
        &&& states[0] == s
        &&& states.last() == loaded
        &&& count_total(counts) == first_total
    };
    let (states2, counts2) = choose|states: Seq<SeriesModel<V>>, counts: Seq<int>| {
        &&& upsert_chain(policy, increment, decrement, inputs, states, counts)
        &&& states[0] == loaded
        &&& states.last() == reloaded
        &&& count_total(counts) == second_total
    };
    assert(nondecreasing_epochs(inputs)) by {
        assert forall|i: int, j: int| 0 <= i <= j < inputs.len() implies #[trigger] inputs[i].0 <= #[trigger] inputs[j].0 by {
            if i < j {
                assert(inputs[i].0 < inputs[j].0);
            }
        }
    }
    lemma_chain_covers(policy, increment, decrement, inputs, states1, counts1, n, n);
    lemma_chain_holds(increment, decrement, inputs, states1, counts1, n, n);
    assert(states1[n] == loaded);
    if n == 0 {
        assert(states2.len() == 1);
        assert(counts2.len() == 0);
        assert(reloaded == loaded);
    } else {
        assert forall|i: int| 0 <= i < n implies #[trigger] holds_entry(states2[0], inputs[i]) by {
            assert(holds_entry(states1[n], inputs[i]));
        }
        lemma_chain_held(increment, decrement, inputs, states2, counts2, n);
        assert(counts2.take(n) =~= counts2);
        assert(states2[n] == reloaded);
    }
}

} // verus!
