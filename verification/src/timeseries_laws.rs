//! Laws of the time-series buffer: what upserts keep and what the window holds afterwards.

use vstd::prelude::*;
use crate::timeseries::{
    SeriesModel, SanityWalk, UpsertType, window, push_model, push_safe, fill_model, fill_safe,
    last_slot, sanity_walk, sanity_outcome, tail_offset, tail_offset_safe, upsert_model,
    upsert_safe, sync_snapshot, padding_entries, iter_pos, iterated, kept_before_padding,
};

verus! {

/// The largest capacity the laws speak of: index arithmetic on twice this value still fits
/// the signed 64-bit arithmetic the buffer uses.
pub open spec fn max_capacity() -> int {
    0x3fff_ffff_ffff_ffff
}

/// A series whose active window is consistent: it lies inside the vector, starts at the front
/// of the vector until the vector reaches the capacity, and holds consecutive epochs.
pub open spec fn well_formed<V>(s: SeriesModel<V>) -> bool {
    let len = s.slots.len() as int;
    &&& 0 < s.capacity <= max_capacity()
    &&& 2 * s.capacity <= usize::MAX
    &&& len <= s.capacity
    &&& len == 0 ==> s.first == 0 && s.active == 0
    &&& len > 0 ==> 0 <= s.first < len && 1 <= s.active <= len
    &&& len < s.capacity ==> s.first == 0
    &&& forall|k: int| 0 <= k < s.active ==> #[trigger] window(s)[k].0 == window(s)[0].0 + k
    &&& s.active > 0 ==> window(s)[s.active - 1].0 <= i64::MAX
}

/// The last `n` elements of `q`, or all of them when `q` has no more than `n`.
pub open spec fn keep_last<A>(q: Seq<A>, n: int) -> Seq<A> {
    if q.len() <= n {
        q
    } else {
        q.subrange(q.len() - n, q.len() as int)
    }
}

/// Empty entries for the epochs `from .. to`.
pub open spec fn empty_run<V>(from: int, to: int) -> Seq<(u64, Option<V>)> {
    Seq::new((to - from) as nat, |i: int| ((from + i) as u64, None))
}

/// An index below twice `n` reduces modulo `n` by at most one subtraction.
pub proof fn lemma_mod_once(i: int, n: int)
    requires
        n > 0,
        0 <= i < 2 * n,
    ensures
        i % n == if i < n {
            i
        } else {
            i - n
        },
{
    if i < n {
        vstd::arithmetic::div_mod::lemma_small_mod(i as nat, n as nat);
    } else {
        vstd::arithmetic::div_mod::lemma_small_mod((i - n) as nat, n as nat);
        vstd::arithmetic::div_mod::lemma_mod_add_multiples_vanish(i - n, n);
    }
}

/// Pushing the epoch after the last one onto a well-formed series keeps it well formed and
/// appends the entry to the window, dropping the oldest entry once the window is full.
pub proof fn lemma_push_window<V>(s: SeriesModel<V>, x: (u64, Option<V>))
    requires
        well_formed(s),
        s.active > 0 ==> x.0 == window(s)[s.active - 1].0 + 1,
        x.0 <= i64::MAX,
    ensures
        push_safe(s),
        well_formed(push_model(s, x)),
        push_model(s, x).capacity == s.capacity,
        push_model(s, x).active > 0,
        window(push_model(s, x)) == keep_last(window(s).push(x), s.capacity),
{
    let len = s.slots.len() as int;
    let c = s.capacity;
    let f = s.first;
    let a = s.active;
    let w = window(s);
    let t = push_model(s, x);
    let w2 = window(t);
    let expected = keep_last(w.push(x), c);
    if len < c {
        assert(f == 0);
        if a < len {
            assert(last_slot(s) == a - 1) by {
                vstd::arithmetic::div_mod::lemma_small_mod((a - 1) as nat, len as nat);
            }
            assert((last_slot(s) + 1) % c == a) by {
                vstd::arithmetic::div_mod::lemma_small_mod(a as nat, c as nat);
            }
            assert forall|k: int| 0 <= k < a + 1 implies w2[k] == expected[k] by {
                vstd::arithmetic::div_mod::lemma_small_mod(k as nat, len as nat);
                if k < a {
                    vstd::arithmetic::div_mod::lemma_small_mod(k as nat, len as nat);
                }
            }
            assert(w2 =~= expected);
        } else {
            assert forall|k: int| 0 <= k < a + 1 implies w2[k] == expected[k] by {
                vstd::arithmetic::div_mod::lemma_small_mod(k as nat, (len + 1) as nat);
                if k < a {
                    vstd::arithmetic::div_mod::lemma_small_mod(k as nat, len as nat);
                }
            }
            assert(w2 =~= expected);
        }
    } else {
        assert(len == c);
        let target = (f + a) % c;
        lemma_mod_once(f + a, c);
        if a < c {
            assert forall|k: int| 0 <= k < a + 1 implies w2[k] == expected[k] by {
                lemma_mod_once(f + k, c);
            }
            assert(w2 =~= expected);
        } else {
            let f2 = (f + 1) % c;
            lemma_mod_once(f + 1, c);
            assert forall|k: int| 0 <= k < a implies w2[k] == expected[k] by {
                lemma_mod_once(f2 + k, c);
                lemma_mod_once(f + 1 + k, c);
            }
            assert(w2 =~= expected);
        }
    }
    assert forall|k: int| 0 <= k < t.active implies #[trigger] window(t)[k].0 == window(t)[0].0 + k by {
        if a < c {
            assert(w2[k] == w.push(x)[k]);
            assert(w2[0] == w.push(x)[0]);
        } else {
            assert(w2[k] == w.push(x)[k + 1]);
            assert(w2[0] == w.push(x)[1]);
        }
    }
}

/// Taking the last `n` elements before appending changes nothing once the last `n` are
/// taken again.
pub proof fn lemma_keep_last_append<A>(u: Seq<A>, v: Seq<A>, n: int)
    requires
        n >= 0,
    ensures
        keep_last(keep_last(u, n) + v, n) == keep_last(u + v, n),
{
    let lhs = keep_last(keep_last(u, n) + v, n);
    let rhs = keep_last(u + v, n);
    if u.len() <= n {
    } else {
        let ku = keep_last(u, n);
        assert(ku.len() == n);
        assert(lhs.len() == rhs.len());
        assert forall|i: int| 0 <= i < lhs.len() implies lhs[i] == rhs[i] by {
        }
        assert(lhs =~= rhs);
    }
}

/// Filling the epochs after the last one of a well-formed, non-empty series keeps it well
/// formed and appends empty entries to the window, keeping no more entries than the
/// capacity.
pub proof fn lemma_fill_window<V>(s: SeriesModel<V>, from: int, to: int)
    requires
        well_formed(s),
        s.active > 0,
        from == window(s)[s.active - 1].0 + 1,
        from <= to,
        to - 1 <= i64::MAX,
    ensures
        fill_safe(s, from, to),
        well_formed(fill_model(s, from, to)),
        fill_model(s, from, to).capacity == s.capacity,
        fill_model(s, from, to).active > 0,
        window(fill_model(s, from, to)) == keep_last(window(s) + empty_run::<V>(from, to), s.capacity),
    decreases to - from,
{
    if from == to {
        assert(window(s) + empty_run::<V>(from, to) =~= window(s));
        assert(window(s).len() <= s.capacity);
    } else {
        let x: (u64, Option<V>) = (from as u64, None);
        lemma_push_window(s, x);
        let t = push_model(s, x);
        let wt = window(t);
        assert(wt == keep_last(window(s).push(x), s.capacity));
        assert(wt[t.active - 1].0 == from) by {
            if window(s).push(x).len() <= s.capacity {
            } else {
            }
        }
        lemma_fill_window(t, from + 1, to);
        lemma_keep_last_append(window(s).push(x), empty_run::<V>(from + 1, to), s.capacity);
        assert(window(s).push(x) + empty_run::<V>(from + 1, to) =~= window(s) + empty_run::<V>(from, to));
    }
}

/// Reducing an operand modulo `n` before adding does not change the sum modulo `n`.
pub proof fn lemma_mod_shift(x: int, z: int, n: int)
    requires
        n > 0,
    ensures
        (x % n + z) % n == (x + z) % n,
{
    vstd::arithmetic::div_mod::lemma_add_mod_noop_right(z, x, n);
}

/// Distinct offsets smaller than `n` from the same start land on distinct indices modulo `n`.
pub proof fn lemma_mod_injective(f: int, j: int, k: int, n: int)
    requires
        n > 0,
        0 <= f < n,
        0 <= j < n,
        0 <= k < n,
        (f + j) % n == (f + k) % n,
    ensures
        j == k,
{
    lemma_mod_once(f + j, n);
    lemma_mod_once(f + k, n);
}

/// The entry `k` places into the window of a well-formed series sits at index `(first + k)`
/// reduced once by the length.
pub proof fn lemma_window_index<V>(s: SeriesModel<V>, k: int)
    requires
        well_formed(s),
        0 <= k < s.active,
    ensures
        (s.first + k) % (s.slots.len() as int) == if s.first + k < s.slots.len() {
            s.first + k
        } else {
            s.first + k - s.slots.len()
        },
        window(s)[k] == s.slots[(s.first + k) % (s.slots.len() as int)],
{
    lemma_mod_once(s.first + k, s.slots.len() as int);
}

/// Walking a well-formed window from its `k`-th entry reaches the last entry with increasing
/// epochs.
pub proof fn lemma_sanity_walk<V>(s: SeriesModel<V>, k: int, fuel: nat)
    requires
        well_formed(s),
        s.slots.len() > 0,
        0 <= k < s.active,
        fuel >= s.active - 1 - k,
    ensures
        sanity_walk(
            s.slots,
            s.capacity,
            (s.first + k) % (s.slots.len() as int),
            last_slot(s),
            fuel,
        ) == SanityWalk::Increasing,
    decreases s.active - 1 - k,
{
    let len = s.slots.len() as int;
    let curr = (s.first + k) % len;
    lemma_window_index(s, k);
    if k == s.active - 1 {
    } else {
        lemma_window_index(s, k + 1);
        lemma_window_index(s, s.active - 1);
        let next = (curr + 1) % s.capacity;
        assert(next == (s.first + k + 1) % len) by {
            if len < s.capacity {
                vstd::arithmetic::div_mod::lemma_small_mod((curr + 1) as nat, s.capacity as nat);
            } else {
                lemma_mod_shift(s.first + k, 1, len);
            }
        }
        assert(window(s)[k].0 == window(s)[0].0 + k);
        assert(window(s)[k + 1].0 == window(s)[0].0 + k + 1);
        lemma_sanity_walk(s, k + 1, (fuel - 1) as nat);
    }
}

/// A well-formed series passes its own window check.
pub proof fn lemma_sanity_outcome<V>(s: SeriesModel<V>)
    requires
        well_formed(s),
    ensures
        sanity_outcome(s) == SanityWalk::Increasing,
{
    if s.slots.len() > 1 {
        lemma_sanity_walk(s, 0, (s.capacity + 1) as nat);
        lemma_mod_once(s.first, s.slots.len() as int);
    }
}

/// The series after an upsert, with `v` as the value of the entry the collision policy
/// decided, if any.
pub open spec fn upserted<V>(s: SeriesModel<V>, input: (u64, Option<V>), v: Option<V>) -> SeriesModel<V> {
    let out = upsert_model(s, input);
    match out.collision {
        Some(i) => SeriesModel {
            slots: out.next.slots.update(i, (out.next.slots[i].0, v)),
            ..out.next
        },
        None => out.next,
    }
}

/// The window a well-formed series holds after upserting `input`, where `v` is the value the
/// collision policy decides when the epoch is already in the window.
pub open spec fn window_after<V>(
    w: Seq<(u64, Option<V>)>,
    capacity: int,
    input: (u64, Option<V>),
    v: Option<V>,
) -> Seq<(u64, Option<V>)> {
    let e = input.0 as int;
    if w.len() == 0 {
        seq![input]
    } else {
        let first_epoch = w[0].0 as int;
        let last_epoch = w.last().0 as int;
        if last_epoch - e >= capacity {
            w
        } else if e - last_epoch > capacity {
            seq![input]
        } else if e < first_epoch {
            padding_entries(input, first_epoch - e) + w
        } else if e <= last_epoch {
            w.update(e - first_epoch, (input.0, v))
        } else {
            keep_last(w + empty_run::<V>(last_epoch + 1, e) + seq![input], capacity)
        }
    }
}

/// Facts about the ends of the window of a well-formed, non-empty series.
pub proof fn lemma_window_ends<V>(s: SeriesModel<V>)
    requires
        well_formed(s),
        s.slots.len() > 0,
    ensures
        window(s).len() == s.active,
        s.slots[s.first] == window(s)[0],
        s.slots[last_slot(s)] == window(s).last(),
        window(s).last().0 == window(s)[0].0 + s.active - 1,
        s.slots[s.first].0 <= window(s).last().0,
{
    lemma_window_index(s, 0);
    lemma_window_index(s, s.active - 1);
    vstd::arithmetic::div_mod::lemma_small_mod(s.first as nat, s.slots.len() as nat);
    assert(window(s)[s.active - 1].0 == window(s)[0].0 + (s.active - 1));
}

/// The last element survives when a sequence is cut down to its last `n` elements.
pub proof fn lemma_keep_last_last<A>(q: Seq<A>, n: int)
    requires
        n > 0,
        q.len() > 0,
    ensures
        keep_last(q, n).len() > 0,
        keep_last(q, n).last() == q.last(),
        keep_last(q, n).len() <= n,
{
}

/// Upserting an epoch newer than the window, by at most the capacity, appends empty entries
/// for the missing epochs and the input, keeping the newest entries that fit.
pub proof fn lemma_upsert_newer<V>(s: SeriesModel<V>, input: (u64, Option<V>), v: Option<V>)
    requires
        well_formed(s),
        s.slots.len() > 0,
        window(s).last().0 < input.0 <= window(s).last().0 + s.capacity,
        input.0 <= i64::MAX,
        s.snapshot.len() < usize::MAX,
    ensures
        upsert_safe(s, input),
        well_formed(upserted(s, input, v)),
        window(upserted(s, input, v)) == window_after(window(s), s.capacity, input, v),
{
    let w = window(s);
    let e = input.0 as int;
    lemma_window_ends(s);
    let le = w.last().0 as int;
    lemma_fill_window(s, le + 1, e);
    let t = fill_model(s, le + 1, e);
    let run = empty_run::<V>(le + 1, e);
    lemma_keep_last_last(w + run, s.capacity);
    assert((w + run).last().0 == e - 1) by {
        if run.len() > 0 {
        } else {
        }
    }
    assert(window(t).last() == window(t)[t.active - 1]);
    lemma_push_window(t, input);
    lemma_keep_last_append(w + run, seq![input], s.capacity);
    assert((w + run).push(input) =~= w + run + seq![input]);
    assert(keep_last(w + run, s.capacity).push(input) =~= keep_last(w + run, s.capacity) + seq![input]);
    lemma_sanity_outcome(s);
}

/// Upserting an epoch that is already in the window keeps every epoch and changes only the
/// value of that epoch.
pub proof fn lemma_upsert_inside<V>(s: SeriesModel<V>, input: (u64, Option<V>), v: Option<V>)
    requires
        well_formed(s),
        s.slots.len() > 0,
        window(s)[0].0 <= input.0 <= window(s).last().0,
        input.0 <= i64::MAX,
        s.snapshot.len() < usize::MAX,
    ensures
        upsert_safe(s, input),
        well_formed(upserted(s, input, v)),
        window(upserted(s, input, v)) == window_after(window(s), s.capacity, input, v),
        ({
            let target = (s.first + (input.0 - window(s)[0].0)) % (s.slots.len() as int);
            &&& upsert_model(s, input).collision == Some(target)
            &&& s.slots[target] == window(s)[input.0 - window(s)[0].0]
            &&& upsert_model(s, input).next == (SeriesModel { dirty: upsert_model(s, input).next.dirty, ..s })
            &&& upsert_model(s, input).count == 0
        }),
{
    let w = window(s);
    let e = input.0 as int;
    let len = s.slots.len() as int;
    let f = s.first;
    let a = s.active;
    lemma_window_ends(s);
    let fe = w[0].0 as int;
    let le = w.last().0 as int;
    let j = e - fe;
    lemma_sanity_outcome(s);
    let last = last_slot(s);
    let target = if e == le {
        last
    } else {
        tail_offset(s, e - le)
    };
    assert(target == (f + j) % len) by {
        lemma_mod_once(f + a - 1, len);
        if e == le {
        } else {
            lemma_mod_once(f + j, len);
            if f + a - 1 < len {
                vstd::arithmetic::div_mod::lemma_mod_add_multiples_vanish(f + j, len);
            } else {
            }
        }
    }
    lemma_window_index(s, j);
    assert(s.slots[target].0 == input.0);
    let u = upserted(s, input, v);
    assert(upsert_model(s, input).collision == Some(target));
    assert(u.slots == s.slots.update(target, (s.slots[target].0, v)));
    let expected = w.update(j, (input.0, v));
    assert forall|k: int| 0 <= k < a implies window(u)[k] == expected[k] by {
        lemma_window_index(s, k);
        if k != j {
            if (f + k) % len == target {
                lemma_mod_injective(f, k, j, len);
            }
        }
    }
    assert(window(u) =~= expected);
    assert forall|k: int| 0 <= k < u.active implies #[trigger] window(u)[k].0 == window(u)[0].0 + k by {
        assert(window(u)[k].0 == w[k].0);
        assert(window(u)[0].0 == w[0].0);
    }
}

/// Upserting into an empty series makes the input the whole window.
pub proof fn lemma_upsert_empty<V>(s: SeriesModel<V>, input: (u64, Option<V>), v: Option<V>)
    requires
        well_formed(s),
        s.slots.len() == 0,
        input.0 <= i64::MAX,
        s.snapshot.len() < usize::MAX,
    ensures
        upsert_safe(s, input),
        well_formed(upserted(s, input, v)),
        window(upserted(s, input, v)) == window_after(window(s), s.capacity, input, v),
{
    lemma_push_window(s, input);
    assert(window(s) =~= Seq::<(u64, Option<V>)>::empty());
    assert(window(s).push(input) =~= seq![input]);
}

/// Upserting an epoch older than the series can keep changes nothing.
pub proof fn lemma_upsert_too_old<V>(s: SeriesModel<V>, input: (u64, Option<V>), v: Option<V>)
    requires
        well_formed(s),
        s.slots.len() > 0,
        window(s).last().0 - input.0 >= s.capacity,
        s.snapshot.len() < usize::MAX,
    ensures
        upsert_safe(s, input),
        well_formed(upserted(s, input, v)),
        window(upserted(s, input, v)) == window_after(window(s), s.capacity, input, v),
{
    lemma_window_ends(s);
    lemma_sanity_outcome(s);
}

/// Upserting an epoch newer than the window by more than the capacity discards the window
/// and restarts it at the input.
pub proof fn lemma_upsert_discard<V>(s: SeriesModel<V>, input: (u64, Option<V>), v: Option<V>)
    requires
        well_formed(s),
        s.slots.len() > 0,
        input.0 - window(s).last().0 > s.capacity,
        input.0 <= i64::MAX,
        s.snapshot.len() < usize::MAX,
    ensures
        upsert_safe(s, input),
        well_formed(upserted(s, input, v)),
        window(upserted(s, input, v)) == window_after(window(s), s.capacity, input, v),
{
    lemma_window_ends(s);
    lemma_sanity_outcome(s);
    let u = upserted(s, input, v);
    assert(u.slots == s.slots.update(0, input));
    vstd::arithmetic::div_mod::lemma_small_mod(0, u.slots.len() as nat);
    assert(window(u) =~= seq![input]);
}

/// Upserting an epoch older than the window while the vector is shorter than the capacity
/// places the input and empty entries for the epochs up to the window before the window.
pub proof fn lemma_upsert_older_growing<V>(s: SeriesModel<V>, input: (u64, Option<V>), v: Option<V>)
    requires
        well_formed(s),
        s.slots.len() > 0,
        s.slots.len() < s.capacity,
        input.0 < window(s)[0].0,
        window(s).last().0 - input.0 < s.capacity,
        s.snapshot.len() < usize::MAX,
    ensures
        upsert_safe(s, input),
        well_formed(upserted(s, input, v)),
        window(upserted(s, input, v)) == window_after(window(s), s.capacity, input, v),
{
    let w = window(s);
    lemma_window_ends(s);
    lemma_sanity_outcome(s);
    let e = input.0 as int;
    let fe = w[0].0 as int;
    let padding = fe - e;
    let u = upserted(s, input, v);
    let len = s.slots.len() as int;
    let t = sync_snapshot(s);
    let kept = kept_before_padding(t, padding);
    let pads = padding_entries(input, padding);
    assert(s.first == 0);
    assert(s.active + padding <= s.capacity);
    assert(u.slots == pads + kept);
    assert(kept.len() >= s.active);
    assert(kept.len() + padding <= s.capacity);
    assert forall|k: int| 0 <= k < s.active implies #[trigger] kept[k] == s.slots[k] by {}
    let expected = pads + w;
    assert forall|k: int| 0 <= k < s.active + padding implies window(u)[k] == expected[k] by {
        vstd::arithmetic::div_mod::lemma_small_mod(k as nat, (kept.len() + padding) as nat);
        if k >= padding {
            lemma_window_index(s, k - padding);
            vstd::arithmetic::div_mod::lemma_small_mod((k - padding) as nat, len as nat);
        }
    }
    assert(window(u) =~= expected);
    assert forall|k: int| 0 <= k < u.active implies #[trigger] window(u)[k].0 == window(u)[0].0 + k by {
        if k >= padding {
            assert(w[k - padding].0 == w[0].0 + (k - padding));
        }
    }
    assert(window(u)[u.active - 1] == w.last());
}

/// Stepping one back from a residue modulo `n`.
pub proof fn lemma_mod_step_back(x: int, n: int)
    requires
        n > 0,
    ensures
        (x - 1) % n == if x % n == 0 {
            n - 1
        } else {
            x % n - 1
        },
{
    lemma_mod_shift(x, -1, n);
    vstd::arithmetic::div_mod::lemma_mod_bound(x, n);
    if x % n == 0 {
        vstd::arithmetic::div_mod::lemma_fundamental_div_mod_converse(-1, n, -1, n - 1);
    } else {
        vstd::arithmetic::div_mod::lemma_small_mod((x % n - 1) as nat, n as nat);
    }
}

/// Filling a full vector for fewer epochs than the window has room for writes the empty
/// entries right after the window, one index after the other around the vector, and leaves
/// every other entry alone.
pub proof fn lemma_fill_full_no_wrap<V>(s: SeriesModel<V>, from: int, to: int)
    requires
        s.slots.len() == s.capacity,
        0 < s.capacity,
        2 * s.capacity <= usize::MAX,
        0 <= s.first < s.capacity,
        s.active >= 1,
        from <= to,
        s.active + (to - from) <= s.capacity,
    ensures
        fill_safe(s, from, to),
        fill_model(s, from, to).slots.len() == s.capacity,
        fill_model(s, from, to).first == s.first,
        fill_model(s, from, to).active == s.active + (to - from),
        fill_model(s, from, to).capacity == s.capacity,
        fill_model(s, from, to).snapshot == s.snapshot,
        forall|i: int|
            0 <= i < s.capacity ==> #[trigger] fill_model(s, from, to).slots[i] == if (i - s.first
                - s.active) % s.capacity < to - from {
                ((from + (i - s.first - s.active) % s.capacity) as u64, None)
            } else {
                s.slots[i]
            },
    decreases to - from,
{
    let c = s.capacity;
    if from == to {
        assert forall|i: int| 0 <= i < c implies #[trigger] fill_model(s, from, to).slots[i] == s.slots[i] by {
            vstd::arithmetic::div_mod::lemma_mod_bound(i - s.first - s.active, c);
        }
    } else {
        let x: (u64, Option<V>) = (from as u64, None);
        let t = push_model(s, x);
        let target = (s.first + s.active) % c;
        assert(push_safe(s));
        assert(t.slots == s.slots.update(target, x));
        lemma_fill_full_no_wrap(t, from + 1, to);
        let r = fill_model(s, from, to);
        assert(r == fill_model(t, from + 1, to));
        assert forall|i: int| 0 <= i < c implies #[trigger] r.slots[i] == if (i - s.first - s.active) % c
            < to - from {
            ((from + (i - s.first - s.active) % c) as u64, None)
        } else {
            s.slots[i]
        } by {
            let d = (i - s.first - s.active) % c;
            lemma_mod_step_back(i - s.first - s.active, c);
            vstd::arithmetic::div_mod::lemma_mod_bound(i - s.first - s.active, c);
            assert((i - s.first - s.active - 1) == (i - t.first - t.active));
            lemma_mod_shift(i - s.first - s.active, s.first + s.active, c);
            vstd::arithmetic::div_mod::lemma_small_mod(i as nat, c as nat);
            if d == 0 {
                assert(i == target);
            } else {
                if i == target {
                    lemma_mod_shift(s.first + s.active, -(s.first + s.active), c);
                    vstd::arithmetic::div_mod::lemma_small_mod(0, c as nat);
                }
                assert(i != target);
            }
        }
    }
}

/// Upserting an epoch older than the window into a full vector places the input and empty
/// entries for the epochs up to the window just before the window, around the vector.
#[verifier::spinoff_prover]
#[verifier::rlimit(40)]
pub proof fn lemma_upsert_older_full<V>(s: SeriesModel<V>, input: (u64, Option<V>), v: Option<V>)
    requires
        well_formed(s),
        s.slots.len() == s.capacity,
        input.0 < window(s)[0].0,
        window(s).last().0 - input.0 < s.capacity,
        s.snapshot.len() < usize::MAX,
    ensures
        upsert_safe(s, input),
        well_formed(upserted(s, input, v)),
        window(upserted(s, input, v)) == window_after(window(s), s.capacity, input, v),
{
    let w = window(s);
    lemma_window_ends(s);
    lemma_sanity_outcome(s);
    let c = s.capacity;
    let len = c;
    let f = s.first;
    let a = s.active;
    let e = input.0 as int;
    let fe = w[0].0 as int;
    let le = w.last().0 as int;
    let padding = fe - e;
    let inactive = e - le;
    assert(1 <= padding <= c - a);
    let target = tail_offset(s, inactive);
    assert(target == (f + len - padding) % len && tail_offset_safe(s, inactive)) by {
        lemma_mod_once(f + a - 1, len);
        if f + a - 1 < len {
        } else {
            lemma_mod_once(f - padding, len);
            lemma_mod_once(f + len - padding, len);
        }
    }
    lemma_mod_once(f + len - padding, len);
    let t = sync_snapshot(s);
    let t2 = SeriesModel { slots: t.slots.update(target, input), first: target, active: 1, ..t };
    lemma_fill_full_no_wrap(t2, e + 1, fe);
    let t3 = fill_model(t2, e + 1, fe);
    let u = upserted(s, input, v);
    assert(u == SeriesModel { active: t3.active + a, ..t3 });
    assert(u.active == padding + a);
    let expected = padding_entries(input, padding) + w;
    assert forall|k: int| 0 <= k < padding + a implies window(u)[k] == expected[k] by {
        let idx = (target + k) % len;
        lemma_mod_once(target + k, len);
        lemma_mod_shift(target + k, -target - 1, len);
        lemma_mod_shift(target + k, 0, len);
        assert((idx - target - 1) % len == (k - 1) % len) by {
            lemma_mod_shift(target + k, -target - 1, len);
        }
        if k == 0 {
            vstd::arithmetic::div_mod::lemma_fundamental_div_mod_converse(-1, len, -1, len - 1);
            assert(idx == target);
        } else {
            vstd::arithmetic::div_mod::lemma_small_mod((k - 1) as nat, len as nat);
            if k >= padding {
                lemma_window_index(s, k - padding);
                assert(idx == (f + (k - padding)) % len) by {
                    lemma_mod_shift(f + len - padding, k, len);
                    vstd::arithmetic::div_mod::lemma_mod_add_multiples_vanish(f + k - padding, len);
                }
                if idx == target {
                    lemma_mod_injective(target, 0, k, len);
                }
            }
        }
    }
    assert(window(u) =~= expected);
    assert forall|k: int| 0 <= k < u.active implies #[trigger] window(u)[k].0 == window(u)[0].0 + k by {
        if k >= padding {
            assert(w[k - padding].0 == w[0].0 + (k - padding));
        }
    }
    assert(window(u)[u.active - 1] == w.last());
}

/// Filling a vector shorter than the capacity, when the new entries stay before its end,
/// never fails and grows the window by one entry per epoch.
pub proof fn lemma_fill_growing_no_wrap<V>(s: SeriesModel<V>, from: int, to: int)
    requires
        s.slots.len() < s.capacity,
        2 * s.capacity <= usize::MAX,
        s.active >= 1,
        0 <= s.first,
        from <= to,
        s.first + s.active + (to - from) <= s.slots.len(),
    ensures
        fill_safe(s, from, to),
        fill_model(s, from, to).active == s.active + (to - from),
    decreases to - from,
{
    if from < to {
        let len = s.slots.len() as int;
        vstd::arithmetic::div_mod::lemma_small_mod((s.first + s.active - 1) as nat, len as nat);
        vstd::arithmetic::div_mod::lemma_small_mod((s.first + s.active) as nat, s.capacity as nat);
        assert(push_safe(s));
        lemma_fill_growing_no_wrap(push_model(s, (from as u64, None)), from + 1, to);
    }
}

/// Upserting any epoch that fits the signed 64-bit range into a well-formed series never
/// fails.
pub proof fn lemma_upsert_safe<V>(s: SeriesModel<V>, input: (u64, Option<V>))
    requires
        well_formed(s),
        input.0 <= i64::MAX,
        s.snapshot.len() < usize::MAX,
    ensures
        upsert_safe(s, input),
{
    lemma_upsert_window(s, input, input.1);
}

/// Upserting into a well-formed series never fails, the series stays well formed and its
/// window becomes `window_after` the old one.
pub proof fn lemma_upsert_window<V>(s: SeriesModel<V>, input: (u64, Option<V>), v: Option<V>)
    requires
        well_formed(s),
        input.0 <= i64::MAX,
        s.snapshot.len() < usize::MAX,
    ensures
        upsert_safe(s, input),
        well_formed(upserted(s, input, v)),
        window(upserted(s, input, v)) == window_after(window(s), s.capacity, input, v),
{
    if s.slots.len() == 0 {
        lemma_upsert_empty(s, input, v);
    } else {
        lemma_window_ends(s);
        let w = window(s);
        let e = input.0 as int;
        let fe = w[0].0 as int;
        let le = w.last().0 as int;
        if le - e >= s.capacity {
            lemma_upsert_too_old(s, input, v);
        } else if e - le > s.capacity {
            lemma_upsert_discard(s, input, v);
        } else if e < fe {
            if s.slots.len() < s.capacity {
                lemma_upsert_older_growing(s, input, v);
            } else {
                lemma_upsert_older_full(s, input, v);
            }
        } else if e <= le {
            lemma_upsert_inside(s, input, v);
        } else {
            lemma_upsert_newer(s, input, v);
        }
    }
}


/// After `k` steps the iterator reads the entry `first + k` places into the vector, around it.
pub proof fn lemma_iter_pos(first: int, len: int, k: nat)
    requires
        len > 0,
    ensures
        iter_pos(first, len, k) % len == (first + k) % len,
    decreases k,
{
    if k > 0 {
        lemma_iter_pos(first, len, (k - 1) as nat);
        lemma_mod_shift(iter_pos(first, len, (k - 1) as nat), 1, len);
        lemma_mod_shift(first + k - 1, 1, len);
    }
}

/// The iterator yields the window, oldest entry first, around the vector.
pub proof fn lemma_iterated_window<V>(s: SeriesModel<V>)
    requires
        s.slots.len() > 0,
    ensures
        iterated(s) == window(s),
{
    let len = s.slots.len() as int;
    assert(iterated(s).len() == window(s).len());
    assert forall|k: int| 0 <= k < iterated(s).len() implies #[trigger] iterated(s)[k] == window(s)[k] by {
        lemma_iter_pos(s.first, len, k as nat);
        assert(iterated(s)[k] == s.slots[iter_pos(s.first, len, k as nat) % len]);
        assert(window(s)[k] == s.slots[(s.first + k) % len]);
    }
    assert(iterated(s) =~= window(s));
}

/// An epoch the window already holds is never counted again: the upsert reports no new entry
/// and the window keeps its epochs.
pub proof fn lemma_known_epoch_not_counted<V>(s: SeriesModel<V>, input: (u64, Option<V>), v: Option<V>)
    requires
        well_formed(s),
        s.slots.len() > 0,
        window(s)[0].0 <= input.0 <= window(s).last().0,
        s.snapshot.len() < usize::MAX,
    ensures
        upsert_model(s, input).count == 0,
        well_formed(upserted(s, input, v)),
        window(upserted(s, input, v)).len() == window(s).len(),
        forall|k: int| 0 <= k < window(s).len() ==> #[trigger] window(upserted(s, input, v))[k].0 == window(s)[k].0,
{
    lemma_window_ends(s);
    lemma_upsert_inside(s, input, v);
}


/// Upserting the epoch of the newest entry of a well-formed series never fails, reports no new
/// entry, keeps the window where it is, marks the statistics out of date and leaves the value
/// of that entry to the collision policy.
pub proof fn lemma_same_epoch_upsert<V>(s: SeriesModel<V>, input: (u64, Option<V>))
    requires
        well_formed(s),
        s.slots.len() > 0,
        input.0 == window(s).last().0,
        s.snapshot.len() < usize::MAX,
    ensures
        upsert_safe(s, input),
        upsert_model(s, input).count == 0,
        upsert_model(s, input).kind == UpsertType::OverwriteLastEpoch,
        upsert_model(s, input).collision == Some(last_slot(s)),
        upsert_model(s, input).next == (SeriesModel { dirty: true, ..s }),
{
    lemma_window_ends(s);
    lemma_upsert_safe(s, input);
}

} // verus!
