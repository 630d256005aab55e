//! Charts: the series a chart draws, and bringing all of them to the chart's newest epoch.

use vstd::prelude::*;
use crate::loading_laws::{lemma_step_upserted, lemma_upsert_keeps, snapshot_room};
use crate::prometheus::{PrometheusTimeSeries, upsert_step};
use crate::text::text_equals;
use crate::timeseries::{TimeSeries, upsert_model, upsert_safe};
use crate::timeseries_laws::{lemma_upsert_safe, lemma_upsert_window, well_formed};

verus! {

/// A series a chart draws: one loaded from Prometheus, or one the terminal records itself
/// (its input, its output, or the number of items loaded from remote sources).
pub enum TimeSeriesSource<V, I, D> {
    PrometheusTimeSeries(PrometheusTimeSeries<V, I, D>),
    AlacrittyInput(TimeSeries<V, I, D>),
    AlacrittyOutput(TimeSeries<V, I, D>),
    AsyncLoadedItems(TimeSeries<V, I, D>),
}

/// The series of a source.
pub open spec fn source_series<V, I, D>(src: TimeSeriesSource<V, I, D>) -> TimeSeries<V, I, D> {
    match src {
        TimeSeriesSource::PrometheusTimeSeries(p) => p.series,
        TimeSeriesSource::AlacrittyInput(t) => t,
        TimeSeriesSource::AlacrittyOutput(t) => t,
        TimeSeriesSource::AsyncLoadedItems(t) => t,
    }
}

/// The source `src` with its series replaced by `t`.
pub open spec fn with_series<V, I, D>(src: TimeSeriesSource<V, I, D>, t: TimeSeries<V, I, D>) -> TimeSeriesSource<V, I, D> {
    match src {
        TimeSeriesSource::PrometheusTimeSeries(p) => TimeSeriesSource::PrometheusTimeSeries(
            PrometheusTimeSeries { series: t, ..p },
        ),
        TimeSeriesSource::AlacrittyInput(_) => TimeSeriesSource::AlacrittyInput(t),
        TimeSeriesSource::AlacrittyOutput(_) => TimeSeriesSource::AlacrittyOutput(t),
        TimeSeriesSource::AsyncLoadedItems(_) => TimeSeriesSource::AsyncLoadedItems(t),
    }
}

/// Upserting `input` into the series of `src` can run without failing.
pub open spec fn source_upsert_safe<V: Copy, I: Fn(V, V) -> V, D: Fn(V, V) -> V>(
    src: TimeSeriesSource<V, I, D>,
    input: (u64, Option<V>),
) -> bool {
    &&& source_series(src).arithmetic_total()
    &&& upsert_safe(source_series(src).model(), input)
}

/// `b` is `a` after upserting `input` into its series: the series takes the state the upsert
/// gives (with the value its collision policy decides), remembers the input and the branch,
/// and keeps its configuration; the rest of the source is unchanged.
pub open spec fn source_upserted<V: Copy, I: Fn(V, V) -> V, D: Fn(V, V) -> V>(
    a: TimeSeriesSource<V, I, D>,
    b: TimeSeriesSource<V, I, D>,
    input: (u64, Option<V>),
) -> bool {
    let t = source_series(a);
    let u = source_series(b);
    let out = upsert_model(t.model(), input);
    &&& b == with_series(a, u)
    &&& upsert_step(t.collision_policy, t.increment, t.decrement, t.model(), input, u.model(), out.count)
    &&& u.collision_policy == t.collision_policy
    &&& u.increment == t.increment
    &&& u.decrement == t.decrement
    &&& u.prev_value == input
    &&& u.upsert_type == out.kind
}

/// Each source of `b` is the source at the same place in `a` after upserting `input`.
pub open spec fn sources_upserted<V: Copy, I: Fn(V, V) -> V, D: Fn(V, V) -> V>(
    a: Seq<TimeSeriesSource<V, I, D>>,
    b: Seq<TimeSeriesSource<V, I, D>>,
    input: (u64, Option<V>),
) -> bool {
    &&& a.len() == b.len()
    &&& forall|j: int| 0 <= j < a.len() ==> #[trigger] source_upserted(a[j], b[j], input)
}

impl<V: Copy, I: Fn(V, V) -> V, D: Fn(V, V) -> V> TimeSeriesSource<V, I, D> {
    /// Upserts `input` into the series of the source and returns the number of entries the
    /// upsert reports as inserted.
    pub fn upsert(&mut self, input: (u64, Option<V>)) -> (r: usize)
        requires
            source_upsert_safe(*old(self), input),
        ensures
            source_upserted(*old(self), *final(self), input),
            r == upsert_model(source_series(*old(self)).model(), input).count,
    {
        match self {
            TimeSeriesSource::PrometheusTimeSeries(p) => p.series.upsert(input),
            TimeSeriesSource::AlacrittyInput(t) => t.upsert(input),
            TimeSeriesSource::AlacrittyOutput(t) => t.upsert(input),
            TimeSeriesSource::AsyncLoadedItems(t) => t.upsert(input),
        }
    }
}

/// A chart: its name, the series it draws, the newest epoch its statistics saw when they were
/// last computed, and the epoch of its last update.
pub struct TimeSeriesChart<V, I, D> {
    pub name: String,
    pub sources: Vec<TimeSeriesSource<V, I, D>>,
    pub last_epoch: u64,
    pub last_updated: u64,
}

impl<V: Copy, I: Fn(V, V) -> V, D: Fn(V, V) -> V> TimeSeriesChart<V, I, D> {
    /// Brings every series of the chart to the newest epoch its statistics saw, by upserting
    /// an empty entry for that epoch into each of them.
    pub fn synchronize_series_epoch_range(&mut self)
        requires
            forall|j: int| 0 <= j < old(self).sources@.len()
                ==> #[trigger] source_upsert_safe(old(self).sources@[j], (old(self).last_epoch, None::<V>)),
        ensures
            final(self).name == old(self).name,
            final(self).last_epoch == old(self).last_epoch,
            final(self).last_updated == old(self).last_updated,
            sources_upserted(old(self).sources@, final(self).sources@, (old(self).last_epoch, None::<V>)),
    {
        let input: (u64, Option<V>) = (self.last_epoch, None);
        self.upsert_every_series(input);
    }

    /// Upserts `input` into every series of the chart.
    fn upsert_every_series(&mut self, input: (u64, Option<V>))
        requires
            forall|j: int| 0 <= j < old(self).sources@.len() ==> #[trigger] source_upsert_safe(old(self).sources@[j], input),
        ensures
            final(self).name == old(self).name,
            final(self).last_epoch == old(self).last_epoch,
            final(self).last_updated == old(self).last_updated,
            sources_upserted(old(self).sources@, final(self).sources@, input),
    {
        let ghost start = self.sources@;
        let mut j: usize = 0;
        while j < self.sources.len()
            invariant
                j <= self.sources@.len(),
                self.sources@.len() == start.len(),
                start == old(self).sources@,
                self.name == old(self).name,
                self.last_epoch == old(self).last_epoch,
                self.last_updated == old(self).last_updated,
                forall|i: int| 0 <= i < j ==> #[trigger] source_upserted(start[i], self.sources@[i], input),
                forall|i: int| j <= i < start.len() ==> #[trigger] self.sources@[i] == start[i],
                forall|i: int| 0 <= i < start.len() ==> #[trigger] source_upsert_safe(start[i], input),
            decreases start.len() - j,
        {
            let ghost before = self.sources@;
            let mut src = self.sources.remove(j);
            assert(src == start[j as int]);
            src.upsert(input);
            self.sources.insert(j, src);
            assert forall|i: int| 0 <= i < j + 1 implies #[trigger] source_upserted(start[i], self.sources@[i], input) by {
                if i < j {
                    assert(self.sources@[i] == before[i]);
                }
            }
            assert forall|i: int| j + 1 <= i < start.len() implies #[trigger] self.sources@[i] == start[i] by {
                assert(self.sources@[i] == before[i]);
            }
            j = j + 1;
        }
    }
}

/// Whether `src` records the counter named `counter_type`: the terminal's input, its output,
/// or the number of items loaded from remote sources.
pub open spec fn records_counter<V, I, D>(counter_type: Seq<char>, src: TimeSeriesSource<V, I, D>) -> bool {
    ||| counter_type == "input"@ && src is AlacrittyInput
    ||| counter_type == "output"@ && src is AlacrittyOutput
    ||| counter_type == "async_loaded_items"@ && src is AsyncLoadedItems
}

/// Upserting an entry for `epoch` into the series of `src` is safe: the series is well
/// formed, its snapshot has room, and the epoch fits the signed 64-bit range.
pub open spec fn source_sync_ready<V: Copy, I: Fn(V, V) -> V, D: Fn(V, V) -> V>(
    src: TimeSeriesSource<V, I, D>,
    epoch: u64,
) -> bool {
    let t = source_series(src);
    &&& t.arithmetic_total()
    &&& well_formed(t.model())
    &&& t.prev_snapshot@.len() < usize::MAX
    &&& epoch <= i64::MAX
}

/// After an upsert of an epoch that fits the signed 64-bit range into a source ready for it,
/// the source is still ready, with one entry less of room in its snapshot.
pub proof fn lemma_source_upserted_ready<V: Copy, I: Fn(V, V) -> V, D: Fn(V, V) -> V>(
    a: TimeSeriesSource<V, I, D>,
    b: TimeSeriesSource<V, I, D>,
    input: (u64, Option<V>),
    epoch: u64,
    room: int,
)
    requires
        source_sync_ready(a, epoch),
        room >= 0,
        snapshot_room(source_series(a).model(), room + 1),
        input.0 <= i64::MAX,
        source_upserted(a, b, input),
    ensures
        source_sync_ready(b, epoch),
        snapshot_room(source_series(b).model(), room),
{
    let t = source_series(a);
    let u = source_series(b);
    let v = lemma_step_upserted(
        t.collision_policy,
        t.increment,
        t.decrement,
        t.model(),
        input,
        u.model(),
        upsert_model(t.model(), input).count,
    );
    lemma_upsert_window(t.model(), input, v);
    lemma_upsert_keeps(t.model(), input, v);
}

/// `b` is the chart `a` after recording `input` in each of its series that record the counter
/// named `counter_type` and, when there is one, bringing every series to the chart's newest
/// epoch; a chart without such a series is left as it is.
pub open spec fn chart_counted<V: Copy, I: Fn(V, V) -> V, D: Fn(V, V) -> V>(
    a: TimeSeriesChart<V, I, D>,
    b: TimeSeriesChart<V, I, D>,
    counter_type: Seq<char>,
    input: (u64, Option<V>),
) -> bool {
    let src = a.sources@;
    &&& b.name == a.name
    &&& b.last_epoch == a.last_epoch
    &&& b.last_updated == a.last_updated
    &&& (forall|j: int| 0 <= j < src.len() ==> !#[trigger] records_counter(counter_type, src[j]))
        ==> b.sources@ == src
    &&& (exists|j: int| 0 <= j < src.len() && #[trigger] records_counter(counter_type, src[j]))
        ==> exists|mid: Seq<TimeSeriesSource<V, I, D>>|
        #![trigger sources_upserted(mid, b.sources@, (a.last_epoch, None::<V>))]
        {
            &&& mid.len() == src.len()
            &&& forall|j: int|
                #![trigger mid[j]]
                0 <= j < mid.len() ==> if records_counter(counter_type, src[j]) {
                    source_upserted(src[j], mid[j], input)
                } else {
                    mid[j] == src[j]
                }
            &&& sources_upserted(mid, b.sources@, (a.last_epoch, None::<V>))
        }
}

/// Recording a value at `epoch` in the series of `c` that record the counter named
/// `counter_type`, and then bringing every series of `c` to its newest epoch, is safe.
pub open spec fn chart_count_ready<V: Copy, I: Fn(V, V) -> V, D: Fn(V, V) -> V>(
    c: TimeSeriesChart<V, I, D>,
    counter_type: Seq<char>,
    epoch: u64,
) -> bool {
    (exists|j: int| 0 <= j < c.sources@.len() && #[trigger] records_counter(counter_type, c.sources@[j])) ==> {
        &&& epoch <= i64::MAX
        &&& forall|j: int| 0 <= j < c.sources@.len() ==> {
            &&& #[trigger] source_sync_ready(c.sources@[j], c.last_epoch)
            &&& snapshot_room(source_series(c.sources@[j]).model(), 1)
        }
    }
}

impl<V: Copy, I: Fn(V, V) -> V, D: Fn(V, V) -> V> TimeSeriesChart<V, I, D> {
    /// Records `input` in each series of the chart that records the counter named
    /// `counter_type`, and, when there is one, brings every series to the chart's newest
    /// epoch.
    pub fn record_counter(&mut self, counter_type: &str, input: (u64, Option<V>))
        requires
            chart_count_ready(*old(self), counter_type@, input.0),
        ensures
            chart_counted(*old(self), *final(self), counter_type@, input),
    {
        let is_input = text_equals(counter_type, "input");
        let is_output = text_equals(counter_type, "output");
        let is_loaded_items = text_equals(counter_type, "async_loaded_items");
        let ghost start = self.sources@;
        let mut updated = false;
        let mut j: usize = 0;
        while j < self.sources.len()
            invariant
                j <= self.sources@.len(),
                self.sources@.len() == start.len(),
                start == old(self).sources@,
                self.name == old(self).name,
                self.last_epoch == old(self).last_epoch,
                self.last_updated == old(self).last_updated,
                is_input == (counter_type@ == "input"@),
                is_output == (counter_type@ == "output"@),
                is_loaded_items == (counter_type@ == "async_loaded_items"@),
                chart_count_ready(*old(self), counter_type@, input.0),
                updated == exists|i: int| 0 <= i < j && #[trigger] records_counter(counter_type@, start[i]),
                forall|i: int|
                    #![trigger self.sources@[i]]
                    0 <= i < j ==> if records_counter(counter_type@, start[i]) {
                        source_upserted(start[i], self.sources@[i], input)
                    } else {
                        self.sources@[i] == start[i]
                    },
                forall|i: int| j <= i < start.len() ==> #[trigger] self.sources@[i] == start[i],
            decreases start.len() - j,
        {
            let ghost before = self.sources@;
            let mut src = self.sources.remove(j);
            assert(src == start[j as int]);
            let records = match src {
                TimeSeriesSource::AlacrittyInput(_) => is_input,
                TimeSeriesSource::AlacrittyOutput(_) => is_output,
                TimeSeriesSource::AsyncLoadedItems(_) => is_loaded_items,
                _ => false,
            };
            assert(records == records_counter(counter_type@, src));
            if records {
                proof {
                    assert(records_counter(counter_type@, old(self).sources@[j as int]));
                    assert(source_sync_ready(src, old(self).last_epoch));
                    lemma_upsert_safe(source_series(src).model(), input);
                }
                src.upsert(input);
                updated = true;
            }
            self.sources.insert(j, src);
            assert forall|i: int|
                #![trigger self.sources@[i]]
                0 <= i < j + 1 implies if records_counter(counter_type@, start[i]) {
                    source_upserted(start[i], self.sources@[i], input)
                } else {
                    self.sources@[i] == start[i]
                } by {
                if i < j {
                    assert(self.sources@[i] == before[i]);
                }
            }
            assert forall|i: int| j + 1 <= i < start.len() implies #[trigger] self.sources@[i] == start[i] by {
                assert(self.sources@[i] == before[i]);
            }
            j = j + 1;
        }
        let ghost mid = self.sources@;
        if updated {
            proof {
                let k = choose|i: int| 0 <= i < start.len() && #[trigger] records_counter(counter_type@, start[i]);
                assert forall|i: int| 0 <= i < mid.len() implies #[trigger] source_upsert_safe(
                    mid[i],
                    (old(self).last_epoch, None::<V>),
                ) by {
                    assert(source_sync_ready(start[i], old(self).last_epoch));
                    assert(snapshot_room(source_series(start[i]).model(), 1));
                    if records_counter(counter_type@, start[i]) {
                        assert(source_upserted(start[i], mid[i], input));
                        lemma_source_upserted_ready(start[i], mid[i], input, old(self).last_epoch, 0);
                    }
                    lemma_upsert_safe(source_series(mid[i]).model(), (old(self).last_epoch, None::<V>));
                }
            }
            self.synchronize_series_epoch_range();
            assert(sources_upserted(mid, self.sources@, (old(self).last_epoch, None::<V>)));
        } else {
            assert(self.sources@ =~= start);
        }
    }
}

/// The latest epoch at which any of the charts was updated, or 0 when there is no chart.
pub open spec fn latest_update<V, I, D>(charts: Seq<TimeSeriesChart<V, I, D>>) -> u64
    decreases charts.len(),
{
    if charts.len() == 0 {
        0
    } else {
        let rest = latest_update(charts.drop_last());
        if charts.last().last_updated > rest {
            charts.last().last_updated
        } else {
            rest
        }
    }
}

/// Brings every chart updated before the latest update of any chart to that epoch: an empty
/// entry for it is upserted into every series of such a chart. The other charts, and the
/// names and epochs of all charts, stay as they are.
pub fn sync_latest_epoch<V: Copy, I: Fn(V, V) -> V, D: Fn(V, V) -> V>(charts: &mut Vec<TimeSeriesChart<V, I, D>>)
    requires
        forall|i: int, j: int|
            0 <= i < old(charts)@.len() && old(charts)@[i].last_updated < latest_update(old(charts)@)
                && 0 <= j < old(charts)@[i].sources@.len()
                ==> #[trigger] source_upsert_safe(old(charts)@[i].sources@[j], (latest_update(old(charts)@), None::<V>)),
    ensures
        final(charts)@.len() == old(charts)@.len(),
        forall|i: int| 0 <= i < old(charts)@.len() ==> {
            let a = #[trigger] old(charts)@[i];
            let b = final(charts)@[i];
            if a.last_updated < latest_update(old(charts)@) {
                &&& b.name == a.name
                &&& b.last_epoch == a.last_epoch
                &&& b.last_updated == a.last_updated
                &&& sources_upserted(a.sources@, b.sources@, (latest_update(old(charts)@), None::<V>))
            } else {
                b == a
            }
        },
{
    let ghost start = charts@;
    let mut latest: u64 = 0;
    let mut k: usize = 0;
    while k < charts.len()
        invariant
            k <= charts@.len(),
            charts@ == start,
            latest == latest_update(start.take(k as int)),
        decreases start.len() - k,
    {
        assert(start.take(k as int + 1).drop_last() =~= start.take(k as int));
        if charts[k].last_updated > latest {
            latest = charts[k].last_updated;
        }
        k = k + 1;
    }
    assert(start.take(start.len() as int) =~= start);
    let input: (u64, Option<V>) = (latest, None);
    let mut i: usize = 0;
    while i < charts.len()
        invariant
            i <= charts@.len(),
            charts@.len() == start.len(),
            start == old(charts)@,
            latest == latest_update(start),
            input == (latest, None::<V>),
            forall|c: int, j: int|
                0 <= c < start.len() && start[c].last_updated < latest && 0 <= j < start[c].sources@.len()
                    ==> #[trigger] source_upsert_safe(start[c].sources@[j], input),
            forall|c: int| 0 <= c < i ==> {
                let a = #[trigger] start[c];
                let b = charts@[c];
                if a.last_updated < latest {
                    &&& b.name == a.name
                    &&& b.last_epoch == a.last_epoch
                    &&& b.last_updated == a.last_updated
                    &&& sources_upserted(a.sources@, b.sources@, input)
                } else {
                    b == a
                }
            },
            forall|c: int| i <= c < start.len() ==> #[trigger] charts@[c] == start[c],
        decreases start.len() - i,
    {
        let ghost before = charts@;
        if charts[i].last_updated < latest {
            let mut chart = charts.remove(i);
            assert(chart == start[i as int]);
            assert forall|j: int| 0 <= j < chart.sources@.len() implies #[trigger] source_upsert_safe(chart.sources@[j], input) by {
                assert(source_upsert_safe(start[i as int].sources@[j], input));
            }
            chart.upsert_every_series(input);
            charts.insert(i, chart);
        }
        assert forall|c: int| 0 <= c < i + 1 implies {
            let a = #[trigger] start[c];
            let b = charts@[c];
            if a.last_updated < latest {
                &&& b.name == a.name
                &&& b.last_epoch == a.last_epoch
                &&& b.last_updated == a.last_updated
                &&& sources_upserted(a.sources@, b.sources@, input)
            } else {
                b == a
            }
        } by {
            if c < i {
                assert(charts@[c] == before[c]);
            }
        }
        assert forall|c: int| i + 1 <= c < start.len() implies #[trigger] charts@[c] == start[c] by {
            assert(charts@[c] == before[c]);
        }
        i = i + 1;
    }
}

/// The latest update is the largest `last_updated` of the charts: no chart was updated later,
/// and some chart was updated then (0 when there is no chart).
pub proof fn lemma_latest_update_is_max<V, I, D>(charts: Seq<TimeSeriesChart<V, I, D>>)
    ensures
        forall|i: int| 0 <= i < charts.len() ==> #[trigger] charts[i].last_updated <= latest_update(charts),
        charts.len() > 0 ==> exists|i: int| 0 <= i < charts.len() && #[trigger] charts[i].last_updated == latest_update(charts),
        charts.len() == 0 ==> latest_update(charts) == 0,
    decreases charts.len(),
{
    if charts.len() > 0 {
        let rest = charts.drop_last();
        lemma_latest_update_is_max(rest);
        assert forall|i: int| 0 <= i < charts.len() implies #[trigger] charts[i].last_updated <= latest_update(charts) by {
            if i < rest.len() {
                assert(charts[i] == rest[i]);
            }
        }
        if charts.last().last_updated > latest_update(rest) || rest.len() == 0 {
            assert(charts[charts.len() - 1].last_updated == latest_update(charts));
        } else {
            let k = choose|i: int| 0 <= i < rest.len() && #[trigger] rest[i].last_updated == latest_update(rest);
            assert(charts[k] == rest[k]);
        }
    }
}

} // verus!
