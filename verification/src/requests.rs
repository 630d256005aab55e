//! Requests for remote data sources that are loaded regularly, and where their responses go.

use vstd::prelude::*;
use crate::charts::{
    TimeSeriesChart, TimeSeriesSource, chart_count_ready, chart_counted, lemma_source_upserted_ready, source_series,
    source_upserted,
    source_sync_ready, source_upsert_safe, sources_upserted,
};
use crate::loading_laws::{lemma_loaded_well_formed, snapshot_room};
use crate::prometheus::{HTTPResponse, HTTPResponseData, loads_safely, response_entries, response_loaded};
use crate::text::text_equals;
use crate::timeseries_laws::lemma_upsert_safe;

verus! {

/// A remote data source to load regularly, and where its data goes.
#[derive(Debug, Clone)]
pub struct MetricRequest<V> {
    /// Seconds between two loads.
    pub pull_interval: u64,
    /// The URL to load.
    pub source_url: String,
    /// The chart the data belongs to.
    pub chart_index: usize,
    /// The series of the chart the data belongs to.
    pub series_index: usize,
    /// The response, once loaded.
    pub data: Option<HTTPResponse<V>>,
    /// The number of seconds of data to query.
    pub capacity: usize,
}

/// The chart and series a request is for exist.
pub open spec fn request_in_range<V, I, D>(charts: Seq<TimeSeriesChart<V, I, D>>, request: MetricRequest<V>) -> bool {
    &&& request.chart_index < charts.len()
    &&& request.series_index < charts[request.chart_index as int].sources@.len()
}

/// Whether a request carries a response whose status is `success`.
pub open spec fn successful<V>(request: MetricRequest<V>) -> bool {
    request.data matches Some(data) && data.status@ == "success"@
}

/// `b` is the source `a` after the data of a successful response was loaded into it, with `n`
/// entries reported as inserted: a Prometheus series loads it (see `response_loaded`), any
/// other source is left as it is.
pub open spec fn source_loaded<V: Copy, I: Fn(V, V) -> V, D: Fn(V, V) -> V>(
    a: TimeSeriesSource<V, I, D>,
    data: HTTPResponseData<V>,
    b: TimeSeriesSource<V, I, D>,
    n: int,
) -> bool {
    match a {
        TimeSeriesSource::PrometheusTimeSeries(p) => b matches TimeSeriesSource::PrometheusTimeSeries(q)
            && response_loaded(p, data, q, n),
        _ => b == a && n == 0,
    }
}

/// Loading `data` into `src` is safe, and leaves room for two more upserts: a Prometheus
/// series loads the entries without failing, their epochs fit the signed 64-bit range and its
/// snapshot has room for them. Other sources load nothing.
pub open spec fn source_load_safe<V: Copy, I: Fn(V, V) -> V, D: Fn(V, V) -> V>(
    src: TimeSeriesSource<V, I, D>,
    data: HTTPResponseData<V>,
) -> bool {
    match src {
        TimeSeriesSource::PrometheusTimeSeries(p) => {
            let t = p.series;
            let entries = response_entries(p.required_labels@, data);
            &&& loads_safely(t.collision_policy, t.increment, t.decrement, t.model(), entries, usize::MAX as int)
            &&& forall|i: int| 0 <= i < entries.len() ==> #[trigger] entries[i].0 <= i64::MAX
            &&& snapshot_room(t.model(), entries.len() as int + 2)
        },
        _ => true,
    }
}

/// `b` is the charts `a` after recording `input` in every series that records the counter
/// named `counter_type`, and bringing every series of each chart holding such a series to the
/// chart's newest epoch (see `chart_counted`).
pub open spec fn charts_counted<V: Copy, I: Fn(V, V) -> V, D: Fn(V, V) -> V>(
    a: Seq<TimeSeriesChart<V, I, D>>,
    b: Seq<TimeSeriesChart<V, I, D>>,
    counter_type: Seq<char>,
    input: (u64, Option<V>),
) -> bool {
    &&& a.len() == b.len()
    &&& forall|i: int| 0 <= i < a.len() ==> #[trigger] chart_counted(a[i], b[i], counter_type, input)
}

/// Records `value` at `epoch` in every series of every chart that records the counter named
/// `counter_type` (`input`, `output` or `async_loaded_items`), and brings every series of a
/// chart that holds such a series to the chart's newest epoch.
pub fn increment_internal_counter<V: Copy, I: Fn(V, V) -> V, D: Fn(V, V) -> V>(
    charts: &mut Vec<TimeSeriesChart<V, I, D>>,
    counter_type: &str,
    epoch: u64,
    value: V,
)
    requires
        forall|i: int| 0 <= i < old(charts)@.len() ==> #[trigger] chart_count_ready(old(charts)@[i], counter_type@, epoch),
    ensures
        charts_counted(old(charts)@, final(charts)@, counter_type@, (epoch, Some(value))),
{
    let input: (u64, Option<V>) = (epoch, Some(value));
    let ghost start = charts@;
    let mut i: usize = 0;
    while i < charts.len()
        invariant
            i <= charts@.len(),
            charts@.len() == start.len(),
            start == old(charts)@,
            input == (epoch, Some(value)),
            forall|k: int| 0 <= k < start.len() ==> #[trigger] chart_count_ready(start[k], counter_type@, epoch),
            forall|k: int| 0 <= k < i ==> #[trigger] chart_counted(start[k], charts@[k], counter_type@, input),
            forall|k: int| i <= k < start.len() ==> #[trigger] charts@[k] == start[k],
        decreases start.len() - i,
    {
        let ghost before = charts@;
        let mut chart = charts.remove(i);
        assert(chart == start[i as int]);
        chart.record_counter(counter_type, input);
        charts.insert(i, chart);
        assert forall|k: int| 0 <= k < i + 1 implies #[trigger] chart_counted(start[k], charts@[k], counter_type@, input) by {
            if k < i {
                assert(charts@[k] == before[k]);
            }
        }
        assert forall|k: int| i + 1 <= k < start.len() implies #[trigger] charts@[k] == start[k] by {
            assert(charts@[k] == before[k]);
        }
        i = i + 1;
    }
}

/// `b` is the charts `a` after the data of a successful response for the series `si` of the
/// chart `ci` was routed: when the chart and the series exist, the data is loaded into that
/// series, reporting `n` entries
/// (see `source_loaded`), and every series of the chart is brought to the chart's newest
/// epoch; the other charts, and the chart's name and epochs, stay as they are. When the chart
/// or the series does not exist, nothing changes and `n` is 0.
pub open spec fn response_routed<V: Copy, I: Fn(V, V) -> V, D: Fn(V, V) -> V>(
    a: Seq<TimeSeriesChart<V, I, D>>,
    b: Seq<TimeSeriesChart<V, I, D>>,
    ci: int,
    si: int,
    data: HTTPResponseData<V>,
    n: int,
) -> bool {
    if 0 <= ci < a.len() && 0 <= si < a[ci].sources@.len() {
        let chart = a[ci];
        let after = b[ci];
        &&& b.len() == a.len()
        &&& forall|i: int| 0 <= i < a.len() && i != ci ==> #[trigger] b[i] == a[i]
        &&& after.name == chart.name
        &&& after.last_epoch == chart.last_epoch
        &&& after.last_updated == chart.last_updated
        &&& exists|mid: Seq<TimeSeriesSource<V, I, D>>|
            #![trigger sources_upserted(mid, after.sources@, (chart.last_epoch, None::<V>))]
            {
                &&& mid.len() == chart.sources@.len()
                &&& forall|j: int| 0 <= j < mid.len() && j != si ==> #[trigger] mid[j] == chart.sources@[j]
                &&& source_loaded(chart.sources@[si], data, mid[si], n)
                &&& sources_upserted(mid, after.sources@, (chart.last_epoch, None::<V>))
            }
    } else {
        &&& b == a
        &&& n == 0
    }
}

/// Routing the response of `request` into `charts` (see `response_routed`) and then counting
/// the loaded entries at `epoch` is safe: in the chart the response is for, every series is
/// ready to be brought to the chart's newest epoch twice and the series the response is for
/// loads it safely; every other chart is ready to record the count.
pub open spec fn response_ready<V: Copy, I: Fn(V, V) -> V, D: Fn(V, V) -> V>(
    charts: Seq<TimeSeriesChart<V, I, D>>,
    request: MetricRequest<V>,
    epoch: u64,
) -> bool {
    let ci = request.chart_index as int;
    &&& forall|i: int| 0 <= i < charts.len() && !(request_in_range(charts, request) && i == ci)
        ==> #[trigger] chart_count_ready(charts[i], "async_loaded_items"@, epoch)
    &&& request_in_range(charts, request) ==> {
        &&& epoch <= i64::MAX
        &&& chart_load_ready(charts[ci], request.series_index as int, request.data.unwrap().data)
    }
}

/// Loading `data` into the series `si` of `chart` and then bringing every series of the chart
/// to its newest epoch is safe, and leaves room in every snapshot for one more upsert.
pub open spec fn chart_load_ready<V: Copy, I: Fn(V, V) -> V, D: Fn(V, V) -> V>(
    chart: TimeSeriesChart<V, I, D>,
    si: int,
    data: HTTPResponseData<V>,
) -> bool {
    &&& forall|j: int| 0 <= j < chart.sources@.len() ==> {
        &&& #[trigger] source_sync_ready(chart.sources@[j], chart.last_epoch)
        &&& snapshot_room(source_series(chart.sources@[j]).model(), 2)
    }
    &&& source_load_safe(chart.sources@[si], data)
}

/// Loads the response a request carries into the Prometheus series it is for, brings every
/// series of that chart to the newest epoch the chart's statistics saw, and records the number
/// of entries loaded, made a value by `to_value`, at `now` in every series that counts the
/// items loaded (see `increment_internal_counter`). A request without a response, or whose
/// response is not successful, gives `None` and changes nothing. Otherwise the result is the
/// number of entries loaded: 0 when the chart or the series does not exist, or the series is
/// not loaded from Prometheus.
pub fn load_http_response<V: Copy, I: Fn(V, V) -> V, D: Fn(V, V) -> V, F: Fn(usize) -> V>(
    charts: &mut Vec<TimeSeriesChart<V, I, D>>,
    response: MetricRequest<V>,
    now: u64,
    to_value: F,
) -> (r: Option<usize>)
    requires
        forall|n: usize| #[trigger] call_requires(to_value, (n,)),
        successful(response) ==> response_ready(old(charts)@, response, now),
    ensures
        !successful(response) ==> r is None && *final(charts) == *old(charts),
        successful(response) ==> exists|routed: Seq<TimeSeriesChart<V, I, D>>, v: V, n: usize|
            #![trigger response_routed(old(charts)@, routed, response.chart_index as int, response.series_index as int, response.data.unwrap().data, n as int), call_ensures(to_value, (n,), v)]
            {
                &&& r == Some(n)
                &&& response_routed(old(charts)@, routed, response.chart_index as int, response.series_index as int, response.data.unwrap().data, n as int)
                &&& call_ensures(to_value, (n,), v)
                &&& charts_counted(routed, final(charts)@, "async_loaded_items"@, (now, Some(v)))
            },
{
    let ci = response.chart_index;
    let si = response.series_index;
    let data = match response.data {
        Some(data) => data,
        None => {
            return None;
        },
    };
    if !text_equals(data.status.as_str(), "success") {
        return None;
    }
    let ghost charts0 = charts@;
    let mut loaded: usize = 0;
    if ci < charts.len() && si < charts[ci].sources.len() {
        loaded = load_into_chart(charts, ci, si, data);
    }
    assert(response_routed(charts0, charts@, ci as int, si as int, data.data, loaded as int));
    proof {
        assert forall|i: int| 0 <= i < charts@.len() implies #[trigger] chart_count_ready(
            charts@[i],
            "async_loaded_items"@,
            now,
        ) by {
            if request_in_range(charts0, response) && i == ci {
                let chart = charts@[i];
                let chart0 = charts0[i];
                let mid = choose|mid: Seq<TimeSeriesSource<V, I, D>>| {
                    &&& mid.len() == chart0.sources@.len()
                    &&& forall|j: int| 0 <= j < mid.len() && j != si ==> #[trigger] mid[j] == chart0.sources@[j]
                    &&& source_loaded(chart0.sources@[si as int], data.data, mid[si as int], loaded as int)
                    &&& sources_upserted(mid, chart.sources@, (chart0.last_epoch, None::<V>))
                };
                assert forall|j: int| 0 <= j < chart.sources@.len() implies {
                    &&& #[trigger] source_sync_ready(chart.sources@[j], chart.last_epoch)
                    &&& snapshot_room(source_series(chart.sources@[j]).model(), 1)
                } by {
                    assert(source_sync_ready(chart0.sources@[j], chart0.last_epoch));
                    lemma_loaded_source_ready(chart0.sources@[j], data.data, mid[j], loaded as int, j == si, chart0.last_epoch);
                    assert(source_upserted(mid[j], chart.sources@[j], (chart0.last_epoch, None::<V>)));
                    lemma_source_upserted_ready(mid[j], chart.sources@[j], (chart0.last_epoch, None::<V>), chart0.last_epoch, 1);
                }
            } else {
                assert(charts@[i] == charts0[i]);
            }
        }
    }
    let ghost routed = charts@;
    let value = to_value(loaded);
    increment_internal_counter(charts, "async_loaded_items", now, value);
    assert(response.data.unwrap().data == data.data);
    assert(call_ensures(to_value, (loaded,), value));
    Some(loaded)
}

/// What loading a response into one source leaves, when the source was ready for it: the
/// source is ready to be brought to the chart's newest epoch, with room for two more upserts.
proof fn lemma_loaded_source_ready<V: Copy, I: Fn(V, V) -> V, D: Fn(V, V) -> V>(
    a: TimeSeriesSource<V, I, D>,
    data: HTTPResponseData<V>,
    b: TimeSeriesSource<V, I, D>,
    n: int,
    is_target: bool,
    epoch: u64,
)
    requires
        source_sync_ready(a, epoch),
        snapshot_room(source_series(a).model(), 2),
        is_target ==> source_load_safe(a, data) && source_loaded(a, data, b, n),
        !is_target ==> b == a,
    ensures
        source_sync_ready(b, epoch),
        snapshot_room(source_series(b).model(), 2),
{
    if is_target {
        match a {
            TimeSeriesSource::PrometheusTimeSeries(p) => {
                let entries = response_entries(p.required_labels@, data);
                let q = source_series(b);
                lemma_loaded_well_formed(
                    p.series.collision_policy,
                    p.series.increment,
                    p.series.decrement,
                    p.series.model(),
                    entries,
                    q.model(),
                    n,
                    2,
                );
            },
            _ => {},
        }
    }
}

/// Loads `data` into the source `si` of the chart `ci` and brings every series of that chart
/// to the chart's newest epoch (see `response_routed`); returns the number of entries loaded.
fn load_into_chart<V: Copy, I: Fn(V, V) -> V, D: Fn(V, V) -> V>(
    charts: &mut Vec<TimeSeriesChart<V, I, D>>,
    ci: usize,
    si: usize,
    data: HTTPResponse<V>,
) -> (r: usize)
    requires
        ci < old(charts)@.len(),
        si < old(charts)@[ci as int].sources@.len(),
        data.status@ == "success"@,
        chart_load_ready(old(charts)@[ci as int], si as int, data.data),
    ensures
        response_routed(old(charts)@, final(charts)@, ci as int, si as int, data.data, r as int),
{
    let ghost old_data = data.data;
    let ghost charts0 = charts@;
    let mut chart = charts.remove(ci);
    let ghost chart0 = chart;
    let epoch = chart.last_epoch;
    let input: (u64, Option<V>) = (epoch, None);
    let src = chart.sources.remove(si);
    assert(src == chart0.sources@[si as int]);
    assert(source_sync_ready(src, epoch));
    assert(source_load_safe(src, old_data));
    let (src, loaded) = match src {
        TimeSeriesSource::PrometheusTimeSeries(mut p) => {
            let n = match p.load_prometheus_response(data) {
                Ok(n) => n,
                Err(_) => 0,
            };
            (TimeSeriesSource::PrometheusTimeSeries(p), n)
        },
        other => (other, 0),
    };
    assert(source_loaded(chart0.sources@[si as int], old_data, src, loaded as int));
    chart.sources.insert(si, src);
    let ghost mid = chart.sources@;
    assert forall|j: int| 0 <= j < mid.len() && j != si implies #[trigger] mid[j] == chart0.sources@[j] by {}
    proof {
        assert forall|j: int| 0 <= j < mid.len() implies #[trigger] source_upsert_safe(mid[j], input) by {
            let a = chart0.sources@[j];
            assert(source_sync_ready(a, epoch));
            if j == si {
                match a {
                    TimeSeriesSource::PrometheusTimeSeries(p) => {
                        let entries = response_entries(p.required_labels@, old_data);
                        let q = source_series(mid[j]);
                        lemma_loaded_well_formed(
                            p.series.collision_policy,
                            p.series.increment,
                            p.series.decrement,
                            p.series.model(),
                            entries,
                            q.model(),
                            loaded as int,
                            0,
                        );
                        lemma_upsert_safe(q.model(), input);
                    },
                    _ => {
                        assert(source_sync_ready(a, epoch));
                        lemma_upsert_safe(source_series(a).model(), input);
                    },
                }
            } else {
                assert(source_sync_ready(a, epoch));
                lemma_upsert_safe(source_series(a).model(), input);
            }
        }
    }
    chart.synchronize_series_epoch_range();
    assert(sources_upserted(mid, chart.sources@, (chart0.last_epoch, None::<V>)));
    let ghost after = chart;
    charts.insert(ci, chart);
    assert(charts@[ci as int] == after);
    assert(chart0 == charts0[ci as int]);
    assert forall|i: int| 0 <= i < charts0.len() && i != ci implies #[trigger] charts@[i] == charts0[i] by {
        if i < ci {
        } else {
        }
    }
    assert(mid.len() == chart0.sources@.len());
    assert(source_loaded(chart0.sources@[si as int], old_data, mid[si as int], loaded as int));
    loaded
}

} // verus!
