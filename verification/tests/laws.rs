use chartacritty::prometheus::{
    HTTPMatrixResult, HTTPResponse, HTTPResponseData, JsonValue, PrometheusTimeSeries,
};
use chartacritty::charts::{sync_latest_epoch, TimeSeriesChart, TimeSeriesSource};
use chartacritty::requests::{increment_internal_counter, load_http_response, MetricRequest};
use chartacritty::timeseries::TimeSeries;

type Arith = fn(f64, f64) -> f64;

fn plus(a: f64, b: f64) -> f64 {
    a + b
}

fn minus(a: f64, b: f64) -> f64 {
    a - b
}

fn series(capacity: usize) -> TimeSeries<f64, Arith, Arith> {
    TimeSeries::new(plus as Arith, minus as Arith).with_capacity(capacity)
}

fn prom(url: &str) -> Result<PrometheusTimeSeries<f64, Arith, Arith>, String> {
    PrometheusTimeSeries::new(
        String::from(url),
        15,
        String::from("matrix"),
        vec![],
        1_600_000_000,
        plus as Arith,
        minus as Arith,
    )
}

fn matrix(values: &[(u64, f64)]) -> HTTPResponse<f64> {
    HTTPResponse {
        data: HTTPResponseData::Matrix {
            result: vec![HTTPMatrixResult {
                labels: vec![],
                values: values
                    .iter()
                    .map(|(e, v)| {
                        vec![
                            JsonValue { epoch: Some(*e), number: None },
                            JsonValue { epoch: None, number: Some(*v) },
                        ]
                    })
                    .collect(),
            }],
        },
        status: String::from("success"),
    }
}

#[test]
fn iterates_the_window_after_it_wraps_once() {
    let mut test = series(4);
    for epoch in 10..15u64 {
        test.upsert((epoch, Some(epoch as f64)));
    }
    assert_eq!(test.first_idx, 1);
    assert_eq!(
        test.as_vec(),
        vec![(11, Some(11.0)), (12, Some(12.0)), (13, Some(13.0)), (14, Some(14.0))]
    );
}

#[test]
fn known_epochs_are_not_counted_again() {
    let mut test = series(5);
    test.upsert((10, Some(1.0)));
    test.upsert((11, Some(2.0)));
    test.upsert((12, Some(3.0)));
    assert_eq!(test.upsert((11, Some(5.0))), 0);
    assert_eq!(test.as_vec(), vec![(10, Some(1.0)), (11, Some(7.0)), (12, Some(3.0))]);
}

#[test]
fn upserting_newer_epochs_keeps_the_last_capacity_epochs() {
    let mut test = series(3);
    test.upsert((1, Some(1.0)));
    test.upsert((4, Some(4.0)));
    assert_eq!(test.as_vec(), vec![(2, None), (3, None), (4, Some(4.0))]);
    test.upsert((8, Some(8.0)));
    assert_eq!(test.as_vec(), vec![(8, Some(8.0))]);
}

#[test]
fn ordered_entries_load_one_per_new_epoch() {
    let mut test = prom("http://localhost:9090/api/v1/query?query=up").unwrap();
    assert_eq!(test.load_prometheus_response(matrix(&[(20, 1.0), (21, 2.0), (22, 3.0)])), Ok(3));
    assert_eq!(test.load_prometheus_response(matrix(&[(21, 4.0), (22, 5.0), (23, 6.0)])), Ok(1));
    assert_eq!(
        test.series.as_vec(),
        vec![(20, Some(1.0)), (21, Some(4.0)), (22, Some(5.0)), (23, Some(6.0))]
    );
}

#[test]
fn an_unsuccessful_response_changes_nothing() {
    let mut test = prom("http://localhost:9090/api/v1/query?query=up").unwrap();
    test.load_prometheus_response(matrix(&[(20, 1.0)])).unwrap();
    let mut failed = matrix(&[(21, 2.0)]);
    failed.status = String::from("error");
    assert_eq!(test.load_prometheus_response(failed), Ok(0));
    assert_eq!(test.series.as_vec(), vec![(20, Some(1.0))]);
}

#[test]
fn encodes_the_query_of_the_url() {
    let test = prom("http://localhost:9090/api/v1/query?query=a b{c}?d").unwrap();
    assert_eq!(test.url.to_string(), "http://localhost:9090/api/v1/query?query=a%20b%7Bc%7Dd");
}

#[test]
fn adds_the_time_range_to_range_queries() {
    let test = prom("http://localhost:9090/api/v1/query_range?query=up").unwrap();
    assert_eq!(
        test.url.to_string(),
        "http://localhost:9090/api/v1/query_range?query=up&start=1599999700&end=1600000000&step=1"
    );
}

#[test]
fn refuses_urls_without_query() {
    assert_eq!(
        prom("http://localhost:9090/api/v1/query").err(),
        Some(String::from("Unable to get url_parts, expected http://host:port/location?params"))
    );
}

#[test]
fn refuses_unsupported_protocols() {
    assert_eq!(
        prom("ftp://localhost:9090/api/v1/query?query=up").err(),
        Some(String::from("Unsupported protocol: Some(\"ftp\")"))
    );
    assert!(prom("https://localhost:9090/api/v1/query?query=up").is_ok());
}

#[test]
fn refuses_urls_that_do_not_parse() {
    let err = prom("http://local host/api/v1/query?query=up").err().unwrap();
    assert!(err.starts_with("Unable to parse URL: "));
}

#[test]
fn an_older_epoch_grows_a_vector_one_short_of_its_capacity() {
    let mut test = series(5);
    for epoch in 10..14u64 {
        test.upsert((epoch, Some(epoch as f64)));
    }
    assert_eq!(test.upsert((9, Some(9.0))), 1);
    assert_eq!(test.metrics.len(), 5);
    assert_eq!(test.active_items, 5);
    assert_eq!(
        test.as_vec(),
        vec![(9, Some(9.0)), (10, Some(10.0)), (11, Some(11.0)), (12, Some(12.0)), (13, Some(13.0))]
    );
}

#[test]
fn an_older_epoch_drops_entries_left_over_after_the_window() {
    let mut test = series(5);
    for epoch in 1..5u64 {
        test.upsert((epoch, None));
    }
    test.upsert((20, Some(20.0)));
    assert_eq!(test.active_items, 1);
    assert_eq!(test.upsert((17, Some(17.0))), 3);
    assert_eq!(test.metrics, vec![(17, Some(17.0)), (18, None), (19, None), (20, Some(20.0))]);
    assert_eq!(test.as_vec(), test.metrics);
}

#[test]
fn iterates_the_window_around_the_end_of_the_vector() {
    let mut test = series(4);
    test.upsert((13, Some(3.0)));
    test.upsert((10, Some(0.0)));
    test.upsert((11, Some(1.0)));
    test.upsert((12, None));
    test.upsert((15, Some(5.0)));
    assert_eq!(test.metrics, vec![(14, None), (15, Some(5.0)), (12, None), (13, Some(3.0))]);
    assert_eq!(test.first_idx, 2);
    assert_eq!(test.as_vec(), vec![(12, None), (13, Some(3.0)), (14, None), (15, Some(5.0))]);
    assert_eq!(test.get_first_filled(), Some(3.0));
}

#[test]
fn the_last_filled_value_may_be_the_first_entry_of_the_window() {
    let mut test = series(4);
    test.upsert((10, Some(5.0)));
    test.upsert((11, None));
    assert_eq!(test.get_last_filled(), Some(5.0));
    assert_eq!(series(4).get_last_filled(), None);
}

#[test]
fn the_newest_epoch_is_resolved_in_place() {
    let mut test = series(4);
    test.upsert((10, Some(1.0)));
    test.upsert((11, Some(2.0)));
    assert_eq!(test.upsert((11, Some(3.0))), 0);
    assert_eq!(test.as_vec(), vec![(10, Some(1.0)), (11, Some(5.0))]);
    assert!(test.stats_dirty);
}

fn request(chart_index: usize, series_index: usize, data: Option<HTTPResponse<f64>>) -> MetricRequest<f64> {
    MetricRequest {
        pull_interval: 15,
        source_url: String::from("http://localhost:9090/api/v1/query?query=up"),
        chart_index,
        series_index,
        data,
        capacity: 300,
    }
}

fn chart(last_epoch: u64) -> Vec<TimeSeriesChart<f64, Arith, Arith>> {
    vec![TimeSeriesChart {
        name: String::from("load"),
        sources: vec![
            TimeSeriesSource::AlacrittyInput(series(10)),
            TimeSeriesSource::PrometheusTimeSeries(prom("http://localhost:9090/api/v1/query?query=up").unwrap()),
            TimeSeriesSource::AsyncLoadedItems(series(10)),
        ],
        last_epoch,
        last_updated: 0,
    }]
}

fn series_of(src: &TimeSeriesSource<f64, Arith, Arith>) -> Vec<(u64, Option<f64>)> {
    match src {
        TimeSeriesSource::PrometheusTimeSeries(p) => p.series.as_vec(),
        TimeSeriesSource::AlacrittyInput(t) => t.as_vec(),
        TimeSeriesSource::AlacrittyOutput(t) => t.as_vec(),
        TimeSeriesSource::AsyncLoadedItems(t) => t.as_vec(),
    }
}

fn load(
    charts: &mut Vec<TimeSeriesChart<f64, Arith, Arith>>,
    request: MetricRequest<f64>,
    now: u64,
) -> Option<usize> {
    load_http_response(charts, request, now, |n: usize| n as f64)
}

#[test]
fn routes_a_response_to_its_series() {
    let mut charts = chart(21);
    let loaded = load(&mut charts, request(0, 1, Some(matrix(&[(20, 1.0), (21, 2.0)]))), 21);
    assert_eq!(loaded, Some(2));
    assert_eq!(series_of(&charts[0].sources[1]), vec![(20, Some(1.0)), (21, Some(2.0))]);
    assert_eq!(series_of(&charts[0].sources[0]), vec![(21, None)]);
    assert_eq!(series_of(&charts[0].sources[2]), vec![(21, Some(2.0))]);
    assert_eq!(load(&mut charts, request(0, 0, Some(matrix(&[(22, 1.0)]))), 21), Some(0));
    assert_eq!(series_of(&charts[0].sources[0]), vec![(21, None)]);
    assert_eq!(load(&mut charts, request(3, 0, Some(matrix(&[(22, 1.0)]))), 21), Some(0));
    assert_eq!(series_of(&charts[0].sources[2]), vec![(21, Some(2.0))]);
    assert_eq!(load(&mut charts, request(0, 1, None), 21), None);
    let mut failed = matrix(&[(22, 1.0)]);
    failed.status = String::from("error");
    assert_eq!(load(&mut charts, request(0, 1, Some(failed)), 21), None);
    assert_eq!(series_of(&charts[0].sources[1]), vec![(20, Some(1.0)), (21, Some(2.0))]);
    assert_eq!(series_of(&charts[0].sources[2]), vec![(21, Some(2.0))]);
}

#[test]
fn brings_every_series_of_the_chart_to_its_last_epoch() {
    let mut charts = chart(24);
    let loaded = load(&mut charts, request(0, 1, Some(matrix(&[(20, 1.0), (21, 2.0)]))), 24);
    assert_eq!(loaded, Some(2));
    assert_eq!(
        series_of(&charts[0].sources[1]),
        vec![(20, Some(1.0)), (21, Some(2.0)), (22, None), (23, None), (24, None)]
    );
    assert_eq!(series_of(&charts[0].sources[0]), vec![(24, None)]);
    assert_eq!(series_of(&charts[0].sources[2]), vec![(24, Some(2.0))]);
    charts[0].last_epoch = 26;
    charts[0].synchronize_series_epoch_range();
    assert_eq!(series_of(&charts[0].sources[0]), vec![(24, None), (25, None), (26, None)]);
    assert_eq!(charts[0].name, "load");
}

#[test]
fn counts_only_in_the_series_of_the_counter() {
    let mut charts = chart(5);
    charts[0].sources.push(TimeSeriesSource::AlacrittyOutput(series(10)));
    let mut other = chart(7);
    other[0].sources = vec![TimeSeriesSource::AlacrittyInput(series(10))];
    charts.push(other.remove(0));
    increment_internal_counter(&mut charts, "output", 6, 3.0);
    assert_eq!(series_of(&charts[0].sources[3]), vec![(5, None), (6, Some(3.0))]);
    assert_eq!(series_of(&charts[0].sources[0]), vec![(5, None)]);
    assert_eq!(series_of(&charts[1].sources[0]), Vec::<(u64, Option<f64>)>::new());
    increment_internal_counter(&mut charts, "input", 8, 1.0);
    assert_eq!(series_of(&charts[1].sources[0]), vec![(7, None), (8, Some(1.0))]);
    assert_eq!(
        series_of(&charts[0].sources[0]),
        vec![(5, None), (6, None), (7, None), (8, Some(1.0))]
    );
    assert_eq!(series_of(&charts[0].sources[2]), vec![(5, None)]);
}

#[test]
fn reloading_a_response_changes_no_entry() {
    let mut p = prom("http://localhost:9090/api/v1/query?query=up").unwrap();
    p.series = p.series.with_capacity(4);
    let res = matrix(&[(10, 1.0), (11, 2.0), (12, 3.0), (13, 4.0), (14, 5.0), (15, 6.0)]);
    assert_eq!(p.load_prometheus_response(res.clone()), Ok(6));
    let metrics = p.series.metrics.clone();
    let (first, active) = (p.series.first_idx, p.series.active_items);
    assert_eq!(p.load_prometheus_response(res), Ok(0));
    assert_eq!(p.series.metrics, metrics);
    assert_eq!((p.series.first_idx, p.series.active_items), (first, active));
    assert_eq!(p.series.as_vec(), vec![(12, Some(3.0)), (13, Some(4.0)), (14, Some(5.0)), (15, Some(6.0))]);
}

#[test]
fn brings_charts_updated_earlier_to_the_latest_update() {
    let mut charts = chart(0);
    charts[0].sources = vec![TimeSeriesSource::AlacrittyInput(series(10))];
    charts[0].last_updated = 5;
    let mut other = chart(0);
    other[0].sources = vec![TimeSeriesSource::AlacrittyOutput(series(10))];
    other[0].last_updated = 9;
    charts.push(other.remove(0));
    sync_latest_epoch(&mut charts);
    assert_eq!(series_of(&charts[0].sources[0]), vec![(9, None)]);
    assert_eq!(series_of(&charts[1].sources[0]), Vec::<(u64, Option<f64>)>::new());
    assert_eq!((charts[0].last_updated, charts[1].last_updated), (5, 9));
}
