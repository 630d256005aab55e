use chartacritty::prometheus::{
    HTTPMatrixResult, HTTPResponse, HTTPResponseData, HTTPVectorResult, JsonValue, PrometheusTimeSeries,
};
use chartacritty::rgb::Rgb;
use chartacritty::timeseries::{TimeSeries, UpsertType, ValueCollisionPolicy};

type Arith = fn(f64, f64) -> f64;
type Prom = PrometheusTimeSeries<f64, Arith, Arith>;

const NOW: u64 = 1_600_000_000;

fn plus(a: f64, b: f64) -> f64 {
    a + b
}

fn minus(a: f64, b: f64) -> f64 {
    a - b
}

fn prom(url: &str, data_type: &str, labels: Vec<(String, String)>) -> Result<Prom, String> {
    PrometheusTimeSeries::new(
        String::from(url),
        15,
        String::from(data_type),
        labels,
        NOW,
        plus as Arith,
        minus as Arith,
    )
}

/// A JSON number: read as an epoch, not as a sample.
fn number(epoch: u64) -> JsonValue<f64> {
    JsonValue { epoch: Some(epoch), number: None }
}

/// A JSON string holding a number: read as a sample, not as an epoch.
fn text(sample: f64) -> JsonValue<f64> {
    JsonValue { epoch: None, number: Some(sample) }
}

fn labels(pairs: &[(&str, &str)]) -> Vec<(String, String)> {
    pairs.iter().map(|(k, v)| (String::from(*k), String::from(*v))).collect()
}

fn success(data: HTTPResponseData<f64>) -> HTTPResponse<f64> {
    HTTPResponse { data, status: String::from("success") }
}

fn matrix(metric: Vec<(String, String)>, values: &[(u64, f64)]) -> HTTPResponse<f64> {
    success(HTTPResponseData::Matrix {
        result: vec![HTTPMatrixResult {
            labels: metric,
            values: values.iter().map(|(e, v)| vec![number(*e), text(*v)]).collect(),
        }],
    })
}

fn node_exporter(name: &str) -> Vec<(String, String)> {
    labels(&[("__name__", name), ("instance", "localhost:9100"), ("job", "node_exporter")])
}

fn vector_of(entries: &[(Vec<(String, String)>, Vec<JsonValue<f64>>)]) -> HTTPResponse<f64> {
    success(HTTPResponseData::Vector {
        result: entries
            .iter()
            .map(|(l, v)| HTTPVectorResult { labels: l.clone(), value: v.clone() })
            .collect(),
    })
}

fn loaded_series(
    name: &str,
    metrics: Vec<(u64, Option<f64>)>,
    metrics_capacity: usize,
    active_items: usize,
) -> Prom {
    Prom {
        name: String::from(name),
        series: TimeSeries {
            metrics,
            metrics_capacity,
            collision_policy: ValueCollisionPolicy::Overwrite,
            first_idx: 0,
            active_items,
            prev_snapshot: vec![],
            prev_value: (1604568602, Some(6.0)),
            upsert_type: UpsertType::NewEpoch,
            stats_dirty: false,
            increment: plus as Arith,
            decrement: minus as Arith,
        },
        data: HTTPResponseData::Vector { result: vec![HTTPVectorResult { labels: vec![], value: vec![] }] },
        source: String::from("http://localhost:9090/api/v1/query_range?query=node_memory_bytes_total"),
        url: "/".parse::<hyper::Uri>().unwrap(),
        data_type: String::from(""),
        required_labels: vec![],
        pull_interval: 15,
        color: Rgb { r: 207, g: 102, b: 121 },
    }
}

#[test]
fn it_skips_prometheus_errors() {
    let test0_res = prom(
        "http://localhost:9090/api/v1/query_range?query=node_load1&start=1558253499&end=1558253479&step=1",
        "matrix",
        vec![],
    );
    assert!(test0_res.is_ok());
    let mut test0 = test0_res.unwrap();
    let error_response = HTTPResponse {
        data: HTTPResponseData::Vector { result: vec![] },
        status: String::from("error"),
    };
    assert_eq!(test0.load_prometheus_response(error_response), Ok(0usize));
    assert!(test0.series.as_vec().is_empty());
}

#[test]
fn it_loads_prometheus_scalars() {
    let test0_res = prom("http://localhost:9090/api/v1/query?query=1", "scalar", vec![]);
    assert!(test0_res.is_ok());
    let mut test0 = test0_res.unwrap();
    let res0 = success(HTTPResponseData::Scalar { result: vec![number(1558283674), text(1.0)] });
    assert_eq!(test0.load_prometheus_response(res0), Ok(1usize));
    let res1 = success(HTTPResponseData::Scalar { result: vec![number(1558283674)] });
    assert_eq!(test0.load_prometheus_response(res1), Ok(0usize));
}

#[test]
fn it_loads_prometheus_matrix() {
    let test0_res = prom(
        "http://localhost:9090/api/v1/query_range?query=node_load1&start=1558253469&end=1558253479&step=1",
        "matrix",
        vec![],
    );
    assert!(test0_res.is_ok());
    let mut test0 = test0_res.unwrap();
    test0.series = test0.series.with_capacity(15usize);
    let first: Vec<(u64, f64)> = vec![
        (1558253469, 1.69),
        (1558253470, 1.70),
        (1558253471, 1.71),
        (1558253472, 1.72),
        (1558253473, 1.73),
        (1558253474, 1.74),
        (1558253475, 1.75),
        (1558253476, 1.76),
        (1558253477, 1.77),
        (1558253478, 1.78),
        (1558253479, 1.79),
    ];
    let res0_load = test0.load_prometheus_response(matrix(node_exporter("node_load1"), &first));
    assert_eq!(res0_load, Ok(11usize));
    let loaded_data = test0.series.as_vec();
    assert_eq!(loaded_data[0], (1558253469, Some(1.69f64)));
    assert_eq!(loaded_data[1], (1558253470, Some(1.70f64)));
    assert_eq!(loaded_data[5], (1558253474, Some(1.74f64)));
    let second: Vec<(u64, f64)> = vec![
        (1558253471, 1.71),
        (1558253472, 1.72),
        (1558253473, 1.73),
        (1558253474, 1.74),
        (1558253475, 1.75),
        (1558253476, 1.76),
        (1558253477, 1.77),
        (1558253478, 1.78),
        (1558253479, 1.79),
        (1558253480, 1.80),
        (1558253481, 1.81),
        (1558253482, 1.82),
        (1558253483, 1.83),
        (1558253484, 1.84),
        (1558253485, 1.85),
        (1558253486, 1.86),
    ];
    let res1 = matrix(node_exporter("node_load1"), &second);
    let res1_load = test0.load_prometheus_response(res1.clone());
    assert_eq!(res1_load, Ok(7usize));
    let res1_load = test0.load_prometheus_response(res1);
    assert_eq!(res1_load, Ok(0usize));
    let loaded_data = test0.series.metrics.clone();
    assert_eq!(loaded_data[0], (1558253484, Some(1.84f64)));
    assert_eq!(loaded_data[3], (1558253472, Some(1.72f64)));
    assert_eq!(loaded_data[5], (1558253474, Some(1.74f64)));
    let res2 = success(HTTPResponseData::Matrix {
        result: vec![HTTPMatrixResult {
            labels: node_exporter("node_load1"),
            values: vec![vec![number(1558253478)]],
        }],
    });
    assert_eq!(test0.load_prometheus_response(res2), Ok(0usize));
}

#[test]
fn it_calculates_stats() {
    let test0_res = prom("http://localhost:9090/api/v1/query?query=up", "vector", vec![]);
    assert!(test0_res.is_ok());
    let mut test0 = test0_res.unwrap();
    let mut values: Vec<(u64, f64)> = vec![];
    for (i, epoch) in (1566918913u64..1566918937).enumerate() {
        let value = [4.5, 4.25, 4.0, 4.75][i / 6];
        values.push((epoch, value));
    }
    let res1_load = test0.load_prometheus_response(matrix(node_exporter("node_load1"), &values));
    assert_eq!(res1_load, Ok(24usize));
    let expected: Vec<(u64, Option<f64>)> = values.iter().map(|(e, v)| (*e, Some(*v))).collect();
    assert_eq!(test0.series.as_vec(), expected);
    assert_eq!(test0.series.get_first_filled(), Some(4.5));
    assert_eq!(test0.series.get_last_filled(), Some(4.75));
    let window = test0.series.as_vec();
    let filled: Vec<f64> = window.iter().filter_map(|e| e.1).collect();
    let test0_sum = 4.5 * 6. + 4.25 * 6. + 4. * 6. + 4.75 * 6.;
    assert_eq!(filled.len(), 24);
    assert_eq!(window.iter().map(|e| e.0).max(), Some(1566918936));
    assert_eq!(filled.iter().sum::<f64>(), test0_sum);
    assert_eq!(filled.iter().cloned().fold(f64::MIN, f64::max), 4.75);
    assert_eq!(filled.iter().cloned().fold(f64::MAX, f64::min), 4.);
}

#[test]
fn it_loads_prometheus_vector() {
    let mut metric_labels: Vec<(String, String)> = vec![];
    let test0_res = prom("http://localhost:9090/api/v1/query?query=up", "vector", metric_labels.clone());
    assert!(test0_res.is_ok());
    let mut test0 = test0_res.unwrap();
    let prometheus = labels(&[("__name__", "up"), ("instance", "localhost:9090"), ("job", "prometheus")]);
    let node = labels(&[("__name__", "up"), ("instance", "localhost:9100"), ("job", "node_exporter")]);
    let res0 = vector_of(&[
        (prometheus.clone(), vec![number(1557571137), text(1.0)]),
        (node.clone(), vec![number(1557571138), text(1.0)]),
    ]);
    assert_eq!(test0.load_prometheus_response(res0), Ok(2usize));
    assert_eq!(test0.series.as_vec(), vec![(1557571137u64, Some(1.)), (1557571138u64, Some(1.))]);
    let res1 = vector_of(&[
        (prometheus.clone(), vec![number(1557571139), text(1.0)]),
        (node.clone(), vec![number(1557571140), text(1.0)]),
    ]);
    metric_labels.push((String::from("job"), String::from("prometheus")));
    metric_labels.push((String::from("instance"), String::from("localhost:9090")));
    test0.required_labels = metric_labels.clone();
    assert_eq!(test0.load_prometheus_response(res1), Ok(1usize));
    assert_eq!(
        test0.series.as_vec(),
        vec![(1557571137u64, Some(1.)), (1557571138u64, Some(1.)), (1557571139u64, Some(1.))]
    );
    let res2 = vector_of(&[
        (prometheus.clone(), vec![number(1557571141), text(1.0)]),
        (node.clone(), vec![number(1557571142), text(1.0)]),
    ]);
    metric_labels.push((String::from("__name__"), String::from("down")));
    test0.required_labels = metric_labels;
    assert_eq!(test0.load_prometheus_response(res2), Ok(0usize));
    assert_eq!(
        test0.series.as_vec(),
        vec![(1557571137u64, Some(1.)), (1557571138u64, Some(1.)), (1557571139u64, Some(1.))]
    );
    let res3 = vector_of(&[(node_exporter("node_load1"), vec![number(1558253478)])]);
    assert_eq!(test0.load_prometheus_response(res3), Ok(0usize));
}

#[test]
fn it_does_not_duplicate_epochs() {
    let mut test = loaded_series(
        "load average 1 min",
        vec![
            (1571511822, Some(1.8359375)),
            (1571511823, Some(1.8359375)),
            (1571511824, Some(1.8359375)),
            (1571511825, Some(1.8359375)),
            (1571511826, Some(1.8359375)),
        ],
        30,
        5,
    );
    let values: Vec<(u64, f64)> = vec![
        (1571511822, 1.8359322),
        (1571511823, 1.8359323),
        (1571511824, 1.8359324),
        (1571511825, 1.8359325),
        (1571511826, 1.8359326),
        (1571511827, 1.8359327),
        (1571511828, 1.8359328),
        (1571511829, 1.8359329),
        (1571511830, 1.8359330),
        (1571511831, 1.8359331),
    ];
    let res1_load = test.load_prometheus_response(matrix(node_exporter("node_load1"), &values));
    assert_eq!(res1_load, Ok(5usize));
    assert_eq!(test.series.active_items, 10usize);
    let expected: Vec<(u64, Option<f64>)> = values.iter().map(|(e, v)| (*e, Some(*v))).collect();
    assert_eq!(test.series.as_vec(), expected);
}

#[test]
fn it_does_not_lose_synchrony() {
    let metrics: Vec<(u64, Option<f64>)> = vec![
        (1583092654, None),
        (1583091367, Some(5.5908203125)),
        (1583091368, Some(5.5908203125)),
        (1583091369, Some(5.5908203125)),
        (1583091370, Some(5.5908203125)),
        (1583091371, Some(5.5908203125)),
        (1583091372, Some(5.5908203125)),
        (1583091373, Some(5.5908203125)),
        (1583091374, Some(5.5908203125)),
        (1583091375, Some(5.5908203125)),
        (1583091376, Some(5.5908203125)),
        (1583091377, Some(5.5908203125)),
        (1583091378, Some(5.3662109375)),
        (1583091379, Some(5.3662109375)),
        (1583091380, Some(5.3662109375)),
        (1583091381, Some(5.3662109375)),
        (1583091382, Some(5.3662109375)),
        (1583091383, Some(5.3662109375)),
        (1583091384, Some(5.3662109375)),
        (1583091385, Some(5.3662109375)),
        (1583091386, Some(5.3662109375)),
        (1583091387, Some(5.3662109375)),
        (1583091388, Some(5.3662109375)),
        (1583091389, Some(5.3662109375)),
        (1583091390, Some(5.3662109375)),
        (1583091391, Some(5.3662109375)),
        (1583091392, Some(5.3662109375)),
        (1583091393, Some(5.427734375)),
        (1583091394, Some(5.427734375)),
        (1583091395, Some(5.427734375)),
        (1583091396, Some(5.427734375)),
        (1583091397, Some(5.427734375)),
        (1583091398, Some(5.427734375)),
        (1583091399, Some(5.427734375)),
        (1583091400, Some(5.427734375)),
        (1583091401, Some(5.427734375)),
        (1583091402, Some(5.427734375)),
        (1583091403, Some(5.427734375)),
        (1583091404, Some(5.427734375)),
        (1583091405, Some(5.427734375)),
        (1583091406, Some(5.427734375)),
        (1583091407, Some(5.427734375)),
        (1583091408, Some(5.22607421875)),
        (1583091409, Some(5.22607421875)),
        (1583091410, Some(5.22607421875)),
        (1583091411, Some(5.22607421875)),
        (1583091412, Some(5.22607421875)),
        (1583091413, Some(5.22607421875)),
        (1583091414, Some(5.22607421875)),
        (1583091415, Some(5.22607421875)),
        (1583091416, Some(5.22607421875)),
        (1583091417, Some(5.22607421875)),
        (1583091418, Some(5.22607421875)),
        (1583091419, Some(5.22607421875)),
        (1583091420, Some(5.22607421875)),
        (1583091421, Some(5.22607421875)),
        (1583091422, Some(5.22607421875)),
        (1583091423, Some(5.103515625)),
        (1583091424, Some(5.103515625)),
        (1583091425, Some(5.103515625)),
        (1583091426, Some(5.103515625)),
        (1583091427, Some(5.103515625)),
        (1583091428, Some(5.103515625)),
        (1583091429, Some(5.103515625)),
        (1583091430, Some(5.103515625)),
        (1583091431, Some(5.103515625)),
        (1583091432, Some(5.103515625)),
        (1583091433, Some(5.103515625)),
        (1583091434, Some(5.103515625)),
        (1583091435, Some(5.103515625)),
        (1583091436, Some(5.103515625)),
        (1583091437, Some(5.103515625)),
        (1583091438, Some(5.08056640625)),
        (1583091439, Some(5.08056640625)),
        (1583091440, Some(5.08056640625)),
        (1583091141, Some(8.09912109375)),
        (1583091142, Some(8.09912109375)),
        (1583091143, Some(8.09912109375)),
        (1583091144, Some(8.09912109375)),
        (1583091145, Some(8.09912109375)),
        (1583091146, Some(8.09912109375)),
        (1583091147, Some(8.09912109375)),
        (1583091148, Some(8.09912109375)),
        (1583091149, Some(8.09912109375)),
        (1583091150, Some(8.09912109375)),
        (1583091151, Some(8.09912109375)),
        (1583091152, Some(8.09912109375)),
        (1583091153, Some(7.78271484375)),
        (1583091154, Some(7.78271484375)),
        (1583091155, Some(7.78271484375)),
        (1583091156, Some(7.78271484375)),
        (1583091157, Some(7.78271484375)),
        (1583091158, Some(7.78271484375)),
        (1583091159, Some(7.78271484375)),
        (1583091160, Some(7.78271484375)),
        (1583091161, Some(7.78271484375)),
        (1583091162, Some(7.78271484375)),
        (1583091163, Some(7.78271484375)),
        (1583091164, Some(7.78271484375)),
        (1583091165, Some(7.78271484375)),
        (1583091166, Some(7.78271484375)),
        (1583091167, Some(7.78271484375)),
        (1583091168, Some(7.49853515625)),
        (1583091169, Some(7.49853515625)),
        (1583091170, Some(7.49853515625)),
        (1583091171, Some(7.49853515625)),
        (1583091172, Some(7.49853515625)),
        (1583091173, Some(7.49853515625)),
        (1583091174, Some(7.49853515625)),
        (1583091175, Some(7.49853515625)),
        (1583091176, Some(7.49853515625)),
        (1583091177, Some(7.49853515625)),
        (1583091178, Some(7.49853515625)),
        (1583091179, Some(7.49853515625)),
        (1583091180, Some(7.49853515625)),
        (1583091181, Some(7.49853515625)),
        (1583091182, Some(7.49853515625)),
        (1583091183, Some(7.16357421875)),
        (1583091184, Some(7.16357421875)),
        (1583091185, Some(7.16357421875)),
        (1583091186, Some(7.16357421875)),
        (1583091187, Some(7.16357421875)),
        (1583091188, Some(7.16357421875)),
        (1583091189, Some(7.16357421875)),
        (1583091190, Some(7.16357421875)),
        (1583091191, Some(7.16357421875)),
        (1583091192, Some(7.16357421875)),
        (1583091193, Some(7.16357421875)),
        (1583091194, Some(7.16357421875)),
        (1583091195, Some(7.16357421875)),
        (1583091196, Some(7.16357421875)),
        (1583091197, Some(7.16357421875)),
        (1583091198, Some(6.9267578125)),
        (1583091199, Some(6.9267578125)),
        (1583091200, Some(6.9267578125)),
        (1583091201, Some(6.9267578125)),
        (1583091202, Some(6.9267578125)),
        (1583091203, Some(6.9267578125)),
        (1583091204, Some(6.9267578125)),
        (1583091205, Some(6.9267578125)),
        (1583091206, Some(6.9267578125)),
        (1583091207, Some(6.9267578125)),
        (1583091208, Some(6.9267578125)),
        (1583091209, Some(6.9267578125)),
        (1583091210, Some(6.9267578125)),
        (1583091211, Some(6.9267578125)),
        (1583091212, Some(6.9267578125)),
        (1583091213, Some(6.701171875)),
        (1583091214, Some(6.701171875)),
        (1583091215, Some(6.701171875)),
        (1583091216, Some(6.701171875)),
        (1583091217, Some(6.701171875)),
        (1583091218, Some(6.701171875)),
        (1583091219, Some(6.701171875)),
        (1583091220, Some(6.701171875)),
        (1583091221, Some(6.701171875)),
        (1583091222, Some(6.701171875)),
        (1583091223, Some(6.701171875)),
        (1583091224, Some(6.701171875)),
        (1583091225, Some(6.701171875)),
        (1583091226, Some(6.701171875)),
        (1583091227, Some(6.701171875)),
        (1583091228, Some(6.50244140625)),
        (1583091229, Some(6.50244140625)),
        (1583091230, Some(6.50244140625)),
        (1583091231, Some(6.50244140625)),
        (1583091232, Some(6.50244140625)),
        (1583091233, Some(6.50244140625)),
        (1583091234, Some(6.50244140625)),
        (1583091235, Some(6.50244140625)),
        (1583091236, Some(6.50244140625)),
        (1583091237, Some(6.50244140625)),
        (1583091238, Some(6.50244140625)),
        (1583091239, Some(6.50244140625)),
        (1583091240, Some(6.50244140625)),
        (1583091241, Some(6.50244140625)),
        (1583091242, Some(6.50244140625)),
        (1583091243, Some(6.31298828125)),
        (1583091244, Some(6.31298828125)),
        (1583091245, Some(6.31298828125)),
        (1583091246, Some(6.31298828125)),
        (1583091247, Some(6.31298828125)),
        (1583091248, Some(6.31298828125)),
        (1583091249, Some(6.31298828125)),
        (1583091250, Some(6.31298828125)),
        (1583091251, Some(6.31298828125)),
        (1583091252, Some(6.31298828125)),
        (1583091253, Some(6.31298828125)),
        (1583091254, Some(6.31298828125)),
        (1583091255, Some(6.31298828125)),
        (1583091256, Some(6.31298828125)),
        (1583091257, Some(6.31298828125)),
        (1583091258, Some(6.2666015625)),
        (1583091259, Some(6.2666015625)),
        (1583091260, Some(6.2666015625)),
        (1583091261, Some(6.2666015625)),
        (1583091262, Some(6.2666015625)),
        (1583091263, Some(6.2666015625)),
        (1583091264, Some(6.2666015625)),
        (1583091265, Some(6.2666015625)),
        (1583091266, Some(6.2666015625)),
        (1583091267, Some(6.2666015625)),
        (1583091268, Some(6.2666015625)),
        (1583091269, Some(6.2666015625)),
        (1583091270, Some(6.2666015625)),
        (1583091271, Some(6.2666015625)),
        (1583091272, Some(6.2666015625)),
        (1583091273, Some(6.07177734375)),
        (1583091274, Some(6.07177734375)),
        (1583091275, Some(6.07177734375)),
        (1583091276, Some(6.07177734375)),
        (1583091277, Some(6.07177734375)),
        (1583091278, Some(6.07177734375)),
        (1583091279, Some(6.07177734375)),
        (1583091280, Some(6.07177734375)),
        (1583091281, Some(6.07177734375)),
        (1583091282, Some(6.07177734375)),
        (1583091283, Some(6.07177734375)),
        (1583091284, Some(6.07177734375)),
        (1583091285, Some(6.07177734375)),
        (1583091286, Some(6.07177734375)),
        (1583091287, Some(6.07177734375)),
        (1583091288, Some(5.8720703125)),
        (1583091289, Some(5.8720703125)),
        (1583091290, Some(5.8720703125)),
        (1583091291, Some(5.8720703125)),
        (1583091292, Some(5.8720703125)),
        (1583091293, Some(5.8720703125)),
        (1583091294, Some(5.8720703125)),
        (1583091295, Some(5.8720703125)),
        (1583091296, Some(5.8720703125)),
        (1583091297, Some(5.8720703125)),
        (1583091298, Some(5.8720703125)),
        (1583091299, Some(5.8720703125)),
        (1583091300, Some(5.8720703125)),
        (1583091301, Some(5.8720703125)),
        (1583091302, Some(5.8720703125)),
        (1583091303, Some(5.6494140625)),
        (1583091304, Some(5.6494140625)),
        (1583091305, Some(5.6494140625)),
        (1583091306, Some(5.6494140625)),
        (1583091307, Some(5.6494140625)),
        (1583091308, Some(5.6494140625)),
        (1583091309, Some(5.6494140625)),
        (1583091310, Some(5.6494140625)),
        (1583091311, Some(5.6494140625)),
        (1583091312, Some(5.6494140625)),
        (1583091313, Some(5.6494140625)),
        (1583091314, Some(5.6494140625)),
        (1583091315, Some(5.6494140625)),
        (1583091316, Some(5.6494140625)),
        (1583091317, Some(5.6494140625)),
        (1583091318, Some(5.4853515625)),
        (1583091319, Some(5.4853515625)),
        (1583091320, Some(5.4853515625)),
        (1583091321, Some(5.4853515625)),
        (1583091322, Some(5.4853515625)),
        (1583091323, Some(5.4853515625)),
        (1583091324, Some(5.4853515625)),
        (1583091325, Some(5.4853515625)),
        (1583091326, Some(5.4853515625)),
        (1583091327, Some(5.4853515625)),
        (1583091328, Some(5.4853515625)),
        (1583091329, Some(5.4853515625)),
        (1583091330, Some(5.4853515625)),
        (1583091331, Some(5.4853515625)),
        (1583091332, Some(5.4853515625)),
        (1583091333, Some(5.28125)),
        (1583091334, Some(5.28125)),
        (1583091335, Some(5.28125)),
        (1583091336, Some(5.28125)),
        (1583091337, Some(5.28125)),
        (1583091338, Some(5.28125)),
        (1583091339, Some(5.28125)),
        (1583091340, Some(5.28125)),
        (1583091341, Some(5.28125)),
        (1583091342, Some(5.28125)),
        (1583091343, Some(5.28125)),
        (1583091344, Some(5.28125)),
        (1583091345, Some(5.28125)),
        (1583091346, Some(5.28125)),
        (1583091347, Some(5.28125)),
        (1583091348, Some(5.18505859375)),
        (1583091349, Some(5.18505859375)),
        (1583091350, Some(5.18505859375)),
        (1583091351, Some(5.18505859375)),
        (1583091352, Some(5.18505859375)),
        (1583091353, Some(5.18505859375)),
        (1583091354, Some(5.18505859375)),
        (1583091355, Some(5.18505859375)),
        (1583091356, Some(5.18505859375)),
        (1583091357, Some(5.18505859375)),
        (1583091358, Some(5.18505859375)),
        (1583091359, Some(5.18505859375)),
        (1583091360, Some(5.18505859375)),
        (1583091361, Some(5.18505859375)),
        (1583091362, Some(5.18505859375)),
        (1583091363, Some(5.5908203125)),
        (1583091364, Some(5.5908203125)),
        (1583091365, Some(5.5908203125)),
    ];
    let mut test = loaded_series("load average 5 min", metrics, 300, 1);
    assert_eq!(test.series.metrics.len(), 300usize);
    let values: Vec<(u64, f64)> =
        vec![(1583092652, 5.0283203125), (1583092653, 5.0283203125), (1583092654, 5.0283203125)];
    let res1_load = test.load_prometheus_response(matrix(node_exporter("node_load5"), &values));
    assert_eq!(res1_load, Ok(2usize));
    assert_eq!(test.series.active_items, 3usize);
    assert_eq!(test.series.metrics[0], (1583092654, Some(5.0283203125)));
    assert_eq!(test.series.metrics[299], (1583092653, Some(5.0283203125)));
    assert_eq!(test.series.metrics[298], (1583092652, Some(5.0283203125)));
    assert_eq!(test.series.first_idx, 298usize);
    assert_eq!(test.series.active_items, 3usize);
    assert_eq!(
        test.series.as_vec(),
        vec![
            (1583092652, Some(5.0283203125)),
            (1583092653, Some(5.0283203125)),
            (1583092654, Some(5.0283203125))
        ]
    );
}
