# chartacritty

Time-series charts for a terminal, as a library with verified contracts.

- `src/index.rs`, `src/point_order.rs`: lines, columns and points of the terminal grid, moving
  points in reading order, and their order.
- `src/rgb.rs`, `src/color.rs`: colours, hexadecimal colour parsing and the indexed colour table
  (named colours, the 6x6x6 cube and the grey ramp).
- `src/timeseries.rs`: the circular buffer that holds one metric entry per epoch, and its
  upsert; `src/timeseries_laws.rs` proves what an upsert does to the window of a consistent
  buffer.
- `src/prometheus.rs`: responses of the Prometheus HTTP API, the URLs the metrics are loaded
  from, and loading a response into a series; `src/loading_laws.rs` gives conditions under
  which loading is safe and proves what loading the same response twice does.
- `src/charts.rs`: the series a chart draws and bringing them to a common epoch;
  `src/requests.rs`: routing a loaded response to its chart and counting the loaded items.
- `src/missing_values.rs`, `src/selection.rs`, `src/renderer.rs`,
  `src/decorations.rs`, `src/text.rs`: smaller settings, requests and text helpers.
- `app/`: the code around the library that reads JSON and YAML, fetches metrics over HTTP,
  reads the clock and computes floating-point statistics.
