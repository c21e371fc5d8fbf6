# biei

Renders map images on a cluster of nodes: raster tiles and static images of
MapLibre styles, with overlays.

`src/` is the library: what a node decides, computes and parses, stated in
contracts and proved. `app/` is the program around it: sockets, files, threads,
clocks and the native renderer. It also runs the simulator, which drives a
cluster of nodes with simulated renderers.

| Module | What it holds |
| --- | --- |
| `node`, `handling` | how a task is admitted, rendered, forwarded and answered |
| `http` | paths, responses, the preview page, the listeners' rules, forwarding between nodes |
| `overlay`, `decimal` | the grammar of overlays: paths, pins, polylines, GeoJSON |
| `renderer` | renderer threads and their supervision, styles, resources and their fetches |
| `render_cache`, `cache_key` | images that are kept for the next request |
| `membership`, `options`, `human_time`, `config` | the cluster and its configuration |
| `metrics` | what a node counts and observes |
| `sim` | workloads, calibrated costs, scenarios and reports |
| `figures`, `double` | numbers as reports write them, and the doubles that they are rounded from |

Points in time and spans are counted in nanoseconds. Rates, weights and
probabilities of the simulator are in thousandths.

What comes from other crates stands behind small functions whose contracts say
what is taken from them without proof; each names the function that it calls.
