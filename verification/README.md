# vtile

Vector tiles from GeoJSON and zipped shapefiles, with the rules of the API that serves them.

`src/` is a verified library: its functions carry `requires` / `ensures` contracts that Verus proves.

- `mvt` writes and reads Mapbox Vector Tiles; `command_laws` and `layer_laws` prove that what is
  written is read back.
- `tileset` prepares features, assigns them to tiles, builds each tile under a size cap and streams
  it into a sink; `run_laws` proves what holds of every run.
- `ingest` reads GeoJSON and shapefiles, repairs and normalizes them; `ingest::shapefile` also
  writes bundles, and its laws prove that they are read back.
- `api` decides what is answered to whom: authentication, tenant isolation, uploads, jobs, layers,
  tiles, replay and rollback.
- `model`, `config`, `properties`, `json`, `geometry`, `double` hold the data; `text`, `scan`,
  `sorted`, `bytes` are the tools below.

Floating-point numbers are held as their bit patterns (`double::Double`). What computes with them,
the projections and the thinning of lines, is in `app/`, next to the server, the files and the
threads.

`tests/` runs the library on concrete values.
