# rs_shapefile

Reading ESRI Shapefiles (`.shp`, `.shx`, `.dbf`, `.prj`, `.cpg`), GeoJSON, GML
and Mapbox vector tiles into one shared model of geometries, shape records and
attribute values. The library's own decoding is stated as contracts and proved
by Verus; what the outside crates compute (XML tokenising, JSON parsing,
text decoding in a named encoding) enters the contracts as named results of
their inputs.

- `src/` is the verified library: the binary reader, the SHP/SHX/DBF/PRJ/CPG
  parsers, the GeoJSON, GML and vector-tile readers and the shared model.
  Numbers are kept exactly as the source delivered them (IEEE-754 bit patterns
  or decimal text), so contracts speak of integers, bytes and characters.
  Text decoding goes through `encoding_rs`, XML tokenising through `quick-xml`,
  JSON parsing through `serde_json`.
- `app/` is the unverified shell around it: opening files, writing JSON with
  `serde_json`, protobuf decoding with `prost`, error types with `thiserror`,
  and the floating-point computations (bounding boxes, lengths, areas,
  statistics, writing the GeoJSON that the library builds).
- `tests/` runs the library on concrete inputs.
