# KML Merger & Stylizer

A web application that merges uploaded KML files into one document, giving
the placemarks of each file their own line and fill style.

## Layout

* `src/` – the library, verified with Verus:
  * `kml_types.rs` – files, style settings, placemarks, styles, style maps, documents;
  * `xml_reader.rs` – the XML events of quick-xml's tokenizer;
  * `kml_parser.rs` – reading placemarks out of the event stream (a state machine);
  * `kml_builder.rs` – writing a document as KML text, making styles, and finding
    coordinate tuples in geometries;
  * `kml_merger.rs` – merging files into one document, and its laws;
  * `upload.rs` – the decisions taken on the fields of an upload form;
  * `patterns.rs` – regular expressions (the `regex` crate);
  * `text.rs` – numerals, character replacement, whitespace splitting;
  * `error.rs`, `traits.rs` – errors and the reader, writer and merger interfaces.
* `app/` – the actix-web server: routes, multipart reading, JSON style settings,
  and the camera view (computed in floating point).
* `tests/` – tests of the library.
