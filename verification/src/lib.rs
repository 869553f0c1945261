//! Merging and restyling of KML documents.
//!
//! The library reads the placemarks out of KML files, gives every file its
//! own line and fill style, and writes one merged KML document.
pub mod text;
pub mod kml_types;
pub mod traits;
pub mod xml_reader;
pub mod error;
pub mod kml_parser;
pub mod kml_builder;
pub mod kml_merger;
pub mod patterns;
pub mod upload;
