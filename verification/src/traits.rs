//! The interfaces of the reader, the writer and the merger.
use vstd::prelude::*;
use crate::error::{AppError, AppResult};
use crate::kml_builder::{kml_text, normal_style, highlight_style, style_map_for};
use crate::kml_merger::{widths_fit, file_parses, merged_document, first_failure, parse_failure_prefix};
use crate::kml_parser::{placemarks_of_kml, placemark_views, attribute_value};
use crate::kml_types::{KmlDocument, KmlFile, Placemark, Style, StyleMap, StyleSettings};
use crate::text::decimal;

verus! {

/// Reading KML files.
pub trait KmlParserTrait {
    /// Extracts the placemarks of a KML file. It fails, with an XML error,
    /// exactly when quick-xml reports an error before the end of the file.
    fn extract_placemarks(kml_file: &KmlFile) -> (r: AppResult<Vec<Placemark>>)
        ensures
            match r {
                Ok(v) => placemarks_of_kml(kml_file.content@) == Some(placemark_views(v@)),
                Err(e) => placemarks_of_kml(kml_file.content@) is None && e is XmlError,
            },
    ;

    /// The value of the first well-formed attribute named `name`, if any.
    fn get_attribute(attributes: &Vec<Option<(String, String)>>, name: &str) -> (r: Option<String>)
        ensures
            r.deep_view() == attribute_value(attributes@, name@),
    ;
}

/// Writing KML output.
pub trait KmlBuilderTrait {
    /// Writes a document as KML text; `look_at`, when given, is the camera
    /// element written after the document's name. It always succeeds.
    fn build_kml(document: &KmlDocument, look_at: &Option<String>) -> (r: AppResult<String>)
        ensures
            r matches Ok(s) && s@ == kml_text(document@, look_at.deep_view()),
    ;

    /// Makes the styles of the input file at `idx`: the normal style
    /// `normal_style_<idx>`, the highlight style `highlight_style_<idx>` whose
    /// lines are two units wider, and the style map `style_<idx>` joining them.
    fn create_styles_from_settings(idx: usize, style_settings: &StyleSettings) -> (r: (Style, Style, StyleMap))
        requires
            style_settings.line_width + 2 <= u32::MAX,
        ensures
            r.0@ == normal_style(idx as nat, style_settings@),
            r.1@ == highlight_style(idx as nat, style_settings@),
            r.2@ == style_map_for(idx as nat),
            r.0@.id == "normal_style_"@ + decimal(idx as nat),
            r.1@.id == "highlight_style_"@ + decimal(idx as nat),
            r.2@.id == "style_"@ + decimal(idx as nat),
            r.2@.normal_style_id == r.0@.id,
            r.2@.highlight_style_id == r.1@.id,
            r.0@.line_color == style_settings@.line_color,
            r.1@.line_color == style_settings@.line_color,
            r.0@.fill_color == style_settings@.fill_color,
            r.1@.fill_color == style_settings@.fill_color,
            r.0@.line_width == decimal(style_settings@.line_width as nat),
            r.1@.line_width == decimal(style_settings@.line_width as nat + 2),
    ;
}

/// Merging KML files.
pub trait KmlMergerTrait {
    /// Merges the files into one document. `styles` gives the settings for
    /// files by name; a file without an entry gets the default settings.
    /// With no files it fails with a validation error; where a file does not
    /// parse, with a parse error that names the first such file.
    fn merge_kml_files(files: &[KmlFile], styles: &[(String, StyleSettings)]) -> (r: AppResult<KmlDocument>)
        requires
            widths_fit(files@, styles@),
        ensures
            files@.len() == 0 ==> (r matches Err(AppError::ValidationError(m)) && m@
                == "No KML files provided"@),
            files@.len() > 0 && (forall|i: int| 0 <= i < files@.len() ==> file_parses(#[trigger] files@[i]))
                ==> (r matches Ok(d) && d@ == merged_document(files@, styles@)),
            files@.len() > 0 && (exists|i: int| 0 <= i < files@.len() && !file_parses(#[trigger] files@[i]))
                ==> (r matches Err(AppError::ParseError(m)) && exists|k: int, rest: Seq<char>|
                first_failure(files@, k) && #[trigger] m@ == parse_failure_prefix(files@[k].name@) + rest),
    ;
}

} // verus!
