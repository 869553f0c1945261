use kml_merger::error::AppError;
use kml_merger::kml_builder::KmlBuilder;
use kml_merger::kml_merger::KmlMerger;
use kml_merger::kml_parser::{KmlParser, ParserState};
use kml_merger::kml_types::{KmlDocument, KmlFile, Placemark, Style, StyleMap, StyleSettings};
use kml_merger::text::{decimal_string, replace_char_str, split_words};
use kml_merger::traits::{KmlBuilderTrait, KmlMergerTrait, KmlParserTrait};
use kml_merger::xml_reader::{Tag, XmlEvent};

fn file(name: &str, content: &str) -> KmlFile {
    KmlFile { name: name.to_string(), content: content.to_string() }
}

fn settings(line: &str, width: u32, fill: &str) -> StyleSettings {
    StyleSettings { line_color: line.to_string(), line_width: width, fill_color: fill.to_string() }
}

const SAMPLE: &str = r#"<?xml version="1.0" encoding="UTF-8"?>
<kml xmlns="http://www.opengis.net/kml/2.2">
<Document>
  <name>Parcels</name>
  <Placemark>
    <name>Parcel 1</name>
    <description>First &amp; best</description>
    <ExtendedData>
      <Data name="owner"><value>Ada</value></Data>
      <Data name="area"><value>120</value></Data>
      <Data name="owner"><value>Bob</value></Data>
    </ExtendedData>
    <Polygon id="p1"><outerBoundaryIs><LinearRing><coordinates>
      30.5,40.25,0 31,41,0
    </coordinates></LinearRing></outerBoundaryIs></Polygon>
  </Placemark>
  <Placemark>
    <Point><coordinates>-1.5,2</coordinates></Point>
  </Placemark>
</Document>
</kml>"#;

#[test]
fn decimal_numerals() {
    assert_eq!(decimal_string(0), "0");
    assert_eq!(decimal_string(42), "42");
    assert_eq!(decimal_string(1234567), "1234567");
    assert_eq!(decimal_string(u64::MAX), u64::MAX.to_string());
}

#[test]
fn replace_and_split() {
    assert_eq!(replace_char_str("a\"b\"", '"', "&quot;"), "a&quot;b&quot;");
    assert_eq!(replace_char_str("", '&', "&amp;"), "");
    assert_eq!(split_words("  1,2 \n 3,4\t5 "), vec!["1,2", "3,4", "5"]);
    assert!(split_words(" \n ").is_empty());
}

#[test]
fn constructors() {
    let p = Placemark::new();
    assert_eq!(p.name, None);
    assert_eq!(p.description, None);
    assert!(p.extended_data.is_empty());
    assert_eq!(p.geometry, "");
    assert_eq!(p.style_id, "");
    let d = KmlDocument::new("Doc");
    assert_eq!(d.name, "Doc");
    assert!(d.styles.is_empty() && d.style_maps.is_empty() && d.placemarks.is_empty());
    let s = StyleSettings::default();
    assert_eq!(s.line_color, "ff0000ff");
    assert_eq!(s.line_width, 2);
    assert_eq!(s.fill_color, "7f00ff00");
}

#[test]
fn styles_from_settings() {
    let (normal, highlight, map) = KmlBuilder::create_styles_from_settings(7, &settings("ff0000ff", 3, "4400ff00"));
    assert_eq!(normal.id, "normal_style_7");
    assert_eq!(normal.line_width, "3");
    assert_eq!(normal.line_color, "ff0000ff");
    assert_eq!(normal.fill_color, "4400ff00");
    assert_eq!(highlight.id, "highlight_style_7");
    assert_eq!(highlight.line_width, "5");
    assert_eq!(highlight.line_color, "ff0000ff");
    assert_eq!(map.id, "style_7");
    assert_eq!(map.normal_style_id, "normal_style_7");
    assert_eq!(map.highlight_style_id, "highlight_style_7");
}

#[test]
fn extract_sample_placemarks() {
    let ps = KmlParser::extract_placemarks(&file("a.kml", SAMPLE)).unwrap();
    assert_eq!(ps.len(), 2);
    assert_eq!(ps[0].name.as_deref(), Some("Parcel 1"));
    assert_eq!(ps[0].description.as_deref(), Some("First & best"));
    assert_eq!(
        ps[0].extended_data,
        vec![("owner".to_string(), "Bob".to_string()), ("area".to_string(), "120".to_string())]
    );
    assert_eq!(
        ps[0].geometry,
        "<Polygon id=\"p1\"><outerBoundaryIs><LinearRing><coordinates>30.5,40.25,0 31,41,0</coordinates></LinearRing></outerBoundaryIs></Polygon>"
    );
    assert_eq!(ps[1].name, None);
    assert_eq!(ps[1].geometry, "<Point><coordinates>-1.5,2</coordinates></Point>");
    assert_eq!(ps[1].style_id, "");
}

#[test]
fn geometry_text_is_escaped_again() {
    let kml = "<Placemark><LineString><tessellate a='x&quot;y'/><note>a &lt; b &amp; c</note></LineString></Placemark>";
    let ps = KmlParser::extract_placemarks(&file("b.kml", kml)).unwrap();
    assert_eq!(ps.len(), 1);
    assert_eq!(
        ps[0].geometry,
        "<LineString><tessellate a=\"x&quot;y\" /><note>a &lt; b &amp; c</note></LineString>"
    );
}

#[test]
fn unclosed_placemark_is_dropped() {
    let ps = KmlParser::extract_placemarks(&file("c.kml", "<Placemark><name>x</name>")).unwrap();
    assert!(ps.is_empty());
}

#[test]
fn malformed_xml_is_an_xml_error() {
    let r = KmlParser::extract_placemarks(&file("d.kml", "<Placemark><name>x</Placemark>"));
    assert!(matches!(r, Err(AppError::XmlError(_))));
}

#[test]
fn attribute_lookup() {
    let attrs = vec![
        None,
        Some(("id".to_string(), "1".to_string())),
        Some(("name".to_string(), "first".to_string())),
        Some(("name".to_string(), "second".to_string())),
    ];
    assert_eq!(KmlParser::get_attribute(&attrs, "name"), Some("first".to_string()));
    assert_eq!(KmlParser::get_attribute(&attrs, "missing"), None);
}

fn tag(name: &str, attrs: Vec<Option<(String, String)>>) -> Tag {
    Tag { name: name.to_string(), attributes: attrs }
}

fn start(name: &str, attrs: Vec<Option<(String, String)>>) -> Option<XmlEvent> {
    Some(XmlEvent::Open(tag(name, attrs)))
}

fn end(name: &str) -> Option<XmlEvent> {
    Some(XmlEvent::Close(name.to_string()))
}

fn text(t: &str) -> Option<XmlEvent> {
    Some(XmlEvent::Characters(Some(t.to_string())))
}

#[test]
fn placemarks_from_event_stream() {
    let events = vec![
        start("Placemark", vec![]),
        start("ExtendedData", vec![]),
        start("Data", vec![Some(("name".to_string(), "k".to_string()))]),
        text("v"),
        end("Data"),
        end("ExtendedData"),
        start("gx:Track", vec![]),
        Some(XmlEvent::SelfClosing(tag("when", vec![]))),
        text("1<2"),
        end("gx:Track"),
        Some(XmlEvent::Other),
        end("Placemark"),
        Some(XmlEvent::EndOfFile),
        None,
    ];
    let ps = KmlParser::placemarks_from_events(&events).unwrap();
    assert_eq!(ps.len(), 1);
    assert_eq!(ps[0].extended_data, vec![("k".to_string(), "v".to_string())]);
    assert_eq!(ps[0].geometry, "<gx:Track><when />1&lt;2</gx:Track>");
    let failing = vec![start("Placemark", vec![]), None];
    assert!(KmlParser::placemarks_from_events(&failing).is_none());
    let mut state = ParserState::new();
    state.step(&XmlEvent::Open(tag("Placemark", vec![])));
    assert!(state.in_placemark);
    assert!(state.current.is_some());
}

#[test]
fn build_small_document() {
    let mut doc = KmlDocument::new("Merged KML File");
    doc.styles.push(Style {
        id: "normal_style_0".to_string(),
        line_color: "ff0000ff".to_string(),
        line_width: "2".to_string(),
        fill_color: "7f00ff00".to_string(),
    });
    doc.style_maps.push(StyleMap {
        id: "style_0".to_string(),
        normal_style_id: "normal_style_0".to_string(),
        highlight_style_id: "highlight_style_0".to_string(),
    });
    let mut p = Placemark::new();
    p.name = Some("P".to_string());
    p.extended_data.push(("k".to_string(), "v".to_string()));
    p.geometry = "<Point><coordinates>1,2</coordinates></Point>".to_string();
    p.style_id = "style_0".to_string();
    doc.placemarks.push(p);
    let out = KmlBuilder::build_kml(&doc, &Some("    <LookAt/>\n".to_string())).unwrap();
    let expected = r##"<?xml version="1.0" encoding="UTF-8"?>
<kml xmlns="http://www.opengis.net/kml/2.2">
<Document>
    <name>Merged KML File</name>
    <open>1</open>
    <LookAt/>
    <Style id="normal_style_0">
        <BalloonStyle>
        </BalloonStyle>
        <LineStyle>
            <color>ff0000ff</color>
            <width>2</width>
        </LineStyle>
        <PolyStyle>
            <color>7f00ff00</color>
            <fill>1</fill>
            <outline>1</outline>
        </PolyStyle>
    </Style>
    <StyleMap id="style_0">
        <Pair>
            <key>normal</key>
            <styleUrl>#normal_style_0</styleUrl>
        </Pair>
        <Pair>
            <key>highlight</key>
            <styleUrl>#highlight_style_0</styleUrl>
        </Pair>
    </StyleMap>
    <Placemark>
        <name>P</name>
        <styleUrl>#style_0</styleUrl>
        <ExtendedData>
            <Data name="k">
                <value>v</value>
            </Data>
        </ExtendedData>
        <Point><coordinates>1,2</coordinates></Point>
    </Placemark>
</Document>
</kml>"##;
    assert_eq!(out, expected);
    let empty = KmlBuilder::build_kml(&KmlDocument::new("E"), &None).unwrap();
    assert_eq!(
        empty,
        "<?xml version=\"1.0\" encoding=\"UTF-8\"?>\n<kml xmlns=\"http://www.opengis.net/kml/2.2\">\n<Document>\n    <name>E</name>\n    <open>1</open>\n</Document>\n</kml>"
    );
}

#[test]
fn merge_without_files_is_a_validation_error() {
    match KmlMerger::merge_kml_files(&[], &[]) {
        Err(AppError::ValidationError(m)) => assert_eq!(m, "No KML files provided"),
        _ => panic!("expected a validation error"),
    }
}

#[test]
fn merge_two_files() {
    let files = vec![
        file("a.kml", SAMPLE),
        file("b.kml", "<Placemark><name>B</name><Point><coordinates>5,6</coordinates></Point></Placemark>"),
    ];
    let styles = vec![("b.kml".to_string(), settings("ff00ff00", 4, "33000000"))];
    let doc = KmlMerger::merge_kml_files(&files, &styles).unwrap();
    assert_eq!(doc.name, "Merged KML File");
    let ids: Vec<&str> = doc.styles.iter().map(|s| s.id.as_str()).collect();
    assert_eq!(ids, vec!["normal_style_0", "highlight_style_0", "normal_style_1", "highlight_style_1"]);
    assert_eq!(doc.styles[0].line_color, "ff0000ff");
    assert_eq!(doc.styles[1].line_width, "4");
    assert_eq!(doc.styles[2].line_color, "ff00ff00");
    assert_eq!(doc.styles[3].line_width, "6");
    assert_eq!(doc.style_maps.len(), 2);
    assert_eq!(doc.style_maps[1].id, "style_1");
    let refs: Vec<&str> = doc.placemarks.iter().map(|p| p.style_id.as_str()).collect();
    assert_eq!(refs, vec!["style_0", "style_0", "style_1"]);
    assert_eq!(doc.placemarks[2].name.as_deref(), Some("B"));
}

#[test]
fn merge_reports_the_first_bad_file() {
    let files = vec![
        file("good.kml", "<Placemark/>"),
        file("bad.kml", "<a></b>"),
        file("worse.kml", "<c></d>"),
    ];
    match KmlMerger::merge_kml_files(&files, &[]) {
        Err(AppError::ParseError(m)) => {
            assert!(m.starts_with("Failed to parse file bad.kml: XML parsing error: "), "{}", m);
            assert!(m.len() > "Failed to parse file bad.kml: XML parsing error: ".len());
        }
        _ => panic!("expected a parse error"),
    }
}

#[test]
fn merged_references_resolve() {
    let files = vec![file("a.kml", SAMPLE), file("b.kml", SAMPLE), file("c.kml", SAMPLE)];
    let doc = KmlMerger::merge_kml_files(&files, &[]).unwrap();
    assert_eq!(doc.styles.len(), 6);
    for p in &doc.placemarks {
        assert_eq!(doc.style_maps.iter().filter(|m| m.id == p.style_id).count(), 1);
    }
    for (j, m) in doc.style_maps.iter().enumerate() {
        assert_eq!(doc.styles[2 * j].id, m.normal_style_id);
        assert_eq!(doc.styles[2 * j + 1].id, m.highlight_style_id);
    }
}

#[test]
fn settings_change_only_styles() {
    let files = vec![file("a.kml", SAMPLE), file("b.kml", SAMPLE)];
    let d1 = KmlMerger::merge_kml_files(&files, &[]).unwrap();
    let styles = vec![("a.kml".to_string(), settings("00000000", 9, "11111111"))];
    let d2 = KmlMerger::merge_kml_files(&files, &styles).unwrap();
    assert_eq!(format!("{:?}", d1.placemarks), format!("{:?}", d2.placemarks));
    assert_eq!(format!("{:?}", d1.style_maps), format!("{:?}", d2.style_maps));
    assert_ne!(format!("{:?}", d1.styles), format!("{:?}", d2.styles));
}

#[test]
fn width_check() {
    let files = vec![file("a.kml", "<x/>"), file("bad.kml", "<a></b>"), file("c.kml", "<x/>")];
    let wide = settings("a", u32::MAX, "b");
    assert!(KmlMerger::styles_fit(&files, &[("c.kml".to_string(), wide.clone())]));
    assert!(!KmlMerger::styles_fit(&files, &[("a.kml".to_string(), wide.clone())]));
    assert!(KmlMerger::styles_fit(&files, &[("a.kml".to_string(), settings("a", u32::MAX - 2, "b"))]));
}

#[test]
fn coordinate_pairs_of_geometries() {
    let ps = KmlParser::extract_placemarks(&file("a.kml", SAMPLE)).unwrap();
    let pairs = KmlBuilder::coordinate_pairs(&ps).unwrap();
    let expected: Vec<(String, String)> = vec![("30.5", "40.25"), ("31", "41"), ("-1.5", "2")]
        .into_iter()
        .map(|(a, b)| (a.to_string(), b.to_string()))
        .collect();
    assert_eq!(pairs, expected);
    let mut p = Placemark::new();
    p.geometry = "<coordinates>x,y 7,8</coordinates><coordinates>9,10,11</coordinates>".to_string();
    assert_eq!(
        KmlBuilder::coordinate_pairs(&vec![p]).unwrap(),
        vec![("7".to_string(), "8".to_string()), ("9".to_string(), "10".to_string())]
    );
}

#[test]
fn error_messages_and_statuses() {
    let v = AppError::ValidationError("bad".to_string());
    assert_eq!(v.message(), "Validation error: bad");
    assert_eq!(v.status_code(), 400);
    let p = AppError::ParseError("worse".to_string());
    assert_eq!(p.message(), "Parse error: worse");
    assert_eq!(p.status_code(), 400);
    let io = AppError::IoError(std::io::Error::new(std::io::ErrorKind::Other, "disk"));
    assert_eq!(io.message(), "I/O error: disk");
    assert_eq!(io.status_code(), 500);
    match KmlParser::extract_placemarks(&file("x.kml", "<a></b>")) {
        Err(e) => {
            assert_eq!(e.status_code(), 500);
            let m = e.message();
            assert!(m.starts_with("XML parsing error: ") && m.len() > 19);
        }
        Ok(_) => panic!("expected an error"),
    }
}

#[test]
fn written_kml_reads_back() {
    let files = vec![file("a.kml", SAMPLE)];
    let doc = KmlMerger::merge_kml_files(&files, &[]).unwrap();
    let text = KmlBuilder::build_kml(&doc, &None).unwrap();
    let again = KmlParser::extract_placemarks(&file("merged.kml", &text)).unwrap();
    assert_eq!(again.len(), doc.placemarks.len());
    for (a, b) in again.iter().zip(doc.placemarks.iter()) {
        assert_eq!(a.name, b.name);
        assert_eq!(a.geometry, b.geometry);
        assert_eq!(a.extended_data, b.extended_data);
    }
}

#[test]
fn data_without_name_is_ignored() {
    let kml = "<Placemark><ExtendedData><Data><value>x</value></Data><Data name=\"\"><value>y</value></Data></ExtendedData></Placemark>";
    let ps = KmlParser::extract_placemarks(&file("e.kml", kml)).unwrap();
    assert_eq!(ps.len(), 1);
    assert!(ps[0].extended_data.is_empty());
}

#[test]
fn errors_convert() {
    let e: AppError = std::io::Error::new(std::io::ErrorKind::Other, "x").into();
    assert!(matches!(e, AppError::IoError(_)));
    let bad = KmlParser::extract_placemarks(&file("x.kml", "<a></b>"));
    if let Err(AppError::XmlError(inner)) = bad {
        let e: AppError = inner.into();
        assert!(matches!(e, AppError::XmlError(_)));
    } else {
        panic!("expected an XML error");
    }
}

#[test]
fn files_reached_by_a_merge() {
    let good = file("a.kml", "<x/>");
    let bad = file("bad.kml", "<a></b>");
    assert_eq!(KmlMerger::files_reached(&[]), 0);
    assert_eq!(KmlMerger::files_reached(&[good.clone(), good.clone()]), 2);
    assert_eq!(KmlMerger::files_reached(&[good.clone(), bad.clone(), good.clone()]), 2);
    assert_eq!(KmlMerger::files_reached(&[bad, good]), 1);
}
