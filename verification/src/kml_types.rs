//! The data that the reader, the merger and the writer exchange: input
//! files, style settings, placemarks, styles, style maps and documents.
use vstd::prelude::*;

verus! {

/// A KML file: its name and its raw content.
#[derive(Debug, Clone)]
pub struct KmlFile {
    /// File name
    pub name: String,
    /// Raw KML content of the file
    pub content: String,
}

/// Style settings chosen for one input file.
#[derive(Debug, Clone)]
pub struct StyleSettings {
    /// Line colour in KML form (aabbggrr)
    pub line_color: String,
    /// Line width
    pub line_width: u32,
    /// Fill colour in KML form (aabbggrr)
    pub fill_color: String,
}

/// What style settings hold.
#[verifier::ext_equal]
pub struct StyleSettingsView {
    pub line_color: Seq<char>,
    pub line_width: u32,
    pub fill_color: Seq<char>,
}

impl View for StyleSettings {
    type V = StyleSettingsView;

    open spec fn view(&self) -> StyleSettingsView {
        StyleSettingsView {
            line_color: self.line_color@,
            line_width: self.line_width,
            fill_color: self.fill_color@,
        }
    }
}

/// The settings used for a file that has none of its own: fully opaque red
/// lines (`ff0000ff` in aabbggrr order) of width 2 and a half-transparent
/// green fill (`7f00ff00`).
pub open spec fn default_style_settings() -> StyleSettingsView {
    StyleSettingsView {
        line_color: seq!['f', 'f', '0', '0', '0', '0', 'f', 'f'],
        line_width: 2,
        fill_color: seq!['7', 'f', '0', '0', 'f', 'f', '0', '0'],
    }
}

impl Default for StyleSettings {
    fn default() -> (s: Self)
        ensures
            s@ == default_style_settings(),
    {
        let line_color = String::from_str("ff0000ff");
        let fill_color = String::from_str("7f00ff00");
        proof {
            reveal_strlit("ff0000ff");
            reveal_strlit("7f00ff00");
        }
        let s = StyleSettings { line_color, line_width: 2, fill_color };
        assert(s@.line_color =~= default_style_settings().line_color);
        assert(s@.fill_color =~= default_style_settings().fill_color);
        s
    }
}

/// What a placemark holds, as sequences of characters.
#[verifier::ext_equal]
pub struct PlacemarkView {
    pub name: Option<Seq<char>>,
    pub description: Option<Seq<char>>,
    pub extended_data: Seq<(Seq<char>, Seq<char>)>,
    pub geometry: Seq<char>,
    pub style_id: Seq<char>,
}

/// A KML Placemark element.
#[derive(Debug, Clone)]
pub struct Placemark {
    /// Optional name of the placemark
    pub name: Option<String>,
    /// Optional description of the placemark
    pub description: Option<String>,
    /// Extended data as key/value pairs; no key occurs twice
    pub extended_data: Vec<(String, String)>,
    /// Geometry as XML text
    pub geometry: String,
    /// Identifier of the style the placemark uses
    pub style_id: String,
}

impl View for Placemark {
    type V = PlacemarkView;

    open spec fn view(&self) -> PlacemarkView {
        PlacemarkView {
            name: self.name.deep_view(),
            description: self.description.deep_view(),
            extended_data: self.extended_data.deep_view(),
            geometry: self.geometry@,
            style_id: self.style_id@,
        }
    }
}

/// A placemark with no name, description, data, geometry or style.
pub open spec fn empty_placemark() -> PlacemarkView {
    PlacemarkView {
        name: None,
        description: None,
        extended_data: Seq::empty(),
        geometry: Seq::empty(),
        style_id: Seq::empty(),
    }
}

impl Placemark {
    /// Creates an empty placemark.
    pub fn new() -> (p: Self)
        ensures
            p@ == empty_placemark(),
    {
        let p = Placemark {
            name: None,
            description: None,
            extended_data: Vec::new(),
            geometry: String::new(),
            style_id: String::new(),
        };
        assert(p.extended_data.deep_view() =~= Seq::<(Seq<char>, Seq<char>)>::empty());
        p
    }
}

/// No key occurs twice among the entries.
pub open spec fn keys_distinct(entries: Seq<(Seq<char>, Seq<char>)>) -> bool {
    forall|i: int, j: int|
        0 <= i < j < entries.len() ==> #[trigger] entries[i].0 != #[trigger] entries[j].0
}

/// Whether some entry has the key.
pub open spec fn has_key(entries: Seq<(Seq<char>, Seq<char>)>, key: Seq<char>) -> bool {
    exists|i: int| 0 <= i < entries.len() && #[trigger] entries[i].0 == key
}

/// The entries after setting `key` to `value`: the value of an entry with
/// that key is replaced, and a new entry is added at the end when there is none.
pub open spec fn data_insert(
    entries: Seq<(Seq<char>, Seq<char>)>,
    key: Seq<char>,
    value: Seq<char>,
) -> Seq<(Seq<char>, Seq<char>)> {
    if has_key(entries, key) {
        Seq::new(
            entries.len(),
            |i: int| if entries[i].0 == key { (key, value) } else { entries[i] },
        )
    } else {
        entries.push((key, value))
    }
}

/// Setting a key keeps the keys distinct.
pub proof fn lemma_data_insert_keeps_keys_distinct(
    entries: Seq<(Seq<char>, Seq<char>)>,
    key: Seq<char>,
    value: Seq<char>,
)
    requires
        keys_distinct(entries),
    ensures
        keys_distinct(data_insert(entries, key, value)),
        has_key(data_insert(entries, key, value), key),
{
    let r = data_insert(entries, key, value);
    if !has_key(entries, key) {
        assert(r[entries.len() as int].0 == key);
    } else {
        let k = choose|k: int| 0 <= k < entries.len() && #[trigger] entries[k].0 == key;
        assert(r[k].0 == key);
    }
    assert forall|i: int, j: int| 0 <= i < j < r.len() implies #[trigger] r[i].0 != #[trigger] r[j].0 by {
        if has_key(entries, key) {
            assert(r[i].0 == entries[i].0);
            assert(r[j].0 == entries[j].0);
        } else {
            if j == entries.len() {
                assert(r[i].0 == entries[i].0);
            }
        }
    }
}

/// Sets `key` to `value` among the extended-data entries, as a map insert does.
pub fn insert_data(entries: &mut Vec<(String, String)>, key: &String, value: &String)
    ensures
        final(entries).deep_view() == data_insert(old(entries).deep_view(), key@, value@),
{
    let ghost old_view = entries.deep_view();
    let n = entries.len();
    let mut found = false;
    let mut i: usize = 0;
    while i < n
        invariant
            n == entries.len(),
            n == old_view.len(),
            0 <= i <= n,
            found <==> exists|k: int| 0 <= k < i && #[trigger] old_view[k].0 == key@,
            forall|k: int|
                0 <= k < n ==> #[trigger] entries.deep_view()[k] == (if k < i && old_view[k].0
                    == key@ {
                    (key@, value@)
                } else {
                    old_view[k]
                }),
        decreases n - i,
    {
        let ghost before = entries.deep_view();
        assert(before[i as int] == old_view[i as int]);
        assert(before[i as int].0 == entries@[i as int].0@);
        if entries[i].0 == *key {
            entries.set(i, (key.clone(), value.clone()));
            found = true;
            assert(entries.deep_view()[i as int] == (key@, value@));
            assert(forall|k: int| 0 <= k < n && k != i ==> #[trigger] entries.deep_view()[k]
                == before[k]);
        }
        i = i + 1;
    }
    if found {
        assert(entries.deep_view() =~= data_insert(old_view, key@, value@));
    } else {
        assert(entries.deep_view() =~= old_view);
        entries.push((key.clone(), value.clone()));
        assert(entries.deep_view() =~= data_insert(old_view, key@, value@));
    }
}

/// What a style holds.
#[verifier::ext_equal]
pub struct StyleView {
    pub id: Seq<char>,
    pub line_color: Seq<char>,
    pub line_width: Seq<char>,
    pub fill_color: Seq<char>,
}

/// Line and polygon style of KML elements.
#[derive(Debug, Clone)]
pub struct Style {
    /// Style identifier
    pub id: String,
    /// Line colour in KML form (aabbggrr)
    pub line_color: String,
    /// Line width
    pub line_width: String,
    /// Fill colour in KML form (aabbggrr)
    pub fill_color: String,
}

impl View for Style {
    type V = StyleView;

    open spec fn view(&self) -> StyleView {
        StyleView {
            id: self.id@,
            line_color: self.line_color@,
            line_width: self.line_width@,
            fill_color: self.fill_color@,
        }
    }
}

/// What a style map holds.
#[verifier::ext_equal]
pub struct StyleMapView {
    pub id: Seq<char>,
    pub normal_style_id: Seq<char>,
    pub highlight_style_id: Seq<char>,
}

/// A KML StyleMap: the style used normally and the one used when highlighted.
#[derive(Debug, Clone)]
pub struct StyleMap {
    /// StyleMap identifier
    pub id: String,
    /// Identifier of the normal style
    pub normal_style_id: String,
    /// Identifier of the highlight style
    pub highlight_style_id: String,
}

impl View for StyleMap {
    type V = StyleMapView;

    open spec fn view(&self) -> StyleMapView {
        StyleMapView {
            id: self.id@,
            normal_style_id: self.normal_style_id@,
            highlight_style_id: self.highlight_style_id@,
        }
    }
}

/// What a document holds.
#[verifier::ext_equal]
pub struct KmlDocumentView {
    pub name: Seq<char>,
    pub styles: Seq<StyleView>,
    pub style_maps: Seq<StyleMapView>,
    pub placemarks: Seq<PlacemarkView>,
}

/// A KML Document element.
#[derive(Debug, Clone)]
pub struct KmlDocument {
    /// Name of the document
    pub name: String,
    /// Styles
    pub styles: Vec<Style>,
    /// Style maps
    pub style_maps: Vec<StyleMap>,
    /// Placemarks
    pub placemarks: Vec<Placemark>,
}

impl View for KmlDocument {
    type V = KmlDocumentView;

    open spec fn view(&self) -> KmlDocumentView {
        KmlDocumentView {
            name: self.name@,
            styles: self.styles@.map_values(|s: Style| s@),
            style_maps: self.style_maps@.map_values(|m: StyleMap| m@),
            placemarks: self.placemarks@.map_values(|p: Placemark| p@),
        }
    }
}

impl KmlDocument {
    /// Creates a KML document with the given name and nothing in it.
    pub fn new(name: &str) -> (d: Self)
        ensures
            d@.name == name@,
            d@.styles.len() == 0,
            d@.style_maps.len() == 0,
            d@.placemarks.len() == 0,
    {
        KmlDocument {
            name: String::from_str(name),
            styles: Vec::new(),
            style_maps: Vec::new(),
            placemarks: Vec::new(),
        }
    }
}

} // verus!
