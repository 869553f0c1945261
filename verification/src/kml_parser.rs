//! Reading the placemarks out of a KML file.
//!
//! The reader runs over the XML events of the file and keeps a small state:
//! whether it is inside a placemark, its name, description, extended data or
//! geometry, and the placemark being filled. Geometry elements are copied
//! back out as XML text.
use vstd::prelude::*;
use crate::error::{AppError, AppResult};
use crate::traits::KmlParserTrait;
use crate::kml_types::{
    Placemark, PlacemarkView, KmlFile, empty_placemark, data_insert, insert_data, keys_distinct, has_key,
    lemma_data_insert_keeps_keys_distinct,
};
use crate::text::{
    replace_char, replace_char_str, str_equal, lemma_replace_char_removes, starts_with, ends_with,
    lemma_starts_with_append, lemma_ends_with_append,
};
use crate::xml_reader::{Tag, XmlEvent, xml_events, pending_events, open_tokenizer, read_event};

verus! {

/// The text of an attribute as an opening tag writes it back: a space, the
/// key, `="`, the value with `"` written as `&quot;`, and `"`. An attribute
/// that could not be parsed writes nothing.
pub open spec fn attribute_text(a: Option<(String, String)>) -> Seq<char> {
    match a {
        Some(kv) => " "@ + kv.0@ + "=\""@ + replace_char(kv.1@, '"', "&quot;"@) + "\""@,
        None => Seq::empty(),
    }
}

/// The texts of all attributes, in order.
pub open spec fn attributes_text(attrs: Seq<Option<(String, String)>>) -> Seq<char>
    decreases attrs.len(),
{
    if attrs.len() == 0 {
        Seq::empty()
    } else {
        attributes_text(attrs.drop_last()) + attribute_text(attrs.last())
    }
}

/// An opening tag written back as text: `<`, the name, the attributes and
/// the closing characters (`>` or ` />`).
pub open spec fn open_tag(name: Seq<char>, attrs: Seq<Option<(String, String)>>, close: Seq<char>) -> Seq<char> {
    "<"@ + name + attributes_text(attrs) + close
}

/// A closing tag written back as text.
pub open spec fn close_tag(name: Seq<char>) -> Seq<char> {
    "</"@ + name + ">"@
}

/// Text inside a geometry written back: `&`, `<` and `>` as entities.
pub open spec fn escape_text(t: Seq<char>) -> Seq<char> {
    replace_char(replace_char(replace_char(t, '&', "&amp;"@), '<', "&lt;"@), '>', "&gt;"@)
}

/// Text written back into a geometry holds no `<` or `>`: character data
/// cannot open or close an element of the geometry.
pub proof fn lemma_escaped_text_has_no_markup(t: Seq<char>)
    ensures
        !escape_text(t).contains('<'),
        !escape_text(t).contains('>'),
{
    reveal_strlit("&amp;");
    reveal_strlit("&lt;");
    reveal_strlit("&gt;");
    let a = replace_char(t, '&', "&amp;"@);
    let b = replace_char(a, '<', "&lt;"@);
    lemma_replace_char_removes(a, '<', "&lt;"@, '<');
    lemma_replace_char_removes(b, '>', "&gt;"@, '<');
    lemma_replace_char_removes(b, '>', "&gt;"@, '>');
}

/// The value of the first well-formed attribute with the given key.
pub open spec fn attribute_value(attrs: Seq<Option<(String, String)>>, key: Seq<char>) -> Option<Seq<char>>
    decreases attrs.len(),
{
    if attrs.len() == 0 {
        None
    } else {
        match attrs[0] {
            Some(kv) => if kv.0@ == key {
                Some(kv.1@)
            } else {
                attribute_value(attrs.drop_first(), key)
            },
            None => attribute_value(attrs.drop_first(), key),
        }
    }
}

/// The element names that start a geometry.
pub open spec fn is_geometry_tag(n: Seq<char>) -> bool {
    ||| n == "Point"@
    ||| n == "LineString"@
    ||| n == "Polygon"@
    ||| n == "MultiGeometry"@
    ||| n == "MultiTrack"@
    ||| n == "gx:Track"@
}

/// The text of a text event: its unescaped content, or nothing when
/// unescaping failed.
pub open spec fn text_content(content: Option<String>) -> Seq<char> {
    match content {
        Some(t) => t@,
        None => Seq::empty(),
    }
}

/// What the reader's state holds.
#[verifier::ext_equal]
pub struct ParserStateView {
    pub placemarks: Seq<PlacemarkView>,
    pub current: Option<PlacemarkView>,
    pub in_placemark: bool,
    pub in_name: bool,
    pub in_description: bool,
    pub in_extended_data: bool,
    pub in_data: bool,
    pub data_name: Seq<char>,
    pub in_geometry: bool,
    pub geometry: Seq<char>,
    pub geometry_tag: Option<Seq<char>>,
}

/// The state before the first event.
pub open spec fn initial_parser_state() -> ParserStateView {
    ParserStateView {
        placemarks: Seq::empty(),
        current: None,
        in_placemark: false,
        in_name: false,
        in_description: false,
        in_extended_data: false,
        in_data: false,
        data_name: Seq::empty(),
        in_geometry: false,
        geometry: Seq::empty(),
        geometry_tag: None,
    }
}

/// The placemark being filled, changed by `f`, if there is one.
pub open spec fn update_current(
    current: Option<PlacemarkView>,
    f: spec_fn(PlacemarkView) -> PlacemarkView,
) -> Option<PlacemarkView> {
    match current {
        Some(p) => Some(f(p)),
        None => None,
    }
}

/// The state after an opening tag.
pub open spec fn start_step(s: ParserStateView, n: Seq<char>, attrs: Seq<Option<(String, String)>>) -> ParserStateView {
    if s.in_geometry {
        ParserStateView { geometry: s.geometry + open_tag(n, attrs, ">"@), ..s }
    } else if n == "Placemark"@ {
        ParserStateView { in_placemark: true, current: Some(empty_placemark()), ..s }
    } else if n == "name"@ && s.in_placemark {
        ParserStateView { in_name: true, ..s }
    } else if n == "description"@ && s.in_placemark {
        ParserStateView { in_description: true, ..s }
    } else if n == "ExtendedData"@ && s.in_placemark {
        ParserStateView { in_extended_data: true, ..s }
    } else if n == "Data"@ && s.in_extended_data {
        ParserStateView {
            in_data: true,
            data_name: match attribute_value(attrs, "name"@) {
                Some(v) => v,
                None => s.data_name,
            },
            ..s
        }
    } else if is_geometry_tag(n) && s.in_placemark {
        ParserStateView {
            in_geometry: true,
            geometry_tag: Some(n),
            geometry: open_tag(n, attrs, ">"@),
            ..s
        }
    } else {
        s
    }
}

/// The state after a closing tag.
pub open spec fn end_step(s: ParserStateView, n: Seq<char>) -> ParserStateView {
    if s.in_geometry {
        let g = s.geometry + close_tag(n);
        if s.geometry_tag == Some(n) {
            ParserStateView {
                current: update_current(s.current, |p: PlacemarkView| PlacemarkView { geometry: g, ..p }),
                in_geometry: false,
                geometry_tag: None,
                geometry: Seq::empty(),
                ..s
            }
        } else {
            ParserStateView { geometry: g, ..s }
        }
    } else if n == "Placemark"@ {
        ParserStateView {
            in_placemark: false,
            placemarks: match s.current {
                Some(p) => s.placemarks.push(p),
                None => s.placemarks,
            },
            current: None,
            ..s
        }
    } else if n == "name"@ && s.in_placemark {
        ParserStateView { in_name: false, ..s }
    } else if n == "description"@ && s.in_placemark {
        ParserStateView { in_description: false, ..s }
    } else if n == "ExtendedData"@ {
        ParserStateView { in_extended_data: false, ..s }
    } else if n == "Data"@ && s.in_extended_data {
        ParserStateView { in_data: false, data_name: Seq::empty(), ..s }
    } else {
        s
    }
}

/// The state after character data.
pub open spec fn text_step(s: ParserStateView, t: Seq<char>) -> ParserStateView {
    if s.in_geometry {
        ParserStateView { geometry: s.geometry + escape_text(t), ..s }
    } else if s.in_name && s.in_placemark {
        ParserStateView {
            current: update_current(s.current, |p: PlacemarkView| PlacemarkView { name: Some(t), ..p }),
            ..s
        }
    } else if s.in_description && s.in_placemark {
        ParserStateView {
            current: update_current(s.current, |p: PlacemarkView| PlacemarkView { description: Some(t), ..p }),
            ..s
        }
    } else if s.in_data && s.in_extended_data && s.data_name.len() > 0 {
        ParserStateView {
            current: update_current(
                s.current,
                |p: PlacemarkView| PlacemarkView { extended_data: data_insert(p.extended_data, s.data_name, t), ..p },
            ),
            ..s
        }
    } else {
        s
    }
}

/// The state after one event.
pub open spec fn parser_step(s: ParserStateView, e: XmlEvent) -> ParserStateView {
    match e {
        XmlEvent::Open(tag) => start_step(s, tag.name@, tag.attributes@),
        XmlEvent::Close(name) => end_step(s, name@),
        XmlEvent::SelfClosing(tag) => if s.in_geometry {
            ParserStateView { geometry: s.geometry + open_tag(tag.name@, tag.attributes@, " />"@), ..s }
        } else {
            s
        },
        XmlEvent::Characters(content) => text_step(s, text_content(content)),
        _ => s,
    }
}

/// The placemarks read from a stream of events, starting in state `s`:
/// events are taken until `EndOfFile` (or the end of the stream), and an error
/// (`None`) makes the whole reading fail.
pub open spec fn run_parser(s: ParserStateView, events: Seq<Option<XmlEvent>>) -> Option<Seq<PlacemarkView>>
    decreases events.len(),
{
    if events.len() == 0 {
        Some(s.placemarks)
    } else {
        match events[0] {
            None => None,
            Some(XmlEvent::EndOfFile) => Some(s.placemarks),
            Some(e) => run_parser(parser_step(s, e), events.drop_first()),
        }
    }
}

/// The placemarks of a KML document whose XML events are `events`; `None`
/// when the XML tokenizer reports an error.
pub open spec fn placemarks_of_events(events: Seq<Option<XmlEvent>>) -> Option<Seq<PlacemarkView>> {
    run_parser(initial_parser_state(), events)
}

/// The placemarks of a KML text; `None` when it is not well-formed XML as
/// quick-xml reads it.
pub open spec fn placemarks_of_kml(content: Seq<char>) -> Option<Seq<PlacemarkView>> {
    placemarks_of_events(xml_events(content))
}

fn attribute_string(a: &Option<(String, String)>) -> (r: String)
    ensures
        r@ == attribute_text(*a),
{
    match a {
        Some(kv) => {
            let mut r = String::from_str(" ");
            r.append(kv.0.as_str());
            r.append("=\"");
            let v = replace_char_str(kv.1.as_str(), '"', "&quot;");
            r.append(v.as_str());
            r.append("\"");
            r
        },
        None => String::new(),
    }
}

/// Writes an opening tag back as text.
fn open_tag_string(name: &String, attrs: &Vec<Option<(String, String)>>, close: &str) -> (r: String)
    ensures
        r@ == open_tag(name@, attrs@, close@),
{
    let mut r = String::from_str("<");
    r.append(name.as_str());
    let ghost head = r@;
    let n = attrs.len();
    let mut i: usize = 0;
    while i < n
        invariant
            n == attrs.len(),
            0 <= i <= n,
            r@ == head + attributes_text(attrs@.take(i as int)),
        decreases n - i,
    {
        let t = attribute_string(&attrs[i]);
        r.append(t.as_str());
        assert(attrs@.take(i + 1).drop_last() =~= attrs@.take(i as int));
        assert(r@ =~= head + attributes_text(attrs@.take(i + 1)));
        i = i + 1;
    }
    assert(attrs@.take(n as int) =~= attrs@);
    r.append(close);
    r
}

/// Writes a closing tag back as text.
fn close_tag_string(name: &String) -> (r: String)
    ensures
        r@ == close_tag(name@),
{
    let mut r = String::from_str("</");
    r.append(name.as_str());
    r.append(">");
    r
}

/// Escapes text inside a geometry.
fn escape_text_string(t: &str) -> (r: String)
    ensures
        r@ == escape_text(t@),
{
    let a = replace_char_str(t, '&', "&amp;");
    let b = replace_char_str(a.as_str(), '<', "&lt;");
    replace_char_str(b.as_str(), '>', "&gt;")
}

/// Whether an element name starts a geometry.
fn is_geometry_name(n: &str) -> (r: bool)
    ensures
        r == is_geometry_tag(n@),
{
    str_equal(n, "Point") || str_equal(n, "LineString") || str_equal(n, "Polygon")
        || str_equal(n, "MultiGeometry") || str_equal(n, "MultiTrack") || str_equal(n, "gx:Track")
}

/// The reader's state while it runs over the events of a KML file.
pub struct ParserState {
    /// Placemarks read so far
    pub placemarks: Vec<Placemark>,
    /// The placemark being filled
    pub current: Option<Placemark>,
    /// Inside a Placemark element
    pub in_placemark: bool,
    /// Inside the name of the placemark
    pub in_name: bool,
    /// Inside the description of the placemark
    pub in_description: bool,
    /// Inside the extended data of the placemark
    pub in_extended_data: bool,
    /// Inside a Data element
    pub in_data: bool,
    /// The name attribute of the current Data element
    pub data_name: String,
    /// Inside a geometry
    pub in_geometry: bool,
    /// The geometry written back so far
    pub geometry: String,
    /// The name of the element that started the geometry
    pub geometry_tag: Option<String>,
}

impl View for ParserState {
    type V = ParserStateView;

    open spec fn view(&self) -> ParserStateView {
        ParserStateView {
            placemarks: self.placemarks@.map_values(|p: Placemark| p@),
            current: match self.current {
                Some(p) => Some(p@),
                None => None,
            },
            in_placemark: self.in_placemark,
            in_name: self.in_name,
            in_description: self.in_description,
            in_extended_data: self.in_extended_data,
            in_data: self.in_data,
            data_name: self.data_name@,
            in_geometry: self.in_geometry,
            geometry: self.geometry@,
            geometry_tag: self.geometry_tag.deep_view(),
        }
    }
}

impl ParserState {
    /// The state before the first event.
    pub fn new() -> (s: Self)
        ensures
            s@ == initial_parser_state(),
    {
        let s = ParserState {
            placemarks: Vec::new(),
            current: None,
            in_placemark: false,
            in_name: false,
            in_description: false,
            in_extended_data: false,
            in_data: false,
            data_name: String::new(),
            in_geometry: false,
            geometry: String::new(),
            geometry_tag: None,
        };
        assert(s@.placemarks =~= Seq::<PlacemarkView>::empty());
        s
    }

    fn start(&mut self, name: &String, attrs: &Vec<Option<(String, String)>>)
        ensures
            final(self)@ == start_step(old(self)@, name@, attrs@),
    {
        let n = name.as_str();
        if self.in_geometry {
            let t = open_tag_string(name, attrs, ">");
            self.geometry.append(t.as_str());
        } else if str_equal(n, "Placemark") {
            self.in_placemark = true;
            self.current = Some(Placemark::new());
        } else if str_equal(n, "name") && self.in_placemark {
            self.in_name = true;
        } else if str_equal(n, "description") && self.in_placemark {
            self.in_description = true;
        } else if str_equal(n, "ExtendedData") && self.in_placemark {
            self.in_extended_data = true;
        } else if str_equal(n, "Data") && self.in_extended_data {
            self.in_data = true;
            if let Some(v) = KmlParser::get_attribute(attrs, "name") {
                self.data_name = v;
            }
        } else if is_geometry_name(n) && self.in_placemark {
            self.in_geometry = true;
            self.geometry_tag = Some(name.clone());
            self.geometry = open_tag_string(name, attrs, ">");
        }
    }

    fn end(&mut self, name: &String)
        ensures
            final(self)@ == end_step(old(self)@, name@),
    {
        let n = name.as_str();
        if self.in_geometry {
            let t = close_tag_string(name);
            self.geometry.append(t.as_str());
            let closes = match &self.geometry_tag {
                Some(tag) => *tag == *name,
                None => false,
            };
            if closes {
                let g = self.geometry.clone();
                match &mut self.current {
                    Some(p) => {
                        p.geometry = g;
                    },
                    None => {},
                }
                self.in_geometry = false;
                self.geometry_tag = None;
                self.geometry = String::new();
            }
        } else if str_equal(n, "Placemark") {
            self.in_placemark = false;
            let ghost old_placemarks = self@.placemarks;
            if let Some(p) = self.current.take() {
                self.placemarks.push(p);
                assert(self@.placemarks =~= old_placemarks.push(p@));
            }
        } else if str_equal(n, "name") && self.in_placemark {
            self.in_name = false;
        } else if str_equal(n, "description") && self.in_placemark {
            self.in_description = false;
        } else if str_equal(n, "ExtendedData") {
            self.in_extended_data = false;
        } else if str_equal(n, "Data") && self.in_extended_data {
            self.in_data = false;
            self.data_name = String::new();
        }
    }

    fn text(&mut self, content: &Option<String>)
        ensures
            final(self)@ == text_step(old(self)@, text_content(*content)),
    {
        let t = match content {
            Some(t) => t.clone(),
            None => String::new(),
        };
        if self.in_geometry {
            let e = escape_text_string(t.as_str());
            self.geometry.append(e.as_str());
        } else if self.in_name && self.in_placemark {
            match &mut self.current {
                Some(p) => {
                    p.name = Some(t);
                },
                None => {},
            }
        } else if self.in_description && self.in_placemark {
            match &mut self.current {
                Some(p) => {
                    p.description = Some(t);
                },
                None => {},
            }
        } else if self.in_data && self.in_extended_data && !self.data_name.as_str().is_empty() {
            match &mut self.current {
                Some(p) => {
                    insert_data(&mut p.extended_data, &self.data_name, &t);
                },
                None => {},
            }
        }
    }

    /// Takes one event.
    pub fn step(&mut self, event: &XmlEvent)
        ensures
            final(self)@ == parser_step(old(self)@, *event),
    {
        match event {
            XmlEvent::Open(tag) => self.start(&tag.name, &tag.attributes),
            XmlEvent::Close(name) => self.end(name),
            XmlEvent::SelfClosing(tag) => {
                if self.in_geometry {
                    let t = open_tag_string(&tag.name, &tag.attributes, " />");
                    self.geometry.append(t.as_str());
                }
            },
            XmlEvent::Characters(content) => self.text(content),
            _ => {},
        }
    }
}

/// Reads the placemarks out of KML files.
pub struct KmlParser;

/// The placemarks, as their views.
pub open spec fn placemark_views(ps: Seq<Placemark>) -> Seq<PlacemarkView> {
    ps.map_values(|p: Placemark| p@)
}

impl KmlParser {
    /// Reads the placemarks out of a stream of XML events: `None` when the
    /// stream holds an error before its `EndOfFile`.
    pub fn placemarks_from_events(events: &Vec<Option<XmlEvent>>) -> (r: Option<Vec<Placemark>>)
        ensures
            match r {
                Some(v) => placemarks_of_events(events@) == Some(placemark_views(v@)),
                None => placemarks_of_events(events@) is None,
            },
    {
        let mut state = ParserState::new();
        let n = events.len();
        let mut i: usize = 0;
        assert(events@.skip(0) =~= events@);
        while i < n
            invariant
                n == events.len(),
                0 <= i <= n,
                placemarks_of_events(events@) == run_parser(state@, events@.skip(i as int)),
            decreases n - i,
        {
            assert(events@.skip(i as int).drop_first() =~= events@.skip(i + 1));
            assert(events@.skip(i as int)[0] == events@[i as int]);
            match &events[i] {
                None => {
                    return None;
                },
                Some(XmlEvent::EndOfFile) => {
                    return Some(state.placemarks);
                },
                Some(e) => {
                    state.step(e);
                },
            }
            i = i + 1;
        }
        Some(state.placemarks)
    }

}

impl KmlParserTrait for KmlParser {
    /// Reads the placemarks out of a KML file, running over the events that
    /// quick-xml's tokenizer hands out for its content.
    fn extract_placemarks(kml_file: &KmlFile) -> (r: AppResult<Vec<Placemark>>) {
        let mut tokenizer = open_tokenizer(kml_file.content.as_str());
        let mut state = ParserState::new();
        loop
            invariant
                placemarks_of_kml(kml_file.content@) == run_parser(state@, pending_events(tokenizer)),
            decreases pending_events(tokenizer).len(),
        {
            match read_event(&mut tokenizer) {
                Ok(XmlEvent::EndOfFile) => {
                    return Ok(state.placemarks);
                },
                Ok(e) => {
                    state.step(&e);
                },
                Err(e) => {
                    return Err(AppError::XmlError(e));
                },
            }
        }
    }

    /// The value of the first well-formed attribute named `name`, if any.
    fn get_attribute(attributes: &Vec<Option<(String, String)>>, name: &str) -> (r: Option<String>) {
        let n = attributes.len();
        let mut i: usize = 0;
        assert(attributes@.skip(0) =~= attributes@);
        while i < n
            invariant
                n == attributes.len(),
                0 <= i <= n,
                attribute_value(attributes@, name@) == attribute_value(attributes@.skip(i as int), name@),
            decreases n - i,
        {
            assert(attributes@.skip(i as int).drop_first() =~= attributes@.skip(i + 1));
            assert(attributes@.skip(i as int)[0] == attributes@[i as int]);
            match &attributes[i] {
                Some(kv) => {
                    if str_equal(kv.0.as_str(), name) {
                        return Some(kv.1.clone());
                    }
                },
                None => {},
            }
            i = i + 1;
        }
        None
    }
}

/// Every placemark read so far, and the one being filled, has distinct
/// extended-data keys.
pub open spec fn state_keys_distinct(s: ParserStateView) -> bool {
    &&& forall|i: int| 0 <= i < s.placemarks.len() ==> keys_distinct(#[trigger] s.placemarks[i].extended_data)
    &&& (s.current matches Some(p) ==> keys_distinct(p.extended_data))
}

proof fn lemma_step_keeps_keys_distinct(s: ParserStateView, e: XmlEvent)
    requires
        state_keys_distinct(s),
    ensures
        state_keys_distinct(parser_step(s, e)),
{
    let empty: Seq<(Seq<char>, Seq<char>)> = Seq::empty();
    assert(keys_distinct(empty));
    match e {
        XmlEvent::Characters(content) => {
            let t = text_content(content);
            if !s.in_geometry && !(s.in_name && s.in_placemark) && !(s.in_description && s.in_placemark)
                && s.in_data && s.in_extended_data && s.data_name.len() > 0 {
                if let Some(p) = s.current {
                    lemma_data_insert_keeps_keys_distinct(p.extended_data, s.data_name, t);
                }
            }
        },
        XmlEvent::Close(name) => {
            let r = parser_step(s, e);
            if !s.in_geometry && name@ == "Placemark"@ {
                assert forall|i: int| 0 <= i < r.placemarks.len() implies keys_distinct(
                    #[trigger] r.placemarks[i].extended_data,
                ) by {
                    if i < s.placemarks.len() {
                        assert(r.placemarks[i] == s.placemarks[i]);
                    }
                }
            }
        },
        _ => {},
    }
}

proof fn lemma_run_keeps_keys_distinct(s: ParserStateView, events: Seq<Option<XmlEvent>>)
    requires
        state_keys_distinct(s),
    ensures
        run_parser(s, events) matches Some(ps) ==> forall|i: int|
            0 <= i < ps.len() ==> keys_distinct(#[trigger] ps[i].extended_data),
    decreases events.len(),
{
    if events.len() > 0 {
        if let Some(e) = events[0] {
            if !(e is EndOfFile) {
                lemma_step_keeps_keys_distinct(s, e);
                lemma_run_keeps_keys_distinct(parser_step(s, e), events.drop_first());
            }
        }
    }
}

/// The text is one geometry element named `n`: it starts with `<n` and
/// ends with `</n>`, where `n` is one of the geometry element names.
pub open spec fn geometry_element(g: Seq<char>, n: Seq<char>) -> bool {
    &&& is_geometry_tag(n)
    &&& starts_with(g, "<"@ + n)
    &&& ends_with(g, close_tag(n))
}

/// A geometry is empty or one whole geometry element.
pub open spec fn geometry_shaped(g: Seq<char>) -> bool {
    g.len() == 0 || exists|n: Seq<char>| #[trigger] geometry_element(g, n)
}

/// Every geometry in the state is empty or a whole geometry element, and
/// the geometry being copied starts with the opening of its element.
pub open spec fn state_geometry_shaped(s: ParserStateView) -> bool {
    &&& forall|i: int| 0 <= i < s.placemarks.len() ==> geometry_shaped(#[trigger] s.placemarks[i].geometry)
    &&& (s.current matches Some(p) ==> geometry_shaped(p.geometry))
    &&& (s.in_geometry ==> (s.geometry_tag matches Some(n) && is_geometry_tag(n) && starts_with(
        s.geometry,
        "<"@ + n,
    )))
}

proof fn lemma_step_keeps_geometry_shaped(s: ParserStateView, e: XmlEvent)
    requires
        state_geometry_shaped(s),
    ensures
        state_geometry_shaped(parser_step(s, e)),
{
    let r = parser_step(s, e);
    assert(geometry_shaped(empty_placemark().geometry));
    match e {
        XmlEvent::Open(tag) => {
            let n = tag.name@;
            if s.in_geometry {
                let n0 = s.geometry_tag->0;
                lemma_starts_with_append(s.geometry, "<"@ + n0, open_tag(n, tag.attributes@, ">"@));
            } else if is_geometry_tag(n) && s.in_placemark && !(n == "Placemark"@) && !(n == "name"@
                && s.in_placemark) && !(n == "description"@ && s.in_placemark) && !(n == "ExtendedData"@
                && s.in_placemark) && !(n == "Data"@ && s.in_extended_data) {
                let g = open_tag(n, tag.attributes@, ">"@);
                let p = "<"@ + n;
                assert(g == p + attributes_text(tag.attributes@) + ">"@);
                assert(g.subrange(0, p.len() as int) =~= p);
            }
        },
        XmlEvent::Close(name) => {
            let n = name@;
            if s.in_geometry {
                let n0 = s.geometry_tag->0;
                let g = s.geometry + close_tag(n);
                lemma_starts_with_append(s.geometry, "<"@ + n0, close_tag(n));
                if s.geometry_tag == Some(n) {
                    lemma_ends_with_append(s.geometry, close_tag(n));
                    assert(geometry_element(g, n));
                    assert(geometry_shaped(g));
                }
            } else if n == "Placemark"@ {
                assert forall|i: int| 0 <= i < r.placemarks.len() implies geometry_shaped(
                    #[trigger] r.placemarks[i].geometry,
                ) by {
                    if i < s.placemarks.len() {
                        assert(r.placemarks[i] == s.placemarks[i]);
                    }
                }
            }
        },
        XmlEvent::SelfClosing(tag) => {
            if s.in_geometry {
                let n0 = s.geometry_tag->0;
                lemma_starts_with_append(s.geometry, "<"@ + n0, open_tag(tag.name@, tag.attributes@, " />"@));
            }
        },
        XmlEvent::Characters(content) => {
            if s.in_geometry {
                let n0 = s.geometry_tag->0;
                lemma_starts_with_append(s.geometry, "<"@ + n0, escape_text(text_content(content)));
            }
        },
        _ => {},
    }
}

proof fn lemma_run_keeps_geometry_shaped(s: ParserStateView, events: Seq<Option<XmlEvent>>)
    requires
        state_geometry_shaped(s),
    ensures
        run_parser(s, events) matches Some(ps) ==> forall|i: int|
            0 <= i < ps.len() ==> geometry_shaped(#[trigger] ps[i].geometry),
    decreases events.len(),
{
    if events.len() > 0 {
        if let Some(e) = events[0] {
            if !(e is EndOfFile) {
                lemma_step_keeps_geometry_shaped(s, e);
                lemma_run_keeps_geometry_shaped(parser_step(s, e), events.drop_first());
            }
        }
    }
}

/// The geometry of every placemark read out of a stream of events is
/// empty or one whole geometry element: it starts with `<G` and ends with
/// `</G>`, where `G` is `Point`, `LineString`, `Polygon`, `MultiGeometry`,
/// `MultiTrack` or `gx:Track`.
pub proof fn lemma_extracted_geometry_shaped(events: Seq<Option<XmlEvent>>)
    ensures
        placemarks_of_events(events) matches Some(ps) ==> forall|i: int|
            0 <= i < ps.len() ==> geometry_shaped(#[trigger] ps[i].geometry),
{
    lemma_run_keeps_geometry_shaped(initial_parser_state(), events);
}

/// How many `</Placemark>` events the stream holds before its end or its
/// first error.
pub open spec fn placemark_closings(events: Seq<Option<XmlEvent>>) -> nat
    decreases events.len(),
{
    if events.len() == 0 {
        0
    } else {
        match events[0] {
            None => 0,
            Some(XmlEvent::EndOfFile) => 0,
            Some(e) => (if e matches XmlEvent::Close(n) && n@ == "Placemark"@ {
                1nat
            } else {
                0nat
            }) + placemark_closings(events.drop_first()),
        }
    }
}

proof fn lemma_run_count(s: ParserStateView, events: Seq<Option<XmlEvent>>)
    ensures
        run_parser(s, events) matches Some(ps) ==> s.placemarks.len() <= ps.len() <= s.placemarks.len()
            + placemark_closings(events),
    decreases events.len(),
{
    if events.len() > 0 {
        if let Some(e) = events[0] {
            if !(e is EndOfFile) {
                lemma_run_count(parser_step(s, e), events.drop_first());
            }
        }
    }
}

/// A stream of events gives at most one placemark for each `</Placemark>`
/// it holds before its end.
pub proof fn lemma_extracted_placemark_count(events: Seq<Option<XmlEvent>>)
    ensures
        placemarks_of_events(events) matches Some(ps) ==> ps.len() <= placemark_closings(events),
{
    lemma_run_count(initial_parser_state(), events);
}

/// Every placemark read out of a stream of events has distinct
/// extended-data keys: a `Data` element whose name repeats replaces the
/// earlier value, as in a map.
pub proof fn lemma_extracted_keys_distinct(events: Seq<Option<XmlEvent>>)
    ensures
        placemarks_of_events(events) matches Some(ps) ==> forall|i: int|
            0 <= i < ps.len() ==> keys_distinct(#[trigger] ps[i].extended_data),
{
    lemma_run_keeps_keys_distinct(initial_parser_state(), events);
}


/// An event inside a geometry written back as text: tags as tags, text
/// escaped, anything else as nothing.
pub open spec fn geometry_event_text(e: Option<XmlEvent>) -> Seq<char> {
    match e {
        Some(XmlEvent::Open(t)) => open_tag(t.name@, t.attributes@, ">"@),
        Some(XmlEvent::Close(n)) => close_tag(n@),
        Some(XmlEvent::SelfClosing(t)) => open_tag(t.name@, t.attributes@, " />"@),
        Some(XmlEvent::Characters(c)) => escape_text(text_content(c)),
        _ => Seq::empty(),
    }
}

/// Events inside a geometry written back as text, in order.
pub open spec fn geometry_events_text(evs: Seq<Option<XmlEvent>>) -> Seq<char>
    decreases evs.len(),
{
    if evs.len() == 0 {
        Seq::empty()
    } else {
        geometry_event_text(evs[0]) + geometry_events_text(evs.drop_first())
    }
}

/// Whether an event can stand inside the geometry element `g` without
/// ending it: it is no error, no end of file and no `</g>`.
pub open spec fn inside_geometry_event(e: Option<XmlEvent>, g: Seq<char>) -> bool {
    &&& e is Some
    &&& !(e->0 is EndOfFile)
    &&& !(e->0 matches XmlEvent::Close(n) && n@ == g)
}

proof fn lemma_run_inside_geometry(s: ParserStateView, events: Seq<Option<XmlEvent>>, k: int, g: Seq<char>)
    requires
        s.in_geometry,
        s.geometry_tag == Some(g),
        0 <= k <= events.len(),
        forall|x: int| 0 <= x < k ==> inside_geometry_event(#[trigger] events[x], g),
    ensures
        run_parser(s, events) == run_parser(
            ParserStateView { geometry: s.geometry + geometry_events_text(events.take(k)), ..s },
            events.skip(k),
        ),
    decreases k,
{
    if k == 0 {
        assert(events.take(0) =~= Seq::<Option<XmlEvent>>::empty());
        assert(events.skip(0) =~= events);
        assert(ParserStateView { geometry: s.geometry + geometry_events_text(events.take(0)), ..s } =~= s);
    } else {
        assert(inside_geometry_event(events[0], g));
        let e = events[0]->0;
        let s1 = ParserStateView { geometry: s.geometry + geometry_event_text(events[0]), ..s };
        match e {
            XmlEvent::Open(t) => {},
            XmlEvent::Close(n) => {
                assert(s.geometry_tag != Some(n@));
            },
            XmlEvent::SelfClosing(t) => {},
            XmlEvent::Characters(c) => {},
            _ => {
                assert(s1 =~= s);
            },
        }
        assert(parser_step(s, e) =~= s1);
        let rest = events.drop_first();
        assert forall|x: int| 0 <= x < k - 1 implies inside_geometry_event(#[trigger] rest[x], g) by {
            assert(rest[x] == events[x + 1]);
        }
        lemma_run_inside_geometry(s1, rest, k - 1, g);
        assert(events.take(k).drop_first() =~= rest.take(k - 1));
        assert(events.take(k)[0] == events[0]);
        assert(rest.skip(k - 1) =~= events.skip(k));
        assert(s1.geometry + geometry_events_text(rest.take(k - 1)) =~= s.geometry + geometry_events_text(
            events.take(k),
        ));
        assert(ParserStateView { geometry: s1.geometry + geometry_events_text(rest.take(k - 1)), ..s1 }
            =~= ParserStateView { geometry: s.geometry + geometry_events_text(events.take(k)), ..s });
    }
}

/// A placemark whose only element is a geometry element `g` (`Point`,
/// `LineString`, `Polygon`, `MultiGeometry`, `MultiTrack` or `gx:Track`)
/// gets as its geometry the whole element written back as text: the
/// opening tag of `g` with its attributes, everything inside it, and the
/// closing `</g>`. Elements nested inside it, geometries among them, do
/// not start a geometry of their own. `KmlParser::extract_placemarks` reads
/// a file through exactly this function of its events.
#[verifier::rlimit(30)]
pub proof fn lemma_geometry_element_extracted(
    events: Seq<Option<XmlEvent>>,
    placemark: Tag,
    geometry: Tag,
    k: int,
)
    requires
        geometry.name@ == "Point"@ || geometry.name@ == "LineString"@ || geometry.name@ == "Polygon"@
            || geometry.name@ == "MultiGeometry"@ || geometry.name@ == "MultiTrack"@ || geometry.name@
            == "gx:Track"@,
        2 <= k,
        k + 2 < events.len(),
        events[0] == Some(XmlEvent::Open(placemark)),
        placemark.name@ == "Placemark"@,
        events[1] == Some(XmlEvent::Open(geometry)),
        forall|x: int| 2 <= x < k ==> inside_geometry_event(#[trigger] events[x], geometry.name@),
        events[k] matches Some(XmlEvent::Close(n)) && n@ == geometry.name@,
        events[k + 1] matches Some(XmlEvent::Close(n)) && n@ == "Placemark"@,
        events[k + 2] == Some(XmlEvent::EndOfFile),
    ensures
        placemarks_of_events(events) == Some(
            seq![
                PlacemarkView {
                    geometry: open_tag(geometry.name@, geometry.attributes@, ">"@) + geometry_events_text(
                        events.subrange(2, k),
                    ) + close_tag(geometry.name@),
                    ..empty_placemark()
                },
            ],
        ),
{
    let g = geometry.name@;
    reveal_strlit("Placemark");
    reveal_strlit("name");
    reveal_strlit("description");
    reveal_strlit("ExtendedData");
    reveal_strlit("Data");
    reveal_strlit("Point");
    reveal_strlit("LineString");
    reveal_strlit("Polygon");
    reveal_strlit("MultiGeometry");
    reveal_strlit("MultiTrack");
    reveal_strlit("gx:Track");
    assert(is_geometry_tag(g));
    assert(g != "Placemark"@);
    assert(g != "name"@);
    assert(g != "description"@);
    assert(g != "ExtendedData"@);
    assert(g != "Data"@);
    let s0 = initial_parser_state();
    let s1 = ParserStateView { in_placemark: true, current: Some(empty_placemark()), ..s0 };
    assert(parser_step(s0, events[0]->0) == s1);
    let s2 = ParserStateView {
        in_geometry: true,
        geometry_tag: Some(g),
        geometry: open_tag(g, geometry.attributes@, ">"@),
        ..s1
    };
    assert(parser_step(s1, events[1]->0) == s2);
    let e1 = events.drop_first();
    let e2 = e1.drop_first();
    assert(e1[0] == events[1]);
    assert(run_parser(s0, events) == run_parser(s1, e1));
    assert(run_parser(s1, e1) == run_parser(s2, e2));
    assert forall|x: int| 0 <= x < k - 2 implies inside_geometry_event(#[trigger] e2[x], g) by {
        assert(e2[x] == events[x + 2]);
    }
    lemma_run_inside_geometry(s2, e2, k - 2, g);
    assert(e2.take(k - 2) =~= events.subrange(2, k));
    let inner = geometry_events_text(events.subrange(2, k));
    let s3 = ParserStateView { geometry: s2.geometry + inner, ..s2 };
    let e3 = e2.skip(k - 2);
    assert(e3 =~= events.skip(k));
    assert(e3[0] == events[k]);
    let whole = open_tag(g, geometry.attributes@, ">"@) + inner + close_tag(g);
    let p = PlacemarkView { geometry: whole, ..empty_placemark() };
    let s4 = ParserStateView {
        current: Some(p),
        in_geometry: false,
        geometry_tag: None,
        geometry: Seq::empty(),
        ..s3
    };
    assert(parser_step(s3, e3[0]->0) =~= s4);
    let e4 = e3.drop_first();
    assert(e4[0] == events[k + 1]);
    assert(run_parser(s3, e3) == run_parser(s4, e4));
    let s5 = ParserStateView { in_placemark: false, placemarks: seq![p], current: None, ..s4 };
    assert(s4.placemarks.push(p) =~= seq![p]);
    assert(parser_step(s4, e4[0]->0) =~= s5);
    let e5 = e4.drop_first();
    assert(e5[0] == events[k + 2]);
    assert(run_parser(s4, e4) == run_parser(s5, e5));
    assert(run_parser(s5, e5) == Some(seq![p]));
}


proof fn lemma_run_unfold(s: ParserStateView, events: Seq<Option<XmlEvent>>, i: int)
    requires
        0 <= i < events.len(),
        events[i] is Some,
        !(events[i]->0 is EndOfFile),
    ensures
        run_parser(s, events.skip(i)) == run_parser(parser_step(s, events[i]->0), events.skip(i + 1)),
{
    assert(events.skip(i)[0] == events[i]);
    assert(events.skip(i).drop_first() =~= events.skip(i + 1));
}

proof fn lemma_run_at_end(s: ParserStateView, events: Seq<Option<XmlEvent>>, i: int)
    requires
        0 <= i < events.len(),
        events[i] == Some(XmlEvent::EndOfFile),
    ensures
        run_parser(s, events.skip(i)) == Some(s.placemarks),
{
    assert(events.skip(i)[0] == events[i]);
}

/// A placemark whose name element holds the text `name` and whose
/// description element holds the text `description` is read with that name
/// and that description, and nothing else.
#[verifier::rlimit(30)]
pub proof fn lemma_name_and_description_extracted(
    events: Seq<Option<XmlEvent>>,
    placemark: Tag,
    name_tag: Tag,
    name: String,
    description_tag: Tag,
    description: String,
)
    requires
        events.len() == 9,
        events[0] == Some(XmlEvent::Open(placemark)),
        placemark.name@ == "Placemark"@,
        events[1] == Some(XmlEvent::Open(name_tag)),
        name_tag.name@ == "name"@,
        events[2] == Some(XmlEvent::Characters(Some(name))),
        events[3] matches Some(XmlEvent::Close(n)) && n@ == "name"@,
        events[4] == Some(XmlEvent::Open(description_tag)),
        description_tag.name@ == "description"@,
        events[5] == Some(XmlEvent::Characters(Some(description))),
        events[6] matches Some(XmlEvent::Close(n)) && n@ == "description"@,
        events[7] matches Some(XmlEvent::Close(n)) && n@ == "Placemark"@,
        events[8] == Some(XmlEvent::EndOfFile),
    ensures
        placemarks_of_events(events) == Some(
            seq![PlacemarkView { name: Some(name@), description: Some(description@), ..empty_placemark() }],
        ),
{
    reveal_strlit("Placemark");
    reveal_strlit("name");
    reveal_strlit("description");
    assert("name"@ != "Placemark"@);
    assert("description"@ != "Placemark"@);
    assert("description"@ != "name"@);
    let p = PlacemarkView { name: Some(name@), description: Some(description@), ..empty_placemark() };
    let s0 = initial_parser_state();
    let s1 = ParserStateView { in_placemark: true, current: Some(empty_placemark()), ..s0 };
    let s2 = ParserStateView { in_name: true, ..s1 };
    let s3 = ParserStateView {
        current: Some(PlacemarkView { name: Some(name@), ..empty_placemark() }),
        ..s2
    };
    let s4 = ParserStateView { in_name: false, ..s3 };
    let s5 = ParserStateView { in_description: true, ..s4 };
    let s6 = ParserStateView { current: Some(p), ..s5 };
    let s7 = ParserStateView { in_description: false, ..s6 };
    let s8 = ParserStateView { in_placemark: false, placemarks: seq![p], current: None, ..s7 };
    assert(parser_step(s0, events[0]->0) =~= s1);
    assert(parser_step(s1, events[1]->0) =~= s2);
    assert(parser_step(s2, events[2]->0) =~= s3);
    assert(parser_step(s3, events[3]->0) =~= s4);
    assert(parser_step(s4, events[4]->0) =~= s5);
    assert(parser_step(s5, events[5]->0) =~= s6);
    assert(parser_step(s6, events[6]->0) =~= s7);
    assert(s7.placemarks.push(p) =~= seq![p]);
    assert(parser_step(s7, events[7]->0) =~= s8);
    assert(events.skip(0) =~= events);
    lemma_run_unfold(s0, events, 0);
    lemma_run_unfold(s1, events, 1);
    lemma_run_unfold(s2, events, 2);
    lemma_run_unfold(s3, events, 3);
    lemma_run_unfold(s4, events, 4);
    lemma_run_unfold(s5, events, 5);
    lemma_run_unfold(s6, events, 6);
    lemma_run_unfold(s7, events, 7);
    lemma_run_at_end(s8, events, 8);
}

/// A `Data` element with a non-empty `name` attribute `key` and the text
/// `value` (inside a `value` element) within the `ExtendedData` of a
/// placemark gives that placemark the entry `(key, value)`, and nothing else.
#[verifier::rlimit(30)]
pub proof fn lemma_data_entry_extracted(
    events: Seq<Option<XmlEvent>>,
    placemark: Tag,
    extended: Tag,
    data: Tag,
    key: Seq<char>,
    value_tag: Tag,
    value: String,
)
    requires
        events.len() == 10,
        events[0] == Some(XmlEvent::Open(placemark)),
        placemark.name@ == "Placemark"@,
        events[1] == Some(XmlEvent::Open(extended)),
        extended.name@ == "ExtendedData"@,
        events[2] == Some(XmlEvent::Open(data)),
        data.name@ == "Data"@,
        attribute_value(data.attributes@, "name"@) == Some(key),
        key.len() > 0,
        events[3] == Some(XmlEvent::Open(value_tag)),
        value_tag.name@ == "value"@,
        events[4] == Some(XmlEvent::Characters(Some(value))),
        events[5] matches Some(XmlEvent::Close(n)) && n@ == "value"@,
        events[6] matches Some(XmlEvent::Close(n)) && n@ == "Data"@,
        events[7] matches Some(XmlEvent::Close(n)) && n@ == "ExtendedData"@,
        events[8] matches Some(XmlEvent::Close(n)) && n@ == "Placemark"@,
        events[9] == Some(XmlEvent::EndOfFile),
    ensures
        placemarks_of_events(events) == Some(
            seq![PlacemarkView { extended_data: seq![(key, value@)], ..empty_placemark() }],
        ),
{
    reveal_strlit("Placemark");
    reveal_strlit("name");
    reveal_strlit("description");
    reveal_strlit("ExtendedData");
    reveal_strlit("Data");
    reveal_strlit("value");
    reveal_strlit("Point");
    reveal_strlit("LineString");
    reveal_strlit("Polygon");
    reveal_strlit("MultiGeometry");
    reveal_strlit("MultiTrack");
    reveal_strlit("gx:Track");
    assert("Data"@[0] == 'D' && "name"@[0] == 'n' && "value"@[0] == 'v' && "Point"@[0] == 'P');
    assert(!is_geometry_tag("ExtendedData"@));
    assert(!is_geometry_tag("Data"@));
    assert(!is_geometry_tag("value"@));
    assert("ExtendedData"@ != "Placemark"@ && "ExtendedData"@ != "name"@ && "ExtendedData"@ != "description"@);
    assert("Data"@ != "Placemark"@ && "Data"@ != "name"@ && "Data"@ != "description"@ && "Data"@ != "ExtendedData"@);
    assert("value"@ != "Placemark"@ && "value"@ != "name"@ && "value"@ != "description"@ && "value"@
        != "ExtendedData"@ && "value"@ != "Data"@);
    let entries = seq![(key, value@)];
    assert(!has_key(Seq::<(Seq<char>, Seq<char>)>::empty(), key));
    assert(data_insert(Seq::empty(), key, value@) =~= entries);
    let p = PlacemarkView { extended_data: entries, ..empty_placemark() };
    let s0 = initial_parser_state();
    let s1 = ParserStateView { in_placemark: true, current: Some(empty_placemark()), ..s0 };
    let s2 = ParserStateView { in_extended_data: true, ..s1 };
    let s3 = ParserStateView { in_data: true, data_name: key, ..s2 };
    let s5 = ParserStateView { current: Some(p), ..s3 };
    let s7 = ParserStateView { in_data: false, data_name: Seq::empty(), ..s5 };
    let s8 = ParserStateView { in_extended_data: false, ..s7 };
    let s9 = ParserStateView { in_placemark: false, placemarks: seq![p], current: None, ..s8 };
    assert(parser_step(s0, events[0]->0) =~= s1);
    assert(parser_step(s1, events[1]->0) =~= s2);
    assert(parser_step(s2, events[2]->0) =~= s3);
    assert(parser_step(s3, events[3]->0) =~= s3);
    assert(parser_step(s3, events[4]->0) =~= s5);
    assert(parser_step(s5, events[5]->0) =~= s5);
    assert(parser_step(s5, events[6]->0) =~= s7);
    assert(parser_step(s7, events[7]->0) =~= s8);
    assert(s8.placemarks.push(p) =~= seq![p]);
    assert(parser_step(s8, events[8]->0) =~= s9);
    assert(events.skip(0) =~= events);
    lemma_run_unfold(s0, events, 0);
    lemma_run_unfold(s1, events, 1);
    lemma_run_unfold(s2, events, 2);
    lemma_run_unfold(s3, events, 3);
    lemma_run_unfold(s3, events, 4);
    lemma_run_unfold(s5, events, 5);
    lemma_run_unfold(s5, events, 6);
    lemma_run_unfold(s7, events, 7);
    lemma_run_unfold(s8, events, 8);
    lemma_run_at_end(s9, events, 9);
}

} // verus!
