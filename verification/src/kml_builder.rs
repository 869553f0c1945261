//! Writing a KML document as text, and making the styles of an input file.
use vstd::prelude::*;
use crate::kml_types::{
    KmlDocument, KmlDocumentView, Placemark, PlacemarkView, Style, StyleMap, StyleMapView,
    StyleSettings, StyleSettingsView, StyleView,
};
use crate::error::AppResult;
use crate::text::{
    decimal, decimal_string, lemma_decimal_injective, lemma_prefix_cancel, split_whitespace, split_words,
    contains_text, lemma_contains_at, lemma_contains_in_concat, lemma_contains_trans, starts_with, ends_with,
    lemma_ends_with_append,
};
use crate::patterns::{regex_captures, regex_captures_iter, regex_compiles, compile, captures_all, captures_first};
use crate::kml_parser::placemark_views;
use crate::traits::KmlBuilderTrait;

verus! {

/// Identifier of the normal style made for the input file at `idx`.
pub open spec fn normal_style_id(idx: nat) -> Seq<char> {
    "normal_style_"@ + decimal(idx)
}

/// Identifier of the highlight style made for the input file at `idx`.
pub open spec fn highlight_style_id(idx: nat) -> Seq<char> {
    "highlight_style_"@ + decimal(idx)
}

/// Identifier of the style map made for the input file at `idx`; its
/// placemarks refer to it.
pub open spec fn style_map_id(idx: nat) -> Seq<char> {
    "style_"@ + decimal(idx)
}

/// The normal style made from settings: their colours and width.
pub open spec fn normal_style(idx: nat, s: StyleSettingsView) -> StyleView {
    StyleView {
        id: normal_style_id(idx),
        line_color: s.line_color,
        line_width: decimal(s.line_width as nat),
        fill_color: s.fill_color,
    }
}

/// The highlight style made from settings: their colours, and lines two
/// units wider.
pub open spec fn highlight_style(idx: nat, s: StyleSettingsView) -> StyleView {
    StyleView {
        id: highlight_style_id(idx),
        line_color: s.line_color,
        line_width: decimal(s.line_width as nat + 2),
        fill_color: s.fill_color,
    }
}

/// The highlight style differs from the normal style made from the same
/// settings only in its identifier and in a line two units wider: both keep
/// the line colour and the fill colour of the settings.
pub proof fn lemma_highlight_keeps_colours(idx: nat, s: StyleSettingsView)
    ensures
        highlight_style(idx, s).line_color == s.line_color,
        highlight_style(idx, s).fill_color == s.fill_color,
        normal_style(idx, s).line_color == s.line_color,
        normal_style(idx, s).fill_color == s.fill_color,
        highlight_style(idx, s) == (StyleView {
            id: "highlight_style_"@ + decimal(idx),
            line_width: decimal(s.line_width as nat + 2),
            ..normal_style(idx, s)
        }),
{
}

/// The style map made for the input file at `idx`.
pub open spec fn style_map_for(idx: nat) -> StyleMapView {
    StyleMapView {
        id: style_map_id(idx),
        normal_style_id: normal_style_id(idx),
        highlight_style_id: highlight_style_id(idx),
    }
}

/// Identifiers made for different files differ, and no normal style has
/// the identifier of a highlight style.
pub proof fn lemma_style_ids_distinct(i: nat, j: nat)
    ensures
        i != j ==> normal_style_id(i) != normal_style_id(j),
        i != j ==> highlight_style_id(i) != highlight_style_id(j),
        i != j ==> style_map_id(i) != style_map_id(j),
        normal_style_id(i) != highlight_style_id(j),
{
    if normal_style_id(i) == normal_style_id(j) {
        lemma_prefix_cancel("normal_style_"@, decimal(i), decimal(j));
        lemma_decimal_injective(i, j);
    }
    if highlight_style_id(i) == highlight_style_id(j) {
        lemma_prefix_cancel("highlight_style_"@, decimal(i), decimal(j));
        lemma_decimal_injective(i, j);
    }
    if style_map_id(i) == style_map_id(j) {
        lemma_prefix_cancel("style_"@, decimal(i), decimal(j));
        lemma_decimal_injective(i, j);
    }
    reveal_strlit("normal_style_");
    reveal_strlit("highlight_style_");
    assert(normal_style_id(i)[0] == 'n');
    assert(highlight_style_id(j)[0] == 'h');
}

/// The text of a style.
pub open spec fn style_block(st: StyleView) -> Seq<char> {
    "    <Style id=\""@ + st.id
        + "\">\n        <BalloonStyle>\n        </BalloonStyle>\n        <LineStyle>\n            <color>"@
        + st.line_color + "</color>\n            <width>"@ + st.line_width
        + "</width>\n        </LineStyle>\n        <PolyStyle>\n            <color>"@ + st.fill_color
        + "</color>\n            <fill>1</fill>\n            <outline>1</outline>\n        </PolyStyle>\n    </Style>\n"@
}

/// The text of a style map.
pub open spec fn style_map_block(m: StyleMapView) -> Seq<char> {
    "    <StyleMap id=\""@ + m.id
        + "\">\n        <Pair>\n            <key>normal</key>\n            <styleUrl>#"@
        + m.normal_style_id
        + "</styleUrl>\n        </Pair>\n        <Pair>\n            <key>highlight</key>\n            <styleUrl>#"@
        + m.highlight_style_id + "</styleUrl>\n        </Pair>\n    </StyleMap>\n"@
}

/// The text of one extended-data entry.
pub open spec fn data_entry_block(kv: (Seq<char>, Seq<char>)) -> Seq<char> {
    "            <Data name=\""@ + kv.0 + "\">\n                <value>"@ + kv.1
        + "</value>\n            </Data>\n"@
}

/// The texts of extended-data entries, in order.
pub open spec fn data_entries_text(d: Seq<(Seq<char>, Seq<char>)>) -> Seq<char>
    decreases d.len(),
{
    if d.len() == 0 {
        Seq::empty()
    } else {
        data_entries_text(d.drop_last()) + data_entry_block(d.last())
    }
}

/// The name line of a placemark, if it has a name.
pub open spec fn name_part(name: Option<Seq<char>>) -> Seq<char> {
    match name {
        Some(n) => "        <name>"@ + n + "</name>\n"@,
        None => Seq::empty(),
    }
}

/// The description line of a placemark, if it has one.
pub open spec fn description_part(description: Option<Seq<char>>) -> Seq<char> {
    match description {
        Some(d) => "        <description>"@ + d + "</description>\n"@,
        None => Seq::empty(),
    }
}

/// The extended-data element of a placemark, if it has any data.
pub open spec fn data_part(d: Seq<(Seq<char>, Seq<char>)>) -> Seq<char> {
    if d.len() == 0 {
        Seq::empty()
    } else {
        "        <ExtendedData>\n"@ + data_entries_text(d) + "        </ExtendedData>\n"@
    }
}

/// The text of a placemark: its name, its style reference, its
/// description, its extended data and its geometry as it was read.
pub open spec fn placemark_block(p: PlacemarkView) -> Seq<char> {
    "    <Placemark>\n"@ + name_part(p.name) + "        <styleUrl>#"@ + p.style_id + "</styleUrl>\n"@
        + description_part(p.description) + data_part(p.extended_data) + "        "@ + p.geometry
        + "\n"@ + "    </Placemark>\n"@
}

/// The texts of styles, in order.
pub open spec fn styles_text(s: Seq<StyleView>) -> Seq<char>
    decreases s.len(),
{
    if s.len() == 0 {
        Seq::empty()
    } else {
        styles_text(s.drop_last()) + style_block(s.last())
    }
}

/// The texts of style maps, in order.
pub open spec fn style_maps_text(s: Seq<StyleMapView>) -> Seq<char>
    decreases s.len(),
{
    if s.len() == 0 {
        Seq::empty()
    } else {
        style_maps_text(s.drop_last()) + style_map_block(s.last())
    }
}

/// The texts of placemarks, in order.
pub open spec fn placemarks_text(s: Seq<PlacemarkView>) -> Seq<char>
    decreases s.len(),
{
    if s.len() == 0 {
        Seq::empty()
    } else {
        placemarks_text(s.drop_last()) + placemark_block(s.last())
    }
}

/// The first lines of every KML text, up to the opening name tag.
pub open spec fn kml_header() -> Seq<char> {
    "<?xml version=\"1.0\" encoding=\"UTF-8\"?>\n<kml xmlns=\"http://www.opengis.net/kml/2.2\">\n<Document>\n    <name>"@
}

/// The last line of every KML text.
pub open spec fn kml_footer() -> Seq<char> {
    "</Document>\n</kml>"@
}

/// The opening part of the document: header, name, `open` flag and the
/// view settings, if any.
pub open spec fn kml_opening(name: Seq<char>, look_at: Option<Seq<char>>) -> Seq<char> {
    kml_header() + name + "</name>\n"@ + "    <open>1</open>\n"@ + match look_at {
        Some(l) => l,
        None => Seq::empty(),
    }
}

/// The KML text of a document: the opening part, the styles, the style
/// maps, the placemarks, and the closing lines.
pub open spec fn kml_text(doc: KmlDocumentView, look_at: Option<Seq<char>>) -> Seq<char> {
    kml_opening(doc.name, look_at) + styles_text(doc.styles) + style_maps_text(doc.style_maps)
        + placemarks_text(doc.placemarks) + kml_footer()
}

/// Every KML text starts with the XML declaration and the opening tags of
/// the `kml` and `Document` elements, and ends with their closing tags.
pub proof fn lemma_kml_text_framed(doc: KmlDocumentView, look_at: Option<Seq<char>>)
    ensures
        kml_text(doc, look_at).len() >= kml_header().len() + kml_footer().len(),
        kml_text(doc, look_at).subrange(0, kml_header().len() as int) == kml_header(),
        kml_text(doc, look_at).subrange(
            kml_text(doc, look_at).len() - kml_footer().len(),
            kml_text(doc, look_at).len() as int,
        ) == kml_footer(),
{
    let t = kml_text(doc, look_at);
    let body = kml_opening(doc.name, look_at) + styles_text(doc.styles) + style_maps_text(doc.style_maps)
        + placemarks_text(doc.placemarks);
    assert(t == body + kml_footer());
    assert(t.subrange(t.len() - kml_footer().len(), t.len() as int) =~= kml_footer());
    let rest = t.subrange(kml_header().len() as int, t.len() as int);
    assert(t =~= kml_header() + rest);
    assert(t.subrange(0, kml_header().len() as int) =~= kml_header());
    assert(kml_opening(doc.name, look_at).len() >= kml_header().len());
}

/// The style line and, right after it, the description line that a
/// placemark with the style `style_id` and the description `d` is written with.
pub open spec fn style_and_description_lines(style_id: Seq<char>, d: Seq<char>) -> Seq<char> {
    "        <styleUrl>#"@ + style_id + "</styleUrl>\n"@ + "        <description>"@ + d
        + "</description>\n"@
}

/// A placemark with a description is written with the line
/// `<description>d</description>` right after its style line.
pub proof fn lemma_block_writes_description(p: PlacemarkView)
    requires
        p.description is Some,
    ensures
        contains_text(placemark_block(p), style_and_description_lines(p.style_id, p.description->0)),
{
    let d = p.description->0;
    let w = style_and_description_lines(p.style_id, d);
    let head = "    <Placemark>\n"@ + name_part(p.name);
    let tail = data_part(p.extended_data) + "        "@ + p.geometry + "\n"@ + "    </Placemark>\n"@;
    assert(placemark_block(p) =~= head + w + tail);
    assert((head + w + tail).subrange(head.len() as int, (head.len() + w.len()) as int) =~= w);
    lemma_contains_at(placemark_block(p), w, head.len() as int);
}

proof fn lemma_placemarks_text_holds_blocks(s: Seq<PlacemarkView>, i: int)
    requires
        0 <= i < s.len(),
    ensures
        contains_text(placemarks_text(s), placemark_block(s[i])),
    decreases s.len(),
{
    let b = placemark_block(s[i]);
    if i == s.len() - 1 {
        assert(b.subrange(0, b.len() as int) =~= b);
        lemma_contains_at(b, b, 0);
        lemma_contains_in_concat(placemarks_text(s.drop_last()), b, b);
    } else {
        lemma_placemarks_text_holds_blocks(s.drop_last(), i);
        assert(s.drop_last()[i] == s[i]);
        lemma_contains_in_concat(placemarks_text(s.drop_last()), placemark_block(s.last()), b);
    }
}

/// Every placemark of a document that has a description is written with
/// its description: the KML text holds `<description>d</description>` on
/// the line right after the placemark's style line.
pub proof fn lemma_kml_text_writes_descriptions(doc: KmlDocumentView, look_at: Option<Seq<char>>, i: int)
    requires
        0 <= i < doc.placemarks.len(),
        doc.placemarks[i].description is Some,
    ensures
        contains_text(
            kml_text(doc, look_at),
            style_and_description_lines(doc.placemarks[i].style_id, doc.placemarks[i].description->0),
        ),
{
    let p = doc.placemarks[i];
    let w = style_and_description_lines(p.style_id, p.description->0);
    lemma_block_writes_description(p);
    lemma_placemarks_text_holds_blocks(doc.placemarks, i);
    let pt = placemarks_text(doc.placemarks);
    lemma_contains_trans(pt, placemark_block(p), w);
    let before = kml_opening(doc.name, look_at) + styles_text(doc.styles) + style_maps_text(doc.style_maps);
    lemma_contains_in_concat(before, pt, w);
    lemma_contains_in_concat(before + pt, kml_footer(), w);
    assert(kml_text(doc, look_at) == before + pt + kml_footer());
}

/// Writing a list of placemarks writes each in turn: the text of two lists
/// one after the other is the text of the first followed by that of the
/// second, and the text of one placemark is its block.
pub proof fn lemma_placemarks_written_in_turn(a: Seq<PlacemarkView>, b: Seq<PlacemarkView>)
    ensures
        placemarks_text(a + b) == placemarks_text(a) + placemarks_text(b),
        forall|p: PlacemarkView| #[trigger] placemarks_text(seq![p]) == placemark_block(p),
    decreases b.len(),
{
    if b.len() == 0 {
        assert(a + b =~= a);
        assert(placemarks_text(a) + placemarks_text(b) =~= placemarks_text(a));
    } else {
        lemma_placemarks_written_in_turn(a, b.drop_last());
        assert((a + b).drop_last() =~= a + b.drop_last());
        assert((a + b).last() == b.last());
        assert(placemarks_text(a + b) =~= placemarks_text(a) + placemarks_text(b));
    }
    assert forall|p: PlacemarkView| #[trigger] placemarks_text(seq![p]) == placemark_block(p) by {
        assert(seq![p].drop_last() =~= Seq::<PlacemarkView>::empty());
        assert(placemarks_text(seq![p].drop_last()) =~= Seq::<char>::empty());
        assert(seq![p].last() == p);
        assert(placemarks_text(seq![p]) =~= placemark_block(p));
    }
}

/// Writing a list of styles writes each in turn, as for placemarks.
pub proof fn lemma_styles_written_in_turn(a: Seq<StyleView>, b: Seq<StyleView>)
    ensures
        styles_text(a + b) == styles_text(a) + styles_text(b),
        forall|st: StyleView| #[trigger] styles_text(seq![st]) == style_block(st),
    decreases b.len(),
{
    if b.len() == 0 {
        assert(a + b =~= a);
        assert(styles_text(a) + styles_text(b) =~= styles_text(a));
    } else {
        lemma_styles_written_in_turn(a, b.drop_last());
        assert((a + b).drop_last() =~= a + b.drop_last());
        assert((a + b).last() == b.last());
        assert(styles_text(a + b) =~= styles_text(a) + styles_text(b));
    }
    assert forall|st: StyleView| #[trigger] styles_text(seq![st]) == style_block(st) by {
        assert(seq![st].drop_last() =~= Seq::<StyleView>::empty());
        assert(styles_text(seq![st].drop_last()) =~= Seq::<char>::empty());
        assert(seq![st].last() == st);
        assert(styles_text(seq![st]) =~= style_block(st));
    }
}

/// Writing a list of style maps writes each in turn, as for placemarks.
pub proof fn lemma_style_maps_written_in_turn(a: Seq<StyleMapView>, b: Seq<StyleMapView>)
    ensures
        style_maps_text(a + b) == style_maps_text(a) + style_maps_text(b),
        forall|m: StyleMapView| #[trigger] style_maps_text(seq![m]) == style_map_block(m),
    decreases b.len(),
{
    if b.len() == 0 {
        assert(a + b =~= a);
        assert(style_maps_text(a) + style_maps_text(b) =~= style_maps_text(a));
    } else {
        lemma_style_maps_written_in_turn(a, b.drop_last());
        assert((a + b).drop_last() =~= a + b.drop_last());
        assert((a + b).last() == b.last());
        assert(style_maps_text(a + b) =~= style_maps_text(a) + style_maps_text(b));
    }
    assert forall|m: StyleMapView| #[trigger] style_maps_text(seq![m]) == style_map_block(m) by {
        assert(seq![m].drop_last() =~= Seq::<StyleMapView>::empty());
        assert(style_maps_text(seq![m].drop_last()) =~= Seq::<char>::empty());
        assert(seq![m].last() == m);
        assert(style_maps_text(seq![m]) =~= style_map_block(m));
    }
}

/// Writing extended data writes each entry in turn, as for placemarks.
pub proof fn lemma_data_entries_written_in_turn(a: Seq<(Seq<char>, Seq<char>)>, b: Seq<(Seq<char>, Seq<char>)>)
    ensures
        data_entries_text(a + b) == data_entries_text(a) + data_entries_text(b),
        forall|kv: (Seq<char>, Seq<char>)| #[trigger] data_entries_text(seq![kv]) == data_entry_block(kv),
    decreases b.len(),
{
    if b.len() == 0 {
        assert(a + b =~= a);
        assert(data_entries_text(a) + data_entries_text(b) =~= data_entries_text(a));
    } else {
        lemma_data_entries_written_in_turn(a, b.drop_last());
        assert((a + b).drop_last() =~= a + b.drop_last());
        assert((a + b).last() == b.last());
        assert(data_entries_text(a + b) =~= data_entries_text(a) + data_entries_text(b));
    }
    assert forall|kv: (Seq<char>, Seq<char>)| #[trigger] data_entries_text(seq![kv]) == data_entry_block(kv) by {
        assert(seq![kv].drop_last() =~= Seq::<(Seq<char>, Seq<char>)>::empty());
        assert(data_entries_text(seq![kv].drop_last()) =~= Seq::<char>::empty());
        assert(seq![kv].last() == kv);
        assert(data_entries_text(seq![kv]) =~= data_entry_block(kv));
    }
}

proof fn lemma_data_entries_text_holds_entries(d: Seq<(Seq<char>, Seq<char>)>, j: int)
    requires
        0 <= j < d.len(),
    ensures
        contains_text(data_entries_text(d), data_entry_block(d[j])),
    decreases d.len(),
{
    let b = data_entry_block(d[j]);
    if j == d.len() - 1 {
        assert(b.subrange(0, b.len() as int) =~= b);
        lemma_contains_at(b, b, 0);
        lemma_contains_in_concat(data_entries_text(d.drop_last()), b, b);
    } else {
        lemma_data_entries_text_holds_entries(d.drop_last(), j);
        assert(d.drop_last()[j] == d[j]);
        lemma_contains_in_concat(data_entries_text(d.drop_last()), data_entry_block(d.last()), b);
    }
}

proof fn lemma_contains_part(x: Seq<char>, w: Seq<char>, y: Seq<char>)
    ensures
        contains_text(x + w + y, w),
{
    assert((x + w + y).subrange(x.len() as int, (x.len() + w.len()) as int) =~= w);
    lemma_contains_at(x + w + y, w, x.len() as int);
}

proof fn lemma_block_frame(p: PlacemarkView)
    ensures
        starts_with(placemark_block(p), "    <Placemark>\n"@),
        ends_with(placemark_block(p), "    </Placemark>\n"@),
{
    let h = "    <Placemark>\n"@;
    let b = placemark_block(p);
    let mid = name_part(p.name) + "        <styleUrl>#"@ + p.style_id + "</styleUrl>\n"@ + description_part(
        p.description,
    ) + data_part(p.extended_data) + "        "@ + p.geometry + "\n"@;
    assert(b =~= h + (mid + "    </Placemark>\n"@));
    assert(b.subrange(0, h.len() as int) =~= h);
    assert(b =~= (h + mid) + "    </Placemark>\n"@);
    lemma_ends_with_append(h + mid, "    </Placemark>\n"@);
}

proof fn lemma_block_writes_name(p: PlacemarkView)
    ensures
        p.name matches Some(n) ==> contains_text(placemark_block(p), "        <name>"@ + n + "</name>\n"@),
{
    if let Some(n) = p.name {
        let rest = "        <styleUrl>#"@ + p.style_id + "</styleUrl>\n"@ + description_part(p.description)
            + data_part(p.extended_data) + "        "@ + p.geometry + "\n"@ + "    </Placemark>\n"@;
        assert(placemark_block(p) =~= "    <Placemark>\n"@ + name_part(p.name) + rest);
        lemma_contains_part("    <Placemark>\n"@, name_part(p.name), rest);
    }
}

proof fn lemma_block_writes_style_line(p: PlacemarkView)
    ensures
        contains_text(placemark_block(p), "        <styleUrl>#"@ + p.style_id + "</styleUrl>\n"@),
{
    let sl = "        <styleUrl>#"@ + p.style_id + "</styleUrl>\n"@;
    let head = "    <Placemark>\n"@ + name_part(p.name);
    let rest = description_part(p.description) + data_part(p.extended_data) + "        "@ + p.geometry + "\n"@
        + "    </Placemark>\n"@;
    assert(placemark_block(p) =~= head + sl + rest);
    lemma_contains_part(head, sl, rest);
}

proof fn lemma_block_writes_geometry(p: PlacemarkView)
    ensures
        contains_text(placemark_block(p), "        "@ + p.geometry + "\n"@ + "    </Placemark>\n"@),
{
    let gl = "        "@ + p.geometry + "\n"@ + "    </Placemark>\n"@;
    let head = "    <Placemark>\n"@ + name_part(p.name) + "        <styleUrl>#"@ + p.style_id + "</styleUrl>\n"@
        + description_part(p.description) + data_part(p.extended_data);
    assert(placemark_block(p) =~= head + gl + Seq::empty());
    lemma_contains_part(head, gl, Seq::empty());
}

proof fn lemma_block_writes_data(p: PlacemarkView, j: int)
    requires
        0 <= j < p.extended_data.len(),
    ensures
        contains_text(placemark_block(p), data_entry_block(p.extended_data[j])),
{
    let w = data_entry_block(p.extended_data[j]);
    let dt = data_entries_text(p.extended_data);
    let xp = data_part(p.extended_data);
    let head = "    <Placemark>\n"@ + name_part(p.name) + "        <styleUrl>#"@ + p.style_id + "</styleUrl>\n"@
        + description_part(p.description);
    let gl = "        "@ + p.geometry + "\n"@ + "    </Placemark>\n"@;
    lemma_data_entries_text_holds_entries(p.extended_data, j);
    assert(xp == "        <ExtendedData>\n"@ + dt + "        </ExtendedData>\n"@);
    lemma_contains_part("        <ExtendedData>\n"@, dt, "        </ExtendedData>\n"@);
    lemma_contains_trans(xp, dt, w);
    assert(placemark_block(p) =~= head + xp + gl);
    lemma_contains_part(head, xp, gl);
    lemma_contains_trans(placemark_block(p), xp, w);
}

/// A placemark is written with all it holds: the block opens with
/// `<Placemark>` and closes with `</Placemark>`, and holds its name line
/// (where it has a name), its style line, its description line (where it
/// has one), a `Data` element with the name and value of each
/// extended-data entry, and its geometry on a line of its own just before
/// the closing tag.
pub proof fn lemma_block_writes_fields(p: PlacemarkView)
    ensures
        starts_with(placemark_block(p), "    <Placemark>\n"@),
        ends_with(placemark_block(p), "    </Placemark>\n"@),
        p.name matches Some(n) ==> contains_text(placemark_block(p), "        <name>"@ + n + "</name>\n"@),
        contains_text(placemark_block(p), "        <styleUrl>#"@ + p.style_id + "</styleUrl>\n"@),
        p.description matches Some(d) ==> contains_text(
            placemark_block(p),
            style_and_description_lines(p.style_id, d),
        ),
        forall|j: int|
            0 <= j < p.extended_data.len() ==> contains_text(
                placemark_block(p),
                "            <Data name=\""@ + (#[trigger] p.extended_data[j]).0 + "\">\n                <value>"@
                    + p.extended_data[j].1 + "</value>\n            </Data>\n"@,
            ),
        contains_text(placemark_block(p), "        "@ + p.geometry + "\n"@ + "    </Placemark>\n"@),
{
    lemma_block_frame(p);
    lemma_block_writes_name(p);
    lemma_block_writes_style_line(p);
    if p.description is Some {
        lemma_block_writes_description(p);
    }
    lemma_block_writes_geometry(p);
    assert forall|j: int| 0 <= j < p.extended_data.len() implies contains_text(
        placemark_block(p),
        "            <Data name=\""@ + (#[trigger] p.extended_data[j]).0 + "\">\n                <value>"@
            + p.extended_data[j].1 + "</value>\n            </Data>\n"@,
    ) by {
        lemma_block_writes_data(p, j);
    }
}

/// Every placemark of a document is written into its KML text with all it
/// holds (see `lemma_block_writes_fields`).
pub proof fn lemma_kml_text_writes_placemark(doc: KmlDocumentView, look_at: Option<Seq<char>>, i: int)
    requires
        0 <= i < doc.placemarks.len(),
    ensures
        contains_text(kml_text(doc, look_at), placemark_block(doc.placemarks[i])),
{
    let pt = placemarks_text(doc.placemarks);
    let b = placemark_block(doc.placemarks[i]);
    lemma_placemarks_text_holds_blocks(doc.placemarks, i);
    let before = kml_opening(doc.name, look_at) + styles_text(doc.styles) + style_maps_text(doc.style_maps);
    lemma_contains_in_concat(before, pt, b);
    lemma_contains_in_concat(before + pt, kml_footer(), b);
    assert(kml_text(doc, look_at) == before + pt + kml_footer());
}

/// Writes KML documents and makes styles.
pub struct KmlBuilder;

impl KmlBuilder {
    fn style_string(st: &Style) -> (r: String)
        ensures
            r@ == style_block(st@),
    {
        let mut r = String::from_str("    <Style id=\"");
        r.append(st.id.as_str());
        r.append("\">\n        <BalloonStyle>\n        </BalloonStyle>\n        <LineStyle>\n            <color>");
        r.append(st.line_color.as_str());
        r.append("</color>\n            <width>");
        r.append(st.line_width.as_str());
        r.append("</width>\n        </LineStyle>\n        <PolyStyle>\n            <color>");
        r.append(st.fill_color.as_str());
        r.append("</color>\n            <fill>1</fill>\n            <outline>1</outline>\n        </PolyStyle>\n    </Style>\n");
        r
    }

    fn style_map_string(m: &StyleMap) -> (r: String)
        ensures
            r@ == style_map_block(m@),
    {
        let mut r = String::from_str("    <StyleMap id=\"");
        r.append(m.id.as_str());
        r.append("\">\n        <Pair>\n            <key>normal</key>\n            <styleUrl>#");
        r.append(m.normal_style_id.as_str());
        r.append("</styleUrl>\n        </Pair>\n        <Pair>\n            <key>highlight</key>\n            <styleUrl>#");
        r.append(m.highlight_style_id.as_str());
        r.append("</styleUrl>\n        </Pair>\n    </StyleMap>\n");
        r
    }

    fn placemark_string(p: &Placemark) -> (r: String)
        ensures
            r@ == placemark_block(p@),
    {
        let mut r = String::from_str("    <Placemark>\n");
        let ghost s0 = r@;
        match &p.name {
            Some(n) => {
                r.append("        <name>");
                r.append(n.as_str());
                r.append("</name>\n");
            },
            None => {},
        }
        assert(r@ =~= s0 + name_part(p@.name));
        r.append("        <styleUrl>#");
        r.append(p.style_id.as_str());
        r.append("</styleUrl>\n");
        let ghost s1 = r@;
        match &p.description {
            Some(d) => {
                r.append("        <description>");
                r.append(d.as_str());
                r.append("</description>\n");
            },
            None => {},
        }
        assert(r@ =~= s1 + description_part(p@.description));
        let ghost s2 = r@;
        let n = p.extended_data.len();
        if n != 0 {
            r.append("        <ExtendedData>\n");
            let ghost s3 = r@;
            let mut i: usize = 0;
            while i < n
                invariant
                    n == p.extended_data.len(),
                    0 <= i <= n,
                    r@ == s3 + data_entries_text(p@.extended_data.take(i as int)),
                decreases n - i,
            {
                let kv = &p.extended_data[i];
                r.append("            <Data name=\"");
                r.append(kv.0.as_str());
                r.append("\">\n                <value>");
                r.append(kv.1.as_str());
                r.append("</value>\n            </Data>\n");
                assert(p@.extended_data.take(i + 1).drop_last() =~= p@.extended_data.take(i as int));
                assert(p@.extended_data[i as int] == (kv.0@, kv.1@));
                assert(r@ =~= s3 + data_entries_text(p@.extended_data.take(i + 1)));
                i = i + 1;
            }
            assert(p@.extended_data.take(n as int) =~= p@.extended_data);
            r.append("        </ExtendedData>\n");
        }
        assert(r@ =~= s2 + data_part(p@.extended_data));
        r.append("        ");
        r.append(p.geometry.as_str());
        r.append("\n");
        r.append("    </Placemark>\n");
        r
    }

}

impl KmlBuilderTrait for KmlBuilder {
    /// Writes a document as KML text. `look_at`, when there is one, is the
    /// camera element that the text carries after the document's name.
    fn build_kml(document: &KmlDocument, look_at: &Option<String>) -> (r: AppResult<String>) {
        let mut kml = String::from_str(
            "<?xml version=\"1.0\" encoding=\"UTF-8\"?>\n<kml xmlns=\"http://www.opengis.net/kml/2.2\">\n<Document>\n    <name>",
        );
        kml.append(document.name.as_str());
        kml.append("</name>\n");
        kml.append("    <open>1</open>\n");
        let ghost before_look = kml@;
        match look_at {
            Some(l) => {
                kml.append(l.as_str());
            },
            None => {},
        }
        assert(kml@ =~= kml_opening(document@.name, look_at.deep_view()));
        let ghost base = kml@;
        let n = document.styles.len();
        let mut i: usize = 0;
        while i < n
            invariant
                n == document.styles.len(),
                0 <= i <= n,
                kml@ == base + styles_text(document@.styles.take(i as int)),
            decreases n - i,
        {
            let t = Self::style_string(&document.styles[i]);
            kml.append(t.as_str());
            assert(document@.styles.take(i + 1).drop_last() =~= document@.styles.take(i as int));
            assert(kml@ =~= base + styles_text(document@.styles.take(i + 1)));
            i = i + 1;
        }
        assert(document@.styles.take(n as int) =~= document@.styles);
        let ghost base = kml@;
        let n = document.style_maps.len();
        let mut i: usize = 0;
        while i < n
            invariant
                n == document.style_maps.len(),
                0 <= i <= n,
                kml@ == base + style_maps_text(document@.style_maps.take(i as int)),
            decreases n - i,
        {
            let t = Self::style_map_string(&document.style_maps[i]);
            kml.append(t.as_str());
            assert(document@.style_maps.take(i + 1).drop_last() =~= document@.style_maps.take(i as int));
            assert(kml@ =~= base + style_maps_text(document@.style_maps.take(i + 1)));
            i = i + 1;
        }
        assert(document@.style_maps.take(n as int) =~= document@.style_maps);
        let ghost base = kml@;
        let n = document.placemarks.len();
        let mut i: usize = 0;
        while i < n
            invariant
                n == document.placemarks.len(),
                0 <= i <= n,
                kml@ == base + placemarks_text(document@.placemarks.take(i as int)),
            decreases n - i,
        {
            let t = Self::placemark_string(&document.placemarks[i]);
            kml.append(t.as_str());
            assert(document@.placemarks.take(i + 1).drop_last() =~= document@.placemarks.take(i as int));
            assert(kml@ =~= base + placemarks_text(document@.placemarks.take(i + 1)));
            i = i + 1;
        }
        assert(document@.placemarks.take(n as int) =~= document@.placemarks);
        kml.append("</Document>\n</kml>");
        assert(kml@ =~= kml_text(document@, look_at.deep_view()));
        Ok(kml)
    }

    /// Makes the styles of the input file at `base_id`: a normal style, a
    /// highlight style with lines two units wider, and the style map that
    /// joins them.
    fn create_styles_from_settings(base_id: usize, settings: &StyleSettings) -> (r: (Style, Style, StyleMap)) {
        let idx = decimal_string(base_id as u64);
        let mut normal_style_id = String::from_str("normal_style_");
        normal_style_id.append(idx.as_str());
        let mut highlight_style_id = String::from_str("highlight_style_");
        highlight_style_id.append(idx.as_str());
        let mut style_map_id = String::from_str("style_");
        style_map_id.append(idx.as_str());

        let normal_style = Style {
            id: normal_style_id.clone(),
            line_color: settings.line_color.clone(),
            line_width: decimal_string(settings.line_width as u64),
            fill_color: settings.fill_color.clone(),
        };
        let highlight_style = Style {
            id: highlight_style_id.clone(),
            line_color: settings.line_color.clone(),
            line_width: decimal_string((settings.line_width + 2) as u64),
            fill_color: settings.fill_color.clone(),
        };
        let style_map = StyleMap { id: style_map_id, normal_style_id, highlight_style_id };
        (normal_style, highlight_style, style_map)
    }
}

/// The pattern of a coordinates element; its group 1 is the element's content.
pub open spec fn coordinates_block_pattern() -> Seq<char> {
    "<coordinates>([\\s\\S]*?)</coordinates>"@
}

/// The pattern of a `lon,lat[,alt]` tuple; groups 1 and 2 are the longitude
/// and the latitude.
pub open spec fn coordinate_tuple_pattern() -> Seq<char> {
    "(-?\\d+\\.?\\d*)\\s*,\\s*(-?\\d+\\.?\\d*)(?:\\s*,\\s*-?\\d+\\.?\\d*)?"@
}

/// The longitude and latitude texts of a tuple's match, if it has both.
pub open spec fn tuple_pair(m: Option<Seq<Option<Seq<char>>>>) -> Seq<(Seq<char>, Seq<char>)> {
    match m {
        Some(g) => if g.len() > 2 && g[1] is Some && g[2] is Some {
            seq![(g[1]->0, g[2]->0)]
        } else {
            Seq::empty()
        },
        None => Seq::empty(),
    }
}

/// The coordinate pairs of whitespace-separated words, in order.
pub open spec fn words_pairs(words: Seq<Seq<char>>) -> Seq<(Seq<char>, Seq<char>)>
    decreases words.len(),
{
    if words.len() == 0 {
        Seq::empty()
    } else {
        words_pairs(words.drop_last()) + tuple_pair(regex_captures(coordinate_tuple_pattern(), words.last()))
    }
}

/// The coordinate pairs of one coordinates element's match.
pub open spec fn block_pairs(c: Seq<Option<Seq<char>>>) -> Seq<(Seq<char>, Seq<char>)> {
    if c.len() > 1 && c[1] is Some {
        words_pairs(split_whitespace(c[1]->0))
    } else {
        Seq::empty()
    }
}

/// Whether a word matches the tuple pattern with both a longitude and a latitude.
pub open spec fn is_tuple_word(w: Seq<char>) -> bool {
    regex_captures(coordinate_tuple_pattern(), w) matches Some(g) && g.len() > 2 && g[1] is Some
        && g[2] is Some
}

/// The longitude and latitude texts of a word that matches the tuple pattern.
pub open spec fn word_pair(w: Seq<char>) -> (Seq<char>, Seq<char>) {
    let g = regex_captures(coordinate_tuple_pattern(), w)->0;
    (g[1]->0, g[2]->0)
}

proof fn lemma_words_pairs_cover(ws: Seq<Seq<char>>)
    ensures
        words_pairs(ws).len() <= ws.len(),
        forall|k: int| 0 <= k < ws.len() && is_tuple_word(#[trigger] ws[k]) ==> words_pairs(ws).contains(word_pair(ws[k])),
        (forall|k: int| 0 <= k < ws.len() ==> is_tuple_word(#[trigger] ws[k])) ==> {
            &&& words_pairs(ws).len() == ws.len()
            &&& forall|k: int| 0 <= k < ws.len() ==> #[trigger] words_pairs(ws)[k] == word_pair(ws[k])
        },
    decreases ws.len(),
{
    if ws.len() > 0 {
        let front = ws.drop_last();
        lemma_words_pairs_cover(front);
        let prev = words_pairs(front);
        let t = tuple_pair(regex_captures(coordinate_tuple_pattern(), ws.last()));
        assert(words_pairs(ws) == prev + t);
        assert(t.len() <= 1);
        if is_tuple_word(ws.last()) {
            assert(t =~= seq![word_pair(ws.last())]);
        }
        assert forall|k: int| 0 <= k < ws.len() && is_tuple_word(#[trigger] ws[k]) implies words_pairs(ws).contains(
            word_pair(ws[k]),
        ) by {
            if k < ws.len() - 1 {
                assert(front[k] == ws[k]);
                let x = choose|x: int| 0 <= x < prev.len() && prev[x] == word_pair(front[k]);
                assert((prev + t)[x] == prev[x]);
            } else {
                assert((prev + t)[prev.len() as int] == word_pair(ws[k]));
            }
        }
        if forall|k: int| 0 <= k < ws.len() ==> is_tuple_word(#[trigger] ws[k]) {
            assert forall|k: int| 0 <= k < front.len() implies is_tuple_word(#[trigger] front[k]) by {
                assert(front[k] == ws[k]);
            }
            assert(is_tuple_word(ws[ws.len() - 1]));
            assert forall|k: int| 0 <= k < ws.len() implies #[trigger] words_pairs(ws)[k] == word_pair(ws[k]) by {
                if k < ws.len() - 1 {
                    assert(front[k] == ws[k]);
                    assert(prev[k] == word_pair(front[k]));
                }
            }
        }
    }
}

/// Every whitespace-separated word of a coordinates element that matches
/// the tuple pattern gives its pair: the element's pairs are no more than
/// its words, hold the pair of each matching word (the last one too), and
/// where every word matches, there is one pair per word, in word order.
pub proof fn lemma_block_pairs_cover_words(c: Seq<Option<Seq<char>>>)
    requires
        c.len() > 1,
        c[1] is Some,
    ensures
        block_pairs(c).len() <= split_whitespace(c[1]->0).len(),
        forall|k: int|
            0 <= k < split_whitespace(c[1]->0).len() && is_tuple_word(#[trigger] split_whitespace(c[1]->0)[k])
                ==> block_pairs(c).contains(word_pair(split_whitespace(c[1]->0)[k])),
        (forall|k: int|
            0 <= k < split_whitespace(c[1]->0).len() ==> is_tuple_word(#[trigger] split_whitespace(c[1]->0)[k]))
            ==> {
            &&& block_pairs(c).len() == split_whitespace(c[1]->0).len()
            &&& forall|k: int|
                0 <= k < split_whitespace(c[1]->0).len() ==> #[trigger] block_pairs(c)[k] == word_pair(
                    split_whitespace(c[1]->0)[k],
                )
        },
{
    lemma_words_pairs_cover(split_whitespace(c[1]->0));
}

/// The coordinate pairs of all coordinates elements' matches, in order.
pub open spec fn blocks_pairs(cs: Seq<Seq<Option<Seq<char>>>>) -> Seq<(Seq<char>, Seq<char>)>
    decreases cs.len(),
{
    if cs.len() == 0 {
        Seq::empty()
    } else {
        blocks_pairs(cs.drop_last()) + block_pairs(cs.last())
    }
}

/// The coordinate pairs of a geometry's text.
pub open spec fn geometry_pairs(g: Seq<char>) -> Seq<(Seq<char>, Seq<char>)> {
    blocks_pairs(regex_captures_iter(coordinates_block_pattern(), g))
}

/// The coordinate pairs of the placemarks' geometries, in order.
pub open spec fn placemarks_pairs(ps: Seq<PlacemarkView>) -> Seq<(Seq<char>, Seq<char>)>
    decreases ps.len(),
{
    if ps.len() == 0 {
        Seq::empty()
    } else {
        placemarks_pairs(ps.drop_last()) + geometry_pairs(ps.last().geometry)
    }
}

proof fn lemma_pairs_contains_concat(
    a: Seq<(Seq<char>, Seq<char>)>,
    b: Seq<(Seq<char>, Seq<char>)>,
    x: (Seq<char>, Seq<char>),
)
    ensures
        a.contains(x) ==> (a + b).contains(x),
        b.contains(x) ==> (a + b).contains(x),
{
    if a.contains(x) {
        let i = choose|i: int| 0 <= i < a.len() && a[i] == x;
        assert((a + b)[i] == x);
    }
    if b.contains(x) {
        let i = choose|i: int| 0 <= i < b.len() && b[i] == x;
        assert((a + b)[a.len() + i] == x);
    }
}

proof fn lemma_blocks_pairs_hold(cs: Seq<Seq<Option<Seq<char>>>>, j: int, x: (Seq<char>, Seq<char>))
    requires
        0 <= j < cs.len(),
        block_pairs(cs[j]).contains(x),
    ensures
        blocks_pairs(cs).contains(x),
    decreases cs.len(),
{
    if j < cs.len() - 1 {
        assert(cs.drop_last()[j] == cs[j]);
        lemma_blocks_pairs_hold(cs.drop_last(), j, x);
    }
    lemma_pairs_contains_concat(blocks_pairs(cs.drop_last()), block_pairs(cs.last()), x);
}

proof fn lemma_placemarks_pairs_hold(ps: Seq<PlacemarkView>, i: int, x: (Seq<char>, Seq<char>))
    requires
        0 <= i < ps.len(),
        geometry_pairs(ps[i].geometry).contains(x),
    ensures
        placemarks_pairs(ps).contains(x),
    decreases ps.len(),
{
    if i < ps.len() - 1 {
        assert(ps.drop_last()[i] == ps[i]);
        lemma_placemarks_pairs_hold(ps.drop_last(), i, x);
    }
    lemma_pairs_contains_concat(placemarks_pairs(ps.drop_last()), geometry_pairs(ps.last().geometry), x);
}

/// The pairs of a list of geometries are taken placemark by placemark, in
/// order: those of two lists one after the other are the pairs of the
/// first followed by those of the second, and the pairs of one placemark
/// are those of its geometry.
pub proof fn lemma_placemarks_pairs_in_turn(a: Seq<PlacemarkView>, b: Seq<PlacemarkView>)
    ensures
        placemarks_pairs(a + b) == placemarks_pairs(a) + placemarks_pairs(b),
        forall|p: PlacemarkView| #[trigger] placemarks_pairs(seq![p]) == geometry_pairs(p.geometry),
    decreases b.len(),
{
    if b.len() == 0 {
        assert(a + b =~= a);
        assert(placemarks_pairs(a) + placemarks_pairs(b) =~= placemarks_pairs(a));
    } else {
        lemma_placemarks_pairs_in_turn(a, b.drop_last());
        assert((a + b).drop_last() =~= a + b.drop_last());
        assert((a + b).last() == b.last());
        assert(placemarks_pairs(a + b) =~= placemarks_pairs(a) + placemarks_pairs(b));
    }
    assert forall|p: PlacemarkView| #[trigger] placemarks_pairs(seq![p]) == geometry_pairs(p.geometry) by {
        assert(seq![p].drop_last() =~= Seq::<PlacemarkView>::empty());
        assert(placemarks_pairs(seq![p].drop_last()) =~= Seq::<(Seq<char>, Seq<char>)>::empty());
        assert(seq![p].last() == p);
        assert(placemarks_pairs(seq![p]) =~= geometry_pairs(p.geometry));
    }
}

/// The pairs of a geometry's coordinates elements are taken element by
/// element, in order, as for placemarks.
pub proof fn lemma_blocks_pairs_in_turn(a: Seq<Seq<Option<Seq<char>>>>, b: Seq<Seq<Option<Seq<char>>>>)
    ensures
        blocks_pairs(a + b) == blocks_pairs(a) + blocks_pairs(b),
        forall|c: Seq<Option<Seq<char>>>| #[trigger] blocks_pairs(seq![c]) == block_pairs(c),
    decreases b.len(),
{
    if b.len() == 0 {
        assert(a + b =~= a);
        assert(blocks_pairs(a) + blocks_pairs(b) =~= blocks_pairs(a));
    } else {
        lemma_blocks_pairs_in_turn(a, b.drop_last());
        assert((a + b).drop_last() =~= a + b.drop_last());
        assert((a + b).last() == b.last());
        assert(blocks_pairs(a + b) =~= blocks_pairs(a) + blocks_pairs(b));
    }
    assert forall|c: Seq<Option<Seq<char>>>| #[trigger] blocks_pairs(seq![c]) == block_pairs(c) by {
        assert(seq![c].drop_last() =~= Seq::<Seq<Option<Seq<char>>>>::empty());
        assert(blocks_pairs(seq![c].drop_last()) =~= Seq::<(Seq<char>, Seq<char>)>::empty());
        assert(seq![c].last() == c);
        assert(blocks_pairs(seq![c]) =~= block_pairs(c));
    }
}

/// The pairs of words are taken word by word, in order: a word that
/// matches the tuple pattern gives its pair, any other word none.
pub proof fn lemma_words_pairs_in_turn(a: Seq<Seq<char>>, b: Seq<Seq<char>>)
    ensures
        words_pairs(a + b) == words_pairs(a) + words_pairs(b),
        forall|w: Seq<char>| is_tuple_word(w) ==> #[trigger] words_pairs(seq![w]) == seq![word_pair(w)],
        forall|w: Seq<char>| !is_tuple_word(w) ==> #[trigger] words_pairs(seq![w]).len() == 0,
    decreases b.len(),
{
    if b.len() == 0 {
        assert(a + b =~= a);
        assert(words_pairs(a) + words_pairs(b) =~= words_pairs(a));
    } else {
        lemma_words_pairs_in_turn(a, b.drop_last());
        assert((a + b).drop_last() =~= a + b.drop_last());
        assert((a + b).last() == b.last());
        assert(words_pairs(a + b) =~= words_pairs(a) + words_pairs(b));
    }
    assert forall|w: Seq<char>| #[trigger] words_pairs(seq![w]) == tuple_pair(
        regex_captures(coordinate_tuple_pattern(), w),
    ) by {
        assert(seq![w].drop_last() =~= Seq::<Seq<char>>::empty());
        assert(words_pairs(seq![w].drop_last()) =~= Seq::<(Seq<char>, Seq<char>)>::empty());
        assert(seq![w].last() == w);
        assert(words_pairs(seq![w]) =~= tuple_pair(regex_captures(coordinate_tuple_pattern(), w)));
    }
    assert forall|w: Seq<char>| is_tuple_word(w) implies #[trigger] words_pairs(seq![w]) == seq![word_pair(w)] by {
        assert(tuple_pair(regex_captures(coordinate_tuple_pattern(), w)) =~= seq![word_pair(w)]);
    }
}

/// No coordinate tuple is lost: for every placemark, every
/// `<coordinates>` element of its geometry and every whitespace-separated
/// word of that element which matches the tuple pattern, the pair of that
/// word is among the coordinate pairs of the placemarks.
pub proof fn lemma_placemarks_pairs_hold_every_tuple(ps: Seq<PlacemarkView>, i: int, j: int, k: int)
    requires
        0 <= i < ps.len(),
        0 <= j < regex_captures_iter(coordinates_block_pattern(), ps[i].geometry).len(),
        regex_captures_iter(coordinates_block_pattern(), ps[i].geometry)[j].len() > 1,
        regex_captures_iter(coordinates_block_pattern(), ps[i].geometry)[j][1] is Some,
        0 <= k < split_whitespace(regex_captures_iter(coordinates_block_pattern(), ps[i].geometry)[j][1]->0).len(),
        is_tuple_word(split_whitespace(regex_captures_iter(coordinates_block_pattern(), ps[i].geometry)[j][1]->0)[k]),
    ensures
        placemarks_pairs(ps).contains(
            word_pair(split_whitespace(regex_captures_iter(coordinates_block_pattern(), ps[i].geometry)[j][1]->0)[k]),
        ),
{
    let cs = regex_captures_iter(coordinates_block_pattern(), ps[i].geometry);
    let ws = split_whitespace(cs[j][1]->0);
    lemma_block_pairs_cover_words(cs[j]);
    assert(is_tuple_word(ws[k]));
    let x = word_pair(ws[k]);
    assert(block_pairs(cs[j]).contains(x));
    lemma_blocks_pairs_hold(cs, j, x);
    lemma_placemarks_pairs_hold(ps, i, x);
}

impl KmlBuilder {
    /// The `(longitude, latitude)` texts of every coordinate tuple in the
    /// placemarks' geometries, in order: for each `<coordinates>` element,
    /// each whitespace-separated word that matches the tuple pattern gives
    /// its first two numbers. `None` when a pattern does not compile.
    pub fn coordinate_pairs(placemarks: &Vec<Placemark>) -> (r: Option<Vec<(String, String)>>)
        ensures
            r is Some <==> regex_compiles(coordinates_block_pattern()) && regex_compiles(coordinate_tuple_pattern()),
            r matches Some(v) ==> v.deep_view() == placemarks_pairs(placemark_views(placemarks@)),
    {
        let block_re = match compile("<coordinates>([\\s\\S]*?)</coordinates>") {
            Ok(re) => re,
            Err(_) => {
                return None;
            },
        };
        let tuple_re = match compile("(-?\\d+\\.?\\d*)\\s*,\\s*(-?\\d+\\.?\\d*)(?:\\s*,\\s*-?\\d+\\.?\\d*)?") {
            Ok(re) => re,
            Err(_) => {
                return None;
            },
        };
        let ghost views = placemark_views(placemarks@);
        let mut pairs: Vec<(String, String)> = Vec::new();
        let n = placemarks.len();
        let mut i: usize = 0;
        while i < n
            invariant
                n == placemarks.len(),
                0 <= i <= n,
                views == placemark_views(placemarks@),
                block_re.pattern() == coordinates_block_pattern(),
                tuple_re.pattern() == coordinate_tuple_pattern(),
                pairs.deep_view() == placemarks_pairs(views.take(i as int)),
            decreases n - i,
        {
            let blocks = captures_all(&block_re, placemarks[i].geometry.as_str());
            let ghost cs = blocks.deep_view();
            let ghost base = pairs.deep_view();
            let m = blocks.len();
            let mut j: usize = 0;
            while j < m
                invariant
                    m == blocks.len(),
                    0 <= j <= m,
                    cs == blocks.deep_view(),
                    tuple_re.pattern() == coordinate_tuple_pattern(),
                    pairs.deep_view() == base + blocks_pairs(cs.take(j as int)),
                decreases m - j,
            {
                let c = &blocks[j];
                assert(cs[j as int] == c.deep_view());
                let ghost before_block = pairs.deep_view();
                if c.len() > 1 {
                    match &c[1] {
                        Some(content) => {
                            assert(c.deep_view()[1] == Some(content@));
                            let words = split_words(content.as_str());
                            let ghost ws = words.deep_view();
                            let w = words.len();
                            let mut k: usize = 0;
                            while k < w
                                invariant
                                    w == words.len(),
                                    0 <= k <= w,
                                    ws == words.deep_view(),
                                    tuple_re.pattern() == coordinate_tuple_pattern(),
                                    pairs.deep_view() == before_block + words_pairs(ws.take(k as int)),
                                decreases w - k,
                            {
                                let found = captures_first(&tuple_re, words[k].as_str());
                                let ghost before_word = pairs.deep_view();
                                match &found {
                                    Some(g) => {
                                        if g.len() > 2 {
                                            match (&g[1], &g[2]) {
                                                (Some(lon), Some(lat)) => {
                                                    assert(g.deep_view()[1] == Some(lon@));
                                                    assert(g.deep_view()[2] == Some(lat@));
                                                    pairs.push((lon.clone(), lat.clone()));
                                                    assert(pairs.deep_view() =~= before_word + seq![(lon@, lat@)]);
                                                },
                                                _ => {
                                                    assert(!(g.deep_view()[1] is Some && g.deep_view()[2] is Some));
                                                    assert(pairs.deep_view() =~= before_word + Seq::empty());
                                                },
                                            }
                                        } else {
                                            assert(pairs.deep_view() =~= before_word + Seq::empty());
                                        }
                                    },
                                    None => {
                                        assert(pairs.deep_view() =~= before_word + Seq::empty());
                                    },
                                }
                                assert(ws.take(k + 1).drop_last() =~= ws.take(k as int));
                                assert(pairs.deep_view() =~= before_block + words_pairs(ws.take(k + 1)));
                                k = k + 1;
                            }
                            assert(ws.take(w as int) =~= ws);
                        },
                        None => {
                            assert(pairs.deep_view() =~= before_block + Seq::empty());
                        },
                    }
                } else {
                    assert(pairs.deep_view() =~= before_block + Seq::empty());
                }
                assert(pairs.deep_view() =~= before_block + block_pairs(cs[j as int]));
                assert(cs.take(j + 1).drop_last() =~= cs.take(j as int));
                assert(pairs.deep_view() =~= base + blocks_pairs(cs.take(j + 1)));
                j = j + 1;
            }
            assert(cs.take(m as int) =~= cs);
            assert(views.take(i + 1).drop_last() =~= views.take(i as int));
            assert(pairs.deep_view() =~= placemarks_pairs(views.take(i + 1)));
            i = i + 1;
        }
        assert(views.take(n as int) =~= views);
        Some(pairs)
    }
}

} // verus!

