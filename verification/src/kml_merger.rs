//! Merging KML files into one document, each file with its own style.
use vstd::prelude::*;
use crate::error::{AppError, AppResult};
use crate::traits::{KmlBuilderTrait, KmlMergerTrait, KmlParserTrait};
use crate::kml_builder::{
    KmlBuilder, normal_style, highlight_style, style_map_for, style_map_id, normal_style_id,
    highlight_style_id, lemma_style_ids_distinct,
};
use crate::kml_parser::{KmlParser, placemarks_of_kml, placemark_views, lemma_extracted_keys_distinct};
use crate::xml_reader::xml_events;
use crate::kml_types::{
    KmlDocument, KmlDocumentView, KmlFile, PlacemarkView, StyleSettings,
    StyleSettingsView, default_style_settings, keys_distinct,
};
use crate::text::{decimal, decimal_string};

verus! {

/// The settings given for the file named `name`: those of the first entry
/// with that name.
pub open spec fn lookup_style(styles: Seq<(String, StyleSettings)>, name: Seq<char>) -> Option<StyleSettingsView>
    decreases styles.len(),
{
    if styles.len() == 0 {
        None
    } else if styles[0].0@ == name {
        Some(styles[0].1@)
    } else {
        lookup_style(styles.drop_first(), name)
    }
}

/// The settings found for a name are those of the first entry with that
/// name; there are none exactly when no entry has it.
pub proof fn lemma_lookup_finds_first(styles: Seq<(String, StyleSettings)>, name: Seq<char>)
    ensures
        lookup_style(styles, name) is None <==> forall|i: int| 0 <= i < styles.len() ==> (#[trigger] styles[i]).0@ != name,
        lookup_style(styles, name) matches Some(s) ==> exists|i: int| {
            &&& 0 <= i < styles.len()
            &&& (#[trigger] styles[i]).0@ == name
            &&& styles[i].1@ == s
            &&& forall|j: int| 0 <= j < i ==> (#[trigger] styles[j]).0@ != name
        },
    decreases styles.len(),
{
    if styles.len() > 0 {
        let rest = styles.drop_first();
        lemma_lookup_finds_first(rest, name);
        if styles[0].0@ != name {
            if lookup_style(rest, name) is None {
                assert forall|i: int| 0 <= i < styles.len() implies (#[trigger] styles[i]).0@ != name by {
                    if i > 0 {
                        assert(styles[i] == rest[i - 1]);
                    }
                }
            } else {
                let s = lookup_style(rest, name)->0;
                let k = choose|k: int| {
                    &&& 0 <= k < rest.len()
                    &&& (#[trigger] rest[k]).0@ == name
                    &&& rest[k].1@ == s
                    &&& forall|j: int| 0 <= j < k ==> (#[trigger] rest[j]).0@ != name
                };
                assert(styles[k + 1] == rest[k]);
                assert forall|j: int| 0 <= j < k + 1 implies (#[trigger] styles[j]).0@ != name by {
                    if j > 0 {
                        assert(styles[j] == rest[j - 1]);
                    }
                }
                assert(!(forall|i: int| 0 <= i < styles.len() ==> (#[trigger] styles[i]).0@ != name)) by {
                    assert(styles[k + 1].0@ == name);
                }
            }
        }
    }
}

/// The settings used for the file named `name`: its own, or the default.
pub open spec fn settings_for(styles: Seq<(String, StyleSettings)>, name: Seq<char>) -> StyleSettingsView {
    match lookup_style(styles, name) {
        Some(s) => s,
        None => default_style_settings(),
    }
}

/// Whether quick-xml reads the file as XML.
pub open spec fn file_parses(f: KmlFile) -> bool {
    placemarks_of_kml(f.content@) is Some
}

/// The placemarks of a file (none where it does not parse).
pub open spec fn file_placemarks(f: KmlFile) -> Seq<PlacemarkView> {
    match placemarks_of_kml(f.content@) {
        Some(ps) => ps,
        None => Seq::empty(),
    }
}

/// The placemarks, each given the style `id`.
pub open spec fn with_style(ps: Seq<PlacemarkView>, id: Seq<char>) -> Seq<PlacemarkView> {
    ps.map_values(|p: PlacemarkView| PlacemarkView { style_id: id, ..p })
}

/// The name of every merged document.
pub open spec fn merged_name() -> Seq<char> {
    "Merged KML File"@
}

/// The merged document made of the first `k` files: for the file at `i`,
/// its normal and highlight styles, its style map `style_i`, and its
/// placemarks, which refer to that style map.
pub open spec fn merged_upto(files: Seq<KmlFile>, styles: Seq<(String, StyleSettings)>, k: nat) -> KmlDocumentView
    decreases k,
{
    if k == 0 {
        KmlDocumentView {
            name: merged_name(),
            styles: Seq::empty(),
            style_maps: Seq::empty(),
            placemarks: Seq::empty(),
        }
    } else {
        let prev = merged_upto(files, styles, (k - 1) as nat);
        let i = (k - 1) as nat;
        let st = settings_for(styles, files[i as int].name@);
        KmlDocumentView {
            name: prev.name,
            styles: prev.styles.push(normal_style(i, st)).push(highlight_style(i, st)),
            style_maps: prev.style_maps.push(style_map_for(i)),
            placemarks: prev.placemarks + with_style(file_placemarks(files[i as int]), style_map_id(i)),
        }
    }
}

/// The merged document of all files.
pub open spec fn merged_document(files: Seq<KmlFile>, styles: Seq<(String, StyleSettings)>) -> KmlDocumentView {
    merged_upto(files, styles, files.len())
}

/// Whether the file at `k` is the first that does not parse.
pub open spec fn first_failure(files: Seq<KmlFile>, k: int) -> bool {
    &&& 0 <= k < files.len()
    &&& !file_parses(files[k])
    &&& forall|j: int| 0 <= j < k ==> file_parses(#[trigger] files[j])
}

/// The files are reached by the merge: every file before them parses.
pub open spec fn reached(files: Seq<KmlFile>, i: int) -> bool {
    forall|j: int| 0 <= j < i ==> file_parses(#[trigger] files[j])
}

/// The widths of all files that the merge reaches leave room for the wider
/// highlight line.
pub open spec fn widths_fit(files: Seq<KmlFile>, styles: Seq<(String, StyleSettings)>) -> bool {
    forall|i: int|
        0 <= i < files.len() && reached(files, i) ==> settings_for(styles, #[trigger] files[i].name@).line_width
            + 2 <= u32::MAX
}

/// The message of the error for a file that does not parse.
pub open spec fn parse_failure_prefix(name: Seq<char>) -> Seq<char> {
    "Failed to parse file "@ + name + ": "@ + "XML parsing error: "@
}

proof fn lemma_merged_upto_shape(files: Seq<KmlFile>, styles: Seq<(String, StyleSettings)>, k: nat)
    requires
        k <= files.len(),
    ensures
        ({
            let d = merged_upto(files, styles, k);
            &&& d.style_maps.len() == k
            &&& d.styles.len() == 2 * k
            &&& forall|j: int| 0 <= j < k ==> #[trigger] d.style_maps[j] == style_map_for(j as nat)
            &&& forall|j: int| 0 <= j < k ==> #[trigger] d.styles[2 * j].id == normal_style_id(j as nat)
            &&& forall|j: int| 0 <= j < k ==> #[trigger] d.styles[2 * j + 1].id == highlight_style_id(j as nat)
            &&& forall|i: int| 0 <= i < d.placemarks.len() ==> exists|j: nat|
                j < k && #[trigger] style_map_id(j) == #[trigger] d.placemarks[i].style_id
        }),
    decreases k,
{
    if k > 0 {
        lemma_merged_upto_shape(files, styles, (k - 1) as nat);
        let prev = merged_upto(files, styles, (k - 1) as nat);
        let d = merged_upto(files, styles, k);
        let i0 = (k - 1) as nat;
        assert forall|j: int| 0 <= j < k implies #[trigger] d.styles[2 * j].id == normal_style_id(j as nat) by {
            if j < k - 1 {
                assert(d.styles[2 * j] == prev.styles[2 * j]);
            }
        }
        assert forall|j: int| 0 <= j < k implies #[trigger] d.styles[2 * j + 1].id == highlight_style_id(j as nat) by {
            if j < k - 1 {
                assert(d.styles[2 * j + 1] == prev.styles[2 * j + 1]);
            }
        }
        assert forall|j: int| 0 <= j < k implies #[trigger] d.style_maps[j] == style_map_for(j as nat) by {
            if j < k - 1 {
                assert(d.style_maps[j] == prev.style_maps[j]);
            }
        }
        assert forall|i: int| 0 <= i < d.placemarks.len() implies exists|j: nat|
            j < k && #[trigger] style_map_id(j) == #[trigger] d.placemarks[i].style_id by {
            if i < prev.placemarks.len() {
                assert(d.placemarks[i] == prev.placemarks[i]);
                let j = choose|j: nat| j < k - 1 && #[trigger] style_map_id(j) == prev.placemarks[i].style_id;
                assert(style_map_id(j) == d.placemarks[i].style_id);
            } else {
                assert(d.placemarks[i].style_id == style_map_id(i0));
            }
        }
    }
}

/// Some style map of the document has the identifier.
pub open spec fn names_style_map(d: KmlDocumentView, id: Seq<char>) -> bool {
    exists|j: int| 0 <= j < d.style_maps.len() && #[trigger] d.style_maps[j].id == id
}

/// Every placemark of the document refers to one of its style maps.
pub open spec fn placemark_styles_resolve(d: KmlDocumentView) -> bool {
    forall|i: int| 0 <= i < d.placemarks.len() ==> names_style_map(d, #[trigger] d.placemarks[i].style_id)
}

/// The style map at `j` refers to the styles at `2j` (normal) and `2j + 1`
/// (highlight).
pub open spec fn style_maps_resolve(d: KmlDocumentView) -> bool {
    &&& d.styles.len() == 2 * d.style_maps.len()
    &&& forall|j: int| 0 <= j < d.style_maps.len() ==> {
        &&& d.styles[2 * j].id == #[trigger] d.style_maps[j].normal_style_id
        &&& d.styles[2 * j + 1].id == d.style_maps[j].highlight_style_id
    }
}

/// No two style maps, and no two styles, share an identifier.
pub open spec fn identifiers_unique(d: KmlDocumentView) -> bool {
    &&& forall|a: int, b: int| 0 <= a < b < d.style_maps.len() ==> #[trigger] d.style_maps[a].id != #[trigger] d.style_maps[b].id
    &&& forall|a: int, b: int| 0 <= a < b < d.styles.len() ==> #[trigger] d.styles[a].id != #[trigger] d.styles[b].id
}

/// In a merged document of `n` files there are `n` style maps and `2n`
/// styles; every placemark refers to one of the style maps, the style map
/// at `j` refers to the styles at `2j` and `2j + 1`, and no two style maps,
/// nor two styles, share an identifier, so that each reference names
/// exactly one element.
pub proof fn lemma_merged_references_resolve(files: Seq<KmlFile>, styles: Seq<(String, StyleSettings)>)
    ensures
        merged_document(files, styles).style_maps.len() == files.len(),
        placemark_styles_resolve(merged_document(files, styles)),
        style_maps_resolve(merged_document(files, styles)),
        identifiers_unique(merged_document(files, styles)),
{
    let k = files.len();
    lemma_merged_upto_shape(files, styles, k);
    let d = merged_document(files, styles);
    assert forall|i: int| 0 <= i < d.placemarks.len() implies names_style_map(d, #[trigger] d.placemarks[i].style_id) by {
        let j = choose|j: nat| j < k && #[trigger] style_map_id(j) == #[trigger] d.placemarks[i].style_id;
        assert(d.style_maps[j as int] == style_map_for(j));
        assert(d.style_maps[j as int].id == d.placemarks[i].style_id);
    }
    assert(placemark_styles_resolve(d));
    assert forall|j: int| 0 <= j < d.style_maps.len() implies {
        &&& d.styles[2 * j].id == #[trigger] d.style_maps[j].normal_style_id
        &&& d.styles[2 * j + 1].id == d.style_maps[j].highlight_style_id
    } by {
        assert(d.style_maps[j] == style_map_for(j as nat));
        assert(d.styles[2 * j].id == normal_style_id(j as nat));
        assert(d.styles[2 * j + 1].id == highlight_style_id(j as nat));
    }
    assert forall|a: int, b: int| 0 <= a < b < d.style_maps.len() implies #[trigger] d.style_maps[a].id
        != #[trigger] d.style_maps[b].id by {
        assert(d.style_maps[a] == style_map_for(a as nat));
        assert(d.style_maps[b] == style_map_for(b as nat));
        lemma_style_ids_distinct(a as nat, b as nat);
    }
    assert forall|a: int, b: int| 0 <= a < b < d.styles.len() implies #[trigger] d.styles[a].id
        != #[trigger] d.styles[b].id by {
        let ja = a / 2;
        let jb = b / 2;
        lemma_style_ids_distinct(ja as nat, jb as nat);
        lemma_style_ids_distinct(jb as nat, ja as nat);
        if a % 2 == 0 {
            assert(a == 2 * ja);
            assert(d.styles[2 * ja].id == normal_style_id(ja as nat));
        } else {
            assert(a == 2 * ja + 1);
            assert(d.styles[2 * ja + 1].id == highlight_style_id(ja as nat));
        }
        if b % 2 == 0 {
            assert(b == 2 * jb);
            assert(d.styles[2 * jb].id == normal_style_id(jb as nat));
        } else {
            assert(b == 2 * jb + 1);
            assert(d.styles[2 * jb + 1].id == highlight_style_id(jb as nat));
        }
    }
}

/// Style settings decide only the styles: two merges of the same files
/// with different settings have the same name, style maps and placemarks.
pub proof fn lemma_settings_change_only_styles(
    files: Seq<KmlFile>,
    styles1: Seq<(String, StyleSettings)>,
    styles2: Seq<(String, StyleSettings)>,
)
    ensures
        merged_document(files, styles1).name == merged_document(files, styles2).name,
        merged_document(files, styles1).style_maps == merged_document(files, styles2).style_maps,
        merged_document(files, styles1).placemarks == merged_document(files, styles2).placemarks,
{
    lemma_settings_change_only_styles_upto(files, styles1, styles2, files.len());
}

proof fn lemma_settings_change_only_styles_upto(
    files: Seq<KmlFile>,
    styles1: Seq<(String, StyleSettings)>,
    styles2: Seq<(String, StyleSettings)>,
    k: nat,
)
    ensures
        merged_upto(files, styles1, k).name == merged_upto(files, styles2, k).name,
        merged_upto(files, styles1, k).style_maps == merged_upto(files, styles2, k).style_maps,
        merged_upto(files, styles1, k).placemarks == merged_upto(files, styles2, k).placemarks,
    decreases k,
{
    if k > 0 {
        lemma_settings_change_only_styles_upto(files, styles1, styles2, (k - 1) as nat);
    }
}

proof fn lemma_merged_upto_keys_distinct(files: Seq<KmlFile>, styles: Seq<(String, StyleSettings)>, k: nat)
    requires
        k <= files.len(),
    ensures
        forall|i: int| 0 <= i < merged_upto(files, styles, k).placemarks.len() ==> keys_distinct(
            #[trigger] merged_upto(files, styles, k).placemarks[i].extended_data,
        ),
    decreases k,
{
    if k > 0 {
        lemma_merged_upto_keys_distinct(files, styles, (k - 1) as nat);
        let prev = merged_upto(files, styles, (k - 1) as nat);
        let d = merged_upto(files, styles, k);
        let f = files[k - 1];
        lemma_extracted_keys_distinct(xml_events(f.content@));
        let added = with_style(file_placemarks(f), style_map_id((k - 1) as nat));
        assert forall|i: int| 0 <= i < d.placemarks.len() implies keys_distinct(
            #[trigger] d.placemarks[i].extended_data,
        ) by {
            if i < prev.placemarks.len() {
                assert(d.placemarks[i] == prev.placemarks[i]);
            } else {
                let j = i - prev.placemarks.len();
                assert(d.placemarks[i] == added[j]);
                assert(added[j].extended_data == file_placemarks(f)[j].extended_data);
            }
        }
    }
}

/// No placemark of a merged document has two extended-data entries with
/// the same key, so the written `ExtendedData` never repeats a name.
pub proof fn lemma_merged_keys_distinct(files: Seq<KmlFile>, styles: Seq<(String, StyleSettings)>)
    ensures
        forall|i: int| 0 <= i < merged_document(files, styles).placemarks.len() ==> keys_distinct(
            #[trigger] merged_document(files, styles).placemarks[i].extended_data,
        ),
{
    lemma_merged_upto_keys_distinct(files, styles, files.len());
}

proof fn lemma_merged_upto_styles(files: Seq<KmlFile>, styles: Seq<(String, StyleSettings)>, k: nat)
    requires
        k <= files.len(),
    ensures
        merged_upto(files, styles, k).styles.len() == 2 * k,
        merged_upto(files, styles, k).style_maps.len() == k,
        forall|i: int| 0 <= i < k ==> {
            let st = settings_for(styles, files[i].name@);
            &&& #[trigger] merged_upto(files, styles, k).styles[2 * i] == normal_style(i as nat, st)
            &&& merged_upto(files, styles, k).styles[2 * i + 1] == highlight_style(i as nat, st)
            &&& merged_upto(files, styles, k).style_maps[i] == style_map_for(i as nat)
        },
    decreases k,
{
    if k > 0 {
        lemma_merged_upto_styles(files, styles, (k - 1) as nat);
        let prev = merged_upto(files, styles, (k - 1) as nat);
        let d = merged_upto(files, styles, k);
        assert forall|i: int| 0 <= i < k implies {
            let st = settings_for(styles, files[i].name@);
            &&& #[trigger] d.styles[2 * i] == normal_style(i as nat, st)
            &&& d.styles[2 * i + 1] == highlight_style(i as nat, st)
            &&& d.style_maps[i] == style_map_for(i as nat)
        } by {
            let st = settings_for(styles, files[i].name@);
            if i < k - 1 {
                assert(d.styles[2 * i] == prev.styles[2 * i]);
                assert(d.styles[2 * i + 1] == prev.styles[2 * i + 1]);
                assert(d.style_maps[i] == prev.style_maps[i]);
            } else {
                assert(2 * i == prev.styles.len());
                assert(d.styles[2 * i] == normal_style(i as nat, st));
                assert(d.styles[2 * i + 1] == highlight_style(i as nat, st));
                assert(d.style_maps[i] == style_map_for(i as nat));
            }
        }
    }
}

/// The styles of a merged document are those that
/// `create_styles_from_settings` makes for each file, in file order: for
/// the file at `i`, its normal style at `2i`, its highlight style at
/// `2i + 1` and its style map at `i`, made from its own settings or, where
/// it has none, from the default settings.
pub proof fn lemma_merged_styles(files: Seq<KmlFile>, styles: Seq<(String, StyleSettings)>)
    ensures
        merged_document(files, styles).styles.len() == 2 * files.len(),
        merged_document(files, styles).style_maps.len() == files.len(),
        forall|i: int| 0 <= i < files.len() ==> {
            let st = settings_for(styles, files[i].name@);
            &&& #[trigger] merged_document(files, styles).styles[2 * i] == normal_style(i as nat, st)
            &&& merged_document(files, styles).styles[2 * i + 1] == highlight_style(i as nat, st)
            &&& merged_document(files, styles).style_maps[i] == style_map_for(i as nat)
        },
{
    lemma_merged_upto_styles(files, styles, files.len());
}

/// How many placemarks the files before the one at `i` give a merge.
pub open spec fn placemark_offset(files: Seq<KmlFile>, i: nat) -> nat
    decreases i,
{
    if i == 0 {
        0
    } else {
        placemark_offset(files, (i - 1) as nat) + file_placemarks(files[i - 1]).len()
    }
}

/// `p` is the placemark `q` read from the file at `i`, with nothing changed
/// but its style reference, which names the style map `style_<i>`.
pub open spec fn kept_with_style_of_file(p: PlacemarkView, q: PlacemarkView, i: nat) -> bool {
    &&& p.name == q.name
    &&& p.description == q.description
    &&& p.extended_data == q.extended_data
    &&& p.geometry == q.geometry
    &&& p.style_id == "style_"@ + decimal(i)
}

proof fn lemma_offset_grows(files: Seq<KmlFile>, i: nat, k: nat)
    requires
        i <= k,
    ensures
        placemark_offset(files, i) <= placemark_offset(files, k),
    decreases k,
{
    if i < k {
        lemma_offset_grows(files, i, (k - 1) as nat);
    }
}

proof fn lemma_merged_upto_placemarks(files: Seq<KmlFile>, styles: Seq<(String, StyleSettings)>, k: nat)
    requires
        k <= files.len(),
    ensures
        merged_upto(files, styles, k).placemarks.len() == placemark_offset(files, k),
        forall|i: int, j: int|
            0 <= i < k && 0 <= j < file_placemarks(files[i]).len() ==> kept_with_style_of_file(
                merged_upto(files, styles, k).placemarks[placemark_offset(files, i as nat) + j],
                #[trigger] file_placemarks(files[i])[j],
                i as nat,
            ),
    decreases k,
{
    if k > 0 {
        lemma_merged_upto_placemarks(files, styles, (k - 1) as nat);
        let prev = merged_upto(files, styles, (k - 1) as nat);
        let d = merged_upto(files, styles, k);
        let last = (k - 1) as nat;
        let added = with_style(file_placemarks(files[last as int]), style_map_id(last));
        assert(d.placemarks == prev.placemarks + added);
        assert forall|i: int, j: int|
            0 <= i < k && 0 <= j < file_placemarks(files[i]).len() implies kept_with_style_of_file(
                d.placemarks[placemark_offset(files, i as nat) + j],
                #[trigger] file_placemarks(files[i])[j],
                i as nat,
            ) by {
            if i < k - 1 {
                lemma_offset_grows(files, (i + 1) as nat, last);
                assert(placemark_offset(files, (i + 1) as nat) == placemark_offset(files, i as nat)
                    + file_placemarks(files[i]).len());
                assert(d.placemarks[placemark_offset(files, i as nat) + j]
                    == prev.placemarks[placemark_offset(files, i as nat) + j]);
            } else {
                assert(i == last);
                assert(d.placemarks[placemark_offset(files, i as nat) + j] == added[j]);
            }
        }
    }
}

/// Merging changes nothing of a placemark but its style reference: the
/// merged document holds, in file order, every placemark read from every
/// file, and the one at position `j` of the file at `i` stands at
/// `placemark_offset(files, i) + j` with the name, description, extended
/// data and geometry read from that file, and the style `style_<i>`.
pub proof fn lemma_merged_placemarks_kept(files: Seq<KmlFile>, styles: Seq<(String, StyleSettings)>)
    ensures
        merged_document(files, styles).placemarks.len() == placemark_offset(files, files.len()),
        forall|i: int, j: int|
            0 <= i < files.len() && 0 <= j < file_placemarks(files[i]).len() ==> kept_with_style_of_file(
                merged_document(files, styles).placemarks[placemark_offset(files, i as nat) + j],
                #[trigger] file_placemarks(files[i])[j],
                i as nat,
            ),
{
    lemma_merged_upto_placemarks(files, styles, files.len());
}

/// Merges KML files.
pub struct KmlMerger;

impl KmlMerger {
    /// How many files a merge goes through: all of them where every file
    /// parses, otherwise those up to and including the first that does not.
    pub fn files_reached(files: &[KmlFile]) -> (k: usize)
        ensures
            (k == files@.len() && reached(files@, k as int)) || (0 < k <= files@.len() && first_failure(
                files@,
                k - 1,
            )),
    {
        let n = files.len();
        let mut i: usize = 0;
        while i < n
            invariant
                n == files@.len(),
                0 <= i <= n,
                reached(files@, i as int),
            decreases n - i,
        {
            match KmlParser::extract_placemarks(&files[i]) {
                Ok(_) => {},
                Err(_) => {
                    return i + 1;
                },
            }
            i = i + 1;
        }
        n
    }

    /// The settings given for the file named `name`, if any.
    pub fn find_style<'a>(styles: &'a [(String, StyleSettings)], name: &String) -> (r: Option<&'a StyleSettings>)
        ensures
            match r {
                Some(s) => lookup_style(styles@, name@) == Some(s@),
                None => lookup_style(styles@, name@) is None,
            },
    {
        let n = styles.len();
        let mut i: usize = 0;
        assert(styles@.skip(0) =~= styles@);
        while i < n
            invariant
                n == styles@.len(),
                0 <= i <= n,
                lookup_style(styles@, name@) == lookup_style(styles@.skip(i as int), name@),
            decreases n - i,
        {
            assert(styles@.skip(i as int).drop_first() =~= styles@.skip(i + 1));
            assert(styles@.skip(i as int)[0] == styles@[i as int]);
            if styles[i].0 == *name {
                return Some(&styles[i].1);
            }
            i = i + 1;
        }
        None
    }

}

impl KmlMerger {
    /// Whether the merge can make every style it reaches: the line width of
    /// every file up to the first that does not parse leaves room for the
    /// two units of the highlight style. Where it does not, the merge has
    /// no result (the width overflows).
    pub fn styles_fit(files: &[KmlFile], styles: &[(String, StyleSettings)]) -> (r: bool)
        ensures
            r == widths_fit(files@, styles@),
    {
        let default_settings = StyleSettings::default();
        let n = files.len();
        let mut i: usize = 0;
        while i < n
            invariant
                n == files@.len(),
                0 <= i <= n,
                default_settings@ == default_style_settings(),
                reached(files@, i as int),
                forall|j: int| 0 <= j < i ==> settings_for(styles@, #[trigger] files@[j].name@).line_width + 2 <= u32::MAX,
            decreases n - i,
        {
            let settings = match Self::find_style(styles, &files[i].name) {
                Some(s) => s,
                None => &default_settings,
            };
            assert(settings@ == settings_for(styles@, files@[i as int].name@));
            if settings.line_width > u32::MAX - 2 {
                return false;
            }
            match KmlParser::extract_placemarks(&files[i]) {
                Ok(_) => {},
                Err(_) => {
                    assert forall|k: int| 0 <= k < files@.len() && reached(files@, k) implies settings_for(
                        styles@,
                        #[trigger] files@[k].name@,
                    ).line_width + 2 <= u32::MAX by {
                        if k > i {
                            assert(file_parses(files@[i as int]));
                        }
                    }
                    return true;
                },
            }
            i = i + 1;
        }
        true
    }
}

impl KmlMergerTrait for KmlMerger {
    /// Merges the files into one document.
    fn merge_kml_files(files: &[KmlFile], styles: &[(String, StyleSettings)]) -> (r: AppResult<KmlDocument>)
    {
        if files.len() == 0 {
            return Err(AppError::ValidationError(String::from_str("No KML files provided")));
        }
        let mut document = KmlDocument::new("Merged KML File");
        let default_settings = StyleSettings::default();
        let n = files.len();
        let mut idx: usize = 0;
        assert(document@.styles =~= Seq::empty());
        assert(document@.style_maps =~= Seq::empty());
        assert(document@.placemarks =~= Seq::empty());
        assert(document@ =~= merged_upto(files@, styles@, 0));
        while idx < n
            invariant
                n == files@.len(),
                0 <= idx <= n,
                widths_fit(files@, styles@),
                default_settings@ == default_style_settings(),
                reached(files@, idx as int),
                document@ == merged_upto(files@, styles@, idx as nat),
            decreases n - idx,
        {
            let file = &files[idx];
            let settings = match Self::find_style(styles, &file.name) {
                Some(s) => s,
                None => &default_settings,
            };
            assert(settings@ == settings_for(styles@, file.name@));
            let (normal, highlight, style_map) = KmlBuilder::create_styles_from_settings(idx, settings);
            let ghost prev = document@;
            document.styles.push(normal);
            document.styles.push(highlight);
            document.style_maps.push(style_map);
            assert(document@.styles =~= prev.styles.push(normal@).push(highlight@));
            assert(document@.style_maps =~= prev.style_maps.push(style_map@));
            match KmlParser::extract_placemarks(file) {
                Ok(placemarks) => {
                    let mut id = String::from_str("style_");
                    let digits = decimal_string(idx as u64);
                    id.append(digits.as_str());
                    let ghost base = document@.placemarks;
                    let ghost before_loop = document@;
                    let ghost ps = placemarks@;
                    for p in it: placemarks.into_iter()
                        invariant
                            it.seq() == ps,
                            document@.name == before_loop.name,
                            document@.styles == before_loop.styles,
                            document@.style_maps == before_loop.style_maps,
                            document@.placemarks == base + with_style(
                                placemark_views(ps.take(it.index() as int)),
                                id@,
                            ),
                    {
                        let ghost k = it.index() as int;
                        assert(p == ps[k]);
                        let mut p = p;
                        p.style_id = id.clone();
                        let ghost before = document@.placemarks;
                        document.placemarks.push(p);
                        assert(document@.placemarks =~= before.push(p@));
                        assert(ps.take(k + 1) =~= ps.take(k).push(ps[k]));
                        assert(placemark_views(ps.take(k + 1)) =~= placemark_views(ps.take(k)).push(ps[k]@));
                        assert(with_style(placemark_views(ps.take(k + 1)), id@) =~= with_style(
                            placemark_views(ps.take(k)),
                            id@,
                        ).push(p@));
                        assert(document@.placemarks =~= base + with_style(
                            placemark_views(ps.take(k + 1)),
                            id@,
                        ));
                    }
                    assert(ps.take(ps.len() as int) =~= ps);
                    assert(file_placemarks(files@[idx as int]) == placemark_views(ps));
                    assert(document@ =~= merged_upto(files@, styles@, (idx + 1) as nat));
                },
                Err(e) => {
                    let mut msg = String::from_str("Failed to parse file ");
                    msg.append(file.name.as_str());
                    msg.append(": ");
                    let detail = e.message();
                    msg.append(detail.as_str());
                    proof {
                        let pre = "XML parsing error: "@;
                        let rest = detail@.subrange(pre.len() as int, detail@.len() as int);
                        assert(detail@ =~= pre + rest);
                        assert(msg@ =~= parse_failure_prefix(file.name@) + rest);
                        assert(first_failure(files@, idx as int));
                        assert(!file_parses(files@[idx as int]));
                    }
                    return Err(AppError::ParseError(msg));
                },
            }
            idx = idx + 1;
        }
        Ok(document)
    }
}

} // verus!
