//! The decisions taken on an upload form: which fields are KML files, the
//! name under which the merged file is offered, and where the style
//! settings come from. The fields themselves are read by the caller.
use vstd::prelude::*;
use crate::error::{AppError, is_message_of};
use crate::kml_types::KmlFile;
use crate::text::{is_white_space, push_char, str_equal, starts_with, ends_with};

verus! {

/// `str::to_lowercase` of a text: the Unicode lowercase mapping.
pub uninterp spec fn lowercase(s: Seq<char>) -> Seq<char>;

/// `char::is_alphanumeric`: the Unicode `Alphabetic` or `Numeric` property.
pub uninterp spec fn alphanumeric(c: char) -> bool;

/// The lowercase form of a text (`str::to_lowercase`). Claimed: it is
/// `lowercase` of the text.
#[verifier::external_body]
fn to_lowercase(s: &str) -> (r: String)
    ensures
        r@ == lowercase(s@),
{
    s.to_lowercase()
}

/// Whether a character is alphabetic or numeric (`char::is_alphanumeric`).
/// Claimed: it is `alphanumeric` of the character.
#[verifier::external_body]
fn is_alphanumeric(c: char) -> (r: bool)
    ensures
        r == alphanumeric(c),
{
    c.is_alphanumeric()
}

/// `s` without its leading white space.
pub open spec fn trim_start(s: Seq<char>) -> Seq<char>
    decreases s.len(),
{
    if s.len() > 0 && is_white_space(s[0]) {
        trim_start(s.drop_first())
    } else {
        s
    }
}

/// `s` without its trailing white space.
pub open spec fn trim_end(s: Seq<char>) -> Seq<char>
    decreases s.len(),
{
    if s.len() > 0 && is_white_space(s.last()) {
        trim_end(s.drop_last())
    } else {
        s
    }
}

/// `s` without leading and trailing white space, as `str::trim` gives it.
pub open spec fn trim(s: Seq<char>) -> Seq<char> {
    trim_end(trim_start(s))
}

/// A character kept in an output file name: letters, digits, `-` and `_`.
pub open spec fn file_name_char(c: char) -> bool {
    alphanumeric(c) || c == '-' || c == '_'
}

/// A file name with every character that is not kept replaced by `_`.
pub open spec fn sanitize(s: Seq<char>) -> Seq<char>
    decreases s.len(),
{
    if s.len() == 0 {
        Seq::empty()
    } else {
        sanitize(s.drop_last()).push(if file_name_char(s.last()) { s.last() } else { '_' })
    }
}

/// A sanitized name has the length of the name, and holds only letters,
/// digits, `-` and `_`: each kept character of the name stays where it
/// was, and each other character becomes `_`.
pub proof fn lemma_sanitized_name_chars(s: Seq<char>)
    ensures
        sanitize(s).len() == s.len(),
        forall|k: int| 0 <= k < s.len() ==> file_name_char(#[trigger] sanitize(s)[k]),
        forall|k: int| 0 <= k < s.len() && file_name_char(s[k]) ==> #[trigger] sanitize(s)[k] == s[k],
        forall|k: int| 0 <= k < s.len() && !file_name_char(s[k]) ==> #[trigger] sanitize(s)[k] == '_',
    decreases s.len(),
{
    if s.len() > 0 {
        lemma_sanitized_name_chars(s.drop_last());
        let prev = sanitize(s.drop_last());
        assert forall|k: int| 0 <= k < s.len() implies {
            &&& file_name_char(#[trigger] sanitize(s)[k])
            &&& (file_name_char(s[k]) ==> sanitize(s)[k] == s[k])
            &&& (!file_name_char(s[k]) ==> sanitize(s)[k] == '_')
        } by {
            if k < prev.len() {
                assert(sanitize(s)[k] == prev[k]);
                assert(s.drop_last()[k] == s[k]);
            }
        }
    }
}

/// The name of a form field without a name.
pub open spec fn unnamed_field() -> Seq<char> {
    "unknown"@
}

/// The file name of an upload field: the one it carries, or the field's
/// name with `.kml` appended.
pub open spec fn upload_file_name(field: Seq<char>, filename: Option<Seq<char>>) -> Seq<char> {
    match filename {
        Some(f) => f,
        None => field + ".kml"@,
    }
}

/// Whether a file name names a KML file: it ends in `.kml`, in any case.
pub open spec fn is_kml_name(name: Seq<char>) -> bool {
    ends_with(lowercase(name), ".kml"@)
}

/// What to do with a form field.
#[derive(Debug, Clone)]
pub enum FieldAction {
    /// Read the field as the KML file of that name
    ReadKmlFile { filename: String },
    /// A file field whose name is not a KML name: skip it
    SkipFile { filename: String },
    /// Read the field as the name of the output file
    ReadOutputName,
    /// Read the field as the style settings (JSON)
    ReadStyles,
    /// Any other field: ignore it
    Ignore,
}

/// The action for a field with the given name (`unknown` where it has none)
/// and file name: a field whose name starts with `file` is a file, read if
/// its file name ends in `.kml`; `outputFilename` gives the output name;
/// `styles` gives the style settings.
pub open spec fn field_action(field_name: Option<Seq<char>>, filename: Option<Seq<char>>) -> FieldActionView {
    let name = match field_name {
        Some(n) => n,
        None => unnamed_field(),
    };
    if starts_with(name, "file"@) {
        let f = upload_file_name(name, filename);
        if is_kml_name(f) {
            FieldActionView::ReadKmlFile(f)
        } else {
            FieldActionView::SkipFile(f)
        }
    } else if name == "outputFilename"@ {
        FieldActionView::ReadOutputName
    } else if name == "styles"@ {
        FieldActionView::ReadStyles
    } else {
        FieldActionView::Ignore
    }
}

/// What an action holds.
pub enum FieldActionView {
    ReadKmlFile(Seq<char>),
    SkipFile(Seq<char>),
    ReadOutputName,
    ReadStyles,
    Ignore,
}

impl View for FieldAction {
    type V = FieldActionView;

    open spec fn view(&self) -> FieldActionView {
        match self {
            FieldAction::ReadKmlFile { filename } => FieldActionView::ReadKmlFile(filename@),
            FieldAction::SkipFile { filename } => FieldActionView::SkipFile(filename@),
            FieldAction::ReadOutputName => FieldActionView::ReadOutputName,
            FieldAction::ReadStyles => FieldActionView::ReadStyles,
            FieldAction::Ignore => FieldActionView::Ignore,
        }
    }
}

/// The fields gathered from an upload form.
pub struct UploadForm {
    /// The KML files, in the order of their fields
    pub kml_files: Vec<KmlFile>,
    /// The name of the output file, without extension
    pub output_filename: String,
    /// The style settings as sent, if any
    pub styles_json: Option<String>,
}

/// The output name before any field sets it.
pub open spec fn default_output_name() -> Seq<char> {
    "merged"@
}

/// The output name after an `outputFilename` field with the text `raw`:
/// the trimmed text with unkept characters replaced, unless it is blank.
pub open spec fn output_name_after(current: Seq<char>, raw: Seq<char>) -> Seq<char> {
    if trim(raw).len() == 0 {
        current
    } else {
        sanitize(trim(raw))
    }
}

/// The name under which the merged file is offered: the output name (or
/// `merged` where it is empty) with `.kml` appended.
pub open spec fn download_name(output: Seq<char>) -> Seq<char> {
    (if output.len() == 0 {
        default_output_name()
    } else {
        output
    }) + ".kml"@
}

/// The start of the text that answers a merge that failed.
pub open spec fn merge_error_prefix() -> Seq<char> {
    "Merge error: "@
}

/// The text that answers an upload without KML files.
pub open spec fn no_files_message() -> Seq<char> {
    "No KML files uploaded"@
}

fn starts_with_str(s: &str, p: &str) -> (r: bool)
    ensures
        r == starts_with(s@, p@),
{
    let n = s.unicode_len();
    let m = p.unicode_len();
    if m > n {
        return false;
    }
    let mut i: usize = 0;
    while i < m
        invariant
            n == s@.len(),
            m == p@.len(),
            m <= n,
            0 <= i <= m,
            forall|k: int| 0 <= k < i ==> s@[k] == p@[k],
        decreases m - i,
    {
        if s.get_char(i) != p.get_char(i) {
            assert(s@.subrange(0, m as int)[i as int] != p@[i as int]);
            return false;
        }
        i = i + 1;
    }
    assert(s@.subrange(0, m as int) =~= p@);
    true
}

fn ends_with_str(s: &str, p: &str) -> (r: bool)
    ensures
        r == ends_with(s@, p@),
{
    let n = s.unicode_len();
    let m = p.unicode_len();
    if m > n {
        return false;
    }
    let off = n - m;
    let mut i: usize = 0;
    while i < m
        invariant
            n == s@.len(),
            m == p@.len(),
            m <= n,
            off == n - m,
            0 <= i <= m,
            forall|k: int| 0 <= k < i ==> s@[off + k] == p@[k],
        decreases m - i,
    {
        if s.get_char(off + i) != p.get_char(i) {
            assert(s@.subrange(off as int, n as int)[i as int] != p@[i as int]);
            return false;
        }
        i = i + 1;
    }
    assert(s@.subrange(off as int, n as int) =~= p@);
    true
}

proof fn lemma_trim_start_suffix(s: Seq<char>, k: int)
    requires
        0 <= k <= s.len(),
        forall|j: int| 0 <= j < k ==> is_white_space(#[trigger] s[j]),
    ensures
        trim_start(s) == trim_start(s.subrange(k, s.len() as int)),
    decreases k,
{
    if k > 0 {
        lemma_trim_start_suffix(s.drop_first(), k - 1);
        assert(s.drop_first().subrange(k - 1, s.drop_first().len() as int) =~= s.subrange(k, s.len() as int));
    } else {
        assert(s.subrange(0, s.len() as int) =~= s);
    }
}

proof fn lemma_trim_end_prefix(s: Seq<char>, k: int)
    requires
        0 <= k <= s.len(),
        forall|j: int| k <= j < s.len() ==> is_white_space(#[trigger] s[j]),
    ensures
        trim_end(s) == trim_end(s.subrange(0, k)),
    decreases s.len() - k,
{
    if k < s.len() {
        lemma_trim_end_prefix(s.drop_last(), k);
        assert(s.drop_last().subrange(0, k) =~= s.subrange(0, k));
    } else {
        assert(s.subrange(0, k) =~= s);
    }
}

proof fn lemma_trim_start_cut(s: Seq<char>) -> (a: int)
    ensures
        0 <= a <= s.len(),
        trim_start(s) == s.subrange(a, s.len() as int),
        forall|j: int| 0 <= j < a ==> is_white_space(#[trigger] s[j]),
        a < s.len() ==> !is_white_space(s[a]),
    decreases s.len(),
{
    if s.len() > 0 && is_white_space(s[0]) {
        let b = lemma_trim_start_cut(s.drop_first());
        assert(s.drop_first().subrange(b, s.drop_first().len() as int) =~= s.subrange(b + 1, s.len() as int));
        assert forall|j: int| 0 <= j < b + 1 implies is_white_space(#[trigger] s[j]) by {
            if j > 0 {
                assert(s[j] == s.drop_first()[j - 1]);
            }
        }
        b + 1
    } else {
        assert(s.subrange(0, s.len() as int) =~= s);
        0
    }
}

proof fn lemma_trim_end_cut(s: Seq<char>) -> (b: int)
    ensures
        0 <= b <= s.len(),
        trim_end(s) == s.subrange(0, b),
        forall|j: int| b <= j < s.len() ==> is_white_space(#[trigger] s[j]),
        b > 0 ==> !is_white_space(s[b - 1]),
    decreases s.len(),
{
    if s.len() > 0 && is_white_space(s.last()) {
        let b = lemma_trim_end_cut(s.drop_last());
        assert(s.drop_last().subrange(0, b) =~= s.subrange(0, b));
        assert forall|j: int| b <= j < s.len() implies is_white_space(#[trigger] s[j]) by {
            if j < s.len() - 1 {
                assert(s[j] == s.drop_last()[j]);
            }
        }
        if b > 0 {
            assert(s[b - 1] == s.drop_last()[b - 1]);
        }
        b
    } else {
        assert(s.subrange(0, s.len() as int) =~= s);
        s.len() as int
    }
}

/// Trimming cuts white space off both ends and nothing else: the trimmed
/// text is the run of the text from `a` to `b`, everything before `a` and
/// from `b` on is white space, and a trimmed text that is not empty
/// neither starts nor ends with white space.
pub proof fn lemma_trim_cuts_white_space(s: Seq<char>)
    ensures
        exists|a: int, b: int| {
            &&& 0 <= a <= b <= s.len()
            &&& #[trigger] s.subrange(a, b) == trim(s)
            &&& forall|j: int| 0 <= j < a ==> is_white_space(#[trigger] s[j])
            &&& forall|j: int| b <= j < s.len() ==> is_white_space(#[trigger] s[j])
            &&& a < b ==> !is_white_space(s[a]) && !is_white_space(s[b - 1])
        },
{
    let a = lemma_trim_start_cut(s);
    let t = s.subrange(a, s.len() as int);
    let c = lemma_trim_end_cut(t);
    let b = a + c;
    assert(t.subrange(0, c) =~= s.subrange(a, b));
    assert forall|j: int| b <= j < s.len() implies is_white_space(#[trigger] s[j]) by {
        assert(s[j] == t[j - a]);
    }
    if a < b {
        assert(t[0] == s[a]);
        assert(t[c - 1] == s[b - 1]);
    }
    assert(s.subrange(a, b) == trim(s));
}

/// The text without leading and trailing white space (`str::trim`).
pub fn trim_str(s: &str) -> (r: String)
    ensures
        r@ == trim(s@),
{
    let n = s.unicode_len();
    let mut start: usize = 0;
    while start < n && white_space_at(s, start)
        invariant
            n == s@.len(),
            0 <= start <= n,
            forall|j: int| 0 <= j < start ==> is_white_space(#[trigger] s@[j]),
        decreases n - start,
    {
        start = start + 1;
    }
    proof {
        lemma_trim_start_suffix(s@, start as int);
    }
    let ghost rest = s@.subrange(start as int, n as int);
    assert(rest.len() == 0 || !is_white_space(rest[0]));
    assert(trim_start(s@) == rest);
    let mut end: usize = n;
    while end > start && white_space_at(s, end - 1)
        invariant
            n == s@.len(),
            0 <= start <= end <= n,
            rest == s@.subrange(start as int, n as int),
            forall|j: int| end <= j < n ==> is_white_space(#[trigger] s@[j]),
        decreases end,
    {
        end = end - 1;
    }
    proof {
        assert forall|j: int| end - start <= j < rest.len() implies is_white_space(#[trigger] rest[j]) by {
            assert(rest[j] == s@[start + j]);
        }
        lemma_trim_end_prefix(rest, end - start);
        let t = rest.subrange(0, end - start);
        assert(t =~= s@.subrange(start as int, end as int));
        if t.len() > 0 {
            assert(t.last() == s@[end - 1]);
        }
    }
    String::from_str(s.substring_char(start, end))
}

fn white_space_at(s: &str, i: usize) -> (r: bool)
    requires
        i < s@.len(),
    ensures
        r == is_white_space(s@[i as int]),
{
    let c = s.get_char(i);
    let u = c as u32;
    (0x09 <= u && u <= 0x0d) || u == 0x20 || u == 0x85 || u == 0xa0 || u == 0x1680 || (0x2000 <= u
        && u <= 0x200a) || u == 0x2028 || u == 0x2029 || u == 0x202f || u == 0x205f || u == 0x3000
}

/// Replaces every character that is not a letter, a digit, `-` or `_` by `_`.
pub fn sanitize_file_name(s: &str) -> (r: String)
    ensures
        r@ == sanitize(s@),
{
    let mut out = String::new();
    let ghost mut seen: Seq<char> = Seq::empty();
    for ch in it: s.chars()
        invariant
            it.seq() == s@,
            seen == s@.take(it.index() as int),
            out@ == sanitize(seen),
    {
        proof {
            assert(s@.take(it.index() + 1).drop_last() =~= seen);
        }
        if is_alphanumeric(ch) || ch == '-' || ch == '_' {
            push_char(&mut out, ch);
        } else {
            push_char(&mut out, '_');
        }
        proof {
            seen = s@.take(it.index() + 1);
        }
    }
    assert(seen =~= s@);
    out
}

impl UploadForm {
    /// An empty form: no files, the output name `merged`, no style settings.
    pub fn new() -> (f: Self)
        ensures
            f.kml_files@.len() == 0,
            f.output_filename@ == default_output_name(),
            f.styles_json is None,
    {
        UploadForm { kml_files: Vec::new(), output_filename: String::from_str("merged"), styles_json: None }
    }

    /// What to do with a field, from its name and its file name.
    pub fn field_action(field_name: Option<&str>, filename: Option<&str>) -> (a: FieldAction)
        ensures
            a@ == field_action(
                match field_name {
                    Some(n) => Some(n@),
                    None => None,
                },
                match filename {
                    Some(f) => Some(f@),
                    None => None,
                },
            ),
    {
        let name = match field_name {
            Some(n) => String::from_str(n),
            None => String::from_str("unknown"),
        };
        if starts_with_str(name.as_str(), "file") {
            let f = match filename {
                Some(f) => String::from_str(f),
                None => {
                    let mut f = name.clone();
                    f.append(".kml");
                    f
                },
            };
            let lower = to_lowercase(f.as_str());
            if ends_with_str(lower.as_str(), ".kml") {
                FieldAction::ReadKmlFile { filename: f }
            } else {
                FieldAction::SkipFile { filename: f }
            }
        } else if str_equal(name.as_str(), "outputFilename") {
            FieldAction::ReadOutputName
        } else if str_equal(name.as_str(), "styles") {
            FieldAction::ReadStyles
        } else {
            FieldAction::Ignore
        }
    }

    /// Takes the content of a field that `action` said to read; the content
    /// of skipped and ignored fields is not taken.
    pub fn accept(&mut self, action: &FieldAction, content: String)
        ensures
            match action@ {
                FieldActionView::ReadKmlFile(f) => {
                    &&& final(self).kml_files@.len() == old(self).kml_files@.len() + 1
                    &&& final(self).kml_files@.drop_last() == old(self).kml_files@
                    &&& final(self).kml_files@.last().name@ == f
                    &&& final(self).kml_files@.last().content@ == content@
                    &&& final(self).output_filename@ == old(self).output_filename@
                    &&& final(self).styles_json == old(self).styles_json
                },
                FieldActionView::ReadOutputName => {
                    &&& final(self).kml_files@ == old(self).kml_files@
                    &&& final(self).output_filename@ == output_name_after(old(self).output_filename@, content@)
                    &&& final(self).styles_json == old(self).styles_json
                },
                FieldActionView::ReadStyles => {
                    &&& final(self).kml_files@ == old(self).kml_files@
                    &&& final(self).output_filename@ == old(self).output_filename@
                    &&& final(self).styles_json.deep_view() == Some(content@)
                },
                _ => {
                    &&& final(self).kml_files@ == old(self).kml_files@
                    &&& final(self).output_filename@ == old(self).output_filename@
                    &&& final(self).styles_json == old(self).styles_json
                },
            },
    {
        match action {
            FieldAction::ReadKmlFile { filename } => {
                self.kml_files.push(KmlFile { name: filename.clone(), content });
            },
            FieldAction::ReadOutputName => {
                let t = trim_str(content.as_str());
                if !t.as_str().is_empty() {
                    self.output_filename = sanitize_file_name(t.as_str());
                }
            },
            FieldAction::ReadStyles => {
                self.styles_json = Some(content);
            },
            _ => {},
        }
    }

    /// The name under which the merged file is offered.
    pub fn download_filename(&self) -> (r: String)
        ensures
            r@ == download_name(self.output_filename@),
    {
        let mut r = if self.output_filename.as_str().is_empty() {
            String::from_str("merged")
        } else {
            self.output_filename.clone()
        };
        r.append(".kml");
        r
    }

    /// The `Content-Disposition` header value that offers the merged file
    /// for download under its name.
    pub fn content_disposition(&self) -> (r: String)
        ensures
            r@ == "attachment; filename=\""@ + download_name(self.output_filename@) + "\""@,
    {
        let mut r = String::from_str("attachment; filename=\"");
        let name = self.download_filename();
        r.append(name.as_str());
        r.append("\"");
        r
    }

    /// The text that answers a merge that failed: `Merge error: ` and the
    /// error's message.
    pub fn merge_error_message(e: &AppError) -> (r: String)
        ensures
            r@.len() >= merge_error_prefix().len(),
            r@.subrange(0, merge_error_prefix().len() as int) == merge_error_prefix(),
            is_message_of(*e, r@.subrange(merge_error_prefix().len() as int, r@.len() as int)),
    {
        let mut r = String::from_str("Merge error: ");
        let ghost head = r@;
        let m = e.message();
        r.append(m.as_str());
        assert(r@.subrange(0, head.len() as int) =~= head);
        assert(r@.subrange(head.len() as int, r@.len() as int) =~= m@);
        r
    }

    /// The answer that refuses the form, if it holds no KML file.
    pub fn rejection(&self) -> (r: Option<String>)
        ensures
            r is Some <==> self.kml_files@.len() == 0,
            r matches Some(m) ==> m@ == no_files_message(),
    {
        if self.kml_files.len() == 0 {
            Some(Self::no_files_message())
        } else {
            None
        }
    }

    /// The text that answers an upload with no KML file in it.
    pub fn no_files_message() -> (r: String)
        ensures
            r@ == no_files_message(),
    {
        String::from_str("No KML files uploaded")
    }
}

} // verus!
