//! Reading the faces of a font file.  The font parser supplies the parsed
//! tables; the fvar named instances are read from the raw `fvar` bytes here,
//! since the parser exposes the axes but not the instances.

use vstd::prelude::*;
use crate::fonts::{AxisInfo, AxisView, FaceInfo, FaceView, axes_view, faces_view, visible_family};
use crate::fonts::fixed::{coord_weight, quantize_width, spec_coord_weight, spec_quantize_width};
use crate::fonts::names::{
    NamePlatform, NameRecord, NameView, name_fits, names_fit, names_view, name_text, pick_name, pick_axis_name,
    spec_axis_name, spec_name_text, spec_pick_name,
};
use crate::paths::{extension, spec_extension};
use crate::text::{chars_of, string_from_chars};

verus! {

#[verifier::external_type_specification]
#[verifier::external_body]
pub struct ExFace<'a>(ttf_parser::Face<'a>);

#[verifier::external_type_specification]
#[verifier::external_body]
pub struct ExNames<'a>(ttf_parser::name::Names<'a>);

/// A variation axis as the face logic reads it.
pub struct AxisRecord {
    pub tag: u32,
    pub name_id: u16,
    pub hidden: bool,
    pub range: ttf_parser::VariationAxis,
}

/// What the face logic reads from a parsed face, as plain values.
pub struct FaceData {
    /// The `name` records that could be read, in table order.
    pub names: Vec<NameRecord>,
    /// The OS/2 weight class (400 when there is no OS/2 table).
    pub weight: u16,
    pub italic: bool,
    pub oblique: bool,
    pub axes: Vec<AxisRecord>,
    /// The raw `OS/2` table, if present.
    pub os2: Option<Vec<u8>>,
    /// The raw `fvar` table, if present.
    pub fvar: Option<Vec<u8>>,
}

pub open spec fn opt_bytes(o: Option<Vec<u8>>) -> Option<Seq<u8>> {
    match o {
        Some(v) => Some(v@),
        None => None,
    }
}

pub struct FaceDataView {
    pub names: Seq<NameView>,
    pub weight: u16,
    pub italic: bool,
    pub oblique: bool,
    pub axes: Seq<AxisRecord>,
    pub os2: Option<Seq<u8>>,
    pub fvar: Option<Seq<u8>>,
}

impl View for FaceData {
    type V = FaceDataView;

    open spec fn view(&self) -> FaceDataView {
        FaceDataView {
            names: names_view(self.names@),
            weight: self.weight,
            italic: self.italic,
            oblique: self.oblique,
            axes: self.axes@,
            os2: opt_bytes(self.os2),
            fvar: opt_bytes(self.fvar),
        }
    }
}

// ---------------------------------------------------------------------------
// The font parser.

pub open spec fn be_u32_at(d: Seq<u8>, o: int) -> int {
    d[o] as int * 0x100_0000 + d[o + 1] as int * 0x1_0000 + d[o + 2] as int * 0x100 + d[o + 3] as int
}

/// The face count of a font collection: the `ttcf` magic, then the count
/// at offset 8 of the 12-byte header.
pub open spec fn spec_collection_count(data: Seq<u8>) -> Option<u32> {
    if data.len() >= 12 && data[0] == 0x74 && data[1] == 0x74 && data[2] == 0x63 && data[3] == 0x66 {
        Some(be_u32_at(data, 8) as u32)
    } else {
        None
    }
}

/// `ttf_parser::fonts_in_collection`: for data that starts with the `ttcf`
/// magic and holds a 12-byte collection header, the face count stored at
/// offset 8; `None` otherwise.
#[verifier::external_body]
pub(crate) fn fonts_in_collection(data: &[u8]) -> (res: Option<u32>)
    ensures
        res == spec_collection_count(data@),
{
    ttf_parser::fonts_in_collection(data)
}

/// How many faces a font file holds: the count in a collection header, 1
/// for any other file.
pub fn face_count(data: &[u8]) -> (n: u32)
    ensures
        n == match spec_collection_count(data@) {
            Some(c) => c,
            None => 1,
        },
{
    match fonts_in_collection(data) {
        Some(n) => n,
        None => 1,
    }
}

/// A face parsed out of a font file's bytes.  Its view is where it came
/// from: the file's bytes and the face's index in them.
pub struct ParsedFace<'a> {
    face: ttf_parser::Face<'a>,
    source: Ghost<(Seq<u8>, u32)>,
}

impl<'a> View for ParsedFace<'a> {
    type V = (Seq<u8>, u32);

    closed spec fn view(&self) -> (Seq<u8>, u32) {
        self.source@
    }
}

/// Whether the font parser opens the face at `index` of these bytes.
pub uninterp spec fn spec_face_parses(data: Seq<u8>, index: u32) -> bool;

/// `ttf_parser::Face::parse`: the face at `index`, if it parses; it is a
/// function of the bytes and the index.
#[verifier::external_body]
fn face_parse<'a>(data: &'a [u8], index: u32) -> (res: Option<ParsedFace<'a>>)
    ensures
        res is Some == spec_face_parses(data@, index),
        res matches Some(p) ==> p@ == (data@, index),
{
    match ttf_parser::Face::parse(data, index) {
        Ok(face) => Some(ParsedFace { face, source: Ghost((data@, index)) }),
        Err(_) => None,
    }
}

/// The records of a `name` table, in order: each as it reads, `None` where
/// a record cannot be read.
pub uninterp spec fn names_contents(names: ttf_parser::name::Names) -> Seq<Option<NameView>>;

/// The records of the `name` table of the face at `index` of these bytes.
pub uninterp spec fn spec_face_names(data: Seq<u8>, index: u32) -> Seq<Option<NameView>>;

/// `ttf_parser::Face::names`: the face's `name` table records.
#[verifier::external_body]
fn face_names<'a>(face: &ParsedFace<'a>) -> (res: ttf_parser::name::Names<'a>)
    ensures
        names_contents(res) == spec_face_names(face@.0, face@.1),
{
    face.face.names()
}

/// `ttf_parser::name::Names::len`: the number of name records.
#[verifier::external_body]
fn names_len(names: &ttf_parser::name::Names) -> (n: u16)
    ensures
        n == names_contents(*names).len(),
{
    names.len()
}

pub open spec fn record_view(r: Option<NameRecord>) -> Option<NameView> {
    match r {
        Some(n) => Some(n@),
        None => None,
    }
}

/// `ttf_parser::name::Names::get`: the record at `index`, with its bytes,
/// when its storage range is inside the table; `None` past the last record.
/// A record's length field is 16-bit, so its bytes number at most 65535.
#[verifier::external_body]
fn names_get(names: &ttf_parser::name::Names, index: u16) -> (res: Option<NameRecord>)
    ensures
        index < names_contents(*names).len() ==> record_view(res) == names_contents(*names)[index as int],
        index >= names_contents(*names).len() ==> res is None,
        res matches Some(r) ==> name_fits(r@),
{
    let n = names.get(index)?;
    let platform_id = match n.platform_id {
        ttf_parser::PlatformId::Unicode => NamePlatform::Unicode,
        ttf_parser::PlatformId::Macintosh => NamePlatform::Macintosh,
        ttf_parser::PlatformId::Iso => NamePlatform::Iso,
        ttf_parser::PlatformId::Windows => NamePlatform::Windows,
        ttf_parser::PlatformId::Custom => NamePlatform::Custom,
    };
    Some(NameRecord {
        platform_id,
        encoding_id: n.encoding_id,
        language_id: n.language_id,
        name_id: n.name_id,
        name: n.name.to_vec(),
    })
}

/// The OS/2 weight class of the face at `index` of these bytes.
pub uninterp spec fn spec_face_weight(data: Seq<u8>, index: u32) -> u16;

/// `ttf_parser::Face::weight`, as its number: the OS/2 weight class.
#[verifier::external_body]
fn face_weight(face: &ParsedFace) -> (w: u16)
    ensures
        w == spec_face_weight(face@.0, face@.1),
{
    face.face.weight().to_number()
}

/// Whether the face at `index` of these bytes is marked italic.
pub uninterp spec fn spec_face_italic(data: Seq<u8>, index: u32) -> bool;

/// `ttf_parser::Face::is_italic`.
#[verifier::external_body]
fn face_is_italic(face: &ParsedFace) -> (b: bool)
    ensures
        b == spec_face_italic(face@.0, face@.1),
{
    face.face.is_italic()
}

/// Whether the face at `index` of these bytes is marked oblique.
pub uninterp spec fn spec_face_oblique(data: Seq<u8>, index: u32) -> bool;

/// `ttf_parser::Face::is_oblique`.
#[verifier::external_body]
fn face_is_oblique(face: &ParsedFace) -> (b: bool)
    ensures
        b == spec_face_oblique(face@.0, face@.1),
{
    face.face.is_oblique()
}

/// The variation axes of the face at `index` of these bytes, in table order.
pub uninterp spec fn spec_face_axes(data: Seq<u8>, index: u32) -> Seq<AxisRecord>;

/// `ttf_parser::Face::variation_axes`, each axis with its tag, name id and
/// hidden flag alongside, in table order (at most 65535: the count is 16-bit).
#[verifier::external_body]
fn face_variation_axes(face: &ParsedFace) -> (axes: Vec<AxisRecord>)
    ensures
        axes@ == spec_face_axes(face@.0, face@.1),
        axes@.len() <= 0xFFFF,
{
    face.face.variation_axes().into_iter().map(
        |a: ttf_parser::VariationAxis| AxisRecord { tag: a.tag.0, name_id: a.name_id, hidden: a.hidden, range: a },
    ).collect()
}

/// The raw bytes of the table with this tag in the face at `index` of these bytes.
pub uninterp spec fn spec_face_table(data: Seq<u8>, index: u32, tag: u32) -> Option<Seq<u8>>;

/// `ttf_parser::RawFace::table`: the raw bytes of the table with this tag.
#[verifier::external_body]
fn face_table(face: &ParsedFace, tag: u32) -> (res: Option<Vec<u8>>)
    ensures
        opt_bytes(res) == spec_face_table(face@.0, face@.1, tag),
{
    face.face.raw_face().table(ttf_parser::Tag(tag)).map(|t| t.to_vec())
}


/// The four characters of a tag: each byte, most significant first, read as
/// a Latin-1 character.
pub open spec fn tag_chars(tag: u32) -> Seq<char> {
    seq![
        ((tag as int / 0x100_0000) % 256) as u8 as char,
        ((tag as int / 0x1_0000) % 256) as u8 as char,
        ((tag as int / 0x100) % 256) as u8 as char,
        (tag as int % 256) as u8 as char,
    ]
}

/// `Display` of `ttf_parser::Tag`: the tag's four bytes as characters.
#[verifier::external_body]
pub(crate) fn tag_text(tag: u32) -> (res: String)
    ensures
        res@ == tag_chars(tag),
{
    ttf_parser::Tag(tag).to_string()
}

pub const TAG_OS2: u32 = 0x4F53_2F32;

pub const TAG_FVAR: u32 = 0x6676_6172;

/// The records that could be read, in order.
pub open spec fn present(s: Seq<Option<NameView>>) -> Seq<NameView>
    decreases s.len(),
{
    if s.len() == 0 {
        Seq::empty()
    } else {
        match s.last() {
            Some(n) => present(s.drop_last()).push(n),
            None => present(s.drop_last()),
        }
    }
}

/// What the face logic reads from the face at `index` of a font file's bytes.
pub open spec fn spec_face_data(data: Seq<u8>, index: u32) -> FaceDataView {
    FaceDataView {
        names: present(spec_face_names(data, index)),
        weight: spec_face_weight(data, index),
        italic: spec_face_italic(data, index),
        oblique: spec_face_oblique(data, index),
        axes: spec_face_axes(data, index),
        os2: spec_face_table(data, index, TAG_OS2),
        fvar: spec_face_table(data, index, TAG_FVAR),
    }
}

/// Read the plain values the face logic needs out of a parsed face: the
/// name records that read, weight, italic and oblique flags, variation
/// axes, and the raw OS/2 and fvar tables.
pub fn face_data(face: &ParsedFace) -> (data: FaceData)
    ensures
        data@ == spec_face_data(face@.0, face@.1),
        data.axes@.len() <= 0xFFFF,
        names_fit(data@.names),
{
    let table = face_names(face);
    let count = names_len(&table);
    let ghost contents = names_contents(table);
    let mut names: Vec<NameRecord> = Vec::new();
    for i in 0..count
        invariant
            count == contents.len(),
            contents == names_contents(table),
            names_view(names@) == present(contents.take(i as int)),
            names_fit(names_view(names@)),
    {
        let r = names_get(&table, i);
        assert(contents.take(i + 1).drop_last() =~= contents.take(i as int));
        assert(contents.take(i + 1).last() == contents[i as int]);
        if let Some(n) = r {
            let ghost before = names_view(names@);
            names.push(n);
            assert(names_view(names@) =~= before.push(n@));
            assert forall|k: int| 0 <= k < names_view(names@).len() implies name_fits(
                #[trigger] names_view(names@)[k],
            ) by {
                if k < before.len() {
                    assert(names_view(names@)[k] == before[k]);
                }
            }
        }
    }
    assert(contents.take(count as int) =~= contents);
    let axes = face_variation_axes(face);
    FaceData {
        names,
        weight: face_weight(face),
        italic: face_is_italic(face),
        oblique: face_is_oblique(face),
        axes,
        os2: face_table(face, TAG_OS2),
        fvar: face_table(face, TAG_FVAR),
    }
}


// ---------------------------------------------------------------------------
// Style, width and axes.

/// The code of a character with ASCII uppercase letters folded to lowercase.
pub open spec fn ascii_lower(c: char) -> u32 {
    if 'A' <= c && c <= 'Z' {
        (c as u32 + 32) as u32
    } else {
        c as u32
    }
}

pub open spec fn eq_ignore_ascii_case(a: Seq<char>, b: Seq<char>) -> bool {
    a.len() == b.len() && forall|i: int| 0 <= i < a.len() ==> ascii_lower(#[trigger] a[i])
        == ascii_lower(b[i])
}

pub fn chars_eq_ignore_ascii_case(a: &Vec<char>, b: &Vec<char>) -> (res: bool)
    ensures
        res == eq_ignore_ascii_case(a@, b@),
{
    if a.len() != b.len() {
        return false;
    }
    for i in 0..a.len()
        invariant
            a@.len() == b@.len(),
            forall|j: int| 0 <= j < i ==> ascii_lower(#[trigger] a@[j]) == ascii_lower(b@[j]),
    {
        let x = a[i];
        let y = b[i];
        let lx: u32 = if 'A' <= x && x <= 'Z' {
            (x as u32) + 32
        } else {
            x as u32
        };
        let ly: u32 = if 'A' <= y && y <= 'Z' {
            (y as u32) + 32
        } else {
            y as u32
        };
        if lx != ly {
            assert(ascii_lower(a@[i as int]) != ascii_lower(b@[i as int]));
            return false;
        }
    }
    true
}

pub open spec fn oblique_text() -> Seq<char> {
    seq!['O', 'b', 'l', 'i', 'q', 'u', 'e']
}

pub open spec fn italic_text() -> Seq<char> {
    seq!['I', 't', 'a', 'l', 'i', 'c']
}

pub open spec fn regular_text() -> Seq<char> {
    seq!['R', 'e', 'g', 'u', 'l', 'a', 'r']
}

pub fn regular_string() -> (s: String)
    ensures
        s@ == regular_text(),
{
    let v = vec!['R', 'e', 'g', 'u', 'l', 'a', 'r'];
    assert(v@ =~= regular_text());
    string_from_chars(&v)
}

/// An English (any region) Windows subfamily record reading "Italic", in any ASCII case.
pub open spec fn is_italic_sibling(n: NameView) -> bool {
    &&& n.name_id == 2
    &&& n.platform_id == NamePlatform::Windows
    &&& n.language_id % 256 == 9
    &&& spec_name_text(n) matches Some(s) && eq_ignore_ascii_case(s, italic_text())
}

/// Upstream's Galvji-Oblique rewrite: an italic face whose style reads
/// "Oblique" becomes "Italic" when an English Windows subfamily record
/// already spells it "Italic"; every other style is kept.
pub open spec fn spec_canonical_style(names: Seq<NameView>, italic: bool, style: Seq<char>) -> Seq<
    char,
> {
    if italic && eq_ignore_ascii_case(style, oblique_text()) && exists|k: int|
        0 <= k < names.len() && is_italic_sibling(#[trigger] names[k]) {
        italic_text()
    } else {
        style
    }
}

pub fn canonicalize_style(data: &FaceData, style: String) -> (res: String)
    requires
        names_fit(data@.names),
    ensures
        res@ == spec_canonical_style(data@.names, data.italic || data.oblique, style@),
{
    let italic = data.italic || data.oblique;
    let style_chars = chars_of(style.as_str());
    let oblique = vec!['O', 'b', 'l', 'i', 'q', 'u', 'e'];
    assert(oblique@ =~= oblique_text());
    if !italic || !chars_eq_ignore_ascii_case(&style_chars, &oblique) {
        return style;
    }
    let italic_word = vec!['I', 't', 'a', 'l', 'i', 'c'];
    assert(italic_word@ =~= italic_text());
    let ghost nv = data@.names;
    for i in 0..data.names.len()
        invariant
            nv == names_view(data.names@),
            names_fit(nv),
            italic_word@ == italic_text(),
            italic == (data.italic || data.oblique),
            italic,
            eq_ignore_ascii_case(style@, oblique_text()),
            forall|j: int| 0 <= j < i ==> !is_italic_sibling(#[trigger] nv[j]),
    {
        let n = &data.names[i];
        assert(nv[i as int] == n@);
        assert(name_fits(nv[i as int]));
        if n.name_id == 2 && n.platform_id == NamePlatform::Windows && n.language_id % 256 == 9 {
            if let Some(s) = name_text(n) {
                let sc = chars_of(s.as_str());
                if chars_eq_ignore_ascii_case(&sc, &italic_word) {
                    assert(is_italic_sibling(nv[i as int]));
                    assert(exists|k: int| 0 <= k < nv.len() && is_italic_sibling(#[trigger] nv[k]));
                    return string_from_chars(&italic_word);
                }
            }
        }
    }
    style
}

pub open spec fn be16(d: Seq<u8>, o: int) -> int {
    d[o] as int * 256 + d[o + 1] as int
}

/// The OS/2 width class: `usWidthClass` clamped to 1-9 (so 0 reads as 1),
/// and 5 when the table is missing or too short to hold it.
pub open spec fn spec_os2_width(os2: Option<Seq<u8>>) -> u8 {
    match os2 {
        None => 5,
        Some(d) => if d.len() < 8 {
            5
        } else if be16(d, 6) < 1 {
            1
        } else if be16(d, 6) > 9 {
            9
        } else {
            be16(d, 6) as u8
        },
    }
}

pub fn read_os2_width(data: &FaceData) -> (w: u8)
    ensures
        w == spec_os2_width(data@.os2),
        1 <= w <= 9,
{
    match &data.os2 {
        None => 5,
        Some(d) => {
            if d.len() < 8 {
                return 5;
            }
            let raw: u16 = d[6] as u16 * 256 + d[7] as u16;
            if raw < 1 {
                1
            } else if raw > 9 {
                9
            } else {
                raw as u8
            }
        },
    }
}

pub open spec fn spec_extract_axes(d: FaceDataView) -> Seq<AxisView> {
    d.axes.map_values(
        |a: AxisRecord|
            AxisView {
                tag: tag_chars(a.tag),
                name: spec_axis_name(d.names, tag_chars(a.tag), a.name_id),
                range: a.range,
                coord: None,
                hidden: a.hidden,
            },
    )
}

/// The face's variation axes, labelled, at their defaults.
pub fn extract_axes(data: &FaceData) -> (axes: Vec<AxisInfo>)
    requires
        names_fit(data@.names),
    ensures
        axes_view(axes@) == spec_extract_axes(data@),
{
    let mut axes: Vec<AxisInfo> = Vec::new();
    for i in 0..data.axes.len()
        invariant
            axes@.len() == i,
            names_fit(data@.names),
            forall|j: int| 0 <= j < i ==> #[trigger] axes@[j]@ == spec_extract_axes(data@)[j],
    {
        let a = &data.axes[i];
        let tag = tag_text(a.tag);
        let name = pick_axis_name(&data.names, tag.as_str(), a.name_id);
        axes.push(AxisInfo { tag, name, range: a.range, coord: None, hidden: a.hidden });
    }
    assert(axes_view(axes@) =~= spec_extract_axes(data@));
    axes
}

pub open spec fn or_else(a: Option<Seq<char>>, b: Option<Seq<char>>) -> Option<Seq<char>> {
    match a {
        Some(s) => Some(s),
        None => b,
    }
}

pub open spec fn or_empty(a: Option<Seq<char>>) -> Seq<char> {
    match a {
        Some(s) => s,
        None => Seq::empty(),
    }
}

/// The base description of a face: typographic family and subfamily (16/17)
/// preferred over the legacy ones (1/2), the style canonicalised and
/// "Regular" when absent, the PostScript name (6), weight, OS/2 width,
/// italic when the face is italic or oblique, and the labelled axes.
pub open spec fn spec_make_info(d: FaceDataView, modified_at: u64, user_installed: bool) -> FaceView {
    FaceView {
        family: or_empty(or_else(spec_pick_name(d.names, 16), spec_pick_name(d.names, 1))),
        style: match or_else(spec_pick_name(d.names, 17), spec_pick_name(d.names, 2)) {
            Some(s) => spec_canonical_style(d.names, d.italic || d.oblique, s),
            None => regular_text(),
        },
        postscript: or_empty(spec_pick_name(d.names, 6)),
        weight: d.weight,
        stretch: spec_os2_width(d.os2),
        italic: d.italic || d.oblique,
        axes: spec_extract_axes(d),
        modified_at,
        user_installed,
    }
}

pub fn make_info(data: &FaceData, modified_at: u64, user_installed: bool) -> (info: FaceInfo)
    requires
        names_fit(data@.names),
    ensures
        info@ == spec_make_info(data@, modified_at, user_installed),
{
    let family = match pick_name(&data.names, 16) {
        Some(s) => s,
        None => match pick_name(&data.names, 1) {
            Some(s) => s,
            None => String::new(),
        },
    };
    let style_name = match pick_name(&data.names, 17) {
        Some(s) => Some(s),
        None => pick_name(&data.names, 2),
    };
    let style = match style_name {
        Some(s) => canonicalize_style(data, s),
        None => regular_string(),
    };
    let postscript = match pick_name(&data.names, 6) {
        Some(s) => s,
        None => String::new(),
    };
    let stretch = read_os2_width(data);
    let variation_axes = extract_axes(data);
    FaceInfo {
        family,
        style,
        postscript,
        weight: data.weight,
        stretch,
        italic: data.italic || data.oblique,
        variation_axes,
        modified_at,
        user_installed,
    }
}


// ---------------------------------------------------------------------------
// fvar named instances.

/// A named instance of a variable font: its style name and its coordinate
/// on each axis (16.16 fixed point).
pub struct NamedInstance {
    pub style: String,
    pub coords: Vec<i32>,
}

pub struct InstanceView {
    pub style: Seq<char>,
    pub coords: Seq<i32>,
}

impl View for NamedInstance {
    type V = InstanceView;

    open spec fn view(&self) -> InstanceView {
        InstanceView { style: self.style@, coords: self.coords@ }
    }
}

pub open spec fn be_i32_at(d: Seq<u8>, o: int) -> i32 {
    let u = be_u32_at(d, o);
    if u >= 0x8000_0000 {
        (u - 0x1_0000_0000) as i32
    } else {
        u as i32
    }
}

pub open spec fn sat_usize(x: int) -> int {
    if x > usize::MAX {
        usize::MAX as int
    } else {
        x
    }
}

/// fvar layout: a 16-byte header (axesArrayOffset at 4, axisSize at 10,
/// instanceCount at 12, instanceSize at 14), the axis records, then the
/// instance records (subfamilyID, flags, one 16.16 coordinate per axis,
/// optionally a PostScript name id).
pub open spec fn fvar_usable(d: Seq<u8>, axis_count: int) -> bool {
    d.len() >= 16 && axis_count > 0 && be16(d, 14) >= axis_count * 4 + 4
}

pub open spec fn fvar_instances_offset(d: Seq<u8>, axis_count: int) -> int {
    sat_usize(be16(d, 4) + axis_count * be16(d, 10))
}

/// How many instance records are read: all that the header announces, up to
/// the first that does not fit in the table.
pub open spec fn fvar_instance_count(d: Seq<u8>, axis_count: int) -> int {
    if !fvar_usable(d, axis_count) {
        0
    } else {
        let off = fvar_instances_offset(d, axis_count);
        if off > d.len() {
            0
        } else if be16(d, 12) <= (d.len() - off) / be16(d, 14) {
            be16(d, 12)
        } else {
            (d.len() - off) / be16(d, 14)
        }
    }
}

pub open spec fn fvar_instance_base(d: Seq<u8>, axis_count: int, i: int) -> int {
    fvar_instances_offset(d, axis_count) + i * be16(d, 14)
}

pub open spec fn spec_instance(d: Seq<u8>, names: Seq<NameView>, axis_count: int, i: int) -> InstanceView {
    let base = fvar_instance_base(d, axis_count, i);
    InstanceView {
        style: match spec_pick_name(names, be16(d, base) as u16) {
            Some(s) => s,
            None => regular_text(),
        },
        coords: Seq::new(axis_count as nat, |a: int| be_i32_at(d, base + 4 + 4 * a)),
    }
}

/// The named instances of a face, with their style names looked up in the
/// face's names ("Regular" when the subfamily id names nothing).
pub open spec fn spec_fvar_instances(fvar: Option<Seq<u8>>, names: Seq<NameView>, axis_count: int) -> Seq<
    InstanceView,
> {
    match fvar {
        None => Seq::empty(),
        Some(d) => Seq::new(
            fvar_instance_count(d, axis_count) as nat,
            |i: int| spec_instance(d, names, axis_count, i),
        ),
    }
}

fn read_u16_be(d: &[u8], o: usize) -> (v: usize)
    requires
        o + 2 <= d@.len(),
    ensures
        v == be16(d@, o as int),
{
    d[o] as usize * 256 + d[o + 1] as usize
}

fn read_i32_be(d: &[u8], o: usize) -> (v: i32)
    requires
        o + 4 <= d@.len(),
    ensures
        v == be_i32_at(d@, o as int),
{
    let u: u32 = d[o] as u32 * 0x100_0000 + d[o + 1] as u32 * 0x1_0000 + d[o + 2] as u32 * 0x100
        + d[o + 3] as u32;
    if u >= 0x8000_0000 {
        ((u - 0x8000_0000) as i32) - 0x7fff_ffff - 1
    } else {
        u as i32
    }
}

fn sat_mul(a: usize, b: usize) -> (r: usize)
    ensures
        r == sat_usize(a * b),
{
    match a.checked_mul(b) {
        Some(v) => v,
        None => usize::MAX,
    }
}

proof fn lemma_fits(l: int, s: int, i: int)
    requires
        l >= 0,
        s > 0,
        i >= 0,
    ensures
        i * s + s <= l ==> i < l / s,
        i < l / s ==> i * s + s <= l,
        i >= l / s ==> i * s + s > l,
        i * s >= 0,
{
    assert(i * s >= 0) by (nonlinear_arith)
        requires
            i >= 0,
            s > 0,
    ;
    assert((l / s) * s <= l && l < (l / s) * s + s) by (nonlinear_arith)
        requires
            l >= 0,
            s > 0,
    ;
    assert(i * s + s == (i + 1) * s) by (nonlinear_arith);
    assert(i + 1 <= l / s ==> (i + 1) * s <= (l / s) * s) by (nonlinear_arith)
        requires
            s > 0,
    ;
    assert(i + 1 > l / s ==> (i + 1) * s >= (l / s) * s + s) by (nonlinear_arith)
        requires
            s > 0,
    ;
}

/// Walk the raw fvar table for its named instances.
pub fn parse_fvar_instances(data: &FaceData, axis_count: usize) -> (out: Vec<NamedInstance>)
    requires
        names_fit(data@.names),
        axis_count < usize::MAX / 4,
    ensures
        out@.len() == spec_fvar_instances(data@.fvar, data@.names, axis_count as int).len(),
        forall|i: int|
            0 <= i < out@.len() ==> #[trigger] out@[i]@ == spec_fvar_instances(
                data@.fvar,
                data@.names,
                axis_count as int,
            )[i],
{
    let d = match &data.fvar {
        Some(d) => d,
        None => {
            return Vec::new();
        },
    };
    if d.len() < 16 || axis_count == 0 {
        return Vec::new();
    }
    let axes_offset = read_u16_be(d, 4);
    let axis_size = read_u16_be(d, 10);
    let instance_count = read_u16_be(d, 12);
    let instance_size = read_u16_be(d, 14);
    let coords_bytes = sat_mul(axis_count, 4);
    if instance_size < coords_bytes + 4 {
        return Vec::new();
    }
    let ghost dv = d@;
    let ghost ac = axis_count as int;
    let instances_offset = axes_offset.saturating_add(sat_mul(axis_count, axis_size));
    assert(instances_offset == fvar_instances_offset(dv, ac));
    let ghost count = fvar_instance_count(dv, ac);
    let mut out: Vec<NamedInstance> = Vec::new();
    let mut i: usize = 0;
    let mut done = false;
    while i < instance_count && !done
        invariant
            dv == d@,
            dv.len() <= usize::MAX,
            data@.fvar == Some(dv),
            names_fit(data@.names),
            fvar_usable(dv, ac),
            ac == axis_count,
            instance_count == be16(dv, 12),
            instance_size == be16(dv, 14),
            instances_offset == fvar_instances_offset(dv, ac),
            count == fvar_instance_count(dv, ac),
            i <= count,
            done ==> i == count,
            out@.len() == i,
            forall|k: int|
                0 <= k < i ==> #[trigger] out@[k]@ == spec_instance(dv, data@.names, ac, k),
        decreases instance_count - i, if done { 0int } else { 1int },
    {
        let ghost l = dv.len() - instances_offset;
        proof {
            if instances_offset <= dv.len() {
                lemma_fits(l, instance_size as int, i as int);
            }
        }
        let step = sat_mul(i, instance_size);
        let base_opt = match instances_offset.checked_add(step) {
            Some(b) => match b.checked_add(instance_size) {
                Some(e) => if e <= d.len() {
                    Some(b)
                } else {
                    None
                },
                None => None,
            },
            None => None,
        };
        proof {
            if instances_offset <= dv.len() {
                assert(count <= l / (instance_size as int));
                if base_opt is None {
                    assert(i * instance_size + instance_size > l);
                } else {
                    assert(i * instance_size + instance_size <= l);
                    assert(i < count);
                }
            } else {
                assert(count == 0);
            }
        }
        match base_opt {
            None => {
                done = true;
            },
            Some(base) => {
                assert(base == fvar_instance_base(dv, ac, i as int));
                let subfamily_id = read_u16_be(d, base);
                let mut coords: Vec<i32> = Vec::new();
                for a in 0..axis_count
                    invariant
                        dv == d@,
                        dv.len() <= usize::MAX,
                        base + instance_size <= dv.len(),
                        instance_size >= axis_count * 4 + 4,
                        coords@.len() == a,
                        forall|j: int|
                            0 <= j < a ==> #[trigger] coords@[j] == be_i32_at(
                                dv,
                                base + 4 + 4 * j,
                            ),
                {
                    coords.push(read_i32_be(d, base + 4 + a * 4));
                }
                let style = match pick_name(&data.names, subfamily_id as u16) {
                    Some(s) => s,
                    None => regular_string(),
                };
                let inst = NamedInstance { style, coords };
                assert(inst@.coords =~= spec_instance(dv, data@.names, ac, i as int).coords);
                out.push(inst);
                i = i + 1;
            },
        }
    }
    assert(i == count);
    out
}

// ---------------------------------------------------------------------------
// Applying a named instance.

/// A string with its spaces removed.
pub open spec fn without_spaces(s: Seq<char>) -> Seq<char>
    decreases s.len(),
{
    if s.len() == 0 {
        s
    } else if s.last() == ' ' {
        without_spaces(s.drop_last())
    } else {
        without_spaces(s.drop_last()).push(s.last())
    }
}

pub fn strip_spaces(s: &String) -> (out: Vec<char>)
    ensures
        out@ == without_spaces(s@),
{
    let cs = chars_of(s.as_str());
    let mut out: Vec<char> = Vec::new();
    for i in 0..cs.len()
        invariant
            cs@ == s@,
            out@ == without_spaces(cs@.take(i as int)),
    {
        assert(cs@.take(i + 1).drop_last() =~= cs@.take(i as int));
        if cs[i] != ' ' {
            out.push(cs[i]);
        }
    }
    assert(cs@.take(cs@.len() as int) =~= cs@);
    out
}

/// The PostScript name upstream builds for an instance:
/// `family` without spaces, `-`, `style` without spaces.
pub open spec fn instance_postscript(family: Seq<char>, style: Seq<char>) -> Seq<char> {
    without_spaces(family) + seq!['-'] + without_spaces(style)
}

pub open spec fn wght_tag() -> Seq<char> {
    seq!['w', 'g', 'h', 't']
}

pub open spec fn wdth_tag() -> Seq<char> {
    seq!['w', 'd', 't', 'h']
}

pub open spec fn slnt_tag() -> Seq<char> {
    seq!['s', 'l', 'n', 't']
}

pub open spec fn ital_tag() -> Seq<char> {
    seq!['i', 't', 'a', 'l']
}

/// Weight, width class and italic flag after the first `n` axes of an
/// instance are applied in order: `wght` sets the weight, `wdth` the width
/// class, a non-zero `slnt` or `ital` makes the face italic.
pub open spec fn instance_traits(axes: Seq<AxisView>, coords: Seq<i32>, n: int, base: (u16, u8, bool)) -> (
    u16,
    u8,
    bool,
)
    decreases n,
{
    if n <= 0 {
        base
    } else {
        let prev = instance_traits(axes, coords, n - 1, base);
        let tag = axes[n - 1].tag;
        let c = coords[n - 1];
        if tag == wght_tag() {
            (spec_coord_weight(c), prev.1, prev.2)
        } else if tag == wdth_tag() {
            (prev.0, spec_quantize_width(c), prev.2)
        } else if (tag == slnt_tag() || tag == ital_tag()) && c != 0 {
            (prev.0, prev.1, true)
        } else {
            prev
        }
    }
}

pub open spec fn paired(axes: Seq<AxisView>, coords: Seq<i32>) -> int {
    if axes.len() < coords.len() {
        axes.len() as int
    } else {
        coords.len() as int
    }
}

pub open spec fn instance_axes(axes: Seq<AxisView>, coords: Seq<i32>) -> Seq<AxisView> {
    Seq::new(
        axes.len(),
        |k: int|
            if k < coords.len() {
                AxisView {
                    tag: axes[k].tag,
                    name: axes[k].name,
                    range: axes[k].range,
                    coord: Some(coords[k]),
                    hidden: axes[k].hidden,
                }
            } else {
                axes[k]
            },
    )
}

/// The face a named instance describes: the instance's style and PostScript
/// name, each axis at the instance's coordinate, and the weight, width class
/// and italic flag those coordinates imply.
pub open spec fn spec_apply_instance(base: FaceView, inst: InstanceView) -> FaceView {
    let traits = instance_traits(
        base.axes,
        inst.coords,
        paired(base.axes, inst.coords),
        (base.weight, base.stretch, base.italic),
    );
    FaceView {
        family: base.family,
        style: inst.style,
        postscript: instance_postscript(base.family, inst.style),
        weight: traits.0,
        stretch: traits.1,
        italic: traits.2,
        axes: instance_axes(base.axes, inst.coords),
        modified_at: base.modified_at,
        user_installed: base.user_installed,
    }
}

fn tag_is(t: &Vec<char>, a: char, b: char, c: char, d: char) -> (res: bool)
    ensures
        res == (t@ == seq![a, b, c, d]),
{
    crate::fonts::names::chars_eq4(t, a, b, c, d)
}

pub fn apply_instance(base: &FaceInfo, inst: NamedInstance) -> (info: FaceInfo)
    ensures
        info@ == spec_apply_instance(base@, inst@),
{
    let mut postscript_chars = strip_spaces(&base.family);
    postscript_chars.push('-');
    let style_chars = strip_spaces(&inst.style);
    let ghost before = postscript_chars@;
    for i in 0..style_chars.len()
        invariant
            postscript_chars@ == before + style_chars@.take(i as int),
    {
        postscript_chars.push(style_chars[i]);
        assert(style_chars@.take(i + 1) =~= style_chars@.take(i as int).push(style_chars@[i as int]));
    }
    assert(style_chars@.take(style_chars@.len() as int) =~= style_chars@);
    assert(postscript_chars@ =~= instance_postscript(base@.family, inst@.style));
    let postscript = string_from_chars(&postscript_chars);
    let ghost bv = base@;
    let ghost iv = inst@;
    let mut weight = base.weight;
    let mut stretch = base.stretch;
    let mut italic = base.italic;
    let mut axes: Vec<AxisInfo> = Vec::new();
    let n = base.variation_axes.len();
    for k in 0..n
        invariant
            n == base.variation_axes@.len(),
            bv == base@,
            iv == inst@,
            axes@.len() == k,
            forall|j: int|
                0 <= j < k ==> #[trigger] axes@[j]@ == instance_axes(bv.axes, iv.coords)[j],
            (weight, stretch, italic) == instance_traits(
                bv.axes,
                iv.coords,
                if k < iv.coords.len() {
                    k as int
                } else {
                    iv.coords.len() as int
                },
                (bv.weight, bv.stretch, bv.italic),
            ),
    {
        let a = &base.variation_axes[k];
        assert(bv.axes[k as int] == a@);
        if k < inst.coords.len() {
            let c = inst.coords[k];
            axes.push(
                AxisInfo {
                    tag: a.tag.clone(),
                    name: a.name.clone(),
                    range: a.range,
                    coord: Some(c),
                    hidden: a.hidden,
                },
            );
            let tag = chars_of(a.tag.as_str());
            if tag_is(&tag, 'w', 'g', 'h', 't') {
                weight = coord_weight(c);
            } else if tag_is(&tag, 'w', 'd', 't', 'h') {
                stretch = quantize_width(c);
            } else if (tag_is(&tag, 's', 'l', 'n', 't') || tag_is(&tag, 'i', 't', 'a', 'l')) && c
                != 0 {
                italic = true;
            }
        } else {
            axes.push(a.copy());
        }
    }
    assert(axes_view(axes@) =~= instance_axes(bv.axes, iv.coords));
    FaceInfo {
        family: base.family.clone(),
        style: inst.style,
        postscript,
        weight,
        stretch,
        italic,
        variation_axes: axes,
        modified_at: base.modified_at,
        user_installed: base.user_installed,
    }
}

// ---------------------------------------------------------------------------
// Faces of a font.

/// The faces one parsed face contributes: none when its family is empty or
/// hidden (leading '.'); otherwise one per fvar named instance, or the base
/// face itself when there are no instances.
pub open spec fn spec_faces_of(d: FaceDataView, modified_at: u64, user_installed: bool) -> Seq<FaceView> {
    let base = spec_make_info(d, modified_at, user_installed);
    if !visible_family(base.family) {
        Seq::empty()
    } else {
        let insts = spec_fvar_instances(d.fvar, d.names, base.axes.len() as int);
        if insts.len() == 0 {
            seq![base]
        } else {
            insts.map_values(|x: InstanceView| spec_apply_instance(base, x))
        }
    }
}

pub fn faces_of(data: &FaceData, modified_at: u64, user_installed: bool) -> (faces: Vec<FaceInfo>)
    requires
        names_fit(data@.names),
        data.axes@.len() <= 0xFFFF,
    ensures
        faces_view(faces@) == spec_faces_of(data@, modified_at, user_installed),
{
    let base = make_info(data, modified_at, user_installed);
    let fam = chars_of(base.family.as_str());
    if fam.len() == 0 || fam[0] == '.' {
        assert(faces_view(Seq::<FaceInfo>::empty()) =~= Seq::<FaceView>::empty());
        return Vec::new();
    }
    assert(base@.axes.len() == data@.axes.len());
    let instances = parse_fvar_instances(data, base.variation_axes.len());
    let ghost insts = spec_fvar_instances(data@.fvar, data@.names, base@.axes.len() as int);
    let mut out: Vec<FaceInfo> = Vec::new();
    if instances.len() == 0 {
        out.push(base);
        assert(faces_view(out@) =~= spec_faces_of(data@, modified_at, user_installed));
        return out;
    }
    let mut instances = instances;
    let ghost all = instances@;
    let mut rev: Vec<FaceInfo> = Vec::new();
    let total = instances.len();
    while instances.len() > 0
        invariant
            instances@ == all.take(instances@.len() as int),
            all.len() == total,
            total == insts.len(),
            forall|j: int| 0 <= j < total ==> #[trigger] all[j]@ == insts[j],
            rev@.len() == total - instances@.len(),
            forall|j: int|
                0 <= j < rev@.len() ==> #[trigger] rev@[j]@ == spec_apply_instance(
                    base@,
                    insts[total - 1 - j],
                ),
        decreases instances@.len(),
    {
        let inst = instances.pop().unwrap();
        assert(inst == all[instances@.len() as int]);
        assert(instances@ =~= all.take(instances@.len() as int));
        rev.push(apply_instance(&base, inst));
    }
    while rev.len() > 0
        invariant
            out@.len() + rev@.len() == total,
            forall|j: int|
                0 <= j < rev@.len() ==> #[trigger] rev@[j]@ == spec_apply_instance(
                    base@,
                    insts[total - 1 - j],
                ),
            forall|j: int|
                0 <= j < out@.len() ==> #[trigger] out@[j]@ == spec_apply_instance(base@, insts[j]),
        decreases rev@.len(),
    {
        let f = rev.pop().unwrap();
        out.push(f);
    }
    assert(faces_view(out@) =~= spec_faces_of(data@, modified_at, user_installed));
    out
}

/// Every face a font file yields has a visible family and carries the
/// file's timestamp and classification.
pub open spec fn well_formed_faces(faces: Seq<FaceInfo>, modified_at: u64, user_installed: bool) -> bool {
    forall|i: int|
        0 <= i < faces.len() ==> visible_family((#[trigger] faces[i]).family@) && faces[i].modified_at
            == modified_at && faces[i].user_installed == user_installed
}

proof fn lemma_faces_of_well_formed(
    faces: Seq<FaceInfo>,
    d: FaceDataView,
    modified_at: u64,
    user_installed: bool,
)
    requires
        faces_view(faces) == spec_faces_of(d, modified_at, user_installed),
    ensures
        well_formed_faces(faces, modified_at, user_installed),
{
    assert forall|i: int| 0 <= i < faces.len() implies visible_family((#[trigger] faces[i]).family@)
        && faces[i].modified_at == modified_at && faces[i].user_installed == user_installed by {
        assert(faces_view(faces)[i] == faces[i]@);
        let base = spec_make_info(d, modified_at, user_installed);
        let insts = spec_fvar_instances(d.fvar, d.names, base.axes.len() as int);
        assert(faces_view(faces).len() == faces.len());
        if !visible_family(base.family) {
            assert(spec_faces_of(d, modified_at, user_installed) =~= Seq::<FaceView>::empty());
        }
        if insts.len() == 0 {
            assert(spec_faces_of(d, modified_at, user_installed) == seq![base]);
            assert(faces_view(faces)[i] == base);
        } else {
            assert(spec_faces_of(d, modified_at, user_installed) == insts.map_values(
                |x: InstanceView| spec_apply_instance(base, x),
            ));
            assert(faces_view(faces)[i] == spec_apply_instance(base, insts[i]));
        }
    }
}

/// The faces of the first `n` members of a font file, in index order: for
/// each member that parses, the faces it expands to.
pub open spec fn spec_file_faces(bytes: Seq<u8>, n: int, modified_at: u64, user_installed: bool) -> Seq<
    FaceView,
>
    decreases n,
{
    if n <= 0 {
        Seq::empty()
    } else {
        spec_file_faces(bytes, n - 1, modified_at, user_installed) + if spec_face_parses(
            bytes,
            (n - 1) as u32,
        ) {
            spec_faces_of(spec_face_data(bytes, (n - 1) as u32), modified_at, user_installed)
        } else {
            Seq::empty()
        }
    }
}

/// How many members a font file's bytes hold.
pub open spec fn spec_face_count(bytes: Seq<u8>) -> int {
    match spec_collection_count(bytes) {
        Some(c) => c as int,
        None => 1,
    }
}

/// Read every face of a font file's bytes: each member of a collection (or
/// the single face of a plain font) that parses, in index order, expanded
/// per named instance, skipping faces with an empty or dot-prefixed family.
pub fn read_font_bytes(bytes: &[u8], modified_at: u64, user_installed: bool) -> (faces: Vec<FaceInfo>)
    ensures
        faces_view(faces@) == spec_file_faces(
            bytes@,
            spec_face_count(bytes@),
            modified_at,
            user_installed,
        ),
        well_formed_faces(faces@, modified_at, user_installed),
{
    let face_count = face_count(bytes);
    let mut out: Vec<FaceInfo> = Vec::new();
    for index in 0..face_count
        invariant
            well_formed_faces(out@, modified_at, user_installed),
            faces_view(out@) == spec_file_faces(bytes@, index as int, modified_at, user_installed),
    {
        let ghost prefix = faces_view(out@);
        match face_parse(bytes, index) {
            Some(face) => {
                let data = face_data(&face);
                let faces = faces_of(&data, modified_at, user_installed);
                proof {
                    lemma_faces_of_well_formed(faces@, data@, modified_at, user_installed);
                }
                for j in 0..faces.len()
                    invariant
                        well_formed_faces(faces@, modified_at, user_installed),
                        well_formed_faces(out@, modified_at, user_installed),
                        faces_view(out@) == prefix + faces_view(faces@).take(j as int),
                {
                    let f = faces[j].copy();
                    assert(f@.family == faces@[j as int].family@);
                    let ghost before = out@;
                    out.push(f);
                    assert forall|i: int| 0 <= i < out@.len() implies visible_family(
                        (#[trigger] out@[i]).family@,
                    ) && out@[i].modified_at == modified_at && out@[i].user_installed
                        == user_installed by {
                        if i < before.len() {
                            assert(out@[i] == before[i]);
                        }
                    }
                    assert(f@ == faces@[j as int]@);
                    assert(faces_view(out@) =~= faces_view(before).push(f@));
                    assert(faces_view(faces@).take(j + 1) =~= faces_view(faces@).take(j as int).push(
                        faces@[j as int]@,
                    ));
                    assert(faces_view(out@) =~= prefix + faces_view(faces@).take(j + 1));
                }
                assert(faces_view(faces@).take(faces@.len() as int) =~= faces_view(faces@));
            },
            None => {
                assert(prefix + Seq::<FaceView>::empty() =~= prefix);
            },
        }
    }
    out
}

// ---------------------------------------------------------------------------
// Font file names.

pub open spec fn ascii_lower_byte(b: u8) -> u8 {
    if 0x41 <= b && b <= 0x5A {
        (b + 32) as u8
    } else {
        b
    }
}

/// `e` equals the lowercase ASCII word `word` when ASCII case is ignored.
pub open spec fn bytes_eq_ignore_case(e: Seq<u8>, word: Seq<u8>) -> bool {
    e.len() == word.len() && forall|i: int| 0 <= i < e.len() ==> ascii_lower_byte(#[trigger] e[i])
        == word[i]
}

/// The font extensions: ttf, otf, ttc, otc and dfont, in any ASCII case.
pub open spec fn is_font_extension(e: Seq<u8>) -> bool {
    ||| bytes_eq_ignore_case(e, seq![0x74u8, 0x74, 0x66])
    ||| bytes_eq_ignore_case(e, seq![0x6Fu8, 0x74, 0x66])
    ||| bytes_eq_ignore_case(e, seq![0x74u8, 0x74, 0x63])
    ||| bytes_eq_ignore_case(e, seq![0x6Fu8, 0x74, 0x63])
    ||| bytes_eq_ignore_case(e, seq![0x64u8, 0x66, 0x6F, 0x6E, 0x74])
}

pub open spec fn spec_is_font_file(path: Seq<u8>) -> bool {
    match spec_extension(path) {
        Some(e) => is_font_extension(e),
        None => false,
    }
}

fn lower_eq(e: &Vec<u8>, word: &Vec<u8>) -> (res: bool)
    ensures
        res == bytes_eq_ignore_case(e@, word@),
{
    if e.len() != word.len() {
        return false;
    }
    for i in 0..e.len()
        invariant
            e@.len() == word@.len(),
            forall|j: int| 0 <= j < i ==> ascii_lower_byte(#[trigger] e@[j]) == word@[j],
    {
        let b = e[i];
        let l = if 0x41 <= b && b <= 0x5A {
            b + 32
        } else {
            b
        };
        if l != word[i] {
            assert(ascii_lower_byte(e@[i as int]) != word@[i as int]);
            return false;
        }
    }
    true
}

/// Whether a path names a font file by its extension (case-insensitive).
pub fn is_font_file(path: &[u8]) -> (res: bool)
    ensures
        res == spec_is_font_file(path@),
{
    let e = match extension(path) {
        Some(e) => e,
        None => {
            return false;
        },
    };
    let ttf = vec![0x74u8, 0x74, 0x66];
    let otf = vec![0x6Fu8, 0x74, 0x66];
    let ttc = vec![0x74u8, 0x74, 0x63];
    let otc = vec![0x6Fu8, 0x74, 0x63];
    let dfont = vec![0x64u8, 0x66, 0x6F, 0x6E, 0x74];
    assert(ttf@ =~= seq![0x74u8, 0x74, 0x66]);
    assert(otf@ =~= seq![0x6Fu8, 0x74, 0x66]);
    assert(ttc@ =~= seq![0x74u8, 0x74, 0x63]);
    assert(otc@ =~= seq![0x6Fu8, 0x74, 0x63]);
    assert(dfont@ =~= seq![0x64u8, 0x66, 0x6F, 0x6E, 0x74]);
    lower_eq(&e, &ttf) || lower_eq(&e, &otf) || lower_eq(&e, &ttc) || lower_eq(&e, &otc)
        || lower_eq(&e, &dfont)
}


/// A variable font with named instances lists one face per instance, each
/// with the instance's style, the PostScript name upstream builds from the
/// family and that style, and every axis at the instance's coordinate.
pub proof fn named_instances_expand(d: FaceDataView, modified_at: u64, user_installed: bool)
    requires
        visible_family(spec_make_info(d, modified_at, user_installed).family),
        spec_fvar_instances(
            d.fvar,
            d.names,
            spec_make_info(d, modified_at, user_installed).axes.len() as int,
        ).len() > 0,
    ensures
        ({
            let base = spec_make_info(d, modified_at, user_installed);
            let insts = spec_fvar_instances(d.fvar, d.names, base.axes.len() as int);
            let faces = spec_faces_of(d, modified_at, user_installed);
            &&& faces.len() == insts.len()
            &&& forall|i: int|
                0 <= i < faces.len() ==> {
                    &&& (#[trigger] faces[i]).style == insts[i].style
                    &&& faces[i].family == base.family
                    &&& faces[i].postscript == instance_postscript(base.family, insts[i].style)
                    &&& faces[i].axes.len() == base.axes.len()
                    &&& forall|k: int|
                        0 <= k < faces[i].axes.len() ==> (#[trigger] faces[i].axes[k]).coord
                            == Some(insts[i].coords[k])
                }
        }),
{
    let base = spec_make_info(d, modified_at, user_installed);
    let insts = spec_fvar_instances(d.fvar, d.names, base.axes.len() as int);
    assert forall|i: int| 0 <= i < insts.len() implies (#[trigger] insts[i]).coords.len() == base.axes.len() by {
    }
}


proof fn lemma_traits_weight(axes: Seq<AxisView>, coords: Seq<i32>, n: int, base: (u16, u8, bool), k: int)
    requires
        0 <= k < n,
        n <= axes.len(),
        n <= coords.len(),
        axes[k].tag == wght_tag(),
        forall|j: int| k < j < n ==> (#[trigger] axes[j]).tag != wght_tag(),
    ensures
        instance_traits(axes, coords, n, base).0 == spec_coord_weight(coords[k]),
    decreases n,
{
    if n - 1 > k {
        lemma_traits_weight(axes, coords, n - 1, base, k);
        assert(axes[n - 1].tag != wght_tag());
    }
}

proof fn lemma_traits_stretch(axes: Seq<AxisView>, coords: Seq<i32>, n: int, base: (u16, u8, bool), k: int)
    requires
        0 <= k < n,
        n <= axes.len(),
        n <= coords.len(),
        axes[k].tag == wdth_tag(),
        forall|j: int| k < j < n ==> (#[trigger] axes[j]).tag != wdth_tag(),
    ensures
        instance_traits(axes, coords, n, base).1 == spec_quantize_width(coords[k]),
    decreases n,
{
    assert(wght_tag() != wdth_tag()) by {
        assert(wght_tag()[1] != wdth_tag()[1]);
    }
    if n - 1 > k {
        lemma_traits_stretch(axes, coords, n - 1, base, k);
        assert(axes[n - 1].tag != wdth_tag());
    }
}

proof fn lemma_traits_italic(axes: Seq<AxisView>, coords: Seq<i32>, n: int, base: (u16, u8, bool), k: int)
    requires
        0 <= k < n,
        n <= axes.len(),
        n <= coords.len(),
        axes[k].tag == slnt_tag() || axes[k].tag == ital_tag(),
        coords[k] != 0,
    ensures
        instance_traits(axes, coords, n, base).2,
    decreases n,
{
    assert(wght_tag() != slnt_tag() && wdth_tag() != slnt_tag() && wght_tag() != ital_tag()
        && wdth_tag() != ital_tag()) by {
        assert(wght_tag()[0] != slnt_tag()[0] && wdth_tag()[0] != slnt_tag()[0]);
        assert(wght_tag()[0] != ital_tag()[0] && wdth_tag()[0] != ital_tag()[0]);
    }
    if n - 1 > k {
        lemma_traits_italic(axes, coords, n - 1, base, k);
    }
}

proof fn lemma_traits_no_wght(axes: Seq<AxisView>, coords: Seq<i32>, n: int, base: (u16, u8, bool))
    requires
        0 <= n <= axes.len(),
        forall|j: int| 0 <= j < n ==> (#[trigger] axes[j]).tag != wght_tag(),
    ensures
        instance_traits(axes, coords, n, base).0 == base.0,
    decreases n,
{
    if n > 0 {
        lemma_traits_no_wght(axes, coords, n - 1, base);
        assert(axes[n - 1].tag != wght_tag());
    }
}

/// A named instance reports the traits its coordinates give: the weight of
/// its (last) `wght` coordinate, the width class of its (last) `wdth`
/// coordinate, italic when a `slnt` or `ital` coordinate is non-zero, and
/// the face's own weight when it has no `wght` axis.
pub proof fn instance_traits_follow_axes(base: FaceView, inst: InstanceView, k: int)
    requires
        0 <= k < base.axes.len(),
        k < inst.coords.len(),
    ensures
        base.axes[k].tag == wght_tag() && (forall|j: int|
            k < j < base.axes.len() && j < inst.coords.len() ==> (#[trigger] base.axes[j]).tag
                != wght_tag()) ==> spec_apply_instance(base, inst).weight == spec_coord_weight(
            inst.coords[k],
        ),
        base.axes[k].tag == wdth_tag() && (forall|j: int|
            k < j < base.axes.len() && j < inst.coords.len() ==> (#[trigger] base.axes[j]).tag
                != wdth_tag()) ==> spec_apply_instance(base, inst).stretch == spec_quantize_width(
            inst.coords[k],
        ),
        (base.axes[k].tag == slnt_tag() || base.axes[k].tag == ital_tag()) && inst.coords[k] != 0
            ==> spec_apply_instance(base, inst).italic,
        (forall|j: int| 0 <= j < base.axes.len() ==> (#[trigger] base.axes[j]).tag != wght_tag())
            ==> spec_apply_instance(base, inst).weight == base.weight,
{
    let n = paired(base.axes, inst.coords);
    let b = (base.weight, base.stretch, base.italic);
    if base.axes[k].tag == wght_tag() && (forall|j: int|
        k < j < base.axes.len() && j < inst.coords.len() ==> (#[trigger] base.axes[j]).tag
            != wght_tag()) {
        lemma_traits_weight(base.axes, inst.coords, n, b, k);
    }
    if base.axes[k].tag == wdth_tag() && (forall|j: int|
        k < j < base.axes.len() && j < inst.coords.len() ==> (#[trigger] base.axes[j]).tag
            != wdth_tag()) {
        lemma_traits_stretch(base.axes, inst.coords, n, b, k);
    }
    if (base.axes[k].tag == slnt_tag() || base.axes[k].tag == ital_tag()) && inst.coords[k] != 0 {
        lemma_traits_italic(base.axes, inst.coords, n, b, k);
    }
    if forall|j: int| 0 <= j < base.axes.len() ==> (#[trigger] base.axes[j]).tag != wght_tag() {
        lemma_traits_no_wght(base.axes, inst.coords, n, b);
    }
}


/// Some axis among the first `n` is `slnt` or `ital` with a non-zero coordinate.
pub open spec fn slants_within(axes: Seq<AxisView>, coords: Seq<i32>, n: int) -> bool {
    exists|k: int|
        0 <= k < n && k < axes.len() && k < coords.len() && ((#[trigger] axes[k]).tag == slnt_tag()
            || axes[k].tag == ital_tag()) && coords[k] != 0
}

proof fn lemma_traits_italic_exact(axes: Seq<AxisView>, coords: Seq<i32>, n: int, base: (u16, u8, bool))
    requires
        0 <= n <= axes.len(),
        n <= coords.len(),
    ensures
        instance_traits(axes, coords, n, base).2 == (base.2 || slants_within(axes, coords, n)),
    decreases n,
{
    assert(wght_tag() != slnt_tag() && wdth_tag() != slnt_tag() && wght_tag() != ital_tag()
        && wdth_tag() != ital_tag()) by {
        assert(wght_tag()[0] != slnt_tag()[0] && wdth_tag()[0] != slnt_tag()[0]);
        assert(wght_tag()[0] != ital_tag()[0] && wdth_tag()[0] != ital_tag()[0]);
    }
    if n > 0 {
        lemma_traits_italic_exact(axes, coords, n - 1, base);
        let k = n - 1;
        if slants_within(axes, coords, n) && !slants_within(axes, coords, n - 1) {
            let j = choose|j: int|
                0 <= j < n && j < axes.len() && j < coords.len() && ((#[trigger] axes[j]).tag
                    == slnt_tag() || axes[j].tag == ital_tag()) && coords[j] != 0;
            assert(j == k);
        }
        if slants_within(axes, coords, n - 1) {
            let j = choose|j: int|
                0 <= j < n - 1 && j < axes.len() && j < coords.len() && ((#[trigger] axes[j]).tag
                    == slnt_tag() || axes[j].tag == ital_tag()) && coords[j] != 0;
            assert(0 <= j < n);
        }
        if (axes[k].tag == slnt_tag() || axes[k].tag == ital_tag()) && coords[k] != 0 {
            assert(slants_within(axes, coords, n));
        }
    }
}

/// A named instance is italic exactly when its face is, or one of its `slnt`
/// or `ital` coordinates is non-zero: coordinates can turn italic on, never
/// off, so every instance of an italic face is italic.
pub proof fn instance_italic_only_turns_on(base: FaceView, inst: InstanceView)
    ensures
        spec_apply_instance(base, inst).italic == (base.italic || exists|k: int|
            0 <= k < base.axes.len() && k < inst.coords.len() && ((#[trigger] base.axes[k]).tag
                == slnt_tag() || base.axes[k].tag == ital_tag()) && inst.coords[k] != 0),
        base.italic ==> spec_apply_instance(base, inst).italic,
{
    let n = paired(base.axes, inst.coords);
    lemma_traits_italic_exact(base.axes, inst.coords, n, (base.weight, base.stretch, base.italic));
    if exists|k: int|
        0 <= k < base.axes.len() && k < inst.coords.len() && ((#[trigger] base.axes[k]).tag
            == slnt_tag() || base.axes[k].tag == ital_tag()) && inst.coords[k] != 0 {
        let k = choose|k: int|
            0 <= k < base.axes.len() && k < inst.coords.len() && ((#[trigger] base.axes[k]).tag
                == slnt_tag() || base.axes[k].tag == ital_tag()) && inst.coords[k] != 0;
        assert(k < n);
        assert(slants_within(base.axes, inst.coords, n));
    }
}

proof fn lemma_file_faces_prefix(bytes: Seq<u8>, n: int, m: int, modified_at: u64, user_installed: bool)
    requires
        0 <= n <= m,
    ensures
        spec_file_faces(bytes, n, modified_at, user_installed).is_prefix_of(
            spec_file_faces(bytes, m, modified_at, user_installed),
        ),
    decreases m,
{
    if n < m {
        lemma_file_faces_prefix(bytes, n, m - 1, modified_at, user_installed);
        let a = spec_file_faces(bytes, n, modified_at, user_installed);
        let b = spec_file_faces(bytes, m - 1, modified_at, user_installed);
        let c = spec_file_faces(bytes, m, modified_at, user_installed);
        assert(c.subrange(0, b.len() as int) =~= b);
        assert(c.subrange(0, a.len() as int) =~= a) by {
            assert forall|j: int| 0 <= j < a.len() implies c[j] == a[j] by {
                assert(c[j] == b[j]);
                assert(b.subrange(0, a.len() as int)[j] == b[j]);
            }
        }
    }
}

/// The faces the font parser gives for member `i` of a file's bytes.
pub open spec fn member_faces(bytes: Seq<u8>, i: int, modified_at: u64, user_installed: bool) -> Seq<FaceView> {
    if spec_face_parses(bytes, i as u32) {
        spec_faces_of(spec_face_data(bytes, i as u32), modified_at, user_installed)
    } else {
        Seq::empty()
    }
}

/// Every member of a collection is read, in index order: for a header
/// that counts `c` members, the faces of member `i < c` stand in the file's
/// faces right after those of members `0..i`.
pub proof fn every_collection_member_is_read(
    bytes: Seq<u8>,
    c: u32,
    i: int,
    modified_at: u64,
    user_installed: bool,
)
    requires
        spec_collection_count(bytes) == Some(c),
        0 <= i < c,
    ensures
        ({
            let all = spec_file_faces(bytes, spec_face_count(bytes), modified_at, user_installed);
            let before = spec_file_faces(bytes, i, modified_at, user_installed);
            let mine = member_faces(bytes, i, modified_at, user_installed);
            &&& before.len() + mine.len() <= all.len()
            &&& all.subrange(0, before.len() as int) == before
            &&& all.subrange(before.len() as int, (before.len() + mine.len()) as int) == mine
        }),
{
    let all = spec_file_faces(bytes, spec_face_count(bytes), modified_at, user_installed);
    let before = spec_file_faces(bytes, i, modified_at, user_installed);
    let upto = spec_file_faces(bytes, i + 1, modified_at, user_installed);
    let mine = member_faces(bytes, i, modified_at, user_installed);
    assert(spec_face_count(bytes) == c as int);
    lemma_file_faces_prefix(bytes, i + 1, c as int, modified_at, user_installed);
    assert(upto == before + mine);
    assert(all.subrange(0, upto.len() as int) == upto);
    assert(all.subrange(0, before.len() as int) =~= before) by {
        assert forall|j: int| 0 <= j < before.len() implies all[j] == before[j] by {
            assert(all.subrange(0, upto.len() as int)[j] == upto[j]);
        }
    }
    assert(all.subrange(before.len() as int, (before.len() + mine.len()) as int) =~= mine) by {
        assert forall|j: int| 0 <= j < mine.len() implies all[before.len() + j] == mine[j] by {
            assert(all.subrange(0, upto.len() as int)[before.len() + j] == upto[before.len() + j]);
        }
    }
}


/// A file that is not a collection has one member: its faces are those of
/// the face at index 0.
pub proof fn plain_font_is_one_member(bytes: Seq<u8>, modified_at: u64, user_installed: bool)
    requires
        spec_collection_count(bytes) is None,
    ensures
        spec_file_faces(bytes, spec_face_count(bytes), modified_at, user_installed) == member_faces(
            bytes,
            0,
            modified_at,
            user_installed,
        ),
{
    assert(spec_file_faces(bytes, 0, modified_at, user_installed) + member_faces(
        bytes,
        0,
        modified_at,
        user_installed,
    ) =~= member_faces(bytes, 0, modified_at, user_installed));
}

}
