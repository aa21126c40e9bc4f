//! The `name` table model: which record supplies a family, style or axis
//! label, and how its bytes decode.

use vstd::prelude::*;
use crate::text::{push_char, string_from_chars};

verus! {

/// The platform of a `name` record.
#[derive(Clone, Copy, PartialEq, Eq, Structural, Debug)]
pub enum NamePlatform {
    Unicode,
    Macintosh,
    Iso,
    Windows,
    Custom,
}

/// One decodable record of a face's `name` table.
pub struct NameRecord {
    pub platform_id: NamePlatform,
    pub encoding_id: u16,
    pub language_id: u16,
    pub name_id: u16,
    /// The raw bytes of the name, in whatever encoding the record uses.
    pub name: Vec<u8>,
}

/// The plain value of a `NameRecord`.
pub struct NameView {
    pub platform_id: NamePlatform,
    pub encoding_id: u16,
    pub language_id: u16,
    pub name_id: u16,
    pub name: Seq<u8>,
}

impl View for NameRecord {
    type V = NameView;

    open spec fn view(&self) -> NameView {
        NameView {
            platform_id: self.platform_id,
            encoding_id: self.encoding_id,
            language_id: self.language_id,
            name_id: self.name_id,
            name: self.name@,
        }
    }
}

pub open spec fn names_view(names: Seq<NameRecord>) -> Seq<NameView> {
    names.map_values(|n: NameRecord| n@)
}

/// A record whose text fits the 16-bit length field of the `name` table.
pub open spec fn name_fits(n: NameView) -> bool {
    n.name.len() <= 0xFFFF
}

/// Every record's text fits the 16-bit length field of the `name` table.
pub open spec fn names_fit(names: Seq<NameView>) -> bool {
    forall|i: int| 0 <= i < names.len() ==> name_fits(#[trigger] names[i])
}

/// Records whose text is stored as UTF-16BE.
pub open spec fn is_unicode_encoding(platform: NamePlatform, encoding_id: u16) -> bool {
    match platform {
        NamePlatform::Unicode => true,
        NamePlatform::Windows => encoding_id == 0 || encoding_id == 1,
        _ => false,
    }
}

/// The big-endian 16-bit units of a byte string; an odd trailing byte is ignored.
pub open spec fn be_units(b: Seq<u8>) -> Seq<u16> {
    Seq::new(b.len() / 2, |i: int| (b[2 * i] as int * 256 + b[2 * i + 1] as int) as u16)
}

/// UTF-16 decoding; `None` on an unpaired surrogate.
pub open spec fn utf16_decode(u: Seq<u16>) -> Option<Seq<char>>
    decreases u.len(),
{
    if u.len() == 0 {
        Some(Seq::empty())
    } else if u[0] < 0xD800 || u[0] > 0xDFFF {
        match utf16_decode(u.drop_first()) {
            Some(rest) => Some(seq![u[0] as char] + rest),
            None => None,
        }
    } else if u[0] <= 0xDBFF && u.len() >= 2 && 0xDC00 <= u[1] && u[1] <= 0xDFFF {
        match utf16_decode(u.skip(2)) {
            Some(rest) => Some(
                seq![(0x10000 + (u[0] - 0xD800) * 0x400 + (u[1] - 0xDC00)) as char] + rest,
            ),
            None => None,
        }
    } else {
        None
    }
}

/// What the font parser's own text decoding yields for a record: UTF-16BE
/// text for Unicode-encoded records, nothing for the others.
pub open spec fn spec_name_text(n: NameView) -> Option<Seq<char>> {
    if is_unicode_encoding(n.platform_id, n.encoding_id) {
        utf16_decode(be_units(n.name))
    } else {
        None
    }
}

/// Bytes that are all ASCII and none of them NUL.
pub open spec fn is_plain_ascii(b: Seq<u8>) -> bool {
    forall|i: int| 0 <= i < b.len() ==> 0 < #[trigger] b[i] < 128
}

pub open spec fn ascii_text(b: Seq<u8>) -> Seq<char> {
    b.map_values(|x: u8| x as char)
}

/// The ASCII reading of a record, when every byte is printable-range ASCII.
pub open spec fn spec_decode_ascii(n: NameView) -> Option<Seq<char>> {
    if is_plain_ascii(n.name) {
        Some(ascii_text(n.name))
    } else {
        None
    }
}

/// A record's text: the Unicode decoding, else the ASCII reading.
pub open spec fn spec_decode_name(n: NameView) -> Option<Seq<char>> {
    match spec_name_text(n) {
        Some(s) => Some(s),
        None => spec_decode_ascii(n),
    }
}

/// `ttf_parser::name::Name::to_string`: the UTF-16BE decoding of a
/// Unicode-platform or Windows symbol/BMP record, `None` for any other
/// record or for text with an unpaired surrogate.  The parser counts the
/// 16-bit units in a `u16`, so the record must fit the table's 16-bit
/// length field (as every record read from a face does).
#[verifier::external_body]
pub(crate) fn name_text(n: &NameRecord) -> (res: Option<String>)
    requires
        name_fits(n@),
    ensures
        res matches Some(s) ==> spec_name_text(n@) == Some(s@),
        res is None ==> spec_name_text(n@) is None,
{
    let platform_id = match n.platform_id {
        NamePlatform::Unicode => ttf_parser::PlatformId::Unicode,
        NamePlatform::Macintosh => ttf_parser::PlatformId::Macintosh,
        NamePlatform::Iso => ttf_parser::PlatformId::Iso,
        NamePlatform::Windows => ttf_parser::PlatformId::Windows,
        NamePlatform::Custom => ttf_parser::PlatformId::Custom,
    };
    ttf_parser::name::Name {
        platform_id,
        encoding_id: n.encoding_id,
        language_id: n.language_id,
        name_id: n.name_id,
        name: &n.name,
    }.to_string()
}

/// The ASCII reading of a record's bytes (all ASCII, no NUL), else `None`.
pub fn decode_ascii(n: &NameRecord) -> (res: Option<String>)
    ensures
        res matches Some(s) ==> spec_decode_ascii(n@) == Some(s@),
        res is None ==> spec_decode_ascii(n@) is None,
{
    let mut out = String::new();
    let len = n.name.len();
    for i in 0..len
        invariant
            len == n.name@.len(),
            forall|j: int| 0 <= j < i ==> 0 < #[trigger] n.name@[j] < 128,
            out@ == ascii_text(n.name@.take(i as int)),
    {
        let b = n.name[i];
        if b == 0 || b >= 128 {
            return None;
        }
        push_char(&mut out, b as char);
        assert(ascii_text(n.name@.take(i + 1)) =~= ascii_text(n.name@.take(i as int)).push(
            b as char,
        ));
    }
    assert(n.name@.take(len as int) =~= n.name@);
    Some(out)
}

/// A record's text: the Unicode decoding if the record has one, otherwise
/// its bytes read as ASCII (legacy Macintosh names), otherwise `None`.
pub fn decode_name(n: &NameRecord) -> (res: Option<String>)
    requires
        name_fits(n@),
    ensures
        res matches Some(s) ==> spec_decode_name(n@) == Some(s@),
        res is None ==> spec_decode_name(n@) is None,
{
    match name_text(n) {
        Some(s) => Some(s),
        None => decode_ascii(n),
    }
}

pub open spec fn is_win_en_us(n: NameView) -> bool {
    n.platform_id == NamePlatform::Windows && n.language_id == 0x0409
}

/// The first Windows/en-US record with this id (from `from` on) whose text decodes.
pub open spec fn preferred_name(names: Seq<NameView>, id: u16, from: int) -> Option<Seq<char>>
    decreases names.len() - from,
{
    if from < 0 || from >= names.len() {
        None
    } else if names[from].name_id == id && is_win_en_us(names[from]) && spec_decode_name(
        names[from],
    ) is Some {
        spec_decode_name(names[from])
    } else {
        preferred_name(names, id, from + 1)
    }
}

/// The index of the first record with this id (from `from` on).
pub open spec fn first_with_id(names: Seq<NameView>, id: u16, from: int) -> Option<int>
    decreases names.len() - from,
{
    if from < 0 || from >= names.len() {
        None
    } else if names[from].name_id == id {
        Some(from)
    } else {
        first_with_id(names, id, from + 1)
    }
}

/// The text chosen for a name id: the first decodable Windows/en-US record,
/// else the decoding of the first record carrying that id at all.
pub open spec fn spec_pick_name(names: Seq<NameView>, id: u16) -> Option<Seq<char>> {
    match preferred_name(names, id, 0) {
        Some(s) => Some(s),
        None => match first_with_id(names, id, 0) {
            Some(k) => spec_decode_name(names[k]),
            None => None,
        },
    }
}

/// The text for `name_id`, preferring Windows/en-US.
pub fn pick_name(names: &Vec<NameRecord>, name_id: u16) -> (res: Option<String>)
    requires
        names_fit(names_view(names@)),
    ensures
        res matches Some(s) ==> spec_pick_name(names_view(names@), name_id) == Some(s@),
        res is None ==> spec_pick_name(names_view(names@), name_id) is None,
{
    let ghost nv = names_view(names@);
    let mut fallback: Option<usize> = None;
    let len = names.len();
    for i in 0..len
        invariant
            len == names@.len(),
            nv == names_view(names@),
            names_fit(nv),
            preferred_name(nv, name_id, 0) == preferred_name(nv, name_id, i as int),
            fallback matches Some(k) ==> k < i && first_with_id(nv, name_id, 0) == Some(
                k as int,
            ),
            fallback is None ==> first_with_id(nv, name_id, 0) == first_with_id(
                nv,
                name_id,
                i as int,
            ),
    {
        let n = &names[i];
        assert(nv[i as int] == n@);
        assert(name_fits(nv[i as int]));
        if n.name_id == name_id {
            if n.platform_id == NamePlatform::Windows && n.language_id == 0x0409 {
                let d = decode_name(n);
                if d.is_some() {
                    return d;
                }
            }
            if fallback.is_none() {
                fallback = Some(i);
            }
        }
    }
    match fallback {
        Some(k) => {
            assert(nv[k as int] == names[k as int]@);
            assert(name_fits(nv[k as int]));
            decode_name(&names[k])
        },
        None => None,
    }
}

/// Unicode uppercase mapping of a character (one or more characters).
pub uninterp spec fn spec_to_uppercase(c: char) -> Seq<char>;

pub open spec fn ascii_upper(c: char) -> char {
    if 'a' <= c && c <= 'z' {
        ((c as u32) - 32) as char
    } else {
        c
    }
}

/// `char::to_uppercase`, collected: the Unicode uppercase mapping of `c`.
/// For an ASCII character this is its ASCII uppercase form.
#[verifier::external_body]
pub(crate) fn char_to_uppercase(c: char) -> (res: Vec<char>)
    ensures
        res@ == spec_to_uppercase(c),
        (c as u32) < 128 ==> res@ == seq![ascii_upper(c)],
{
    c.to_uppercase().collect()
}

/// The uppercase form of a character: its ASCII uppercase for an ASCII
/// character, the Unicode mapping otherwise.
pub open spec fn spec_upper(c: char) -> Seq<char> {
    if (c as u32) < 128 {
        seq![ascii_upper(c)]
    } else {
        spec_to_uppercase(c)
    }
}

/// PascalCase as upstream applies it: drop the spaces and uppercase the
/// first character of each space-separated word.
pub open spec fn pascal(s: Seq<char>, at_word_start: bool) -> Seq<char>
    decreases s.len(),
{
    if s.len() == 0 {
        Seq::empty()
    } else if s[0] == ' ' {
        pascal(s.drop_first(), true)
    } else if at_word_start {
        spec_upper(s[0]) + pascal(s.drop_first(), false)
    } else {
        seq![s[0]] + pascal(s.drop_first(), false)
    }
}

pub open spec fn spec_pascal_case(s: Seq<char>) -> Seq<char> {
    pascal(s, true)
}

/// Capitalise the first letter of each space-separated word and drop the spaces.
pub fn pascal_case(input: &str) -> (out: String)
    ensures
        out@ == spec_pascal_case(input@),
{
    let cs = crate::text::chars_of(input);
    let mut out: Vec<char> = Vec::new();
    let mut at_start = true;
    let len = cs.len();
    assert(cs@.skip(0) =~= cs@);
    assert(out@ + pascal(cs@.skip(0), at_start) =~= spec_pascal_case(input@));
    for i in 0..len
        invariant
            len == cs@.len(),
            cs@ == input@,
            out@ + pascal(cs@.skip(i as int), at_start) == spec_pascal_case(input@),
    {
        let c = cs[i];
        assert(cs@.skip(i as int).drop_first() =~= cs@.skip(i + 1));
        assert(cs@.skip(i as int)[0] == c);
        if c == ' ' {
            at_start = true;
        } else if at_start {
            let up = char_to_uppercase(c);
            let ghost before = out@;
            for j in 0..up.len()
                invariant
                    out@ == before + up@.take(j as int),
            {
                out.push(up[j]);
                assert(up@.take(j + 1) =~= up@.take(j as int).push(up@[j as int]));
            }
            assert(up@.take(up@.len() as int) =~= up@);
            assert(up@ == spec_upper(c));
            assert(out@ + pascal(cs@.skip(i + 1), false) =~= before + (spec_upper(c)
                + pascal(cs@.skip(i + 1), false)));
            at_start = false;
        } else {
            let ghost before = out@;
            out.push(c);
            assert(out@ + pascal(cs@.skip(i + 1), false) =~= before + (seq![c] + pascal(
                cs@.skip(i + 1),
                false,
            )));
        }
    }
    assert(cs@.skip(len as int) =~= Seq::<char>::empty());
    assert(out@ + pascal(cs@.skip(len as int), at_start) =~= out@);
    string_from_chars(&out)
}

pub open spec fn is_ascii_text(s: Seq<char>) -> bool {
    forall|i: int| 0 <= i < s.len() ==> (#[trigger] s[i] as u32) < 128
}

/// The number of spaces in a text.
pub open spec fn space_count(s: Seq<char>) -> nat
    decreases s.len(),
{
    if s.len() == 0 {
        0
    } else {
        (if s[0] == ' ' {
            1nat
        } else {
            0nat
        }) + space_count(s.drop_first())
    }
}

proof fn lemma_pascal_shape(s: Seq<char>, at_word_start: bool)
    requires
        is_ascii_text(s),
    ensures
        pascal(s, at_word_start).len() + space_count(s) == s.len(),
        is_ascii_text(pascal(s, at_word_start)),
        forall|i: int|
            0 <= i < pascal(s, at_word_start).len() ==> #[trigger] pascal(s, at_word_start)[i] != ' ',
        at_word_start && pascal(s, at_word_start).len() > 0 ==> ascii_upper(
            pascal(s, at_word_start)[0],
        ) == pascal(s, at_word_start)[0],
    decreases s.len(),
{
    if s.len() > 0 {
        let t = s.drop_first();
        assert(is_ascii_text(t)) by {
            assert forall|i: int| 0 <= i < t.len() implies (#[trigger] t[i] as u32) < 128 by {
                assert(t[i] == s[i + 1]);
            }
        }
        assert((s[0] as u32) < 128);
        if s[0] == ' ' {
            lemma_pascal_shape(t, true);
        } else {
            lemma_pascal_shape(t, false);
            let rest = pascal(t, false);
            let head = if at_word_start {
                seq![ascii_upper(s[0])]
            } else {
                seq![s[0]]
            };
            assert(pascal(s, at_word_start) == head + rest);
            assert(head[0] != ' ' && (head[0] as u32) < 128);
            assert(ascii_upper(ascii_upper(s[0])) == ascii_upper(s[0]));
            let r = head + rest;
            assert forall|i: int| 0 <= i < r.len() implies #[trigger] r[i] != ' ' && (r[i] as u32)
                < 128 by {
                if i > 0 {
                    assert(r[i] == rest[i - 1]);
                }
            }
        }
    }
}

proof fn lemma_pascal_unchanged(t: Seq<char>)
    requires
        is_ascii_text(t),
        forall|i: int| 0 <= i < t.len() ==> #[trigger] t[i] != ' ',
    ensures
        pascal(t, false) == t,
    decreases t.len(),
{
    if t.len() > 0 {
        let u = t.drop_first();
        assert forall|i: int| 0 <= i < u.len() implies (#[trigger] u[i] as u32) < 128 && u[i]
            != ' ' by {
            assert(u[i] == t[i + 1]);
        }
        assert(t[0] != ' ');
        lemma_pascal_unchanged(u);
        assert(seq![t[0]] + u =~= t);
    }
}

/// PascalCase of ASCII text drops exactly its spaces, and applying it again
/// changes nothing.
pub proof fn pascal_case_settles(s: Seq<char>)
    requires
        is_ascii_text(s),
    ensures
        spec_pascal_case(s).len() == s.len() - space_count(s),
        forall|i: int|
            0 <= i < spec_pascal_case(s).len() ==> #[trigger] spec_pascal_case(s)[i] != ' ',
        spec_pascal_case(spec_pascal_case(s)) == spec_pascal_case(s),
{
    lemma_pascal_shape(s, true);
    let r = spec_pascal_case(s);
    if r.len() > 0 {
        let u = r.drop_first();
        assert forall|i: int| 0 <= i < u.len() implies (#[trigger] u[i] as u32) < 128 && u[i]
            != ' ' by {
            assert(u[i] == r[i + 1]);
        }
        lemma_pascal_unchanged(u);
        assert(r[0] != ' ' && (r[0] as u32) < 128);
        assert(pascal(r, true) == seq![ascii_upper(r[0])] + pascal(u, false));
        assert(seq![r[0]] + u =~= r);
    }
}

pub open spec fn registered_axis_tags() -> Set<Seq<char>> {
    set![
        seq!['w', 'g', 'h', 't'],
        seq!['w', 'd', 't', 'h'],
        seq!['s', 'l', 'n', 't'],
        seq!['i', 't', 'a', 'l'],
        seq!['o', 'p', 's', 'z'],
    ]
}

pub fn chars_eq4(cs: &Vec<char>, a: char, b: char, c: char, d: char) -> (res: bool)
    ensures
        res == (cs@ == seq![a, b, c, d]),
{
    if cs.len() != 4 {
        assert(cs@.len() != seq![a, b, c, d].len());
        return false;
    }
    let r = cs[0] == a && cs[1] == b && cs[2] == c && cs[3] == d;
    proof {
        if r {
            assert(cs@ =~= seq![a, b, c, d]);
        } else if cs@ == seq![a, b, c, d] {
            assert(cs@[0] == a && cs@[1] == b && cs@[2] == c && cs@[3] == d);
        }
    }
    r
}

/// The axis tags registered by OpenType: wght, wdth, slnt, ital, opsz.
pub fn is_registered_axis(tag: &str) -> (res: bool)
    ensures
        res == registered_axis_tags().contains(tag@),
{
    let cs = crate::text::chars_of(tag);
    chars_eq4(&cs, 'w', 'g', 'h', 't') || chars_eq4(&cs, 'w', 'd', 't', 'h') || chars_eq4(
        &cs,
        's',
        'l',
        'n',
        't',
    ) || chars_eq4(&cs, 'i', 't', 'a', 'l') || chars_eq4(&cs, 'o', 'p', 's', 'z')
}

/// The first record with this id on the Macintosh platform (from `from` on).
pub open spec fn first_mac(names: Seq<NameView>, id: u16, from: int) -> Option<int>
    decreases names.len() - from,
{
    if from < 0 || from >= names.len() {
        None
    } else if names[from].name_id == id && names[from].platform_id == NamePlatform::Macintosh {
        Some(from)
    } else {
        first_mac(names, id, from + 1)
    }
}

/// The first ASCII reading among Macintosh, language-0 records with this id.
pub open spec fn first_mac_ascii(names: Seq<NameView>, id: u16, from: int) -> Option<Seq<char>>
    decreases names.len() - from,
{
    if from < 0 || from >= names.len() {
        None
    } else if names[from].name_id == id && names[from].platform_id == NamePlatform::Macintosh
        && names[from].language_id == 0 && spec_decode_ascii(names[from]) is Some {
        spec_decode_ascii(names[from])
    } else {
        first_mac_ascii(names, id, from + 1)
    }
}

/// The first Unicode text among Windows/en-US records with this id.
pub open spec fn first_win_text(names: Seq<NameView>, id: u16, from: int) -> Option<Seq<char>>
    decreases names.len() - from,
{
    if from < 0 || from >= names.len() {
        None
    } else if names[from].name_id == id && is_win_en_us(names[from]) && spec_name_text(
        names[from],
    ) is Some {
        spec_name_text(names[from])
    } else {
        first_win_text(names, id, from + 1)
    }
}

/// Upstream's axis label rule: registered tags take the Windows/en-US label
/// (else the Macintosh ASCII one) in PascalCase; custom tags take the first
/// Macintosh record's Unicode text when it is non-empty, falling back to the
/// tag; with no Macintosh record, the Windows/en-US label; the tag otherwise.
pub open spec fn spec_axis_name(names: Seq<NameView>, tag: Seq<char>, id: u16) -> Seq<char> {
    if registered_axis_tags().contains(tag) {
        match first_win_text(names, id, 0) {
            Some(s) => spec_pascal_case(s),
            None => match first_mac_ascii(names, id, 0) {
                Some(s) => spec_pascal_case(s),
                None => tag,
            },
        }
    } else {
        match first_mac(names, id, 0) {
            Some(k) => match spec_name_text(names[k]) {
                Some(s) => if s.len() > 0 {
                    s
                } else {
                    tag
                },
                None => tag,
            },
            None => match first_win_text(names, id, 0) {
                Some(s) => s,
                None => tag,
            },
        }
    }
}

/// The display label of a variation axis.
pub fn pick_axis_name(names: &Vec<NameRecord>, tag: &str, name_id: u16) -> (res: String)
    requires
        names_fit(names_view(names@)),
    ensures
        res@ == spec_axis_name(names_view(names@), tag@, name_id),
{
    let ghost nv = names_view(names@);
    let mut has_mac = false;
    let mut mac_utf16: Option<String> = None;
    let mut mac_ascii: Option<String> = None;
    let mut win_utf16: Option<String> = None;
    let len = names.len();
    for j in 0..len
        invariant
            len == names@.len(),
            nv == names_view(names@),
            names_fit(nv),
            has_mac ==> (first_mac(nv, name_id, 0) matches Some(k) && k < j
                && (mac_utf16 matches Some(s) ==> spec_name_text(nv[k]) == Some(s@))
                && (mac_utf16 is None ==> spec_name_text(nv[k]) is None)),
            !has_mac ==> first_mac(nv, name_id, 0) == first_mac(nv, name_id, j as int),
            mac_ascii matches Some(s) ==> first_mac_ascii(nv, name_id, 0) == Some(s@),
            mac_ascii is None ==> first_mac_ascii(nv, name_id, 0) == first_mac_ascii(
                nv,
                name_id,
                j as int,
            ),
            win_utf16 matches Some(s) ==> first_win_text(nv, name_id, 0) == Some(s@),
            win_utf16 is None ==> first_win_text(nv, name_id, 0) == first_win_text(
                nv,
                name_id,
                j as int,
            ),
    {
        let n = &names[j];
        assert(nv[j as int] == n@);
        assert(name_fits(nv[j as int]));
        if n.name_id != name_id {
        } else if n.platform_id == NamePlatform::Macintosh {
            if !has_mac {
                has_mac = true;
                mac_utf16 = name_text(n);
            }
            if n.language_id == 0 && mac_ascii.is_none() {
                mac_ascii = decode_ascii(n);
            }
        } else if n.platform_id == NamePlatform::Windows && n.language_id == 0x0409
            && win_utf16.is_none() {
            win_utf16 = name_text(n);
        }
    }
    if is_registered_axis(tag) {
        let chosen = match win_utf16 {
            Some(s) => Some(s),
            None => mac_ascii,
        };
        return match chosen {
            Some(s) => pascal_case(s.as_str()),
            None => tag.to_owned(),
        };
    }
    if has_mac {
        match mac_utf16 {
            Some(s) => if s.as_str().is_empty() {
                tag.to_owned()
            } else {
                s
            },
            None => tag.to_owned(),
        }
    } else {
        match win_utf16 {
            Some(s) => s,
            None => tag.to_owned(),
        }
    }
}


proof fn lemma_no_mac(names: Seq<NameView>, id: u16, from: int)
    requires
        0 <= from,
        forall|j: int|
            0 <= j < names.len() ==> !((#[trigger] names[j]).name_id == id && names[j].platform_id
                == NamePlatform::Macintosh),
    ensures
        first_mac(names, id, from) is None,
    decreases names.len() - from,
{
    if from < names.len() {
        lemma_no_mac(names, id, from + 1);
    }
}

proof fn lemma_first_win(names: Seq<NameView>, id: u16, from: int, k: int)
    requires
        0 <= from <= k < names.len(),
        names[k].name_id == id,
        is_win_en_us(names[k]),
        spec_name_text(names[k]) is Some,
        forall|j: int|
            0 <= j < k ==> !((#[trigger] names[j]).name_id == id && is_win_en_us(names[j])
                && spec_name_text(names[j]) is Some),
    ensures
        first_win_text(names, id, from) == spec_name_text(names[k]),
    decreases k - from,
{
    if from < k {
        lemma_first_win(names, id, from + 1, k);
    }
}

proof fn lemma_no_win(names: Seq<NameView>, id: u16, from: int)
    requires
        0 <= from,
        forall|j: int|
            0 <= j < names.len() ==> !((#[trigger] names[j]).name_id == id && is_win_en_us(names[j])
                && spec_name_text(names[j]) is Some),
    ensures
        first_win_text(names, id, from) is None,
    decreases names.len() - from,
{
    if from < names.len() {
        lemma_no_win(names, id, from + 1);
    }
}

/// A custom axis tag (not wght, wdth, slnt, ital or opsz) with no Macintosh
/// record for its name id is labelled with the text of the first decodable
/// Windows/en-US record, verbatim (spaces and case kept), and with the tag
/// itself when there is none.
pub proof fn custom_axis_label_is_verbatim(names: Seq<NameView>, tag: Seq<char>, id: u16)
    requires
        !registered_axis_tags().contains(tag),
        forall|j: int|
            0 <= j < names.len() ==> !((#[trigger] names[j]).name_id == id && names[j].platform_id
                == NamePlatform::Macintosh),
    ensures
        forall|k: int|
            0 <= k < names.len() && (#[trigger] names[k]).name_id == id && is_win_en_us(names[k])
                && spec_name_text(names[k]) is Some && (forall|j: int|
                0 <= j < k ==> !((#[trigger] names[j]).name_id == id && is_win_en_us(names[j])
                    && spec_name_text(names[j]) is Some)) ==> spec_name_text(names[k]) == Some(
                spec_axis_name(names, tag, id),
            ),
        (forall|j: int|
            0 <= j < names.len() ==> !((#[trigger] names[j]).name_id == id && is_win_en_us(names[j])
                && spec_name_text(names[j]) is Some)) ==> spec_axis_name(names, tag, id) == tag,
{
    lemma_no_mac(names, id, 0);
    assert forall|k: int|
        0 <= k < names.len() && (#[trigger] names[k]).name_id == id && is_win_en_us(names[k])
            && spec_name_text(names[k]) is Some && (forall|j: int|
            0 <= j < k ==> !((#[trigger] names[j]).name_id == id && is_win_en_us(names[j])
                && spec_name_text(names[j]) is Some)) implies spec_name_text(names[k]) == Some(
        spec_axis_name(names, tag, id),
    ) by {
        lemma_first_win(names, id, 0, k);
    }
    if forall|j: int|
        0 <= j < names.len() ==> !((#[trigger] names[j]).name_id == id && is_win_en_us(names[j])
            && spec_name_text(names[j]) is Some) {
        lemma_no_win(names, id, 0);
    }
}

}
