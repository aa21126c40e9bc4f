//! The system font registries.  macOS lists font URLs through CoreText
//! (which leaves out hidden families); Linux asks `fc-list`.  The listing
//! itself is done by the caller; this module reads what it returned.

use vstd::prelude::*;
use crate::fonts::{FaceInfo, FaceView, faces_view, visible_family};
use crate::fonts::parser::{regular_string, regular_text};
use crate::paths::{components, components_eq, path_components};
use crate::text::{bytes_view, chars_of, copy_bytes, lines, spec_lines, spec_utf8_lossy, utf8_lossy};

verus! {

/// The Mach-O resource-fork suffix CoreText puts on URLs of `.dfont`-style
/// resource files: "/..namedfork/rsrc".
pub open spec fn rsrc_suffix() -> Seq<u8> {
    seq![
        0x2Fu8, 0x2E, 0x2E, 0x6E, 0x61, 0x6D, 0x65, 0x64, 0x66, 0x6F, 0x72, 0x6B, 0x2F, 0x72,
        0x73, 0x72, 0x63,
    ]
}

pub open spec fn ends_with(s: Seq<u8>, suffix: Seq<u8>) -> bool {
    suffix.len() <= s.len() && s.subrange(s.len() - suffix.len(), s.len() as int) == suffix
}

/// A CoreText font path with the resource-fork suffix removed (from the
/// path read as text); other paths as they are.
pub open spec fn spec_strip_rsrc(p: Seq<u8>) -> Seq<u8> {
    let text = spec_utf8_lossy(p);
    if ends_with(text, rsrc_suffix()) {
        text.take(text.len() - rsrc_suffix().len())
    } else {
        p
    }
}

/// Keep the first of each path, paths being equal when their components are.
pub open spec fn dedup_paths(s: Seq<Seq<u8>>) -> Seq<Seq<u8>>
    decreases s.len(),
{
    if s.len() == 0 {
        s
    } else {
        let prev = dedup_paths(s.drop_last());
        if exists|i: int| 0 <= i < prev.len() && components(#[trigger] prev[i]) == components(s.last()) {
            prev
        } else {
            prev.push(s.last())
        }
    }
}

/// The on-disk font paths behind CoreText's font URLs, in order, each once.
pub open spec fn spec_ct_font_paths(urls: Seq<Seq<u8>>) -> Seq<Seq<u8>> {
    dedup_paths(urls.map_values(|p: Seq<u8>| spec_strip_rsrc(p)))
}

fn strip_rsrc(p: &[u8]) -> (out: Vec<u8>)
    ensures
        out@ == spec_strip_rsrc(p@),
{
    let text = utf8_lossy(p);
    let suffix = vec![
        0x2Fu8, 0x2E, 0x2E, 0x6E, 0x61, 0x6D, 0x65, 0x64, 0x66, 0x6F, 0x72, 0x6B, 0x2F, 0x72,
        0x73, 0x72, 0x63,
    ];
    assert(suffix@ =~= rsrc_suffix());
    let n = text.len();
    let m = suffix.len();
    if m <= n {
        let mut same = true;
        for i in 0..m
            invariant
                m <= n,
                n == text@.len(),
                m == suffix@.len(),
                same == (forall|j: int| 0 <= j < i ==> text@[n - m + j] == suffix@[j]),
        {
            if text[n - m + i] != suffix[i] {
                same = false;
            }
        }
        if same {
            assert(text@.subrange(n - m, n as int) =~= suffix@);
            let mut out: Vec<u8> = Vec::new();
            for i in 0..n - m
                invariant
                    n == text@.len(),
                    m <= n,
                    out@ == text@.take(i as int),
            {
                out.push(text[i]);
                assert(text@.take(i + 1) =~= text@.take(i as int).push(text@[i as int]));
            }
            return out;
        } else {
            assert(!ends_with(text@, rsrc_suffix())) by {
                if ends_with(text@, rsrc_suffix()) {
                    let j = choose|j: int| 0 <= j < m && text@[n - m + j] != suffix@[j];
                    assert(text@.subrange(n - m, n as int)[j] == text@[n - m + j]);
                }
            }
        }
    }
    copy_bytes(p)
}

/// Turn CoreText's font URLs (as paths) into the font files to read.
pub fn ct_font_paths(urls: &Vec<Vec<u8>>) -> (paths: Vec<Vec<u8>>)
    ensures
        bytes_view(paths@) == spec_ct_font_paths(bytes_view(urls@)),
{
    let ghost stripped = bytes_view(urls@).map_values(|p: Seq<u8>| spec_strip_rsrc(p));
    let mut paths: Vec<Vec<u8>> = Vec::new();
    let mut seen: Vec<Vec<Vec<u8>>> = Vec::new();
    for i in 0..urls.len()
        invariant
            stripped == bytes_view(urls@).map_values(|p: Seq<u8>| spec_strip_rsrc(p)),
            bytes_view(paths@) == dedup_paths(stripped.take(i as int)),
            seen@.len() == paths@.len(),
            forall|j: int| 0 <= j < seen@.len() ==> bytes_view((#[trigger] seen@[j])@) == components(paths@[j]@),
    {
        assert(stripped.take(i + 1).drop_last() =~= stripped.take(i as int));
        assert(stripped.take(i + 1).last() == spec_strip_rsrc(urls@[i as int]@));
        let p = strip_rsrc(urls[i].as_slice());
        let c = path_components(p.as_slice());
        let mut found = false;
        let ghost prev = bytes_view(paths@);
        for j in 0..seen.len()
            invariant
                seen@.len() == paths@.len(),
                prev == bytes_view(paths@),
                forall|t: int| 0 <= t < seen@.len() ==> bytes_view((#[trigger] seen@[t])@) == components(paths@[t]@),
                found == (exists|t: int| 0 <= t < j && components(#[trigger] prev[t]) == bytes_view(c@)),
        {
            assert(prev[j as int] == paths@[j as int]@);
            if components_eq(&seen[j], &c) {
                found = true;
            }
        }
        if !found {
            let ghost old_paths = bytes_view(paths@);
            paths.push(p);
            seen.push(c);
            assert(bytes_view(paths@) =~= old_paths.push(spec_strip_rsrc(urls@[i as int]@)));
        }
    }
    assert(stripped.take(urls@.len() as int) =~= stripped);
    paths
}

/// The face CoreText describes for a file the font parser cannot open:
/// its family, PostScript name and style, with regular-weight defaults;
/// none for a hidden or unnamed family; "Regular" for an empty style.
pub open spec fn spec_fallback_face(
    family: Seq<char>,
    postscript: Seq<char>,
    style: Seq<char>,
    modified_at: u64,
    user_installed: bool,
) -> Option<FaceView> {
    if !visible_family(family) {
        None
    } else {
        Some(
            FaceView {
                family,
                style: if style.len() == 0 {
                    regular_text()
                } else {
                    style
                },
                postscript,
                weight: 400,
                stretch: 5,
                italic: false,
                axes: Seq::empty(),
                modified_at,
                user_installed,
            },
        )
    }
}

pub open spec fn descriptors_view(d: Seq<(String, String, String)>) -> Seq<(Seq<char>, Seq<char>, Seq<char>)> {
    d.map_values(|x: (String, String, String)| (x.0@, x.1@, x.2@))
}

/// The fallback faces of a file's descriptors, in order.
pub open spec fn spec_fallback_faces(
    d: Seq<(Seq<char>, Seq<char>, Seq<char>)>,
    modified_at: u64,
    user_installed: bool,
) -> Seq<FaceView>
    decreases d.len(),
{
    if d.len() == 0 {
        Seq::empty()
    } else {
        let prev = spec_fallback_faces(d.drop_last(), modified_at, user_installed);
        let (family, postscript, style) = d.last();
        match spec_fallback_face(family, postscript, style, modified_at, user_installed) {
            Some(f) => prev.push(f),
            None => prev,
        }
    }
}

/// Each CoreText descriptor (family, PostScript name, style) of a file the
/// font parser cannot open becomes a regular-weight face, hidden and
/// unnamed families skipped.
pub fn fallback_faces(
    descriptors: &Vec<(String, String, String)>,
    modified_at: u64,
    user_installed: bool,
) -> (faces: Vec<FaceInfo>)
    ensures
        faces_view(faces@) == spec_fallback_faces(
            descriptors_view(descriptors@),
            modified_at,
            user_installed,
        ),
{
    let ghost dv = descriptors_view(descriptors@);
    let mut faces: Vec<FaceInfo> = Vec::new();
    for k in 0..descriptors.len()
        invariant
            dv == descriptors_view(descriptors@),
            faces_view(faces@) == spec_fallback_faces(dv.take(k as int), modified_at, user_installed),
    {
        assert(dv.take(k + 1).drop_last() =~= dv.take(k as int));
        let d = &descriptors[k];
        assert(dv.take(k + 1).last() == (d.0@, d.1@, d.2@));
        let fam = chars_of(d.0.as_str());
        if fam.len() > 0 && fam[0] != '.' {
            let style = if chars_of(d.2.as_str()).len() == 0 {
                regular_string()
            } else {
                d.2.clone()
            };
            let face = FaceInfo {
                family: d.0.clone(),
                style,
                postscript: d.1.clone(),
                weight: 400,
                stretch: 5,
                italic: false,
                variation_axes: Vec::new(),
                modified_at,
                user_installed,
            };
            assert(face@.axes =~= Seq::<crate::fonts::AxisView>::empty());
            let ghost old_faces = faces_view(faces@);
            faces.push(face);
            assert(faces_view(faces@) =~= old_faces.push(face@));
        }
    }
    assert(dv.take(dv.len() as int) =~= dv);
    faces
}

/// The faces to list for a registry file: those the font parser read, or,
/// when it read none, those from the fallback.
pub fn faces_or_fallback(parsed: Option<Vec<FaceInfo>>) -> (use_parsed: Option<Vec<FaceInfo>>)
    ensures
        match parsed {
            Some(f) => if f@.len() > 0 {
                use_parsed == Some(f)
            } else {
                use_parsed is None
            },
            None => use_parsed is None,
        },
{
    match parsed {
        Some(f) => if f.len() > 0 {
            Some(f)
        } else {
            None
        },
        None => None,
    }
}

/// The font paths `fc-list -f '%{file}\n'` printed: one per non-empty line
/// of its output read as text.
pub open spec fn spec_fc_list_paths(stdout: Seq<u8>) -> Seq<Seq<u8>> {
    spec_lines(spec_utf8_lossy(stdout)).filter(|l: Seq<u8>| l.len() > 0)
}

pub fn fc_list_paths(stdout: &[u8]) -> (paths: Vec<Vec<u8>>)
    ensures
        bytes_view(paths@) == spec_fc_list_paths(stdout@),
{
    let text = utf8_lossy(stdout);
    let ls = lines(text.as_slice());
    let ghost lv = bytes_view(ls@);
    let mut out: Vec<Vec<u8>> = Vec::new();
    for i in 0..ls.len()
        invariant
            lv == bytes_view(ls@),
            bytes_view(out@) == lv.take(i as int).filter(|l: Seq<u8>| l.len() > 0),
    {
        assert(lv.take(i + 1).drop_last() =~= lv.take(i as int));
        assert(lv.take(i + 1).last() == ls@[i as int]@);
        proof {
            reveal_with_fuel(Seq::filter, 1);
        }
        if ls[i].len() > 0 {
            let ghost old_out = bytes_view(out@);
            out.push(copy_bytes(ls[i].as_slice()));
            assert(bytes_view(out@) =~= old_out.push(ls@[i as int]@));
        }
    }
    assert(lv.take(lv.len() as int) =~= lv);
    out
}

}
