use figma_agent::fonts::names::{NamePlatform, NameRecord};
use figma_agent::fonts::parser::{
    apply_instance, canonicalize_style, face_count, faces_of, is_font_file, make_info,
    parse_fvar_instances, read_font_bytes, read_os2_width, AxisRecord, FaceData, NamedInstance,
};

fn utf16be(s: &str) -> Vec<u8> {
    s.encode_utf16().flat_map(|u| u.to_be_bytes()).collect()
}

fn win(name_id: u16, language_id: u16, text: &str) -> NameRecord {
    NameRecord {
        platform_id: NamePlatform::Windows,
        encoding_id: 1,
        language_id,
        name_id,
        name: utf16be(text),
    }
}

fn axis(tag: &[u8; 4], name_id: u16, min: f32, def: f32, max: f32) -> AxisRecord {
    let range = ttf_parser::VariationAxis {
        tag: ttf_parser::Tag::from_bytes(tag),
        min_value: min,
        def_value: def,
        max_value: max,
        name_id,
        hidden: false,
    };
    AxisRecord { tag: range.tag.0, name_id, hidden: false, range }
}

fn face(names: Vec<NameRecord>) -> FaceData {
    FaceData {
        names,
        weight: 400,
        italic: false,
        oblique: false,
        axes: Vec::new(),
        os2: None,
        fvar: None,
    }
}

fn fixed(v: f64) -> i32 {
    (v * 65536.0).round() as i32
}

/// An fvar table with the given axes and instances (subfamily id, coordinates).
fn fvar_table(axis_count: u16, instances: &[(u16, Vec<i32>)], extra_instance_bytes: u16) -> Vec<u8> {
    let instance_size = 4 + 4 * axis_count + extra_instance_bytes;
    let mut d = Vec::new();
    for v in [1u16, 0, 16, 2, axis_count, 20, instances.len() as u16, instance_size] {
        d.extend_from_slice(&v.to_be_bytes());
    }
    for _ in 0..axis_count {
        d.extend_from_slice(&[0u8; 20]);
    }
    for (subfamily, coords) in instances {
        d.extend_from_slice(&subfamily.to_be_bytes());
        d.extend_from_slice(&0u16.to_be_bytes());
        for c in coords {
            d.extend_from_slice(&c.to_be_bytes());
        }
        for _ in 0..extra_instance_bytes {
            d.push(0);
        }
    }
    d
}

#[test]
fn typographic_names_are_preferred() {
    let data = face(vec![
        win(1, 0x0409, "NanumMyeongjoExtraBold"),
        win(2, 0x0409, "Regular"),
        win(16, 0x0409, "Nanum Myeongjo"),
        win(17, 0x0409, "ExtraBold"),
        win(6, 0x0409, "NanumMyeongjo-ExtraBold"),
    ]);
    let info = make_info(&data, 7, true);
    assert_eq!(info.family, "Nanum Myeongjo");
    assert_eq!(info.style, "ExtraBold");
    assert_eq!(info.postscript, "NanumMyeongjo-ExtraBold");
    assert_eq!(info.weight, 400);
    assert_eq!(info.stretch, 5);
    assert!(!info.italic);
    assert_eq!(info.modified_at, 7);
    assert!(info.user_installed);
}

#[test]
fn legacy_names_and_defaults() {
    let data = face(vec![win(1, 0x0409, "Arial")]);
    let info = make_info(&data, 0, false);
    assert_eq!(info.family, "Arial");
    assert_eq!(info.style, "Regular");
    assert_eq!(info.postscript, "");
    let empty = make_info(&face(vec![]), 0, false);
    assert_eq!(empty.family, "");
}

#[test]
fn oblique_becomes_italic_with_an_italic_sibling() {
    // Galvji-Oblique.
    let mut data = face(vec![
        win(1, 0x0409, "Galvji"),
        win(2, 0x0409, "Oblique"),
        win(2, 0x0809, "Italic"),
    ]);
    data.italic = true;
    assert_eq!(make_info(&data, 0, false).style, "Italic");
    assert_eq!(canonicalize_style(&data, "oblique".to_string()), "Italic");
    // Not italic: kept.
    data.italic = false;
    assert_eq!(canonicalize_style(&data, "Oblique".to_string()), "Oblique");
}

#[test]
fn oblique_without_sibling_stays() {
    // Avenir-Oblique, Helvetica-Oblique.
    let mut data = face(vec![win(1, 0x0409, "Avenir"), win(2, 0x0409, "Oblique")]);
    data.oblique = true;
    let info = make_info(&data, 0, false);
    assert_eq!(info.style, "Oblique");
    assert!(info.italic);
    // A sibling in a non-English language does not count.
    let mut data = face(vec![win(2, 0x0407, "Italic")]);
    data.italic = true;
    assert_eq!(canonicalize_style(&data, "Oblique".to_string()), "Oblique");
}

#[test]
fn os2_width_class() {
    let mut data = face(vec![]);
    assert_eq!(read_os2_width(&data), 5);
    data.os2 = Some(vec![0; 7]);
    assert_eq!(read_os2_width(&data), 5);
    data.os2 = Some(vec![0, 0, 0, 0, 0, 0, 0, 0]);
    assert_eq!(read_os2_width(&data), 1);
    data.os2 = Some(vec![0, 0, 0, 0, 0, 0, 0, 3, 9, 9]);
    assert_eq!(read_os2_width(&data), 3);
    data.os2 = Some(vec![0, 0, 0, 0, 0, 0, 1, 0]);
    assert_eq!(read_os2_width(&data), 9);
}

#[test]
fn axes_are_labelled() {
    let mut data = face(vec![win(1, 0x0409, "Inter"), win(256, 0x0409, "Optical size")]);
    data.axes = vec![axis(b"opsz", 256, 14.0, 14.0, 32.0), axis(b"wght", 999, 100.0, 400.0, 900.0)];
    let info = make_info(&data, 0, false);
    assert_eq!(info.variation_axes.len(), 2);
    assert_eq!(info.variation_axes[0].tag, "opsz");
    assert_eq!(info.variation_axes[0].name, "OpticalSize");
    assert_eq!(info.variation_axes[0].coord, None);
    assert_eq!(info.variation_axes[0].range.max_value, 32.0);
    assert_eq!(info.variation_axes[1].name, "wght");
}

#[test]
fn fvar_instances_are_read() {
    let mut data = face(vec![win(1, 0x0409, "Inter"), win(258, 0x0409, "Thin"), win(259, 0x0409, "Semi Bold")]);
    data.fvar = Some(fvar_table(
        2,
        &[(258, vec![fixed(100.0), fixed(14.0)]), (259, vec![fixed(600.0), fixed(32.0)]), (999, vec![0, -1])],
        2,
    ));
    let insts = parse_fvar_instances(&data, 2);
    assert_eq!(insts.len(), 3);
    assert_eq!(insts[0].style, "Thin");
    assert_eq!(insts[0].coords, vec![fixed(100.0), fixed(14.0)]);
    assert_eq!(insts[1].style, "Semi Bold");
    assert_eq!(insts[2].style, "Regular");
    assert_eq!(insts[2].coords, vec![0, -1]);
    // Axis count mismatching the records: too small an instance size.
    assert_eq!(parse_fvar_instances(&data, 3).len(), 0);
    assert_eq!(parse_fvar_instances(&data, 0).len(), 0);
    // More axes than any 16-bit instance record can hold coordinates for.
    assert_eq!(parse_fvar_instances(&data, 70_000).len(), 0);
    assert_eq!(parse_fvar_instances(&data, usize::MAX / 4 - 1).len(), 0);
}

#[test]
fn truncated_fvar_stops_at_last_whole_instance() {
    let mut data = face(vec![]);
    let mut table = fvar_table(1, &[(2, vec![fixed(1.0)]), (2, vec![fixed(2.0)])], 0);
    table.truncate(table.len() - 1);
    data.fvar = Some(table);
    let insts = parse_fvar_instances(&data, 1);
    assert_eq!(insts.len(), 1);
    assert_eq!(insts[0].coords, vec![fixed(1.0)]);
    data.fvar = Some(vec![0; 15]);
    assert_eq!(parse_fvar_instances(&data, 1).len(), 0);
}

#[test]
fn instance_application() {
    let mut data = face(vec![win(1, 0x0409, "Source Sans"), win(2, 0x0409, "Regular")]);
    data.axes = vec![
        axis(b"wght", 0, 200.0, 400.0, 900.0),
        axis(b"wdth", 0, 50.0, 100.0, 100.0),
        axis(b"slnt", 0, -12.0, 0.0, 0.0),
    ];
    let base = make_info(&data, 3, false);
    let inst = NamedInstance {
        style: "Semi Bold Italic".to_string(),
        coords: vec![fixed(600.0), fixed(75.0), fixed(-12.0)],
    };
    let out = apply_instance(&base, inst);
    assert_eq!(out.family, "Source Sans");
    assert_eq!(out.style, "Semi Bold Italic");
    assert_eq!(out.postscript, "SourceSans-SemiBoldItalic");
    assert_eq!(out.weight, 600);
    assert_eq!(out.stretch, 3);
    assert!(out.italic);
    assert_eq!(out.variation_axes[0].coord, Some(fixed(600.0)));
    assert_eq!(out.variation_axes[2].coord, Some(fixed(-12.0)));
    // A zero slant leaves an upright face upright.
    let upright = apply_instance(&base, NamedInstance { style: "Bold".to_string(), coords: vec![fixed(1.949997), fixed(100.0), 0] });
    assert_eq!(upright.weight, 1);
    assert!(!upright.italic);
    assert_eq!(upright.postscript, "SourceSans-Bold");
}

#[test]
fn instance_without_wght_keeps_the_face_weight() {
    let mut data = face(vec![win(1, 0x0409, "Optical"), win(2, 0x0409, "Regular")]);
    data.weight = 500;
    data.axes = vec![axis(b"opsz", 0, 8.0, 14.0, 72.0), axis(b"wdth", 0, 50.0, 100.0, 200.0)];
    let base = make_info(&data, 0, false);
    let out = apply_instance(&base, NamedInstance { style: "Display Wide".to_string(), coords: vec![fixed(72.0), fixed(200.0)] });
    assert_eq!(out.weight, 500);
    assert_eq!(out.stretch, 9);
    assert!(!out.italic);
    assert_eq!(out.variation_axes[0].coord, Some(fixed(72.0)));
}

#[test]
fn variable_font_lists_one_face_per_instance() {
    let mut data = face(vec![win(1, 0x0409, "Inter"), win(2, 0x0409, "Regular"), win(300, 0x0409, "Thin"), win(301, 0x0409, "Black")]);
    data.axes = vec![axis(b"wght", 0, 100.0, 400.0, 900.0)];
    data.fvar = Some(fvar_table(1, &[(300, vec![fixed(100.0)]), (301, vec![fixed(900.0)])], 2));
    let faces = faces_of(&data, 1, false);
    assert_eq!(faces.len(), 2);
    assert_eq!(faces[0].style, "Thin");
    assert_eq!(faces[0].weight, 100);
    assert_eq!(faces[0].postscript, "Inter-Thin");
    assert_eq!(faces[1].style, "Black");
    assert_eq!(faces[1].weight, 900);
    // Without instances: the face itself.
    data.fvar = None;
    let faces = faces_of(&data, 1, false);
    assert_eq!(faces.len(), 1);
    assert_eq!(faces[0].style, "Regular");
}

#[test]
fn hidden_families_are_skipped() {
    let data = face(vec![win(1, 0x0409, ".SF NS")]);
    assert_eq!(faces_of(&data, 0, false).len(), 0);
    let data = face(vec![win(2, 0x0409, "Regular")]);
    assert_eq!(faces_of(&data, 0, false).len(), 0);
}

#[test]
fn collection_header() {
    let mut ttc = b"ttcf".to_vec();
    ttc.extend_from_slice(&[0, 1, 0, 0, 0, 0, 0, 3]);
    assert_eq!(face_count(&ttc), 3);
    assert_eq!(face_count(&ttc[..11]), 1);
    assert_eq!(face_count(b"OTTO\0\0\0\0\0\0\0\x02"), 1);
}

#[test]
fn unreadable_bytes_yield_no_faces() {
    assert_eq!(read_font_bytes(&[], 0, false).len(), 0);
    assert_eq!(read_font_bytes(b"not a font at all", 0, false).len(), 0);
    let mut ttc = b"ttcf".to_vec();
    ttc.extend_from_slice(&[0, 1, 0, 0, 0, 0, 0, 2, 0, 0, 0, 0]);
    assert_eq!(read_font_bytes(&ttc, 0, false).len(), 0);
}

#[test]
fn font_file_extensions() {
    for p in ["/usr/share/fonts/a.ttf", "/x/B.OTF", "c.ttc", "/d.otc", "/Library/Fonts/e.dfont", "x/..ttf"] {
        assert!(is_font_file(p.as_bytes()), "{p}");
    }
    for p in ["/usr/share/fonts/a.woff", "/x/.ttf", "/x/ttf", "/x/a.ttf/..", "/", "", ".", "/x/a.t tf"] {
        assert!(!is_font_file(p.as_bytes()), "{p}");
    }
    // The file name is the last component, trailing separators aside.
    assert!(is_font_file(b"/x/a.ttf/"));
    assert!(is_font_file(b"/x/a.ttf/."));
}

fn be16(v: u16) -> [u8; 2] {
    v.to_be_bytes()
}

/// A TrueType file holding these tables (tags in ascending order).
fn sfnt(tables: &[(&[u8; 4], Vec<u8>)]) -> Vec<u8> {
    let mut out = vec![0, 1, 0, 0];
    out.extend_from_slice(&be16(tables.len() as u16));
    out.extend_from_slice(&[0, 0, 0, 0, 0, 0]);
    let mut offset = 12 + 16 * tables.len();
    for (tag, data) in tables {
        out.extend_from_slice(*tag);
        out.extend_from_slice(&[0, 0, 0, 0]);
        out.extend_from_slice(&(offset as u32).to_be_bytes());
        out.extend_from_slice(&(data.len() as u32).to_be_bytes());
        offset += data.len();
    }
    for (_, data) in tables {
        out.extend_from_slice(data);
    }
    out
}

/// A format-0 `name` table with Windows/en-US Unicode records.
fn name_table(records: &[(u16, &str)]) -> Vec<u8> {
    let mut out = Vec::new();
    out.extend_from_slice(&be16(0));
    out.extend_from_slice(&be16(records.len() as u16));
    out.extend_from_slice(&be16((6 + 12 * records.len()) as u16));
    let mut storage = Vec::new();
    for (id, text) in records {
        let bytes = utf16be(text);
        for v in [3u16, 1, 0x0409, *id, bytes.len() as u16, storage.len() as u16] {
            out.extend_from_slice(&be16(v));
        }
        storage.extend_from_slice(&bytes);
    }
    out.extend_from_slice(&storage);
    out
}

fn minimal_font(weight: u16, width: u16, italic: bool) -> Vec<u8> {
    let mut os2 = vec![0u8; 78];
    os2[4..6].copy_from_slice(&be16(weight));
    os2[6..8].copy_from_slice(&be16(width));
    os2[62..64].copy_from_slice(&be16(if italic { 1 } else { 0 }));
    let mut head = vec![0u8; 54];
    head[18..20].copy_from_slice(&be16(1000));
    let hhea = vec![0u8; 36];
    let maxp = vec![0, 0, 0x50, 0, 0, 1];
    let name = name_table(&[(1, "Probe"), (2, "Bold"), (6, "Probe-Bold")]);
    sfnt(&[(b"OS/2", os2), (b"head", head), (b"hhea", hhea), (b"maxp", maxp), (b"name", name)])
}

#[test]
fn minimal_font_is_read() {
    let faces = read_font_bytes(&minimal_font(700, 7, true), 42, true);
    assert_eq!(faces.len(), 1);
    let f = &faces[0];
    assert_eq!(f.family, "Probe");
    assert_eq!(f.style, "Bold");
    assert_eq!(f.postscript, "Probe-Bold");
    assert_eq!(f.weight, 700);
    assert_eq!(f.stretch, 7);
    assert!(f.italic);
    assert!(f.variation_axes.is_empty());
    assert_eq!(f.modified_at, 42);
    assert!(f.user_installed);
    let upright = read_font_bytes(&minimal_font(300, 0, false), 0, false);
    assert_eq!(upright.len(), 1);
    assert_eq!(upright[0].weight, 300);
    assert_eq!(upright[0].stretch, 1);
    assert!(!upright[0].italic);
}
