use figma_agent::fonts::names::{
    decode_name, is_registered_axis, pascal_case, pick_axis_name, pick_name,
    NamePlatform, NameRecord,
};

fn utf16be(s: &str) -> Vec<u8> {
    s.encode_utf16().flat_map(|u| u.to_be_bytes()).collect()
}

fn win(name_id: u16, language_id: u16, text: &str) -> NameRecord {
    NameRecord {
        platform_id: NamePlatform::Windows,
        encoding_id: 1,
        language_id,
        name_id,
        name: utf16be(text),
    }
}

fn mac_ascii(name_id: u16, text: &str) -> NameRecord {
    NameRecord {
        platform_id: NamePlatform::Macintosh,
        encoding_id: 0,
        language_id: 0,
        name_id,
        name: text.as_bytes().to_vec(),
    }
}

fn mac_unicode(name_id: u16, text: &str) -> NameRecord {
    NameRecord {
        platform_id: NamePlatform::Unicode,
        encoding_id: 3,
        language_id: 0,
        name_id,
        name: utf16be(text),
    }
}

#[test]
fn utf16_names_decode() {
    assert_eq!(decode_name(&win(1, 0x0409, "Inter")).as_deref(), Some("Inter"));
    assert_eq!(decode_name(&win(1, 0x0409, "Zürich 𝔸")).as_deref(), Some("Zürich 𝔸"));
    // An unpaired surrogate does not decode.
    let broken = NameRecord {
        platform_id: NamePlatform::Windows,
        encoding_id: 1,
        language_id: 0x0409,
        name_id: 1,
        name: vec![0xD8, 0x00, 0x00, 0x41],
    };
    assert_eq!(decode_name(&broken), None);
    // Macintosh records are not UTF-16 for the font parser: read as ASCII.
    let mac_utf16 = NameRecord { name: utf16be("Skia"), ..mac_ascii(1, "") };
    assert_eq!(decode_name(&mac_utf16), None);
    // Windows records with another encoding are not UTF-16 either.
    let big5 = NameRecord { encoding_id: 4, ..win(1, 0x0409, "Inter") };
    assert_eq!(decode_name(&big5), None);
}

#[test]
fn macroman_names_fall_back_to_ascii() {
    assert_eq!(decode_name(&mac_ascii(1, "Apple Color Emoji")).as_deref(), Some("Apple Color Emoji"));
    let with_nul = NameRecord { name: b"Ab\0c".to_vec(), ..mac_ascii(1, "") };
    assert_eq!(decode_name(&with_nul), None);
    let latin1 = NameRecord { name: vec![0x43, 0x61, 0x66, 0xE9], ..mac_ascii(1, "") };
    assert_eq!(decode_name(&latin1), None);
}

#[test]
fn windows_en_us_is_preferred() {
    let names = vec![
        mac_ascii(1, "Mac Family"),
        win(1, 0x0411, "Japanese Family"),
        win(1, 0x0409, "Inter"),
        win(2, 0x0409, "Regular"),
    ];
    assert_eq!(pick_name(&names, 1).as_deref(), Some("Inter"));
    assert_eq!(pick_name(&names, 2).as_deref(), Some("Regular"));
    assert_eq!(pick_name(&names, 16), None);
}

#[test]
fn first_record_is_the_fallback() {
    let names = vec![win(1, 0x0411, "First"), mac_ascii(1, "Second")];
    assert_eq!(pick_name(&names, 1).as_deref(), Some("First"));
    // A Windows/en-US record that does not decode is still the fallback record.
    let undecodable = NameRecord {
        platform_id: NamePlatform::Windows,
        encoding_id: 1,
        language_id: 0x0409,
        name_id: 1,
        name: vec![0xDC, 0x00],
    };
    let names = vec![undecodable, mac_ascii(1, "Later")];
    assert_eq!(pick_name(&names, 1), None);
}

#[test]
fn pascal_case_joins_words() {
    assert_eq!(pascal_case("Optical size"), "OpticalSize");
    assert_eq!(pascal_case("weight"), "Weight");
    assert_eq!(pascal_case("  two  spaces "), "TwoSpaces");
    assert_eq!(pascal_case(""), "");
    assert_eq!(pascal_case("ß x"), "SSX");
}

#[test]
fn registered_axes() {
    for tag in ["wght", "wdth", "slnt", "ital", "opsz"] {
        assert!(is_registered_axis(tag));
    }
    for tag in ["MONO", "WGHT", "wgh", "wghtt", ""] {
        assert!(!is_registered_axis(tag));
    }
}

#[test]
fn registered_axis_takes_pascal_cased_windows_label() {
    let names = vec![mac_ascii(256, "optical size mac"), win(256, 0x0409, "Optical size")];
    assert_eq!(pick_axis_name(&names, "opsz", 256), "OpticalSize");
}

#[test]
fn registered_axis_with_only_mac_names() {
    // Skia stores only Macintosh names.
    let names = vec![mac_ascii(257, "weight")];
    assert_eq!(pick_axis_name(&names, "wght", 257), "Weight");
    // No label at all: the tag.
    assert_eq!(pick_axis_name(&names, "wdth", 258), "wdth");
}

#[test]
fn custom_axis_with_undecodable_mac_name_uses_tag() {
    // Recursive's MONO: Mac ASCII "Monospace" beside Windows UTF-16 "Monospace".
    let names = vec![mac_ascii(300, "Monospace"), win(300, 0x0409, "Monospace")];
    assert_eq!(pick_axis_name(&names, "MONO", 300), "MONO");
}

#[test]
fn custom_axis_with_unicode_mac_name() {
    let names = vec![
        NameRecord { platform_id: NamePlatform::Macintosh, encoding_id: 0, language_id: 0, name_id: 301, name: vec![] },
        win(301, 0x0409, "Casual"),
    ];
    // The first Macintosh record decides: it does not decode, so the tag.
    assert_eq!(pick_axis_name(&names, "CASL", 301), "CASL");
    let names = vec![mac_unicode(301, "ignored"), win(301, 0x0409, "Casual")];
    // A Unicode-platform record is not a Macintosh one: no Mac entry, so Windows.
    assert_eq!(pick_axis_name(&names, "CASL", 301), "Casual");
}

#[test]
fn custom_axis_without_mac_entry_uses_windows_name() {
    // PingFangUI's WDTH / HGHT.
    let names = vec![win(302, 0x0409, "Width"), win(303, 0x0409, "Height")];
    assert_eq!(pick_axis_name(&names, "WDTH", 302), "Width");
    assert_eq!(pick_axis_name(&names, "HGHT", 303), "Height");
    assert_eq!(pick_axis_name(&names, "XTRA", 304), "XTRA");
}

#[test]
fn pascal_case_settles_on_ascii() {
    for s in ["Optical size", "  two  spaces ", "weight", "x-height ratio", ""] {
        let once = pascal_case(s);
        assert!(!once.contains(' '));
        assert_eq!(once.len(), s.len() - s.matches(' ').count());
        assert_eq!(pascal_case(&once), once);
    }
}
