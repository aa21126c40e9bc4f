use figma_agent::fonts::platform::{ct_font_paths, faces_or_fallback, fallback_faces, fc_list_paths};

fn p(s: &str) -> Vec<u8> {
    s.as_bytes().to_vec()
}

#[test]
fn coretext_paths_drop_resource_forks_and_repeats() {
    let urls = vec![
        p("/System/Library/Fonts/Helvetica.ttc"),
        p("/Library/Fonts/Old.dfont/..namedfork/rsrc"),
        p("/System/Library/Fonts//Helvetica.ttc"),
        p("/Library/Fonts/Old.dfont"),
        p("/Library/Fonts/New.otf"),
    ];
    assert_eq!(
        ct_font_paths(&urls),
        vec![p("/System/Library/Fonts/Helvetica.ttc"), p("/Library/Fonts/Old.dfont"), p("/Library/Fonts/New.otf")]
    );
}

#[test]
fn coretext_fallback_faces() {
    let descs = vec![
        ("NISC18030".to_string(), "NISC18030".to_string(), String::new()),
        (".Hidden".to_string(), "Hidden".to_string(), "Bold".to_string()),
        (String::new(), "x".to_string(), "Bold".to_string()),
        ("Bitmap".to_string(), "Bitmap-Bold".to_string(), "Bold".to_string()),
    ];
    let faces = fallback_faces(&descs, 9, true);
    assert_eq!(faces.len(), 2);
    assert_eq!(faces[0].family, "NISC18030");
    assert_eq!(faces[0].style, "Regular");
    assert_eq!(faces[0].weight, 400);
    assert_eq!(faces[0].stretch, 5);
    assert!(!faces[0].italic);
    assert_eq!(faces[0].modified_at, 9);
    assert!(faces[0].user_installed);
    assert_eq!(faces[1].postscript, "Bitmap-Bold");
    assert_eq!(faces[1].style, "Bold");
    assert!(faces_or_fallback(Some(Vec::new())).is_none());
    assert!(faces_or_fallback(None).is_none());
    assert_eq!(faces_or_fallback(Some(fallback_faces(&descs, 0, false))).unwrap().len(), 2);
}

#[test]
fn fc_list_output() {
    let out = b"/usr/share/fonts/a.ttf\n\n/usr/share/fonts/b.otf\r\n/x/\xffbad.ttf";
    let paths = fc_list_paths(out);
    assert_eq!(paths.len(), 3);
    assert_eq!(paths[0], p("/usr/share/fonts/a.ttf"));
    assert_eq!(paths[1], p("/usr/share/fonts/b.otf"));
    assert_eq!(paths[2], "/x/\u{FFFD}bad.ttf".as_bytes().to_vec());
    assert!(fc_list_paths(b"").is_empty());
}
