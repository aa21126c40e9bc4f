use figma_agent::fonts::cache::{cache_path, DiskCache};
use figma_agent::fonts::catalog::{add_font_file, merge_candidates, FontFiles, PathMap};
use figma_agent::fonts::FaceInfo;
use figma_agent::util::TargetOs;

fn face(family: &str) -> FaceInfo {
    FaceInfo {
        family: family.to_string(),
        style: "Regular".to_string(),
        postscript: String::new(),
        weight: 400,
        stretch: 5,
        italic: false,
        variation_axes: Vec::new(),
        modified_at: 0,
        user_installed: false,
    }
}

fn p(s: &str) -> Vec<u8> {
    s.as_bytes().to_vec()
}

#[test]
fn path_map_compares_components() {
    let mut m: PathMap<u32> = PathMap::new();
    m.insert(p("/a//b.ttf"), 1);
    m.insert(p("/a/b.ttf"), 2);
    assert_eq!(m.entries().len(), 1);
    let (stored, v) = m.get(b"/a/./b.ttf").unwrap();
    assert_eq!(stored, &p("/a//b.ttf"));
    assert_eq!(*v, 2);
    m.insert_if_absent(p("/a/b.ttf"), 3);
    assert_eq!(*m.get(b"/a/b.ttf").unwrap().1, 2);
    m.insert_if_absent(p("/c.ttf"), 4);
    assert_eq!(*m.get(b"/c.ttf").unwrap().1, 4);
    assert!(m.get(b"/d.ttf").is_none());
}

#[test]
fn registry_and_config_are_merged() {
    let home = Some(p("/home/u"));
    let system = vec![
        (p("/usr/share/fonts/a.ttf"), true),
        (p("/home/u/.fonts/b.otf"), true),
        (p("/usr/share/fonts/missing.ttf"), false),
        (p("/usr/share/fonts/readme.txt"), true),
        (p("/usr/share/fonts//a.ttf"), true),
    ];
    let dirs = vec![
        (p("/opt/fonts/c.ttc"), true),
        (p("/usr/share/fonts/a.ttf"), true),
        (p("/opt/fonts/notes.md"), true),
    ];
    let m = merge_candidates(&system, &home, TargetOs::Linux, &dirs);
    let e = m.entries();
    let got: Vec<(String, bool)> = e
        .iter()
        .map(|(_, path, u)| (String::from_utf8(path.clone()).unwrap(), *u))
        .collect();
    assert_eq!(
        got,
        vec![
            ("/usr/share/fonts/a.ttf".to_string(), true),
            ("/home/u/.fonts/b.otf".to_string(), true),
            ("/opt/fonts/c.ttc".to_string(), true),
        ]
    );
}

#[test]
fn empty_files_are_left_out() {
    let mut files: FontFiles = PathMap::new();
    add_font_file(&mut files, p("/a.ttf"), Vec::new());
    assert_eq!(files.entries().len(), 0);
    add_font_file(&mut files, p("/a.ttf"), vec![face("A")]);
    add_font_file(&mut files, p("/b.ttf"), vec![face("B"), face("B2")]);
    assert_eq!(files.entries().len(), 2);
    assert_eq!(files.get(b"/b.ttf").unwrap().1.len(), 2);
}

#[test]
fn cache_location_and_version() {
    assert_eq!(cache_path(None, Some(p("/home/u"))), Some(p("/home/u/.cache/figma-agent/font_cache.json")));
    assert_eq!(cache_path(Some(p("/xdg")), None), Some(p("/xdg/figma-agent/font_cache.json")));
    assert_eq!(cache_path(None, None), None);
    let cache = DiskCache::new(PathMap::new(), 42);
    assert_eq!(cache.version, "0.1.0");
    assert_eq!(cache.fonts_cached_at, 42);
    assert!(cache.current().is_some());
    let stale = DiskCache { version: "0.0.9".to_string(), fonts_cached_at: 1, fonts: PathMap::new() };
    assert!(stale.current().is_none());
    let now = DiskCache::snapshot(PathMap::new());
    assert!(now.fonts_cached_at > 0);
}
