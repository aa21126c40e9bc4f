use figma_agent::fonts::catalog::{add_font_file, PathMap};
use figma_agent::fonts::FaceInfo;
use figma_agent::routes::{check_font_file, font_list, FontFileError, FontFilesResponse, RequestIds};

fn face(family: &str, style: &str) -> FaceInfo {
    FaceInfo {
        family: family.to_string(),
        style: style.to_string(),
        postscript: String::new(),
        weight: 400,
        stretch: 5,
        italic: false,
        variation_axes: Vec::new(),
        modified_at: 0,
        user_installed: false,
    }
}

#[test]
fn request_ids_count_up_from_one() {
    let mut ids = RequestIds::new();
    assert_eq!(ids.next_request_id(), 1);
    assert_eq!(ids.next_request_id(), 2);
    assert_eq!(ids.next_request_id(), 3);
}

#[test]
fn font_list_flattens_files() {
    let mut files = PathMap::new();
    add_font_file(&mut files, b"/a/Inter.ttf".to_vec(), vec![face("Inter", "Regular"), face("Inter", "Bold")]);
    add_font_file(&mut files, b"/a/Mono.otf".to_vec(), vec![face("Mono", "Light")]);
    let list = font_list(&files);
    assert_eq!(list.len(), 3);
    assert_eq!(list[0].name, "Inter Regular");
    assert_eq!(list[0].path, b"/a/Inter.ttf".to_vec());
    assert_eq!(list[1].name, "Inter Bold");
    assert_eq!(list[2].name, "Mono Light");
    assert_eq!(list[2].path, b"/a/Mono.otf".to_vec());
    let resp = FontFilesResponse::new(&files, 1716000000, 7, 42);
    assert_eq!(resp.version, "0.1.0");
    assert_eq!(resp.modified_at, 1716000000);
    assert!(resp.modified_fonts.is_empty());
    assert_eq!(resp.fonts.len(), 3);
    assert_eq!(resp.request_id, 7);
    assert_eq!(resp.elapsed_ms, 42);
}

#[test]
fn font_file_validation() {
    let dirs = vec![(b"/usr/share/fonts".to_vec(), false)];
    let ok = Some((true, 1000));
    assert_eq!(check_font_file(b"/usr/share/fonts/a.ttf", ok, &dirs), Ok(()));
    assert_eq!(check_font_file(b"", ok, &dirs), Err(FontFileError::EmptyPath));
    assert_eq!(check_font_file(&vec![b'/'; 4097], ok, &dirs), Err(FontFileError::PathTooLong));
    assert_eq!(check_font_file(b"usr/share/fonts/a.ttf", ok, &dirs), Err(FontFileError::NotAbsolute));
    assert_eq!(check_font_file(b"/usr/share/fonts/../../etc/passwd", ok, &dirs), Err(FontFileError::ParentSegment));
    assert_eq!(check_font_file(b"/usr/share/fonts/a.ttf", None, &dirs), Err(FontFileError::NotFound));
    assert_eq!(check_font_file(b"/usr/share/fonts", Some((false, 0)), &dirs), Err(FontFileError::NotRegularFile));
    assert_eq!(check_font_file(b"/usr/share/fonts/a.ttc", Some((true, 268435457)), &dirs), Err(FontFileError::TooLarge));
    assert_eq!(check_font_file(b"/usr/share/fonts/a.ttc", Some((true, 268435456)), &dirs), Ok(()));
    assert_eq!(check_font_file(b"/etc/a.ttf", ok, &dirs), Err(FontFileError::OutsideFontDirs));
    assert_eq!(check_font_file(b"/usr/share/fontsx/a.ttf", ok, &dirs), Err(FontFileError::OutsideFontDirs));
    assert_eq!(FontFileError::ParentSegment.code(), "parent_segment");
}

#[test]
fn request_ids_are_one_to_n() {
    let mut ids = RequestIds::new();
    let got: Vec<u64> = (0..100).map(|_| ids.next_request_id()).collect();
    assert_eq!(got, (1..=100).collect::<Vec<u64>>());
}

#[test]
fn font_file_error_statuses() {
    assert_eq!(FontFileError::NotFound.status(), 404);
    assert_eq!(FontFileError::OutsideFontDirs.status(), 403);
    assert_eq!(FontFileError::TooLarge.status(), 413);
    for e in [
        FontFileError::EmptyPath,
        FontFileError::PathTooLong,
        FontFileError::NotAbsolute,
        FontFileError::ParentSegment,
        FontFileError::NotRegularFile,
    ] {
        assert_eq!(e.status(), 400);
    }
}

#[test]
fn files_are_listed_under_their_text() {
    let mut files = PathMap::new();
    add_font_file(&mut files, b"/a/\xff.ttf".to_vec(), vec![face("A", "Regular")]);
    add_font_file(&mut files, b"/a/\xfe.ttf".to_vec(), vec![face("B", "Regular")]);
    let list = font_list(&files);
    assert_eq!(list.len(), 1);
    assert_eq!(list[0].name, "B Regular");
    assert_eq!(list[0].path, "/a/\u{FFFD}.ttf".as_bytes().to_vec());
}
