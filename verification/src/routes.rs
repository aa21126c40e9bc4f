//! What the two endpoints answer: `/figma/font-files` lists the catalogue,
//! `/figma/font-file?file=<path>` serves one font file after validating the
//! requested path.

use vstd::prelude::*;
use crate::fonts::{FaceInfo, FaceView};
use crate::fonts::catalog::FontFiles;
use crate::paths::{spec_starts_with, path_starts_with};
use crate::text::{append_str, bytes_view, copy_bytes, split_bytes, split_on, string_from_chars};
use crate::util::VERSION;

verus! {

// ---------------------------------------------------------------------------
// Request ids.

/// The source of request ids: 1, 2, 3, ... (wrapping at `u64::MAX`).
pub struct RequestIds {
    next: u64,
}

impl RequestIds {
    pub closed spec fn peek(&self) -> u64 {
        self.next
    }

    pub fn new() -> (ids: Self)
        ensures
            ids.peek() == 1,
    {
        RequestIds { next: 1 }
    }

    /// Hand out the next id.
    pub fn next_request_id(&mut self) -> (id: u64)
        ensures
            id == old(self).peek(),
            final(self).peek() == id_successor(id),
    {
        let id = self.next;
        self.next = id.wrapping_add(1);
        id
    }
}

/// The counter after handing out `id`.
pub open spec fn id_successor(id: u64) -> u64 {
    if id == u64::MAX {
        0
    } else {
        (id + 1) as u64
    }
}

/// From a fresh source, the ids of successive calls are 1, 2, 3, ...: each
/// larger than every one before it, so no two are equal.  `states` are the
/// source before each call and after the last, `ids` what the calls gave.
pub proof fn request_ids_count_up(states: Seq<RequestIds>, ids: Seq<u64>)
    requires
        states.len() == ids.len() + 1,
        ids.len() < u64::MAX,
        states[0].peek() == 1,
        forall|k: int|
            0 <= k < ids.len() ==> #[trigger] ids[k] == states[k].peek() && states[k + 1].peek()
                == id_successor(ids[k]),
    ensures
        forall|k: int| 0 <= k < ids.len() ==> #[trigger] ids[k] == k + 1,
        forall|j: int, k: int| 0 <= j < k < ids.len() ==> #[trigger] ids[j] < #[trigger] ids[k],
    decreases ids.len(),
{
    if ids.len() > 0 {
        let n = ids.len() - 1;
        request_ids_count_up(states.take(n + 1), ids.take(n));
        assert forall|k: int| 0 <= k < n implies #[trigger] ids[k] == k + 1 by {
            assert(ids.take(n)[k] == ids[k]);
            assert(states.take(n + 1)[k] == states[k]);
            assert(states.take(n + 1)[k + 1] == states[k + 1]);
        }
        if n > 0 {
            assert(ids[n - 1] == n);
            assert(states[n].peek() == id_successor(ids[n - 1]));
        }
        assert(ids[n] == states[n].peek());
    }
}

// ---------------------------------------------------------------------------
// `/figma/font-files`.

/// One listed face: the face, its display name and the file it came from.
pub struct FontInfo {
    pub face: FaceInfo,
    pub name: String,
    pub path: Vec<u8>,
}

pub struct FontInfoView {
    pub face: FaceView,
    pub name: Seq<char>,
    pub path: Seq<u8>,
}

impl View for FontInfo {
    type V = FontInfoView;

    open spec fn view(&self) -> FontInfoView {
        FontInfoView { face: self.face@, name: self.name@, path: self.path@ }
    }
}

/// A face's display name: family and style separated by a space
/// ("Inter Regular").
pub open spec fn font_name(f: FaceView) -> Seq<char> {
    f.family + seq![' '] + f.style
}

pub open spec fn font_info_of(f: FaceView, path: Seq<u8>) -> FontInfoView {
    FontInfoView { face: f, name: font_name(f), path }
}

pub open spec fn file_fonts(faces: Seq<FaceInfo>, path: Seq<u8>) -> Seq<FontInfoView> {
    faces.map_values(|f: FaceInfo| font_info_of(f@, path))
}

/// The listed faces: every face of every file, file by file.
pub open spec fn spec_font_list(e: Seq<(Vec<Vec<u8>>, Vec<u8>, Vec<FaceInfo>)>) -> Seq<FontInfoView>
    decreases e.len(),
{
    if e.len() == 0 {
        Seq::empty()
    } else {
        spec_font_list(e.drop_last()) + file_fonts(e.last().2@, e.last().1@)
    }
}

pub open spec fn infos_view(v: Seq<FontInfo>) -> Seq<FontInfoView> {
    v.map_values(|x: FontInfo| x@)
}

/// Flatten the catalogue into the listed faces.
pub fn font_list(files: &FontFiles) -> (list: Vec<FontInfo>)
    ensures
        infos_view(list@) == spec_font_list(files.entry_seq()),
{
    let e = files.entries();
    let ghost ev = e@;
    let mut out: Vec<FontInfo> = Vec::new();
    for i in 0..e.len()
        invariant
            ev == e@,
            infos_view(out@) == spec_font_list(ev.take(i as int)),
    {
        assert(ev.take(i + 1).drop_last() =~= ev.take(i as int));
        let (_, path, faces) = &e[i];
        assert(ev.take(i + 1).last() == e@[i as int]);
        let ghost before = infos_view(out@);
        for j in 0..faces.len()
            invariant
                infos_view(out@) == before + file_fonts(faces@, path@).take(j as int),
        {
            let f = &faces[j];
            let mut name: Vec<char> = Vec::new();
            append_str(&mut name, f.family.as_str());
            name.push(' ');
            append_str(&mut name, f.style.as_str());
            assert(name@ =~= font_name(f@));
            let info = FontInfo { face: f.copy(), name: string_from_chars(&name), path: copy_bytes(path.as_slice()) };
            let ghost old_out = infos_view(out@);
            out.push(info);
            assert(infos_view(out@) =~= old_out.push(info@));
            assert(file_fonts(faces@, path@).take(j + 1) =~= file_fonts(faces@, path@).take(j as int).push(
                font_info_of(f@, path@),
            ));
        }
        assert(file_fonts(faces@, path@).take(faces@.len() as int) =~= file_fonts(faces@, path@));
    }
    assert(ev.take(ev.len() as int) =~= ev);
    out
}

/// The body of a `/figma/font-files` answer.
pub struct FontFilesResponse {
    pub version: &'static str,
    pub modified_at: u64,
    pub modified_fonts: Vec<String>,
    pub fonts: Vec<FontInfo>,
    pub request_id: u64,
    pub elapsed_ms: u64,
}

impl FontFilesResponse {
    pub fn new(files: &FontFiles, modified_at: u64, request_id: u64, elapsed_ms: u64) -> (resp: Self)
        ensures
            resp.version@ == VERSION@,
            resp.modified_at == modified_at,
            resp.modified_fonts@.len() == 0,
            infos_view(resp.fonts@) == spec_font_list(files.entry_seq()),
            resp.request_id == request_id,
            resp.elapsed_ms == elapsed_ms,
    {
        FontFilesResponse {
            version: VERSION,
            modified_at,
            modified_fonts: Vec::new(),
            fonts: font_list(files),
            request_id,
            elapsed_ms,
        }
    }
}

// ---------------------------------------------------------------------------
// `/figma/font-file`.

/// Why a requested font file is refused.
#[derive(Clone, Copy, PartialEq, Eq, Structural, Debug)]
pub enum FontFileError {
    EmptyPath,
    PathTooLong,
    NotAbsolute,
    ParentSegment,
    NotFound,
    NotRegularFile,
    TooLarge,
    OutsideFontDirs,
}

impl FontFileError {
    /// The `error` field of the JSON answer.
    pub fn code(&self) -> (c: &'static str)
        ensures
            c@ == match self {
                FontFileError::EmptyPath => "empty_path"@,
                FontFileError::PathTooLong => "path_too_long"@,
                FontFileError::NotAbsolute => "not_absolute"@,
                FontFileError::ParentSegment => "parent_segment"@,
                FontFileError::NotFound => "not_found"@,
                FontFileError::NotRegularFile => "not_a_file"@,
                FontFileError::TooLarge => "too_large"@,
                FontFileError::OutsideFontDirs => "outside_font_dirs"@,
            },
    {
        match self {
            FontFileError::EmptyPath => "empty_path",
            FontFileError::PathTooLong => "path_too_long",
            FontFileError::NotAbsolute => "not_absolute",
            FontFileError::ParentSegment => "parent_segment",
            FontFileError::NotFound => "not_found",
            FontFileError::NotRegularFile => "not_a_file",
            FontFileError::TooLarge => "too_large",
            FontFileError::OutsideFontDirs => "outside_font_dirs",
        }
    }
}

impl FontFileError {
    /// The HTTP status of the answer: 404 for a missing file, 403 outside the
    /// font directories, 413 for a file too large, 400 for a malformed path
    /// or one that is not a regular file.
    pub fn status(&self) -> (s: u16)
        ensures
            s == match self {
                FontFileError::NotFound => 404u16,
                FontFileError::OutsideFontDirs => 403u16,
                FontFileError::TooLarge => 413u16,
                _ => 400u16,
            },
    {
        match self {
            FontFileError::NotFound => 404,
            FontFileError::OutsideFontDirs => 403,
            FontFileError::TooLarge => 413,
            _ => 400,
        }
    }
}

/// Paths longer than 4 KB are refused.
pub const MAX_PATH_BYTES: usize = 4096;

/// Files larger than 256 MB are refused.
pub const MAX_FONT_FILE_BYTES: u64 = 268435456;

pub open spec fn has_parent_segment(path: Seq<u8>) -> bool {
    exists|i: int|
        0 <= i < split_on(path, 0x2F).len() && #[trigger] split_on(path, 0x2F)[i] == seq![0x2Eu8, 0x2E]
}

/// The validation of a requested font file, in order: non-empty, at most
/// 4 KB, absolute, no `..` segment, present, a regular file, at most 256 MB,
/// and inside one of the configured font directories.  `meta` is whether
/// the path is a regular file and its size, `None` when it cannot be read.
pub open spec fn spec_check_font_file(
    path: Seq<u8>,
    meta: Option<(bool, u64)>,
    dirs: Seq<Seq<u8>>,
) -> Result<(), FontFileError> {
    if path.len() == 0 {
        Err(FontFileError::EmptyPath)
    } else if path.len() > MAX_PATH_BYTES {
        Err(FontFileError::PathTooLong)
    } else if path[0] != 0x2F {
        Err(FontFileError::NotAbsolute)
    } else if has_parent_segment(path) {
        Err(FontFileError::ParentSegment)
    } else {
        match meta {
            None => Err(FontFileError::NotFound),
            Some((is_file, size)) => if !is_file {
                Err(FontFileError::NotRegularFile)
            } else if size > MAX_FONT_FILE_BYTES {
                Err(FontFileError::TooLarge)
            } else if exists|i: int| 0 <= i < dirs.len() && spec_starts_with(path, #[trigger] dirs[i]) {
                Ok(())
            } else {
                Err(FontFileError::OutsideFontDirs)
            },
        }
    }
}

pub open spec fn dir_paths(dirs: Seq<(Vec<u8>, bool)>) -> Seq<Seq<u8>> {
    dirs.map_values(|d: (Vec<u8>, bool)| d.0@)
}

#[verifier::loop_isolation(false)]
pub fn check_font_file(path: &[u8], meta: Option<(bool, u64)>, font_dirs: &Vec<(Vec<u8>, bool)>) -> (res: Result<
    (),
    FontFileError,
>)
    ensures
        res == spec_check_font_file(path@, meta, dir_paths(font_dirs@)),
{
    if path.len() == 0 {
        return Err(FontFileError::EmptyPath);
    }
    if path.len() > MAX_PATH_BYTES {
        return Err(FontFileError::PathTooLong);
    }
    if path[0] != 0x2F {
        return Err(FontFileError::NotAbsolute);
    }
    let segs = split_bytes(path, 0x2F);
    let ghost sv = bytes_view(segs@);
    let parent = vec![0x2Eu8, 0x2E];
    assert(parent@ =~= seq![0x2Eu8, 0x2E]);
    for i in 0..segs.len()
        invariant
            sv == bytes_view(segs@),
            sv == split_on(path@, 0x2F),
            parent@ == seq![0x2Eu8, 0x2E],
            forall|j: int| 0 <= j < i ==> sv[j] != seq![0x2Eu8, 0x2E],
    {
        assert(sv[i as int] == segs@[i as int]@);
        if crate::text::bytes_eq(segs[i].as_slice(), parent.as_slice()) {
            assert(split_on(path@, 0x2F)[i as int] == seq![0x2Eu8, 0x2E]);
            assert(has_parent_segment(path@));
            return Err(FontFileError::ParentSegment);
        }
    }
    let (is_file, size) = match meta {
        None => {
            return Err(FontFileError::NotFound);
        },
        Some(m) => m,
    };
    if !is_file {
        return Err(FontFileError::NotRegularFile);
    }
    if size > MAX_FONT_FILE_BYTES {
        return Err(FontFileError::TooLarge);
    }
    let ghost dv = dir_paths(font_dirs@);
    for i in 0..font_dirs.len()
        invariant
            dv == dir_paths(font_dirs@),
            forall|j: int| 0 <= j < i ==> !spec_starts_with(path@, #[trigger] dv[j]),
    {
        assert(dv[i as int] == font_dirs@[i as int].0@);
        if path_starts_with(path, font_dirs[i].0.as_slice()) {
            assert(spec_starts_with(path@, dv[i as int]));
            return Ok(());
        }
    }
    Err(FontFileError::OutsideFontDirs)
}


/// A request that passes the path and file checks is served exactly when
/// some configured font directory, wherever it stands in the list, holds
/// the path; so reordering (or repeating) the font directories never
/// changes the answer.
pub proof fn font_dir_position_is_irrelevant(
    path: Seq<u8>,
    meta: Option<(bool, u64)>,
    dirs: Seq<Seq<u8>>,
    other: Seq<Seq<u8>>,
)
    requires
        dirs.to_set() == other.to_set(),
    ensures
        spec_check_font_file(path, meta, dirs) == spec_check_font_file(path, meta, other),
        ({
            &&& path.len() > 0
            &&& path.len() <= MAX_PATH_BYTES
            &&& path[0] == 0x2F
            &&& !has_parent_segment(path)
            &&& meta matches Some((is_file, size)) && is_file && size <= MAX_FONT_FILE_BYTES
        }) ==> (spec_check_font_file(path, meta, dirs) == Ok::<(), FontFileError>(())
            <==> exists|i: int| 0 <= i < dirs.len() && spec_starts_with(path, #[trigger] dirs[i])),
{
    let a = exists|i: int| 0 <= i < dirs.len() && spec_starts_with(path, #[trigger] dirs[i]);
    let b = exists|i: int| 0 <= i < other.len() && spec_starts_with(path, #[trigger] other[i]);
    if a {
        let i = choose|i: int| 0 <= i < dirs.len() && spec_starts_with(path, #[trigger] dirs[i]);
        assert(dirs.to_set().contains(dirs[i]));
        assert(other.to_set().contains(dirs[i]));
        assert(other.contains(dirs[i]));
        let j = choose|j: int| 0 <= j < other.len() && other[j] == dirs[i];
        assert(spec_starts_with(path, other[j]));
    }
    if b {
        let j = choose|j: int| 0 <= j < other.len() && spec_starts_with(path, #[trigger] other[j]);
        assert(other.to_set().contains(other[j]));
        assert(dirs.to_set().contains(other[j]));
        assert(dirs.contains(other[j]));
        let i = choose|i: int| 0 <= i < dirs.len() && dirs[i] == other[j];
        assert(spec_starts_with(path, dirs[i]));
    }
    assert(a == b);
}

}
