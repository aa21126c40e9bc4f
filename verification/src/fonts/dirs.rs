//! Which directories are walked for fonts, and which fonts count as
//! user-installed.

use vstd::prelude::*;
use crate::paths::{
    components, lemma_components_join, lemma_split_concat, lemma_split_whole, named, path_join,
    path_starts_with, segments, slash, spec_join, spec_starts_with, dot,
};
use crate::util::TargetOs;

verus! {

/// No extra directories: the system registry (CoreText / fc-list) is
/// authoritative, and `font_dirs` in the config adds to it.
pub fn default_font_dirs() -> (dirs: Vec<(Vec<u8>, bool)>)
    ensures
        dirs@.len() == 0,
{
    Vec::new()
}

/// "Library/Fonts"
pub open spec fn library_fonts() -> Seq<u8> {
    seq![0x4Cu8, 0x69, 0x62, 0x72, 0x61, 0x72, 0x79, 0x2F, 0x46, 0x6F, 0x6E, 0x74, 0x73]
}

/// "Library/Application Support/Fonts"
pub open spec fn library_app_support_fonts() -> Seq<u8> {
    seq![
        0x4Cu8, 0x69, 0x62, 0x72, 0x61, 0x72, 0x79, 0x2F, 0x41, 0x70, 0x70, 0x6C, 0x69, 0x63,
        0x61, 0x74, 0x69, 0x6F, 0x6E, 0x20, 0x53, 0x75, 0x70, 0x70, 0x6F, 0x72, 0x74, 0x2F,
        0x46, 0x6F, 0x6E, 0x74, 0x73,
    ]
}

/// "Library/Fonts Disabled"
pub open spec fn library_fonts_disabled() -> Seq<u8> {
    seq![
        0x4Cu8, 0x69, 0x62, 0x72, 0x61, 0x72, 0x79, 0x2F, 0x46, 0x6F, 0x6E, 0x74, 0x73, 0x20,
        0x44, 0x69, 0x73, 0x61, 0x62, 0x6C, 0x65, 0x64,
    ]
}

/// A font is user-installed when it lies in one of the user's font folders
/// (macOS) or anywhere under the home directory (Linux); never when the
/// home directory is unknown or on other systems.
pub open spec fn spec_user_installed(path: Seq<u8>, home: Option<Seq<u8>>, os: TargetOs) -> bool {
    match home {
        None => false,
        Some(h) => match os {
            TargetOs::MacOs => spec_starts_with(path, spec_join(h, library_fonts()))
                || spec_starts_with(path, spec_join(h, library_app_support_fonts()))
                || spec_starts_with(path, spec_join(h, library_fonts_disabled())),
            TargetOs::Linux => spec_starts_with(path, h),
            TargetOs::Other => false,
        },
    }
}

pub fn classify_user_installed(path: &[u8], home: &Option<Vec<u8>>, os: TargetOs) -> (user: bool)
    ensures
        user == spec_user_installed(
            path@,
            match home {
                Some(h) => Some(h@),
                None => None,
            },
            os,
        ),
{
    let h = match home {
        None => {
            return false;
        },
        Some(h) => h,
    };
    match os {
        TargetOs::MacOs => {
            let a = vec![0x4Cu8, 0x69, 0x62, 0x72, 0x61, 0x72, 0x79, 0x2F, 0x46, 0x6F, 0x6E, 0x74, 0x73];
            let b = vec![
                0x4Cu8, 0x69, 0x62, 0x72, 0x61, 0x72, 0x79, 0x2F, 0x41, 0x70, 0x70, 0x6C, 0x69,
                0x63, 0x61, 0x74, 0x69, 0x6F, 0x6E, 0x20, 0x53, 0x75, 0x70, 0x70, 0x6F, 0x72,
                0x74, 0x2F, 0x46, 0x6F, 0x6E, 0x74, 0x73,
            ];
            let c = vec![
                0x4Cu8, 0x69, 0x62, 0x72, 0x61, 0x72, 0x79, 0x2F, 0x46, 0x6F, 0x6E, 0x74, 0x73,
                0x20, 0x44, 0x69, 0x73, 0x61, 0x62, 0x6C, 0x65, 0x64,
            ];
            assert(a@ =~= library_fonts());
            assert(b@ =~= library_app_support_fonts());
            assert(c@ =~= library_fonts_disabled());
            let da = path_join(h.as_slice(), a.as_slice());
            let db = path_join(h.as_slice(), b.as_slice());
            let dc = path_join(h.as_slice(), c.as_slice());
            path_starts_with(path, da.as_slice()) || path_starts_with(path, db.as_slice())
                || path_starts_with(path, dc.as_slice())
        },
        TargetOs::Linux => path_starts_with(path, h.as_slice()),
        TargetOs::Other => false,
    }
}


/// "Library"
pub open spec fn library_name() -> Seq<u8> {
    seq![0x4Cu8, 0x69, 0x62, 0x72, 0x61, 0x72, 0x79]
}

/// "Fonts"
pub open spec fn fonts_name() -> Seq<u8> {
    seq![0x46u8, 0x6F, 0x6E, 0x74, 0x73]
}

/// "Application Support"
pub open spec fn app_support_name() -> Seq<u8> {
    seq![
        0x41u8, 0x70, 0x70, 0x6C, 0x69, 0x63, 0x61, 0x74, 0x69, 0x6F, 0x6E, 0x20, 0x53, 0x75,
        0x70, 0x70, 0x6F, 0x72, 0x74,
    ]
}

/// "Fonts Disabled"
pub open spec fn fonts_disabled_name() -> Seq<u8> {
    seq![0x46u8, 0x6F, 0x6E, 0x74, 0x73, 0x20, 0x44, 0x69, 0x73, 0x61, 0x62, 0x6C, 0x65, 0x64]
}

proof fn lemma_one_segment(a: Seq<u8>)
    requires
        a.len() > 0,
        forall|i: int| 0 <= i < a.len() ==> a[i] != slash(),
    ensures
        segments(a) == seq![a],
{
    lemma_split_whole(a, slash());
}

proof fn lemma_named_names(x: Seq<Seq<u8>>)
    requires
        forall|i: int| 0 <= i < x.len() ==> (#[trigger] x[i]).len() > 1,
    ensures
        named(x) == x,
    decreases x.len(),
{
    if x.len() > 0 {
        lemma_named_names(x.drop_last());
        assert(x.last().len() > 1);
        assert(x.last() != seq![dot()]);
        assert(x.drop_last().push(x.last()) =~= x);
    }
}

proof fn lemma_folder_components(h: Seq<u8>)
    ensures
        components(spec_join(h, library_fonts())) == components(h) + seq![library_name(), fonts_name()],
        components(spec_join(h, library_app_support_fonts())) == components(h) + seq![
            library_name(),
            app_support_name(),
            fonts_name(),
        ],
        components(spec_join(h, library_fonts_disabled())) == components(h) + seq![
            library_name(),
            fonts_disabled_name(),
        ],
{
    let sl = seq![slash()];
    lemma_one_segment(library_name());
    lemma_one_segment(fonts_name());
    lemma_one_segment(app_support_name());
    lemma_one_segment(fonts_disabled_name());
    // Library/Fonts
    assert(library_fonts() =~= library_name() + sl + fonts_name());
    lemma_split_concat(library_name(), fonts_name(), slash());
    assert(segments(library_fonts()) =~= seq![library_name(), fonts_name()]);
    lemma_named_names(seq![library_name(), fonts_name()]);
    lemma_components_join(h, library_fonts());
    // Library/Application Support/Fonts
    let tail = app_support_name() + sl + fonts_name();
    assert(library_app_support_fonts() =~= library_name() + sl + tail);
    lemma_split_concat(app_support_name(), fonts_name(), slash());
    lemma_split_concat(library_name(), tail, slash());
    assert(segments(library_app_support_fonts()) =~= seq![
        library_name(),
        app_support_name(),
        fonts_name(),
    ]);
    lemma_named_names(seq![library_name(), app_support_name(), fonts_name()]);
    lemma_components_join(h, library_app_support_fonts());
    // Library/Fonts Disabled
    assert(library_fonts_disabled() =~= library_name() + sl + fonts_disabled_name());
    lemma_split_concat(library_name(), fonts_disabled_name(), slash());
    assert(segments(library_fonts_disabled()) =~= seq![library_name(), fonts_disabled_name()]);
    lemma_named_names(seq![library_name(), fonts_disabled_name()]);
    lemma_components_join(h, library_fonts_disabled());
}

/// On macOS a font is user-installed exactly when its path runs, component
/// by component, through the home directory and then Library/Fonts,
/// Library/Application Support/Fonts or Library/Fonts Disabled; anything
/// else under the home directory, elsewhere in Library included, is not.
pub proof fn mac_user_fonts_live_in_font_folders(path: Seq<u8>, home: Seq<u8>)
    ensures
        spec_user_installed(path, Some(home), TargetOs::MacOs) <==> {
            ||| (components(home) + seq![library_name(), fonts_name()]).is_prefix_of(components(path))
            ||| (components(home) + seq![library_name(), app_support_name(), fonts_name()]).is_prefix_of(
                components(path),
            )
            ||| (components(home) + seq![library_name(), fonts_disabled_name()]).is_prefix_of(
                components(path),
            )
        },
{
    lemma_folder_components(home);
}

}
