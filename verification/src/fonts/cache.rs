//! The on-disk font cache.  Its shape is our own (keyed by daemon version)
//! and independent of the wire response; a cache written by another
//! version is ignored and the fonts enumerated again.

use vstd::prelude::*;
use crate::fonts::catalog::FontFiles;
use crate::paths::{path_join, spec_join};
use crate::text::str_eq;
use crate::util::{VERSION, cache_dir, dot_cache, now_secs, opt_view, spec_xdg_dir};

verus! {

pub struct DiskCache {
    pub version: String,
    pub fonts_cached_at: u64,
    pub fonts: FontFiles,
}

/// "font_cache.json"
pub open spec fn cache_file_name() -> Seq<u8> {
    seq![0x66u8, 0x6F, 0x6E, 0x74, 0x5F, 0x63, 0x61, 0x63, 0x68, 0x65, 0x2E, 0x6A, 0x73, 0x6F, 0x6E]
}

/// `<cache dir>/font_cache.json`, given `$XDG_CACHE_HOME` and `$HOME`.
pub fn cache_path(xdg_cache_home: Option<Vec<u8>>, home: Option<Vec<u8>>) -> (path: Option<Vec<u8>>)
    ensures
        opt_view(path) == match spec_xdg_dir(opt_view(xdg_cache_home), opt_view(home), dot_cache()) {
            Some(d) => Some(spec_join(d, cache_file_name())),
            None => None,
        },
{
    match cache_dir(xdg_cache_home, home) {
        Some(d) => {
            let name = vec![0x66u8, 0x6F, 0x6E, 0x74, 0x5F, 0x63, 0x61, 0x63, 0x68, 0x65, 0x2E, 0x6A, 0x73, 0x6F, 0x6E];
            assert(name@ =~= cache_file_name());
            Some(path_join(d.as_slice(), name.as_slice()))
        },
        None => None,
    }
}

impl DiskCache {
    /// A cache of `fonts`, stamped with this daemon's version.
    pub fn new(fonts: FontFiles, cached_at: u64) -> (cache: DiskCache)
        ensures
            cache.version@ == VERSION@,
            cache.fonts_cached_at == cached_at,
            cache.fonts == fonts,
    {
        DiskCache { version: VERSION.to_owned(), fonts_cached_at: cached_at, fonts }
    }

    /// A cache of `fonts` as of now.
    pub fn snapshot(fonts: FontFiles) -> (cache: DiskCache)
        ensures
            cache.version@ == VERSION@,
            cache.fonts == fonts,
    {
        DiskCache::new(fonts, now_secs())
    }

    /// The cache, if it was written by this daemon version.
    pub fn current(self) -> (res: Option<DiskCache>)
        ensures
            self.version@ == VERSION@ ==> res == Some(self),
            self.version@ != VERSION@ ==> res is None,
    {
        if str_eq(self.version.as_str(), VERSION) {
            Some(self)
        } else {
            None
        }
    }
}

}
