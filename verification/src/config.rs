//! The daemon's configuration and its defaults.

use vstd::prelude::*;
use crate::fonts::dirs::default_font_dirs;
use crate::paths::{path_join, spec_join};
use crate::text::{string_from_chars};
use crate::util::{config_dir, dot_config, opt_view, spec_xdg_dir};

verus! {

/// Settings read from `config.json`; every field has a default.
pub struct Config {
    pub host: String,
    pub port: u16,
    /// `None` disables HTTPS.
    pub tls_port: Option<u16>,
    pub tls_cert: Option<Vec<u8>>,
    pub tls_key: Option<Vec<u8>>,
    /// Extra directories to walk for fonts, each with whether its fonts
    /// count as user-installed.
    pub font_dirs: Vec<(Vec<u8>, bool)>,
}

pub open spec fn loopback_host() -> Seq<char> {
    seq!['1', '2', '7', '.', '0', '.', '0', '.', '1']
}

/// `127.0.0.1`
pub fn default_host() -> (host: String)
    ensures
        host@ == loopback_host(),
{
    let v = vec!['1', '2', '7', '.', '0', '.', '0', '.', '1'];
    assert(v@ =~= loopback_host());
    string_from_chars(&v)
}

/// 44950, the macOS Figma Agent's HTTP port.
pub fn default_port() -> (port: u16)
    ensures
        port == 44950,
{
    44950
}

/// 44951, the macOS Figma Agent's HTTPS port.
pub fn default_tls_port() -> (port: Option<u16>)
    ensures
        port == Some(44951u16),
{
    Some(44951)
}

impl Config {
    /// The configuration used when there is no config file.
    pub open spec fn is_default(&self) -> bool {
        &&& self.host@ == loopback_host()
        &&& self.port == 44950
        &&& self.tls_port == Some(44951u16)
        &&& self.tls_cert is None
        &&& self.tls_key is None
        &&& self.font_dirs@.len() == 0
    }
}

impl Default for Config {
    fn default() -> (cfg: Self)
        ensures
            cfg.is_default(),
    {
        Config {
            host: default_host(),
            port: default_port(),
            tls_port: default_tls_port(),
            tls_cert: None,
            tls_key: None,
            font_dirs: default_font_dirs(),
        }
    }
}

/// A `font_dirs` entry: a bare path counts as not user-installed; the
/// detailed form may say otherwise.
pub fn font_dir_entry(path: Vec<u8>, user_installed: Option<bool>) -> (entry: (Vec<u8>, bool))
    ensures
        entry.0@ == path@,
        entry.1 == match user_installed {
            Some(u) => u,
            None => false,
        },
{
    let u = match user_installed {
        Some(u) => u,
        None => false,
    };
    (path, u)
}

pub open spec fn config_json() -> Seq<u8> {
    seq![0x63u8, 0x6F, 0x6E, 0x66, 0x69, 0x67, 0x2E, 0x6A, 0x73, 0x6F, 0x6E]
}

/// `<config dir>/config.json`, given `$XDG_CONFIG_HOME` and `$HOME`.
pub fn default_config_path(xdg_config_home: Option<Vec<u8>>, home: Option<Vec<u8>>) -> (path: Option<Vec<u8>>)
    ensures
        opt_view(path) == match spec_xdg_dir(opt_view(xdg_config_home), opt_view(home), dot_config()) {
            Some(d) => Some(spec_join(d, config_json())),
            None => None,
        },
{
    match config_dir(xdg_config_home, home) {
        Some(d) => {
            let name = vec![0x63u8, 0x6F, 0x6E, 0x66, 0x69, 0x67, 0x2E, 0x6A, 0x73, 0x6F, 0x6E];
            assert(name@ =~= config_json());
            Some(path_join(d.as_slice(), name.as_slice()))
        },
        None => None,
    }
}

/// The config file to read: the one named on the command line, else the
/// default location.
pub fn config_path(explicit: Option<Vec<u8>>, default_path: Option<Vec<u8>>) -> (path: Option<Vec<u8>>)
    ensures
        opt_view(path) == match opt_view(explicit) {
            Some(p) => Some(p),
            None => opt_view(default_path),
        },
{
    match explicit {
        Some(p) => Some(p),
        None => default_path,
    }
}

}
