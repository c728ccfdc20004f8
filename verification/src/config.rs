//! User preferences and where they are kept.

use vstd::prelude::*;
use crate::path::{join, sep, spec_join};

verus! {

/// Preferences for extraction.
#[derive(Debug, Clone, Copy, PartialEq, Eq, Structural)]
pub struct ExtractPrefs {
    /// Whether a single top-level directory of an archive is stripped.
    pub strip_top_level_dir: bool,
}

impl Default for ExtractPrefs {
    /// Stripping is on unless the configuration turns it off.
    fn default() -> (r: Self)
        ensures
            r.strip_top_level_dir,
    {
        ExtractPrefs { strip_top_level_dir: true }
    }
}

/// The whole configuration.
#[derive(Debug, Clone, Copy, PartialEq, Eq, Structural)]
pub struct Config {
    pub extract_prefs: ExtractPrefs,
}

impl Default for Config {
    /// The configuration with default preferences.
    fn default() -> (r: Self)
        ensures
            r.extract_prefs.strip_top_level_dir,
    {
        Config { extract_prefs: ExtractPrefs::default() }
    }
}

/// Why no configuration path could be found.
#[derive(Debug, Clone, Copy, PartialEq, Eq, Structural)]
pub enum ConfigPathError {
    /// Neither `XDG_CONFIG_HOME` (non-empty) nor `HOME` is set.
    NoConfigDirectory,
}

/// `sax`
pub open spec fn app_dir_name() -> Seq<u8> {
    seq![115u8, 97u8, 120u8]
}

/// `.config`
pub open spec fn dot_config() -> Seq<u8> {
    seq![46u8, 99u8, 111u8, 110u8, 102u8, 105u8, 103u8]
}

/// `config.yaml`
pub open spec fn config_file_name() -> Seq<u8> {
    seq![99u8, 111u8, 110u8, 102u8, 105u8, 103u8, 46u8, 121u8, 97u8, 109u8, 108u8]
}

/// Where the configuration file lives: `$XDG_CONFIG_HOME/sax/config.yaml` when
/// that variable is set and not empty, else `$HOME/.config/sax/config.yaml`
/// when `HOME` is set, else nowhere.
pub open spec fn spec_config_path(xdg_config_home: Option<Seq<u8>>, home: Option<Seq<u8>>) -> Option<Seq<u8>> {
    match xdg_config_home {
        Some(x) if x.len() > 0 => Some(spec_join(spec_join(x, app_dir_name()), config_file_name())),
        _ => match home {
            Some(h) => Some(
                spec_join(spec_join(spec_join(h, dot_config()), app_dir_name()), config_file_name()),
            ),
            None => None,
        },
    }
}

/// The view of an optional byte slice.
pub open spec fn opt_view(o: Option<&[u8]>) -> Option<Seq<u8>> {
    match o {
        Some(s) => Some(s@),
        None => None,
    }
}

/// The path of the configuration file, given the values of the
/// `XDG_CONFIG_HOME` and `HOME` environment variables.
pub fn config_path(xdg_config_home: Option<&[u8]>, home: Option<&[u8]>) -> (r: Result<Vec<u8>, ConfigPathError>)
    ensures
        match r {
            Ok(p) => spec_config_path(opt_view(xdg_config_home), opt_view(home)) == Some(p@),
            Err(_) => spec_config_path(opt_view(xdg_config_home), opt_view(home)) is None,
        },
{
    let sax: [u8; 3] = [115u8, 97u8, 120u8];
    let file: [u8; 11] = [99u8, 111u8, 110u8, 102u8, 105u8, 103u8, 46u8, 121u8, 97u8, 109u8, 108u8];
    assert(sax@ == app_dir_name());
    assert(file@ == config_file_name());
    if let Some(x) = xdg_config_home {
        if x.len() > 0 {
            let dir = join(x, &sax);
            return Ok(join(dir.as_slice(), &file));
        }
    }
    match home {
        Some(h) => {
            let dot: [u8; 7] = [46u8, 99u8, 111u8, 110u8, 102u8, 105u8, 103u8];
            assert(dot@ == dot_config());
            let base = join(h, &dot);
            let dir = join(base.as_slice(), &sax);
            Ok(join(dir.as_slice(), &file))
        },
        None => Err(ConfigPathError::NoConfigDirectory),
    }
}


/// A set, non-empty `XDG_CONFIG_HOME` decides alone, whatever `HOME` is (unset
/// included): the configuration is `sax/config.yaml` under it; when it does
/// not end in `/` that is exactly `$XDG_CONFIG_HOME/sax/config.yaml`.
pub proof fn law_config_path_prefers_xdg(x: Seq<u8>, home: Option<Seq<u8>>)
    requires
        x.len() > 0,
    ensures
        spec_config_path(Some(x), home) is Some,
        spec_config_path(Some(x), home) == spec_config_path(Some(x), None),
        x.last() != sep() ==> spec_config_path(Some(x), home) == Some(
            x + seq![
                47u8, 115u8, 97u8, 120u8, 47u8, 99u8, 111u8, 110u8, 102u8, 105u8, 103u8, 46u8,
                121u8, 97u8, 109u8, 108u8,
            ],
        ),
{
    let d = spec_join(x, app_dir_name());
    if x.last() != sep() {
        assert(d == x + seq![sep()] + app_dir_name());
        assert(d.last() == 120u8);
        assert(spec_join(d, config_file_name()) =~= x + seq![
            47u8, 115u8, 97u8, 120u8, 47u8, 99u8, 111u8, 110u8, 102u8, 105u8, 103u8, 46u8,
            121u8, 97u8, 109u8, 108u8,
        ]);
    }
}

/// Without a usable `XDG_CONFIG_HOME` (unset or empty), the configuration is
/// `.config/sax/config.yaml` under `HOME` (exactly
/// `$HOME/.config/sax/config.yaml` when `HOME` is non-empty and does not end in
/// `/`), and there is none when `HOME` is unset too.
pub proof fn law_config_path_falls_back_to_home(xdg: Option<Seq<u8>>, home: Option<Seq<u8>>)
    requires
        xdg matches Some(x) ==> x.len() == 0,
    ensures
        home is None ==> spec_config_path(xdg, home) is None,
        home matches Some(h) ==> spec_config_path(xdg, home) is Some,
        (home matches Some(h) && h.len() > 0 && h.last() != sep()) ==> spec_config_path(xdg, home)
            == Some(
            home->Some_0 + seq![
                47u8, 46u8, 99u8, 111u8, 110u8, 102u8, 105u8, 103u8, 47u8, 115u8, 97u8, 120u8,
                47u8, 99u8, 111u8, 110u8, 102u8, 105u8, 103u8, 46u8, 121u8, 97u8, 109u8, 108u8,
            ],
        ),
{
    if let Some(h) = home {
        if h.len() > 0 && h.last() != sep() {
            let c = spec_join(h, dot_config());
            assert(c == h + seq![sep()] + dot_config());
            assert(c.last() == 103u8);
            let d = spec_join(c, app_dir_name());
            assert(d == c + seq![sep()] + app_dir_name());
            assert(d.last() == 120u8);
            assert(spec_join(d, config_file_name()) =~= h + seq![
                47u8, 46u8, 99u8, 111u8, 110u8, 102u8, 105u8, 103u8, 47u8, 115u8, 97u8, 120u8,
                47u8, 99u8, 111u8, 110u8, 102u8, 105u8, 103u8, 46u8, 121u8, 97u8, 109u8, 108u8,
            ]);
        }
    }
}

} // verus!
