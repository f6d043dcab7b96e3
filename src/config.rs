//! The settings that say where quotations come from, and where the
//! application keeps its files.
use vstd::prelude::*;
use crate::loader::{view_opt, view_strings};
use crate::text::{concat, copy_strings};

verus! {

/// The user's settings.
pub struct Config {
    pub default_file: Option<String>,
    pub print_title: Option<bool>,
    pub use_cache: Option<bool>,
    pub fortune_files: Vec<String>,
}

impl Config {
    /// The settings written by a fresh installation, whose default file is
    /// `default_path`.
    pub fn initial(default_path: String) -> (r: Config)
        ensures
            r.default_file == Some(default_path),
            r.print_title == Some(true),
            r.use_cache == Some(true),
            r.fortune_files@.len() == 0,
    {
        Config { default_file: Some(default_path), print_title: Some(true), use_cache: Some(true), fortune_files: Vec::new() }
    }

    /// Moves an older setting into the list of fortune files: where the list
    /// is empty and a default file is set, the list becomes that file alone.
    /// Returns whether the settings changed.
    pub fn migrate_fortune_files(&mut self) -> (changed: bool)
        ensures
            changed == (old(self).fortune_files@.len() == 0 && old(self).default_file is Some),
            changed ==> final(self).fortune_files@.len() == 1 && final(self).fortune_files@[0]@ == old(self).default_file->0@,
            !changed ==> final(self).fortune_files@ == old(self).fortune_files@,
            final(self).default_file == old(self).default_file,
            final(self).print_title == old(self).print_title,
            final(self).use_cache == old(self).use_cache,
    {
        if self.fortune_files.len() == 0 {
            match &self.default_file {
                Some(df) => {
                    let mut files: Vec<String> = Vec::new();
                    files.push(df.clone());
                    self.fortune_files = files;
                    return true;
                },
                None => {},
            }
        }
        false
    }
}

/// The sources chosen by priority: those given on the command line, else
/// the configured fortune files, else the configured default file, else
/// `fallback` where it is given, else none.
pub open spec fn sources_spec(
    cli: Option<Seq<Seq<char>>>,
    files: Seq<Seq<char>>,
    default_file: Option<Seq<char>>,
    fallback: Option<Seq<char>>,
) -> Seq<Seq<char>> {
    if cli is Some && cli->0.len() > 0 {
        cli->0
    } else if files.len() > 0 {
        files
    } else if default_file is Some {
        seq![default_file->0]
    } else if fallback is Some {
        seq![fallback->0]
    } else {
        seq![]
    }
}

/// The texts of an optional vector of strings.
pub open spec fn view_opt_strings(o: Option<Vec<String>>) -> Option<Seq<Seq<char>>> {
    match o {
        Some(v) => Some(view_strings(v@)),
        None => None,
    }
}

/// The sources chosen by priority, as `sources_spec` says.
fn sources_by_priority(cli_files: Option<Vec<String>>, config: &Config, fallback: Option<&str>) -> (r: Vec<String>)
    ensures
        view_strings(r@) == sources_spec(
            view_opt_strings(cli_files),
            view_strings(config.fortune_files@),
            view_opt(config.default_file),
            match fallback { Some(f) => Some(f@), None => None },
        ),
{
    if let Some(files) = cli_files {
        if files.len() > 0 {
            return files;
        }
    }
    if config.fortune_files.len() > 0 {
        return copy_strings(&config.fortune_files);
    }
    let mut r: Vec<String> = Vec::new();
    match &config.default_file {
        Some(df) => {
            r.push(df.clone());
            assert(view_strings(r@) =~= seq![df@]);
        },
        None => {
            match fallback {
                Some(f) => {
                    r.push(f.to_string());
                    assert(view_strings(r@) =~= seq![f@]);
                },
                None => {
                    assert(view_strings(r@) =~= Seq::<Seq<char>>::empty());
                },
            }
        },
    }
    r
}

/// The fortune files to read: those given on the command line, else the
/// configured ones, else the configured default file, else the system-wide
/// fortune file.
pub fn get_fortune_sources(cli_files: Option<Vec<String>>, config: &Config) -> (r: Vec<String>)
    ensures
        view_strings(r@) == sources_spec(
            view_opt_strings(cli_files),
            view_strings(config.fortune_files@),
            view_opt(config.default_file),
            Some("/usr/local/share/rfortune/fortunes"@),
        ),
{
    sources_by_priority(cli_files, config, Some("/usr/local/share/rfortune/fortunes"))
}

/// The fortune files to read: those given on the command line, else the
/// configured ones, else the configured default file, else none.
pub fn resolve_fortune_sources(cli_files: Option<Vec<String>>, config: &Config) -> (r: Vec<String>)
    ensures
        view_strings(r@) == sources_spec(
            view_opt_strings(cli_files),
            view_strings(config.fortune_files@),
            view_opt(config.default_file),
            None,
        ),
{
    sources_by_priority(cli_files, config, None)
}

/// `dir` with `name` appended as one more path component.
pub open spec fn join_spec(dir: Seq<char>, name: Seq<char>) -> Seq<char> {
    if dir.len() == 0 || dir.last() == '/' {
        dir + name
    } else {
        dir + seq!['/'] + name
    }
}

/// `dir` with `name` appended as one more path component.
pub fn join_path(dir: &str, name: &str) -> (r: String)
    ensures
        r@ == join_spec(dir@, name@),
{
    let v = crate::text::chars_of(dir);
    if v.len() == 0 || v[v.len() - 1] == '/' {
        concat(dir, name)
    } else {
        let d = concat(dir, "/");
        proof {
            reveal_strlit("/");
        }
        concat(d.as_str(), name)
    }
}

/// The platform, where it decides where application data lives.
#[derive(Debug, Clone, Copy, PartialEq, Eq)]
pub enum Platform {
    Linux,
    MacOs,
    Other,
}

/// The application directory under a home directory, where the platform
/// gives no data directory.
pub open spec fn home_app_dir(home: Seq<char>, platform: Platform) -> Seq<char> {
    match platform {
        Platform::Linux => join_spec(join_spec(join_spec(home, ".local"@), "share"@), "rfortune"@),
        Platform::MacOs => join_spec(join_spec(join_spec(home, "Library"@), "Application Support"@), "rfortune"@),
        Platform::Other => join_spec(home, "rfortune"@),
    }
}

/// The application directory: `override_dir` where one is set, else
/// `rfortune` under the platform's data directory, else under the home
/// directory, else `.rfortune` under the current directory (`.` where
/// even that is unknown).
pub fn choose_app_dir(
    override_dir: Option<String>,
    data_dir: Option<String>,
    home_dir: Option<String>,
    current_dir: Option<String>,
    platform: Platform,
) -> (r: String)
    ensures
        override_dir is Some ==> r@ == override_dir->0@,
        override_dir is None && data_dir is Some ==> r@ == join_spec(data_dir->0@, "rfortune"@),
        override_dir is None && data_dir is None && home_dir is Some ==> r@ == home_app_dir(home_dir->0@, platform),
        override_dir is None && data_dir is None && home_dir is None && current_dir is Some ==> r@ == join_spec(current_dir->0@, ".rfortune"@),
        override_dir is None && data_dir is None && home_dir is None && current_dir is None ==> r@ == join_spec("."@, ".rfortune"@),
{
    if let Some(d) = override_dir {
        return d;
    }
    if let Some(d) = data_dir {
        return join_path(d.as_str(), "rfortune");
    }
    if let Some(h) = home_dir {
        return match platform {
            Platform::Linux => {
                let a = join_path(h.as_str(), ".local");
                let b = join_path(a.as_str(), "share");
                join_path(b.as_str(), "rfortune")
            },
            Platform::MacOs => {
                let a = join_path(h.as_str(), "Library");
                let b = join_path(a.as_str(), "Application Support");
                join_path(b.as_str(), "rfortune")
            },
            Platform::Other => join_path(h.as_str(), "rfortune"),
        };
    }
    match current_dir {
        Some(c) => join_path(c.as_str(), ".rfortune"),
        None => join_path(".", ".rfortune"),
    }
}

/// The configuration file in the application directory `app_dir`.
pub fn get_config_path(app_dir: &str) -> (r: String)
    ensures
        r@ == join_spec(app_dir@, "rfortune.conf"@),
{
    join_path(app_dir, "rfortune.conf")
}

/// The default fortune file in the application directory `app_dir`.
pub fn get_default_path(app_dir: &str) -> (r: String)
    ensures
        r@ == join_spec(app_dir@, "rfortune.dat"@),
{
    join_path(app_dir, "rfortune.dat")
}

/// The configuration file of older versions, in `app_dir`.
pub fn old_config_path(app_dir: &str) -> (r: String)
    ensures
        r@ == join_spec(app_dir@, "config.yaml"@),
{
    join_path(app_dir, "config.yaml")
}

/// The directory of the quote cache in `app_dir`.
pub fn get_cache_dir(app_dir: &str) -> (r: String)
    ensures
        r@ == join_spec(app_dir@, "cache"@),
{
    join_path(app_dir, "cache")
}

/// The store file of the quote cache in `app_dir`.
pub fn cache_store_path(app_dir: &str) -> (r: String)
    ensures
        r@ == join_spec(join_spec(app_dir@, "cache"@), "last_quotes.json"@),
{
    let d = get_cache_dir(app_dir);
    join_path(d.as_str(), "last_quotes.json")
}

/// The editor that opens the configuration: the one asked for, else
/// `$VISUAL`, else `$EDITOR`, else the platform's own.
pub fn choose_editor(asked: Option<String>, visual: Option<String>, editor: Option<String>, windows: bool) -> (r: String)
    ensures
        asked is Some ==> r@ == asked->0@,
        asked is None && visual is Some ==> r@ == visual->0@,
        asked is None && visual is None && editor is Some ==> r@ == editor->0@,
        asked is None && visual is None && editor is None ==> r@ == (if windows { "notepad"@ } else { "nano"@ }),
{
    if let Some(e) = asked {
        e
    } else if let Some(v) = visual {
        v
    } else if let Some(e) = editor {
        e
    } else if windows {
        "notepad".to_string()
    } else {
        "nano".to_string()
    }
}

/// The stem of the last component of `path`, as `Path::file_stem` gives it.
pub uninterp spec fn stem_of(path: Seq<char>) -> Option<Seq<char>>;

/// Relies on `Path::file_stem`: the name of the last component of `path`
/// without its extension; it depends on `path` alone.
#[verifier::external_body]
fn file_stem(path: &str) -> (r: Option<String>)
    ensures
        r is Some ==> stem_of(path@) == Some(r->0@),
        r is None ==> stem_of(path@) is None,
{
    match std::path::Path::new(path).file_stem() {
        Some(s) => Some(s.to_string_lossy().to_string()),
        None => None,
    }
}

/// The per-file cache of older versions for a fortune file of stem `stem`:
/// `<stem>.cache` in the cache directory of `app_dir`.
pub fn cache_path_for_stem(app_dir: &str, stem: &str) -> (r: String)
    ensures
        r@ == join_spec(join_spec(app_dir@, "cache"@), stem@ + ".cache"@),
{
    let dir = get_cache_dir(app_dir);
    let name = concat(stem, ".cache");
    join_path(dir.as_str(), name.as_str())
}

/// The per-file cache of older versions for the fortune file `dat_path`,
/// in the cache directory of `app_dir`; a path without a stem gives the
/// name `.cache`.
pub fn get_cache_path(app_dir: &str, dat_path: &str) -> (r: String)
    ensures
        r@ == join_spec(join_spec(app_dir@, "cache"@), match stem_of(dat_path@) { Some(t) => t, None => Seq::<char>::empty() } + ".cache"@),
{
    match file_stem(dat_path) {
        Some(stem) => cache_path_for_stem(app_dir, stem.as_str()),
        None => {
            let r = cache_path_for_stem(app_dir, "");
            proof {
                reveal_strlit("");
            }
            r
        },
    }
}

} // verus!
