//! The workspace layout: where the profile, the rule data, the logs and the
//! TUN files live, relative to the workspace root. Paths are held as text
//! and combined with std's `Path` operations.
use vstd::prelude::*;

use crate::text::{copy_str, opt_view, views};

verus! {

/// What `Path::join` gives for a base path and a part, as text.
pub uninterp spec fn path_join(base: Seq<char>, part: Seq<char>) -> Seq<char>;

/// What `Path::parent` gives for a path, as text.
pub uninterp spec fn path_parent(p: Seq<char>) -> Option<Seq<char>>;

/// What `Path::is_absolute` says of a path.
pub uninterp spec fn path_is_absolute(p: Seq<char>) -> bool;

/// `Path::join`, the result as text. Claimed: the result is `path_join` of
/// the two texts, and an absolute part replaces the base, as the
/// documentation of `PathBuf::push` states.
#[verifier::external_body]
pub(crate) fn join(base: &str, part: &str) -> (r: String)
    ensures
        r@ == path_join(base@, part@),
        path_is_absolute(part@) ==> r@ == part@,
{
    std::path::Path::new(base).join(part).to_string_lossy().into_owned()
}

/// `Path::parent`, the result as text. Claimed: the result is
/// `path_parent` of the text.
#[verifier::external_body]
fn parent(p: &str) -> (r: Option<String>)
    ensures
        opt_view(r) == path_parent(p@),
{
    match std::path::Path::new(p).parent() {
        Some(q) => Some(q.to_string_lossy().into_owned()),
        None => None,
    }
}

/// What `Path::file_stem` gives for a path, as text.
pub uninterp spec fn path_file_stem(p: Seq<char>) -> Option<Seq<char>>;

/// `Path::file_stem`, the result as text. Claimed: the result is
/// `path_file_stem` of the text.
#[verifier::external_body]
fn file_stem(p: &str) -> (r: Option<String>)
    ensures
        opt_view(r) == path_file_stem(p@),
{
    match std::path::Path::new(p).file_stem() {
        Some(q) => Some(q.to_string_lossy().into_owned()),
        None => None,
    }
}

/// `Path::is_absolute`. Claimed: the result is `path_is_absolute` of the
/// text.
#[verifier::external_body]
pub(crate) fn is_absolute(p: &str) -> (r: bool)
    ensures
        r == path_is_absolute(p@),
{
    std::path::Path::new(p).is_absolute()
}

/// The workspace root: two levels above the directory of the crate's
/// manifest, or that directory itself when it has no such ancestor.
pub open spec fn spec_workspace_root(manifest_dir: Seq<char>) -> Seq<char> {
    match path_parent(manifest_dir) {
        Some(p) => match path_parent(p) {
            Some(g) => g,
            None => manifest_dir,
        },
        None => manifest_dir,
    }
}

/// The data directory of the workspace.
pub open spec fn spec_data_dir(manifest_dir: Seq<char>) -> Seq<char> {
    path_join(spec_workspace_root(manifest_dir), "data"@)
}

/// A file of the data directory.
pub open spec fn data_file(manifest_dir: Seq<char>, name: Seq<char>) -> Seq<char> {
    path_join(spec_data_dir(manifest_dir), name)
}

/// The workspace root, for a crate whose manifest lies in `manifest_dir`.
pub fn workspace_root(manifest_dir: &str) -> (r: String)
    ensures
        r@ == spec_workspace_root(manifest_dir@),
{
    match parent(manifest_dir) {
        Some(p) => match parent(p.as_str()) {
            Some(g) => g,
            None => copy_str(manifest_dir),
        },
        None => copy_str(manifest_dir),
    }
}

/// The `data` directory under the workspace root.
pub fn data_dir(manifest_dir: &str) -> (r: String)
    ensures
        r@ == spec_data_dir(manifest_dir@),
{
    let root = workspace_root(manifest_dir);
    join(root.as_str(), "data")
}

/// A path as given when it is absolute, else under the workspace root.
pub fn resolve_workspace_path(manifest_dir: &str, path: &str) -> (r: String)
    ensures
        r@ == if path_is_absolute(path@) {
            path@
        } else {
            path_join(spec_workspace_root(manifest_dir@), path@)
        },
{
    if is_absolute(path) {
        copy_str(path)
    } else {
        let root = workspace_root(manifest_dir);
        join(root.as_str(), path)
    }
}

/// `resolve_workspace_path` for a path given as text.
pub fn resolve_workspace_str(manifest_dir: &str, path: &str) -> (r: String)
    ensures
        r@ == if path_is_absolute(path@) {
            path@
        } else {
            path_join(spec_workspace_root(manifest_dir@), path@)
        },
{
    resolve_workspace_path(manifest_dir, path)
}

fn data_path(manifest_dir: &str, name: &str) -> (r: String)
    ensures
        r@ == data_file(manifest_dir@, name@),
{
    let dir = data_dir(manifest_dir);
    join(dir.as_str(), name)
}

/// The profile: `data/config.yaml`.
pub fn default_config_path(manifest_dir: &str) -> (r: String)
    ensures
        r@ == data_file(manifest_dir@, "config.yaml"@),
{
    data_path(manifest_dir, "config.yaml")
}

/// The GeoIP data: `data/geoip-apnic.raw`.
pub fn default_geoip_path(manifest_dir: &str) -> (r: String)
    ensures
        r@ == data_file(manifest_dir@, "geoip-apnic.raw"@),
{
    data_path(manifest_dir, "geoip-apnic.raw")
}

/// The GeoSite data: `data/geosite`.
pub fn default_geosite_dir(manifest_dir: &str) -> (r: String)
    ensures
        r@ == data_file(manifest_dir@, "geosite"@),
{
    data_path(manifest_dir, "geosite")
}

/// The log of the command-line tool: `data/titan.log`.
pub fn default_cli_log_path(manifest_dir: &str) -> (r: String)
    ensures
        r@ == data_file(manifest_dir@, "titan.log"@),
{
    data_path(manifest_dir, "titan.log")
}

/// The log of the desktop application: `data/desktop.log`.
pub fn default_desktop_log_path(manifest_dir: &str) -> (r: String)
    ensures
        r@ == data_file(manifest_dir@, "desktop.log"@),
{
    data_path(manifest_dir, "desktop.log")
}

/// The TUN settings: `data/tun.yaml`.
pub fn default_tun_config_path(manifest_dir: &str) -> (r: String)
    ensures
        r@ == data_file(manifest_dir@, "tun.yaml"@),
{
    data_path(manifest_dir, "tun.yaml")
}

/// The state of a running TUN device: `data/tun-state.yaml`.
pub fn default_tun_state_path(manifest_dir: &str) -> (r: String)
    ensures
        r@ == data_file(manifest_dir@, "tun-state.yaml"@),
{
    data_path(manifest_dir, "tun-state.yaml")
}

/// A path as it is shown to the user: its text.
pub fn display_path(path: &str) -> (r: String)
    ensures
        r@ == path@,
{
    copy_str(path)
}

/// The log files that the `logs` command looks at: the command-line tool's,
/// then the desktop application's.
pub fn candidate_log_paths(manifest_dir: &str) -> (r: Vec<String>)
    ensures
        views(r@) == seq![data_file(manifest_dir@, "titan.log"@), data_file(manifest_dir@, "desktop.log"@)],
{
    let mut r: Vec<String> = Vec::new();
    r.push(default_cli_log_path(manifest_dir));
    r.push(default_desktop_log_path(manifest_dir));
    assert(views(r@) =~= seq![data_file(manifest_dir@, "titan.log"@), data_file(manifest_dir@, "desktop.log"@)]);
    r
}

/// A path resolved under the workspace root, as `resolve_workspace_str`
/// gives it.
pub open spec fn spec_resolved(manifest_dir: Seq<char>, path: Seq<char>) -> Seq<char> {
    if path_is_absolute(path) {
        path
    } else {
        path_join(spec_workspace_root(manifest_dir), path)
    }
}

/// The TUN settings to use: the given path resolved, else
/// `data/tun.yaml`.
pub fn resolve_config_path(manifest_dir: &str, path: Option<&str>) -> (r: String)
    ensures
        r@ == match path {
            Some(p) => spec_resolved(manifest_dir@, p@),
            None => data_file(manifest_dir@, "tun.yaml"@),
        },
{
    match path {
        Some(p) => resolve_workspace_str(manifest_dir, p),
        None => default_tun_config_path(manifest_dir),
    }
}

/// The TUN state file to use: the given path resolved, else
/// `data/tun-state.yaml`.
pub fn resolve_state_path(manifest_dir: &str, path: Option<&str>) -> (r: String)
    ensures
        r@ == match path {
            Some(p) => spec_resolved(manifest_dir@, p@),
            None => data_file(manifest_dir@, "tun-state.yaml"@),
        },
{
    match path {
        Some(p) => resolve_workspace_str(manifest_dir, p),
        None => default_tun_state_path(manifest_dir),
    }
}

/// The profile that TUN commands relay through: `data/config.yaml`
/// resolved under the workspace root.
pub fn default_proxy_config_path(manifest_dir: &str) -> (r: String)
    ensures
        r@ == spec_resolved(manifest_dir@, "data/config.yaml"@),
{
    resolve_workspace_str(manifest_dir, "data/config.yaml")
}

/// Where the subscription metadata of a profile is kept: beside the
/// profile, named after its stem, or `subscription.subscription.yaml` when
/// the profile's path has no parent or no stem.
pub open spec fn spec_metadata_path(config_path: Seq<char>) -> Seq<char> {
    match (path_parent(config_path), path_file_stem(config_path)) {
        (Some(dir), Some(stem)) => path_join(dir, stem + ".subscription.yaml"@),
        _ => "subscription.subscription.yaml"@,
    }
}

/// The path of the subscription metadata of the profile at `config_path`.
pub fn subscription_metadata_path(config_path: &str) -> (r: String)
    ensures
        r@ == spec_metadata_path(config_path@),
{
    match (parent(config_path), file_stem(config_path)) {
        (Some(dir), Some(stem)) => {
            let mut name = stem;
            crate::text::push_str(&mut name, ".subscription.yaml");
            join(dir.as_str(), name.as_str())
        },
        _ => copy_str("subscription.subscription.yaml"),
    }
}

} // verus!
