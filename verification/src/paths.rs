//! Unix paths as text: joining, resolving against a working directory, and the
//! places where Soma keeps its data.
use vstd::prelude::*;
use crate::error::SomaError;
use crate::text::{chars_of, extend_str, string_of};

verus! {

/// The path `base` with `part` pushed onto it, as `PathBuf::push` does on Unix: an
/// absolute `part` replaces `base`; otherwise a `/` goes between them unless
/// `base` is empty or already ends with one.
pub open spec fn path_join(base: Seq<char>, part: Seq<char>) -> Seq<char> {
    if part.len() > 0 && part[0] == '/' {
        part
    } else if base.len() == 0 || base.last() == '/' {
        base + part
    } else {
        base + seq!['/'] + part
    }
}

/// Joins `part` onto `base`.
pub fn join_path(base: &str, part: &str) -> (r: String)
    ensures
        r@ == path_join(base@, part@),
{
    let p = chars_of(part);
    if p.len() > 0 && p[0] == '/' {
        return string_of(p.as_slice());
    }
    let mut b = chars_of(base);
    if b.len() == 0 || b[b.len() - 1] == '/' {
        extend_str(&mut b, part);
    } else {
        b.push('/');
        extend_str(&mut b, part);
    }
    string_of(b.as_slice())
}

/// A Unix path is absolute when it starts with `/`.
pub open spec fn is_absolute(p: Seq<char>) -> bool {
    p.len() > 0 && p[0] == '/'
}

/// A key location as given on the command line, made absolute against the
/// current working directory `cwd` unless it already is.
pub open spec fn resolved_location(location: Seq<char>, cwd: Seq<char>) -> Seq<char> {
    if is_absolute(location) {
        location
    } else {
        path_join(cwd, location)
    }
}

/// Against an absolute working directory every location resolves to an
/// absolute path, and an absolute location stays as it is.
pub proof fn law_resolved_location_is_absolute(location: Seq<char>, cwd: Seq<char>)
    ensures
        is_absolute(cwd) ==> is_absolute(resolved_location(location, cwd)),
        is_absolute(location) ==> resolved_location(location, cwd) == location,
{
    if is_absolute(cwd) && !is_absolute(location) {
        let r = path_join(cwd, location);
        if cwd.last() == '/' {
            assert(r =~= cwd + location);
        } else {
            assert(r =~= cwd + seq!['/'] + location);
        }
        assert(r[0] == cwd[0]);
    }
}

/// Resolve a location to an absolute path: absolute paths stay as they are,
/// relative ones are taken relative to `cwd`.
pub fn resolve_location(location: &str, cwd: &str) -> (r: String)
    ensures
        r@ == resolved_location(location@, cwd@),
{
    let l = chars_of(location);
    if l.len() > 0 && l[0] == '/' {
        string_of(l.as_slice())
    } else {
        join_path(cwd, location)
    }
}

/// Where Soma keeps its data.
pub open spec fn soma_data_dir() -> Seq<char> {
    "/var/lib/soma"@
}

/// Get the directory where soma stores its data.
pub fn get_soma_data_dir() -> (r: Result<String, SomaError>)
    ensures
        r matches Ok(p) && p@ == soma_data_dir(),
{
    Ok(string_of(chars_of("/var/lib/soma").as_slice()))
}

/// Where the bundled `restate-server` binary is installed.
pub open spec fn restate_binary_path() -> Seq<char> {
    path_join(path_join(soma_data_dir(), "bin"@), "restate-server"@)
}

/// Get the path where the restate-server binary should be installed.
pub fn get_restate_binary_path() -> (r: Result<String, SomaError>)
    ensures
        r matches Ok(p) && p@ == restate_binary_path(),
{
    let soma_dir = match get_soma_data_dir() {
        Ok(d) => d,
        Err(e) => return Err(e),
    };
    let bin_dir = join_path(soma_dir.as_str(), "bin");
    Ok(join_path(bin_dir.as_str(), "restate-server"))
}

/// Where the `restate-server` program comes from.
#[derive(Debug, PartialEq, Eq)]
pub enum RestateBinarySource {
    /// `restate-server` on the system `PATH`.
    SystemPath,
    /// The bundled binary, already installed under the data directory.
    Installed,
    /// The bundled binary, to be installed now.
    InstallBundled,
    /// No binary can be had on this platform.
    Unavailable,
}

/// Decides where to take `restate-server` from, in order of preference: the
/// system `PATH`, an installed bundled binary, installing the bundled binary,
/// and otherwise nothing.
pub fn restate_binary_source(in_path: bool, installed: bool, bundled_available: bool) -> (r:
    RestateBinarySource)
    ensures
        in_path ==> r == RestateBinarySource::SystemPath,
        !in_path && installed ==> r == RestateBinarySource::Installed,
        !in_path && !installed && bundled_available ==> r == RestateBinarySource::InstallBundled,
        !in_path && !installed && !bundled_available ==> r == RestateBinarySource::Unavailable,
{
    if in_path {
        RestateBinarySource::SystemPath
    } else if installed {
        RestateBinarySource::Installed
    } else if bundled_available {
        RestateBinarySource::InstallBundled
    } else {
        RestateBinarySource::Unavailable
    }
}

} // verus!
