//! Creating a project from a template: where the template archive is
//! downloaded from, how it is read, and which directories and files its entries
//! become under the target directory.
use vstd::prelude::*;
use crate::paths::{join_path, path_join};
use crate::text::{chars_of, chars_skip, chars_starts_with, extend_str, is_prefix, string_of};

verus! {

/// The repository of a template: `<template>-template`.
pub open spec fn template_repo_name(template: Seq<char>) -> Seq<char> {
    template + "-template"@
}

/// The repository holding template `template`.
pub fn repo_name(template: &str) -> (r: String)
    ensures
        r@ == template_repo_name(template@),
{
    let mut v = chars_of(template);
    extend_str(&mut v, "-template");
    string_of(v.as_slice())
}

/// The archive of the main branch of a repository of the `trysoma` organisation.
pub open spec fn template_zip_url(repo: Seq<char>) -> Seq<char> {
    "https://github.com/trysoma/"@ + repo + "/archive/refs/heads/main.zip"@
}

/// The download address of a template repository's archive.
pub fn zip_url(repo: &str) -> (r: String)
    ensures
        r@ == template_zip_url(repo@),
{
    let mut v = chars_of("https://github.com/trysoma/");
    extend_str(&mut v, repo);
    extend_str(&mut v, "/archive/refs/heads/main.zip");
    string_of(v.as_slice())
}

/// The directory at the root of a branch archive: `<repo>-main/`.
pub open spec fn archive_root_prefix(repo: Seq<char>) -> Seq<char> {
    repo + "-main/"@
}

/// The root directory of a template archive.
pub fn root_prefix(repo: &str) -> (r: String)
    ensures
        r@ == archive_root_prefix(repo@),
{
    let mut v = chars_of(repo);
    extend_str(&mut v, "-main/");
    string_of(v.as_slice())
}

/// Where an archive entry goes: entries outside the root directory, and the root
/// directory itself, are skipped; others go to their path below the root, under
/// the target directory.
pub open spec fn entry_target(entry: Seq<char>, prefix: Seq<char>, target_dir: Seq<char>) -> Option<
    Seq<char>,
> {
    if !is_prefix(prefix, entry) || entry.len() == prefix.len() {
        None
    } else {
        Some(path_join(target_dir, entry.skip(prefix.len() as int)))
    }
}

/// The extraction path of an archive entry, if it is extracted.
pub fn archive_entry_target(entry: &str, prefix: &str, target_dir: &str) -> (r: Option<String>)
    ensures
        match entry_target(entry@, prefix@, target_dir@) {
            Some(t) => r matches Some(s) && s@ == t,
            None => r is None,
        },
{
    let e = chars_of(entry);
    let p = chars_of(prefix);
    if !chars_starts_with(e.as_slice(), p.as_slice()) || e.len() == p.len() {
        return None;
    }
    let rel = string_of(chars_skip(e.as_slice(), p.len()).as_slice());
    Some(join_path(target_dir, rel.as_str()))
}

/// An entry of a zip archive as read: its name, whether it is a directory, its
/// contents (`None` where they could not be read) and its Unix mode, if recorded.
pub struct ZipEntry {
    pub name: String,
    pub is_dir: bool,
    pub contents: Option<Vec<u8>>,
    pub unix_mode: Option<u32>,
}

/// An archive entry as plain values.
pub type ZipEntryView = (Seq<char>, bool, Option<Seq<u8>>, Option<u32>);

pub open spec fn zip_entry_view(e: ZipEntry) -> ZipEntryView {
    (
        e.name@,
        e.is_dir,
        match e.contents {
            Some(c) => Some(c@),
            None => None,
        },
        e.unix_mode,
    )
}

pub open spec fn zip_entries_view(v: Seq<ZipEntry>) -> Seq<ZipEntryView> {
    v.map_values(|e: ZipEntry| zip_entry_view(e))
}

/// What the `zip` crate reads from the archive `bytes`: its entries in archive
/// order, or `None` where the archive, an entry or an entry's name cannot be read.
pub uninterp spec fn zip_entries_of(bytes: Seq<u8>) -> Option<Seq<ZipEntryView>>;

/// Opens `bytes` with `zip::ZipArchive::new` and reads each entry with `by_index`:
/// its name (`name`), `is_dir`, its contents (`Read::read_to_end`) and
/// `unix_mode`. The result is named by `zip_entries_of`; the zip format itself is
/// not restated here.
#[verifier::external_body]
fn read_zip_entries(bytes: &[u8]) -> (r: Option<Vec<ZipEntry>>)
    ensures
        zip_entries_of(bytes@) == match r {
            Some(v) => Some(zip_entries_view(v@)),
            None => None,
        },
{
    let mut archive = zip::ZipArchive::new(std::io::Cursor::new(bytes)).ok()?;
    let mut entries = Vec::new();
    for i in 0..archive.len() {
        let mut file = archive.by_index(i).ok()?;
        let name = file.name().ok()?.to_string();
        let mut buf = Vec::new();
        let contents = std::io::Read::read_to_end(&mut file, &mut buf).ok().map(|_| buf);
        entries.push(ZipEntry { name, is_dir: file.is_dir(), contents, unix_mode: file.unix_mode() });
    }
    Some(entries)
}

/// What unpacking a template creates: a directory, or a file with its contents
/// and its Unix mode.
pub enum TemplateFile {
    Dir { path: String },
    File { path: String, contents: Vec<u8>, unix_mode: Option<u32> },
}

/// A created item as plain values: whether it is a directory, its path, its
/// contents (empty for a directory) and its mode.
pub type TemplateFileView = (bool, Seq<char>, Seq<u8>, Option<u32>);

pub open spec fn template_file_view(f: TemplateFile) -> TemplateFileView {
    match f {
        TemplateFile::Dir { path } => (true, path@, seq![], None),
        TemplateFile::File { path, contents, unix_mode } => (false, path@, contents@, unix_mode),
    }
}

pub open spec fn template_files_view(v: Seq<TemplateFile>) -> Seq<TemplateFileView> {
    v.map_values(|f: TemplateFile| template_file_view(f))
}

/// Why a template could not be unpacked.
#[derive(Debug)]
pub enum TemplateError {
    /// The downloaded bytes are not a readable zip archive.
    ArchiveUnreadable,
    /// The contents of the file that would be written at this path cannot be read.
    EntryUnreadable(String),
}

/// What the entries `es` become, in archive order: entries outside the root
/// directory `prefix` (and the root itself) are skipped, directories are created
/// and files written under `target_dir`; the first extracted file whose contents
/// cannot be read stops the unpacking with its path.
pub open spec fn planned_files(es: Seq<ZipEntryView>, prefix: Seq<char>, target_dir: Seq<char>) -> Result<
    Seq<TemplateFileView>,
    Seq<char>,
>
    decreases es.len(),
{
    if es.len() == 0 {
        Ok(seq![])
    } else {
        let e = es.last();
        match planned_files(es.drop_last(), prefix, target_dir) {
            Err(p) => Err(p),
            Ok(fs) => match entry_target(e.0, prefix, target_dir) {
                None => Ok(fs),
                Some(p) => if e.1 {
                    Ok(fs.push((true, p, seq![], None)))
                } else {
                    match e.2 {
                        Some(c) => Ok(fs.push((false, p, c, e.3))),
                        None => Err(p),
                    }
                },
            },
        }
    }
}

fn copy_bytes(s: &[u8]) -> (r: Vec<u8>)
    ensures
        r@ == s@,
{
    let mut r: Vec<u8> = Vec::new();
    let mut i: usize = 0;
    while i < s.len()
        invariant
            i <= s@.len(),
            r@ == s@.take(i as int),
        decreases s@.len() - i,
    {
        r.push(s[i]);
        i = i + 1;
        assert(r@ =~= s@.take(i as int));
    }
    assert(s@.take(i as int) =~= s@);
    r
}

/// The directories and files that the archive entries `entries` become under
/// `target_dir`, given the archive's root directory `prefix`.
pub fn plan_template_files(entries: &Vec<ZipEntry>, prefix: &str, target_dir: &str) -> (r: Result<
    Vec<TemplateFile>,
    TemplateError,
>)
    ensures
        match planned_files(zip_entries_view(entries@), prefix@, target_dir@) {
            Ok(fs) => r matches Ok(v) && template_files_view(v@) == fs,
            Err(p) => r matches Err(TemplateError::EntryUnreadable(q)) && q@ == p,
        },
{
    let ghost es = zip_entries_view(entries@);
    let mut out: Vec<TemplateFile> = Vec::new();
    let mut i: usize = 0;
    assert(es.take(0) =~= Seq::<ZipEntryView>::empty());
    assert(template_files_view(out@) =~= Seq::<TemplateFileView>::empty());
    while i < entries.len()
        invariant
            i <= entries@.len(),
            es == zip_entries_view(entries@),
            planned_files(es.take(i as int), prefix@, target_dir@) == Ok::<
                Seq<TemplateFileView>,
                Seq<char>,
            >(template_files_view(out@)),
        decreases entries@.len() - i,
    {
        let e = &entries[i];
        assert(es.take(i + 1).drop_last() =~= es.take(i as int));
        assert(es.take(i + 1).last() == zip_entry_view(*e));
        let t = archive_entry_target(e.name.as_str(), prefix, target_dir);
        match t {
            None => {},
            Some(path) => {
                if e.is_dir {
                    let ghost before = out@;
                    out.push(TemplateFile::Dir { path });
                    assert(template_files_view(out@) =~= template_files_view(before).push(
                        template_file_view(out@.last()),
                    ));
                } else {
                    match &e.contents {
                        Some(c) => {
                            let bytes = copy_bytes(c.as_slice());
                            let ghost before = out@;
                            out.push(TemplateFile::File { path, contents: bytes, unix_mode: e.unix_mode });
                            assert(template_files_view(out@) =~= template_files_view(before).push(
                                template_file_view(out@.last()),
                            ));
                        },
                        None => {
                            proof {
                                lemma_planned_files_error_stays(es, i as int + 1, prefix@, target_dir@);
                            }
                            return Err(TemplateError::EntryUnreadable(path));
                        },
                    }
                }
            },
        }
        i = i + 1;
    }
    assert(es.take(i as int) =~= es);
    Ok(out)
}

/// Once unpacking stops at an entry, it stops there whatever entries follow.
proof fn lemma_planned_files_error_stays(es: Seq<ZipEntryView>, k: int, prefix: Seq<char>, target_dir: Seq<char>)
    requires
        0 <= k <= es.len(),
        planned_files(es.take(k), prefix, target_dir) is Err,
    ensures
        planned_files(es, prefix, target_dir) == planned_files(es.take(k), prefix, target_dir),
    decreases es.len() - k,
{
    if k < es.len() {
        assert(es.take(k + 1).drop_last() =~= es.take(k));
        lemma_planned_files_error_stays(es, k + 1, prefix, target_dir);
    } else {
        assert(es.take(k) =~= es);
    }
}

/// Unpacks the archive of template `template` into `target_dir`: what the
/// downloaded `zip_bytes` become, read with the `zip` crate, with the archive's
/// root directory `<template>-template-main/` stripped.
pub fn template_files(zip_bytes: &[u8], template: &str, target_dir: &str) -> (r: Result<
    Vec<TemplateFile>,
    TemplateError,
>)
    ensures
        match zip_entries_of(zip_bytes@) {
            None => r matches Err(TemplateError::ArchiveUnreadable),
            Some(es) => match planned_files(
                es,
                archive_root_prefix(template_repo_name(template@)),
                target_dir@,
            ) {
                Ok(fs) => r matches Ok(v) && template_files_view(v@) == fs,
                Err(p) => r matches Err(TemplateError::EntryUnreadable(q)) && q@ == p,
            },
        },
{
    let repo = repo_name(template);
    let prefix = root_prefix(repo.as_str());
    match read_zip_entries(zip_bytes) {
        None => Err(TemplateError::ArchiveUnreadable),
        Some(entries) => plan_template_files(&entries, prefix.as_str(), target_dir),
    }
}

/// The entry is unpacked: it lies below the archive's root directory.
pub open spec fn is_unpacked(e: ZipEntryView, prefix: Seq<char>, target_dir: Seq<char>) -> bool {
    entry_target(e.0, prefix, target_dir) is Some
}

/// The entry would be written as a file, but its contents cannot be read.
pub open spec fn is_unreadable_file(e: ZipEntryView, prefix: Seq<char>, target_dir: Seq<char>) -> bool {
    is_unpacked(e, prefix, target_dir) && !e.1 && e.2 is None
}

/// What an unpacked entry becomes: a directory at its target path, or a file
/// there with the entry's contents and mode.
pub open spec fn created_item(e: ZipEntryView, prefix: Seq<char>, target_dir: Seq<char>) -> TemplateFileView {
    let p = entry_target(e.0, prefix, target_dir)->0;
    if e.1 {
        (true, p, seq![], None)
    } else {
        (false, p, e.2->0, e.3)
    }
}

/// Unpacking succeeds exactly when no entry to be written as a file is
/// unreadable; it then creates, in archive order, one item per entry below the
/// root directory, and nothing for the others; otherwise it stops at the path of
/// the first unreadable file.
pub proof fn law_unpacking_creates_the_entries_below_the_root(
    es: Seq<ZipEntryView>,
    prefix: Seq<char>,
    target_dir: Seq<char>,
)
    ensures
        planned_files(es, prefix, target_dir) is Ok <==> !(exists|i: int|
            0 <= i < es.len() && #[trigger] is_unreadable_file(es[i], prefix, target_dir)),
        planned_files(es, prefix, target_dir) matches Ok(fs) ==> fs == es.filter(
            |e: ZipEntryView| is_unpacked(e, prefix, target_dir),
        ).map_values(|e: ZipEntryView| created_item(e, prefix, target_dir)),
        planned_files(es, prefix, target_dir) matches Err(p) ==> exists|i: int|
            0 <= i < es.len() && #[trigger] is_unreadable_file(es[i], prefix, target_dir) && p == entry_target(
                es[i].0,
                prefix,
                target_dir,
            )->0 && forall|j: int| 0 <= j < i ==> !is_unreadable_file(#[trigger] es[j], prefix, target_dir),
    decreases es.len(),
{
    reveal(Seq::filter);
    let keep = |e: ZipEntryView| is_unpacked(e, prefix, target_dir);
    let mk = |e: ZipEntryView| created_item(e, prefix, target_dir);
    if es.len() == 0 {
        assert(es.filter(keep) =~= Seq::<ZipEntryView>::empty());
        assert(es.filter(keep).map_values(mk) =~= Seq::<TemplateFileView>::empty());
    } else {
        let d = es.drop_last();
        let e = es.last();
        let last = es.len() - 1;
        assert(es[last] == e);
        law_unpacking_creates_the_entries_below_the_root(d, prefix, target_dir);
        assert forall|i: int| 0 <= i < d.len() implies d[i] == es[i] by {}
        match planned_files(d, prefix, target_dir) {
            Err(p) => {
                let i = choose|i: int|
                    0 <= i < d.len() && #[trigger] is_unreadable_file(d[i], prefix, target_dir) && p
                        == entry_target(d[i].0, prefix, target_dir)->0 && forall|j: int|
                        0 <= j < i ==> !is_unreadable_file(#[trigger] d[j], prefix, target_dir);
                assert(is_unreadable_file(es[i], prefix, target_dir));
                assert forall|j: int| 0 <= j < i implies !is_unreadable_file(#[trigger] es[j], prefix, target_dir) by {
                    assert(d[j] == es[j]);
                }
            },
            Ok(fs) => {
                assert(!(exists|i: int| 0 <= i < d.len() && #[trigger] is_unreadable_file(d[i], prefix, target_dir)));
                assert forall|j: int| 0 <= j < last implies !is_unreadable_file(#[trigger] es[j], prefix, target_dir) by {
                    assert(d[j] == es[j]);
                    if is_unreadable_file(es[j], prefix, target_dir) {
                        assert(is_unreadable_file(d[j], prefix, target_dir));
                    }
                }
                if keep(e) {
                    assert(es.filter(keep) == d.filter(keep).push(e));
                    assert(es.filter(keep).map_values(mk) =~= d.filter(keep).map_values(mk).push(mk(e)));
                } else {
                    assert(es.filter(keep) == d.filter(keep));
                }
                if is_unreadable_file(e, prefix, target_dir) {
                    assert(is_unreadable_file(es[last], prefix, target_dir));
                } else {
                    assert forall|i: int| 0 <= i < es.len() implies !is_unreadable_file(#[trigger] es[i], prefix, target_dir) by {
                        if i < last {
                            assert(d[i] == es[i]);
                            if is_unreadable_file(es[i], prefix, target_dir) {
                                assert(is_unreadable_file(d[i], prefix, target_dir));
                            }
                        }
                    }
                }
            },
        }
    }
}

} // verus!
