//! Lists of session logs by day.

use crate::calendar::CivilDate;
use crate::ordering;
use crate::ordering::Ranked;
use crate::session_log::scanner;
use crate::text;
use crate::types::{CachedManifestDirectory, CachedManifestFile};
use vstd::prelude::*;

verus! {

/// The name of a cache without its ending, where it has none of its own.
pub const DEFAULT_STEM: &'static str = "session-cache";

/// What the name of a manifest adds to that of its cache.
pub const MANIFEST_SUFFIX: &'static str = "-manifest.bin";

/// The name of the manifest that belongs to a cache.
pub fn manifest_name(cache_stem: Option<&str>) -> (name: String)
    ensures
        name@ == (match cache_stem {
            Some(stem) => stem@,
            None => DEFAULT_STEM@,
        }) + MANIFEST_SUFFIX@,
{
    let mut name: String = match cache_stem {
        Some(stem) => stem.to_owned(),
        None => DEFAULT_STEM.to_owned(),
    };
    name.append(MANIFEST_SUFFIX);
    name
}

/// The path by which a directory is known, if it is one of the logs of a day.
pub fn day_directory(is_dir: bool, relative_dir: &str) -> (path: Option<String>)
    ensures
        path is Some <==> is_dir && scanner::path_date(text::slashed(relative_dir@)) is Some,
        path matches Some(path) ==> path@ == text::slashed(relative_dir@),
{
    if !is_dir {
        return None;
    }
    let path = text::slash_separated(relative_dir);
    if scanner::parse_date_from_relative_path(path.as_str()).is_none() {
        return None;
    }
    Some(path)
}

/// A directory of the logs of a day, and the place of its full path in the list of those that were
/// found.
#[derive(Debug, PartialEq, Eq)]
pub struct DirectoryCandidate {
    pub relative_dir: String,
    pub modified_unix_ms: i64,
    pub entry: usize,
}

/// Directories are ranked by their paths.
impl Ranked for DirectoryCandidate {
    open spec fn ranks_up_to(self, other: DirectoryCandidate) -> bool {
        !text::precedes(other.relative_dir@, self.relative_dir@)
    }

    fn is_up_to(&self, other: &DirectoryCandidate) -> (up_to: bool) {
        !text::text_precedes(other.relative_dir.as_str(), self.relative_dir.as_str())
    }

    proof fn ranks_total(a: DirectoryCandidate, b: DirectoryCandidate) {
        text::lemma_not_after_total(a.relative_dir@, b.relative_dir@);
    }

    proof fn ranks_transitive(a: DirectoryCandidate, b: DirectoryCandidate, c: DirectoryCandidate) {
        text::lemma_not_after_transitive(a.relative_dir@, b.relative_dir@, c.relative_dir@);
    }
}

/// The directories in the order of their paths.
pub fn sort_directories(directories: Vec<DirectoryCandidate>) -> (sorted: Vec<DirectoryCandidate>)
    ensures
        ordering::is_stable_sort(sorted@, directories@),
{
    ordering::sort_by_rank(directories)
}

/// Logs are ranked by their paths.
impl Ranked for CachedManifestFile {
    open spec fn ranks_up_to(self, other: CachedManifestFile) -> bool {
        !text::precedes(other.relative_path@, self.relative_path@)
    }

    fn is_up_to(&self, other: &CachedManifestFile) -> (up_to: bool) {
        !text::text_precedes(other.relative_path.as_str(), self.relative_path.as_str())
    }

    proof fn ranks_total(a: CachedManifestFile, b: CachedManifestFile) {
        text::lemma_not_after_total(a.relative_path@, b.relative_path@);
    }

    proof fn ranks_transitive(a: CachedManifestFile, b: CachedManifestFile, c: CachedManifestFile) {
        text::lemma_not_after_transitive(a.relative_path@, b.relative_path@, c.relative_path@);
    }
}

/// A directory with its logs, as a manifest lists them: in the order of their paths.
pub fn manifest_entry(directory: &DirectoryCandidate, files: Vec<CachedManifestFile>) -> (entry:
    CachedManifestDirectory)
    ensures
        entry.relative_dir@ == directory.relative_dir@,
        entry.modified_unix_ms == directory.modified_unix_ms,
        ordering::is_stable_sort(entry.files@, files@),
{
    CachedManifestDirectory {
        relative_dir: directory.relative_dir.clone(),
        modified_unix_ms: directory.modified_unix_ms,
        files: ordering::sort_by_rank(files),
    }
}

/// The logs of a list that may hold events of a window.
pub open spec fn files_in_window(
    files: Seq<CachedManifestFile>,
    since: Option<CivilDate>,
    until: Option<CivilDate>,
) -> Seq<CachedManifestFile> {
    files.filter(
        |file: CachedManifestFile| scanner::path_in_window(file.relative_path@, since, until),
    )
}

/// The logs of all directories, directory after directory.
pub open spec fn listed_files(directories: Seq<CachedManifestDirectory>) -> Seq<CachedManifestFile>
    decreases directories.len(),
{
    if directories.len() == 0 {
        Seq::empty()
    } else {
        listed_files(directories.drop_last()) + directories.last().files@
    }
}

proof fn lemma_filtered(files: Seq<CachedManifestFile>, file: CachedManifestFile,
    since: Option<CivilDate>, until: Option<CivilDate>)
    ensures
        files_in_window(files.push(file), since, until) == if scanner::path_in_window(
            file.relative_path@,
            since,
            until,
        ) {
            files_in_window(files, since, until).push(file)
        } else {
            files_in_window(files, since, until)
        },
{
    reveal(Seq::filter);
    assert(files.push(file).drop_last() =~= files);
}

/// The logs of a manifest that may hold events of a window, in the order of their paths.
pub fn manifest_files(
    directories: Vec<CachedManifestDirectory>,
    since: Option<CivilDate>,
    until: Option<CivilDate>,
) -> (files: Vec<CachedManifestFile>)
    requires
        scanner::window_wf(since, until),
    ensures
        ordering::is_stable_sort(
            files@,
            files_in_window(listed_files(directories@), since, until),
        ),
{
    let ghost all = directories@;
    let mut files: Vec<CachedManifestFile> = Vec::new();
    proof {
        reveal(Seq::filter);
        assert(files_in_window(listed_files(all.take(0)), since, until) =~= Seq::empty());
    }
    for directory in outer: directories
        invariant
            outer.seq() == all,
            scanner::window_wf(since, until),
            files@ == files_in_window(
                listed_files(all.take(outer.index() as int)),
                since,
                until,
            ),
    {
        let ghost done = listed_files(all.take(outer.index() as int));
        let ghost its = directory.files@;
        proof {
            let i = outer.index() as int;
            assert(all.take(i + 1).drop_last() =~= all.take(i));
            assert(done + its.take(0) =~= done);
        }
        for file in inner: directory.files
            invariant
                inner.seq() == its,
                scanner::window_wf(since, until),
                files@ == files_in_window(done + its.take(inner.index() as int), since, until),
        {
            proof {
                let j = inner.index() as int;
                lemma_filtered(done + its.take(j), file, since, until);
                assert((done + its.take(j)).push(file) =~= done + its.take(j + 1));
            }
            if scanner::file_matches_date_window(file.relative_path.as_str(), since, until) {
                files.push(file);
            }
        }
        proof {
            assert(its.take(its.len() as int) =~= its);
        }
    }
    proof {
        assert(all.take(all.len() as int) =~= all);
    }
    ordering::sort_by_rank(files)
}

} // verus!
