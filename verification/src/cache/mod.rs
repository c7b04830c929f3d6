//! What is written to cache files, and what they give back.

pub mod laws;
pub mod records;

use crate::session_log::scanner;
use crate::session_log::scanner::SavedEntry;
use crate::types;
use crate::types::{CachedManifestDirectory, CachedSessionSummary, DirectoryModel, EntryModel};
use vstd::prelude::*;

verus! {

/// A cache file as it was found.
pub enum CacheFile<T> {
    /// There is no file.
    Missing,
    /// There is a file that does not hold entries.
    Corrupt,
    /// The entries that the file holds.
    Entries(Vec<T>),
}

/// Entries from a cache, and whether the cache has to be written anew even if they stay the same.
#[derive(Debug, Clone, PartialEq, Eq)]
pub struct CacheLoad<T> {
    pub entries: T,
    pub needs_rewrite: bool,
}

/// Whether bytes are those that entries are saved as: the entries can be read back from them.
pub open spec fn saves_sessions(bytes: Seq<u8>, entries: Seq<EntryModel>) -> bool {
    &&& bytes == records::encoded_sessions(records::tuples_of_entries(entries))
    &&& records::sessions_in(bytes) == Some(entries)
}

/// The bytes that the sessions of a cache are saved as.
pub fn save_cache(entries: &[SavedEntry<'_>]) -> (bytes: Vec<u8>)
    ensures
        saves_sessions(bytes@, scanner::saved_models(entries@)),
{
    records::write_sessions(entries)
}

/// Whether this is what a cache file holds, given its bytes, where there is a file.
pub open spec fn is_session_file(
    file: CacheFile<CachedSessionSummary>,
    bytes: Option<Seq<u8>>,
) -> bool {
    match bytes {
        Some(bytes) => match records::sessions_in(bytes) {
            Some(models) => file matches CacheFile::Entries(entries) && types::entry_models(
                entries@,
            ) == models,
            None => file is Corrupt,
        },
        None => file is Missing,
    }
}

/// What a cache file holds, given its bytes, where there is a file.
pub fn session_file(bytes: Option<&[u8]>) -> (file: CacheFile<CachedSessionSummary>)
    ensures
        is_session_file(
            file,
            match bytes {
                Some(bytes) => Some(bytes@),
                None => None,
            },
        ),
{
    match bytes {
        Some(bytes) => match records::read_sessions(bytes) {
            Some(entries) => CacheFile::Entries(entries),
            None => CacheFile::Corrupt,
        },
        None => CacheFile::Missing,
    }
}

/// Whether bytes are those that directories are saved as: the directories can be read back from
/// them.
pub open spec fn saves_directories(bytes: Seq<u8>, directories: Seq<DirectoryModel>) -> bool {
    &&& bytes == records::encoded_directories(records::tuples_of_directories(directories))
    &&& records::directories_in(bytes) == Some(directories)
}

/// The bytes that a manifest is saved as.
pub fn save_manifest(entries: &[CachedManifestDirectory]) -> (bytes: Vec<u8>)
    ensures
        saves_directories(bytes@, types::directory_models(entries@)),
{
    records::write_directories(entries)
}

/// Whether this is what a manifest file holds, given its bytes, where there is a file.
pub open spec fn is_manifest_file(
    file: CacheFile<CachedManifestDirectory>,
    bytes: Option<Seq<u8>>,
) -> bool {
    match bytes {
        Some(bytes) => match records::directories_in(bytes) {
            Some(models) => file matches CacheFile::Entries(entries) && types::directory_models(
                entries@,
            ) == models,
            None => file is Corrupt,
        },
        None => file is Missing,
    }
}

/// What a manifest file holds, given its bytes, where there is a file.
pub fn manifest_file(bytes: Option<&[u8]>) -> (file: CacheFile<CachedManifestDirectory>)
    ensures
        is_manifest_file(
            file,
            match bytes {
                Some(bytes) => Some(bytes@),
                None => None,
            },
        ),
{
    match bytes {
        Some(bytes) => match records::read_directories(bytes) {
            Some(entries) => CacheFile::Entries(entries),
            None => CacheFile::Corrupt,
        },
        None => CacheFile::Missing,
    }
}

/// The entries of a cache file: none where it is missing or corrupt.
pub open spec fn entries_in<T>(file: CacheFile<T>) -> Seq<T> {
    match file {
        CacheFile::Entries(entries) => entries@,
        _ => Seq::empty(),
    }
}

/// The entries of a cache file; a file that is missing or corrupt counts as empty.
fn entries_of<T>(file: CacheFile<T>) -> (entries: Vec<T>)
    ensures
        entries@ == entries_in(file),
{
    match file {
        CacheFile::Missing => Vec::new(),
        CacheFile::Corrupt => Vec::new(),
        CacheFile::Entries(entries) => entries,
    }
}

/// The sessions of a cache file, and whether the file has to be written anew: it is missing or
/// corrupt.
pub fn load_cache_state(file: CacheFile<CachedSessionSummary>) -> (load: CacheLoad<
    Vec<CachedSessionSummary>,
>)
    ensures
        load.entries@ == entries_in(file),
        load.needs_rewrite <==> !(file is Entries),
{
    let needs_rewrite = match &file {
        CacheFile::Entries(_) => false,
        _ => true,
    };
    CacheLoad { entries: entries_of(file), needs_rewrite }
}

/// The sessions of a cache file; one that is missing or corrupt counts as empty.
pub fn load_cache(file: CacheFile<CachedSessionSummary>) -> (entries: Vec<CachedSessionSummary>)
    ensures
        entries@ == entries_in(file),
{
    load_cache_state(file).entries
}

/// The directories of a manifest file; one that is missing or corrupt counts as empty.
pub fn load_manifest(file: CacheFile<CachedManifestDirectory>) -> (entries: Vec<
    CachedManifestDirectory,
>)
    ensures
        entries@ == entries_in(file),
{
    entries_of(file)
}

/// What is loaded from a cache is what was saved: the same entries in the same order.
pub proof fn lemma_load_gives_back_what_was_saved(
    bytes: Seq<u8>,
    saved: Seq<EntryModel>,
    file: CacheFile<CachedSessionSummary>,
)
    requires
        saves_sessions(bytes, saved),
        is_session_file(file, Some(bytes)),
    ensures
        file is Entries,
        types::entry_models(entries_in(file)) == saved,
{
}

/// A cache file that is missing, or whose bytes hold no entries, gives none.
pub proof fn lemma_unreadable_cache_is_empty(
    bytes: Option<Seq<u8>>,
    file: CacheFile<CachedSessionSummary>,
)
    requires
        bytes matches Some(bytes) ==> records::sessions_in(bytes) is None,
        is_session_file(file, bytes),
    ensures
        !(file is Entries),
        entries_in(file) == Seq::<CachedSessionSummary>::empty(),
{
}

/// What is loaded from a manifest is what was saved: the same directories in the same order.
pub proof fn lemma_load_gives_back_the_manifest(
    bytes: Seq<u8>,
    saved: Seq<DirectoryModel>,
    file: CacheFile<CachedManifestDirectory>,
)
    requires
        saves_directories(bytes, saved),
        is_manifest_file(file, Some(bytes)),
    ensures
        types::directory_models(entries_in(file)) == saved,
{
}

} // verus!
