//! What is kept in the caches.

use crate::cache;
use crate::cache::records;
use crate::cache::records::{DirectoryTuple, EventTuple, SessionTuple};
use crate::cache::CacheFile;
use crate::session_log::scanner;
use crate::session_log::scanner::SavedEntry;
use crate::types;
use crate::types::{
    CachedManifestDirectory, CachedManifestFile, CachedSessionSummary, SessionSummary, UsageEvent,
};
use vstd::prelude::*;

verus! {

/// Whether two events are of the same instant, model and usage.
pub open spec fn same_event(a: UsageEvent, b: UsageEvent) -> bool {
    &&& a.timestamp_unix_ms == b.timestamp_unix_ms
    &&& a.model@ == b.model@
    &&& a.is_fallback_model == b.is_fallback_model
    &&& a.usage == b.usage
}

/// Whether two sessions have the same name, path, directory and events.
pub open spec fn same_session(a: SessionSummary, b: SessionSummary) -> bool {
    &&& a.session_id@ == b.session_id@
    &&& a.session_path@ == b.session_path@
    &&& a.directory is Some <==> b.directory is Some
    &&& a.directory matches Some(x) ==> (b.directory matches Some(y) && x@ == y@)
    &&& a.events@.len() == b.events@.len()
    &&& forall|n: int|
        0 <= n < a.events@.len() ==> same_event(#[trigger] a.events@[n], b.events@[n])
}

proof fn lemma_same_session(a: SessionSummary, b: SessionSummary)
    requires
        a@ == b@,
    ensures
        same_session(a, b),
{
    let (x, y) = (types::event_models(a.events@), types::event_models(b.events@));
    assert(x.len() == a.events@.len());
    assert(y.len() == b.events@.len());
    assert forall|n: int| 0 <= n < a.events@.len() implies same_event(
        #[trigger] a.events@[n],
        b.events@[n],
    ) by {
        assert(x[n] == a.events@[n]@);
        assert(y[n] == b.events@[n]@);
    }
}

/// What is loaded from the bytes that entries were saved as are the same entries in the same order,
/// each with its session and the size and the time of its log.
pub proof fn lemma_sessions_come_back<'a>(
    entries: &[SavedEntry<'a>],
    saved: Vec<u8>,
    bytes: &[u8],
    file: CacheFile<CachedSessionSummary>,
    loaded: Vec<CachedSessionSummary>,
)
    requires
        call_ensures(cache::save_cache, (entries,), saved),
        bytes@ == saved@,
        call_ensures(cache::session_file, (Some(bytes),), file),
        call_ensures(cache::load_cache, (file,), loaded),
    ensures
        file is Entries,
        loaded@.len() == entries@.len(),
        forall|i: int|
            0 <= i < entries@.len() ==> {
                let (was, is) = (entries@[i].entry, #[trigger] loaded@[i]);
                &&& is.file_size == was.file_size
                &&& is.modified_unix_ms == was.modified_unix_ms
                &&& same_session(is.session, was.session)
            },
{
    let models = scanner::saved_models(entries@);
    let read = types::entry_models(loaded@);
    assert(read == models);
    assert(models.len() == entries@.len());
    assert(read.len() == loaded@.len());
    assert forall|i: int| 0 <= i < entries@.len() implies {
        let (was, is) = (entries@[i].entry, #[trigger] loaded@[i]);
        &&& is.file_size == was.file_size
        &&& is.modified_unix_ms == was.modified_unix_ms
        &&& same_session(is.session, was.session)
    } by {
        assert(models[i] == entries@[i].entry@);
        assert(read[i] == loaded@[i]@);
        lemma_same_session(loaded@[i].session, entries@[i].entry.session);
    }
}

/// The fields of an event in the order in which they are saved.
pub open spec fn fields_of_event(event: UsageEvent) -> EventTuple {
    (
        event.timestamp_unix_ms,
        event.model@,
        event.is_fallback_model,
        (
            event.usage.input_tokens,
            event.usage.cached_input_tokens,
            event.usage.output_tokens,
            event.usage.reasoning_output_tokens,
            event.usage.total_tokens,
        ),
    )
}

/// The fields of an entry in the order in which they are saved.
pub open spec fn fields_of_entry(entry: CachedSessionSummary) -> SessionTuple {
    (
        entry.file_size,
        entry.modified_unix_ms,
        (
            entry.session.session_id@,
            entry.session.session_path@,
            match entry.session.directory {
                Some(directory) => Some(directory@),
                None => None,
            },
            entry.session.events@.map_values(|event: UsageEvent| fields_of_event(event)),
        ),
    )
}

proof fn lemma_fields_of_entry(entry: CachedSessionSummary)
    ensures
        fields_of_entry(entry) == records::tuple_of_entry(entry@),
{
    let events = entry.session.events@.map_values(|event: UsageEvent| fields_of_event(event));
    let (_, _, (_, _, _, others)) = records::tuple_of_entry(entry@);
    assert(events =~= others);
}

/// Sessions are saved field by field: the size and the time of the log, the name, the path, the
/// directory and the events of the session.
pub proof fn lemma_order_of_the_fields<'a>(entries: &[SavedEntry<'a>], bytes: Vec<u8>)
    requires
        call_ensures(cache::save_cache, (entries,), bytes),
    ensures
        bytes@ == records::encoded_sessions(
            entries@.map_values(|kept: SavedEntry<'a>| fields_of_entry(*kept.entry)),
        ),
{
    let fields = entries@.map_values(|kept: SavedEntry<'a>| fields_of_entry(*kept.entry));
    let tuples = records::tuples_of_entries(scanner::saved_models(entries@));
    assert forall|i: int| 0 <= i < fields.len() implies fields[i] == tuples[i] by {
        lemma_fields_of_entry(*entries@[i].entry);
    }
    assert(fields =~= tuples);
}

/// A file that is not there is missing; bytes that can be decoded give the entries of the fields, in
/// their order, and other bytes are corrupt.
pub proof fn lemma_files_of_sessions(
    bytes: &[u8],
    file: CacheFile<CachedSessionSummary>,
    none: CacheFile<CachedSessionSummary>,
)
    requires
        call_ensures(cache::session_file, (Some(bytes),), file),
        call_ensures(cache::session_file, (None,), none),
    ensures
        none is Missing,
        records::decoded_sessions(bytes@, usize::BITS as nat) is None ==> file is Corrupt,
        records::decoded_sessions(bytes@, usize::BITS as nat) matches Some(fields) ==> (
        file matches CacheFile::Entries(entries) && entries@.map_values(
            |entry: CachedSessionSummary| fields_of_entry(entry),
        ) == fields),
{
    if let Some(fields) = records::decoded_sessions(bytes@, usize::BITS as nat) {
        if let CacheFile::Entries(entries) = file {
            let read = entries@.map_values(|entry: CachedSessionSummary| fields_of_entry(entry));
            let models = types::entry_models(entries@);
            assert(models == records::entries_of_tuples(fields));
            assert(models.len() == fields.len());
            assert forall|i: int| 0 <= i < fields.len() implies read[i] == fields[i] by {
                assert(models[i] == entries@[i]@);
                lemma_fields_of_entry(entries@[i]);
                assert(entries@[i]@ == records::entry_of_tuple(fields[i]));
                let (_, _, (_, _, _, events)) = fields[i];
                let (_, _, (_, _, _, others)) = records::tuple_of_entry(
                    records::entry_of_tuple(fields[i]),
                );
                assert(events =~= others);
            }
            assert(read =~= fields);
        }
    }
}

/// Whether two files that a manifest lists have the same path, size and time.
pub open spec fn same_file(a: CachedManifestFile, b: CachedManifestFile) -> bool {
    a.relative_path@ == b.relative_path@ && a.file_size == b.file_size && a.modified_unix_ms
        == b.modified_unix_ms
}

/// What is loaded from the bytes that a manifest was saved as are the same directories in the same
/// order, each with its time and its files.
pub proof fn lemma_directories_come_back(
    directories: &[CachedManifestDirectory],
    saved: Vec<u8>,
    bytes: &[u8],
    file: CacheFile<CachedManifestDirectory>,
    loaded: Vec<CachedManifestDirectory>,
)
    requires
        call_ensures(cache::save_manifest, (directories,), saved),
        bytes@ == saved@,
        call_ensures(cache::manifest_file, (Some(bytes),), file),
        call_ensures(cache::load_manifest, (file,), loaded),
    ensures
        file is Entries,
        loaded@.len() == directories@.len(),
        forall|i: int|
            0 <= i < directories@.len() ==> {
                let (was, is) = (directories@[i], #[trigger] loaded@[i]);
                &&& is.relative_dir@ == was.relative_dir@
                &&& is.modified_unix_ms == was.modified_unix_ms
                &&& is.files@.len() == was.files@.len()
                &&& forall|n: int|
                    0 <= n < is.files@.len() ==> same_file(#[trigger] is.files@[n], was.files@[n])
            },
{
    let models = types::directory_models(directories@);
    let read = types::directory_models(loaded@);
    assert(read == models);
    assert(models.len() == directories@.len());
    assert(read.len() == loaded@.len());
    assert forall|i: int| 0 <= i < directories@.len() implies {
        let (was, is) = (directories@[i], #[trigger] loaded@[i]);
        &&& is.relative_dir@ == was.relative_dir@
        &&& is.modified_unix_ms == was.modified_unix_ms
        &&& is.files@.len() == was.files@.len()
        &&& forall|n: int|
            0 <= n < is.files@.len() ==> same_file(#[trigger] is.files@[n], was.files@[n])
    } by {
        let (was, is) = (directories@[i], loaded@[i]);
        assert(models[i] == was@);
        assert(read[i] == is@);
        assert(is@.files.len() == is.files@.len());
        assert(was@.files.len() == was.files@.len());
        assert forall|n: int| 0 <= n < is.files@.len() implies same_file(
            #[trigger] is.files@[n],
            was.files@[n],
        ) by {
            assert(is@.files[n] == is.files@[n]@);
            assert(was@.files[n] == was.files@[n]@);
        }
    }
}

/// The fields of a directory in the order in which they are saved.
pub open spec fn fields_of_directory(directory: CachedManifestDirectory) -> DirectoryTuple {
    (
        directory.relative_dir@,
        directory.modified_unix_ms,
        directory.files@.map_values(
            |file: CachedManifestFile|
                (file.relative_path@, file.file_size, file.modified_unix_ms),
        ),
    )
}

proof fn lemma_fields_of_directory(directory: CachedManifestDirectory)
    ensures
        fields_of_directory(directory) == records::tuple_of_directory(directory@),
{
    let (_, _, files) = fields_of_directory(directory);
    let (_, _, others) = records::tuple_of_directory(directory@);
    assert(files =~= others);
}

/// A manifest is saved field by field: the path, the time and the files of each directory.
pub proof fn lemma_order_of_the_fields_of_manifests(
    directories: &[CachedManifestDirectory],
    bytes: Vec<u8>,
)
    requires
        call_ensures(cache::save_manifest, (directories,), bytes),
    ensures
        bytes@ == records::encoded_directories(
            directories@.map_values(
                |directory: CachedManifestDirectory| fields_of_directory(directory),
            ),
        ),
{
    let fields = directories@.map_values(
        |directory: CachedManifestDirectory| fields_of_directory(directory),
    );
    let tuples = records::tuples_of_directories(types::directory_models(directories@));
    assert forall|i: int| 0 <= i < fields.len() implies fields[i] == tuples[i] by {
        lemma_fields_of_directory(directories@[i]);
    }
    assert(fields =~= tuples);
}

/// A manifest that is not there is missing; bytes that can be decoded give the directories of the
/// fields, in their order, and other bytes are corrupt. Of a manifest that is missing or corrupt
/// nothing is loaded.
pub proof fn lemma_files_of_manifests(
    bytes: &[u8],
    file: CacheFile<CachedManifestDirectory>,
    none: CacheFile<CachedManifestDirectory>,
    loaded: Vec<CachedManifestDirectory>,
)
    requires
        call_ensures(cache::manifest_file, (Some(bytes),), file),
        call_ensures(cache::manifest_file, (None,), none),
        call_ensures(cache::load_manifest, (file,), loaded),
    ensures
        none is Missing,
        file matches CacheFile::Entries(entries) ==> loaded@ == entries@,
        !(file is Entries) ==> loaded@.len() == 0,
        records::decoded_directories(bytes@, usize::BITS as nat) is None ==> file is Corrupt,
        records::decoded_directories(bytes@, usize::BITS as nat) matches Some(fields) ==> (
        file matches CacheFile::Entries(entries) && entries@.map_values(
            |directory: CachedManifestDirectory| fields_of_directory(directory),
        ) == fields),
{
    if let Some(fields) = records::decoded_directories(bytes@, usize::BITS as nat) {
        if let CacheFile::Entries(entries) = file {
            let read = entries@.map_values(
                |directory: CachedManifestDirectory| fields_of_directory(directory),
            );
            let models = types::directory_models(entries@);
            assert(models == records::directories_of_tuples(fields));
            assert(models.len() == fields.len());
            assert forall|i: int| 0 <= i < fields.len() implies read[i] == fields[i] by {
                assert(models[i] == entries@[i]@);
                lemma_fields_of_directory(entries@[i]);
                assert(entries@[i]@ == records::directory_of_tuple(fields[i]));
                let (_, _, files) = fields[i];
                let (_, _, others) = records::tuple_of_directory(
                    records::directory_of_tuple(fields[i]),
                );
                assert(files =~= others);
            }
            assert(read =~= fields);
        }
    }
}

} // verus!
