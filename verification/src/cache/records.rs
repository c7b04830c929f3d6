//! How sessions and manifests are written to cache files and read back.

use crate::session_log::scanner;
use crate::session_log::scanner::SavedEntry;
use crate::types;
use crate::types::{
    CachedManifestDirectory, CachedManifestFile, CachedSessionSummary, DirectoryModel, EntryModel,
    EventModel, ManifestFileModel, SessionModel, SessionSummary, Usage, UsageEvent,
};
use vstd::prelude::*;

verus! {

/// An event as it is written: its instant, its model, whether the model was assumed, and the
/// counts of input, cached input, output, reasoning output and all tokens.
pub type EventRecord<'a> = (i64, &'a str, bool, (u64, u64, u64, u64, u64));

/// A cached session as it is written: the size of its log, the time of its change, and the
/// session's name, path, directory and events.
pub type SessionRecord<'a> = (
    u64,
    i64,
    (&'a str, &'a str, Option<&'a str>, Vec<EventRecord<'a>>),
);

/// What the record of an event tells.
pub type EventTuple = (i64, Seq<char>, bool, (u64, u64, u64, u64, u64));

/// What the record of a cached session tells.
pub type SessionTuple = (u64, i64, (Seq<char>, Seq<char>, Option<Seq<char>>, Seq<EventTuple>));

/// What the record of an event tells.
pub open spec fn event_tuple(record: EventRecord) -> EventTuple {
    let (unix_ms, model, is_fallback, counts) = record;
    (unix_ms, model@, is_fallback, counts)
}

/// What the record of a cached session tells.
pub open spec fn session_tuple(record: SessionRecord) -> SessionTuple {
    let (size, changed, (id, path, directory, events)) = record;
    let directory = match directory {
        Some(directory) => Some(directory@),
        None => None,
    };
    let events = events@.map_values(|event: EventRecord| event_tuple(event));
    (size, changed, (id@, path@, directory, events))
}

/// What the records of cached sessions tell.
pub open spec fn session_tuples(records: Seq<SessionRecord>) -> Seq<SessionTuple> {
    records.map_values(|record: SessionRecord| session_tuple(record))
}

/// The bytes that records of cached sessions are written as.
pub uninterp spec fn encoded_sessions(tuples: Seq<SessionTuple>) -> Seq<u8>;

/// The records of cached sessions that bytes hold, where lengths are numbers of the given bits.
pub uninterp spec fn decoded_sessions(bytes: Seq<u8>, length_bits: nat) -> Option<Seq<SessionTuple>>;

/// `bincode::serde::encode_to_vec` with the standard configuration: it writes records of numbers,
/// texts and lists into a vector without failing, as bytes that depend on the records alone, and
/// `bincode` reads the same records back from them.
#[verifier::external_body]
fn encode_sessions(records: &Vec<SessionRecord<'_>>) -> (bytes: Option<Vec<u8>>)
    ensures
        bytes matches Some(bytes) && bytes@ == encoded_sessions(session_tuples(records@))
            && decoded_sessions(bytes@, usize::BITS as nat) == Some(session_tuples(records@)),
{
    bincode::serde::encode_to_vec(records, bincode::config::standard()).ok()
}

/// `bincode::serde::borrow_decode_from_slice` with the standard configuration: the records that the
/// bytes start with, or nothing where they do not start with such records. Texts are borrowed from
/// the bytes, so one that is longer than the rest of them is an error. The length of a list is cut
/// to the width of `usize`, so what bytes hold rests on that width too.
#[verifier::external_body]
fn decode_sessions<'a>(bytes: &'a [u8]) -> (records: Option<Vec<SessionRecord<'a>>>)
    ensures
        records is Some <==> decoded_sessions(bytes@, usize::BITS as nat) is Some,
        records matches Some(records) ==> decoded_sessions(bytes@, usize::BITS as nat) == Some(
            session_tuples(records@),
        ),
{
    match bincode::serde::borrow_decode_from_slice(bytes, bincode::config::standard()) {
        Ok((records, _)) => Some(records),
        Err(_) => None,
    }
}

/// How an event is written.
pub open spec fn tuple_of_event(event: EventModel) -> EventTuple {
    let usage = event.usage;
    let counts = (
        usage.input_tokens,
        usage.cached_input_tokens,
        usage.output_tokens,
        usage.reasoning_output_tokens,
        usage.total_tokens,
    );
    (event.timestamp_unix_ms, event.model, event.is_fallback_model, counts)
}

/// How a cached session is written.
pub open spec fn tuple_of_entry(entry: EntryModel) -> SessionTuple {
    let session = entry.session;
    let events = session.events.map_values(|event: EventModel| tuple_of_event(event));
    (
        entry.file_size,
        entry.modified_unix_ms,
        (session.session_id, session.session_path, session.directory, events),
    )
}

/// How cached sessions are written.
pub open spec fn tuples_of_entries(entries: Seq<EntryModel>) -> Seq<SessionTuple> {
    entries.map_values(|entry: EntryModel| tuple_of_entry(entry))
}

/// The event that was written.
pub open spec fn event_of_tuple(tuple: EventTuple) -> EventModel {
    let (timestamp_unix_ms, model, is_fallback_model, counts) = tuple;
    let (input, cached_input, output, reasoning_output, total) = counts;
    EventModel {
        timestamp_unix_ms,
        model,
        is_fallback_model,
        usage: Usage {
            input_tokens: input,
            cached_input_tokens: cached_input,
            output_tokens: output,
            reasoning_output_tokens: reasoning_output,
            total_tokens: total,
        },
    }
}

/// The cached session that was written.
pub open spec fn entry_of_tuple(tuple: SessionTuple) -> EntryModel {
    let (file_size, modified_unix_ms, (session_id, session_path, directory, events)) = tuple;
    EntryModel {
        file_size,
        modified_unix_ms,
        session: SessionModel {
            session_id,
            session_path,
            directory,
            events: events.map_values(|event: EventTuple| event_of_tuple(event)),
        },
    }
}

/// The cached sessions that were written.
pub open spec fn entries_of_tuples(tuples: Seq<SessionTuple>) -> Seq<EntryModel> {
    tuples.map_values(|tuple: SessionTuple| entry_of_tuple(tuple))
}

/// The cached sessions that bytes hold, if they hold any.
pub open spec fn sessions_in(bytes: Seq<u8>) -> Option<Seq<EntryModel>> {
    match decoded_sessions(bytes, usize::BITS as nat) {
        Some(tuples) => Some(entries_of_tuples(tuples)),
        None => None,
    }
}

proof fn lemma_entries_come_back(entries: Seq<EntryModel>)
    ensures
        entries_of_tuples(tuples_of_entries(entries)) == entries,
{
    assert forall|i: int| 0 <= i < entries.len() implies #[trigger] entry_of_tuple(
        tuple_of_entry(entries[i]),
    ) == entries[i] by {
        let events = entries[i].session.events;
        let tuples = events.map_values(|event: EventModel| tuple_of_event(event));
        assert(tuples.map_values(|event: EventTuple| event_of_tuple(event)) =~= events);
    }
    assert(entries_of_tuples(tuples_of_entries(entries)) =~= entries);
}

fn event_record<'a>(event: &'a UsageEvent) -> (record: EventRecord<'a>)
    ensures
        event_tuple(record) == tuple_of_event(event@),
{
    let usage = &event.usage;
    (
        event.timestamp_unix_ms,
        event.model.as_str(),
        event.is_fallback_model,
        (
            usage.input_tokens,
            usage.cached_input_tokens,
            usage.output_tokens,
            usage.reasoning_output_tokens,
            usage.total_tokens,
        ),
    )
}

fn session_record<'a>(entry: &'a CachedSessionSummary) -> (record: SessionRecord<'a>)
    ensures
        session_tuple(record) == tuple_of_entry(entry@),
{
    let session = &entry.session;
    let mut events: Vec<EventRecord<'a>> = Vec::new();
    let mut i: usize = 0;
    while i < session.events.len()
        invariant
            session == entry.session,
            i <= session.events@.len(),
            events@.len() == i,
            forall|j: int|
                0 <= j < i ==> event_tuple(#[trigger] events@[j]) == tuple_of_event(
                    session.events@[j]@,
                ),
        decreases session.events@.len() - i,
    {
        events.push(event_record(&session.events[i]));
        i = i + 1;
    }
    let directory: Option<&'a str> = match &session.directory {
        Some(directory) => Some(directory.as_str()),
        None => None,
    };
    proof {
        assert(events@.map_values(|event: EventRecord| event_tuple(event))
            =~= session@.events.map_values(|event: EventModel| tuple_of_event(event)));
    }
    (
        entry.file_size,
        entry.modified_unix_ms,
        (session.session_id.as_str(), session.session_path.as_str(), directory, events),
    )
}

fn event_from(record: EventRecord<'_>) -> (event: UsageEvent)
    ensures
        event@ == event_of_tuple(event_tuple(record)),
{
    let (timestamp_unix_ms, model, is_fallback_model, counts) = record;
    let (input, cached_input, output, reasoning_output, total) = counts;
    UsageEvent {
        timestamp_unix_ms,
        model: model.to_owned(),
        is_fallback_model,
        usage: Usage {
            input_tokens: input,
            cached_input_tokens: cached_input,
            output_tokens: output,
            reasoning_output_tokens: reasoning_output,
            total_tokens: total,
        },
    }
}

fn entry_from(record: SessionRecord<'_>) -> (entry: CachedSessionSummary)
    ensures
        entry@ == entry_of_tuple(session_tuple(record)),
{
    let (file_size, modified_unix_ms, (session_id, session_path, place, records)) = record;
    let ghost all = records@;
    let mut events: Vec<UsageEvent> = Vec::new();
    for event in it: records
        invariant
            it.seq() == all,
            events@.len() == it.index(),
            forall|i: int|
                0 <= i < it.index() ==> (#[trigger] events@[i])@ == event_of_tuple(
                    event_tuple(all[i]),
                ),
    {
        events.push(event_from(event));
    }
    let directory: Option<String> = match place {
        Some(directory) => Some(directory.to_owned()),
        None => None,
    };
    let entry = CachedSessionSummary {
        file_size,
        modified_unix_ms,
        session: SessionSummary {
            session_id: session_id.to_owned(),
            session_path: session_path.to_owned(),
            directory,
            events,
        },
    };
    proof {
        let tuples = all.map_values(|event: EventRecord| event_tuple(event));
        assert(types::event_models(events@) =~= tuples.map_values(
            |event: EventTuple| event_of_tuple(event),
        ));
    }
    entry
}

/// The bytes that cached sessions are written as. The sessions can be read back from them.
pub(crate) fn write_sessions(entries: &[SavedEntry<'_>]) -> (bytes: Vec<u8>)
    ensures
        bytes@ == encoded_sessions(tuples_of_entries(scanner::saved_models(entries@))),
        sessions_in(bytes@) == Some(scanner::saved_models(entries@)),
{
    let ghost models = scanner::saved_models(entries@);
    let mut records: Vec<SessionRecord<'_>> = Vec::new();
    let mut i: usize = 0;
    while i < entries.len()
        invariant
            i <= entries@.len(),
            records@.len() == i,
            forall|j: int|
                0 <= j < i ==> session_tuple(#[trigger] records@[j]) == tuple_of_entry(
                    entries@[j].entry@,
                ),
        decreases entries@.len() - i,
    {
        records.push(session_record(entries[i].entry));
        i = i + 1;
    }
    proof {
        assert(session_tuples(records@) =~= tuples_of_entries(models));
        lemma_entries_come_back(models);
    }
    encode_sessions(&records).unwrap()
}

/// The cached sessions that bytes hold, if they hold any.
pub(crate) fn read_sessions(bytes: &[u8]) -> (entries: Option<Vec<CachedSessionSummary>>)
    ensures
        entries is Some <==> sessions_in(bytes@) is Some,
        entries matches Some(entries) ==> sessions_in(bytes@) == Some(
            types::entry_models(entries@),
        ),
{
    let records = match decode_sessions(bytes) {
        Some(records) => records,
        None => {
            return None;
        },
    };
    let ghost all = records@;
    let mut entries: Vec<CachedSessionSummary> = Vec::new();
    for record in it: records
        invariant
            it.seq() == all,
            entries@.len() == it.index(),
            forall|i: int|
                0 <= i < it.index() ==> (#[trigger] entries@[i])@ == entry_of_tuple(
                    session_tuple(all[i]),
                ),
    {
        entries.push(entry_from(record));
    }
    proof {
        assert(types::entry_models(entries@) =~= entries_of_tuples(session_tuples(all)));
    }
    Some(entries)
}

/// A log as it is written: its path, its size and the time of its change.
pub type FileRecord<'a> = (&'a str, u64, i64);

/// A directory as it is written: its path, the time of its change, and its logs.
pub type DirectoryRecord<'a> = (&'a str, i64, Vec<FileRecord<'a>>);

/// What the record of a log tells.
pub type FileTuple = (Seq<char>, u64, i64);

/// What the record of a directory tells.
pub type DirectoryTuple = (Seq<char>, i64, Seq<FileTuple>);

/// What the record of a log tells.
pub open spec fn file_tuple(record: FileRecord) -> FileTuple {
    let (path, size, changed) = record;
    (path@, size, changed)
}

/// What the record of a directory tells.
pub open spec fn directory_tuple(record: DirectoryRecord) -> DirectoryTuple {
    let (path, changed, files) = record;
    (path@, changed, files@.map_values(|file: FileRecord| file_tuple(file)))
}

/// What the records of directories tell.
pub open spec fn directory_tuples(records: Seq<DirectoryRecord>) -> Seq<DirectoryTuple> {
    records.map_values(|record: DirectoryRecord| directory_tuple(record))
}

/// The bytes that records of directories are written as.
pub uninterp spec fn encoded_directories(tuples: Seq<DirectoryTuple>) -> Seq<u8>;

/// The records of directories that bytes hold, where lengths are numbers of the given bits.
pub uninterp spec fn decoded_directories(bytes: Seq<u8>, length_bits: nat) -> Option<
    Seq<DirectoryTuple>,
>;

/// `bincode::serde::encode_to_vec` with the standard configuration: it writes records of numbers,
/// texts and lists into a vector without failing, as bytes that depend on the records alone, and
/// `bincode` reads the same records back from them.
#[verifier::external_body]
fn encode_directories(records: &Vec<DirectoryRecord<'_>>) -> (bytes: Option<Vec<u8>>)
    ensures
        bytes matches Some(bytes) && bytes@ == encoded_directories(directory_tuples(records@))
            && decoded_directories(bytes@, usize::BITS as nat) == Some(directory_tuples(records@)),
{
    bincode::serde::encode_to_vec(records, bincode::config::standard()).ok()
}

/// `bincode::serde::borrow_decode_from_slice` with the standard configuration: the records that the
/// bytes start with, or nothing where they do not start with such records. Texts are borrowed from
/// the bytes, so one that is longer than the rest of them is an error. The length of a list is cut
/// to the width of `usize`, so what bytes hold rests on that width too.
#[verifier::external_body]
fn decode_directories<'a>(bytes: &'a [u8]) -> (records: Option<Vec<DirectoryRecord<'a>>>)
    ensures
        records is Some <==> decoded_directories(bytes@, usize::BITS as nat) is Some,
        records matches Some(records) ==> decoded_directories(bytes@, usize::BITS as nat) == Some(
            directory_tuples(records@),
        ),
{
    match bincode::serde::borrow_decode_from_slice(bytes, bincode::config::standard()) {
        Ok((records, _)) => Some(records),
        Err(_) => None,
    }
}

/// How a log is written.
pub open spec fn tuple_of_file(file: ManifestFileModel) -> FileTuple {
    (file.relative_path, file.file_size, file.modified_unix_ms)
}

/// How a directory is written.
pub open spec fn tuple_of_directory(directory: DirectoryModel) -> DirectoryTuple {
    let files = directory.files.map_values(|file: ManifestFileModel| tuple_of_file(file));
    (directory.relative_dir, directory.modified_unix_ms, files)
}

/// How directories are written.
pub open spec fn tuples_of_directories(directories: Seq<DirectoryModel>) -> Seq<DirectoryTuple> {
    directories.map_values(|directory: DirectoryModel| tuple_of_directory(directory))
}

/// The log that was written.
pub open spec fn file_of_tuple(tuple: FileTuple) -> ManifestFileModel {
    let (relative_path, file_size, modified_unix_ms) = tuple;
    ManifestFileModel { relative_path, file_size, modified_unix_ms }
}

/// The directory that was written.
pub open spec fn directory_of_tuple(tuple: DirectoryTuple) -> DirectoryModel {
    let (relative_dir, modified_unix_ms, files) = tuple;
    DirectoryModel {
        relative_dir,
        modified_unix_ms,
        files: files.map_values(|file: FileTuple| file_of_tuple(file)),
    }
}

/// The directories that were written.
pub open spec fn directories_of_tuples(tuples: Seq<DirectoryTuple>) -> Seq<DirectoryModel> {
    tuples.map_values(|tuple: DirectoryTuple| directory_of_tuple(tuple))
}

/// The directories that bytes hold, if they hold any.
pub open spec fn directories_in(bytes: Seq<u8>) -> Option<Seq<DirectoryModel>> {
    match decoded_directories(bytes, usize::BITS as nat) {
        Some(tuples) => Some(directories_of_tuples(tuples)),
        None => None,
    }
}

proof fn lemma_directories_come_back(directories: Seq<DirectoryModel>)
    ensures
        directories_of_tuples(tuples_of_directories(directories)) == directories,
{
    assert forall|i: int| 0 <= i < directories.len() implies #[trigger] directory_of_tuple(
        tuple_of_directory(directories[i]),
    ) == directories[i] by {
        let files = directories[i].files;
        let tuples = files.map_values(|file: ManifestFileModel| tuple_of_file(file));
        assert(tuples.map_values(|file: FileTuple| file_of_tuple(file)) =~= files);
    }
    assert(directories_of_tuples(tuples_of_directories(directories)) =~= directories);
}

fn directory_record<'a>(directory: &'a CachedManifestDirectory) -> (record: DirectoryRecord<'a>)
    ensures
        directory_tuple(record) == tuple_of_directory(directory@),
{
    let mut files: Vec<FileRecord<'a>> = Vec::new();
    let mut i: usize = 0;
    while i < directory.files.len()
        invariant
            i <= directory.files@.len(),
            files@.len() == i,
            forall|j: int|
                0 <= j < i ==> file_tuple(#[trigger] files@[j]) == tuple_of_file(
                    directory.files@[j]@,
                ),
        decreases directory.files@.len() - i,
    {
        let file = &directory.files[i];
        files.push((file.relative_path.as_str(), file.file_size, file.modified_unix_ms));
        i = i + 1;
    }
    proof {
        assert(files@.map_values(|file: FileRecord| file_tuple(file))
            =~= directory@.files.map_values(|file: ManifestFileModel| tuple_of_file(file)));
    }
    (directory.relative_dir.as_str(), directory.modified_unix_ms, files)
}

fn directory_from(record: DirectoryRecord<'_>) -> (directory: CachedManifestDirectory)
    ensures
        directory@ == directory_of_tuple(directory_tuple(record)),
{
    let (relative_dir, modified_unix_ms, records) = record;
    let ghost all = records@;
    let mut files: Vec<CachedManifestFile> = Vec::new();
    for file in it: records
        invariant
            it.seq() == all,
            files@.len() == it.index(),
            forall|i: int|
                0 <= i < it.index() ==> (#[trigger] files@[i])@ == file_of_tuple(
                    file_tuple(all[i]),
                ),
    {
        let (relative_path, file_size, changed) = file;
        files.push(
            CachedManifestFile {
                relative_path: relative_path.to_owned(),
                file_size,
                modified_unix_ms: changed,
            },
        );
    }
    proof {
        let tuples = all.map_values(|file: FileRecord| file_tuple(file));
        assert(files@.map_values(|file: CachedManifestFile| file@) =~= tuples.map_values(
            |file: FileTuple| file_of_tuple(file),
        ));
    }
    CachedManifestDirectory { relative_dir: relative_dir.to_owned(), modified_unix_ms, files }
}

/// The bytes that directories are written as. The directories can be read back from them.
pub(crate) fn write_directories(directories: &[CachedManifestDirectory]) -> (bytes: Vec<u8>)
    ensures
        bytes@ == encoded_directories(
            tuples_of_directories(types::directory_models(directories@)),
        ),
        directories_in(bytes@) == Some(types::directory_models(directories@)),
{
    let ghost models = types::directory_models(directories@);
    let mut records: Vec<DirectoryRecord<'_>> = Vec::new();
    let mut i: usize = 0;
    while i < directories.len()
        invariant
            i <= directories@.len(),
            records@.len() == i,
            forall|j: int|
                0 <= j < i ==> directory_tuple(#[trigger] records@[j]) == tuple_of_directory(
                    directories@[j]@,
                ),
        decreases directories@.len() - i,
    {
        records.push(directory_record(&directories[i]));
        i = i + 1;
    }
    proof {
        assert(directory_tuples(records@) =~= tuples_of_directories(models));
        lemma_directories_come_back(models);
    }
    encode_directories(&records).unwrap()
}

/// The directories that bytes hold, if they hold any.
pub(crate) fn read_directories(bytes: &[u8]) -> (directories: Option<Vec<CachedManifestDirectory>>)
    ensures
        directories is Some <==> directories_in(bytes@) is Some,
        directories matches Some(directories) ==> directories_in(bytes@) == Some(
            types::directory_models(directories@),
        ),
{
    let records = match decode_directories(bytes) {
        Some(records) => records,
        None => {
            return None;
        },
    };
    let ghost all = records@;
    let mut directories: Vec<CachedManifestDirectory> = Vec::new();
    for record in it: records
        invariant
            it.seq() == all,
            directories@.len() == it.index(),
            forall|i: int|
                0 <= i < it.index() ==> (#[trigger] directories@[i])@ == directory_of_tuple(
                    directory_tuple(all[i]),
                ),
    {
        directories.push(directory_from(record));
    }
    proof {
        assert(types::directory_models(directories@) =~= directories_of_tuples(
            directory_tuples(all),
        ));
    }
    Some(directories)
}

} // verus!
