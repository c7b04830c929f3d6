//! What holds of every scan of session logs.

use crate::cache;
use crate::cache::{CacheFile, CacheLoad};
use crate::calendar;
use crate::calendar::CivilDate;
use crate::ordering;
use crate::report;
use crate::session_log::scanner;
use crate::session_log::scanner::{
    CandidateModel, FileCandidate, SavedEntry, ScanOptions, ScanPlan, SessionEntryPlan,
};
use crate::text;
use crate::text_map::TextMap;
use crate::types;
use crate::types::{CachedSessionSummary, EntryModel, SessionModel, SessionSummary};
use vstd::prelude::*;

verus! {

/// Whether no two logs have the same path.
pub open spec fn paths_differ(files: Seq<FileCandidate>) -> bool {
    forall|i: int, j: int|
        0 <= i < j < files.len() ==> (#[trigger] files[i]).relative_path@ != (
        #[trigger] files[j]).relative_path@
}

/// The cached session of a path is one of that path.
pub proof fn lemma_cached_path(entries: Seq<CachedSessionSummary>, path: Seq<char>)
    requires
        scanner::cached_by_path(entries).dom().contains(path),
    ensures
        scanner::cached_by_path(entries)[path].session.session_path@ == path,
        exists|i: int|
            0 <= i < entries.len() && entries[i] == scanner::cached_by_path(entries)[path],
    decreases entries.len(),
{
    let last = entries.len() - 1;
    if entries.last().session.session_path@ == path {
        assert(entries[last] == scanner::cached_by_path(entries)[path]);
    } else {
        let fewer = entries.drop_last();
        lemma_cached_path(fewer, path);
        let i = choose|i: int|
            0 <= i < fewer.len() && fewer[i] == scanner::cached_by_path(fewer)[path];
        assert(entries[i] == fewer[i]);
    }
}

/// Whether no two entries are of the same path.
pub open spec fn entries_differ(entries: Seq<CachedSessionSummary>) -> bool {
    forall|i: int, j: int|
        0 <= i < j < entries.len() ==> (#[trigger] entries[i]).session.session_path@ != (
        #[trigger] entries[j]).session.session_path@
}

/// Each entry of a cache is found by its path.
pub proof fn lemma_entry_is_found(entries: Seq<CachedSessionSummary>, i: int)
    requires
        entries_differ(entries),
        0 <= i < entries.len(),
    ensures
        scanner::cached_by_path(entries).dom().contains(entries[i].session.session_path@),
        scanner::cached_by_path(entries)[entries[i].session.session_path@] == entries[i],
    decreases entries.len(),
{
    let fewer = entries.drop_last();
    let last = entries.len() - 1;
    if i < last {
        assert forall|a: int, b: int| 0 <= a < b < fewer.len() implies (
        #[trigger] fewer[a]).session.session_path@ != (
        #[trigger] fewer[b]).session.session_path@ by {
            assert(entries[a].session.session_path@ != entries[b].session.session_path@);
        }
        lemma_entry_is_found(fewer, i);
        assert(entries[i].session.session_path@ != entries[last].session.session_path@);
    }
}

/// The entries of a scan: one for each log, with its path, its size and its time of change.
pub open spec fn describes_logs(
    entries: Seq<CachedSessionSummary>,
    files: Seq<FileCandidate>,
) -> bool {
    &&& entries.len() == files.len()
    &&& forall|i: int|
        0 <= i < files.len() ==> (#[trigger] entries[i]).session.session_path@
            == files[i].relative_path@ && scanner::is_hit(files[i]@, entries[i])
}

/// Whether each log that was read gave the session of its own path.
pub open spec fn sessions_in_place(
    plans: Seq<SessionEntryPlan>,
    parsed: Seq<SessionSummary>,
) -> bool {
    &&& parsed.len() == scanner::to_parse(plans).len()
    &&& forall|i: int|
        0 <= i < parsed.len() ==> (#[trigger] parsed[i]).session_path@ == scanner::to_parse(
            plans,
        )[i].relative_path
}

proof fn lemma_parsed_at(plans: Seq<SessionEntryPlan>, i: int)
    requires
        0 <= i < plans.len(),
        plans[i] is Parse,
    ensures
        scanner::to_parse(plans.take(i)).len() < scanner::to_parse(plans).len(),
        plans[i] matches SessionEntryPlan::Parse(file) && scanner::to_parse(
            plans,
        )[scanner::to_parse(plans.take(i)).len() as int] == file@,
    decreases plans.len(),
{
    let fewer = plans.drop_last();
    if i < plans.len() - 1 {
        lemma_parsed_at(fewer, i);
        assert(fewer.take(i) =~= plans.take(i));
        assert(fewer[i] == plans[i]);
    } else {
        assert(plans.take(i) =~= fewer);
    }
}

/// Whatever comes from the cache and whatever was read, the entries of a scan describe its logs.
pub proof fn lemma_entries_describe_logs(
    files: Seq<FileCandidate>,
    cached: Seq<CachedSessionSummary>,
    plans: Seq<SessionEntryPlan>,
    parsed: Seq<SessionSummary>,
    entries: Seq<CachedSessionSummary>,
)
    requires
        plans.len() == files.len(),
        forall|i: int|
            0 <= i < files.len() ==> scanner::plan_fits(
                #[trigger] plans[i],
                files,
                i,
                scanner::cached_by_path(cached),
            ),
        sessions_in_place(plans, parsed),
        entries.len() == plans.len(),
        forall|i: int|
            0 <= i < plans.len() ==> #[trigger] entries[i] == scanner::entry_of(plans, parsed, i),
    ensures
        describes_logs(entries, files),
{
    assert forall|i: int| 0 <= i < files.len() implies (
    #[trigger] entries[i]).session.session_path@ == files[i].relative_path@ && scanner::is_hit(
        files[i]@,
        entries[i],
    ) by {
        assert(scanner::plan_fits(plans[i], files, i, scanner::cached_by_path(cached)));
        match plans[i] {
            SessionEntryPlan::Cached(entry) => {
                lemma_cached_path(cached, files[i].relative_path@);
            },
            SessionEntryPlan::Parse(file) => {
                lemma_parsed_at(plans, i);
                let k = scanner::to_parse(plans.take(i)).len() as int;
                assert(parsed[k].session_path@ == scanner::to_parse(plans)[k].relative_path);
            },
        }
    }
}

/// A scan of unchanged logs reads none of them: their entries, saved in any order, are all taken
/// from the cache, and none is left over.
pub proof fn lemma_unchanged_logs_are_not_read(
    files: Seq<FileCandidate>,
    entries: Seq<CachedSessionSummary>,
    saved: Seq<CachedSessionSummary>,
)
    requires
        paths_differ(files),
        describes_logs(entries, files),
        types::entry_models(saved).to_multiset() == types::entry_models(entries).to_multiset(),
    ensures
        forall|i: int|
            0 <= i < files.len() ==> #[trigger] scanner::from_cache(
                files,
                i,
                scanner::cached_by_path(saved),
            ),
        scanner::leftover_of(files, files.len() as int, scanner::cached_by_path(saved))
            == Map::<Seq<char>, CachedSessionSummary>::empty(),
{
    let by_path = scanner::cached_by_path(saved);
    lemma_saved_differ(files, entries, saved);
    assert forall|i: int| 0 <= i < files.len() implies #[trigger] scanner::from_cache(
        files,
        i,
        by_path,
    ) by {
        assert(entries[i].session.session_path@ == files[i].relative_path@);
        let j = lemma_same_entry(entries, saved, i);
        assert(saved[j].session@.session_path == entries[i].session@.session_path);
        lemma_entry_is_found(saved, j);
        if scanner::path_before(files, i, files[i].relative_path@) {
            let k = choose|k: int|
                0 <= k < i && (#[trigger] files[k]).relative_path@ == files[i].relative_path@;
            assert(files[k].relative_path@ != files[i].relative_path@);
        }
    }
    let rest = scanner::leftover_of(files, files.len() as int, by_path);
    assert forall|path: Seq<char>| !(#[trigger] rest.dom().contains(path)) by {
        if by_path.dom().contains(path) {
            lemma_cached_path(saved, path);
            let j = choose|j: int| 0 <= j < saved.len() && saved[j] == by_path[path];
            let i = lemma_same_entry(saved, entries, j);
            assert(saved[j].session@.session_path == entries[i].session@.session_path);
            assert(entries[i].session.session_path@ == files[i].relative_path@);
            assert(scanner::path_before(files, files.len() as int, path));
        }
    }
    assert(rest =~= Map::empty());
}

/// Of two lists with the same entries, the second has the `i`th of the first somewhere.
proof fn lemma_same_entry(
    entries: Seq<CachedSessionSummary>,
    others: Seq<CachedSessionSummary>,
    i: int,
) -> (j: int)
    requires
        types::entry_models(others).to_multiset() == types::entry_models(entries).to_multiset(),
        0 <= i < entries.len(),
    ensures
        0 <= j < others.len(),
        others[j]@ == entries[i]@,
{
    broadcast use vstd::seq_lib::group_to_multiset_ensures;

    let models = types::entry_models(entries);
    let found = types::entry_models(others);
    assert(models.contains(models[i]));
    assert(models.to_multiset().count(models[i]) > 0);
    assert(found.contains(models[i]));
    choose|j: int| 0 <= j < found.len() && found[j] == models[i]
}

proof fn lemma_saved_differ(
    files: Seq<FileCandidate>,
    entries: Seq<CachedSessionSummary>,
    saved: Seq<CachedSessionSummary>,
)
    requires
        paths_differ(files),
        describes_logs(entries, files),
        types::entry_models(saved).to_multiset() == types::entry_models(entries).to_multiset(),
    ensures
        entries_differ(saved),
{
    let models = types::entry_models(entries);
    let found = types::entry_models(saved);
    assert(models.no_duplicates()) by {
        assert forall|i: int, j: int|
            0 <= i < models.len() && 0 <= j < models.len() && i != j implies models[i]
            != models[j] by {
            assert(entries[i].session@.session_path == files[i].relative_path@);
            assert(entries[j].session@.session_path == files[j].relative_path@);
            if i < j {
                assert(files[i].relative_path@ != files[j].relative_path@);
            } else {
                assert(files[j].relative_path@ != files[i].relative_path@);
            }
        }
    }
    models.lemma_multiset_has_no_duplicates();
    found.lemma_multiset_has_no_duplicates_conv();
    assert forall|a: int, b: int| 0 <= a < b < saved.len() implies (
    #[trigger] saved[a]).session.session_path@ != (#[trigger] saved[b]).session.session_path@ by {
        assert(found[a] != found[b]);
        let i = lemma_same_entry(saved, entries, a);
        let j = lemma_same_entry(saved, entries, b);
        assert(entries[i].session@.session_path == files[i].relative_path@);
        assert(entries[j].session@.session_path == files[j].relative_path@);
        if i < j {
            assert(files[i].relative_path@ != files[j].relative_path@);
        } else {
            assert(files[j].relative_path@ != files[i].relative_path@);
        }
    }
}

/// Where every log is taken from the cache, the cache was whole and none was asked to be left
/// aside, and no log is gone or only some days are asked for, the cache is not written.
pub proof fn lemma_warm_scan_leaves_cache(
    options: ScanOptions,
    files: Seq<FileCandidate>,
    cached: Map<Seq<char>, CachedSessionSummary>,
    plans: Seq<SessionEntryPlan>,
    leftover: Map<Seq<char>, CachedSessionSummary>,
)
    requires
        plans.len() == files.len(),
        forall|i: int|
            0 <= i < files.len() ==> scanner::plan_fits(#[trigger] plans[i], files, i, cached),
        forall|i: int| 0 <= i < files.len() ==> #[trigger] scanner::from_cache(files, i, cached),
        !options.refresh_cache,
        options.windowed() || leftover == Map::<Seq<char>, CachedSessionSummary>::empty(),
    ensures
        !scanner::changes_cache(options, true, false, plans, leftover),
{
    assert forall|i: int| 0 <= i < plans.len() implies (#[trigger] plans[i]) is Cached by {
        assert(scanner::plan_fits(plans[i], files, i, cached));
        assert(scanner::from_cache(files, i, cached));
    }
    lemma_nothing_to_parse(plans);
}

proof fn lemma_nothing_to_parse(plans: Seq<SessionEntryPlan>)
    requires
        forall|i: int| 0 <= i < plans.len() ==> (#[trigger] plans[i]) is Cached,
    ensures
        scanner::to_parse(plans).len() == 0,
    decreases plans.len(),
{
    if plans.len() > 0 {
        assert(plans[plans.len() - 1] is Cached);
        assert forall|i: int| 0 <= i < plans.drop_last().len() implies (
        #[trigger] plans.drop_last()[i]) is Cached by {
            assert(plans[i] is Cached);
        }
        lemma_nothing_to_parse(plans.drop_last());
    }
}

/// A scan from the cache file that it found to what it returns and saves.
pub struct ScanRun<'a> {
    pub load: CacheLoad<Vec<CachedSessionSummary>>,
    pub plan: ScanPlan,
    pub parsed: Seq<SessionSummary>,
    pub entries: Seq<CachedSessionSummary>,
    pub sessions: Seq<SessionSummary>,
    pub saved: Seq<SavedEntry<'a>>,
}

/// Whether a scan of the logs that found the given cache file went the given way, where `read`
/// tells what reading a list of logs gives.
pub open spec fn scans<'a>(
    options: ScanOptions,
    files: Seq<FileCandidate>,
    read: spec_fn(Seq<CandidateModel>) -> Seq<SessionModel>,
    file: CacheFile<CachedSessionSummary>,
    run: ScanRun<'a>,
) -> bool {
    let cached = scanner::cached_by_path(run.load.entries@);
    let plans = run.plan.plans@;
    &&& run.load.entries@ == scanner::entries_for_scan(options, file)
    &&& run.load.needs_rewrite <==> options.refresh_cache || !(file is Entries)
    &&& plans.len() == files.len()
    &&& forall|i: int|
        0 <= i < files.len() ==> scanner::plan_fits(#[trigger] plans[i], files, i, cached)
    &&& run.plan.leftover@ == scanner::leftover_of(files, files.len() as int, cached)
    &&& report::session_models(run.parsed) == read(scanner::to_parse(plans))
    &&& sessions_in_place(plans, run.parsed)
    &&& run.entries.len() == plans.len()
    &&& forall|i: int|
        0 <= i < plans.len() ==> #[trigger] run.entries[i] == scanner::entry_of(
            plans,
            run.parsed,
            i,
        )
    &&& run.sessions == run.entries.map_values(|entry: CachedSessionSummary| entry.session)
    &&& ordering::is_stable_sort(
        run.saved,
        scanner::entries_to_save(run.entries, run.plan.leftover.entries(), options.windowed()),
    )
}

/// What is saved of logs that were all read: each one with its size, its time of change and the
/// session that was read from it.
pub open spec fn freshly_saved(
    files: Seq<FileCandidate>,
    sessions: Seq<SessionModel>,
) -> Seq<EntryModel> {
    Seq::new(
        files.len(),
        |i: int|
            EntryModel {
                file_size: files[i].file_size,
                modified_unix_ms: files[i].modified_unix_ms,
                session: sessions[i],
            },
    )
}

proof fn lemma_all_to_parse(files: Seq<FileCandidate>, plans: Seq<SessionEntryPlan>)
    requires
        plans.len() == files.len(),
        forall|i: int|
            0 <= i < files.len() ==> ((#[trigger] plans[i]) matches SessionEntryPlan::Parse(file)
                && file@ == files[i]@),
    ensures
        scanner::to_parse(plans) == scanner::candidate_models(files),
    decreases plans.len(),
{
    if plans.len() > 0 {
        let fewer = plans.drop_last();
        assert forall|i: int| 0 <= i < files.drop_last().len() implies (
        (#[trigger] fewer[i]) matches SessionEntryPlan::Parse(file)
            && file@ == files.drop_last()[i]@) by {
            assert(plans[i] is Parse);
        }
        lemma_all_to_parse(files.drop_last(), fewer);
        assert(plans[plans.len() - 1] is Parse);
        assert(scanner::candidate_models(files) =~= scanner::candidate_models(
            files.drop_last(),
        ).push(files.last()@));
    } else {
        assert(scanner::candidate_models(files) =~= scanner::to_parse(plans));
    }
}

/// A scan that leaves the cache aside reads every log, returns what it read, and writes the cache:
/// one entry for each log, of what was read from it, in the order of the paths, and nothing of what
/// the cache held.
pub proof fn lemma_refresh_reads_every_log<'a>(
    options: ScanOptions,
    files: Seq<FileCandidate>,
    read: spec_fn(Seq<CandidateModel>) -> Seq<SessionModel>,
    file: CacheFile<CachedSessionSummary>,
    run: ScanRun<'a>,
)
    requires
        options.refresh_cache,
        ordering::in_rank_order(files),
        scans(options, files, read, file, run),
    ensures
        scanner::to_parse(run.plan.plans@) == scanner::candidate_models(files),
        report::session_models(run.sessions) == read(scanner::candidate_models(files)),
        forall|existed: bool| #[trigger]
            scanner::changes_cache(
                options,
                existed,
                run.load.needs_rewrite,
                run.plan.plans@,
                run.plan.leftover@,
            ),
        scanner::saved_models(run.saved) == freshly_saved(files, read(scanner::candidate_models(files))),
        run.saved.len() == run.sessions.len() == files.len(),
        forall|i: int|
            0 <= i < files.len() ==> (#[trigger] run.saved[i]).entry.session == run.sessions[i]
                && run.sessions[i].session_path@ == files[i].relative_path@,
        paths_differ(files) ==> forall|i: int, j: int|
            0 <= i < j < files.len() ==> text::precedes(
                (#[trigger] run.saved[i]).entry.session.session_path@,
                (#[trigger] run.saved[j]).entry.session.session_path@,
            ),
{
    let plans = run.plan.plans@;
    let cached = scanner::cached_by_path(run.load.entries@);
    assert(cached =~= Map::empty());
    assert forall|i: int| 0 <= i < files.len() implies (
    (#[trigger] plans[i]) matches SessionEntryPlan::Parse(file) && file@ == files[i]@) by {
        assert(scanner::plan_fits(plans[i], files, i, cached));
    }
    lemma_all_to_parse(files, plans);
    assert forall|i: int| 0 <= i < files.len() implies (#[trigger] run.entries[i]) == (
    CachedSessionSummary {
        file_size: files[i].file_size,
        modified_unix_ms: files[i].modified_unix_ms,
        session: run.parsed[i],
    }) by {
        assert(plans[i] is Parse);
        assert forall|j: int| 0 <= j < i implies (
        (#[trigger] plans.take(i)[j]) matches SessionEntryPlan::Parse(file)
            && file@ == files.take(i)[j]@) by {
            assert(plans[j] is Parse);
        }
        lemma_all_to_parse(files.take(i), plans.take(i));
        assert(run.entries[i] == scanner::entry_of(plans, run.parsed, i));
    }
    assert(run.sessions =~= run.parsed);
    assert(run.plan.leftover@ =~= Map::empty());
    lemma_nothing_left_over(run.plan.leftover);
    let scanned = run.entries.map_values(
        |entry: CachedSessionSummary| SavedEntry { entry: &entry },
    );
    assert(scanner::entries_to_save(run.entries, run.plan.leftover.entries(), options.windowed())
        =~= scanned);
    assert forall|i: int, j: int| 0 <= i < j < scanned.len() implies ordering::Ranked::ranks_up_to(
        #[trigger] scanned[i],
        #[trigger] scanned[j],
    ) by {
        assert(ordering::Ranked::ranks_up_to(files[i], files[j]));
        assert(run.parsed[i].session_path@ == files[i].relative_path@);
        assert(run.parsed[j].session_path@ == files[j].relative_path@);
    }
    ordering::lemma_one_sort(run.saved, scanned, scanned);
    let models = read(scanner::candidate_models(files));
    assert forall|i: int| 0 <= i < files.len() implies models[i] == (
    #[trigger] run.saved[i]).entry.session@ by {
        assert(report::session_models(run.parsed)[i] == run.parsed[i]@);
    }
    assert(scanner::saved_models(run.saved) =~= freshly_saved(files, models));
    if paths_differ(files) {
        assert forall|i: int, j: int| 0 <= i < j < files.len() implies text::precedes(
            (#[trigger] run.saved[i]).entry.session.session_path@,
            (#[trigger] run.saved[j]).entry.session.session_path@,
        ) by {
            assert(ordering::Ranked::ranks_up_to(files[i], files[j]));
            assert(files[i].relative_path@ != files[j].relative_path@);
            text::lemma_precedes_total(files[i].relative_path@, files[j].relative_path@);
        }
    }
}

/// What a scan that leaves the cache aside returns and saves does not depend on what the cache
/// held: two scans of the same logs that found different cache files, valid, corrupt or missing,
/// return the same sessions and save the same entries.
pub proof fn lemma_refresh_ignores_cache<'a, 'b>(
    options: ScanOptions,
    files: Seq<FileCandidate>,
    read: spec_fn(Seq<CandidateModel>) -> Seq<SessionModel>,
    file: CacheFile<CachedSessionSummary>,
    other: CacheFile<CachedSessionSummary>,
    a: ScanRun<'a>,
    b: ScanRun<'b>,
)
    requires
        options.refresh_cache,
        ordering::in_rank_order(files),
        scans(options, files, read, file, a),
        scans(options, files, read, other, b),
    ensures
        report::session_models(a.sessions) == report::session_models(b.sessions),
        scanner::saved_models(a.saved) == scanner::saved_models(b.saved),
{
    lemma_refresh_reads_every_log(options, files, read, file, a);
    lemma_refresh_reads_every_log(options, files, read, other, b);
}

/// What the cache gives back after a scan that left it aside: one entry for each log, of what was
/// read from it, in the order of the paths.
pub proof fn lemma_refreshed_cache_is_loaded<'a>(
    options: ScanOptions,
    files: Seq<FileCandidate>,
    read: spec_fn(Seq<CandidateModel>) -> Seq<SessionModel>,
    file: CacheFile<CachedSessionSummary>,
    run: ScanRun<'a>,
    bytes: Seq<u8>,
    reread: CacheFile<CachedSessionSummary>,
)
    requires
        options.refresh_cache,
        ordering::in_rank_order(files),
        scans(options, files, read, file, run),
        cache::saves_sessions(bytes, scanner::saved_models(run.saved)),
        cache::is_session_file(reread, Some(bytes)),
    ensures
        types::entry_models(cache::entries_in(reread)) == freshly_saved(
            files,
            read(scanner::candidate_models(files)),
        ),
{
    lemma_refresh_reads_every_log(options, files, read, file, run);
    cache::lemma_load_gives_back_what_was_saved(
        bytes,
        scanner::saved_models(run.saved),
        reread,
    );
}

proof fn lemma_nothing_left_over(leftover: TextMap<CachedSessionSummary>)
    requires
        leftover@ == Map::<Seq<char>, CachedSessionSummary>::empty(),
    ensures
        leftover.entries().len() == 0,
{
    if leftover.entries().len() > 0 {
        assert(!leftover@.dom().contains(leftover.entries()[0].0));
    }
}

/// A scan of some days keeps the cached sessions of all other days: what it saves holds every
/// entry that no log asked for.
pub proof fn lemma_window_keeps_other_days<'a>(
    entries: Seq<CachedSessionSummary>,
    leftover: Seq<(Seq<char>, CachedSessionSummary)>,
    saved: Seq<SavedEntry<'a>>,
    k: int,
)
    requires
        ordering::is_stable_sort(saved, scanner::entries_to_save(entries, leftover, true)),
        0 <= k < leftover.len(),
    ensures
        exists|j: int| 0 <= j < saved.len() && *(#[trigger] saved[j]).entry == leftover[k].1,
{
    broadcast use vstd::seq_lib::group_to_multiset_ensures;

    let all = scanner::entries_to_save(entries, leftover, true);
    let kept = all[entries.len() + k];
    assert(*kept.entry == leftover[k].1);
    assert(all.contains(kept));
    assert(all.to_multiset().count(kept) > 0);
    assert(saved.contains(kept));
    let j = choose|j: int| 0 <= j < saved.len() && saved[j] == kept;
    assert(*saved[j].entry == leftover[k].1);
}

/// Every cached session is either that of a log of the scan or left over.
pub proof fn lemma_cached_or_left_over(
    files: Seq<FileCandidate>,
    cached: Map<Seq<char>, CachedSessionSummary>,
    path: Seq<char>,
)
    requires
        cached.dom().contains(path),
    ensures
        scanner::path_before(files, files.len() as int, path) || (scanner::leftover_of(
            files,
            files.len() as int,
            cached,
        ).dom().contains(path) && scanner::leftover_of(
            files,
            files.len() as int,
            cached,
        )[path] == cached[path]),
{
}

/// A wider window asks for at least the logs that a narrower one does.
pub proof fn lemma_wider_window(
    path: Seq<char>,
    since: Option<CivilDate>,
    until: Option<CivilDate>,
)
    requires
        scanner::path_in_window(path, since, until),
    ensures
        scanner::path_in_window(path, None, until),
        scanner::path_in_window(path, since, None),
        scanner::path_in_window(path, None, None),
{
}

/// An event within a window is not missed when its log is of the same day, the day before or the day
/// after: the log is asked for.
pub proof fn lemma_window_reaches_events(
    path: Seq<char>,
    day: CivilDate,
    since: Option<CivilDate>,
    until: Option<CivilDate>,
)
    requires
        day.wf(),
        scanner::window_wf(since, until),
        report::in_window(day, since, until),
        scanner::path_date(path) matches Some(logged) ==> logged.number() - 1 <= day.number()
            <= logged.number() + 1,
    ensures
        scanner::path_in_window(path, since, until),
{
    if let Some(since) = since {
        calendar::lemma_earlier_by_number(day, since);
    }
    if let Some(until) = until {
        calendar::lemma_earlier_by_number(until, day);
    }
}

} // verus!
