//! Which logs a scan reads, which sessions it takes from the cache, and what it puts there.

use crate::cache;
use crate::cache::{CacheFile, CacheLoad};
use crate::calendar::CivilDate;
use crate::collection_laws;
use crate::ordering;
use crate::ordering::Ranked;
use crate::session_log::scan_laws;
use crate::session_log::scanner;
use crate::session_log::scanner::{
    FileCandidate, SavedEntry, ScanOptions, ScanPlan, SessionEntryPlan,
};
use crate::text;
use crate::text_laws;
use crate::text_map::TextMap;
use crate::types::{CachedSessionSummary, SessionSummary};
use vstd::prelude::*;

verus! {

/// There is a window where it has a start or an end.
pub proof fn lemma_windows(options: &ScanOptions, windowed: bool)
    requires
        call_ensures(ScanOptions::has_window, (options,), windowed),
    ensures
        windowed <==> options.since is Some || options.until is Some,
{
}

/// The day of a log is that of the directories of the year, the month and the day that its path
/// starts with, whatever follows.
pub proof fn lemma_day_of_a_path(
    path: &str,
    year: &str,
    month: &str,
    day: &str,
    rest: Seq<char>,
    date: Option<CivilDate>,
    y: Option<i32>,
    m: Option<u32>,
    d: Option<u32>,
    given: Option<CivilDate>,
)
    requires
        call_ensures(scanner::parse_date_from_relative_path, (path,), date),
        call_ensures(text::parse_i32, (year,), y),
        call_ensures(text::parse_u32, (month,), m),
        call_ensures(text::parse_u32, (day,), d),
        !year@.contains('/'),
        !month@.contains('/'),
        !day@.contains('/'),
        path@ == year@ + "/"@ + month@ + "/"@ + day@ || path@ == year@ + "/"@ + month@ + "/"@ + day@
            + "/"@ + rest,
        y is Some && m is Some && d is Some ==> call_ensures(
            CivilDate::from_ymd_opt,
            (y->0, m->0, d->0),
            given,
        ),
    ensures
        y is Some && m is Some && d is Some ==> date == given,
        y is None || m is None || d is None ==> date is None,
{
    reveal_strlit("/");
    let last = if path@ == year@ + "/"@ + month@ + "/"@ + day@ {
        day@
    } else {
        day@.push('/') + rest
    };
    let later = month@.push('/') + last;
    assert(path@ =~= year@.push('/') + later);
    text_laws::lemma_head(year@, later);
    text_laws::lemma_head(month@, last);
    text_laws::lemma_head(day@, rest);
}

/// A path of fewer than three parts has no day.
pub proof fn lemma_short_paths(
    path: &str,
    first: Seq<char>,
    second: Seq<char>,
    date: Option<CivilDate>,
)
    requires
        call_ensures(scanner::parse_date_from_relative_path, (path,), date),
        !first.contains('/'),
        !second.contains('/'),
        path@ == first || path@ == first + "/"@ + second,
    ensures
        date is None,
{
    reveal_strlit("/");
    text_laws::lemma_head(first, second);
    text_laws::lemma_head(second, second);
    assert(first + "/"@ + second =~= first.push('/') + second);
}

/// A log is looked into for the days of a window from the day before to the day after; one without
/// a day is always.
pub proof fn lemma_logs_of_a_window(
    path: &str,
    since: Option<CivilDate>,
    until: Option<CivilDate>,
    date: Option<CivilDate>,
    inside: bool,
)
    requires
        call_ensures(scanner::file_matches_date_window, (path, since, until), inside),
        call_ensures(scanner::parse_date_from_relative_path, (path,), date),
    ensures
        date is None ==> inside,
        since is None && until is None ==> inside,
        date matches Some(date) ==> (inside <==> (since matches Some(start) ==> start.number()
            <= date.number() + 1) && (until matches Some(end) ==> date.number() <= end.number()
            + 1)),
{
}

/// A log is a file whose name ends with `jsonl` after a dot; it is known by its path with slashes,
/// where it may hold events of the window.
pub proof fn lemma_paths_of_logs(
    is_file: bool,
    extension: Option<&str>,
    relative_path: &str,
    since: Option<CivilDate>,
    until: Option<CivilDate>,
    is_log: bool,
    slashed: String,
    known_by: &str,
    inside: bool,
    path: Option<String>,
)
    requires
        call_ensures(scanner::is_session_log, (is_file, extension), is_log),
        call_ensures(text::slash_separated, (relative_path,), slashed),
        known_by@ == slashed@,
        call_ensures(scanner::file_matches_date_window, (known_by, since, until), inside),
        call_ensures(
            scanner::log_path,
            (is_file, extension, relative_path, since, until),
            path,
        ),
    ensures
        is_log <==> is_file && (extension matches Some(extension) && extension@ == "jsonl"@),
        path is Some <==> is_log && inside,
        path matches Some(path) ==> path@ == slashed@,
{
}

/// Logs are put in the order of their paths: the same logs, each as often.
pub proof fn lemma_logs_in_order(files: Vec<FileCandidate>, sorted: Vec<FileCandidate>)
    requires
        call_ensures(scanner::sort_candidates, (files,), sorted),
    ensures
        sorted@.to_multiset() == files@.to_multiset(),
        sorted@.len() == files@.len(),
        forall|i: int, j: int|
            0 <= i < j < sorted@.len() ==> (#[trigger] sorted@[i]).relative_path@ == (
            #[trigger] sorted@[j]).relative_path@ || text::precedes(
                sorted@[i].relative_path@,
                sorted@[j].relative_path@,
            ),
{
    broadcast use vstd::seq_lib::group_to_multiset_ensures;

    assert(sorted@.to_multiset().len() == files@.to_multiset().len());
    assert forall|i: int, j: int| 0 <= i < j < sorted@.len() implies (
    #[trigger] sorted@[i]).relative_path@ == (#[trigger] sorted@[j]).relative_path@
        || text::precedes(sorted@[i].relative_path@, sorted@[j].relative_path@) by {
        assert(sorted@[i].ranks_up_to(sorted@[j]));
        text::lemma_precedes_total(sorted@[i].relative_path@, sorted@[j].relative_path@);
    }
}

/// A cached session is that of a log as it is where the log has the same size and was changed at
/// the same time.
pub proof fn lemma_unchanged_logs(file: &FileCandidate, cached: &CachedSessionSummary, hit: bool)
    requires
        call_ensures(scanner::is_cache_hit, (file, cached), hit),
    ensures
        hit <==> file.file_size == cached.file_size && file.modified_unix_ms
            == cached.modified_unix_ms,
{
}

/// The cache is left aside where it is to be made anew, and else taken as it is; a file that holds
/// no entries counts as none, and is written over.
pub proof fn lemma_cache_for_a_scan(
    options: &ScanOptions,
    file: CacheFile<CachedSessionSummary>,
    load: CacheLoad<Vec<CachedSessionSummary>>,
)
    requires
        call_ensures(scanner::load_for_scan, (options, file), load),
    ensures
        options.refresh_cache ==> load.entries@.len() == 0 && load.needs_rewrite,
        !options.refresh_cache ==> (file matches CacheFile::Entries(entries) ==> load.entries@
            == entries@ && !load.needs_rewrite),
        !(file is Entries) ==> load.entries@.len() == 0 && load.needs_rewrite,
{
}

/// What a file of the cache holds is what is loaded of it, and it has to be written over where it
/// holds nothing that can be loaded.
pub proof fn lemma_loads_of_files(
    file: CacheFile<CachedSessionSummary>,
    load: CacheLoad<Vec<CachedSessionSummary>>,
    entries: Vec<CachedSessionSummary>,
)
    requires
        call_ensures(cache::load_cache_state, (file,), load),
        call_ensures(cache::load_cache, (file,), entries),
    ensures
        file matches CacheFile::Entries(held) ==> load.entries@ == held@ && entries@ == held@
            && !load.needs_rewrite,
        !(file is Entries) ==> load.entries@.len() == 0 && entries@.len() == 0
            && load.needs_rewrite,
{
}

/// Whether a cached session is the last of its path.
pub open spec fn is_last_of_its_path(cached: Seq<CachedSessionSummary>, c: int) -> bool {
    &&& 0 <= c < cached.len()
    &&& forall|k: int|
        c < k < cached.len() ==> (#[trigger] cached[k]).session.session_path@
            != cached[c].session.session_path@
}

/// Whether any cached session is of a path.
pub open spec fn any_of_path(cached: Seq<CachedSessionSummary>, path: Seq<char>) -> bool {
    exists|k: int| 0 <= k < cached.len() && (#[trigger] cached[k]).session.session_path@ == path
}

/// Whether any of the first logs is of a path.
pub open spec fn any_file_of_path(files: Seq<FileCandidate>, n: int, path: Seq<char>) -> bool {
    exists|i: int| 0 <= i < n && (#[trigger] files[i]).relative_path@ == path
}

proof fn lemma_last_is_cached(cached: Seq<CachedSessionSummary>, c: int)
    requires
        is_last_of_its_path(cached, c),
    ensures
        scanner::cached_by_path(cached).dom().contains(cached[c].session.session_path@),
        scanner::cached_by_path(cached)[cached[c].session.session_path@] == cached[c],
    decreases cached.len(),
{
    let last = cached.len() - 1;
    if c < last {
        let fewer = cached.drop_last();
        assert forall|k: int| c < k < fewer.len() implies (
        #[trigger] fewer[k]).session.session_path@ != fewer[c].session.session_path@ by {
            assert(cached[k].session.session_path@ != cached[c].session.session_path@);
        }
        lemma_last_is_cached(fewer, c);
        assert(cached[last].session.session_path@ != cached[c].session.session_path@);
    }
}

proof fn lemma_none_is_cached(cached: Seq<CachedSessionSummary>, path: Seq<char>)
    requires
        !any_of_path(cached, path),
    ensures
        !scanner::cached_by_path(cached).dom().contains(path),
{
    if scanner::cached_by_path(cached).dom().contains(path) {
        scan_laws::lemma_cached_path(cached, path);
        let i = choose|i: int|
            0 <= i < cached.len() && cached[i] == scanner::cached_by_path(cached)[path];
        assert(cached[i].session.session_path@ == path);
    }
}

/// Whether a log is to be read: the plan names it with its size, its time and its place.
pub open spec fn is_to_be_read(plan: SessionEntryPlan, file: FileCandidate) -> bool {
    &&& plan matches SessionEntryPlan::Parse(named)
    &&& named.relative_path@ == file.relative_path@
    &&& named.file_size == file.file_size
    &&& named.modified_unix_ms == file.modified_unix_ms
    &&& named.entry == file.entry
}

/// Each log has a plan. A log whose path has a cached session is not read where neither its size nor
/// its time has changed: its session is the cached one, the last of its path. Else it is read.
pub proof fn lemma_cached_logs_are_not_read(
    files: &[FileCandidate],
    cached: Vec<CachedSessionSummary>,
    plan: ScanPlan,
    i: int,
    c: int,
)
    requires
        call_ensures(scanner::plan_scan, (files, cached), plan),
        0 <= i < files@.len(),
        !any_file_of_path(files@, i, files@[i].relative_path@),
        is_last_of_its_path(cached@, c),
        cached@[c].session.session_path@ == files@[i].relative_path@,
    ensures
        plan.plans@.len() == files@.len(),
        cached@[c].file_size == files@[i].file_size && cached@[c].modified_unix_ms
            == files@[i].modified_unix_ms ==> plan.plans@[i] == SessionEntryPlan::Cached(cached@[c]),
        cached@[c].file_size != files@[i].file_size || cached@[c].modified_unix_ms
            != files@[i].modified_unix_ms ==> is_to_be_read(plan.plans@[i], files@[i]),
{
    lemma_last_is_cached(cached@, c);
    assert(scanner::plan_fits(
        plan.plans@[i],
        files@,
        i,
        scanner::cached_by_path(cached@),
    ));
}

/// A log that no cached session is of is read; so is one whose path an earlier log has as well.
pub proof fn lemma_other_logs_are_read(
    files: &[FileCandidate],
    cached: Vec<CachedSessionSummary>,
    plan: ScanPlan,
    i: int,
)
    requires
        call_ensures(scanner::plan_scan, (files, cached), plan),
        0 <= i < files@.len(),
        !any_of_path(cached@, files@[i].relative_path@) || any_file_of_path(
            files@,
            i,
            files@[i].relative_path@,
        ),
    ensures
        plan.plans@.len() == files@.len(),
        is_to_be_read(plan.plans@[i], files@[i]),
{
    if !any_of_path(cached@, files@[i].relative_path@) {
        lemma_none_is_cached(cached@, files@[i].relative_path@);
    }
    assert(scanner::plan_fits(
        plan.plans@[i],
        files@,
        i,
        scanner::cached_by_path(cached@),
    ));
}

/// The cached sessions whose paths no log has are left over, each the last of its path.
pub proof fn lemma_sessions_without_logs(
    files: &[FileCandidate],
    cached: Vec<CachedSessionSummary>,
    plan: ScanPlan,
    path: Seq<char>,
    c: int,
)
    requires
        call_ensures(scanner::plan_scan, (files, cached), plan),
    ensures
        plan.leftover@.dom().contains(path) <==> any_of_path(cached@, path) && !any_file_of_path(
            files@,
            files@.len() as int,
            path,
        ),
        plan.leftover@.dom().contains(path) && is_last_of_its_path(cached@, c)
            && cached@[c].session.session_path@ == path ==> plan.leftover@[path] == cached@[c],
{
    if any_of_path(cached@, path) {
        lemma_any_has_last(cached@, path);
    } else {
        lemma_none_is_cached(cached@, path);
    }
    if is_last_of_its_path(cached@, c) && cached@[c].session.session_path@ == path {
        lemma_last_is_cached(cached@, c);
    }
}

proof fn lemma_any_has_last(cached: Seq<CachedSessionSummary>, path: Seq<char>)
    requires
        any_of_path(cached, path),
    ensures
        scanner::cached_by_path(cached).dom().contains(path),
    decreases cached.len(),
{
    let last = cached.len() - 1;
    if cached[last].session.session_path@ != path {
        let fewer = cached.drop_last();
        let k = choose|k: int|
            0 <= k < cached.len() && (#[trigger] cached[k]).session.session_path@ == path;
        assert(fewer[k].session.session_path@ == path);
        lemma_any_has_last(fewer, path);
    }
}

/// The number of logs that are to be read.
pub open spec fn reads(plans: Seq<SessionEntryPlan>) -> nat
    decreases plans.len(),
{
    if plans.len() == 0 {
        0
    } else {
        reads(plans.drop_last()) + if plans.last() is Parse {
            1nat
        } else {
            0nat
        }
    }
}

proof fn lemma_reads(plans: Seq<SessionEntryPlan>)
    ensures
        scanner::to_parse(plans).len() == reads(plans),
    decreases plans.len(),
{
    if plans.len() > 0 {
        lemma_reads(plans.drop_last());
    }
}

/// The logs that are to be read come in the order of their plans: as many as there are, each with
/// what its plan says.
pub proof fn lemma_logs_to_read(plan: &ScanPlan, files: Vec<FileCandidate>, i: int)
    requires
        call_ensures(ScanPlan::files_to_parse, (plan,), files),
    ensures
        files@.len() == reads(plan.plans@),
        0 <= i < plan.plans@.len() && plan.plans@[i] is Parse ==> reads(plan.plans@.take(i))
            < files@.len() && is_to_be_read(
            plan.plans@[i],
            files@[reads(plan.plans@.take(i)) as int],
        ),
{
    let plans = plan.plans@;
    assert(scanner::candidate_models(files@).len() == files@.len());
    lemma_reads(plans);
    if 0 <= i < plans.len() && plans[i] is Parse {
        lemma_place_of_read(plans, i);
        lemma_reads(plans.take(i));
        let k = reads(plans.take(i)) as int;
        assert(scanner::candidate_models(files@)[k] == files@[k]@);
    }
}

proof fn lemma_place_of_read(plans: Seq<SessionEntryPlan>, i: int)
    requires
        0 <= i < plans.len(),
        plans[i] is Parse,
    ensures
        scanner::to_parse(plans.take(i)).len() < scanner::to_parse(plans).len(),
        plans[i] matches SessionEntryPlan::Parse(file) && scanner::to_parse(
            plans,
        )[scanner::to_parse(plans.take(i)).len() as int] == file@,
    decreases plans.len(),
{
    let last = plans.len() - 1;
    if i == last {
        assert(plans.take(i) =~= plans.drop_last());
    } else {
        let fewer = plans.drop_last();
        lemma_place_of_read(fewer, i);
        assert(fewer.take(i) =~= plans.take(i));
    }
}

/// Each plan has an entry, in the same order: the cached one as it is, or the session that was read,
/// in its turn, with the size and the time of its log.
pub proof fn lemma_entries_of_plans(
    plans: Vec<SessionEntryPlan>,
    parsed: Vec<SessionSummary>,
    entries: Vec<CachedSessionSummary>,
    i: int,
)
    requires
        call_ensures(scanner::assemble_entries, (plans, parsed), entries),
        0 <= i < plans@.len(),
    ensures
        entries@.len() == plans@.len(),
        plans@[i] matches SessionEntryPlan::Cached(entry) ==> entries@[i] == entry,
        plans@[i] matches SessionEntryPlan::Parse(file) ==> entries@[i].file_size == file.file_size
            && entries@[i].modified_unix_ms == file.modified_unix_ms && entries@[i].session
            == parsed@[reads(plans@.take(i)) as int],
{
    lemma_reads(plans@.take(i));
    assert(entries@[i] == scanner::entry_of(plans@, parsed@, i));
}

/// The cache is written where it is made anew, was not there or could not be read, where any log was
/// read, and, over all logs, where any session in it has lost its log; and not else.
pub proof fn lemma_when_the_cache_is_written(
    options: &ScanOptions,
    cache_existed: bool,
    needs_rewrite: bool,
    files: &[FileCandidate],
    plan: &ScanPlan,
    changed: bool,
)
    requires
        call_ensures(
            scanner::cache_changed,
            (options, cache_existed, needs_rewrite, files, plan),
            changed,
        ),
    ensures
        options.refresh_cache || !cache_existed || needs_rewrite ==> changed,
        reads(plan.plans@) > 0 ==> changed,
        options.since is None && options.until is None && !(plan.leftover@.dom() =~= Set::<
            Seq<char>,
        >::empty()) ==> changed,
        !options.refresh_cache && cache_existed && !needs_rewrite && reads(plan.plans@) == 0 && (
        options.since is Some || options.until is Some || plan.leftover@.dom() =~= Set::<
            Seq<char>,
        >::empty()) ==> !changed,
{
    lemma_reads(plan.plans@);
    if plan.leftover@.dom() =~= Set::<Seq<char>>::empty() {
        assert(plan.leftover@ =~= Map::<Seq<char>, CachedSessionSummary>::empty());
    }
}

/// Whether an entry is one of those that are saved.
pub open spec fn is_saved<'a>(saved: Seq<SavedEntry<'a>>, entry: CachedSessionSummary) -> bool {
    exists|n: int| 0 <= n < saved.len() && (#[trigger] saved[n]).entry == entry
}

/// The entries of a scan are saved, in the order of their paths; those that are left over are saved
/// with them by a scan of a window, and dropped by one of all logs.
pub proof fn lemma_entries_that_are_saved<'a>(
    options: &ScanOptions,
    entries: &'a [CachedSessionSummary],
    leftover: &'a TextMap<CachedSessionSummary>,
    saved: Vec<SavedEntry<'a>>,
)
    requires
        call_ensures(scanner::cache_entries, (options, entries, leftover), saved),
    ensures
        saved@.len() == entries@.len() + if options.since is Some || options.until is Some {
            leftover.entries().len()
        } else {
            0
        },
        forall|i: int| 0 <= i < entries@.len() ==> is_saved(saved@, #[trigger] entries@[i]),
        options.since is Some || options.until is Some ==> forall|i: int|
            0 <= i < leftover.entries().len() ==> is_saved(
                saved@,
                (#[trigger] leftover.entries()[i]).1,
            ),
        forall|i: int, j: int|
            0 <= i < j < saved@.len() ==> {
                let (a, b) = (
                    (#[trigger] saved@[i]).entry.session.session_path@,
                    (#[trigger] saved@[j]).entry.session.session_path@,
                );
                a == b || text::precedes(a, b)
            },
{
    broadcast use vstd::seq_lib::group_to_multiset_ensures;

    let windowed = options.since is Some || options.until is Some;
    let kept = leftover.entries();
    let all = scanner::entries_to_save::<'a>(entries@, kept, windowed);
    assert(saved@.to_multiset() == all.to_multiset());
    assert(saved@.to_multiset().len() == all.to_multiset().len());
    assert forall|i: int| 0 <= i < entries@.len() implies is_saved(
        saved@,
        #[trigger] entries@[i],
    ) by {
        assert(all[i].entry == entries@[i]);
        lemma_saved_member(saved@, all, i);
    }
    if windowed {
        assert forall|i: int| 0 <= i < kept.len() implies is_saved(
            saved@,
            (#[trigger] kept[i]).1,
        ) by {
            assert(all[entries@.len() + i].entry == kept[i].1);
            lemma_saved_member(saved@, all, entries@.len() + i);
        }
    }
    assert forall|i: int, j: int| 0 <= i < j < saved@.len() implies {
        let (a, b) = (
            (#[trigger] saved@[i]).entry.session.session_path@,
            (#[trigger] saved@[j]).entry.session.session_path@,
        );
        a == b || text::precedes(a, b)
    } by {
        assert(saved@[i].ranks_up_to(saved@[j]));
        text::lemma_precedes_total(
            saved@[i].entry.session.session_path@,
            saved@[j].entry.session.session_path@,
        );
    }
}

proof fn lemma_saved_member<'a>(saved: Seq<SavedEntry<'a>>, all: Seq<SavedEntry<'a>>, i: int)
    requires
        saved.to_multiset() == all.to_multiset(),
        0 <= i < all.len(),
    ensures
        is_saved(saved, *all[i].entry),
{
    broadcast use vstd::seq_lib::group_to_multiset_ensures;

    assert(all.contains(all[i]));
    assert(all.to_multiset().count(all[i]) > 0);
    assert(saved.contains(all[i]));
    let n = choose|n: int| 0 <= n < saved.len() && saved[n] == all[i];
    assert(saved[n].entry == all[i].entry);
}

/// The sessions of entries, in the same order.
pub proof fn lemma_sessions_of_entries(
    entries: Vec<CachedSessionSummary>,
    sessions: Vec<SessionSummary>,
)
    requires
        call_ensures(scanner::into_sessions, (entries,), sessions),
    ensures
        sessions@.len() == entries@.len(),
        forall|i: int|
            0 <= i < entries@.len() ==> #[trigger] sessions@[i] == entries@[i].session,
{
}

/// Logs of one path keep their order.
pub proof fn lemma_logs_of_one_path(
    files: Vec<FileCandidate>,
    sorted: Vec<FileCandidate>,
    item: FileCandidate,
)
    requires
        call_ensures(scanner::sort_candidates, (files,), sorted),
    ensures
        sorted@.filter(|other: FileCandidate| other.relative_path@ == item.relative_path@)
            == files@.filter(|other: FileCandidate| other.relative_path@ == item.relative_path@),
{
    let same = |other: FileCandidate| other.relative_path@ == item.relative_path@;
    assert forall|other: FileCandidate| #[trigger]
        same(other) == ordering::same_rank(other, item) by {
        text::lemma_precedes_total(other.relative_path@, item.relative_path@);
        text::lemma_precedes_irreflexive(item.relative_path@);
    }
    collection_laws::lemma_one_rank(sorted@, files@, item, same);
}

/// Whether an entry is one of a scan, or one that is left over.
pub open spec fn is_of_scan_or_left_over(
    entries: Seq<CachedSessionSummary>,
    leftover: Seq<(Seq<char>, CachedSessionSummary)>,
    entry: CachedSessionSummary,
) -> bool {
    ||| entries.contains(entry)
    ||| exists|i: int| 0 <= i < leftover.len() && (#[trigger] leftover[i]).1 == entry
}

/// Each entry that is saved is one of the scan, or, by a scan of a window, one that is left over.
pub proof fn lemma_nothing_else_is_saved<'a>(
    options: &ScanOptions,
    entries: &'a [CachedSessionSummary],
    leftover: &'a TextMap<CachedSessionSummary>,
    saved: Vec<SavedEntry<'a>>,
    n: int,
)
    requires
        call_ensures(scanner::cache_entries, (options, entries, leftover), saved),
        0 <= n < saved@.len(),
    ensures
        options.since is None && options.until is None ==> entries@.contains(*saved@[n].entry),
        is_of_scan_or_left_over(entries@, leftover.entries(), *saved@[n].entry),
{
    broadcast use vstd::seq_lib::group_to_multiset_ensures;

    let windowed = options.since is Some || options.until is Some;
    let kept = leftover.entries();
    let all = scanner::entries_to_save::<'a>(entries@, kept, windowed);
    assert(saved@.contains(saved@[n]));
    assert(saved@.to_multiset().count(saved@[n]) > 0);
    assert(all.contains(saved@[n]));
    let k = choose|k: int| 0 <= k < all.len() && all[k] == saved@[n];
    if k < entries@.len() {
        assert(entries@[k] == *saved@[n].entry);
    } else {
        assert(kept[k - entries@.len()].1 == *saved@[n].entry);
    }
}

} // verus!
