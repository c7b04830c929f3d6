//! Which session logs are read, and which are taken from the cache.

use crate::cache;
use crate::cache::{CacheFile, CacheLoad};
use crate::calendar;
use crate::calendar::CivilDate;
use crate::ordering;
use crate::ordering::Ranked;
use crate::text;
use crate::text_map::TextMap;
use crate::types::{CachedSessionSummary, EntryModel, SessionSummary};
use vstd::prelude::*;

verus! {

/// The extension of session logs.
pub const LOG_EXTENSION: &'static str = "jsonl";

/// Which sessions are asked for, and whether the cache is left aside.
#[derive(Debug, Clone, Copy, PartialEq, Eq, Structural)]
pub struct ScanOptions {
    pub since: Option<CivilDate>,
    pub until: Option<CivilDate>,
    pub refresh_cache: bool,
}

/// Whether the dates of a window exist.
pub open spec fn window_wf(since: Option<CivilDate>, until: Option<CivilDate>) -> bool {
    (since matches Some(since) ==> since.wf()) && (until matches Some(until) ==> until.wf())
}

impl ScanOptions {
    /// Whether only some days are asked for.
    pub open spec fn windowed(self) -> bool {
        self.since is Some || self.until is Some
    }

    /// Whether only some days are asked for.
    pub fn has_window(&self) -> (windowed: bool)
        ensures
            windowed == self.windowed(),
    {
        self.since.is_some() || self.until.is_some()
    }
}

/// The day with the given numbers, where they are numbers of 32 bits and the day exists.
pub open spec fn day_of(year: Option<int>, month: Option<int>, day: Option<int>) -> Option<
    CivilDate,
> {
    match (year, month, day) {
        (Some(year), Some(month), Some(day)) => {
            let date = CivilDate { year: year as i32, month: month as u32, day: day as u32 };
            if i32::MIN <= year <= i32::MAX && month <= u32::MAX && day <= u32::MAX && date.wf() {
                Some(date)
            } else {
                None
            }
        },
        _ => None,
    }
}

/// The day whose year, month and day a path starts with, each a directory of its own.
pub open spec fn path_date(path: Seq<char>) -> Option<CivilDate> {
    match text::after_head(path) {
        Some(months) => match text::after_head(months) {
            Some(days) => day_of(
                text::signed_number(text::head_segment(path)),
                text::unsigned_number(text::head_segment(months)),
                text::unsigned_number(text::head_segment(days)),
            ),
            None => None,
        },
        None => None,
    }
}

/// The day whose year, month and day a path starts with.
pub fn parse_date_from_relative_path(relative_path: &str) -> (date: Option<CivilDate>)
    ensures
        date == path_date(relative_path@),
        date matches Some(date) ==> date.wf(),
{
    let (year, months) = text::split_head(relative_path);
    let months: String = match months {
        Some(months) => months,
        None => {
            return None;
        },
    };
    let (month, days) = text::split_head(months.as_str());
    let days: String = match days {
        Some(days) => days,
        None => {
            return None;
        },
    };
    let (day, _) = text::split_head(days.as_str());
    match (
        text::parse_i32(year.as_str()),
        text::parse_u32(month.as_str()),
        text::parse_u32(day.as_str()),
    ) {
        (Some(year), Some(month), Some(day)) => CivilDate::from_ymd_opt(year, month, day),
        _ => None,
    }
}

/// Whether the log at a path may hold events of the window: those of a day stand in the log of that
/// day, the day before or the day after; a log without a day may hold any.
pub open spec fn path_in_window(
    path: Seq<char>,
    since: Option<CivilDate>,
    until: Option<CivilDate>,
) -> bool {
    path_date(path) matches Some(date) ==> {
        &&& since matches Some(since) ==> date.number() >= since.number() - 1
        &&& until matches Some(until) ==> date.number() <= until.number() + 1
    }
}

/// Whether the log at a path may hold events of the window.
pub fn file_matches_date_window(
    relative_path: &str,
    since: Option<CivilDate>,
    until: Option<CivilDate>,
) -> (matches_window: bool)
    requires
        window_wf(since, until),
    ensures
        matches_window == path_in_window(relative_path@, since, until),
{
    let date: CivilDate = match parse_date_from_relative_path(relative_path) {
        Some(date) => date,
        None => {
            return true;
        },
    };
    if let Some(since) = since {
        if calendar::well_before(&date, &since) {
            return false;
        }
    }
    if let Some(until) = until {
        if calendar::well_after(&date, &until) {
            return false;
        }
    }
    true
}

/// Whether an entry of a directory is a session log: a file with the extension of logs.
pub fn is_session_log(is_file: bool, extension: Option<&str>) -> (log: bool)
    ensures
        log <==> is_file && (extension matches Some(extension) && extension@ == LOG_EXTENSION@),
{
    match extension {
        Some(extension) => is_file && text::same_text(extension, LOG_EXTENSION),
        None => false,
    }
}

/// The path by which an entry of the log directory is known, if it is a log that may hold events of
/// the window.
pub fn log_path(
    is_file: bool,
    extension: Option<&str>,
    relative_path: &str,
    since: Option<CivilDate>,
    until: Option<CivilDate>,
) -> (path: Option<String>)
    requires
        window_wf(since, until),
    ensures
        path is Some <==> (is_file && (extension matches Some(extension) && extension@
            == LOG_EXTENSION@) && path_in_window(text::slashed(relative_path@), since, until)),
        path matches Some(path) ==> path@ == text::slashed(relative_path@),
{
    if !is_session_log(is_file, extension) {
        return None;
    }
    let path = text::slash_separated(relative_path);
    if file_matches_date_window(path.as_str(), since, until) {
        Some(path)
    } else {
        None
    }
}

/// A session log: its path below the log directory, its size, when it was changed, and the place
/// of its full path in the list of those that were found.
pub struct CandidateModel {
    pub relative_path: Seq<char>,
    pub file_size: u64,
    pub modified_unix_ms: i64,
    pub entry: usize,
}

/// A session log: its path below the log directory, its size, when it was changed, and the place
/// of its full path in the list of those that were found.
#[derive(Debug, PartialEq, Eq)]
pub struct FileCandidate {
    pub relative_path: String,
    pub file_size: u64,
    pub modified_unix_ms: i64,
    pub entry: usize,
}

impl View for FileCandidate {
    type V = CandidateModel;

    open spec fn view(&self) -> CandidateModel {
        CandidateModel {
            relative_path: self.relative_path@,
            file_size: self.file_size,
            modified_unix_ms: self.modified_unix_ms,
            entry: self.entry,
        }
    }
}

impl Clone for FileCandidate {
    fn clone(&self) -> (copy: FileCandidate)
        ensures
            copy@ == self@,
    {
        FileCandidate {
            relative_path: self.relative_path.clone(),
            file_size: self.file_size,
            modified_unix_ms: self.modified_unix_ms,
            entry: self.entry,
        }
    }
}

/// Logs are ranked by their paths.
impl Ranked for FileCandidate {
    open spec fn ranks_up_to(self, other: FileCandidate) -> bool {
        !text::precedes(other.relative_path@, self.relative_path@)
    }

    fn is_up_to(&self, other: &FileCandidate) -> (up_to: bool) {
        !text::text_precedes(other.relative_path.as_str(), self.relative_path.as_str())
    }

    proof fn ranks_total(a: FileCandidate, b: FileCandidate) {
        text::lemma_not_after_total(a.relative_path@, b.relative_path@);
    }

    proof fn ranks_transitive(a: FileCandidate, b: FileCandidate, c: FileCandidate) {
        text::lemma_not_after_transitive(a.relative_path@, b.relative_path@, c.relative_path@);
    }
}

/// The logs in the order of their paths.
pub fn sort_candidates(files: Vec<FileCandidate>) -> (sorted: Vec<FileCandidate>)
    ensures
        ordering::is_stable_sort(sorted@, files@),
{
    ordering::sort_by_rank(files)
}

/// Whether a log still has the size and the time of change that it had when it was cached.
pub open spec fn is_hit(candidate: CandidateModel, cached: CachedSessionSummary) -> bool {
    candidate.file_size == cached.file_size && candidate.modified_unix_ms
        == cached.modified_unix_ms
}

/// Whether a log still has the size and the time of change that it had when it was cached.
pub fn is_cache_hit(candidate: &FileCandidate, cached: &CachedSessionSummary) -> (hit: bool)
    ensures
        hit == is_hit(candidate@, *cached),
{
    candidate.file_size == cached.file_size && candidate.modified_unix_ms
        == cached.modified_unix_ms
}

/// Where the entry of a log comes from.
pub enum SessionEntryPlan {
    /// From the cache.
    Cached(CachedSessionSummary),
    /// From the log.
    Parse(FileCandidate),
}

/// The cached sessions that a scan starts from: none where the cache is left aside.
pub open spec fn entries_for_scan(
    options: ScanOptions,
    file: CacheFile<CachedSessionSummary>,
) -> Seq<CachedSessionSummary> {
    if options.refresh_cache {
        Seq::empty()
    } else {
        cache::entries_in(file)
    }
}

/// The cached sessions that a scan starts from, and whether the cache has to be written anew even
/// if they stay the same: it is left aside, missing or corrupt.
pub fn load_for_scan(options: &ScanOptions, file: CacheFile<CachedSessionSummary>) -> (load:
    CacheLoad<Vec<CachedSessionSummary>>)
    ensures
        load.entries@ == entries_for_scan(*options, file),
        load.needs_rewrite <==> options.refresh_cache || !(file is Entries),
{
    if options.refresh_cache {
        CacheLoad { entries: Vec::new(), needs_rewrite: true }
    } else {
        cache::load_cache_state(file)
    }
}

/// The cached sessions by the paths of their logs; of two with one path the later counts.
pub open spec fn cached_by_path(entries: Seq<CachedSessionSummary>) -> Map<
    Seq<char>,
    CachedSessionSummary,
>
    decreases entries.len(),
{
    if entries.len() == 0 {
        Map::empty()
    } else {
        cached_by_path(entries.drop_last()).insert(
            entries.last().session.session_path@,
            entries.last(),
        )
    }
}

/// Whether a log with the path is among the first `n` of the list.
pub open spec fn path_before(files: Seq<FileCandidate>, n: int, path: Seq<char>) -> bool {
    exists|i: int| 0 <= i < n && (#[trigger] files[i]).relative_path@ == path
}

/// Whether the entry of a log is taken from the cache: it is cached, is not taken for an earlier log
/// already, and the log is as it was.
pub open spec fn from_cache(
    files: Seq<FileCandidate>,
    n: int,
    cached: Map<Seq<char>, CachedSessionSummary>,
) -> bool {
    let path = files[n].relative_path@;
    cached.dom().contains(path) && !path_before(files, n, path) && is_hit(files[n]@, cached[path])
}

/// Whether a plan says where the entry of a log comes from.
pub open spec fn plan_fits(
    plan: SessionEntryPlan,
    files: Seq<FileCandidate>,
    n: int,
    cached: Map<Seq<char>, CachedSessionSummary>,
) -> bool {
    match plan {
        SessionEntryPlan::Cached(entry) => from_cache(files, n, cached) && entry
            == cached[files[n].relative_path@],
        SessionEntryPlan::Parse(file) => !from_cache(files, n, cached) && file@ == files[n]@,
    }
}

/// The cached sessions whose logs are not among the files.
pub open spec fn leftover_of(
    files: Seq<FileCandidate>,
    n: int,
    cached: Map<Seq<char>, CachedSessionSummary>,
) -> Map<Seq<char>, CachedSessionSummary> {
    cached.restrict(
        Set::new(
            |path: Seq<char>| cached.dom().contains(path) && !path_before(files, n, path),
        ),
    )
}

/// Where the entries of logs come from, and the cached sessions that no log asks for.
pub struct ScanPlan {
    pub plans: Vec<SessionEntryPlan>,
    pub leftover: TextMap<CachedSessionSummary>,
}

/// The cached sessions by the paths of their logs.
fn index_by_path(entries: Vec<CachedSessionSummary>) -> (by_path: TextMap<CachedSessionSummary>)
    ensures
        by_path@ == cached_by_path(entries@),
{
    let ghost all = entries@;
    let mut by_path: TextMap<CachedSessionSummary> = TextMap::new();
    for entry in it: entries
        invariant
            it.seq() == all,
            by_path@ == cached_by_path(all.take(it.index() as int)),
    {
        proof {
            let i = it.index() as int;
            assert(all.take(i + 1).drop_last() =~= all.take(i));
        }
        let path = entry.session.session_path.clone();
        by_path.insert(path, entry);
    }
    proof {
        assert(all.take(all.len() as int) =~= all);
    }
    by_path
}

/// Decides for each log whether its entry comes from the cache.
pub fn plan_scan(files: &[FileCandidate], cached: Vec<CachedSessionSummary>) -> (plan: ScanPlan)
    ensures
        plan.plans@.len() == files@.len(),
        forall|i: int|
            0 <= i < files@.len() ==> plan_fits(
                #[trigger] plan.plans@[i],
                files@,
                i,
                cached_by_path(cached@),
            ),
        plan.leftover@ == leftover_of(files@, files@.len() as int, cached_by_path(cached@)),
{
    let ghost all = cached_by_path(cached@);
    let mut leftover = index_by_path(cached);
    let mut plans: Vec<SessionEntryPlan> = Vec::new();
    proof {
        assert(leftover@ =~= leftover_of(files@, 0, all));
    }
    let mut i: usize = 0;
    while i < files.len()
        invariant
            i <= files@.len(),
            plans@.len() == i,
            forall|j: int| 0 <= j < i ==> plan_fits(#[trigger] plans@[j], files@, j, all),
            leftover@ == leftover_of(files@, i as int, all),
        decreases files@.len() - i,
    {
        let file = &files[i];
        let ghost before = leftover@;
        let plan = match leftover.remove(file.relative_path.as_str()) {
            Some(entry) => if is_cache_hit(file, &entry) {
                SessionEntryPlan::Cached(entry)
            } else {
                SessionEntryPlan::Parse(file.clone())
            },
            None => SessionEntryPlan::Parse(file.clone()),
        };
        proof {
            let path = file.relative_path@;
            assert(plan_fits(plan, files@, i as int, all));
            assert forall|other: Seq<char>| #[trigger]
                path_before(files@, i + 1, other) <==> path_before(files@, i as int, other) || other
                    == path by {
                if other == path {
                    assert(files@[i as int].relative_path@ == other);
                }
            }
            assert(leftover@ =~= leftover_of(files@, i + 1, all));
        }
        plans.push(plan);
        i = i + 1;
    }
    ScanPlan { plans, leftover }
}

/// The logs that have to be read.
pub open spec fn to_parse(plans: Seq<SessionEntryPlan>) -> Seq<CandidateModel>
    decreases plans.len(),
{
    if plans.len() == 0 {
        Seq::empty()
    } else {
        let before = to_parse(plans.drop_last());
        match plans.last() {
            SessionEntryPlan::Parse(file) => before.push(file@),
            SessionEntryPlan::Cached(_) => before,
        }
    }
}

/// The candidates of a list.
pub open spec fn candidate_models(files: Seq<FileCandidate>) -> Seq<CandidateModel> {
    files.map_values(|file: FileCandidate| file@)
}

impl ScanPlan {
    /// The logs that have to be read, in their order.
    pub fn files_to_parse(&self) -> (files: Vec<FileCandidate>)
        ensures
            candidate_models(files@) == to_parse(self.plans@),
    {
        let mut files: Vec<FileCandidate> = Vec::new();
        let mut i: usize = 0;
        proof {
            assert(candidate_models(files@) =~= Seq::empty());
        }
        while i < self.plans.len()
            invariant
                i <= self.plans@.len(),
                candidate_models(files@) == to_parse(self.plans@.take(i as int)),
            decreases self.plans@.len() - i,
        {
            let ghost before = files@;
            proof {
                assert(self.plans@.take(i + 1).drop_last() =~= self.plans@.take(i as int));
            }
            if let SessionEntryPlan::Parse(file) = &self.plans[i] {
                let copy = file.clone();
                files.push(copy);
                assert(candidate_models(files@) =~= candidate_models(before).push(copy@));
            }
            i = i + 1;
        }
        proof {
            assert(self.plans@.take(i as int) =~= self.plans@);
        }
        files
    }
}

/// The entry of a log: the cached one, or what was read from the log.
pub open spec fn entry_of(
    plans: Seq<SessionEntryPlan>,
    parsed: Seq<SessionSummary>,
    i: int,
) -> CachedSessionSummary {
    match plans[i] {
        SessionEntryPlan::Cached(entry) => entry,
        SessionEntryPlan::Parse(file) => CachedSessionSummary {
            file_size: file.file_size,
            modified_unix_ms: file.modified_unix_ms,
            session: parsed[to_parse(plans.take(i)).len() as int],
        },
    }
}

proof fn lemma_to_parse_grows(plans: Seq<SessionEntryPlan>, n: int)
    requires
        0 <= n <= plans.len(),
    ensures
        to_parse(plans.take(n)).len() <= to_parse(plans).len(),
    decreases plans.len() - n,
{
    if n < plans.len() {
        lemma_to_parse_grows(plans, n + 1);
        assert(plans.take(n + 1).drop_last() =~= plans.take(n));
    } else {
        assert(plans.take(n) =~= plans);
    }
}

/// The values of a list in reverse order.
fn reversed<T>(values: Vec<T>) -> (back: Vec<T>)
    ensures
        back@ == values@.reverse(),
{
    let ghost all = values@;
    let mut rest = values;
    let mut back: Vec<T> = Vec::new();
    while rest.len() > 0
        invariant
            rest@.len() + back@.len() == all.len(),
            rest@ == all.take(rest@.len() as int),
            forall|i: int| 0 <= i < back@.len() ==> back@[i] == all[all.len() - 1 - i],
        decreases rest@.len(),
    {
        match rest.pop() {
            Some(value) => {
                back.push(value);
            },
            None => {
                return back;
            },
        }
    }
    proof {
        assert(back@ =~= all.reverse());
    }
    back
}

/// The entries of the logs, given what was read from those that had to be read.
pub fn assemble_entries(plans: Vec<SessionEntryPlan>, parsed: Vec<SessionSummary>) -> (entries: Vec<
    CachedSessionSummary,
>)
    requires
        parsed@.len() == to_parse(plans@).len(),
    ensures
        entries@.len() == plans@.len(),
        forall|i: int|
            0 <= i < plans@.len() ==> #[trigger] entries@[i] == entry_of(plans@, parsed@, i),
{
    let ghost all = plans@;
    let ghost read = parsed@;
    let mut rest = reversed(parsed);
    let mut entries: Vec<CachedSessionSummary> = Vec::new();
    proof {
        assert(to_parse(all.take(0)) =~= Seq::empty());
    }
    for plan in it: plans
        invariant
            it.seq() == all,
            read.len() == to_parse(all).len(),
            entries@.len() == it.index(),
            rest@.len() + to_parse(all.take(it.index() as int)).len() == read.len(),
            rest@ == read.skip(to_parse(all.take(it.index() as int)).len() as int).reverse(),
            forall|i: int|
                0 <= i < it.index() ==> #[trigger] entries@[i] == entry_of(all, read, i),
    {
        let ghost n = it.index() as int;
        let ghost used = to_parse(all.take(n)).len() as int;
        proof {
            assert(all.take(n + 1).drop_last() =~= all.take(n));
            lemma_to_parse_grows(all, n + 1);
        }
        match plan {
            SessionEntryPlan::Cached(entry) => {
                entries.push(entry);
            },
            SessionEntryPlan::Parse(file) => {
                match rest.pop() {
                    Some(session) => {
                        proof {
                            assert(session == read[used]);
                            assert(rest@ =~= read.skip(used + 1).reverse());
                        }
                        entries.push(
                            CachedSessionSummary {
                                file_size: file.file_size,
                                modified_unix_ms: file.modified_unix_ms,
                                session,
                            },
                        );
                    },
                    None => {
                        proof {
                            assert(false);
                        }
                    },
                }
            },
        }
    }
    entries
}

/// Whether the cache has to be written after a scan: it was left aside, is not there or not whole,
/// a log was read, or a log is gone that was cached.
pub open spec fn changes_cache(
    options: ScanOptions,
    cache_existed: bool,
    needs_rewrite: bool,
    plans: Seq<SessionEntryPlan>,
    leftover: Map<Seq<char>, CachedSessionSummary>,
) -> bool {
    ||| options.refresh_cache
    ||| !cache_existed
    ||| needs_rewrite
    ||| to_parse(plans).len() > 0
    ||| !options.windowed() && leftover != Map::<Seq<char>, CachedSessionSummary>::empty()
}

/// Whether the cache has to be written after a scan.
pub fn cache_changed(
    options: &ScanOptions,
    cache_existed: bool,
    needs_rewrite: bool,
    files_to_parse: &[FileCandidate],
    plan: &ScanPlan,
) -> (changed: bool)
    requires
        candidate_models(files_to_parse@) == to_parse(plan.plans@),
    ensures
        changed == changes_cache(
            *options,
            cache_existed,
            needs_rewrite,
            plan.plans@,
            plan.leftover@,
        ),
{
    proof {
        assert(files_to_parse@.len() == candidate_models(files_to_parse@).len());
    }
    options.refresh_cache || !cache_existed || needs_rewrite || files_to_parse.len() > 0 || (
    !options.has_window() && !plan.leftover.is_empty())
}

/// An entry that goes into the cache.
pub struct SavedEntry<'a> {
    pub entry: &'a CachedSessionSummary,
}

/// The entries that go into the cache.
pub open spec fn saved_models<'a>(saved: Seq<SavedEntry<'a>>) -> Seq<EntryModel> {
    saved.map_values(|kept: SavedEntry<'a>| kept.entry@)
}

/// Entries are ranked by the paths of their logs.
impl<'a> Ranked for SavedEntry<'a> {
    open spec fn ranks_up_to(self, other: SavedEntry<'a>) -> bool {
        !text::precedes(other.entry.session.session_path@, self.entry.session.session_path@)
    }

    fn is_up_to(&self, other: &SavedEntry<'a>) -> (up_to: bool) {
        !text::text_precedes(
            other.entry.session.session_path.as_str(),
            self.entry.session.session_path.as_str(),
        )
    }

    proof fn ranks_total(a: SavedEntry<'a>, b: SavedEntry<'a>) {
        text::lemma_not_after_total(a.entry.session.session_path@, b.entry.session.session_path@);
    }

    proof fn ranks_transitive(a: SavedEntry<'a>, b: SavedEntry<'a>, c: SavedEntry<'a>) {
        text::lemma_not_after_transitive(
            a.entry.session.session_path@,
            b.entry.session.session_path@,
            c.entry.session.session_path@,
        );
    }
}

/// The entries that go into the cache: those of the logs, and, where only some days were asked for,
/// the cached ones that no log asked for.
pub open spec fn entries_to_save<'a>(
    entries: Seq<CachedSessionSummary>,
    leftover: Seq<(Seq<char>, CachedSessionSummary)>,
    windowed: bool,
) -> Seq<SavedEntry<'a>> {
    let scanned = entries.map_values(|entry: CachedSessionSummary| SavedEntry { entry: &entry });
    if windowed {
        scanned + leftover.map_values(
            |kept: (Seq<char>, CachedSessionSummary)| SavedEntry { entry: &kept.1 },
        )
    } else {
        scanned
    }
}

/// The entries that go into the cache, in the order of the paths of their logs.
pub fn cache_entries<'a>(
    options: &ScanOptions,
    entries: &'a [CachedSessionSummary],
    leftover: &'a TextMap<CachedSessionSummary>,
) -> (saved: Vec<SavedEntry<'a>>)
    ensures
        ordering::is_stable_sort(
            saved@,
            entries_to_save(entries@, leftover.entries(), options.windowed()),
        ),
{
    let mut saved: Vec<SavedEntry<'a>> = Vec::new();
    let mut i: usize = 0;
    while i < entries.len()
        invariant
            i <= entries@.len(),
            saved@.len() == i,
            forall|j: int| 0 <= j < i ==> (#[trigger] saved@[j]).entry == entries@[j],
        decreases entries@.len() - i,
    {
        saved.push(SavedEntry { entry: &entries[i] });
        i = i + 1;
    }
    if options.has_window() {
        let n = leftover.len();
        let mut k: usize = 0;
        while k < n
            invariant
                k <= n == leftover.entries().len(),
                saved@.len() == entries@.len() + k,
                forall|j: int|
                    0 <= j < entries@.len() ==> (#[trigger] saved@[j]).entry == entries@[j],
                forall|j: int|
                    entries@.len() <= j < saved@.len() ==> (#[trigger] saved@[j]).entry
                        == leftover.entries()[j - entries@.len()].1,
            decreases n - k,
        {
            saved.push(SavedEntry { entry: leftover.value_at(k) });
            k = k + 1;
        }
    }
    proof {
        assert(saved@ =~= entries_to_save(entries@, leftover.entries(), options.windowed()));
    }
    ordering::sort_by_rank(saved)
}

/// The sessions of the entries.
pub fn into_sessions(entries: Vec<CachedSessionSummary>) -> (sessions: Vec<SessionSummary>)
    ensures
        sessions@ == entries@.map_values(|entry: CachedSessionSummary| entry.session),
{
    let ghost all = entries@;
    let mut sessions: Vec<SessionSummary> = Vec::new();
    for entry in it: entries
        invariant
            it.seq() == all,
            sessions@.len() == it.index(),
            forall|i: int| 0 <= i < it.index() ==> sessions@[i] == all[i].session,
    {
        sessions.push(entry.session);
    }
    proof {
        assert(sessions@ =~= all.map_values(|entry: CachedSessionSummary| entry.session));
    }
    sessions
}

} // verus!
