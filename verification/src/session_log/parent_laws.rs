//! How the parents of forks are found, and what a manifest lists.

use crate::calendar::CivilDate;
use crate::collection_laws;
use crate::ordering;
use crate::ordering::Ranked;
use crate::session_log::manifest;
use crate::session_log::manifest::DirectoryCandidate;
use crate::session_log::parents;
use crate::session_log::parents::{ChildParentSpec, ForkPlan, ParentSearch};
use crate::session_log::parser::SessionFileIdentity;
use crate::session_log::scanner;
use crate::session_log::scanner::FileCandidate;
use crate::text;
use crate::text_map::TextMap;
use crate::types::{CachedManifestDirectory, CachedManifestFile};
use vstd::prelude::*;

verus! {

/// Among no logs there are neither forks nor parents. One more log is a parent under the name of its
/// session, in place of an earlier one of that name, and a fork where it names a parent; the forks
/// before stay.
pub proof fn lemma_one_more_log(
    files: &[FileCandidate],
    identities: &[SessionFileIdentity],
    more_files: &[FileCandidate],
    more_identities: &[SessionFileIdentity],
    file: FileCandidate,
    identity: SessionFileIdentity,
    before: ForkPlan,
    after: ForkPlan,
)
    requires
        files@.len() == identities@.len(),
        more_files@ == files@.push(file),
        more_identities@ == identities@.push(identity),
        call_ensures(parents::plan_forks, (files, identities), before),
        call_ensures(parents::plan_forks, (more_files, more_identities), after),
    ensures
        files@.len() == 0 ==> before.parents@.dom() =~= Set::<Seq<char>>::empty()
            && before.children@.len() == 0,
        identity.session_id is None ==> after.parents@ == before.parents@,
        identity.session_id matches Some(id) ==> after.parents@ == before.parents@.insert(
            id@,
            file.entry,
        ),
        identity.forked_from_id is None ==> parents::child_models(after.children@)
            == parents::child_models(before.children@),
        identity.forked_from_id matches Some(parent) ==> {
            &&& after.children@.len() == before.children@.len() + 1
            &&& parents::child_models(after.children@).drop_last() == parents::child_models(
                before.children@,
            )
            &&& after.children@.last().child_relative_path@ == file.relative_path@
            &&& after.children@.last().parent_id@ == parent@
            &&& after.children@.last().child_started_at_unix_ms == identity.started_at_unix_ms
        },
{
    let n = files@.len() as int;
    lemma_of_first(files@, identities@, more_files@, more_identities@, n);
    let (some, all) = (
        parents::child_models(before.children@),
        parents::child_models(after.children@),
    );
    assert(some.len() == before.children@.len());
    assert(all.len() == after.children@.len());
    assert(more_identities@[n] == identity);
    assert(more_files@[n] == file);
    if identity.forked_from_id is Some {
        assert(all.drop_last() =~= some);
        assert(all.last() == after.children@.last()@);
    }
}

proof fn lemma_of_first(
    files: Seq<FileCandidate>,
    identities: Seq<SessionFileIdentity>,
    more_files: Seq<FileCandidate>,
    more_identities: Seq<SessionFileIdentity>,
    n: int,
)
    requires
        files.len() == identities.len(),
        n <= files.len() <= more_files.len(),
        n <= identities.len() <= more_identities.len(),
        forall|i: int| 0 <= i < files.len() ==> #[trigger] files[i] == more_files[i],
        forall|i: int| 0 <= i < identities.len() ==> #[trigger] identities[i] == more_identities[i],
    ensures
        parents::entries_by_id(files, identities, n) == parents::entries_by_id(
            more_files,
            more_identities,
            n,
        ),
        parents::children_of(files, identities, n) == parents::children_of(
            more_files,
            more_identities,
            n,
        ),
    decreases n,
{
    if n > 0 {
        lemma_of_first(files, identities, more_files, more_identities, n - 1);
        assert(files[n - 1] == more_files[n - 1]);
        assert(identities[n - 1] == more_identities[n - 1]);
    }
}

/// A parent is missing where a fork names it and no log is of that name.
pub proof fn lemma_parents_that_are_missing(
    files: &[FileCandidate],
    identities: &[SessionFileIdentity],
    plan: ForkPlan,
    id: Seq<char>,
)
    requires
        call_ensures(parents::plan_forks, (files, identities), plan),
    ensures
        plan.missing@.dom().contains(id) <==> !plan.parents@.dom().contains(id) && exists|i: int|
            0 <= i < plan.children@.len() && (#[trigger] plan.children@[i]).parent_id@ == id,
{
    let models = parents::child_models(plan.children@);
    assert(models.len() == plan.children@.len());
    if plan.missing@.dom().contains(id) {
        let i = choose|i: int| 0 <= i < models.len() && (#[trigger] models[i]).parent_id == id;
        assert(plan.children@[i].parent_id@ == id);
    }
    if exists|i: int|
        0 <= i < plan.children@.len() && (#[trigger] plan.children@[i]).parent_id@ == id {
        let i = choose|i: int|
            0 <= i < plan.children@.len() && (#[trigger] plan.children@[i]).parent_id@ == id;
        assert(models[i].parent_id == id);
    }
}

/// A search starts with all that is wanted and nothing found; it is idle where nothing is wanted.
pub proof fn lemma_searches(wanted: TextMap<()>, search: ParentSearch, other: &ParentSearch, idle: bool)
    requires
        call_ensures(ParentSearch::new, (wanted,), search),
        call_ensures(ParentSearch::is_idle, (other,), idle),
    ensures
        search.wanted == wanted,
        search.found@.dom() =~= Set::<Seq<char>>::empty(),
        idle <==> other.wanted@.dom() =~= Set::<Seq<char>>::empty(),
{
    if other.wanted@.dom() =~= Set::<Seq<char>>::empty() {
        assert(other.wanted@ =~= Map::<Seq<char>, ()>::empty());
    }
}

/// Of the wanted sessions that the name of a log ends with, before the ending of logs, the first is
/// meant.
pub proof fn lemma_first_of_the_wanted(
    search: &ParentSearch,
    file_name: &str,
    id: String,
    start: Seq<char>,
    name: Seq<char>,
)
    requires
        call_ensures(ParentSearch::wanted_by, (search, file_name), Some(id)),
        search.wanted@.dom().contains(name),
        file_name@ == start + name + ".jsonl"@,
    ensures
        id@ == name || text::precedes(id@, name),
{
    let suffix = name + ".jsonl"@;
    assert(file_name@ =~= start + suffix);
    assert(file_name@.skip(file_name@.len() - suffix.len()) =~= suffix);
    assert(search.wanted@.dom().contains(name) && parents::names_session(file_name@, name));
}

/// The session that is meant is a wanted one, and the name of the log ends with its name and the
/// ending of logs.
pub proof fn lemma_wanted_by_its_end(search: &ParentSearch, file_name: &str, id: String)
    requires
        call_ensures(ParentSearch::wanted_by, (search, file_name), Some(id)),
    ensures
        search.wanted@.dom().contains(id@),
        file_name@.len() >= id@.len() + 6,
        file_name@.skip(file_name@.len() - id@.len() - 6) == id@ + ".jsonl"@,
{
    reveal_strlit(".jsonl");
}

/// A log is found under the name of its session where that is the wanted one, and else not; the
/// search is complete with it where every wanted session is found.
pub proof fn lemma_search_takes_in_logs(
    search: &mut ParentSearch,
    id: String,
    identity: &SessionFileIdentity,
    entry: usize,
    complete: bool,
)
    requires
        call_ensures(ParentSearch::observe, (search, id, identity, entry), complete),
    ensures
        final(search).wanted == old(search).wanted,
        identity.session_id is None ==> final(search).found@ == old(search).found@ && !complete,
        identity.session_id matches Some(name) ==> (name@ != id@ ==> final(search).found@ == old(
            search,
        ).found@ && !complete),
        identity.session_id matches Some(name) ==> (name@ == id@ ==> final(search).found@ == old(
            search,
        ).found@.insert(id@, entry) && (complete <==> old(search).wanted@.dom().subset_of(
            final(search).found@.dom(),
        ))),
{
}

/// The parent of a fork is the log of that name among those at hand, or else the one that was
/// found.
pub proof fn lemma_parent_of_a_fork(
    child: &ChildParentSpec,
    at_hand: &TextMap<usize>,
    found: &TextMap<usize>,
    entry: Option<usize>,
)
    requires
        call_ensures(parents::parent_entry, (child, at_hand, found), entry),
    ensures
        at_hand@.dom().contains(child.parent_id@) ==> entry == Some(at_hand@[child.parent_id@]),
        !at_hand@.dom().contains(child.parent_id@) && found@.dom().contains(child.parent_id@)
            ==> entry == Some(found@[child.parent_id@]),
        !at_hand@.dom().contains(child.parent_id@) && !found@.dom().contains(child.parent_id@)
            ==> entry is None,
{
}

/// A manifest is named after its cache.
pub proof fn lemma_names_of_manifests(stem: &str, named: String, unnamed: String)
    requires
        call_ensures(manifest::manifest_name, (Some(stem),), named),
        call_ensures(manifest::manifest_name, (None,), unnamed),
    ensures
        named@ == stem@ + "-manifest.bin"@,
        unnamed@ == "session-cache"@ + "-manifest.bin"@,
{
}

/// A directory of a day is known by its path with slashes; any other is not.
pub proof fn lemma_directories_of_days(
    is_dir: bool,
    relative_dir: &str,
    slashed: String,
    known_by: &str,
    date: Option<CivilDate>,
    path: Option<String>,
)
    requires
        call_ensures(manifest::day_directory, (is_dir, relative_dir), path),
        call_ensures(text::slash_separated, (relative_dir,), slashed),
        known_by@ == slashed@,
        call_ensures(scanner::parse_date_from_relative_path, (known_by,), date),
    ensures
        path is Some <==> is_dir && date is Some,
        path matches Some(path) ==> path@ == slashed@,
{
}

/// Directories are put in the order of their paths: the same ones, each as often.
pub proof fn lemma_directories_in_order(
    directories: Vec<DirectoryCandidate>,
    sorted: Vec<DirectoryCandidate>,
)
    requires
        call_ensures(manifest::sort_directories, (directories,), sorted),
    ensures
        sorted@.to_multiset() == directories@.to_multiset(),
        forall|i: int, j: int|
            0 <= i < j < sorted@.len() ==> (#[trigger] sorted@[i]).relative_dir@ == (
            #[trigger] sorted@[j]).relative_dir@ || text::precedes(
                sorted@[i].relative_dir@,
                sorted@[j].relative_dir@,
            ),
{
    assert forall|i: int, j: int| 0 <= i < j < sorted@.len() implies (
    #[trigger] sorted@[i]).relative_dir@ == (#[trigger] sorted@[j]).relative_dir@
        || text::precedes(sorted@[i].relative_dir@, sorted@[j].relative_dir@) by {
        assert(sorted@[i].ranks_up_to(sorted@[j]));
        text::lemma_precedes_total(sorted@[i].relative_dir@, sorted@[j].relative_dir@);
    }
}

/// Whether files come in the order of their paths.
pub open spec fn in_order(files: Seq<CachedManifestFile>) -> bool {
    forall|i: int, j: int|
        0 <= i < j < files.len() ==> (#[trigger] files[i]).relative_path@ == (
        #[trigger] files[j]).relative_path@ || text::precedes(
            files[i].relative_path@,
            files[j].relative_path@,
        )
}

proof fn lemma_in_order(files: Seq<CachedManifestFile>)
    requires
        ordering::in_rank_order(files),
    ensures
        in_order(files),
{
    assert forall|i: int, j: int| 0 <= i < j < files.len() implies (
    #[trigger] files[i]).relative_path@ == (#[trigger] files[j]).relative_path@ || text::precedes(
        files[i].relative_path@,
        files[j].relative_path@,
    ) by {
        assert(files[i].ranks_up_to(files[j]));
        text::lemma_precedes_total(files[i].relative_path@, files[j].relative_path@);
    }
}

/// A manifest lists a directory with its time and its files, in the order of their paths.
pub proof fn lemma_entries_of_manifests(
    directory: &DirectoryCandidate,
    files: Vec<CachedManifestFile>,
    entry: CachedManifestDirectory,
)
    requires
        call_ensures(manifest::manifest_entry, (directory, files), entry),
    ensures
        entry.relative_dir@ == directory.relative_dir@,
        entry.modified_unix_ms == directory.modified_unix_ms,
        entry.files@.to_multiset() == files@.to_multiset(),
        in_order(entry.files@),
{
    lemma_in_order(entry.files@);
}

/// Whether a manifest lists a file.
pub open spec fn is_listed(
    directories: Seq<CachedManifestDirectory>,
    file: CachedManifestFile,
) -> bool {
    exists|d: int| 0 <= d < directories.len() && (#[trigger] directories[d]).files@.contains(file)
}

proof fn lemma_listed(directories: Seq<CachedManifestDirectory>, file: CachedManifestFile)
    ensures
        manifest::listed_files(directories).contains(file) <==> is_listed(directories, file),
    decreases directories.len(),
{
    if directories.len() > 0 {
        let fewer = directories.drop_last();
        let last = directories.len() - 1;
        lemma_listed(fewer, file);
        let before = manifest::listed_files(fewer);
        let all = manifest::listed_files(directories);
        assert(all =~= before + directories[last].files@);
        if all.contains(file) {
            let i = choose|i: int| 0 <= i < all.len() && all[i] == file;
            if i < before.len() {
                assert(before[i] == file);
                assert(before.contains(file));
                let d = choose|d: int|
                    0 <= d < fewer.len() && (#[trigger] fewer[d]).files@.contains(file);
                assert(directories[d].files@.contains(file));
            } else {
                assert(directories[last].files@[i - before.len()] == file);
                assert(directories[last].files@.contains(file));
            }
        }
        if is_listed(directories, file) {
            let d = choose|d: int|
                0 <= d < directories.len() && (#[trigger] directories[d]).files@.contains(file);
            if d < last {
                assert(fewer[d].files@.contains(file));
                let i = choose|i: int| 0 <= i < before.len() && before[i] == file;
                assert(all[i] == file);
            } else {
                let i = choose|i: int|
                    0 <= i < directories[last].files@.len() && directories[last].files@[i] == file;
                assert(all[before.len() + i] == file);
            }
        }
    }
}

/// A manifest gives the files that it lists and that may hold events of the window, and no others,
/// in the order of their paths.
pub proof fn lemma_files_of_manifests(
    directories: Vec<CachedManifestDirectory>,
    since: Option<CivilDate>,
    until: Option<CivilDate>,
    files: Vec<CachedManifestFile>,
    file: CachedManifestFile,
    path: &str,
    inside: bool,
)
    requires
        call_ensures(manifest::manifest_files, (directories, since, until), files),
        path@ == file.relative_path@,
        call_ensures(scanner::file_matches_date_window, (path, since, until), inside),
    ensures
        in_order(files@),
        files@.contains(file) <==> is_listed(directories@, file) && inside,
{
    broadcast use vstd::seq_lib::group_to_multiset_ensures;

    lemma_in_order(files@);
    lemma_listed(directories@, file);
    let all = manifest::listed_files(directories@);
    let keep = |file: CachedManifestFile|
        scanner::path_in_window(file.relative_path@, since, until);
    let kept = all.filter(keep);
    lemma_filter_contains(all, keep, file);
    assert(files@.to_multiset() == kept.to_multiset());
    assert(files@.contains(file) <==> files@.to_multiset().count(file) > 0);
    assert(kept.contains(file) <==> kept.to_multiset().count(file) > 0);
}

proof fn lemma_filter_contains(
    all: Seq<CachedManifestFile>,
    keep: spec_fn(CachedManifestFile) -> bool,
    file: CachedManifestFile,
)
    ensures
        all.filter(keep).contains(file) <==> all.contains(file) && keep(file),
    decreases all.len(),
{
    reveal(Seq::filter);
    if all.len() > 0 {
        let fewer = all.drop_last();
        lemma_filter_contains(fewer, keep, file);
        let kept = fewer.filter(keep);
        assert(all =~= fewer.push(all.last()));
        assert(all.contains(file) <==> fewer.contains(file) || all.last() == file) by {
            if all.contains(file) {
                let i = choose|i: int| 0 <= i < all.len() && all[i] == file;
                if i < fewer.len() {
                    assert(fewer[i] == file);
                }
            }
            if fewer.contains(file) {
                let i = choose|i: int| 0 <= i < fewer.len() && fewer[i] == file;
                assert(all[i] == file);
            }
            if all.last() == file {
                assert(all[all.len() - 1] == file);
            }
        }
        let pushed = kept.push(all.last());
        assert(pushed.contains(file) <==> kept.contains(file) || all.last() == file) by {
            if pushed.contains(file) {
                let i = choose|i: int| 0 <= i < pushed.len() && pushed[i] == file;
                if i < kept.len() {
                    assert(kept[i] == file);
                }
            }
            if kept.contains(file) {
                let i = choose|i: int| 0 <= i < kept.len() && kept[i] == file;
                assert(pushed[i] == file);
            }
            if all.last() == file {
                assert(pushed[pushed.len() - 1] == file);
            }
        }
    }
}

/// Directories of one path keep their order.
pub proof fn lemma_directories_of_one_path(
    directories: Vec<DirectoryCandidate>,
    sorted: Vec<DirectoryCandidate>,
    item: DirectoryCandidate,
)
    requires
        call_ensures(manifest::sort_directories, (directories,), sorted),
    ensures
        sorted@.filter(|other: DirectoryCandidate| other.relative_dir@ == item.relative_dir@)
            == directories@.filter(
            |other: DirectoryCandidate| other.relative_dir@ == item.relative_dir@,
        ),
{
    let same = |other: DirectoryCandidate| other.relative_dir@ == item.relative_dir@;
    assert forall|other: DirectoryCandidate| #[trigger]
        same(other) == ordering::same_rank(other, item) by {
        text::lemma_precedes_total(other.relative_dir@, item.relative_dir@);
        text::lemma_precedes_irreflexive(item.relative_dir@);
    }
    collection_laws::lemma_one_rank(sorted@, directories@, item, same);
}

/// Files of one path keep their order.
pub proof fn lemma_files_of_one_path(
    directory: &DirectoryCandidate,
    files: Vec<CachedManifestFile>,
    entry: CachedManifestDirectory,
    item: CachedManifestFile,
)
    requires
        call_ensures(manifest::manifest_entry, (directory, files), entry),
    ensures
        entry.files@.filter(
            |other: CachedManifestFile| other.relative_path@ == item.relative_path@,
        ) == files@.filter(
            |other: CachedManifestFile| other.relative_path@ == item.relative_path@,
        ),
{
    let same = |other: CachedManifestFile| other.relative_path@ == item.relative_path@;
    lemma_one_path(item);
    collection_laws::lemma_one_rank(entry.files@, files@, item, same);
}

proof fn lemma_one_path(item: CachedManifestFile)
    ensures
        forall|other: CachedManifestFile|
            (other.relative_path@ == item.relative_path@) == #[trigger] ordering::same_rank(
                other,
                item,
            ),
{
    assert forall|other: CachedManifestFile|
        (other.relative_path@ == item.relative_path@) == #[trigger] ordering::same_rank(
            other,
            item,
        ) by {
        text::lemma_precedes_total(other.relative_path@, item.relative_path@);
        text::lemma_precedes_irreflexive(item.relative_path@);
    }
}

/// How often a manifest lists a file.
pub open spec fn times_listed(
    directories: Seq<CachedManifestDirectory>,
    file: CachedManifestFile,
) -> nat
    decreases directories.len(),
{
    if directories.len() == 0 {
        0
    } else {
        times_listed(directories.drop_last(), file)
            + directories.last().files@.to_multiset().count(file)
    }
}

/// A file that may hold events of the window is given as often as a manifest lists it.
pub proof fn lemma_files_as_often_as_listed(
    directories: Vec<CachedManifestDirectory>,
    since: Option<CivilDate>,
    until: Option<CivilDate>,
    files: Vec<CachedManifestFile>,
    file: CachedManifestFile,
    path: &str,
)
    requires
        call_ensures(manifest::manifest_files, (directories, since, until), files),
        path@ == file.relative_path@,
        call_ensures(scanner::file_matches_date_window, (path, since, until), true),
    ensures
        files@.to_multiset().count(file) == times_listed(directories@, file),
{
    let all = manifest::listed_files(directories@);
    let keep = |file: CachedManifestFile|
        scanner::path_in_window(file.relative_path@, since, until);
    lemma_times_listed(directories@, file);
    lemma_times_kept(all, keep, file);
}

proof fn lemma_times_listed(directories: Seq<CachedManifestDirectory>, file: CachedManifestFile)
    ensures
        manifest::listed_files(directories).to_multiset().count(file) == times_listed(
            directories,
            file,
        ),
    decreases directories.len(),
{
    broadcast use vstd::seq_lib::group_to_multiset_ensures;

    if directories.len() > 0 {
        let fewer = directories.drop_last();
        lemma_times_listed(fewer, file);
        vstd::seq_lib::lemma_multiset_commutative(
            manifest::listed_files(fewer),
            directories.last().files@,
        );
    }
}

proof fn lemma_times_kept(
    all: Seq<CachedManifestFile>,
    keep: spec_fn(CachedManifestFile) -> bool,
    file: CachedManifestFile,
)
    requires
        keep(file),
    ensures
        all.filter(keep).to_multiset().count(file) == all.to_multiset().count(file),
    decreases all.len(),
{
    broadcast use vstd::seq_lib::group_to_multiset_ensures;

    reveal(Seq::filter);
    if all.len() > 0 {
        let fewer = all.drop_last();
        lemma_times_kept(fewer, keep, file);
        assert(all =~= fewer.push(all.last()));
    }
}

} // verus!
