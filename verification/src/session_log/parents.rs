//! Which logs hold the sessions that other sessions were forked from.

use crate::session_log::parser::SessionFileIdentity;
use crate::session_log::scanner::FileCandidate;
use crate::session_log::wire::LOG_SUFFIX;
use crate::text;
use crate::text_map;
use crate::text_map::TextMap;
use vstd::prelude::*;

verus! {

/// A forked session: the path of its log, the session that it was forked from, and when it started.
pub struct ChildModel {
    pub child_relative_path: Seq<char>,
    pub parent_id: Seq<char>,
    pub child_started_at_unix_ms: Option<i64>,
}

/// A forked session: the path of its log, the session that it was forked from, and when it started.
#[derive(Debug, Clone, PartialEq, Eq)]
pub struct ChildParentSpec {
    pub child_relative_path: String,
    pub parent_id: String,
    pub child_started_at_unix_ms: Option<i64>,
}

impl View for ChildParentSpec {
    type V = ChildModel;

    open spec fn view(&self) -> ChildModel {
        ChildModel {
            child_relative_path: self.child_relative_path@,
            parent_id: self.parent_id@,
            child_started_at_unix_ms: self.child_started_at_unix_ms,
        }
    }
}

/// The forked sessions of a list.
pub open spec fn child_models(children: Seq<ChildParentSpec>) -> Seq<ChildModel> {
    children.map_values(|child: ChildParentSpec| child@)
}

/// The logs by the names of their sessions; of two logs with one name the later counts.
pub open spec fn entries_by_id(
    files: Seq<FileCandidate>,
    identities: Seq<SessionFileIdentity>,
    n: int,
) -> Map<Seq<char>, usize>
    decreases n,
{
    if n <= 0 {
        Map::empty()
    } else {
        let before = entries_by_id(files, identities, n - 1);
        match identities[n - 1]@.session_id {
            Some(id) => before.insert(id, files[n - 1].entry),
            None => before,
        }
    }
}

/// The forked sessions among the first `n` logs.
pub open spec fn children_of(
    files: Seq<FileCandidate>,
    identities: Seq<SessionFileIdentity>,
    n: int,
) -> Seq<ChildModel>
    decreases n,
{
    if n <= 0 {
        Seq::empty()
    } else {
        let before = children_of(files, identities, n - 1);
        match identities[n - 1]@.forked_from_id {
            Some(parent_id) => before.push(
                ChildModel {
                    child_relative_path: files[n - 1].relative_path@,
                    parent_id,
                    child_started_at_unix_ms: identities[n - 1]@.started_at_unix_ms,
                },
            ),
            None => before,
        }
    }
}

/// Whether a session is the parent of a forked session and none of the logs is its own.
pub open spec fn is_missing(
    children: Seq<ChildModel>,
    parents: Map<Seq<char>, usize>,
    id: Seq<char>,
) -> bool {
    !parents.dom().contains(id) && exists|i: int|
        0 <= i < children.len() && (#[trigger] children[i]).parent_id == id
}

/// The forked sessions among some logs, the logs that may hold their parents, and the parents that
/// none of the logs holds.
pub struct ForkPlan {
    pub parents: TextMap<usize>,
    pub children: Vec<ChildParentSpec>,
    pub missing: TextMap<()>,
}

/// Finds the forked sessions among logs, and their parents as far as they are among the logs too.
pub fn plan_forks(files: &[FileCandidate], identities: &[SessionFileIdentity]) -> (plan: ForkPlan)
    requires
        files@.len() == identities@.len(),
    ensures
        plan.parents@ == entries_by_id(files@, identities@, files@.len() as int),
        child_models(plan.children@) == children_of(files@, identities@, files@.len() as int),
        forall|id: Seq<char>| #[trigger]
            plan.missing@.dom().contains(id) <==> is_missing(
                child_models(plan.children@),
                plan.parents@,
                id,
            ),
{
    let mut parents: TextMap<usize> = TextMap::new();
    let mut children: Vec<ChildParentSpec> = Vec::new();
    let mut i: usize = 0;
    proof {
        assert(child_models(children@) =~= Seq::empty());
    }
    while i < files.len()
        invariant
            i <= files@.len() == identities@.len(),
            parents@ == entries_by_id(files@, identities@, i as int),
            child_models(children@) == children_of(files@, identities@, i as int),
        decreases files@.len() - i,
    {
        let identity = &identities[i];
        if let Some(id) = &identity.session_id {
            parents.insert(id.clone(), files[i].entry);
        }
        if let Some(parent_id) = &identity.forked_from_id {
            let ghost before = children@;
            let child = ChildParentSpec {
                child_relative_path: files[i].relative_path.clone(),
                parent_id: parent_id.clone(),
                child_started_at_unix_ms: identity.started_at_unix_ms,
            };
            let ghost added = child@;
            children.push(child);
            assert(child_models(children@) =~= child_models(before).push(added));
        }
        i = i + 1;
    }
    let missing = missing_parents(&children, &parents);
    ForkPlan { parents, children, missing }
}

/// The parents of forked sessions that none of the logs holds, each once.
fn missing_parents(children: &Vec<ChildParentSpec>, parents: &TextMap<usize>) -> (missing: TextMap<
    (),
>)
    ensures
        forall|id: Seq<char>| #[trigger]
            missing@.dom().contains(id) <==> is_missing(child_models(children@), parents@, id),
{
    let ghost models = child_models(children@);
    let mut missing: TextMap<()> = TextMap::new();
    let mut i: usize = 0;
    while i < children.len()
        invariant
            i <= children@.len(),
            models == child_models(children@),
            forall|id: Seq<char>| #[trigger]
                missing@.dom().contains(id) <==> is_missing(models.take(i as int), parents@, id),
        decreases children@.len() - i,
    {
        let parent_id = &children[i].parent_id;
        let known = parents.get(parent_id.as_str()).is_some();
        proof {
            let longer = models.take(i + 1);
            assert forall|id: Seq<char>| #[trigger]
                is_missing(longer, parents@, id) <==> is_missing(
                    models.take(i as int),
                    parents@,
                    id,
                ) || (!known && id == parent_id@) by {
                assert(longer[i as int].parent_id == parent_id@);
                if is_missing(models.take(i as int), parents@, id) {
                    let k = choose|k: int|
                        0 <= k < i && (#[trigger] models.take(i as int)[k]).parent_id == id;
                    assert(longer[k].parent_id == id);
                }
                if is_missing(longer, parents@, id) {
                    let k = choose|k: int|
                        0 <= k < i + 1 && (#[trigger] longer[k]).parent_id == id;
                    if k < i {
                        assert(models.take(i as int)[k].parent_id == id);
                    }
                }
            }
        }
        if !known {
            missing.insert(parent_id.clone(), ());
        }
        i = i + 1;
    }
    proof {
        assert(models.take(i as int) =~= models);
    }
    missing
}

/// A search for the logs of sessions: those that are wanted, and where the ones found stand.
pub struct ParentSearch {
    pub wanted: TextMap<()>,
    pub found: TextMap<usize>,
}

/// Whether the name of a log ends with the name of its session.
pub open spec fn names_session(file_name: Seq<char>, id: Seq<char>) -> bool {
    text::has_suffix(file_name, id + LOG_SUFFIX@)
}

impl ParentSearch {
    /// A search for sessions, of which none is found.
    pub fn new(wanted: TextMap<()>) -> (search: ParentSearch)
        ensures
            search.wanted == wanted,
            search.found@ == Map::<Seq<char>, usize>::empty(),
    {
        ParentSearch { wanted, found: TextMap::new() }
    }

    /// Whether nothing is searched for.
    pub fn is_idle(&self) -> (idle: bool)
        ensures
            idle == (self.wanted@ == Map::<Seq<char>, ()>::empty()),
    {
        self.wanted.is_empty()
    }

    /// The wanted session that the name of a log ends with, if there is one: the first of them.
    pub fn wanted_by(&self, file_name: &str) -> (id: Option<String>)
        ensures
            id is Some <==> exists|wanted: Seq<char>| #[trigger]
                self.wanted@.dom().contains(wanted) && names_session(file_name@, wanted),
            id is None ==> forall|start: Seq<char>, wanted: Seq<char>|
                self.wanted@.dom().contains(wanted) ==> file_name@ != #[trigger] (start + wanted)
                    + ".jsonl"@,
            id matches Some(id) ==> self.wanted@.dom().contains(id@) && names_session(
                file_name@,
                id@,
            ),
            id matches Some(id) ==> forall|other: Seq<char>| #[trigger]
                self.wanted@.dom().contains(other) && names_session(file_name@, other) ==> other
                    == id@ || text::precedes(id@, other),
    {
        let n = self.wanted.len();
        let ghost entries = self.wanted.entries();
        let mut i: usize = 0;
        while i < n
            invariant
                i <= n == entries.len(),
                entries == self.wanted.entries(),
                text_map::ordered(entries),
                forall|j: int| 0 <= j < i ==> !names_session(file_name@, (#[trigger] entries[j]).0),
            decreases n - i,
        {
            let id = self.wanted.key_at(i);
            let mut suffix = id.clone();
            suffix.append(LOG_SUFFIX);
            if text::ends_with(file_name, suffix.as_str()) {
                proof {
                    text_map::lemma_entry_in_map(entries, i as int);
                    assert(self.wanted@.dom().contains(id@));
                    assert forall|other: Seq<char>| #[trigger]
                        self.wanted@.dom().contains(other) && names_session(
                            file_name@,
                            other,
                        ) implies other == id@ || text::precedes(id@, other) by {
                        assert(text_map::has_key(entries, other));
                        let k = text_map::key_index(entries, other);
                        assert(entries[k].0 == other);
                    }
                }
                return Some(id.clone());
            }
            i = i + 1;
        }
        proof {
            assert forall|wanted: Seq<char>| #[trigger]
                self.wanted@.dom().contains(wanted) implies !names_session(file_name@, wanted) by {
                let j = text_map::key_index(entries, wanted);
                assert(text_map::has_key(entries, wanted));
                assert(entries[j].0 == wanted);
            }
            assert forall|start: Seq<char>, wanted: Seq<char>|
                self.wanted@.dom().contains(wanted) implies file_name@ != #[trigger] (start
                + wanted) + ".jsonl"@ by {
                let suffix = wanted + ".jsonl"@;
                if file_name@ == start + wanted + ".jsonl"@ {
                    assert(file_name@.skip(file_name@.len() - suffix.len()) =~= suffix);
                    assert(names_session(file_name@, wanted));
                }
            }
        }
        None
    }

    /// Takes in what a log says of its session, where its name ends with that of a wanted one; tells
    /// whether every wanted session is now found.
    pub fn observe(
        &mut self,
        id: String,
        identity: &SessionFileIdentity,
        entry: usize,
    ) -> (complete: bool)
        ensures
            final(self).wanted == old(self).wanted,
            final(self).found@ == if identity@.session_id == Some(id@) {
                old(self).found@.insert(id@, entry)
            } else {
                old(self).found@
            },
            complete <==> (identity@.session_id == Some(id@) && forall|wanted: Seq<char>| #[trigger]
                old(self).wanted@.dom().contains(wanted) ==> final(self).found@.dom().contains(
                    wanted,
                )),
    {
        match &identity.session_id {
            Some(session_id) => {
                if !text::same_text(session_id.as_str(), id.as_str()) {
                    return false;
                }
            },
            None => {
                return false;
            },
        }
        self.found.insert(id, entry);
        self.all_found()
    }

    /// Whether every wanted session is found.
    fn all_found(&self) -> (complete: bool)
        ensures
            complete <==> forall|wanted: Seq<char>| #[trigger]
                self.wanted@.dom().contains(wanted) ==> self.found@.dom().contains(wanted),
    {
        let n = self.wanted.len();
        let ghost entries = self.wanted.entries();
        let mut i: usize = 0;
        while i < n
            invariant
                i <= n == entries.len(),
                entries == self.wanted.entries(),
                text_map::ordered(entries),
                forall|j: int|
                    0 <= j < i ==> self.found@.dom().contains((#[trigger] entries[j]).0),
            decreases n - i,
        {
            if self.found.get(self.wanted.key_at(i).as_str()).is_none() {
                proof {
                    text_map::lemma_entry_in_map(entries, i as int);
                    assert(self.wanted@.dom().contains(entries[i as int].0));
                }
                return false;
            }
            i = i + 1;
        }
        proof {
            assert forall|wanted: Seq<char>| #[trigger]
                self.wanted@.dom().contains(wanted) implies self.found@.dom().contains(wanted) by {
                let j = text_map::key_index(entries, wanted);
                assert(text_map::has_key(entries, wanted));
                assert(entries[j].0 == wanted);
            }
        }
        true
    }
}

/// Where the log of a forked session's parent stands: among the logs themselves, else where the
/// search found it.
pub open spec fn parent_of(
    child: ChildModel,
    parents: Map<Seq<char>, usize>,
    found: Map<Seq<char>, usize>,
) -> Option<usize> {
    if parents.dom().contains(child.parent_id) {
        Some(parents[child.parent_id])
    } else if found.dom().contains(child.parent_id) {
        Some(found[child.parent_id])
    } else {
        None
    }
}

/// Where the log of a forked session's parent stands, if it is known.
pub fn parent_entry(
    child: &ChildParentSpec,
    parents: &TextMap<usize>,
    found: &TextMap<usize>,
) -> (entry: Option<usize>)
    ensures
        entry == parent_of(child@, parents@, found@),
{
    match parents.get(child.parent_id.as_str()) {
        Some(entry) => Some(*entry),
        None => match found.get(child.parent_id.as_str()) {
            Some(entry) => Some(*entry),
            None => None,
        },
    }
}

} // verus!
