//! The shared workspace: the root that the host hands over with
//! `host.configure`, and the snapshot of the projects under it.
//!
//! The root is kept as given, only in memory. A snapshot lists the immediate
//! child directories of the root whose names are text and do not start with
//! `.`, sorted; it is `unavailable` where there is no root or it cannot be
//! read, `empty` where no project is found, and `ready` otherwise.
use vstd::prelude::*;
use vstd::relations::sorted_by;
use crate::json::{json_error, json_member, json_member_of, Member};
use crate::query::QueryReply;
use crate::text::{chars_of, trim, trimmed};

verus! {

/// The workspace root that the plugin holds.
#[derive(Debug)]
pub struct WorkspaceState {
    root: Option<String>,
}

impl View for WorkspaceState {
    type V = Option<Seq<char>>;

    closed spec fn view(&self) -> Option<Seq<char>> {
        match self.root {
            Some(root) => Some(root@),
            None => None,
        }
    }
}

impl Default for WorkspaceState {
    /// No root.
    fn default() -> (res: Self)
        ensures
            res@ is None,
    {
        WorkspaceState { root: None }
    }
}

impl WorkspaceState {
    /// A state that holds `root`.
    pub fn from_root(root: String) -> (res: Self)
        ensures
            res@ == Some(root@),
    {
        WorkspaceState { root: Some(root) }
    }

    /// The root held, if any.
    pub fn root(&self) -> (res: Option<String>)
        ensures
            match res {
                Some(r) => self@ == Some(r@),
                None => self@ is None,
            },
    {
        match &self.root {
            Some(root) => Some(root.clone()),
            None => None,
        }
    }

    /// Replaces the root.
    pub fn set_root(&mut self, root: Option<String>)
        ensures
            final(self)@ == match root {
                Some(r) => Some(r@),
                None => None::<Seq<char>>,
            },
    {
        self.root = root;
    }
}

/// What `host.configure` does with the `workspace_root` member: `Ok` with
/// the new root, or `Err` when the member is neither a string nor `null`.
/// A string that is empty once trimmed, like a missing or `null` member,
/// clears the root.
pub open spec fn configured_root(member: Member) -> Result<Option<Seq<char>>, ()> {
    match member {
        Member::Absent => Ok(None),
        Member::Null => Ok(None),
        Member::Text(path) => if trim(path@).len() == 0 {
            Ok(None)
        } else {
            Ok(Some(path@))
        },
        _ => Err(()),
    }
}

/// The message of a rejected `workspace_root`.
pub open spec fn bad_root_message() -> Seq<char> {
    "workspace_root must be a string or null"@
}

/// Applies the `workspace_root` member of a `host.configure` request.
pub fn apply_workspace_root(state: &mut WorkspaceState, member: Member) -> (res: Result<QueryReply, String>)
    ensures
        match configured_root(member) {
            Ok(root) => res == Ok::<QueryReply, String>(QueryReply::Configured) && final(state)@ == root,
            Err(_) => res matches Err(e) && e@ == bad_root_message() && final(state)@ == old(
                state,
            )@,
        },
{
    match member {
        Member::Absent | Member::Null => {
            state.set_root(None);
            Ok(QueryReply::Configured)
        },
        Member::Text(path) => {
            let chars = chars_of(path.as_str());
            if trimmed(&chars).len() == 0 {
                state.set_root(None);
            } else {
                state.set_root(Some(path));
            }
            Ok(QueryReply::Configured)
        },
        _ => Err(String::from_str("workspace_root must be a string or null")),
    }
}

/// `host.configure`: reads the top-level `workspace_root` of the request
/// and keeps it as the root, answering `{"status":"ok"}`. A request that
/// does not parse is refused with serde_json's message and leaves the root
/// as it was.
pub fn configure_workspace(state: &mut WorkspaceState, request: &[u8]) -> (res: Result<QueryReply, String>)
    ensures
        match json_error(request@) {
            Some(message) => res matches Err(e) && e@ == message && final(state)@ == old(state)@,
            None => match configured_root(json_member_of(request@, "workspace_root"@)) {
                Ok(root) => res == Ok::<QueryReply, String>(QueryReply::Configured) && final(state)@ == root,
                Err(_) => res matches Err(e) && e@ == bad_root_message() && final(state)@ == old(
                    state,
                )@,
            },
        },
{
    let member = json_member(request, "workspace_root")?;
    apply_workspace_root(state, member)
}

/// One entry of the root directory, as far as it could be read: its name
/// where the name is text, and whether it is a directory where its file
/// type could be read.
#[derive(Debug)]
pub struct DirEntry {
    pub name: Option<String>,
    pub is_dir: Option<bool>,
}

/// The state of a snapshot.
#[derive(PartialEq, Eq, Structural, Debug, Clone, Copy)]
pub enum SnapshotStatus {
    Ready,
    Empty,
    Unavailable,
}

/// The word that reports a status.
pub open spec fn status_label(status: SnapshotStatus) -> Seq<char> {
    match status {
        SnapshotStatus::Ready => "ready"@,
        SnapshotStatus::Empty => "empty"@,
        SnapshotStatus::Unavailable => "unavailable"@,
    }
}

impl SnapshotStatus {
    /// `ready`, `empty` or `unavailable`.
    pub fn label(&self) -> (res: &'static str)
        ensures
            res@ == status_label(*self),
    {
        match self {
            SnapshotStatus::Ready => "ready",
            SnapshotStatus::Empty => "empty",
            SnapshotStatus::Unavailable => "unavailable",
        }
    }
}

/// The projects of the workspace, as the endpoint and `workspace.projects`
/// report them.
#[derive(Debug)]
pub struct Snapshot {
    pub status: SnapshotStatus,
    pub projects: Vec<String>,
}

/// Whether `name` is hidden: it starts with `.`.
pub open spec fn is_hidden(name: Seq<char>) -> bool {
    name.len() > 0 && name[0] == '.'
}

/// Whether an entry is a project: a directory with a textual name that is
/// not hidden.
pub open spec fn is_project(entry: DirEntry) -> bool {
    &&& entry.name is Some
    &&& !is_hidden(entry.name->0@)
    &&& entry.is_dir == Some(true)
}

/// The names of the projects among `entries`, in listing order.
pub open spec fn project_names(entries: Seq<DirEntry>) -> Seq<Seq<char>>
    decreases entries.len(),
{
    if entries.len() == 0 {
        seq![]
    } else {
        let rest = project_names(entries.drop_last());
        if is_project(entries.last()) {
            rest.push(entries.last().name->0@)
        } else {
            rest
        }
    }
}

/// Code-point lexicographic order, the order of `str`'s `Ord`.
pub open spec fn text_le(a: Seq<char>, b: Seq<char>) -> bool
    decreases a.len(),
{
    if a.len() == 0 {
        true
    } else if b.len() == 0 {
        false
    } else if a[0] != b[0] {
        a[0] < b[0]
    } else {
        text_le(a.drop_first(), b.drop_first())
    }
}

/// The order of the listed projects.
pub open spec fn name_order() -> spec_fn(Seq<char>, Seq<char>) -> bool {
    |a: Seq<char>, b: Seq<char>| text_le(a, b)
}

/// The texts that `names` hold.
pub open spec fn texts(names: Seq<String>) -> Seq<Seq<char>> {
    names.map_values(|n: String| n@)
}

/// Whether `projects` is the sorted list of `names`.
pub open spec fn is_sorted_listing(projects: Seq<Seq<char>>, names: Seq<Seq<char>>) -> bool {
    &&& projects.to_multiset() == names.to_multiset()
    &&& sorted_by(projects, name_order())
}

/// The snapshot of a listing (`None`: no root, or the root could not be read).
pub open spec fn snapshot_fits(listing: Option<Seq<DirEntry>>, snapshot: Snapshot) -> bool {
    match listing {
        None => snapshot.status == SnapshotStatus::Unavailable && snapshot.projects@.len() == 0,
        Some(entries) => {
            let names = project_names(entries);
            &&& is_sorted_listing(texts(snapshot.projects@), names)
            &&& snapshot.status == (if names.len() == 0 {
                SnapshotStatus::Empty
            } else {
                SnapshotStatus::Ready
            })
        },
    }
}

proof fn lemma_project_names_contains(entries: Seq<DirEntry>, name: Seq<char>)
    ensures
        project_names(entries).contains(name) <==> exists|k: int|
            0 <= k < entries.len() && is_project(#[trigger] entries[k]) && entries[k].name->0@
                == name,
    decreases entries.len(),
{
    if entries.len() > 0 {
        let init = entries.drop_last();
        lemma_project_names_contains(init, name);
        let rest = project_names(init);
        if project_names(entries).contains(name) {
            if is_project(entries.last()) && entries.last().name->0@ == name {
                assert(entries[entries.len() - 1] == entries.last());
            } else {
                if is_project(entries.last()) {
                    let i = choose|i: int| 0 <= i < project_names(entries).len() && project_names(entries)[i] == name;
                    assert(rest.contains(name)) by {
                        assert(i < rest.len());
                        assert(rest[i] == name);
                    }
                }
                let k = choose|k: int|
                    0 <= k < init.len() && is_project(#[trigger] init[k]) && init[k].name->0@
                        == name;
                assert(entries[k] == init[k]);
            }
        } else {
            assert forall|k: int|
                0 <= k < entries.len() && is_project(#[trigger] entries[k]) implies entries[k].name->0@
                != name by {
                if k < init.len() {
                    assert(entries[k] == init[k]);
                    if entries[k].name->0@ == name {
                        assert(rest.contains(name));
                        if is_project(entries.last()) {
                            let i = choose|i: int| 0 <= i < rest.len() && rest[i] == name;
                            assert(project_names(entries)[i] == name);
                        }
                    }
                } else {
                    assert(entries[k] == entries.last());
                    if entries[k].name->0@ == name {
                        assert(project_names(entries)[rest.len() as int] == name);
                    }
                }
            }
        }
    }
}

/// A snapshot lists exactly the immediate child directories of the root
/// whose names are not hidden: a name is listed exactly when an entry of
/// the listing has that name, is a directory, and the name does not start
/// with `.`. So `.plugin-state` and files never appear. The names listed
/// come in code-point order.
pub proof fn snapshot_lists_visible_directories(
    entries: Seq<DirEntry>,
    snapshot: Snapshot,
    name: Seq<char>,
)
    requires
        snapshot_fits(Some(entries), snapshot),
    ensures
        texts(snapshot.projects@).contains(name) <==> exists|k: int|
            0 <= k < entries.len() && (#[trigger] entries[k]).name is Some
                && entries[k].name->0@ == name && entries[k].is_dir == Some(true) && !(name.len()
                > 0 && name[0] == '.'),
        forall|i: int, j: int|
            0 <= i < j < snapshot.projects@.len() ==> text_le(
                #[trigger] texts(snapshot.projects@)[i],
                #[trigger] texts(snapshot.projects@)[j],
            ),
{
    broadcast use vstd::seq_lib::group_to_multiset_ensures;

    let projects = texts(snapshot.projects@);
    lemma_project_names_contains(entries, name);
    assert(projects.contains(name) <==> projects.to_multiset().count(name) > 0);
    assert(project_names(entries).contains(name) <==> project_names(entries).to_multiset().count(
        name,
    ) > 0);
    assert forall|i: int, j: int| 0 <= i < j < snapshot.projects@.len() implies text_le(
        #[trigger] texts(snapshot.projects@)[i],
        #[trigger] texts(snapshot.projects@)[j],
    ) by {
        lemma_sorted_at(projects, i, j);
    }
}

/// The status of a snapshot follows from what it lists: `ready` exactly
/// when it lists a project, `empty` when a readable root holds none, and
/// `unavailable`, with nothing listed, only without a readable root.
pub proof fn snapshot_status_reflects_projects(listing: Option<Seq<DirEntry>>, snapshot: Snapshot)
    requires
        snapshot_fits(listing, snapshot),
    ensures
        snapshot.status == SnapshotStatus::Ready <==> snapshot.projects@.len() > 0,
        snapshot.status == SnapshotStatus::Unavailable <==> listing is None,
        snapshot.status == SnapshotStatus::Empty <==> (listing is Some
            && snapshot.projects@.len() == 0),
{
    broadcast use vstd::seq_lib::group_to_multiset_ensures;

    if let Some(entries) = listing {
        let names = project_names(entries);
        let listed = texts(snapshot.projects@);
        assert(listed.len() == snapshot.projects@.len());
        assert(listed.to_multiset().len() == names.to_multiset().len());
    }
}

/// `host.configure` reads and clears the root: a string that is not blank
/// becomes the root as given; a missing, `null` or blank one clears it; any
/// other value is refused.
pub proof fn configure_reads_and_clears(path: String)
    ensures
        configured_root(Member::Text(path)) == (if trim(path@).len() == 0 {
            Ok::<Option<Seq<char>>, ()>(None)
        } else {
            Ok(Some(path@))
        }),
        configured_root(Member::Absent) == Ok::<Option<Seq<char>>, ()>(None),
        configured_root(Member::Null) == Ok::<Option<Seq<char>>, ()>(None),
        configured_root(Member::Other) is Err,
{
}

/// The listing order is `str`'s order: one character orders before another
/// by code point, the empty text first, and texts compare at their first
/// difference (a text before its own extensions).
pub proof fn name_order_is_code_point_order(c: char, d: char, a: Seq<char>, b: Seq<char>)
    ensures
        text_le(seq![c], seq![d]) <==> c <= d,
        text_le(Seq::<char>::empty(), b),
        !text_le(seq![c] + a, Seq::<char>::empty()),
        c != d ==> (text_le(seq![c] + a, seq![d] + b) <==> c < d),
        text_le(seq![c] + a, seq![c] + b) <==> text_le(a, b),
{
    assert((seq![c] + a)[0] == c);
    assert((seq![d] + b)[0] == d);
    assert((seq![c] + a).drop_first() =~= a);
    assert((seq![c] + b).drop_first() =~= b);
    assert(seq![c].drop_first() =~= Seq::<char>::empty());
    assert(seq![d].drop_first() =~= Seq::<char>::empty());
    assert(text_le(Seq::<char>::empty(), Seq::<char>::empty()));
}

pub proof fn lemma_text_le_total(a: Seq<char>, b: Seq<char>)
    ensures
        text_le(a, b) || text_le(b, a),
    decreases a.len(),
{
    if a.len() > 0 && b.len() > 0 && a[0] == b[0] {
        lemma_text_le_total(a.drop_first(), b.drop_first());
    }
}

pub proof fn lemma_text_le_transitive(a: Seq<char>, b: Seq<char>, c: Seq<char>)
    requires
        text_le(a, b),
        text_le(b, c),
    ensures
        text_le(a, c),
    decreases a.len(),
{
    if a.len() > 0 && b.len() > 0 && c.len() > 0 && a[0] == b[0] && b[0] == c[0] {
        lemma_text_le_transitive(a.drop_first(), b.drop_first(), c.drop_first());
    }
}

proof fn lemma_sorted_at(s: Seq<Seq<char>>, i: int, j: int)
    requires
        sorted_by(s, name_order()),
        0 <= i < j < s.len(),
    ensures
        text_le(s[i], s[j]),
{
    assert((name_order())(s[i], s[j]));
}

/// `text_le` on character sequences.
fn chars_le(a: &[char], b: &[char]) -> (res: bool)
    ensures
        res == text_le(a@, b@),
{
    let mut i: usize = 0;
    assert(a@.skip(0) =~= a@ && b@.skip(0) =~= b@);
    while i < a.len() && i < b.len() && a[i] == b[i]
        invariant
            i <= a.len(),
            i <= b.len(),
            text_le(a@.skip(i as int), b@.skip(i as int)) == text_le(a@, b@),
        decreases a.len() - i,
    {
        proof {
            assert(a@.skip(i as int).drop_first() =~= a@.skip(i + 1));
            assert(b@.skip(i as int).drop_first() =~= b@.skip(i + 1));
        }
        i = i + 1;
    }
    if i == a.len() {
        true
    } else if i == b.len() {
        false
    } else {
        a[i] < b[i]
    }
}

/// Inserts `name` (whose characters are `key`) after every listed name that
/// orders at or before it.
fn insert_sorted(
    projects: &mut Vec<String>,
    keys: &mut Vec<Vec<char>>,
    name: String,
    key: Vec<char>,
)
    requires
        key@ == name@,
        old(keys)@.len() == old(projects)@.len(),
        forall|i: int| 0 <= i < old(keys)@.len() ==> #[trigger] old(keys)@[i]@ == old(projects)@[i]@,
        sorted_by(texts(old(projects)@), name_order()),
    ensures
        final(keys)@.len() == final(projects)@.len(),
        forall|i: int|
            0 <= i < final(keys)@.len() ==> #[trigger] final(keys)@[i]@ == final(projects)@[i]@,
        sorted_by(texts(final(projects)@), name_order()),
        texts(final(projects)@).to_multiset() == texts(old(projects)@).to_multiset().insert(
            name@,
        ),
{
    let ghost before = texts(projects@);
    let mut pos: usize = 0;
    while pos < keys.len() && chars_le(&keys[pos], &key)
        invariant
            pos <= keys.len(),
            keys@ == old(keys)@,
            projects@ == old(projects)@,
            key@ == name@,
            keys@.len() == projects@.len(),
            forall|i: int| 0 <= i < keys@.len() ==> #[trigger] keys@[i]@ == projects@[i]@,
            before == texts(projects@),
            forall|i: int| 0 <= i < pos ==> text_le(#[trigger] before[i], name@),
        decreases keys.len() - pos,
    {
        pos = pos + 1;
    }
    let ghost text = name@;
    projects.insert(pos, name);
    keys.insert(pos, key);
    proof {
        let after = texts(projects@);
        assert(after =~= before.insert(pos as int, text));
        vstd::seq_lib::to_multiset_insert(before, pos as int, text);
        assert forall|i: int, j: int| 0 <= i < j < after.len() implies (name_order())(
            after[i],
            after[j],
        ) by {
            if pos < before.len() {
                assert(!text_le(before[pos as int], text));
                lemma_text_le_total(before[pos as int], text);
            }
            assert(forall|x: Seq<char>, y: Seq<char>| (#[trigger] (name_order())(x, y)) == text_le(x, y));
            if j < pos {
                assert(after[i] == before[i] && after[j] == before[j]);
            } else if j == pos {
                assert(after[j] == text && after[i] == before[i]);
            } else if i == pos {
                assert(after[j] == before[j - 1]);
                if j - 1 > pos {
                    lemma_sorted_at(before, pos as int, j - 1);
                    lemma_text_le_transitive(text, before[pos as int], before[j - 1]);
                }
            } else if i < pos {
                assert(after[i] == before[i] && after[j] == before[j - 1]);
                lemma_sorted_at(before, i, j - 1);
            } else {
                assert(after[i] == before[i - 1] && after[j] == before[j - 1]);
                lemma_sorted_at(before, i - 1, j - 1);
            }
        }
    }
}

/// The snapshot of the workspace from a listing of its root (`None`: there
/// is no root, or it could not be read).
pub fn workspace_snapshot(listing: Option<Vec<DirEntry>>) -> (res: Snapshot)
    ensures
        snapshot_fits(
            match listing {
                Some(entries) => Some(entries@),
                None => None,
            },
            res,
        ),
{
    let entries = match listing {
        None => return Snapshot { status: SnapshotStatus::Unavailable, projects: Vec::new() },
        Some(entries) => entries,
    };
    let mut projects: Vec<String> = Vec::new();
    let mut keys: Vec<Vec<char>> = Vec::new();
    let mut i: usize = 0;
    assert(entries@.take(0) =~= Seq::<DirEntry>::empty());
    assert(texts(projects@) =~= Seq::<Seq<char>>::empty());
    while i < entries.len()
        invariant
            i <= entries.len(),
            keys@.len() == projects@.len(),
            forall|k: int| 0 <= k < keys@.len() ==> #[trigger] keys@[k]@ == projects@[k]@,
            is_sorted_listing(texts(projects@), project_names(entries@.take(i as int))),
        decreases entries.len() - i,
    {
        let entry = &entries[i];
        let ghost prefix = entries@.take(i as int);
        assert(entries@.take(i + 1).drop_last() =~= prefix);
        assert(entries@.take(i + 1).last() == entries@[i as int]);
        let ghost names_before = project_names(prefix);
        let ghost texts_before = texts(projects@);
        match &entry.name {
            Some(name) => {
                let key = chars_of(name.as_str());
                let hidden = key.len() > 0 && key[0] == '.';
                let is_dir = match entry.is_dir {
                    Some(flag) => flag,
                    None => false,
                };
                if !hidden && is_dir {
                    insert_sorted(&mut projects, &mut keys, name.clone(), key);
                    proof {
                        broadcast use vstd::seq_lib::group_to_multiset_ensures;
                        assert(project_names(entries@.take(i + 1)) == names_before.push(name@));
                    }
                }
            },
            None => {},
        }
        i = i + 1;
    }
    assert(entries@.take(i as int) =~= entries@);
    let status = if projects.len() == 0 {
        SnapshotStatus::Empty
    } else {
        SnapshotStatus::Ready
    };
    proof {
        broadcast use vstd::seq_lib::group_to_multiset_ensures;
        let names = project_names(entries@);
        assert(texts(projects@).len() == projects@.len());
        assert(names.to_multiset().len() == names.len());
        assert(texts(projects@).to_multiset().len() == texts(projects@).len());
    }
    Snapshot { status, projects }
}

} // verus!
