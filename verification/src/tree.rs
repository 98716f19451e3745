//! The file explorer's tree: the directories loaded so far, the ones the
//! user opened, and the flat list of rows it shows under a search, a Git
//! filter and the ignore rules.
use vstd::prelude::*;
use crate::buffer::FileVersion;
use crate::text::{
    chars_of, contains_seq, lower_seq, seq_contains, seq_eq, seq_starts_with, starts_with, to_ascii_lowercase,
    trim, trimmed,
};

verus! {

#[derive(Clone, Copy, Debug, PartialEq, Eq, Structural)]
pub enum EntryKind {
    File,
    Directory,
}

/// One entry of a directory listing; `path` is relative to the workspace
/// root, with `/` between components.
#[derive(Debug, PartialEq, Eq)]
pub struct FileEntry {
    pub path: String,
    pub name: String,
    pub kind: EntryKind,
    pub size: u64,
    pub version: Option<FileVersion>,
}

/// One row of the explorer.
#[derive(Debug, PartialEq, Eq)]
pub struct ExplorerNode {
    pub entry: FileEntry,
    pub depth: usize,
    pub expanded: bool,
    pub ignored: bool,
}

pub ghost struct EntryView {
    pub path: Seq<char>,
    pub name: Seq<char>,
    pub kind: EntryKind,
    pub size: u64,
    pub version: Option<FileVersion>,
}

pub ghost struct NodeView {
    pub entry: EntryView,
    pub depth: nat,
    pub expanded: bool,
    pub ignored: bool,
}

pub open spec fn entry_view(e: FileEntry) -> EntryView {
    EntryView { path: e.path@, name: e.name@, kind: e.kind, size: e.size, version: e.version }
}

pub open spec fn entries_view(v: Seq<FileEntry>) -> Seq<EntryView> {
    v.map_values(|e: FileEntry| entry_view(e))
}

pub open spec fn node_view(n: ExplorerNode) -> NodeView {
    NodeView { entry: entry_view(n.entry), depth: n.depth as nat, expanded: n.expanded, ignored: n.ignored }
}

pub open spec fn nodes_view(v: Seq<ExplorerNode>) -> Seq<NodeView> {
    v.map_values(|n: ExplorerNode| node_view(n))
}

pub open spec fn texts(v: Seq<String>) -> Seq<Seq<char>> {
    v.map_values(|s: String| s@)
}

impl FileEntry {
    /// A copy of the entry.
    pub fn copy(&self) -> (r: FileEntry)
        ensures
            entry_view(r) == entry_view(*self),
    {
        FileEntry {
            path: self.path.clone(),
            name: self.name.clone(),
            kind: self.kind,
            size: self.size,
            version: self.version,
        }
    }
}

/// The directories loaded so far and the ones opened. Each directory is
/// listed once and each opened path once.
pub struct ExplorerTree {
    directories: Vec<(String, Vec<FileEntry>)>,
    expanded: Vec<String>,
}

pub ghost struct TreeView {
    pub directories: Map<Seq<char>, Seq<EntryView>>,
    pub expanded: Set<Seq<char>>,
}

/// The listing of each loaded directory.
pub open spec fn directory_map(pairs: Seq<(String, Vec<FileEntry>)>) -> Map<Seq<char>, Seq<EntryView>>
    decreases pairs.len(),
{
    if pairs.len() == 0 {
        Map::empty()
    } else {
        directory_map(pairs.drop_last()).insert(pairs.last().0@, entries_view(pairs.last().1@))
    }
}

pub open spec fn keys_distinct(pairs: Seq<(String, Vec<FileEntry>)>) -> bool {
    forall|i: int, j: int| 0 <= i < j < pairs.len() ==> pairs[i].0@ != pairs[j].0@
}

pub open spec fn texts_distinct(v: Seq<String>) -> bool {
    forall|i: int, j: int| 0 <= i < j < v.len() ==> v[i]@ != v[j]@
}

impl ExplorerTree {
    pub closed spec fn view(&self) -> TreeView {
        TreeView { directories: directory_map(self.directories@), expanded: texts(self.expanded@).to_set() }
    }

    pub closed spec fn well_formed(&self) -> bool {
        keys_distinct(self.directories@) && texts_distinct(self.expanded@)
    }

    /// How many directories are loaded.
    pub closed spec fn loaded_count(&self) -> nat {
        self.directories@.len()
    }

    pub proof fn lemma_loaded_count(&self)
        requires
            self.well_formed(),
        ensures
            self.view().directories.dom().finite(),
            self.view().directories.dom().len() == self.loaded_count(),
    {
        lemma_directory_map(self.directories@);
    }
}

proof fn lemma_directory_map(pairs: Seq<(String, Vec<FileEntry>)>)
    requires
        keys_distinct(pairs),
    ensures
        directory_map(pairs).dom().finite(),
        directory_map(pairs).dom().len() == pairs.len(),
        forall|i: int| 0 <= i < pairs.len() ==> #[trigger] directory_map(pairs).contains_key(pairs[i].0@)
            && directory_map(pairs)[pairs[i].0@] == entries_view(pairs[i].1@),
        forall|k: Seq<char>| #[trigger] directory_map(pairs).contains_key(k) ==> exists|i: int|
            0 <= i < pairs.len() && pairs[i].0@ == k,
    decreases pairs.len(),
{
    if pairs.len() > 0 {
        let init = pairs.drop_last();
        assert(keys_distinct(init)) by {
            assert forall|i: int, j: int| 0 <= i < j < init.len() implies init[i].0@ != init[j].0@ by {
                assert(init[i] == pairs[i] && init[j] == pairs[j]);
            }
        }
        lemma_directory_map(init);
        let last = pairs.last().0@;
        assert(!directory_map(init).contains_key(last)) by {
            if directory_map(init).contains_key(last) {
                let i = choose|i: int| 0 <= i < init.len() && init[i].0@ == last;
                assert(pairs[i].0@ == pairs[pairs.len() - 1].0@);
            }
        }
        assert forall|i: int| 0 <= i < pairs.len() implies #[trigger] directory_map(pairs).contains_key(pairs[i].0@)
            && directory_map(pairs)[pairs[i].0@] == entries_view(pairs[i].1@) by {
            if i < pairs.len() - 1 {
                assert(init[i] == pairs[i]);
            }
        }
        assert forall|k: Seq<char>| #[trigger] directory_map(pairs).contains_key(k) implies exists|i: int|
            0 <= i < pairs.len() && pairs[i].0@ == k by {
            if k != last {
                let i = choose|i: int| 0 <= i < init.len() && init[i].0@ == k;
                assert(pairs[i] == init[i]);
            } else {
                assert(pairs[pairs.len() - 1].0@ == k);
            }
        }
    }
}

/// The position of directory `key` among the loaded ones, or the count.
fn directory_position(dirs: &Vec<(String, Vec<FileEntry>)>, key: &str) -> (k: usize)
    requires
        keys_distinct(dirs@),
    ensures
        k <= dirs@.len(),
        k < dirs@.len() ==> dirs@[k as int].0@ == key@,
        k == dirs@.len() ==> !directory_map(dirs@).contains_key(key@),
{
    let target = chars_of(key);
    let mut k: usize = 0;
    while k < dirs.len()
        invariant
            k <= dirs@.len(),
            target@ == key@,
            forall|i: int| 0 <= i < k ==> dirs@[i].0@ != key@,
        decreases dirs@.len() - k,
    {
        if seq_eq(&chars_of(dirs[k].0.as_str()), &target) {
            return k;
        }
        k = k + 1;
    }
    proof {
        lemma_directory_map(dirs@);
        if directory_map(dirs@).contains_key(key@) {
            let i = choose|i: int| 0 <= i < dirs@.len() && dirs@[i].0@ == key@;
        }
    }
    k
}

impl Default for ExplorerTree {
    fn default() -> (r: ExplorerTree)
        ensures
            r.well_formed(),
            r.view().directories == Map::<Seq<char>, Seq<EntryView>>::empty(),
            r.view().expanded == Set::<Seq<char>>::empty(),
    {
        ExplorerTree::new()
    }
}

impl ExplorerTree {
    /// An empty tree: nothing loaded, nothing opened.
    pub fn new() -> (r: ExplorerTree)
        ensures
            r.well_formed(),
            r.view().directories == Map::<Seq<char>, Seq<EntryView>>::empty(),
            r.view().expanded == Set::<Seq<char>>::empty(),
    {
        let r = ExplorerTree { directories: Vec::new(), expanded: Vec::new() };
        proof {
            assert(texts(r.expanded@).to_set() =~= Set::<Seq<char>>::empty());
        }
        r
    }

    /// Takes a directory's listing, replacing any earlier one.
    pub fn replace_directory(&mut self, path: &str, entries: Vec<FileEntry>)
        requires
            old(self).well_formed(),
        ensures
            final(self).well_formed(),
            final(self).view().directories == old(self).view().directories.insert(path@, entries_view(entries@)),
            final(self).view().expanded == old(self).view().expanded,
    {
        let k = directory_position(&self.directories, path);
        proof {
            lemma_directory_map(self.directories@);
        }
        let ghost ev = entries_view(entries@);
        if k < self.directories.len() {
            let ghost before = self.directories@;
            self.directories.set(k, (path.to_owned(), entries));
            proof {
                lemma_directory_map(self.directories@);
                assert(keys_distinct(self.directories@)) by {
                    assert forall|i: int, j: int| 0 <= i < j < self.directories@.len() implies self.directories@[i].0@
                        != self.directories@[j].0@ by {
                        assert(before[i].0@ != before[j].0@);
                    }
                }
                lemma_directory_map(self.directories@);
                assert forall|key: Seq<char>| #[trigger] directory_map(self.directories@).contains_key(key)
                    == directory_map(before).insert(path@, ev).contains_key(key) by {
                    if directory_map(self.directories@).contains_key(key) {
                        let i = choose|i: int| 0 <= i < self.directories@.len() && self.directories@[i].0@ == key;
                        if i != k {
                            assert(before[i] == self.directories@[i]);
                        }
                    }
                    if directory_map(before).contains_key(key) {
                        let i = choose|i: int| 0 <= i < before.len() && before[i].0@ == key;
                        if i != k {
                            assert(before[i] == self.directories@[i]);
                            assert(directory_map(self.directories@).contains_key(self.directories@[i].0@));
                        } else {
                            assert(directory_map(self.directories@).contains_key(self.directories@[k as int].0@));
                        }
                    }
                    if key == path@ {
                        assert(directory_map(self.directories@).contains_key(self.directories@[k as int].0@));
                    }
                }
                assert forall|key: Seq<char>| #[trigger] directory_map(self.directories@).contains_key(key) implies directory_map(
                    self.directories@,
                )[key] == directory_map(before).insert(path@, ev)[key] by {
                    let i = choose|i: int| 0 <= i < self.directories@.len() && self.directories@[i].0@ == key;
                    if i != k {
                        assert(before[i] == self.directories@[i]);
                    }
                }
                assert(directory_map(self.directories@) =~= directory_map(before).insert(path@, ev));
            }
        } else {
            let ghost before = self.directories@;
            self.directories.push((path.to_owned(), entries));
            proof {
                assert(self.directories@.drop_last() =~= before);
                assert(keys_distinct(self.directories@)) by {
                    assert forall|i: int, j: int| 0 <= i < j < self.directories@.len() implies self.directories@[i].0@
                        != self.directories@[j].0@ by {
                        if j == before.len() {
                            lemma_directory_map(before);
                            assert(before[i] == self.directories@[i]);
                        } else {
                            assert(before[i] == self.directories@[i] && before[j] == self.directories@[j]);
                        }
                    }
                }
            }
        }
    }

    /// Opens `path`, or closes it when it was open; true when it is open
    /// now (`toggle`).
    pub fn toggle(&mut self, path: &str) -> (opened: bool)
        requires
            old(self).well_formed(),
        ensures
            final(self).well_formed(),
            final(self).view().directories == old(self).view().directories,
            opened == !old(self).view().expanded.contains(path@),
            final(self).view().expanded == if opened {
                old(self).view().expanded.insert(path@)
            } else {
                old(self).view().expanded.remove(path@)
            },
    {
        let target = chars_of(path);
        let mut k: usize = 0;
        while k < self.expanded.len()
            invariant
                k <= self.expanded@.len(),
                target@ == path@,
                self.expanded@ == old(self).expanded@,
                self.directories@ == old(self).directories@,
                old(self).well_formed(),
                forall|i: int| 0 <= i < k ==> self.expanded@[i]@ != path@,
            decreases self.expanded@.len() - k,
        {
            if seq_eq(&chars_of(self.expanded[k].as_str()), &target) {
                let ghost before = self.expanded@;
                self.expanded.remove(k);
                proof {
                    assert(texts_distinct(self.expanded@)) by {
                        assert forall|i: int, j: int| 0 <= i < j < self.expanded@.len() implies self.expanded@[i]@
                            != self.expanded@[j]@ by {
                            let bi = if i < k { i } else { i + 1 };
                            let bj = if j < k { j } else { j + 1 };
                            assert(self.expanded@[i] == before[bi] && self.expanded@[j] == before[bj]);
                        }
                    }
                    assert(texts(before).to_set().contains(path@)) by {
                        assert(texts(before)[k as int] == path@);
                    }
                    assert forall|p: Seq<char>| #[trigger] texts(self.expanded@).to_set().contains(p) == texts(
                        before,
                    ).to_set().remove(path@).contains(p) by {
                        if texts(self.expanded@).to_set().contains(p) {
                            let i = choose|i: int| 0 <= i < texts(self.expanded@).len() && texts(self.expanded@)[i] == p;
                            let bi = if i < k { i } else { i + 1 };
                            assert(self.expanded@[i] == before[bi]);
                            assert(texts(before)[bi] == p);
                            if p == path@ {
                                assert(before[bi]@ == before[k as int]@);
                            }
                        }
                        if texts(before).to_set().remove(path@).contains(p) {
                            let i = choose|i: int| 0 <= i < texts(before).len() && texts(before)[i] == p;
                            assert(i != k);
                            let ei = if i < k { i } else { i - 1 };
                            assert(self.expanded@[ei] == before[i]);
                            assert(texts(self.expanded@)[ei] == p);
                        }
                    }
                    assert(texts(self.expanded@).to_set() =~= texts(before).to_set().remove(path@));
                }
                return false;
            }
            k = k + 1;
        }
        let ghost before = self.expanded@;
        self.expanded.push(path.to_owned());
        proof {
            assert(!texts(before).to_set().contains(path@)) by {
                if texts(before).to_set().contains(path@) {
                    let i = choose|i: int| 0 <= i < texts(before).len() && texts(before)[i] == path@;
                }
            }
            assert(texts_distinct(self.expanded@)) by {
                assert forall|i: int, j: int| 0 <= i < j < self.expanded@.len() implies self.expanded@[i]@
                    != self.expanded@[j]@ by {
                    if j < before.len() {
                        assert(self.expanded@[i] == before[i] && self.expanded@[j] == before[j]);
                    } else {
                        assert(self.expanded@[i] == before[i]);
                    }
                }
            }
            assert(texts(self.expanded@) =~= texts(before).push(path@));
            texts(before).lemma_push_to_set_commute(path@);
        }
        true
    }

    /// Opens `path` (`expand`).
    pub fn expand(&mut self, path: &str)
        requires
            old(self).well_formed(),
        ensures
            final(self).well_formed(),
            final(self).view().directories == old(self).view().directories,
            final(self).view().expanded == old(self).view().expanded.insert(path@),
    {
        if self.toggle(path) {
        } else {
            self.toggle(path);
        }
    }

    /// Whether the listing of `path` is loaded (`is_loaded`).
    pub fn is_loaded(&self, path: &str) -> (r: bool)
        requires
            self.well_formed(),
        ensures
            r == self.view().directories.contains_key(path@),
    {
        let k = directory_position(&self.directories, path);
        proof {
            lemma_directory_map(self.directories@);
        }
        k < self.directories.len()
    }
}


/// What shapes the flat list: the search (trimmed, in ASCII lower case),
/// the paths Git reports as changed when only those are shown, the ignored
/// paths, and whether ignored entries and every directory are shown.
pub ghost struct FlattenView {
    pub search: Seq<char>,
    pub git_paths: Option<Seq<Seq<char>>>,
    pub ignored: Seq<Seq<char>>,
    pub show_ignored: bool,
    pub expand_all: bool,
}

/// Whether `path` is `ignored` or lies below it.
pub open spec fn ignored_by(path: Seq<char>, ignored: Seq<char>) -> bool {
    path == ignored || (starts_with(path, ignored) && path.len() > ignored.len() && path[ignored.len() as int] == '/')
}

pub open spec fn is_ignored(path: Seq<char>, ignored: Seq<Seq<char>>) -> bool {
    exists|i: int| 0 <= i < ignored.len() && #[trigger] ignored_by(path, ignored[i])
}

/// Git's own directory and what is in it.
pub open spec fn in_git_dir(path: Seq<char>) -> bool {
    path == ".git"@ || starts_with(path, ".git/"@)
}

pub open spec fn search_matches(path: Seq<char>, search: Seq<char>) -> bool {
    search.len() == 0 || contains_seq(lower_seq(path), search)
}

/// Whether Git's filter keeps `path`: no filter, a changed path, or a
/// directory with a changed path below it.
pub open spec fn git_matches(path: Seq<char>, is_directory: bool, git_paths: Option<Seq<Seq<char>>>) -> bool {
    match git_paths {
        None => true,
        Some(paths) => paths.contains(path) || (is_directory && exists|i: int|
            0 <= i < paths.len() && #[trigger] starts_with(paths[i], path + "/"@)),
    }
}

/// The rows for the entries of the directory `dir`, when it is loaded.
/// Directories are entered while `budget` lasts; it starts at the number
/// of loaded directories, which a tree whose entries lie below their
/// directory never runs out of.
pub open spec fn flatten_dir(t: TreeView, o: FlattenView, dir: Seq<char>, depth: nat, budget: nat) -> Seq<NodeView>
    decreases budget, if t.directories.contains_key(dir) {
        t.directories[dir].len() + 1
    } else {
        0
    },
{
    if t.directories.contains_key(dir) {
        flatten_entries(t, o, t.directories[dir], depth, budget)
    } else {
        Seq::empty()
    }
}

/// The rows for `entries`, in order: each entry not hidden that matches,
/// then, for an open directory (or any directory during a search or when
/// all are shown), the rows below it.
pub open spec fn flatten_entries(t: TreeView, o: FlattenView, entries: Seq<EntryView>, depth: nat, budget: nat) -> Seq<NodeView>
    decreases budget, entries.len(),
{
    if entries.len() == 0 {
        Seq::empty()
    } else {
        let rest = flatten_entries(t, o, entries.drop_last(), depth, budget);
        rest + entry_rows(t, o, entries.last(), depth, budget)
    }
}

/// The rows one entry contributes.
pub open spec fn entry_rows(t: TreeView, o: FlattenView, e: EntryView, depth: nat, budget: nat) -> Seq<NodeView>
    decreases budget, 0nat,
{
    let is_directory = e.kind == EntryKind::Directory;
    let ignored = is_ignored(e.path, o.ignored);
    if in_git_dir(e.path) || (ignored && !o.show_ignored) {
        Seq::empty()
    } else {
        let open = o.expand_all || t.expanded.contains(e.path);
        let shown = if search_matches(e.path, o.search) && git_matches(e.path, is_directory, o.git_paths) {
            seq![NodeView { entry: e, depth, expanded: is_directory && open, ignored }]
        } else {
            Seq::empty()
        };
        let below = if is_directory && (open || o.search.len() > 0) && budget > 0 {
            flatten_dir(t, o, e.path, depth + 1, (budget - 1) as nat)
        } else {
            Seq::empty()
        };
        shown + below
    }
}

fn text_in(values: &Vec<String>, target: &Vec<char>) -> (r: bool)
    ensures
        r == texts(values@).contains(target@),
{
    let mut k: usize = 0;
    while k < values.len()
        invariant
            k <= values@.len(),
            forall|i: int| 0 <= i < k ==> values@[i]@ != target@,
        decreases values@.len() - k,
    {
        if seq_eq(&chars_of(values[k].as_str()), target) {
            proof {
                assert(texts(values@)[k as int] == target@);
            }
            return true;
        }
        k = k + 1;
    }
    proof {
        if texts(values@).contains(target@) {
            let i = choose|i: int| 0 <= i < texts(values@).len() && texts(values@)[i] == target@;
            assert(values@[i]@ == target@);
        }
    }
    false
}

fn path_ignored(path: &Vec<char>, ignored: &Vec<String>) -> (r: bool)
    ensures
        r == is_ignored(path@, texts(ignored@)),
{
    let mut k: usize = 0;
    while k < ignored.len()
        invariant
            k <= ignored@.len(),
            forall|i: int| 0 <= i < k ==> !ignored_by(path@, #[trigger] texts(ignored@)[i]),
        decreases ignored@.len() - k,
    {
        let candidate = chars_of(ignored[k].as_str());
        let hit = seq_eq(path, &candidate) || (seq_starts_with(path, &candidate) && path.len() > candidate.len()
            && path[candidate.len()] == '/');
        if hit {
            proof {
                assert(ignored_by(path@, texts(ignored@)[k as int]));
            }
            return true;
        }
        proof {
            assert(texts(ignored@)[k as int] == candidate@);
        }
        k = k + 1;
    }
    false
}

fn under_changed(path: &Vec<char>, paths: &Vec<String>) -> (r: bool)
    ensures
        r == exists|i: int| 0 <= i < texts(paths@).len() && #[trigger] starts_with(texts(paths@)[i], path@ + "/"@),
{
    let prefix = crate::text::concat(path, &chars_of("/"));
    let mut k: usize = 0;
    while k < paths.len()
        invariant
            k <= paths@.len(),
            prefix@ == path@ + "/"@,
            forall|i: int| 0 <= i < k ==> !starts_with(#[trigger] texts(paths@)[i], path@ + "/"@),
        decreases paths@.len() - k,
    {
        let candidate = chars_of(paths[k].as_str());
        proof {
            assert(texts(paths@)[k as int] == candidate@);
        }
        if seq_starts_with(&candidate, &prefix) {
            return true;
        }
        k = k + 1;
    }
    false
}

fn git_keeps(path: &Vec<char>, is_directory: bool, git_paths: Option<&Vec<String>>) -> (r: bool)
    ensures
        r == git_matches(path@, is_directory, match git_paths {
            Some(p) => Some(texts(p@)),
            None => None,
        }),
{
    match git_paths {
        None => true,
        Some(paths) => text_in(paths, path) || (is_directory && under_changed(path, paths)),
    }
}

pub open spec fn flatten_view(
    search: Seq<char>,
    git_paths: Option<&Vec<String>>,
    ignored: &Vec<String>,
    show_ignored: bool,
    expand_all: bool,
) -> FlattenView {
    FlattenView {
        search,
        git_paths: match git_paths {
            Some(p) => Some(texts(p@)),
            None => None,
        },
        ignored: texts(ignored@),
        show_ignored,
        expand_all,
    }
}

impl ExplorerTree {
    fn is_open(&self, path: &Vec<char>) -> (r: bool)
        ensures
            r == self.view().expanded.contains(path@),
    {
        text_in(&self.expanded, path)
    }

    #[verifier::rlimit(30)]
    fn push_directory(
        &self,
        directory: &str,
        depth: usize,
        search: &Vec<char>,
        git_paths: Option<&Vec<String>>,
        ignored: &Vec<String>,
        show_ignored: bool,
        expand_all: bool,
        budget: usize,
        result: &mut Vec<ExplorerNode>,
    )
        requires
            self.well_formed(),
            depth + budget <= self.loaded_count(),
        ensures
            nodes_view(final(result)@) == nodes_view(old(result)@) + flatten_dir(
                self.view(),
                flatten_view(search@, git_paths, ignored, show_ignored, expand_all),
                directory@,
                depth as nat,
                budget as nat,
            ),
        decreases budget,
    {
        let ghost o = flatten_view(search@, git_paths, ignored, show_ignored, expand_all);
        let ghost t = self.view();
        let count = self.directories.len();
        let k = directory_position(&self.directories, directory);
        proof {
            lemma_directory_map(self.directories@);
        }
        if k == self.directories.len() {
            proof {
                assert(nodes_view(result@) =~= nodes_view(result@) + Seq::<NodeView>::empty());
            }
            return;
        }
        let entries = &self.directories[k].1;
        let ghost ev = entries_view(entries@);
        proof {
            assert(t.directories.contains_key(directory@));
            assert(t.directories[directory@] == ev);
        }
        let ghost start = nodes_view(result@);
        let mut j: usize = 0;
        proof {
            assert(ev.take(0) =~= Seq::<EntryView>::empty());
            assert(start + flatten_entries(t, o, ev.take(0), depth as nat, budget as nat) =~= start);
        }
        while j < entries.len()
            invariant
                j <= entries@.len(),
                ev == entries_view(entries@),
                o == flatten_view(search@, git_paths, ignored, show_ignored, expand_all),
                t == self.view(),
                self.well_formed(),
                depth + budget <= self.loaded_count(),
                count == self.loaded_count(),
                nodes_view(result@) == start + flatten_entries(t, o, ev.take(j as int), depth as nat, budget as nat),
            decreases entries@.len() - j,
        {
            let entry = &entries[j];
            proof {
                assert(ev.take(j + 1).drop_last() =~= ev.take(j as int));
                assert(ev.take(j + 1).last() == entry_view(*entry));
            }
            let ghost before = nodes_view(result@);
            let path = chars_of(entry.path.as_str());
            let is_directory = entry.kind == EntryKind::Directory;
            let is_ignored = path_ignored(&path, ignored);
            let git_dir = seq_eq(&path, &chars_of(".git")) || seq_starts_with(&path, &chars_of(".git/"));
            if !(git_dir || (is_ignored && !show_ignored)) {
                let open = expand_all || self.is_open(&path);
                let lowered = to_ascii_lowercase(&path);
                let matches = (search.len() == 0 || seq_contains(&lowered, search)) && git_keeps(
                    &path,
                    is_directory,
                    git_paths,
                );
                if matches {
                    let ghost b = nodes_view(result@);
                    let node = ExplorerNode {
                        entry: entry.copy(),
                        depth,
                        expanded: is_directory && open,
                        ignored: is_ignored,
                    };
                    let ghost nv = node_view(node);
                    result.push(node);
                    proof {
                        assert(nodes_view(result@) =~= b.push(nv));
                    }
                }
                if is_directory && (open || search.len() > 0) && budget > 0 {
                    self.push_directory(
                        entry.path.as_str(),
                        depth + 1,
                        search,
                        git_paths,
                        ignored,
                        show_ignored,
                        expand_all,
                        budget - 1,
                        result,
                    );
                }
            }
            proof {
                assert(nodes_view(result@) =~= before + entry_rows(t, o, entry_view(*entry), depth as nat, budget as nat));
                assert(flatten_entries(t, o, ev.take(j + 1), depth as nat, budget as nat) == flatten_entries(
                    t,
                    o,
                    ev.take(j as int),
                    depth as nat,
                    budget as nat,
                ) + entry_rows(t, o, entry_view(*entry), depth as nat, budget as nat));
            }
            j = j + 1;
        }
        proof {
            assert(ev.take(entries@.len() as int) =~= ev);
        }
    }

    /// The rows the explorer shows (`flattened`): none of the entries the
    /// user did not open are entered, unless the search looks for them.
    pub fn flattened(
        &self,
        search: &str,
        git_paths: Option<&Vec<String>>,
        ignored_paths: &Vec<String>,
        show_ignored: bool,
    ) -> (r: Vec<ExplorerNode>)
        requires
            self.well_formed(),
        ensures
            nodes_view(r@) == flatten_dir(
                self.view(),
                flatten_view(lower_seq(trim(search@)), git_paths, ignored_paths, show_ignored, false),
                Seq::empty(),
                0,
                self.loaded_count(),
            ),
    {
        self.flattened_with_expansion(search, git_paths, ignored_paths, show_ignored, false)
    }

    /// The rows the explorer shows, with every directory open when
    /// `expand_all` holds, without opening any of them in the tree
    /// (`flattened_with_expansion`).
    pub fn flattened_with_expansion(
        &self,
        search: &str,
        git_paths: Option<&Vec<String>>,
        ignored_paths: &Vec<String>,
        show_ignored: bool,
        expand_all: bool,
    ) -> (r: Vec<ExplorerNode>)
        requires
            self.well_formed(),
        ensures
            nodes_view(r@) == flatten_dir(
                self.view(),
                flatten_view(lower_seq(trim(search@)), git_paths, ignored_paths, show_ignored, expand_all),
                Seq::empty(),
                0,
                self.loaded_count(),
            ),
    {
        let search = to_ascii_lowercase(&trimmed(&chars_of(search)));
        let mut result: Vec<ExplorerNode> = Vec::new();
        proof {
            assert(nodes_view(result@) =~= Seq::<NodeView>::empty());
        }
        self.push_directory("", 0, &search, git_paths, ignored_paths, show_ignored, expand_all, self.directories.len(), &mut result);
        proof {
            reveal_strlit("");
            assert(nodes_view(result@) =~= Seq::<NodeView>::empty() + flatten_dir(
                self.view(),
                flatten_view(search@, git_paths, ignored_paths, show_ignored, expand_all),
                ""@,
                0,
                self.loaded_count(),
            ));
            assert(""@ =~= Seq::<char>::empty());
        }
        result
    }
}

/// What holds of every row below a directory at `depth`.
pub open spec fn row_ok(o: FlattenView, n: NodeView, depth: nat) -> bool {
    &&& !in_git_dir(n.entry.path)
    &&& n.ignored == is_ignored(n.entry.path, o.ignored)
    &&& (!o.show_ignored ==> !n.ignored)
    &&& n.depth >= depth
}

proof fn lemma_dir_rows(t: TreeView, o: FlattenView, dir: Seq<char>, depth: nat, budget: nat)
    ensures
        forall|i: int| 0 <= i < flatten_dir(t, o, dir, depth, budget).len() ==> row_ok(
            o,
            #[trigger] flatten_dir(t, o, dir, depth, budget)[i],
            depth,
        ),
    decreases budget, if t.directories.contains_key(dir) {
        t.directories[dir].len() + 1
    } else {
        0
    },
{
    if t.directories.contains_key(dir) {
        lemma_entries_rows(t, o, t.directories[dir], depth, budget);
        assert(flatten_dir(t, o, dir, depth, budget) == flatten_entries(t, o, t.directories[dir], depth, budget));
    }
}

proof fn lemma_entries_rows(t: TreeView, o: FlattenView, entries: Seq<EntryView>, depth: nat, budget: nat)
    ensures
        forall|i: int| 0 <= i < flatten_entries(t, o, entries, depth, budget).len() ==> row_ok(
            o,
            #[trigger] flatten_entries(t, o, entries, depth, budget)[i],
            depth,
        ),
    decreases budget, entries.len(),
{
    if entries.len() > 0 {
        lemma_entries_rows(t, o, entries.drop_last(), depth, budget);
        lemma_entry_rows(t, o, entries.last(), depth, budget);
        let a = flatten_entries(t, o, entries.drop_last(), depth, budget);
        let b = entry_rows(t, o, entries.last(), depth, budget);
        assert forall|i: int| 0 <= i < (a + b).len() implies row_ok(o, #[trigger] (a + b)[i], depth) by {
            if i < a.len() {
                assert((a + b)[i] == a[i]);
            } else {
                assert((a + b)[i] == b[i - a.len()]);
            }
        }
    }
}

proof fn lemma_entry_rows(t: TreeView, o: FlattenView, e: EntryView, depth: nat, budget: nat)
    ensures
        forall|i: int| 0 <= i < entry_rows(t, o, e, depth, budget).len() ==> row_ok(
            o,
            #[trigger] entry_rows(t, o, e, depth, budget)[i],
            depth,
        ),
    decreases budget, 0nat,
{
    let is_directory = e.kind == EntryKind::Directory;
    let ignored = is_ignored(e.path, o.ignored);
    if !(in_git_dir(e.path) || (ignored && !o.show_ignored)) {
        let open = o.expand_all || t.expanded.contains(e.path);
        let shown = if search_matches(e.path, o.search) && git_matches(e.path, is_directory, o.git_paths) {
            seq![NodeView { entry: e, depth, expanded: is_directory && open, ignored }]
        } else {
            Seq::empty()
        };
        let below = if is_directory && (open || o.search.len() > 0) && budget > 0 {
            flatten_dir(t, o, e.path, depth + 1, (budget - 1) as nat)
        } else {
            Seq::empty()
        };
        if is_directory && (open || o.search.len() > 0) && budget > 0 {
            lemma_dir_rows(t, o, e.path, depth + 1, (budget - 1) as nat);
        }
        assert forall|i: int| 0 <= i < (shown + below).len() implies row_ok(o, #[trigger] (shown + below)[i], depth) by {
            if i < shown.len() {
                assert((shown + below)[i] == shown[i]);
            } else {
                assert((shown + below)[i] == below[i - shown.len()]);
            }
        }
    }
}

/// The explorer never lists Git's own directory, marks exactly the
/// ignored entries as ignored, and hides them unless asked to show them.
pub proof fn rows_respect_the_ignore_rules(t: TreeView, o: FlattenView, budget: nat)
    ensures
        forall|i: int| 0 <= i < flatten_dir(t, o, Seq::empty(), 0, budget).len() ==> {
            let n = #[trigger] flatten_dir(t, o, Seq::empty(), 0, budget)[i];
            &&& !in_git_dir(n.entry.path)
            &&& n.ignored == is_ignored(n.entry.path, o.ignored)
            &&& (!o.show_ignored ==> !n.ignored)
        },
{
    lemma_dir_rows(t, o, Seq::empty(), 0, budget);
}

proof fn lemma_closed_entries(t: TreeView, o: FlattenView, entries: Seq<EntryView>, depth: nat, budget: nat)
    requires
        t.expanded.is_empty(),
        o.search.len() == 0,
        !o.expand_all,
    ensures
        forall|i: int| 0 <= i < flatten_entries(t, o, entries, depth, budget).len() ==> (#[trigger] flatten_entries(
            t,
            o,
            entries,
            depth,
            budget,
        )[i]).depth == depth,
    decreases entries.len(),
{
    if entries.len() > 0 {
        lemma_closed_entries(t, o, entries.drop_last(), depth, budget);
        let e = entries.last();
        assert(!t.expanded.contains(e.path));
        let a = flatten_entries(t, o, entries.drop_last(), depth, budget);
        let b = entry_rows(t, o, e, depth, budget);
        assert forall|i: int| 0 <= i < (a + b).len() implies (#[trigger] (a + b)[i]).depth == depth by {
            if i < a.len() {
                assert((a + b)[i] == a[i]);
            } else {
                assert((a + b)[i] == b[i - a.len()]);
            }
        }
    }
}

/// With no directory open, no search and nothing expanded for the view,
/// the explorer lists only the root's entries: it enters no directory.
pub proof fn closed_directories_are_not_entered(t: TreeView, o: FlattenView, budget: nat)
    requires
        t.expanded.is_empty(),
        o.search.len() == 0,
        !o.expand_all,
    ensures
        forall|i: int| 0 <= i < flatten_dir(t, o, Seq::empty(), 0, budget).len() ==> (#[trigger] flatten_dir(
            t,
            o,
            Seq::empty(),
            0,
            budget,
        )[i]).depth == 0,
{
    if t.directories.contains_key(Seq::empty()) {
        lemma_closed_entries(t, o, t.directories[Seq::empty()], 0, budget);
        assert(flatten_dir(t, o, Seq::empty(), 0, budget) == flatten_entries(t, o, t.directories[Seq::empty()], 0, budget));
    }
}
} // verus!
