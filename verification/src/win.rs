//! The window: the list of open collections as the settings store holds
//! it, and the sidebar that shows one root for each of them.

use vstd::prelude::*;
use crate::error::CarteroError;
use crate::objects::collection::Collection;
use crate::widgets::sidebar::Sidebar;
use crate::widgets::sidebar::SidebarView;
use crate::widgets::sidebar::lemma_synced_shows_paths;
use crate::widgets::sidebar::paths_view;

verus! {

/// The paths of `paths` that are not `path`, in their order.
pub open spec fn without(paths: Seq<Seq<char>>, path: Seq<char>) -> Seq<Seq<char>> {
    paths.filter(|other: Seq<char>| other != path)
}

/// The window as plain mathematical values.
pub ghost struct WindowView {
    /// The paths of the open collections, in the order in which they were
    /// opened.
    pub open_collections: Seq<Seq<char>>,
    /// Whether the list has changed since the settings store last took it.
    pub unsaved: bool,
    pub collections: SidebarView,
}

impl WindowView {
    /// The sidebar is well formed and its roots stand for the open
    /// collections, path by path.
    pub open spec fn wf(self) -> bool {
        &&& self.collections.wf()
        &&& self.collections.paths == self.open_collections
    }

    /// Whether `path` is in the list of open collections.
    pub open spec fn is_open(self, path: Seq<char>) -> bool {
        self.open_collections.contains(path)
    }

    /// Opening `path` would not add a root beyond what a 32-bit count of
    /// the roots can hold: the path is open already, so that nothing would
    /// be added, or the list has room for one more.
    pub open spec fn has_room_for(self, path: Seq<char>) -> bool {
        self.is_open(path) || self.open_collections.len() < u32::MAX
    }

    /// The list is a set of paths: no path is in it twice, and no entry is
    /// empty.
    pub open spec fn is_set_of_paths(self) -> bool {
        &&& self.open_collections.no_duplicates()
        &&& forall|i: int|
            0 <= i < self.open_collections.len() ==> (#[trigger] self.open_collections[i]).len()
                > 0
    }

    /// The window that starts with the list `stored`, as the settings store
    /// holds it, and a sidebar that shows it.
    pub open spec fn started(stored: Seq<Seq<char>>) -> WindowView {
        WindowView {
            open_collections: stored,
            unsaved: false,
            collections: SidebarView::synced(stored),
        }
    }

    /// The window after `path` was opened: the path is last in the list, a
    /// fresh root for it is last in the sidebar, and the list is unsaved.
    pub open spec fn opened(self, path: Seq<char>) -> WindowView {
        WindowView {
            open_collections: self.open_collections.push(path),
            unsaved: true,
            collections: self.collections.append_root(path),
        }
    }

    /// The window after it was asked to open `path`: as it was where the
    /// path is open already, with the path opened otherwise.
    pub open spec fn finish_open_collection(self, path: Seq<char>) -> WindowView {
        if self.is_open(path) {
            self
        } else {
            self.opened(path)
        }
    }

    /// What the window answers when it is asked to open `path`.
    pub open spec fn open_answer(self, path: Seq<char>) -> Result<(), CarteroError> {
        if self.is_open(path) {
            Err(CarteroError::AlreadyOpened)
        } else {
            Ok(())
        }
    }

    /// The window after `path` was closed: the list holds the other paths
    /// in their order, the sidebar is rebuilt from it, and the list is
    /// unsaved.
    pub open spec fn closed(self, path: Seq<char>) -> WindowView {
        WindowView {
            open_collections: without(self.open_collections, path),
            unsaved: true,
            collections: SidebarView::synced(without(self.open_collections, path)),
        }
    }

    /// The window after its sidebar was rebuilt from the list.
    pub open spec fn resynchronized(self) -> WindowView {
        WindowView { collections: SidebarView::synced(self.open_collections), ..self }
    }
}

/// The window of the application.
#[derive(Debug)]
pub struct CarteroWindow {
    open_collections: Vec<String>,
    unsaved: bool,
    collections: Sidebar,
}

impl View for CarteroWindow {
    type V = WindowView;

    closed spec fn view(&self) -> WindowView {
        WindowView {
            open_collections: paths_view(self.open_collections@),
            unsaved: self.unsaved,
            collections: self.collections@,
        }
    }
}

impl CarteroWindow {
    /// The roots of the sidebar stand for the open collections, and the
    /// sidebar is well formed.
    pub open spec fn wf(&self) -> bool {
        &&& self@.wf()
        &&& self.rows_laid_out()
    }

    /// The flat list that the tree keeps holds the rows of its roots.
    pub closed spec fn rows_laid_out(&self) -> bool {
        self.collections.rows_laid_out()
    }

    /// A window that starts with the list of open collections as the
    /// settings store holds it, and shows it in its sidebar.
    pub fn new(stored: Vec<String>) -> (window: CarteroWindow)
        requires
            stored@.len() <= u32::MAX,
        ensures
            window@ == WindowView::started(paths_view(stored@)),
            window.wf(),
    {
        let mut collections = Sidebar::new();
        collections.sync_collections(&stored);
        CarteroWindow { open_collections: stored, unsaved: false, collections }
    }

    /// Whether `path` is in the list of open collections.
    pub fn is_open(&self, path: &str) -> (open: bool)
        ensures
            open == self@.is_open(path@),
    {
        let wanted: String = path.to_owned();
        let mut i: usize = 0;
        while i < self.open_collections.len()
            invariant
                i <= self.open_collections@.len(),
                wanted@ == path@,
                forall|k: int| 0 <= k < i ==> paths_view(self.open_collections@)[k] != path@,
            decreases self.open_collections.len() - i,
        {
            if self.open_collections[i] == wanted {
                assert(paths_view(self.open_collections@)[i as int] == path@);
                return true;
            }
            assert(paths_view(self.open_collections@)[i as int] == self.open_collections@[i as int]@);
            i += 1;
        }
        false
    }

    /// Opens the collection at `path`. A path that is already open is
    /// refused, and nothing changes. Otherwise the path comes last in the
    /// list and gets a fresh root, last in the sidebar; the roots that were
    /// there stay as they are. The list is unsaved until the settings store
    /// has taken it.
    pub fn finish_open_collection(&mut self, path: &str) -> (done: Result<(), CarteroError>)
        requires
            old(self).wf(),
            old(self)@.has_room_for(path@),
        ensures
            done == old(self)@.open_answer(path@),
            final(self)@ == old(self)@.finish_open_collection(path@),
            done is Err <==> old(self)@.is_open(path@),
            done is Err ==> done == Err::<(), CarteroError>(CarteroError::AlreadyOpened)
                && final(self)@ == old(self)@,
            done is Ok ==> final(self)@ == old(self)@.opened(path@),
            final(self).wf(),
            old(self)@.is_set_of_paths() && path@.len() > 0 ==> final(self)@.is_set_of_paths(),
    {
        if self.is_open(path) {
            return Err(CarteroError::AlreadyOpened);
        }
        self.open_collections.push(path.to_owned());
        self.collections.append_root(path);
        self.unsaved = true;
        assert(paths_view(self.open_collections@) =~= old(self)@.open_collections.push(path@));
        proof {
            if old(self)@.is_set_of_paths() && path@.len() > 0 {
                lemma_opened_keeps_set_of_paths(old(self)@, path@);
            }
        }
        Ok(())
    }

    /// Takes the outcome of the dialog that asks for a collection to open.
    /// Where the dialog gave no path, because the user left it or because it
    /// failed, the answer is the dialog's error and nothing changes; where
    /// it gave a path, that path is opened.
    pub fn trigger_open_collection(&mut self, selected: Option<&str>) -> (done: Result<
        (),
        CarteroError,
    >)
        requires
            old(self).wf(),
            selected matches Some(path) ==> old(self)@.has_room_for(path@),
        ensures
            match selected {
                None => done == Err::<(), CarteroError>(CarteroError::FileDialogError)
                    && final(self)@ == old(self)@,
                Some(path) => {
                    &&& done == old(self)@.open_answer(path@)
                    &&& final(self)@ == old(self)@.finish_open_collection(path@)
                    &&& old(self)@.is_set_of_paths() && path@.len() > 0
                        ==> final(self)@.is_set_of_paths()
                },
            },
            final(self).wf(),
    {
        match selected {
            None => Err(CarteroError::FileDialogError),
            Some(path) => self.finish_open_collection(path),
        }
    }

    /// Closes the collection at `path`: every entry equal to `path` leaves
    /// the list, the others keep their order, and the sidebar is rebuilt
    /// from what is left. Closing a path that is not open is no error. The
    /// list is unsaved until the settings store has taken it.
    pub fn close_collection(&mut self, path: &str)
        requires
            old(self).wf(),
        ensures
            final(self)@ == old(self)@.closed(path@),
            !final(self)@.is_open(path@),
            final(self).wf(),
            old(self)@.is_set_of_paths() ==> final(self)@.is_set_of_paths(),
    {
        let wanted: String = path.to_owned();
        let ghost before = paths_view(self.open_collections@);
        let mut left: Vec<String> = Vec::new();
        let mut i: usize = 0;
        proof {
            reveal(Seq::filter);
            assert(before.take(0) =~= Seq::empty());
            assert(paths_view(left@) =~= without(before.take(0), path@));
        }
        while i < self.open_collections.len()
            invariant
                i <= self.open_collections@.len(),
                wanted@ == path@,
                before == paths_view(self.open_collections@),
                paths_view(left@) == without(before.take(i as int), path@),
            decreases self.open_collections.len() - i,
        {
            proof {
                reveal(Seq::filter);
                assert(before.take(i + 1).drop_last() =~= before.take(i as int));
                assert(before.take(i + 1).last() == self.open_collections@[i as int]@);
            }
            if !(self.open_collections[i] == wanted) {
                left.push(self.open_collections[i].clone());
                assert(paths_view(left@) =~= without(before.take(i as int), path@).push(
                    self.open_collections@[i as int]@,
                ));
            }
            i += 1;
        }
        proof {
            assert(before.take(i as int) =~= before);
            lemma_without(before, path@);
            if old(self)@.is_set_of_paths() {
                lemma_closed_keeps_set_of_paths(old(self)@, path@);
            }
        }
        self.collections.sync_collections(&left);
        self.open_collections = left;
        self.unsaved = true;
    }

    /// Rebuilds the sidebar from the list of open collections.
    pub fn init_sidebar(&mut self)
        requires
            old(self)@.open_collections.len() <= u32::MAX,
        ensures
            final(self)@ == old(self)@.resynchronized(),
            final(self).wf(),
    {
        self.collections.sync_collections(&self.open_collections);
    }

    /// Saves `draft` as the collection that is open at `path`. Where the
    /// path is no longer open the reference is stale: nothing changes, and
    /// the draft keeps what it had to tell.
    pub fn save_collection(&mut self, path: &str, draft: &mut Collection) -> (done: Result<
        (),
        CarteroError,
    >)
        requires
            old(self).wf(),
            old(draft)@.wf(),
        ensures
            done is Ok <==> old(self)@.is_open(path@),
            done is Err ==> done == Err::<(), CarteroError>(CarteroError::StaleReference)
                && final(draft)@ == old(draft)@,
            done is Ok ==> final(draft)@ == old(draft)@.heard(),
            final(self)@ == (WindowView {
                collections: old(self)@.collections.save_collection(path@, old(draft)@),
                ..old(self)@
            }),
            final(self).wf(),
    {
        self.collections.save_collection(path, draft)
    }

    /// Toggles the root shown at row `pos` of the sidebar's tree.
    pub fn toggle(&mut self, pos: usize) -> (expanded: Option<bool>)
        requires
            old(self).wf(),
        ensures
            final(self)@ == (WindowView {
                collections: old(self)@.collections.toggle(pos as int),
                ..old(self)@
            }),
            expanded == old(self)@.collections.tree.toggle_answer(pos as int),
            final(self).wf(),
    {
        self.collections.toggle(pos)
    }

    /// The sidebar, to read its roots and rows.
    pub fn collections(&self) -> (sidebar: &Sidebar)
        requires
            self.wf(),
        ensures
            sidebar@ == self@.collections,
            sidebar.wf(),
    {
        &self.collections
    }

    /// Takes the answer of the settings store to a write of the list. A
    /// list that the store took is saved. A list that it refused stays
    /// unsaved, as it is, so that the write can be tried again.
    pub fn settings_written(&mut self, accepted: bool) -> (done: Result<(), CarteroError>)
        ensures
            final(self)@ == (WindowView { unsaved: !accepted, ..old(self)@ }),
            done == if accepted {
                Ok::<(), CarteroError>(())
            } else {
                Err::<(), CarteroError>(CarteroError::PersistenceFailure)
            },
            old(self).wf() ==> final(self).wf(),
    {
        self.unsaved = !accepted;
        if accepted {
            Ok(())
        } else {
            Err(CarteroError::PersistenceFailure)
        }
    }

    /// Whether the settings store holds the list as it is now.
    pub fn is_committed(&self) -> (committed: bool)
        ensures
            committed == !self@.unsaved,
    {
        !self.unsaved
    }

    /// The list of open collections, to be written to the settings store.
    pub fn open_collections(&self) -> (paths: Vec<String>)
        ensures
            paths_view(paths@) == self@.open_collections,
    {
        let paths = self.open_collections.clone();
        assert(paths_view(paths@) =~= paths_view(self.open_collections@));
        paths
    }
}

/// Opening a path that was just opened is refused, and leaves the list and
/// the sidebar as the first opening left them.
pub proof fn lemma_second_open_is_refused(window: WindowView, path: Seq<char>)
    ensures
        window.finish_open_collection(path).open_answer(path) == Err::<(), CarteroError>(
            CarteroError::AlreadyOpened,
        ),
        window.finish_open_collection(path).finish_open_collection(path)
            == window.finish_open_collection(path),
{
    let once = window.finish_open_collection(path);
    if !window.is_open(path) {
        assert(once.open_collections[window.open_collections.len() as int] == path);
    }
}

/// After a path was opened or closed, and after the sidebar was rebuilt,
/// the roots of the sidebar stand for the open collections path by path:
/// as many roots as paths, the same paths in the same order.
pub proof fn lemma_roots_follow_open_collections(window: WindowView, path: Seq<char>)
    requires
        window.wf(),
    ensures
        window.has_room_for(path) ==> window.finish_open_collection(path).wf(),
        window.closed(path).wf(),
        window.resynchronized().wf(),
        window.finish_open_collection(path).collections.paths == window.finish_open_collection(
            path,
        ).open_collections,
        window.closed(path).collections.paths == window.closed(path).open_collections,
        window.resynchronized().collections.paths == window.open_collections,
{
    lemma_without(window.open_collections, path);
    lemma_synced_shows_paths(without(window.open_collections, path));
    lemma_synced_shows_paths(window.open_collections);
    let opened = window.opened(path);
    assert forall|root: int| 0 <= root < opened.collections.tree.roots.len() implies (
    #[trigger] opened.collections.tree.roots[root]).wf() by {
        if root < window.collections.tree.roots.len() {
            assert(window.collections.tree.roots[root].wf());
        }
    }
}

/// A list that is a set of paths is one still after a path that is not
/// empty was opened, whether the opening was refused or not.
pub proof fn lemma_opened_keeps_set_of_paths(window: WindowView, path: Seq<char>)
    requires
        window.is_set_of_paths(),
        path.len() > 0,
    ensures
        window.finish_open_collection(path).is_set_of_paths(),
{
    if !window.is_open(path) {
        let before = window.open_collections;
        let after = window.opened(path).open_collections;
        assert forall|i: int, j: int|
            0 <= i < after.len() && 0 <= j < after.len() && i != j implies after[i] != after[j] by {
            if i < before.len() && j < before.len() {
                assert(before[i] != before[j]);
            } else if i < before.len() {
                assert(before.contains(before[i]));
            } else {
                assert(before.contains(before[j]));
            }
        }
        assert forall|i: int| 0 <= i < after.len() implies (#[trigger] after[i]).len() > 0 by {
            if i < before.len() {
                assert(before[i].len() > 0);
            }
        }
    }
}

/// A list that is a set of paths is one still after a path was closed.
pub proof fn lemma_closed_keeps_set_of_paths(window: WindowView, path: Seq<char>)
    requires
        window.is_set_of_paths(),
    ensures
        window.closed(path).is_set_of_paths(),
{
    lemma_without(window.open_collections, path);
    let before = window.open_collections;
    let after = without(before, path);
    assert forall|i: int| 0 <= i < after.len() implies (#[trigger] after[i]).len() > 0 by {
        assert(after.contains(after[i]));
        if after[i] != path {
            assert(before.contains(after[i]));
            let j = choose|j: int| 0 <= j < before.len() && before[j] == after[i];
            assert(before[j].len() > 0);
        }
    }
}

/// Closing a path right after it was opened gives back the list as it was
/// before the opening.
pub proof fn lemma_close_after_open_restores_list(window: WindowView, path: Seq<char>)
    requires
        !window.is_open(path),
    ensures
        window.finish_open_collection(path).closed(path).open_collections
            == window.open_collections,
{
    reveal(Seq::filter);
    let opened = window.open_collections.push(path);
    assert(opened.drop_last() =~= window.open_collections);
    lemma_without(window.open_collections, path);
}

/// What is left of a list when a path is taken out of it: the path is no
/// longer there, every other path is there if and only if it was, the list
/// is no longer than before, and a list that held no path twice still holds
/// none twice.
pub proof fn lemma_without(paths: Seq<Seq<char>>, path: Seq<char>)
    ensures
        !without(paths, path).contains(path),
        forall|other: Seq<char>|
            other != path ==> (#[trigger] without(paths, path).contains(other) <==> paths.contains(
                other,
            )),
        without(paths, path).len() <= paths.len(),
        paths.no_duplicates() ==> without(paths, path).no_duplicates(),
        !paths.contains(path) ==> without(paths, path) == paths,
    decreases paths.len(),
{
    reveal(Seq::filter);
    if paths.len() > 0 {
        let rest = paths.drop_last();
        let last = paths.last();
        lemma_without(rest, path);
        let kept = without(rest, path);
        let out = without(paths, path);
        assert forall|other: Seq<char>| other != path implies (#[trigger] out.contains(other)
            <==> paths.contains(other)) by {
            if out.contains(other) {
                let k = choose|k: int| 0 <= k < out.len() && out[k] == other;
                if last != path && k == out.len() - 1 {
                    assert(paths[paths.len() - 1] == other);
                } else {
                    assert(kept[k] == other);
                    assert(kept.contains(other));
                    let j = choose|j: int| 0 <= j < rest.len() && rest[j] == other;
                    assert(paths[j] == other);
                }
            }
            if paths.contains(other) {
                let j = choose|j: int| 0 <= j < paths.len() && paths[j] == other;
                if j == paths.len() - 1 {
                    assert(out[out.len() - 1] == other);
                } else {
                    assert(rest[j] == other);
                    assert(rest.contains(other));
                    assert(kept.contains(other));
                    let k = choose|k: int| 0 <= k < kept.len() && kept[k] == other;
                    assert(out[k] == other);
                }
            }
        }
        if out.contains(path) {
            let k = choose|k: int| 0 <= k < out.len() && out[k] == path;
            if last != path && k == out.len() - 1 {
            } else {
                assert(kept[k] == path);
                assert(kept.contains(path));
            }
        }
        if paths.no_duplicates() {
            assert(rest.no_duplicates()) by {
                assert forall|i: int, j: int|
                    0 <= i < rest.len() && 0 <= j < rest.len() && i != j implies rest[i]
                    != rest[j] by {
                    assert(paths[i] != paths[j]);
                }
            }
            if last != path {
                assert(!rest.contains(last)) by {
                    if rest.contains(last) {
                        let j = choose|j: int| 0 <= j < rest.len() && rest[j] == last;
                        assert(paths[j] == paths[paths.len() - 1]);
                    }
                }
                assert(!kept.contains(last));
                assert forall|i: int, j: int|
                    0 <= i < out.len() && 0 <= j < out.len() && i != j implies out[i]
                    != out[j] by {
                    if i < kept.len() && j < kept.len() {
                        assert(kept[i] != kept[j]);
                    } else if i < kept.len() {
                        assert(kept.contains(kept[i]));
                    } else {
                        assert(kept.contains(kept[j]));
                    }
                }
            }
        }
        if !paths.contains(path) {
            assert(!rest.contains(path)) by {
                if rest.contains(path) {
                    let j = choose|j: int| 0 <= j < rest.len() && rest[j] == path;
                    assert(paths[j] == path);
                }
            }
            assert(paths[paths.len() - 1] != path);
            assert(out =~= paths);
        }
    }
}

} // verus!
