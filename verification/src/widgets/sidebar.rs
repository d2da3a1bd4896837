//! The sidebar: the tree of open collections, each root with the path of
//! the file behind it.

use vstd::prelude::*;
use crate::error::CarteroError;
use crate::objects::collection::Collection;
use crate::objects::collection::CollectionView;
use crate::widgets::collection_tree::CollectionTree;
use crate::widgets::tree_model::RootView;
use crate::widgets::tree_model::TreeView;

verus! {

/// The paths of a list, each as a sequence of characters.
pub open spec fn paths_view(paths: Seq<String>) -> Seq<Seq<char>> {
    paths.map_values(|path: String| path@)
}

/// The root that stands for the file at `path` until its content is handed
/// in: a collapsed, empty collection named by the path.
pub open spec fn fresh_root(path: Seq<char>) -> RootView {
    RootView::collapsed(CollectionView::new(path))
}

/// The sidebar as plain mathematical values: the path of each root, and the
/// tree.
pub ghost struct SidebarView {
    pub paths: Seq<Seq<char>>,
    pub tree: TreeView,
}

impl SidebarView {
    /// Each root has its path, and the tree is well formed.
    pub open spec fn wf(self) -> bool {
        &&& self.paths.len() == self.tree.roots.len()
        &&& self.tree.wf()
    }

    /// The sidebar that shows exactly `paths`, in their order: one fresh
    /// root for each.
    pub open spec fn synced(paths: Seq<Seq<char>>) -> SidebarView {
        SidebarView {
            paths,
            tree: TreeView { roots: paths.map_values(|path: Seq<char>| fresh_root(path)) },
        }
    }

    /// The sidebar with a fresh root for `path` behind its roots.
    pub open spec fn append_root(self, path: Seq<char>) -> SidebarView {
        SidebarView {
            paths: self.paths.push(path),
            tree: TreeView { roots: self.tree.roots.push(fresh_root(path)) },
        }
    }

    /// The sidebar after `collection` was saved under `path`: it takes the
    /// place of the collection at the first root with that path, with
    /// nothing left to tell. Without such a root nothing changes.
    pub open spec fn save_collection(self, path: Seq<char>, collection: CollectionView)
        -> SidebarView {
        match self.paths.index_of_first(path) {
            Some(root) => SidebarView {
                tree: self.tree.replace_collection(root, collection),
                ..self
            },
            None => self,
        }
    }

    /// The sidebar after a toggle was asked for at row `pos` of its tree.
    pub open spec fn toggle(self, pos: int) -> SidebarView {
        SidebarView { tree: self.tree.toggle(pos), ..self }
    }
}

/// The sidebar of the window.
#[derive(Debug)]
pub struct Sidebar {
    paths: Vec<String>,
    tree: CollectionTree,
}

impl View for Sidebar {
    type V = SidebarView;

    closed spec fn view(&self) -> SidebarView {
        SidebarView { paths: paths_view(self.paths@), tree: self.tree@ }
    }
}

impl Sidebar {
    /// Each root has its path, and the tree is well formed.
    pub open spec fn wf(&self) -> bool {
        &&& self@.wf()
        &&& self.rows_laid_out()
    }

    /// The flat list that the tree keeps holds the rows of its roots.
    pub closed spec fn rows_laid_out(&self) -> bool {
        self.tree.rows_laid_out()
    }

    /// A sidebar without roots.
    pub fn new() -> (sidebar: Sidebar)
        ensures
            sidebar@ == SidebarView::synced(Seq::empty()),
            sidebar.wf(),
    {
        let sidebar = Sidebar { paths: Vec::new(), tree: CollectionTree::new() };
        assert(sidebar@.paths =~= Seq::empty());
        assert(sidebar@.tree.roots =~= SidebarView::synced(Seq::empty()).tree.roots);
        sidebar
    }

    /// Adds a fresh root for `path` behind the roots.
    pub fn append_root(&mut self, path: &str)
        requires
            old(self).wf(),
            old(self)@.paths.len() < u32::MAX,
        ensures
            final(self)@ == old(self)@.append_root(path@),
            final(self).wf(),
    {
        let collection = Collection::new_with_title(path);
        self.tree.append_collection(&collection);
        self.paths.push(path.to_owned());
        assert(self@.paths =~= old(self)@.paths.push(path@));
    }

    /// Rebuilds the roots so that they show exactly `open_collections`, in
    /// their order. Every root is built anew, as a fresh root for its path:
    /// what the roots held before is dropped.
    pub fn sync_collections(&mut self, open_collections: &Vec<String>)
        requires
            open_collections@.len() <= u32::MAX,
        ensures
            final(self)@ == SidebarView::synced(paths_view(open_collections@)),
            final(self).wf(),
    {
        self.tree.clear();
        self.paths = Vec::new();
        let ghost wanted = paths_view(open_collections@);
        assert(self@.paths =~= wanted.take(0));
        assert(self@.tree.roots =~= SidebarView::synced(wanted.take(0)).tree.roots);
        let mut i: usize = 0;
        while i < open_collections.len()
            invariant
                i <= open_collections@.len(),
                open_collections@.len() <= u32::MAX,
                wanted == paths_view(open_collections@),
                self.wf(),
                self@ == SidebarView::synced(wanted.take(i as int)),
            decreases open_collections.len() - i,
        {
            self.append_root(open_collections[i].as_str());
            proof {
                let after = SidebarView::synced(wanted.take(i + 1));
                assert(wanted[i as int] == open_collections@[i as int]@);
                assert(self@.paths =~= after.paths);
                assert(self@.tree.roots =~= after.tree.roots);
            }
            i += 1;
        }
        assert(wanted.take(i as int) =~= wanted);
    }

    /// The path of each root, first root first.
    pub fn root_paths(&self) -> (paths: Vec<String>)
        ensures
            paths_view(paths@) == self@.paths,
    {
        let paths = self.paths.clone();
        assert(paths_view(paths@) =~= paths_view(self.paths@));
        paths
    }

    /// The place of the first root whose path is `path`, or `None` where no
    /// root has that path.
    pub fn position_of(&self, path: &str) -> (position: Option<u32>)
        requires
            self.wf(),
        ensures
            match position {
                Some(root) => {
                    &&& self@.paths.index_of_first(path@) == Some(root as int)
                    &&& root < self@.paths.len()
                    &&& self@.paths[root as int] == path@
                    &&& forall|before: int| 0 <= before < root ==> self@.paths[before] != path@
                },
                None => {
                    &&& self@.paths.index_of_first(path@) is None
                    &&& !self@.paths.contains(path@)
                },
            },
    {
        let wanted: String = path.to_owned();
        let mut i: usize = 0;
        proof {
            self@.paths.index_of_first_ensures(path@);
        }
        while i < self.paths.len()
            invariant
                i <= self.paths@.len(),
                self.paths@.len() <= u32::MAX,
                wanted@ == path@,
                forall|k: int| 0 <= k < i ==> paths_view(self.paths@)[k] != path@,
            decreases self.paths.len() - i,
        {
            if self.paths[i] == wanted {
                proof {
                    assert(paths_view(self.paths@)[i as int] == path@);
                    self@.paths.index_of_first_ensures(path@);
                }
                return Some(i as u32);
            }
            assert(paths_view(self.paths@)[i as int] == self.paths@[i as int]@);
            i += 1;
        }
        proof {
            self@.paths.index_of_first_ensures(path@);
        }
        None
    }

    /// Saves `draft` under `path`: takes what the draft had to tell, and
    /// puts a copy of it in the place of the collection at the first root
    /// with that path. Where no root has that path the reference is stale:
    /// nothing changes, and the draft keeps what it had to tell.
    pub fn save_collection(&mut self, path: &str, draft: &mut Collection) -> (done: Result<
        (),
        CarteroError,
    >)
        requires
            old(self).wf(),
            old(draft)@.wf(),
        ensures
            done is Ok <==> old(self)@.paths.contains(path@),
            done is Err ==> done == Err::<(), CarteroError>(CarteroError::StaleReference)
                && final(draft)@ == old(draft)@,
            done is Ok ==> final(draft)@ == old(draft)@.heard(),
            final(self)@ == old(self)@.save_collection(path@, old(draft)@),
            final(self).wf(),
    {
        proof {
            self@.paths.index_of_first_ensures(path@);
        }
        match self.position_of(path) {
            Some(root) => {
                let _ = draft.take_changes();
                let done = self.tree.replace_collection(root, draft);
                assert(done is Ok);
                Ok(())
            },
            None => Err(CarteroError::StaleReference),
        }
    }

    /// The tree, to read its rows.
    pub fn tree(&self) -> (tree: &CollectionTree)
        requires
            self.wf(),
        ensures
            tree@ == self@.tree,
            tree.wf(),
    {
        &self.tree
    }

    /// Toggles the root shown at row `pos` of the tree.
    pub fn toggle(&mut self, pos: usize) -> (expanded: Option<bool>)
        requires
            old(self).wf(),
        ensures
            final(self)@ == old(self)@.toggle(pos as int),
            expanded == old(self)@.tree.toggle_answer(pos as int),
            final(self).wf(),
    {
        self.tree.toggle(pos)
    }
}

/// A sidebar that was rebuilt from a list of paths shows that list: read
/// back, the paths of its roots are the list itself, and the root at each
/// place is a fresh root for the path at that place.
pub proof fn lemma_synced_shows_paths(paths: Seq<Seq<char>>)
    ensures
        SidebarView::synced(paths).paths == paths,
        SidebarView::synced(paths).tree.roots.len() == paths.len(),
        forall|root: int|
            0 <= root < paths.len() ==> #[trigger] SidebarView::synced(paths).tree.roots[root]
                == fresh_root(paths[root]),
        paths.len() <= u32::MAX ==> SidebarView::synced(paths).wf(),
{
}

} // verus!
