//! The tree of collections and their requests, laid out as a flat list of
//! rows that a list view can show by position.

use vstd::prelude::*;
use crate::error::CarteroError;
use crate::objects::collection::Collection;
use crate::objects::collection::collections_view;
use crate::objects::endpoint::Endpoint;
use crate::objects::endpoint::EndpointView;
use crate::objects::endpoint::endpoints_view;
use crate::widgets::list_item::ListItem;
use crate::widgets::list_item::RowWidget;
use crate::widgets::list_item::RowWidgetView;
use crate::widgets::tree_model::Activation;
use crate::widgets::tree_model::ExpansionView;
use crate::widgets::tree_model::RootView;
use crate::widgets::tree_model::TreeNode;
use crate::widgets::tree_model::TreeRow;
use crate::widgets::tree_model::TreeView;
use crate::widgets::tree_model::child_rows;
use crate::widgets::tree_model::lemma_row_origin;
use crate::widgets::tree_model::lemma_rows_frame;
use crate::widgets::tree_model::lemma_activation_follows_the_row;
use crate::widgets::tree_model::lemma_toggle_replaces_rows_of_root;
use crate::widgets::tree_model::root_row;

verus! {

/// The state of a root: collapsed, or expanded with the children that were
/// built for it when it was expanded.
#[derive(Debug)]
enum Expansion {
    Collapsed,
    Expanded(Vec<Endpoint>),
}

/// A root of the tree.
#[derive(Debug)]
struct RootEntry {
    collection: Collection,
    state: Expansion,
}

impl View for RootEntry {
    type V = RootView;

    closed spec fn view(&self) -> RootView {
        RootView {
            collection: self.collection@,
            state: match self.state {
                Expansion::Collapsed => ExpansionView::Collapsed,
                Expansion::Expanded(children) => ExpansionView::Expanded(
                    endpoints_view(children@),
                ),
            },
        }
    }
}

/// The roots of a list, each as its plain values.
spec fn roots_view(roots: Seq<RootEntry>) -> Seq<RootView> {
    roots.map_values(|root: RootEntry| root@)
}

/// The tree of collections: its roots, and the flat list of rows that
/// they contribute at present.
///
/// A root is collapsed until a toggle expands it. Only then are its children
/// built, from the requests that its collection holds at that moment, and
/// kept until the next toggle drops them.
#[derive(Debug)]
pub struct CollectionTree {
    roots: Vec<RootEntry>,
    rows: Vec<TreeRow>,
}

impl View for CollectionTree {
    type V = TreeView;

    closed spec fn view(&self) -> TreeView {
        TreeView { roots: roots_view(self.roots@) }
    }
}

/// What an optional text holds, as a sequence of characters.
pub open spec fn text_of(text: Option<String>) -> Option<Seq<char>> {
    match text {
        Some(text) => Some(text@),
        None => None,
    }
}

/// What an optional list of requests holds, as plain values.
pub open spec fn model_of(model: Option<Vec<Endpoint>>) -> Option<Seq<EndpointView>> {
    match model {
        Some(model) => Some(endpoints_view(model@)),
        None => None,
    }
}

/// Lays the rows of `roots` out, first root first.
fn build_rows(roots: &Vec<RootEntry>) -> (rows: Vec<TreeRow>)
    requires
        (TreeView { roots: roots_view(roots@) }).wf(),
    ensures
        rows@ == (TreeView { roots: roots_view(roots@) }).rows(),
{
    let ghost tree = TreeView { roots: roots_view(roots@) };
    let mut rows: Vec<TreeRow> = Vec::new();
    let mut i: usize = 0;
    while i < roots.len()
        invariant
            i <= roots.len(),
            tree == (TreeView { roots: roots_view(roots@) }),
            tree.wf(),
            rows@ == tree.rows_between(0, i as int),
        decreases roots.len() - i,
    {
        let ghost before = rows@;
        assert(tree.roots[i as int].wf());
        assert(tree.roots[i as int] == roots@[i as int]@);
        let root: u32 = i as u32;
        match &roots[i].state {
            Expansion::Collapsed => {
                rows.push(TreeRow {
                    node: TreeNode::Collection { root },
                    depth: 0,
                    expanded: false,
                    parent: None,
                });
                assert(rows@ =~= before + tree.roots[i as int].rows(i as int));
            },
            Expansion::Expanded(children) => {
                rows.push(TreeRow {
                    node: TreeNode::Collection { root },
                    depth: 0,
                    expanded: true,
                    parent: None,
                });
                let mut k: usize = 0;
                while k < children.len()
                    invariant
                        k <= children.len(),
                        children@.len() <= u32::MAX,
                        root == i,
                        rows@ == before + seq![root_row(i as int, true)] + child_rows(
                            i as int,
                            k as nat,
                        ),
                    decreases children.len() - k,
                {
                    rows.push(TreeRow {
                        node: TreeNode::Endpoint { root, child: k as u32 },
                        depth: 1,
                        expanded: false,
                        parent: Some(root),
                    });
                    assert(rows@ =~= before + seq![root_row(i as int, true)] + child_rows(
                        i as int,
                        (k + 1) as nat,
                    ));
                    k += 1;
                }
                assert(rows@ =~= before + tree.roots[i as int].rows(i as int));
            },
        }
        i += 1;
    }
    rows
}

impl Default for CollectionTree {
    fn default() -> (tree: CollectionTree)
        ensures
            tree@ == TreeView::empty(),
            tree.wf(),
    {
        CollectionTree::new()
    }
}

impl CollectionTree {
    /// The roots are well formed and the flat list holds their rows.
    pub open spec fn wf(&self) -> bool {
        &&& self@.wf()
        &&& self.rows_laid_out()
    }

    /// The flat list that the tree keeps holds the rows of its roots.
    pub closed spec fn rows_laid_out(&self) -> bool {
        self.rows@ == self@.rows()
    }

    /// A tree without roots, and so without rows.
    pub fn new() -> (tree: CollectionTree)
        ensures
            tree@ == TreeView::empty(),
            tree.wf(),
    {
        let tree = CollectionTree { roots: Vec::new(), rows: Vec::new() };
        assert(roots_view(tree.roots@) =~= Seq::empty());
        assert(tree@.rows() =~= Seq::empty());
        tree
    }

    /// Adds a copy of `col` behind the roots, as a collapsed root: one new
    /// row at the end of the list, at depth 0. The copy has nothing left to
    /// tell: the tree has heard it.
    pub fn append_collection(&mut self, col: &Collection)
        requires
            old(self).wf(),
            col@.wf(),
            old(self)@.roots.len() < u32::MAX,
        ensures
            final(self)@ == old(self)@.append_collection(col@),
            final(self).wf(),
    {
        let ghost before = self@;
        let root: u32 = self.roots.len() as u32;
        let mut collection = col.clone();
        let _ = collection.take_changes();
        self.roots.push(RootEntry { collection, state: Expansion::Collapsed });
        self.rows.push(
            TreeRow { node: TreeNode::Collection { root }, depth: 0, expanded: false, parent: None },
        );
        proof {
            let after = before.append_collection(col@);
            assert(self@.roots =~= after.roots);
            assert(after.wf()) by {
                assert forall|i: int| 0 <= i < after.roots.len() implies (
                #[trigger] after.roots[i]).wf() by {
                    if i < before.roots.len() {
                        assert(before.roots[i].wf());
                    }
                }
            }
            let n = before.roots.len() as int;
            lemma_rows_frame(before, after, 0, n);
            assert(after.roots[n].rows(n) =~= seq![root_row(n, false)]);
            assert(after.rows() =~= before.rows() + seq![root_row(n, false)]);
            assert(self@ == after);
            assert(self.rows@ =~= after.rows());
        }
    }

    /// The number of roots.
    pub fn root_count(&self) -> (count: u32)
        requires
            self.wf(),
        ensures
            count == self@.roots.len(),
    {
        self.roots.len() as u32
    }

    /// A copy of the collection of each root, first root first.
    pub fn root_model(&self) -> (collections: Vec<Collection>)
        requires
            self.wf(),
        ensures
            collections_view(collections@) == self@.root_collections(),
    {
        let mut collections: Vec<Collection> = Vec::new();
        let mut i: usize = 0;
        while i < self.roots.len()
            invariant
                i <= self.roots@.len(),
                collections@.len() == i,
                forall|k: int| 0 <= k < i ==> collections@[k]@ == self.roots@[k].collection@,
            decreases self.roots.len() - i,
        {
            collections.push(self.roots[i].collection.clone());
            i += 1;
        }
        assert(collections_view(collections@) =~= self@.root_collections());
        collections
    }

    /// The number of rows in the flat list.
    pub fn n_rows(&self) -> (count: usize)
        requires
            self.wf(),
        ensures
            count == self@.rows().len(),
    {
        self.rows.len()
    }

    /// The row at `pos`, or `None` where the list is shorter.
    pub fn row(&self, pos: usize) -> (row: Option<TreeRow>)
        requires
            self.wf(),
        ensures
            row == self@.row_at(pos as int),
    {
        if pos < self.rows.len() {
            Some(self.rows[pos])
        } else {
            None
        }
    }

    /// Adds a copy of each of `cols` behind the roots, in their order, each
    /// as a collapsed root.
    pub fn insert_collections(&mut self, cols: &[Collection])
        requires
            old(self).wf(),
            forall|i: int| 0 <= i < cols@.len() ==> (#[trigger] cols@[i])@.wf(),
            old(self)@.roots.len() + cols@.len() <= u32::MAX,
        ensures
            final(self)@ == old(self)@.insert_collections(collections_view(cols@)),
            final(self).wf(),
    {
        let ghost before = self@;
        let mut i: usize = 0;
        assert(before.insert_collections(collections_view(cols@.take(0))).roots =~= before.roots);
        while i < cols.len()
            invariant
                i <= cols@.len(),
                self.wf(),
                forall|k: int| 0 <= k < cols@.len() ==> (#[trigger] cols@[k])@.wf(),
                before.roots.len() + cols@.len() <= u32::MAX,
                self@ == before.insert_collections(collections_view(cols@.take(i as int))),
            decreases cols.len() - i,
        {
            assert(cols@[i as int]@.wf());
            self.append_collection(&cols[i]);
            assert(self@.roots =~= before.insert_collections(
                collections_view(cols@.take(i + 1)),
            ).roots);
            i += 1;
        }
        assert(cols@.take(i as int) =~= cols@);
    }

    /// The collection at `root`, or `None` where there are fewer roots.
    pub fn collection(&self, root: u32) -> (found: Option<&Collection>)
        requires
            self.wf(),
        ensures
            match found {
                Some(collection) => root < self@.roots.len() && collection@
                    == self@.roots[root as int].collection,
                None => root >= self@.roots.len(),
            },
    {
        if (root as usize) < self.roots.len() {
            Some(&self.roots[root as usize].collection)
        } else {
            None
        }
    }

    /// Toggles the root shown at row `pos` and answers whether it is
    /// expanded now. A collapsed root builds its children from the requests
    /// of its collection, and their rows follow its own; an expanded root
    /// drops its children and their rows. On a leaf row, or behind the end
    /// of the list, nothing changes and the answer is `None`.
    pub fn toggle(&mut self, pos: usize) -> (expanded: Option<bool>)
        requires
            old(self).wf(),
        ensures
            final(self)@ == old(self)@.toggle(pos as int),
            expanded == old(self)@.toggle_answer(pos as int),
            final(self).wf(),
    {
        let row = match self.row(pos) {
            Some(row) => row,
            None => {
                return None;
            },
        };
        match row.node {
            TreeNode::Collection { root } => {
                let ghost before = self@;
                proof {
                    lemma_toggle_replaces_rows_of_root(before, pos as int, root);
                    lemma_row_origin(before, before.roots.len() as int, pos as int);
                }
                let entry = self.roots.remove(root as usize);
                let ghost entry_view = entry@;
                assert(entry_view == before.roots[root as int]);
                let RootEntry { collection, state } = entry;
                let now_expanded = match state {
                    Expansion::Collapsed => true,
                    Expansion::Expanded(_) => false,
                };
                let state = if now_expanded {
                    Expansion::Expanded(collection.requests())
                } else {
                    Expansion::Collapsed
                };
                let toggled = RootEntry { collection, state };
                assert(toggled@ == entry_view.toggled());
                self.roots.insert(root as usize, toggled);
                assert(roots_view(self.roots@) =~= before.roots.update(
                    root as int,
                    entry_view.toggled(),
                ));
                self.rows = build_rows(&self.roots);
                Some(now_expanded)
            },
            _ => None,
        }
    }

    /// The children that are built for `node` when it is expanded.
    pub fn child_model(&self, node: &TreeNode) -> (model: Option<Vec<Endpoint>>)
        requires
            self.wf(),
        ensures
            model_of(model) == self@.child_model(*node),
    {
        match node {
            TreeNode::Collection { root } => {
                if (*root as usize) < self.roots.len() {
                    Some(self.roots[*root as usize].collection.requests())
                } else {
                    None
                }
            },
            _ => None,
        }
    }

    /// Whether `node` still leads to an entity.
    pub fn resolves(&self, node: &TreeNode) -> (found: bool)
        requires
            self.wf(),
        ensures
            found == self@.resolves(*node),
    {
        match node {
            TreeNode::Collection { root } => (*root as usize) < self.roots.len(),
            TreeNode::Endpoint { root, child } => {
                if (*root as usize) < self.roots.len() {
                    match &self.roots[*root as usize].state {
                        Expansion::Collapsed => false,
                        Expansion::Expanded(children) => (*child as usize) < children.len(),
                    }
                } else {
                    false
                }
            },
            TreeNode::KeyValueItem { root, child } => {
                if (*root as usize) < self.roots.len() {
                    assert(self@.roots[*root as int].wf());
                    *child < self.roots[*root as usize].collection.variable_count()
                } else {
                    false
                }
            },
        }
    }

    /// The text that a row for `node` shows, or `None` where `node` leads
    /// nowhere.
    pub fn label(&self, node: &TreeNode) -> (label: Option<String>)
        requires
            self.wf(),
        ensures
            text_of(label) == self@.label(*node),
    {
        if !self.resolves(node) {
            return None;
        }
        match node {
            TreeNode::Collection { root } => Some(self.roots[*root as usize].collection.name()),
            TreeNode::Endpoint { root, child } => {
                match &self.roots[*root as usize].state {
                    Expansion::Collapsed => None,
                    Expansion::Expanded(children) => Some(children[*child as usize].url()),
                }
            },
            TreeNode::KeyValueItem { root, child } => {
                match self.roots[*root as usize].collection.variable_get(*child) {
                    Some(item) => Some(item.header_name()),
                    None => None,
                }
            },
        }
    }

    /// Whether a row for `node` offers to expand.
    pub fn is_expandable(&self, node: &TreeNode) -> (expandable: bool)
        requires
            self.wf(),
        ensures
            expandable == self@.is_expandable(*node),
    {
        match node {
            TreeNode::Collection { root } => {
                if (*root as usize) < self.roots.len() {
                    match &self.roots[*root as usize].state {
                        Expansion::Collapsed => true,
                        Expansion::Expanded(children) => children.len() > 0,
                    }
                } else {
                    false
                }
            },
            _ => false,
        }
    }

    /// What activating `node` asks of the window.
    pub fn activate(&self, node: &TreeNode) -> (activation: Activation)
        requires
            self.wf(),
        ensures
            activation == self@.activate(*node),
    {
        if !self.resolves(node) {
            return Activation::Ignored;
        }
        match node {
            TreeNode::Collection { root } => Activation::OpenCollection { root: *root },
            _ => Activation::OpenLeaf { node: *node },
        }
    }

    /// What activating the row at `pos` asks of the window: to open the
    /// collection where the row shows a collection, to open the leaf where
    /// it shows a leaf, and nothing where the list has no such row.
    pub fn on_activate(&self, pos: u32) -> (activation: Activation)
        requires
            self.wf(),
        ensures
            activation == self@.on_activate(pos as int),
            match self@.row_at(pos as int) {
                Some(row) => match row.node {
                    TreeNode::Collection { root } => activation
                        == (Activation::OpenCollection { root }),
                    _ => activation == (Activation::OpenLeaf { node: row.node }),
                },
                None => activation == Activation::Ignored,
            },
    {
        proof {
            lemma_activation_follows_the_row(self@, pos as int);
        }
        match self.row(pos as usize) {
            Some(row) => self.activate(&row.node),
            None => Activation::Ignored,
        }
    }

    /// Puts a copy of `col` in the place of the collection at `root`, hears
    /// what it had to tell, and builds the children of that root anew if it
    /// is expanded. Where there is no such root the reference is stale, and
    /// nothing changes.
    pub fn replace_collection(&mut self, root: u32, col: &Collection) -> (done: Result<
        (),
        CarteroError,
    >)
        requires
            old(self).wf(),
            col@.wf(),
        ensures
            done is Ok <==> root < old(self)@.roots.len(),
            done is Err ==> done == Err::<(), CarteroError>(CarteroError::StaleReference),
            final(self)@ == old(self)@.replace_collection(root as int, col@),
            final(self).wf(),
    {
        if (root as usize) >= self.roots.len() {
            return Err(CarteroError::StaleReference);
        }
        let ghost before = self@;
        let entry = self.roots.remove(root as usize);
        let ghost entry_view = entry@;
        assert(entry_view == before.roots[root as int]);
        let mut collection = col.clone();
        let _ = collection.take_changes();
        let state = match entry.state {
            Expansion::Collapsed => Expansion::Collapsed,
            Expansion::Expanded(_) => Expansion::Expanded(collection.requests()),
        };
        let replaced = RootEntry { collection, state };
        assert(replaced@ == entry_view.replaced(col@));
        self.roots.insert(root as usize, replaced);
        assert(roots_view(self.roots@) =~= before.roots.update(
            root as int,
            entry_view.replaced(col@),
        ));
        proof {
            let after = before.replace_collection(root as int, col@);
            assert forall|i: int| 0 <= i < after.roots.len() implies (#[trigger] after.roots[i]).wf() by {
                assert(before.roots[i].wf());
            }
        }
        self.rows = build_rows(&self.roots);
        Ok(())
    }

    /// Removes every root, and with them every row.
    pub fn clear(&mut self)
        ensures
            final(self)@ == TreeView::empty(),
            final(self).wf(),
    {
        self.roots = Vec::new();
        self.rows = Vec::new();
        assert(roots_view(self.roots@) =~= Seq::empty());
        assert(self@.rows() =~= Seq::empty());
    }

    /// Gives a slot of the list view its widgets: an expander with an empty
    /// label, following no row yet.
    pub fn on_factory_setup(item: &mut ListItem)
        ensures
            final(item)@ == Some(RowWidgetView::blank()),
    {
        item.set_child(Some(RowWidget::blank()));
    }

    /// Binds the widgets of a slot to the row at `pos`: the expander
    /// follows the row, and the label shows the collection's name on a
    /// collection's row and the leaf's main text on a leaf's row.
    pub fn on_factory_bind(&self, item: &mut ListItem, pos: u32)
        requires
            self.wf(),
        ensures
            final(item)@ == self@.bind(old(item)@, pos as int),
    {
        if item.child().is_none() {
            return ;
        }
        match self.row(pos as usize) {
            Some(row) => {
                let expandable = self.is_expandable(&row.node);
                let label = match self.label(&row.node) {
                    Some(label) => label,
                    None => String::new(),
                };
                item.set_child(Some(RowWidget::bound(label, row, expandable)));
            },
            None => {
                item.set_child(Some(RowWidget::blank()));
            },
        }
    }

    /// Releases what the widgets of a slot held of their row: the expander
    /// follows no row and the label is empty. A slot without widgets stays
    /// as it is.
    pub fn on_factory_unbind(item: &mut ListItem)
        ensures
            final(item)@ == match old(item)@ {
                Some(_) => Some(RowWidgetView::blank()),
                None => None,
            },
    {
        if item.child().is_some() {
            item.set_child(Some(RowWidget::blank()));
        }
    }

    /// Takes the widgets out of a slot.
    pub fn on_factory_teardown(item: &mut ListItem)
        ensures
            final(item)@ == None::<RowWidgetView>,
    {
        item.set_child(None);
    }
}

} // verus!
