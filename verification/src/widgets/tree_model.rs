//! The tree of collections as plain mathematical values: its roots, the
//! flat list of rows that they contribute, and what toggling, binding and
//! activating a row mean.

use vstd::prelude::*;
use crate::objects::collection::CollectionView;
use crate::objects::endpoint::EndpointView;
use crate::widgets::list_item::RowWidgetView;

verus! {

/// A reference to the entity behind a row: the collection at a place among
/// the roots, a request among the children that its collection shows, or a
/// variable of a collection.
///
/// A reference owns nothing. Whether it still leads anywhere is asked of the
/// tree, with [`TreeView::resolves`].
#[derive(Clone, Copy, Debug, PartialEq, Eq, Structural)]
pub enum TreeNode {
    Collection { root: u32 },
    Endpoint { root: u32, child: u32 },
    KeyValueItem { root: u32, child: u32 },
}

/// One row of the flat list: the node it shows, how deep it sits, whether it
/// is expanded, and the root under which it hangs (`None` for a root).
#[derive(Clone, Copy, Debug, PartialEq, Eq, Structural)]
pub struct TreeRow {
    pub node: TreeNode,
    pub depth: u32,
    pub expanded: bool,
    pub parent: Option<u32>,
}

/// What the window is asked to do when a row is activated.
#[derive(Clone, Copy, Debug, PartialEq, Eq, Structural)]
pub enum Activation {
    /// Open an editing surface for the collection at `root`.
    OpenCollection { root: u32 },
    /// Open an editing surface for the leaf `node`.
    OpenLeaf { node: TreeNode },
    /// Nothing: the row is not there, or what it showed is gone.
    Ignored,
}

/// Whether a root shows its children, and which children it built when it
/// was expanded.
pub ghost enum ExpansionView {
    Collapsed,
    Expanded(Seq<EndpointView>),
}

/// A root of the tree: a collection and its state of expansion.
pub ghost struct RootView {
    pub collection: CollectionView,
    pub state: ExpansionView,
}

/// The tree as plain mathematical values: its roots, first to last.
pub ghost struct TreeView {
    pub roots: Seq<RootView>,
}

/// The row of the collection at `root`.
pub open spec fn root_row(root: int, expanded: bool) -> TreeRow {
    TreeRow { node: TreeNode::Collection { root: root as u32 }, depth: 0, expanded, parent: None }
}

/// The row of the request at `child` under the collection at `root`.
pub open spec fn child_row(root: int, child: int) -> TreeRow {
    TreeRow {
        node: TreeNode::Endpoint { root: root as u32, child: child as u32 },
        depth: 1,
        expanded: false,
        parent: Some(root as u32),
    }
}

/// The rows of `count` children under the collection at `root`, in order.
pub open spec fn child_rows(root: int, count: nat) -> Seq<TreeRow> {
    Seq::new(count, |child: int| child_row(root, child))
}

impl RootView {
    /// A collapsed root for `collection`, with nothing left to tell.
    pub open spec fn collapsed(collection: CollectionView) -> RootView {
        RootView { collection: collection.heard(), state: ExpansionView::Collapsed }
    }

    /// Whether the root shows its children.
    pub open spec fn is_expanded(self) -> bool {
        self.state is Expanded
    }

    /// The children that the root shows: none while it is collapsed.
    pub open spec fn children(self) -> Seq<EndpointView> {
        match self.state {
            ExpansionView::Collapsed => Seq::empty(),
            ExpansionView::Expanded(children) => children,
        }
    }

    /// The collection's lists fit, the tree has heard all that the
    /// collection had to tell, and an expanded root shows exactly the
    /// requests that its collection holds.
    pub open spec fn wf(self) -> bool {
        &&& self.collection.wf()
        &&& self.collection.changes.len() == 0
        &&& self.is_expanded() ==> self.children() == self.collection.requests
    }

    /// The rows that the root at place `root` contributes: its own, then one
    /// for each child it shows.
    pub open spec fn rows(self, root: int) -> Seq<TreeRow> {
        seq![root_row(root, self.is_expanded())] + child_rows(root, self.children().len())
    }

    /// The root after a toggle: a collapsed root builds its children from
    /// the requests of its collection, an expanded root drops them.
    pub open spec fn toggled(self) -> RootView {
        match self.state {
            ExpansionView::Collapsed => RootView {
                state: ExpansionView::Expanded(self.collection.requests),
                ..self
            },
            ExpansionView::Expanded(_) => RootView { state: ExpansionView::Collapsed, ..self },
        }
    }

    /// The root once `collection` has taken the place of its collection,
    /// with nothing left to tell: the state of expansion stays, the children
    /// are built anew.
    pub open spec fn replaced(self, collection: CollectionView) -> RootView {
        match self.state {
            ExpansionView::Collapsed => RootView {
                collection: collection.heard(),
                state: ExpansionView::Collapsed,
            },
            ExpansionView::Expanded(_) => RootView {
                collection: collection.heard(),
                state: ExpansionView::Expanded(collection.requests),
            },
        }
    }
}

impl TreeView {
    /// The tree without roots.
    pub open spec fn empty() -> TreeView {
        TreeView { roots: Seq::empty() }
    }

    /// The roots can be counted in 32 bits and each is well formed.
    pub open spec fn wf(self) -> bool {
        &&& self.roots.len() <= u32::MAX
        &&& forall|root: int| 0 <= root < self.roots.len() ==> (#[trigger] self.roots[root]).wf()
    }

    /// The collection of each root, first root first.
    pub open spec fn root_collections(self) -> Seq<CollectionView> {
        self.roots.map_values(|root: RootView| root.collection)
    }

    /// The rows of the roots from place `lo` up to, not including, `hi`.
    pub open spec fn rows_between(self, lo: int, hi: int) -> Seq<TreeRow>
        decreases hi - lo,
    {
        if hi <= lo {
            Seq::empty()
        } else {
            self.rows_between(lo, hi - 1) + self.roots[hi - 1].rows(hi - 1)
        }
    }

    /// The flat list: the rows of every root, first root first.
    pub open spec fn rows(self) -> Seq<TreeRow> {
        self.rows_between(0, self.roots.len() as int)
    }

    /// The row at `pos`, or `None` where the list is shorter.
    pub open spec fn row_at(self, pos: int) -> Option<TreeRow> {
        if 0 <= pos < self.rows().len() {
            Some(self.rows()[pos])
        } else {
            None
        }
    }

    /// The tree with a collapsed root for `collection` behind its roots.
    pub open spec fn append_collection(self, collection: CollectionView) -> TreeView {
        TreeView { roots: self.roots.push(RootView::collapsed(collection)) }
    }

    /// The tree with a collapsed root for each of `collections`, in their
    /// order, behind its roots.
    pub open spec fn insert_collections(self, collections: Seq<CollectionView>) -> TreeView {
        TreeView {
            roots: self.roots + collections.map_values(
                |collection: CollectionView| RootView::collapsed(collection),
            ),
        }
    }

    /// The tree after the root at `root` was toggled; unchanged where there
    /// is no such root.
    pub open spec fn toggle_root(self, root: int) -> TreeView {
        if 0 <= root < self.roots.len() {
            TreeView { roots: self.roots.update(root, self.roots[root].toggled()) }
        } else {
            self
        }
    }

    /// The tree after a toggle was asked for at row `pos`: the root shown
    /// there is toggled; a leaf row or a position behind the list changes
    /// nothing.
    pub open spec fn toggle(self, pos: int) -> TreeView {
        match self.row_at(pos) {
            Some(row) => match row.node {
                TreeNode::Collection { root } => self.toggle_root(root as int),
                _ => self,
            },
            None => self,
        }
    }

    /// Whether `node` still leads to an entity: a collection among the
    /// roots, a request among the children that its root shows, a variable
    /// that its collection holds.
    pub open spec fn resolves(self, node: TreeNode) -> bool {
        match node {
            TreeNode::Collection { root } => root < self.roots.len(),
            TreeNode::Endpoint { root, child } => root < self.roots.len()
                && child < self.roots[root as int].children().len(),
            TreeNode::KeyValueItem { root, child } => root < self.roots.len()
                && child < self.roots[root as int].collection.variables.len(),
        }
    }

    /// The text that a row for `node` shows: a collection's name, a
    /// request's URL, a variable's name; `None` where `node` leads nowhere.
    pub open spec fn label(self, node: TreeNode) -> Option<Seq<char>> {
        if !self.resolves(node) {
            None
        } else {
            match node {
                TreeNode::Collection { root } => Some(self.roots[root as int].collection.name),
                TreeNode::Endpoint { root, child } => Some(
                    self.roots[root as int].children()[child as int].url,
                ),
                TreeNode::KeyValueItem { root, child } => Some(
                    self.roots[root as int].collection.variables[child as int].header_name,
                ),
            }
        }
    }

    /// Whether a row for `node` offers to expand: only a collection does,
    /// while its children are not built yet or when it shows at least one.
    pub open spec fn is_expandable(self, node: TreeNode) -> bool {
        match node {
            TreeNode::Collection { root } => root < self.roots.len() && (
            !self.roots[root as int].is_expanded() || self.roots[root as int].children().len()
                > 0),
            _ => false,
        }
    }

    /// What activating `node` asks of the window: to open the collection,
    /// to open the leaf, or nothing where `node` leads nowhere.
    pub open spec fn activate(self, node: TreeNode) -> Activation {
        if !self.resolves(node) {
            Activation::Ignored
        } else {
            match node {
                TreeNode::Collection { root } => Activation::OpenCollection { root },
                _ => Activation::OpenLeaf { node },
            }
        }
    }

    /// What activating the row at `pos` asks of the window.
    pub open spec fn on_activate(self, pos: int) -> Activation {
        match self.row_at(pos) {
            Some(row) => self.activate(row.node),
            None => Activation::Ignored,
        }
    }

    /// What a toggle at row `pos` answers: whether the root shown there is
    /// expanded afterwards, or `None` where no root is shown there.
    pub open spec fn toggle_answer(self, pos: int) -> Option<bool> {
        match self.row_at(pos) {
            Some(row) => match row.node {
                TreeNode::Collection { .. } => Some(!row.expanded),
                _ => None,
            },
            None => None,
        }
    }

    /// The children that are built for `node` when it is expanded: the
    /// requests of its collection for a collection among the roots, `None`
    /// for anything else, which therefore cannot be expanded.
    pub open spec fn child_model(self, node: TreeNode) -> Option<Seq<EndpointView>> {
        match node {
            TreeNode::Collection { root } => if root < self.roots.len() {
                Some(self.roots[root as int].collection.requests)
            } else {
                None
            },
            _ => None,
        }
    }

    /// The tree after `collection` took the place of the collection at
    /// `root`; unchanged where there is no such root.
    pub open spec fn replace_collection(self, root: int, collection: CollectionView) -> TreeView {
        if 0 <= root < self.roots.len() {
            TreeView { roots: self.roots.update(root, self.roots[root].replaced(collection)) }
        } else {
            self
        }
    }

    /// What the widgets of a slot show once the slot is bound to row `pos`:
    /// the row, its label and whether it offers to expand. A slot without
    /// widgets stays without, and where the list has no such row the widgets
    /// show nothing.
    pub open spec fn bind(self, slot: Option<RowWidgetView>, pos: int) -> Option<RowWidgetView> {
        match slot {
            None => None,
            Some(_) => match self.row_at(pos) {
                Some(row) => Some(
                    RowWidgetView {
                        label: match self.label(row.node) {
                            Some(label) => label,
                            None => Seq::empty(),
                        },
                        list_row: Some(row),
                        expandable: self.is_expandable(row.node),
                    },
                ),
                None => Some(RowWidgetView::blank()),
            },
        }
    }

    /// The number of rows before the row of the root at place `root`.
    pub open spec fn offset(self, root: int) -> int {
        self.rows_between(0, root).len() as int
    }
}

/// The rows of a range of roots are the rows of its first part followed by
/// the rows of the rest.
pub proof fn lemma_rows_split(tree: TreeView, lo: int, mid: int, hi: int)
    requires
        lo <= mid <= hi,
    ensures
        tree.rows_between(lo, hi) == tree.rows_between(lo, mid) + tree.rows_between(mid, hi),
    decreases hi - mid,
{
    if mid == hi {
        assert(tree.rows_between(lo, hi) =~= tree.rows_between(lo, mid) + tree.rows_between(
            mid,
            hi,
        ));
    } else {
        lemma_rows_split(tree, lo, mid, hi - 1);
        assert(tree.rows_between(lo, hi) =~= tree.rows_between(lo, mid) + tree.rows_between(
            mid,
            hi,
        ));
    }
}

/// The rows of a range of roots depend on the roots of that range alone.
pub proof fn lemma_rows_frame(a: TreeView, b: TreeView, lo: int, hi: int)
    requires
        forall|root: int| lo <= root < hi ==> a.roots[root] == b.roots[root],
    ensures
        a.rows_between(lo, hi) == b.rows_between(lo, hi),
    decreases hi - lo,
{
    if lo < hi {
        lemma_rows_frame(a, b, lo, hi - 1);
    }
}

/// Where each row of the flat list comes from. The row of a root stands
/// behind all the rows of the roots before it; the row of a child stands
/// behind the row of its root, as many places behind it as the child has
/// siblings before it, and one more. No row shows a variable.
pub proof fn lemma_row_origin(tree: TreeView, n: int, pos: int)
    requires
        tree.wf(),
        0 <= n <= tree.roots.len(),
        0 <= pos < tree.rows_between(0, n).len(),
    ensures
        match tree.rows_between(0, n)[pos].node {
            TreeNode::Collection { root } => {
                &&& root < n
                &&& pos == tree.offset(root as int)
                &&& tree.rows_between(0, n)[pos] == root_row(
                    root as int,
                    tree.roots[root as int].is_expanded(),
                )
            },
            TreeNode::Endpoint { root, child } => {
                &&& root < n
                &&& child < tree.roots[root as int].children().len()
                &&& pos == tree.offset(root as int) + 1 + child
                &&& tree.rows_between(0, n)[pos] == child_row(root as int, child as int)
            },
            TreeNode::KeyValueItem { .. } => false,
        },
    decreases n,
{
    let before = tree.rows_between(0, n - 1);
    let last = tree.roots[n - 1];
    assert(tree.rows_between(0, n) == before + last.rows(n - 1));
    if pos < before.len() {
        lemma_row_origin(tree, n - 1, pos);
    } else {
        assert(last.wf());
        let k = pos - before.len();
        assert(tree.rows_between(0, n)[pos] == last.rows(n - 1)[k]);
        if k == 0 {
            assert(last.rows(n - 1)[0] == root_row(n - 1, last.is_expanded()));
        } else {
            assert(last.rows(n - 1)[k] == child_row(n - 1, k - 1));
        }
    }
}

/// Toggling the root shown at row `pos` replaces that root's rows by the
/// rows it contributes afterwards and leaves every other row as it was,
/// those before it at their places and those behind it in their order.
pub proof fn lemma_toggle_replaces_rows_of_root(tree: TreeView, pos: int, root: u32)
    requires
        tree.wf(),
        tree.row_at(pos) matches Some(row) && row.node == (TreeNode::Collection { root }),
    ensures
        root < tree.roots.len(),
        pos == tree.offset(root as int),
        tree.toggle(pos) == tree.toggle_root(root as int),
        tree.toggle(pos).wf(),
        tree.toggle(pos).rows() == tree.rows().take(pos) + tree.roots[root as int].toggled().rows(
            root as int,
        ) + tree.rows().skip(pos + tree.roots[root as int].rows(root as int).len()),
{
    let n = tree.roots.len() as int;
    let r = root as int;
    lemma_row_origin(tree, n, pos);
    let after = tree.toggle_root(r);
    assert(after.wf()) by {
        assert forall|i: int| 0 <= i < after.roots.len() implies (#[trigger] after.roots[i]).wf() by {
            assert(tree.roots[i].wf());
        }
    }
    lemma_rows_split(tree, 0, r, n);
    lemma_rows_split(tree, r, r + 1, n);
    lemma_rows_split(after, 0, r, n);
    lemma_rows_split(after, r, r + 1, n);
    lemma_rows_frame(tree, after, 0, r);
    lemma_rows_frame(tree, after, r + 1, n);
    assert(tree.rows_between(r, r + 1) =~= tree.roots[r].rows(r)) by {
        assert(tree.rows_between(r, r) =~= Seq::empty());
    }
    assert(after.rows_between(r, r + 1) =~= after.roots[r].rows(r)) by {
        assert(after.rows_between(r, r) =~= Seq::empty());
    }
    let head = tree.rows_between(0, r);
    let tail = tree.rows_between(r + 1, n);
    assert(tree.rows() == head + (tree.roots[r].rows(r) + tail));
    assert(after.rows() == head + (after.roots[r].rows(r) + tail));
    assert(tree.rows().take(pos) =~= head);
    assert(tree.rows().skip(pos + tree.roots[r].rows(r).len()) =~= tail);
    assert(after.rows() =~= tree.rows().take(pos) + after.roots[r].rows(r) + tree.rows().skip(
        pos + tree.roots[r].rows(r).len(),
    ));
}

/// Every row of the flat list shows a node that leads to an entity.
pub proof fn lemma_rows_resolve(tree: TreeView, pos: int)
    requires
        tree.wf(),
        0 <= pos < tree.rows().len(),
    ensures
        tree.resolves(tree.rows()[pos].node),
        !(tree.rows()[pos].node is KeyValueItem),
{
    lemma_row_origin(tree, tree.roots.len() as int, pos);
}

/// Activating a row asks for exactly one thing. A row that shows a
/// collection asks to open that collection and no leaf; a row that shows a
/// leaf asks to open that leaf and no collection; and where the list has no
/// such row nothing is asked.
pub proof fn lemma_activation_follows_the_row(tree: TreeView, pos: int)
    requires
        tree.wf(),
    ensures
        match tree.row_at(pos) {
            Some(row) => match row.node {
                TreeNode::Collection { root } => tree.on_activate(pos)
                    == (Activation::OpenCollection { root }),
                _ => tree.on_activate(pos) == (Activation::OpenLeaf { node: row.node }),
            },
            None => tree.on_activate(pos) == Activation::Ignored,
        },
{
    if 0 <= pos < tree.rows().len() {
        lemma_rows_resolve(tree, pos);
    }
}

/// Expanding a collapsed root puts one row for each request of its
/// collection directly behind its own row, in the order of the requests and
/// each leading to its request. The rows before stay at their places, and
/// the rows behind move back by the number of requests.
pub proof fn lemma_expand_shows_requests_in_order(tree: TreeView, pos: int, root: u32)
    requires
        tree.wf(),
        tree.row_at(pos) == Some(root_row(root as int, false)),
    ensures
        root < tree.roots.len(),
        ({
            let after = tree.toggle(pos);
            let requests = tree.roots[root as int].collection.requests;
            &&& after.rows().len() == tree.rows().len() + requests.len()
            &&& after.rows()[pos] == root_row(root as int, true)
            &&& after.roots[root as int].children() == requests
            &&& forall|k: int|
                0 <= k < requests.len() ==> #[trigger] after.rows()[pos + 1 + k] == child_row(
                    root as int,
                    k,
                )
            &&& forall|k: int|
                0 <= k < requests.len() ==> after.label(#[trigger] child_row(root as int, k).node)
                    == Some(requests[k].url)
            &&& forall|j: int| 0 <= j < pos ==> #[trigger] after.rows()[j] == tree.rows()[j]
            &&& forall|j: int|
                pos < j < tree.rows().len() ==> after.rows()[j + requests.len()]
                    == #[trigger] tree.rows()[j]
        }),
{
    lemma_toggle_replaces_rows_of_root(tree, pos, root);
    lemma_row_origin(tree, tree.roots.len() as int, pos);
    let r = root as int;
    let after = tree.toggle(pos);
    let requests = tree.roots[r].collection.requests;
    assert(tree.roots[r].wf());
    assert(tree.roots[r].rows(r) =~= seq![root_row(r, false)]);
    assert(after.roots[r].rows(r) =~= seq![root_row(r, true)] + child_rows(r, requests.len()));
    assert(after.rows() == tree.rows().take(pos) + after.roots[r].rows(r) + tree.rows().skip(
        pos + 1,
    ));
    assert forall|k: int| 0 <= k < requests.len() implies #[trigger] after.rows()[pos + 1 + k]
        == child_row(r, k) by {
        assert(after.roots[r].rows(r)[1 + k] == child_row(r, k));
    }
    assert forall|j: int| pos < j < tree.rows().len() implies after.rows()[j + requests.len()]
        == #[trigger] tree.rows()[j] by {
        assert(tree.rows().skip(pos + 1)[j - pos - 1] == tree.rows()[j]);
    }
}

/// Collapsing an expanded root takes the rows of its children out of the
/// list and leaves its own row, and expanding it again gives the tree, and
/// so the list, exactly as it was before.
pub proof fn lemma_collapse_then_expand_restores(tree: TreeView, pos: int, root: u32)
    requires
        tree.wf(),
        tree.row_at(pos) == Some(root_row(root as int, true)),
    ensures
        root < tree.roots.len(),
        tree.toggle(pos).rows() == tree.rows().take(pos) + seq![root_row(root as int, false)]
            + tree.rows().skip(pos + 1 + tree.roots[root as int].children().len()),
        tree.toggle(pos).toggle(pos) == tree,
        tree.toggle(pos).toggle(pos).rows() == tree.rows(),
{
    lemma_toggle_replaces_rows_of_root(tree, pos, root);
    lemma_row_origin(tree, tree.roots.len() as int, pos);
    let r = root as int;
    let collapsed = tree.toggle(pos);
    assert(tree.roots[r].wf());
    assert(collapsed.roots[r].rows(r) =~= seq![root_row(r, false)]);
    assert(collapsed.rows()[pos] == root_row(r, false));
    assert(collapsed.row_at(pos) == Some(root_row(r, false)));
    assert(collapsed.toggle(pos) == collapsed.toggle_root(r));
    assert(collapsed.toggle_root(r).roots =~= tree.roots);
}

/// Expanding a collapsed root and collapsing it again gives the tree, and
/// so the list, exactly as it was before.
pub proof fn lemma_expand_then_collapse_restores(tree: TreeView, pos: int, root: u32)
    requires
        tree.wf(),
        tree.row_at(pos) == Some(root_row(root as int, false)),
    ensures
        tree.toggle(pos).toggle(pos) == tree,
        tree.toggle(pos).toggle(pos).rows() == tree.rows(),
{
    lemma_toggle_replaces_rows_of_root(tree, pos, root);
    lemma_row_origin(tree, tree.roots.len() as int, pos);
    lemma_expand_shows_requests_in_order(tree, pos, root);
    let r = root as int;
    let expanded = tree.toggle(pos);
    assert(expanded.row_at(pos) == Some(root_row(r, true)));
    assert(expanded.toggle(pos) == expanded.toggle_root(r));
    assert(tree.roots[r].state is Collapsed);
    assert(expanded.roots[r] == tree.roots[r].toggled());
    assert(expanded.roots[r].toggled() == tree.roots[r]);
    assert(expanded.toggle_root(r).roots =~= tree.roots);
}

} // verus!
