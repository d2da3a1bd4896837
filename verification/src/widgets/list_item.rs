//! The widgets that the list view keeps for one visible row.

use vstd::prelude::*;
use crate::widgets::tree_model::TreeRow;

verus! {

/// What the widgets of a row show, as plain mathematical values.
pub ghost struct RowWidgetView {
    pub label: Seq<char>,
    /// The row that the expander follows, while the widgets are bound.
    pub list_row: Option<TreeRow>,
    /// Whether the expander offers to expand.
    pub expandable: bool,
}

impl RowWidgetView {
    /// Widgets that show nothing and follow no row.
    pub open spec fn blank() -> RowWidgetView {
        RowWidgetView { label: Seq::empty(), list_row: None, expandable: false }
    }
}

/// An expander with a label in it.
#[derive(Debug)]
pub struct RowWidget {
    label: String,
    list_row: Option<TreeRow>,
    expandable: bool,
}

impl View for RowWidget {
    type V = RowWidgetView;

    closed spec fn view(&self) -> RowWidgetView {
        RowWidgetView {
            label: self.label@,
            list_row: self.list_row,
            expandable: self.expandable,
        }
    }
}

impl RowWidget {
    /// Widgets that show nothing and follow no row.
    pub fn blank() -> (widget: RowWidget)
        ensures
            widget@ == RowWidgetView::blank(),
    {
        RowWidget { label: String::new(), list_row: None, expandable: false }
    }

    /// Widgets that follow `row` and show `label`.
    pub fn bound(label: String, row: TreeRow, expandable: bool) -> (widget: RowWidget)
        ensures
            widget@ == (RowWidgetView { label: label@, list_row: Some(row), expandable }),
    {
        RowWidget { label, list_row: Some(row), expandable }
    }

    /// The text of the label.
    pub fn label(&self) -> (label: String)
        ensures
            label@ == self@.label,
    {
        self.label.clone()
    }

    /// The row that the expander follows, if the widgets are bound.
    pub fn list_row(&self) -> (row: Option<TreeRow>)
        ensures
            row == self@.list_row,
    {
        self.list_row
    }

    /// Whether the expander offers to expand.
    pub fn is_expandable(&self) -> (expandable: bool)
        ensures
            expandable == self@.expandable,
    {
        self.expandable
    }
}

/// A slot of the list view: empty, or holding the widgets of a row.
///
/// A slot is set up once, bound to one row after another as the list
/// scrolls, unbound in between, and torn down at the end.
#[derive(Debug)]
pub struct ListItem {
    child: Option<RowWidget>,
}

impl View for ListItem {
    type V = Option<RowWidgetView>;

    closed spec fn view(&self) -> Option<RowWidgetView> {
        match self.child {
            Some(widget) => Some(widget@),
            None => None,
        }
    }
}

impl ListItem {
    /// A slot without widgets.
    pub fn new() -> (item: ListItem)
        ensures
            item@ == None::<RowWidgetView>,
    {
        ListItem { child: None }
    }

    /// The widgets in the slot, if it has any.
    pub fn child(&self) -> (child: Option<&RowWidget>)
        ensures
            match child {
                Some(widget) => self@ == Some(widget@),
                None => self@ == None::<RowWidgetView>,
            },
    {
        self.child.as_ref()
    }

    /// Puts `child` into the slot, or empties it with `None`.
    pub fn set_child(&mut self, child: Option<RowWidget>)
        ensures
            final(self)@ == match child {
                Some(widget) => Some(widget@),
                None => None,
            },
    {
        self.child = child;
    }
}

} // verus!
