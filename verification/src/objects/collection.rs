//! A named container of variables and requests.

use vstd::prelude::*;
use crate::objects::endpoint::Endpoint;
use crate::objects::endpoint::EndpointView;
use crate::objects::endpoint::clone_endpoints;
use crate::objects::endpoint::endpoints_view;
use crate::objects::key_value_item::KeyValueItem;
use crate::objects::key_value_item::KeyValueItemView;
use crate::objects::key_value_item::clone_items;
use crate::objects::key_value_item::items_view;

verus! {

/// What a collection tells its observers after it has changed.
///
/// A list change says where the list changed, how many items left and came
/// at that place, and how many items the list holds now.
#[derive(Clone, Copy, Debug, PartialEq, Eq, Structural)]
pub enum Change {
    Renamed,
    Variables { position: u32, removed: u32, added: u32, count: u32 },
    Requests { position: u32, removed: u32, added: u32, count: u32 },
}

/// What a [`Collection`] holds, as plain mathematical values.
pub ghost struct CollectionView {
    pub name: Seq<char>,
    pub variables: Seq<KeyValueItemView>,
    pub requests: Seq<EndpointView>,
    /// The notifications that no observer has taken yet, oldest first.
    pub changes: Seq<Change>,
}

impl CollectionView {
    /// An empty collection with the name given and nothing to tell.
    pub open spec fn new(name: Seq<char>) -> CollectionView {
        CollectionView {
            name,
            variables: Seq::empty(),
            requests: Seq::empty(),
            changes: Seq::empty(),
        }
    }

    /// Both lists can be counted in 32 bits.
    pub open spec fn wf(self) -> bool {
        self.variables.len() <= u32::MAX && self.requests.len() <= u32::MAX
    }

    /// The collection under another name.
    pub open spec fn set_name(self, name: Seq<char>) -> CollectionView {
        CollectionView { name, changes: self.changes.push(Change::Renamed), ..self }
    }

    /// The number of variables.
    pub open spec fn variable_count(self) -> nat {
        self.variables.len()
    }

    /// The variable at `pos`, or `None` where `pos` is not below the count.
    pub open spec fn variable_get(self, pos: int) -> Option<KeyValueItemView> {
        if 0 <= pos < self.variables.len() {
            Some(self.variables[pos])
        } else {
            None
        }
    }

    /// The collection after `item` was appended to its variables.
    pub open spec fn add_variable(self, item: KeyValueItemView) -> CollectionView {
        CollectionView {
            variables: self.variables.push(item),
            changes: self.changes.push(
                Change::Variables {
                    position: self.variables.len() as u32,
                    removed: 0,
                    added: 1,
                    count: (self.variables.len() + 1) as u32,
                },
            ),
            ..self
        }
    }

    /// The collection after the variable at `pos` was asked to leave: without
    /// it where `pos` is below the count, unchanged otherwise.
    pub open spec fn variable_del(self, pos: int) -> CollectionView {
        if 0 <= pos < self.variables.len() {
            CollectionView {
                variables: self.variables.remove(pos),
                changes: self.changes.push(
                    Change::Variables {
                        position: pos as u32,
                        removed: 1,
                        added: 0,
                        count: (self.variables.len() - 1) as u32,
                    },
                ),
                ..self
            }
        } else {
            self
        }
    }

    /// The number of requests.
    pub open spec fn request_count(self) -> nat {
        self.requests.len()
    }

    /// The request at `pos`, or `None` where `pos` is not below the count.
    pub open spec fn request_get(self, pos: int) -> Option<EndpointView> {
        if 0 <= pos < self.requests.len() {
            Some(self.requests[pos])
        } else {
            None
        }
    }

    /// The collection after `endpoint` was appended to its requests.
    pub open spec fn add_request(self, endpoint: EndpointView) -> CollectionView {
        CollectionView {
            requests: self.requests.push(endpoint),
            changes: self.changes.push(
                Change::Requests {
                    position: self.requests.len() as u32,
                    removed: 0,
                    added: 1,
                    count: (self.requests.len() + 1) as u32,
                },
            ),
            ..self
        }
    }

    /// The collection after the request at `pos` was asked to leave: without
    /// it where `pos` is below the count, unchanged otherwise.
    pub open spec fn request_del(self, pos: int) -> CollectionView {
        if 0 <= pos < self.requests.len() {
            CollectionView {
                requests: self.requests.remove(pos),
                changes: self.changes.push(
                    Change::Requests {
                        position: pos as u32,
                        removed: 1,
                        added: 0,
                        count: (self.requests.len() - 1) as u32,
                    },
                ),
                ..self
            }
        } else {
            self
        }
    }

    /// The collection once its observers have taken what it had to tell.
    pub open spec fn heard(self) -> CollectionView {
        CollectionView { changes: Seq::empty(), ..self }
    }

    /// The collection after the variables `items` were appended one by one.
    pub open spec fn add_variables(self, items: Seq<KeyValueItemView>) -> CollectionView
        decreases items.len(),
    {
        if items.len() == 0 {
            self
        } else {
            self.add_variables(items.drop_last()).add_variable(items.last())
        }
    }
}

/// A named container of variables and requests, each list in the order in
/// which its items were added.
#[derive(Debug)]
pub struct Collection {
    name: String,
    variables: Vec<KeyValueItem>,
    requests: Vec<Endpoint>,
    changes: Vec<Change>,
}

impl View for Collection {
    type V = CollectionView;

    closed spec fn view(&self) -> CollectionView {
        CollectionView {
            name: self.name@,
            variables: items_view(self.variables@),
            requests: endpoints_view(self.requests@),
            changes: self.changes@,
        }
    }
}

impl Collection {
    /// An empty collection with the name given.
    pub fn new_with_title(name: &str) -> (collection: Collection)
        ensures
            collection@ == CollectionView::new(name@),
            collection@.wf(),
    {
        let collection = Collection {
            name: name.to_owned(),
            variables: Vec::new(),
            requests: Vec::new(),
            changes: Vec::new(),
        };
        assert(items_view(collection.variables@) =~= Seq::empty());
        assert(endpoints_view(collection.requests@) =~= Seq::empty());
        collection
    }

    /// The name of the collection.
    pub fn name(&self) -> (name: String)
        ensures
            name@ == self@.name,
    {
        self.name.clone()
    }

    /// Renames the collection and tells the observers.
    pub fn set_name(&mut self, name: &str)
        ensures
            final(self)@ == old(self)@.set_name(name@),
    {
        self.name = name.to_owned();
        self.changes.push(Change::Renamed);
    }

    /// Appends a variable and tells the observers the new count.
    pub fn add_variable(&mut self, var: &KeyValueItem)
        requires
            old(self)@.wf(),
            old(self)@.variable_count() < u32::MAX,
        ensures
            final(self)@ == old(self)@.add_variable(var@),
            final(self)@.wf(),
            final(self)@.variable_count() == old(self)@.variable_count() + 1,
            final(self)@.variable_get(old(self)@.variable_count() as int) == Some(var@),
            forall|pos: int|
                0 <= pos < old(self)@.variable_count() ==> final(self)@.variable_get(pos)
                    == #[trigger] old(self)@.variable_get(pos),
            final(self)@.name == old(self)@.name,
            final(self)@.requests == old(self)@.requests,
    {
        let position: u32 = self.variables.len() as u32;
        self.variables.push(var.clone());
        self.changes.push(Change::Variables { position, removed: 0, added: 1, count: position + 1 });
        assert(items_view(self.variables@) =~= items_view(old(self).variables@).push(var@));
    }

    /// The number of variables.
    pub fn variable_count(&self) -> (count: u32)
        requires
            self@.wf(),
        ensures
            count == self@.variable_count(),
    {
        self.variables.len() as u32
    }

    /// The variable at `pos`, or `None` where `pos` is not below the count.
    pub fn variable_get(&self, pos: u32) -> (found: Option<KeyValueItem>)
        ensures
            view_of_item(found) == self@.variable_get(pos as int),
    {
        if (pos as usize) < self.variables.len() {
            Some(self.variables[pos as usize].clone())
        } else {
            None
        }
    }

    /// Removes the variable at `pos` and returns it; the variables behind it
    /// move down by one. Where `pos` is not below the count, nothing changes
    /// and nothing is told.
    pub fn variable_del(&mut self, pos: u32) -> (removed: Option<KeyValueItem>)
        requires
            old(self)@.wf(),
        ensures
            view_of_item(removed) == old(self)@.variable_get(pos as int),
            final(self)@ == old(self)@.variable_del(pos as int),
            final(self)@.wf(),
    {
        if (pos as usize) < self.variables.len() {
            let item = self.variables.remove(pos as usize);
            let count: u32 = self.variables.len() as u32;
            self.changes.push(Change::Variables { position: pos, removed: 1, added: 0, count });
            assert(items_view(self.variables@) =~= items_view(old(self).variables@).remove(
                pos as int,
            ));
            Some(item)
        } else {
            None
        }
    }

    /// Appends a request and tells the observers the new count.
    pub fn add_request(&mut self, endpoint: &Endpoint)
        requires
            old(self)@.wf(),
            old(self)@.request_count() < u32::MAX,
        ensures
            final(self)@ == old(self)@.add_request(endpoint@),
            final(self)@.wf(),
            final(self)@.request_count() == old(self)@.request_count() + 1,
            final(self)@.request_get(old(self)@.request_count() as int) == Some(endpoint@),
            forall|pos: int|
                0 <= pos < old(self)@.request_count() ==> final(self)@.request_get(pos)
                    == #[trigger] old(self)@.request_get(pos),
            final(self)@.name == old(self)@.name,
            final(self)@.variables == old(self)@.variables,
    {
        let position: u32 = self.requests.len() as u32;
        self.requests.push(endpoint.clone());
        self.changes.push(Change::Requests { position, removed: 0, added: 1, count: position + 1 });
        assert(endpoints_view(self.requests@) =~= endpoints_view(old(self).requests@).push(
            endpoint@,
        ));
    }

    /// The number of requests.
    pub fn request_count(&self) -> (count: u32)
        requires
            self@.wf(),
        ensures
            count == self@.request_count(),
    {
        self.requests.len() as u32
    }

    /// The request at `pos`, or `None` where `pos` is not below the count.
    pub fn request_get(&self, pos: u32) -> (found: Option<Endpoint>)
        ensures
            view_of_endpoint(found) == self@.request_get(pos as int),
    {
        if (pos as usize) < self.requests.len() {
            Some(self.requests[pos as usize].clone())
        } else {
            None
        }
    }

    /// Removes the request at `pos` and returns it; the requests behind it
    /// move down by one. Where `pos` is not below the count, nothing changes
    /// and nothing is told.
    pub fn request_del(&mut self, pos: u32) -> (removed: Option<Endpoint>)
        requires
            old(self)@.wf(),
        ensures
            view_of_endpoint(removed) == old(self)@.request_get(pos as int),
            final(self)@ == old(self)@.request_del(pos as int),
            final(self)@.wf(),
    {
        if (pos as usize) < self.requests.len() {
            let endpoint = self.requests.remove(pos as usize);
            let count: u32 = self.requests.len() as u32;
            self.changes.push(Change::Requests { position: pos, removed: 1, added: 0, count });
            assert(endpoints_view(self.requests@) =~= endpoints_view(old(self).requests@).remove(
                pos as int,
            ));
            Some(endpoint)
        } else {
            None
        }
    }

    /// The requests, in the order in which they were added.
    pub fn requests(&self) -> (requests: Vec<Endpoint>)
        ensures
            endpoints_view(requests@) == self@.requests,
    {
        clone_endpoints(&self.requests)
    }

    /// Hands over what the collection had to tell, oldest first, and leaves
    /// it with nothing more to tell.
    pub fn take_changes(&mut self) -> (changes: Vec<Change>)
        ensures
            changes@ == old(self)@.changes,
            final(self)@ == old(self)@.heard(),
    {
        let mut taken: Vec<Change> = Vec::new();
        std::mem::swap(&mut self.changes, &mut taken);
        taken
    }
}

impl Clone for Collection {
    fn clone(&self) -> (copy: Collection)
        ensures
            copy@ == self@,
    {
        let copy = Collection {
            name: self.name.clone(),
            variables: clone_items(&self.variables),
            requests: clone_endpoints(&self.requests),
            changes: self.changes.clone(),
        };
        assert(copy.changes@ =~= self.changes@);
        copy
    }
}

/// What an optional item holds, as plain values.
pub open spec fn view_of_item(item: Option<KeyValueItem>) -> Option<KeyValueItemView> {
    match item {
        Some(item) => Some(item@),
        None => None,
    }
}

/// The collections of a list, each as its plain values.
pub open spec fn collections_view(collections: Seq<Collection>) -> Seq<CollectionView> {
    collections.map_values(|collection: Collection| collection@)
}

/// What an optional request holds, as plain values.
pub open spec fn view_of_endpoint(endpoint: Option<Endpoint>) -> Option<EndpointView> {
    match endpoint {
        Some(endpoint) => Some(endpoint@),
        None => None,
    }
}

/// One more variable, whatever the collection holds and however many: the
/// count grows by one, the new variable is last, every variable that was
/// there stays at its place, and neither the name nor the requests change.
pub proof fn lemma_appended_variable_is_last(collection: CollectionView, item: KeyValueItemView)
    ensures
        collection.add_variable(item).variable_count() == collection.variable_count() + 1,
        collection.add_variable(item).variable_get(collection.variable_count() as int) == Some(
            item,
        ),
        forall|pos: int|
            0 <= pos < collection.variable_count() ==> collection.add_variable(item).variable_get(
                pos,
            ) == #[trigger] collection.variable_get(pos),
        collection.add_variable(item).name == collection.name,
        collection.add_variable(item).requests == collection.requests,
{
}

/// Variables that are appended are all there afterwards, behind those that
/// were there before and in the order in which they came: the count grows by
/// their number, and each can be read back unchanged at its place.
pub proof fn lemma_appended_variables_are_kept(
    collection: CollectionView,
    items: Seq<KeyValueItemView>,
)
    ensures
        collection.add_variables(items).variables == collection.variables + items,
        collection.add_variables(items).variable_count() == collection.variable_count()
            + items.len(),
        forall|i: int|
            0 <= i < items.len() ==> collection.add_variables(items).variable_get(
                collection.variable_count() + i,
            ) == Some(#[trigger] items[i]),
        collection.add_variables(items).name == collection.name,
        collection.add_variables(items).requests == collection.requests,
    decreases items.len(),
{
    if items.len() > 0 {
        lemma_appended_variables_are_kept(collection, items.drop_last());
        assert(items == items.drop_last().push(items.last()));
        assert(collection.add_variables(items).variables =~= collection.variables + items);
    } else {
        assert(collection.variables + items =~= collection.variables);
    }
}

/// A collection that starts empty and gets `items` appended holds exactly
/// `items`: the count is their number and the variable at `i` is `items[i]`.
pub proof fn lemma_new_collection_holds_what_was_appended(
    name: Seq<char>,
    items: Seq<KeyValueItemView>,
)
    ensures
        CollectionView::new(name).add_variables(items).variable_count() == items.len(),
        forall|i: int|
            0 <= i < items.len() ==> CollectionView::new(name).add_variables(items).variable_get(i)
                == Some(#[trigger] items[i]),
{
    lemma_appended_variables_are_kept(CollectionView::new(name), items);
    assert(CollectionView::new(name).variables + items =~= items);
}

/// Deleting the variable at `pos` shortens the list by one, leaves every
/// variable before `pos` at its place, moves every variable behind `pos` down
/// by one, and touches neither the name nor the requests.
pub proof fn lemma_delete_shifts_later_variables(collection: CollectionView, pos: int)
    requires
        0 <= pos < collection.variable_count(),
    ensures
        collection.variable_del(pos).variable_count() == collection.variable_count() - 1,
        forall|j: int|
            0 <= j < pos ==> collection.variable_del(pos).variable_get(j)
                == collection.variable_get(j),
        forall|j: int|
            pos <= j < collection.variable_count() - 1 ==> collection.variable_del(
                pos,
            ).variable_get(j) == collection.variable_get(j + 1),
        collection.variable_del(pos).name == collection.name,
        collection.variable_del(pos).requests == collection.requests,
{
}

/// Reading or deleting at a position that is not below the count finds
/// nothing and changes nothing; on an empty list that is every position.
pub proof fn lemma_out_of_range_is_not_found(collection: CollectionView, pos: int)
    requires
        pos >= collection.variable_count(),
    ensures
        collection.variable_get(pos) == None::<KeyValueItemView>,
        collection.variable_del(pos) == collection,
{
}

} // verus!
