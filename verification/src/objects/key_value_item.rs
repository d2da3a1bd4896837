//! A name/value pair with two flags, used for variables and headers.

use vstd::prelude::*;

verus! {

/// What a [`KeyValueItem`] holds, as plain mathematical values.
pub ghost struct KeyValueItemView {
    pub header_name: Seq<char>,
    pub header_value: Seq<char>,
    pub active: bool,
    pub secret: bool,
}

/// A name/value pair that can be switched off and can be marked secret.
///
/// An item has no identity of its own: two items are the same item when their
/// four attributes are equal.
#[derive(Debug)]
pub struct KeyValueItem {
    header_name: String,
    header_value: String,
    active: bool,
    secret: bool,
}

impl View for KeyValueItem {
    type V = KeyValueItemView;

    closed spec fn view(&self) -> KeyValueItemView {
        KeyValueItemView {
            header_name: self.header_name@,
            header_value: self.header_value@,
            active: self.active,
            secret: self.secret,
        }
    }
}

impl KeyValueItemView {
    /// The item that `KeyValueItem::default()` builds.
    pub open spec fn empty() -> KeyValueItemView {
        KeyValueItemView {
            header_name: Seq::empty(),
            header_value: Seq::empty(),
            active: false,
            secret: false,
        }
    }
}

impl Default for KeyValueItem {
    fn default() -> (item: KeyValueItem)
        ensures
            item@ == KeyValueItemView::empty(),
    {
        KeyValueItem {
            header_name: String::new(),
            header_value: String::new(),
            active: false,
            secret: false,
        }
    }
}

impl Clone for KeyValueItem {
    fn clone(&self) -> (copy: KeyValueItem)
        ensures
            copy@ == self@,
    {
        KeyValueItem {
            header_name: self.header_name.clone(),
            header_value: self.header_value.clone(),
            active: self.active,
            secret: self.secret,
        }
    }
}

impl PartialEq for KeyValueItem {
    fn eq(&self, other: &KeyValueItem) -> (same: bool) {
        self.header_name == other.header_name && self.header_value == other.header_value
            && self.active == other.active && self.secret == other.secret
    }
}

impl vstd::std_specs::cmp::PartialEqSpecImpl for KeyValueItem {
    open spec fn obeys_eq_spec() -> bool {
        true
    }

    /// Two items are equal when their four attributes are.
    open spec fn eq_spec(&self, other: &KeyValueItem) -> bool {
        self@ == other@
    }
}

impl KeyValueItem {
    /// An item with the four attributes given.
    pub fn new(header_name: &str, header_value: &str, active: bool, secret: bool) -> (item:
        KeyValueItem)
        ensures
            item@ == (KeyValueItemView {
                header_name: header_name@,
                header_value: header_value@,
                active,
                secret,
            }),
    {
        KeyValueItem {
            header_name: header_name.to_owned(),
            header_value: header_value.to_owned(),
            active,
            secret,
        }
    }

    /// The name.
    pub fn header_name(&self) -> (name: String)
        ensures
            name@ == self@.header_name,
    {
        self.header_name.clone()
    }

    /// The value.
    pub fn header_value(&self) -> (value: String)
        ensures
            value@ == self@.header_value,
    {
        self.header_value.clone()
    }

    /// Whether the item is switched on.
    pub fn active(&self) -> (active: bool)
        ensures
            active == self@.active,
    {
        self.active
    }

    /// Whether the value is to be kept from view.
    pub fn secret(&self) -> (secret: bool)
        ensures
            secret == self@.secret,
    {
        self.secret
    }

    /// Replaces the name.
    pub fn set_header_name(&mut self, header_name: &str)
        ensures
            final(self)@ == (KeyValueItemView { header_name: header_name@, ..old(self)@ }),
    {
        self.header_name = header_name.to_owned();
    }

    /// Replaces the value.
    pub fn set_header_value(&mut self, header_value: &str)
        ensures
            final(self)@ == (KeyValueItemView { header_value: header_value@, ..old(self)@ }),
    {
        self.header_value = header_value.to_owned();
    }

    /// Switches the item on or off.
    pub fn set_active(&mut self, active: bool)
        ensures
            final(self)@ == (KeyValueItemView { active, ..old(self)@ }),
    {
        self.active = active;
    }

    /// Marks the value as secret or not.
    pub fn set_secret(&mut self, secret: bool)
        ensures
            final(self)@ == (KeyValueItemView { secret, ..old(self)@ }),
    {
        self.secret = secret;
    }
}

/// The items of a list, each as its plain values.
pub open spec fn items_view(items: Seq<KeyValueItem>) -> Seq<KeyValueItemView> {
    items.map_values(|item: KeyValueItem| item@)
}

/// A copy of a list of items, item by item.
pub fn clone_items(items: &Vec<KeyValueItem>) -> (copy: Vec<KeyValueItem>)
    ensures
        items_view(copy@) == items_view(items@),
{
    let mut copy: Vec<KeyValueItem> = Vec::new();
    let mut i: usize = 0;
    while i < items.len()
        invariant
            i <= items.len(),
            copy@.len() == i,
            forall|k: int| 0 <= k < i ==> copy@[k]@ == items@[k]@,
        decreases items.len() - i,
    {
        copy.push(items[i].clone());
        i += 1;
    }
    assert(items_view(copy@) =~= items_view(items@));
    copy
}

} // verus!
