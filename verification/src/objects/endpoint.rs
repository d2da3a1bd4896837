//! A single HTTP request definition, shown as a leaf of the tree.

use vstd::prelude::*;
use crate::objects::key_value_item::KeyValueItem;
use crate::objects::key_value_item::KeyValueItemView;
use crate::objects::key_value_item::clone_items;
use crate::objects::key_value_item::items_view;

verus! {

/// What an [`Endpoint`] holds, as plain mathematical values.
pub ghost struct EndpointView {
    pub method: Seq<char>,
    pub url: Seq<char>,
    pub headers: Seq<KeyValueItemView>,
    pub body: Seq<char>,
}

/// A request: method, URL, headers in the order they were added, and body.
///
/// The tree shows it as a leaf under its collection and labels it by its URL.
#[derive(Debug)]
pub struct Endpoint {
    method: String,
    url: String,
    headers: Vec<KeyValueItem>,
    body: String,
}

impl View for Endpoint {
    type V = EndpointView;

    closed spec fn view(&self) -> EndpointView {
        EndpointView {
            method: self.method@,
            url: self.url@,
            headers: items_view(self.headers@),
            body: self.body@,
        }
    }
}

impl Clone for Endpoint {
    fn clone(&self) -> (copy: Endpoint)
        ensures
            copy@ == self@,
    {
        Endpoint {
            method: self.method.clone(),
            url: self.url.clone(),
            headers: clone_items(&self.headers),
            body: self.body.clone(),
        }
    }
}

impl Endpoint {
    /// A request with the method and URL given, no headers and an empty body.
    pub fn new(method: &str, url: &str) -> (endpoint: Endpoint)
        ensures
            endpoint@ == (EndpointView {
                method: method@,
                url: url@,
                headers: Seq::empty(),
                body: Seq::empty(),
            }),
    {
        let endpoint = Endpoint {
            method: method.to_owned(),
            url: url.to_owned(),
            headers: Vec::new(),
            body: String::new(),
        };
        assert(items_view(endpoint.headers@) =~= Seq::empty());
        endpoint
    }

    /// The HTTP method.
    pub fn method(&self) -> (method: String)
        ensures
            method@ == self@.method,
    {
        self.method.clone()
    }

    /// The URL, which is also the text that the tree shows for the request.
    pub fn url(&self) -> (url: String)
        ensures
            url@ == self@.url,
    {
        self.url.clone()
    }

    /// The body.
    pub fn body(&self) -> (body: String)
        ensures
            body@ == self@.body,
    {
        self.body.clone()
    }

    /// The headers, in the order they were added.
    pub fn headers(&self) -> (headers: Vec<KeyValueItem>)
        ensures
            items_view(headers@) == self@.headers,
    {
        clone_items(&self.headers)
    }

    /// Replaces the body.
    pub fn set_body(&mut self, body: &str)
        ensures
            final(self)@ == (EndpointView { body: body@, ..old(self)@ }),
    {
        self.body = body.to_owned();
    }

    /// Adds a header after those already there.
    pub fn add_header(&mut self, header: &KeyValueItem)
        ensures
            final(self)@ == (EndpointView {
                headers: old(self)@.headers.push(header@),
                ..old(self)@
            }),
    {
        self.headers.push(header.clone());
        assert(items_view(self.headers@) =~= items_view(old(self).headers@).push(header@));
    }
}

/// The requests of a list, each as its plain values.
pub open spec fn endpoints_view(endpoints: Seq<Endpoint>) -> Seq<EndpointView> {
    endpoints.map_values(|endpoint: Endpoint| endpoint@)
}

/// A copy of a list of requests, request by request.
pub fn clone_endpoints(endpoints: &Vec<Endpoint>) -> (copy: Vec<Endpoint>)
    ensures
        endpoints_view(copy@) == endpoints_view(endpoints@),
{
    let mut copy: Vec<Endpoint> = Vec::new();
    let mut i: usize = 0;
    while i < endpoints.len()
        invariant
            i <= endpoints.len(),
            copy@.len() == i,
            forall|k: int| 0 <= k < i ==> copy@[k]@ == endpoints@[k]@,
        decreases endpoints.len() - i,
    {
        copy.push(endpoints[i].clone());
        i += 1;
    }
    assert(endpoints_view(copy@) =~= endpoints_view(endpoints@));
    copy
}

} // verus!
