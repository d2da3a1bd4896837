use cartero::objects::Change;
use cartero::objects::Collection;
use cartero::objects::Endpoint;
use cartero::objects::KeyValueItem;

fn variable(name: &str, value: &str) -> KeyValueItem {
    KeyValueItem::new(name, value, true, false)
}

#[test]
pub fn test_collections_can_have_name() {
    let collection = Collection::new_with_title("PokéAPI");
    assert_eq!(collection.name(), "PokéAPI");
}

#[test]
pub fn test_collections_can_have_variables() {
    let mut collection = Collection::new_with_title("PokéAPI");

    let variable = {
        let mut v = KeyValueItem::default();
        v.set_header_name("token");
        v.set_header_value("12341234");
        v.set_active(true);
        v.set_secret(true);
        v
    };

    assert_eq!(0, collection.variable_count());
    assert!(collection.variable_get(0).is_none());

    collection.add_variable(&variable);
    assert_eq!(1, collection.variable_count());

    let variable = collection.variable_get(0).unwrap();
    assert_eq!("token", variable.header_name());
    assert_eq!("12341234", variable.header_value());
    assert!(variable.active());
    assert!(variable.secret());

    let var = collection.variable_del(0);
    assert!(var.is_some());
    assert_eq!(collection.variable_count(), 0);
    assert!(collection.variable_get(0).is_none());
}

#[test]
fn default_item_is_empty_and_off() {
    let item = KeyValueItem::default();
    assert_eq!(item.header_name(), "");
    assert_eq!(item.header_value(), "");
    assert!(!item.active());
    assert!(!item.secret());
}

#[test]
fn items_are_equal_by_value() {
    let a = KeyValueItem::new("token", "1234", true, false);
    let mut b = KeyValueItem::default();
    b.set_header_name("token");
    b.set_header_value("1234");
    b.set_active(true);
    assert!(a == b);
    assert!(a == a.clone());

    b.set_secret(true);
    assert!(a != b);
    assert!(a != KeyValueItem::new("token", "12345", true, false));
    assert!(a != KeyValueItem::new("Token", "1234", true, false));
    assert!(a != KeyValueItem::new("token", "1234", false, false));
}

#[test]
fn setters_change_one_attribute_each() {
    let mut item = KeyValueItem::new("a", "b", false, true);
    item.set_header_value("c");
    assert_eq!(item.header_name(), "a");
    assert_eq!(item.header_value(), "c");
    assert!(!item.active());
    assert!(item.secret());
    item.set_secret(false);
    assert!(item == KeyValueItem::new("a", "c", false, false));
}

#[test]
fn new_collection_is_empty() {
    let collection = Collection::new_with_title("");
    assert_eq!(collection.name(), "");
    assert_eq!(collection.variable_count(), 0);
    assert_eq!(collection.request_count(), 0);
    assert!(collection.requests().is_empty());
}

#[test]
fn appended_variables_are_counted_and_read_back_in_order() {
    let mut collection = Collection::new_with_title("api");
    assert_eq!(collection.variable_count(), 0);
    let items = vec![variable("a", "1"), variable("b", "2"), variable("a", "1"), variable("c", "")];
    for (n, item) in items.iter().enumerate() {
        collection.add_variable(item);
        assert_eq!(collection.variable_count() as usize, n + 1);
    }
    for (i, item) in items.iter().enumerate() {
        assert!(collection.variable_get(i as u32).unwrap() == *item);
    }
    assert!(collection.variable_get(4).is_none());
}

#[test]
fn deleting_shifts_the_variables_behind_down_by_one() {
    let mut collection = Collection::new_with_title("api");
    for name in ["a", "b", "c", "d"] {
        collection.add_variable(&variable(name, name));
    }
    collection.add_request(&Endpoint::new("GET", "https://example.org"));

    let removed = collection.variable_del(1).unwrap();
    assert_eq!(removed.header_name(), "b");
    assert_eq!(collection.variable_count(), 3);
    assert_eq!(collection.variable_get(0).unwrap().header_name(), "a");
    assert_eq!(collection.variable_get(1).unwrap().header_name(), "c");
    assert_eq!(collection.variable_get(2).unwrap().header_name(), "d");
    assert!(collection.variable_get(3).is_none());
    assert_eq!(collection.name(), "api");
    assert_eq!(collection.request_count(), 1);

    let removed = collection.variable_del(2).unwrap();
    assert_eq!(removed.header_name(), "d");
    let removed = collection.variable_del(0).unwrap();
    assert_eq!(removed.header_name(), "a");
    assert_eq!(collection.variable_count(), 1);
    assert_eq!(collection.variable_get(0).unwrap().header_name(), "c");
}

#[test]
fn out_of_range_is_not_found_and_changes_nothing() {
    let mut collection = Collection::new_with_title("api");
    assert!(collection.variable_get(0).is_none());
    assert!(collection.variable_del(0).is_none());
    assert!(collection.variable_get(u32::MAX).is_none());
    assert!(collection.variable_del(u32::MAX).is_none());
    assert_eq!(collection.variable_count(), 0);
    assert!(collection.take_changes().is_empty());

    collection.add_variable(&variable("a", "1"));
    collection.add_variable(&variable("b", "2"));
    let _ = collection.take_changes();
    assert!(collection.variable_get(2).is_none());
    assert!(collection.variable_del(2).is_none());
    assert!(collection.variable_del(7).is_none());
    assert_eq!(collection.variable_count(), 2);
    assert_eq!(collection.variable_get(0).unwrap().header_name(), "a");
    assert_eq!(collection.variable_get(1).unwrap().header_name(), "b");
    assert!(collection.take_changes().is_empty());
}

#[test]
fn requests_follow_the_same_rules_as_variables() {
    let mut collection = Collection::new_with_title("api");
    assert!(collection.request_get(0).is_none());
    assert!(collection.request_del(0).is_none());

    collection.add_request(&Endpoint::new("GET", "https://a"));
    collection.add_request(&Endpoint::new("POST", "https://b"));
    collection.add_request(&Endpoint::new("PUT", "https://c"));
    assert_eq!(collection.request_count(), 3);
    assert_eq!(collection.request_get(1).unwrap().url(), "https://b");
    assert_eq!(collection.request_get(1).unwrap().method(), "POST");
    assert!(collection.request_get(3).is_none());

    let removed = collection.request_del(0).unwrap();
    assert_eq!(removed.url(), "https://a");
    assert_eq!(collection.request_count(), 2);
    assert_eq!(collection.request_get(0).unwrap().url(), "https://b");
    assert_eq!(collection.request_get(1).unwrap().url(), "https://c");
    assert!(collection.request_del(2).is_none());
    assert_eq!(collection.request_count(), 2);
    assert_eq!(collection.variable_count(), 0);

    let urls: Vec<String> = collection.requests().iter().map(|r| r.url()).collect();
    assert_eq!(urls, vec!["https://b".to_string(), "https://c".to_string()]);
}

#[test]
fn every_change_is_told_with_the_new_count() {
    let mut collection = Collection::new_with_title("api");
    assert!(collection.take_changes().is_empty());

    collection.add_variable(&variable("a", "1"));
    collection.add_variable(&variable("b", "2"));
    collection.add_request(&Endpoint::new("GET", "https://a"));
    collection.set_name("renamed");
    assert!(collection.variable_del(0).is_some());
    assert!(collection.variable_del(5).is_none());
    assert!(collection.request_del(0).is_some());
    assert!(collection.request_del(0).is_none());

    let changes = collection.take_changes();
    assert_eq!(
        changes,
        vec![
            Change::Variables { position: 0, removed: 0, added: 1, count: 1 },
            Change::Variables { position: 1, removed: 0, added: 1, count: 2 },
            Change::Requests { position: 0, removed: 0, added: 1, count: 1 },
            Change::Renamed,
            Change::Variables { position: 0, removed: 1, added: 0, count: 1 },
            Change::Requests { position: 0, removed: 1, added: 0, count: 0 },
        ]
    );
    assert!(collection.take_changes().is_empty());
    assert_eq!(collection.name(), "renamed");
    assert_eq!(collection.variable_count(), 1);
}

#[test]
fn a_copy_of_a_collection_holds_the_same() {
    let mut collection = Collection::new_with_title("api");
    collection.add_variable(&variable("a", "1"));
    collection.add_request(&Endpoint::new("GET", "https://a"));
    let mut copy = collection.clone();
    assert_eq!(copy.name(), "api");
    assert!(copy.variable_get(0).unwrap() == variable("a", "1"));
    assert_eq!(copy.request_get(0).unwrap().url(), "https://a");
    assert_eq!(copy.take_changes().len(), 2);

    copy.add_variable(&variable("b", "2"));
    assert_eq!(collection.variable_count(), 1);
    assert_eq!(collection.take_changes().len(), 2);
}

#[test]
fn endpoint_keeps_method_url_headers_and_body() {
    let mut endpoint = Endpoint::new("POST", "https://example.org/items");
    assert_eq!(endpoint.method(), "POST");
    assert_eq!(endpoint.url(), "https://example.org/items");
    assert_eq!(endpoint.body(), "");
    assert!(endpoint.headers().is_empty());

    endpoint.set_body("{\"id\": 1}");
    endpoint.add_header(&KeyValueItem::new("Accept", "text/plain", true, false));
    endpoint.add_header(&KeyValueItem::new("X-Token", "s3cret", false, true));
    assert_eq!(endpoint.body(), "{\"id\": 1}");
    let headers = endpoint.headers();
    assert_eq!(headers.len(), 2);
    assert!(headers[0] == KeyValueItem::new("Accept", "text/plain", true, false));
    assert!(headers[1] == KeyValueItem::new("X-Token", "s3cret", false, true));

    let copy = endpoint.clone();
    assert_eq!(copy.method(), "POST");
    assert_eq!(copy.url(), "https://example.org/items");
    assert_eq!(copy.body(), "{\"id\": 1}");
    assert_eq!(copy.headers().len(), 2);
}
