//! Tests of the FIFO work queue and of the small building blocks: the
//! string table, digit printing and parsing, and replacement.

use taskserver::channel::Channel;
use taskserver::dict::Dict;
use taskserver::strutil::{
    find_sub, parse_usize, replace_all_str, str_eq, trim_leading_slashes, u32_to_string,
};

#[test]
fn queue_hands_items_out_in_arrival_order_exactly_once() {
    let mut q: Channel<u32> = Channel::new();
    q.send(10);
    q.send(20);
    q.send(30);
    assert_eq!(q.len(), 3);
    // Each item leaves the queue when received, so no two receivers can
    // ever see the same item, and arrival order is kept.
    assert_eq!(q.recv(), Some(10));
    assert_eq!(q.recv(), Some(20));
    assert_eq!(q.len(), 1);
    assert_eq!(q.recv(), Some(30));
    assert_eq!(q.recv(), None);
    assert_eq!(q.len(), 0);
}

#[test]
fn empty_queue_yields_nothing() {
    let mut q: Channel<String> = Channel::new();
    assert_eq!(q.recv(), None);
    q.send("a".to_string());
    assert_eq!(q.recv(), Some("a".to_string()));
    assert_eq!(q.recv(), None);
}

#[test]
fn dict_last_insert_wins() {
    let mut d = Dict::new();
    d.insert("k".to_string(), "one".to_string());
    d.insert("other".to_string(), "x".to_string());
    d.insert("k".to_string(), "two".to_string());
    assert_eq!(d.get("k").unwrap(), "two");
    assert_eq!(d.get("other").unwrap(), "x");
    assert!(d.get("missing").is_none());
    assert!(d.contains_key("k"));
    assert!(!d.contains_key("missing"));
}

#[test]
fn digits_print_and_parse() {
    assert_eq!(u32_to_string(0), "0");
    assert_eq!(u32_to_string(42), "42");
    assert_eq!(u32_to_string(4294967295), "4294967295");
    assert_eq!(parse_usize("0"), Some(0));
    assert_eq!(parse_usize("42"), Some(42));
    assert_eq!(parse_usize(""), None);
    assert_eq!(parse_usize("4x2"), None);
    assert_eq!(parse_usize("99999999999999999999999999"), None);
}

#[test]
fn string_search_and_replacement() {
    assert!(str_eq("abc", "abc"));
    assert!(!str_eq("abc", "abd"));
    assert_eq!(find_sub("hello world", "world"), Some(6));
    assert_eq!(find_sub("hello", "xyz"), None);
    assert_eq!(replace_all_str("Hi {{username}}!", "{{username}}", "alice"), "Hi alice!");
    assert_eq!(replace_all_str("no marker", "{{username}}", "alice"), "no marker");
    assert_eq!(replace_all_str("a-a", "a", "b"), "b-b");
    assert_eq!(replace_all_str("aaa", "aa", "x"), "xa");
    assert_eq!(trim_leading_slashes("///public/app.css"), "public/app.css");
    assert_eq!(trim_leading_slashes("plain"), "plain");
}
