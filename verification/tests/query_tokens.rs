use typo_graph::query_tokens::QueryToken::{Free, Quoted};
use typo_graph::query_tokens::QueryTokens;

#[test]
fn one_quoted_string() {
    let mut iter = QueryTokens::new("\"hello\"");
    assert_eq!(iter.next(), Some(Quoted("hello")));
    assert_eq!(iter.next(), None);
}

#[test]
fn one_pending_quoted_string() {
    let mut iter = QueryTokens::new("\"hello");
    assert_eq!(iter.next(), Some(Quoted("hello")));
    assert_eq!(iter.next(), None);
}

#[test]
fn one_non_quoted_string() {
    let mut iter = QueryTokens::new("hello");
    assert_eq!(iter.next(), Some(Free("hello")));
    assert_eq!(iter.next(), None);
}

#[test]
fn quoted_directly_followed_by_free_strings() {
    let mut iter = QueryTokens::new("\"hello\"world");
    assert_eq!(iter.next(), Some(Quoted("hello")));
    assert_eq!(iter.next(), Some(Free("world")));
    assert_eq!(iter.next(), None);
}

#[test]
fn free_directly_followed_by_quoted_strings() {
    let mut iter = QueryTokens::new("hello\"world\"");
    assert_eq!(iter.next(), Some(Free("hello")));
    assert_eq!(iter.next(), Some(Quoted("world")));
    assert_eq!(iter.next(), None);
}

#[test]
fn free_followed_by_quoted_strings() {
    let mut iter = QueryTokens::new("hello \"world\"");
    assert_eq!(iter.next(), Some(Free("hello")));
    assert_eq!(iter.next(), Some(Quoted("world")));
    assert_eq!(iter.next(), None);
}

#[test]
fn multiple_spaces_separated_strings() {
    let mut iter = QueryTokens::new("hello    world   ");
    assert_eq!(iter.next(), Some(Free("hello")));
    assert_eq!(iter.next(), Some(Free("world")));
    assert_eq!(iter.next(), None);
}

#[test]
fn multi_interleaved_quoted_free_strings() {
    let mut iter = QueryTokens::new("hello \"world\" coucou \"monde\"");
    assert_eq!(iter.next(), Some(Free("hello")));
    assert_eq!(iter.next(), Some(Quoted("world")));
    assert_eq!(iter.next(), Some(Free("coucou")));
    assert_eq!(iter.next(), Some(Quoted("monde")));
    assert_eq!(iter.next(), None);
}
