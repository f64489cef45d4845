use remores_dl::pagination::{next_link, Paginator};

#[test]
fn next_link_is_cut_from_the_matching_segment() {
    let h = "<https://api.test/items?page=2>; rel=\"next\", <https://api.test/items?page=1>; rel=\"prev\"";
    assert_eq!(next_link(h).as_deref(), Some("https://api.test/items?page=2"));
}

#[test]
fn next_link_ignores_headers_without_next() {
    let h = "<https://api.test/items?page=1>; rel=\"prev\", <https://api.test/items?page=9>; rel=\"last\"";
    assert_eq!(next_link(h), None);
    assert_eq!(next_link(""), None);
}

#[test]
fn next_link_takes_the_first_next_segment() {
    let h = "<https://a/one>; rel=\"next\", <https://a/two>; rel=\"next\"";
    assert_eq!(next_link(h).as_deref(), Some("https://a/one"));
}

#[test]
fn next_link_without_closing_angle_yields_nothing() {
    let h = "<https://a/one; rel=\"next\"";
    assert_eq!(next_link(h), None);
}

#[test]
fn three_pages_concatenate_in_order() {
    let mut pager: Paginator<u32> = Paginator::new("https://api.test/items".to_string());
    assert_eq!(
        pager.next_request().map(String::as_str),
        Some("https://api.test/items")
    );

    pager.push_page(
        vec![1, 2, 3],
        Some("<https://api.test/items?page=2>; rel=\"next\""),
    );
    assert_eq!(
        pager.next_request().map(String::as_str),
        Some("https://api.test/items?page=2")
    );

    pager.push_page(
        vec![4, 5],
        Some("<https://api.test/items?page=3>; rel=\"next\", <https://api.test/items>; rel=\"first\""),
    );
    assert_eq!(
        pager.next_request().map(String::as_str),
        Some("https://api.test/items?page=3")
    );

    pager.push_page(vec![6], Some("<https://api.test/items?page=3>; rel=\"last\""));
    assert!(pager.is_done());
    assert_eq!(pager.into_items(), vec![1, 2, 3, 4, 5, 6]);
}

#[test]
fn a_missing_link_header_ends_the_run() {
    let mut pager: Paginator<u32> = Paginator::new("https://api.test/items".to_string());
    pager.push_page(vec![7], None);
    assert!(pager.is_done());
    assert_eq!(pager.into_items(), vec![7]);
}
