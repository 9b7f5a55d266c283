use edge_lb::api_common::page_query;

#[test]
fn page_query_parses_and_clamps() {
    assert_eq!(page_query("page=2&per_page=500&q=tcp%2D80").page, 2);
    let parsed = page_query("page=2&per_page=500&q=tcp%2D80");
    assert!(parsed.enabled);
    assert_eq!(parsed.per_page, 200);
    assert_eq!(parsed.q, "tcp-80");
}

#[test]
fn empty_query_is_not_paginated() {
    let parsed = page_query("");
    assert!(!parsed.enabled);
    assert_eq!((parsed.page, parsed.per_page), (1, 20));
    assert_eq!(parsed.q, "");
}

#[test]
fn bad_numbers_fall_back_to_defaults_and_zero_is_raised() {
    let parsed = page_query("page=x&pageSize=0");
    assert!(parsed.enabled);
    assert_eq!(parsed.page, 1);
    assert_eq!(parsed.per_page, 1);
    let parsed = page_query("page=0&perPage=abc&&other=1");
    assert_eq!(parsed.page, 1);
    assert_eq!(parsed.per_page, 20);
}

#[test]
fn search_text_is_decoded_trimmed_and_lower_cased() {
    assert_eq!(page_query("q=+Web%20Server+").q, "web server");
    // An escape needs two hex digits after the percent sign.
    assert_eq!(page_query("q=a%41").q, "aa");
    assert_eq!(page_query("q=a%4").q, "a%4");
    assert_eq!(page_query("q=%zz").q, "%zz");
    assert_eq!(page_query("q=%41b").q, "ab");
    assert_eq!(page_query("q").q, "");
}
