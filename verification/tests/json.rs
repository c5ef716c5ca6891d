use cup::json::{read_list, read_text, read_text_list, ListError};

#[test]
fn a_string_member_is_read() {
    assert_eq!(
        read_text(r#"{"token": "abc d", "expires_in": 300}"#, "token"),
        Some("abc d".to_string())
    );
}

#[test]
fn anything_but_a_string_member_is_not_read() {
    assert_eq!(read_text(r#"{"token": 7}"#, "token"), None);
    assert_eq!(read_text(r#"{"access_token": "abc"}"#, "token"), None);
    assert_eq!(read_text(r#"["token"]"#, "token"), None);
    assert_eq!(read_text("<html></html>", "token"), None);
}

#[test]
fn a_list_of_strings_is_read_in_order() {
    assert_eq!(
        read_text_list(r#"{"name": "library/nginx", "tags": ["1.0", "latest"]}"#, "tags"),
        Ok(vec!["1.0".to_string(), "latest".to_string()])
    );
    assert_eq!(read_text_list(r#"{"tags": []}"#, "tags"), Ok(vec![]));
}

#[test]
fn what_is_no_list_of_strings_is_told_apart() {
    assert_eq!(read_text_list("oops", "tags"), Err(ListError::NotJson));
    assert_eq!(read_text_list(r#"{"tags": null}"#, "tags"), Err(ListError::NoList));
    assert_eq!(read_text_list("{}", "tags"), Err(ListError::NoList));
    assert_eq!(
        read_text_list(r#"{"tags": ["1.0", 2]}"#, "tags"),
        Err(ListError::NotText)
    );
}

#[test]
fn the_items_of_a_list_are_handed_on() {
    let items = read_list(r#"{"images": [{"reference": "a"}, 3]}"#, "images").unwrap();
    assert_eq!(items.len(), 2);
    assert_eq!(items[0]["reference"].as_str(), Some("a"));
    assert_eq!(items[1].as_u64(), Some(3));
    assert!(read_list(r#"{"images": {}}"#, "images").is_none());
    assert!(read_list("", "images").is_none());
}
