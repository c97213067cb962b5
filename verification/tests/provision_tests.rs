use json2splunk::provision::{
    extract_indexes, extract_token, find_sub, trim_str, updated_indexes,
};

#[test]
fn find_sub_finds_the_first_occurrence() {
    assert_eq!(find_sub("abcabc", "bc"), Some(1));
    assert_eq!(find_sub("abc", "x"), None);
    assert_eq!(find_sub("abc", ""), Some(0));
    assert_eq!(find_sub("ab", "abc"), None);
}

#[test]
fn trim_removes_surrounding_blanks() {
    assert_eq!(trim_str("  x y\t\n"), "x y");
    assert_eq!(trim_str("plain"), "plain");
    assert_eq!(trim_str(" \t "), "");
}

#[test]
fn token_is_pulled_out_of_the_answer() {
    let body = "<entry><s:key name=\"token\"> ABCD-1234 </s:key></entry>";
    assert_eq!(extract_token(body), Some("ABCD-1234".to_string()));
    assert_eq!(extract_token("<entry>no token here</entry>"), None);
    assert_eq!(
        extract_token("<s:key name=\"token\">unclosed"),
        None
    );
}

#[test]
fn index_list_is_pulled_out_of_the_answer() {
    let body = "<s:key name=\"indexes\"><s:list><s:item> main </s:item><s:item>second</s:item></s:list></s:key>";
    assert_eq!(
        extract_indexes(body),
        vec!["main".to_string(), "second".to_string()]
    );
    assert!(extract_indexes("<entry/>").is_empty());
}

#[test]
fn registering_an_index_appends_and_joins() {
    let existing = vec!["main".to_string()];
    let index = "second".to_string();
    let (list, joined) = updated_indexes(&existing, &index).expect("not bound yet");
    assert_eq!(list, vec!["main".to_string(), "second".to_string()]);
    assert_eq!(joined, "main,second");

    let already = vec!["main".to_string(), "second".to_string()];
    assert!(updated_indexes(&already, &index).is_none());

    let none: Vec<String> = Vec::new();
    let (list2, joined2) = updated_indexes(&none, &index).expect("empty list accepts");
    assert_eq!(list2, vec!["second".to_string()]);
    assert_eq!(joined2, "second");
}
