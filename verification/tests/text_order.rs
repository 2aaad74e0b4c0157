use feroha::text::{sort_texts, text_lt};

#[test]
fn texts_compare_as_strings_do() {
    let cases = ["", "a", "ab", "b", "B", "é", "ä", "a/b", "a_b", "你好"];
    for x in cases {
        for y in cases {
            assert_eq!(text_lt(x, y), x < y, "{} < {}", x, y);
        }
    }
}

#[test]
fn distinct_texts_sort_in_string_order() {
    let v: Vec<String> = ["pear", "apple", "Zebra", "apples", "", "é"].iter().map(|s| s.to_string()).collect();
    let mut expected = v.clone();
    expected.sort();
    assert_eq!(sort_texts(&v), expected);
    assert!(sort_texts(&vec![]).is_empty());
}
