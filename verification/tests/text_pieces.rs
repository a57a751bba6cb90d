use easy_file::text::{find_char, find_char_pair, i64_to_decimal, split_str, u64_to_decimal};

#[test]
fn decimal_of_unsigned() {
    assert_eq!(u64_to_decimal(0), "0");
    assert_eq!(u64_to_decimal(7), "7");
    assert_eq!(u64_to_decimal(10), "10");
    assert_eq!(u64_to_decimal(1234567890), "1234567890");
    assert_eq!(u64_to_decimal(u64::MAX), u64::MAX.to_string());
}

#[test]
fn decimal_of_signed_matches_to_string() {
    for x in [0i64, 5, -5, 20971520, -1, i64::MAX, i64::MIN, -1000] {
        assert_eq!(i64_to_decimal(x), x.to_string());
    }
}

#[test]
fn find_char_counts_characters() {
    assert_eq!(find_char("abc:def", ':'), Some(3));
    assert_eq!(find_char("abc", ':'), None);
    assert_eq!(find_char("ü:", ':'), Some(1));
    assert_eq!(find_char("::", ':'), Some(0));
}

#[test]
fn find_char_pair_finds_first_pair() {
    assert_eq!(find_char_pair("s3://a//b", '/', '/'), Some(3));
    assert_eq!(find_char_pair("a/b/c", '/', '/'), None);
    assert_eq!(find_char_pair("/", '/', '/'), None);
    assert_eq!(find_char_pair("", '/', '/'), None);
}

#[test]
fn split_str_matches_std_split() {
    for s in ["a/b/c", "", "/", "//", "a//b/", "abc", "/x"] {
        let expected: Vec<String> = s.split('/').map(|p| p.to_string()).collect();
        assert_eq!(split_str(s, '/'), expected);
    }
}
