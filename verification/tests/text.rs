use tonos_cli::text::{
    decimal_string, hex_prefixed_string, str_contains, str_eq, str_eq_ignore_ascii_case,
    str_replace, trim_end_matches_char, u128_in_base,
};

#[test]
fn trim_removes_every_trailing_slash() {
    assert_eq!(trim_end_matches_char("https://a.dev///", '/'), "https://a.dev");
    assert_eq!(trim_end_matches_char("https://a.dev", '/'), "https://a.dev");
    assert_eq!(trim_end_matches_char("///", '/'), "");
    assert_eq!(trim_end_matches_char("", '/'), "");
}

#[test]
fn replace_is_left_to_right_and_non_overlapping() {
    assert_eq!(str_replace("main.ton.dev", "ton", "evercloud"), "main.evercloud.dev");
    assert_eq!(str_replace("aaaa", "aa", "b"), "bb");
    assert_eq!(str_replace("aaa", "aa", "b"), "ba");
    assert_eq!(str_replace("tonton", "ton", ""), "");
    assert_eq!(str_replace("abc", "x", "y"), "abc");
    assert_eq!(str_replace("", "x", "y"), "");
}

#[test]
fn contains_finds_inner_and_edge_occurrences() {
    assert!(str_contains("http://127.0.0.1:80", "127.0.0.1"));
    assert!(str_contains("localhost", "localhost"));
    assert!(str_contains("abc", ""));
    assert!(!str_contains("local", "localhost"));
    assert!(!str_contains("", "a"));
}

#[test]
fn equality_and_ascii_case_folding() {
    assert!(str_eq("main", "main"));
    assert!(!str_eq("main", "mains"));
    assert!(!str_eq("main", "Main"));
    assert!(str_eq_ignore_ascii_case("DeBuG", "debug"));
    assert!(!str_eq_ignore_ascii_case("debugs", "debug"));
    assert!(!str_eq_ignore_ascii_case("d\u{e9}bug", "d\u{c9}bug"));
}

#[test]
fn numbers_are_written_like_std_does() {
    assert_eq!(decimal_string(0), "0");
    assert_eq!(decimal_string(7), "7");
    assert_eq!(decimal_string(1234567890), "1234567890");
    assert_eq!(decimal_string(u128::MAX), u128::MAX.to_string());
    assert_eq!(hex_prefixed_string(0), "0x0");
    assert_eq!(hex_prefixed_string(255), "0xff");
    assert_eq!(hex_prefixed_string(u64::MAX), format!("{:#x}", u64::MAX));
    assert_eq!(u128_in_base(10, 2), "1010");
}

#[test]
fn decimal_reads_back() {
    for n in [0u128, 9, 10, 99, 100, 65535, 1 << 64, u128::MAX] {
        let s = decimal_string(n);
        assert_eq!(s.parse::<u128>().unwrap(), n);
        assert!(s.len() == 1 || !s.starts_with('0'));
    }
    assert_eq!(u64::from_str_radix(&hex_prefixed_string(0xdead_beef)[2..], 16).unwrap(), 0xdead_beef);
}

#[test]
fn trimming_twice_is_trimming_once() {
    let once = trim_end_matches_char("x///", '/');
    assert_eq!(trim_end_matches_char(&once, '/'), once);
}

#[test]
fn replacing_an_absent_pattern_changes_nothing() {
    assert_eq!(str_replace("main.evercloud.dev", "ton", "evercloud"), "main.evercloud.dev");
    assert_eq!(str_replace("net.evercloud.dev", "everos", "evercloud"), "net.evercloud.dev");
}
