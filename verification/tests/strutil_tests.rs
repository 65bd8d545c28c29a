use haforu::strutil::{append_decimal, pack_tag, str_eq};

#[test]
fn tags_pack_big_endian() {
    assert_eq!(pack_tag("wght"), Some(u32::from_be_bytes(*b"wght")));
    assert_eq!(pack_tag("wd"), None);
    assert_eq!(pack_tag("toolong"), None);
    assert_eq!(pack_tag("w\u{0001}ht"), None);
}

#[test]
fn string_equality_compares_characters() {
    assert!(str_eq("abc", "abc"));
    assert!(!str_eq("abc", "abd"));
    assert!(!str_eq("abc", "ab"));
    assert!(str_eq("", ""));
}

#[test]
fn decimal_rendering_is_exact() {
    let mut s = String::new();
    append_decimal(0, &mut s);
    assert_eq!(s, "0");
    let mut s = String::new();
    append_decimal(10000, &mut s);
    assert_eq!(s, "10000");
    let mut s = String::from("n=");
    append_decimal(18446744073709551615, &mut s);
    assert_eq!(s, "n=18446744073709551615");
}
