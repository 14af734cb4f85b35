use media_browser::paths::file_name_text;
use media_browser::text::{chars_le_exec, chars_of, join_with, push_decimal, string_of, trim_trailing_exec};

#[test]
fn decimal_rendering() {
    for n in [0u64, 7, 10, 99, 100, 123456789, u64::MAX] {
        let mut s = String::new();
        push_decimal(&mut s, n);
        assert_eq!(s, n.to_string());
    }
    let mut s = String::from("x=");
    push_decimal(&mut s, 42);
    assert_eq!(s, "x=42");
}

#[test]
fn joining() {
    let parts = vec!["a".to_string(), "bc".to_string(), "".to_string()];
    assert_eq!(join_with(&parts, ", "), "a, bc, ");
    assert_eq!(join_with(&Vec::new(), "\n"), "");
    assert_eq!(join_with(&vec!["one".to_string()], "\n"), "one");
}

#[test]
fn trimming_trailing_backslashes() {
    assert_eq!(trim_trailing_exec("C:\\\\", '\\'), "C:");
    assert_eq!(trim_trailing_exec("C:\\x", '\\'), "C:\\x");
    assert_eq!(trim_trailing_exec("\\\\", '\\'), "");
    assert_eq!(trim_trailing_exec("", '\\'), "");
}

#[test]
fn character_order_matches_str_order() {
    let words = ["", "a", "B", "ab", "é", "Z", "zz", "a\u{10000}", "a\u{FFFF}"];
    for x in words {
        for y in words {
            let r = chars_le_exec(&chars_of(x), &chars_of(y));
            assert_eq!(r, x <= y, "{:?} {:?}", x, y);
        }
    }
}

#[test]
fn chars_round_trip() {
    assert_eq!(string_of(&chars_of("héllo wörld")), "héllo wörld");
}

#[test]
fn shown_file_names() {
    assert_eq!(file_name_text("/d/photo.jpg"), "photo.jpg");
    assert_eq!(file_name_text("/"), "");
    assert_eq!(file_name_text("/d/.."), "");
}
