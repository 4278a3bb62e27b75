use etw_gecko::text::{
    chars_of, file_name, find_char, find_last_char, find_text, matches_at, parses_as_i32,
    push_decimal, push_lower_hex, push_text, push_upper_hex_8, same_text, string_of,
    strip_thread_numbers, text_contains, white_space,
};

fn decimal(n: u64) -> String {
    let mut text: Vec<char> = Vec::new();
    push_decimal(&mut text, n);
    string_of(&text)
}

fn lower_hex(n: u64) -> String {
    let mut text: Vec<char> = Vec::new();
    push_lower_hex(&mut text, n);
    string_of(&text)
}

fn upper_hex_8(n: u32) -> String {
    let mut text: Vec<char> = Vec::new();
    push_upper_hex_8(&mut text, n);
    string_of(&text)
}

fn is_i32(text: &str) -> bool {
    parses_as_i32(&chars_of(text), 0)
}

#[test]
fn thread_numbers_are_stripped() {
    assert_eq!(strip_thread_numbers("DOM Worker #12"), "DOM Worker");
    assert_eq!(strip_thread_numbers("StreamTrans #3"), "StreamTrans");
    assert_eq!(strip_thread_numbers("Worker#1"), "Worker");
    assert_eq!(strip_thread_numbers("  padded   #7"), "padded");
    assert_eq!(strip_thread_numbers("#5"), "");
}

#[test]
fn thread_names_without_a_number_stay() {
    assert_eq!(strip_thread_numbers("GeckoMain"), "GeckoMain");
    assert_eq!(strip_thread_numbers("Worker #"), "Worker #");
    assert_eq!(strip_thread_numbers("Worker #a1"), "Worker #a1");
    assert_eq!(strip_thread_numbers("Worker #1a"), "Worker #1a");
    assert_eq!(strip_thread_numbers("Worker # 1"), "Worker # 1");
    assert_eq!(strip_thread_numbers(" spaced "), " spaced ");
    assert_eq!(strip_thread_numbers(""), "");
}

#[test]
fn the_number_behind_the_last_hash_is_stripped() {
    assert_eq!(strip_thread_numbers("A#B #3"), "A#B");
    assert_eq!(strip_thread_numbers("A#B#1"), "A#B");
    assert_eq!(strip_thread_numbers("Pool #2 #3"), "Pool #2");
    assert_eq!(strip_thread_numbers("##1"), "#");
    assert_eq!(strip_thread_numbers("C# Worker #12"), "C# Worker");
}

#[test]
fn a_number_that_is_not_at_the_end_stays() {
    assert_eq!(strip_thread_numbers("Pool #2 #x"), "Pool #2 #x");
    assert_eq!(strip_thread_numbers("Pool #2#"), "Pool #2#");
    assert_eq!(strip_thread_numbers("#1 Worker"), "#1 Worker");
    assert_eq!(strip_thread_numbers("Worker #1 "), "Worker #1 ");
}

#[test]
fn thread_numbers_may_have_a_sign_and_must_fit_32_bits() {
    assert_eq!(strip_thread_numbers("T #-3"), "T");
    assert_eq!(strip_thread_numbers("T #+3"), "T");
    assert_eq!(strip_thread_numbers("T #2147483647"), "T");
    assert_eq!(strip_thread_numbers("T #2147483648"), "T #2147483648");
    assert_eq!(strip_thread_numbers("T #-2147483648"), "T");
    assert_eq!(strip_thread_numbers("T #-2147483649"), "T #-2147483649");
    assert_eq!(strip_thread_numbers("T #000000000000000000001"), "T");
    assert_eq!(strip_thread_numbers("T #99999999999999999999999"), "T #99999999999999999999999");
    assert_eq!(strip_thread_numbers("T #-"), "T #-");
    assert_eq!(strip_thread_numbers("T #+"), "T #+");
}

#[test]
fn stripped_names_lose_unicode_white_space() {
    assert_eq!(strip_thread_numbers("\u{2003}wide\u{a0}#1"), "wide");
    assert_eq!(strip_thread_numbers("\ttab\n#1"), "tab");
    assert_eq!(strip_thread_numbers("caf\u{e9} #4"), "caf\u{e9}");
}

#[test]
fn stripping_agrees_with_the_standard_library() {
    let names = [
        "DOM Worker #12", "x#", "#", "##1", "a #1 ", "a #١", " #0", "Socket Thread", "t#-0",
        "t#+-1", "t #4294967296", "\u{1680}#1", "A#B #3", "a#1#b", "\u{e9}#\u{e9} #7",
    ];
    for name in names {
        let expected = match name.rfind('#') {
            Some(hash) => {
                let (prefix, suffix) = name.split_at(hash);
                if suffix[1..].parse::<i32>().is_ok() {
                    prefix.trim()
                } else {
                    name
                }
            }
            None => name,
        };
        assert_eq!(strip_thread_numbers(name), expected, "for {:?}", name);
    }
}

#[test]
fn i32_texts() {
    assert!(is_i32("0"));
    assert!(is_i32("-0"));
    assert!(is_i32("+12"));
    assert!(is_i32("2147483647"));
    assert!(is_i32("-2147483648"));
    assert!(!is_i32("2147483648"));
    assert!(!is_i32(""));
    assert!(!is_i32("-"));
    assert!(!is_i32("1 "));
    assert!(!is_i32("--1"));
    assert!(!is_i32("1.0"));
}

#[test]
fn white_space_is_the_unicode_property() {
    for c in ['\u{9}', '\u{a}', '\u{b}', '\u{c}', '\u{d}', ' ', '\u{85}', '\u{a0}', '\u{1680}',
        '\u{2000}', '\u{200a}', '\u{2028}', '\u{2029}', '\u{202f}', '\u{205f}', '\u{3000}']
    {
        assert!(white_space(c));
    }
    for c in ['a', '0', '\u{8}', '\u{e}', '\u{200b}', '\u{feff}', '#'] {
        assert!(!white_space(c));
    }
    let mut c = '\u{0}';
    loop {
        assert_eq!(white_space(c), c.is_whitespace());
        if c == '\u{4000}' {
            break;
        }
        c = char::from_u32(c as u32 + 1).unwrap();
    }
}

#[test]
fn numbers_in_decimal() {
    assert_eq!(decimal(0), "0");
    assert_eq!(decimal(7), "7");
    assert_eq!(decimal(10), "10");
    assert_eq!(decimal(4532), "4532");
    assert_eq!(decimal(u32::MAX as u64), "4294967295");
    assert_eq!(decimal(u64::MAX), "18446744073709551615");
}

#[test]
fn numbers_in_hexadecimal() {
    assert_eq!(lower_hex(0), "0");
    assert_eq!(lower_hex(0x1000), "1000");
    assert_eq!(lower_hex(0xabcdef), "abcdef");
    assert_eq!(lower_hex(u64::MAX), "ffffffffffffffff");
    assert_eq!(upper_hex_8(0), "00000000");
    assert_eq!(upper_hex_8(0xabc), "00000ABC");
    assert_eq!(upper_hex_8(0x5f3e_1a2b), "5F3E1A2B");
    assert_eq!(upper_hex_8(u32::MAX), "FFFFFFFF");
}

#[test]
fn text_is_pushed_behind_what_is_there() {
    let mut text: Vec<char> = vec!['a'];
    push_text(&mut text, "bc");
    push_decimal(&mut text, 12);
    assert_eq!(string_of(&text), "abc12");
    assert_eq!(chars_of("h\u{e9}"), vec!['h', '\u{e9}']);
}

#[test]
fn file_names_of_windows_paths() {
    assert_eq!(file_name("C:\\Windows\\System32\\ntdll.dll"), "ntdll.dll");
    assert_eq!(file_name("a.dll"), "a.dll");
    assert_eq!(file_name("dir/sub/x.pdb"), "x.pdb");
    assert_eq!(file_name("mixed\\dir/x.pdb"), "x.pdb");
    assert_eq!(file_name("\\Device\\HarddiskVolume3\\a b.exe"), "a b.exe");
    assert_eq!(file_name("dir\\"), "dir");
    assert_eq!(file_name("C:\\a\\dir\\/\\"), "dir");
    assert_eq!(file_name("a.dll/"), "a.dll");
    assert_eq!(file_name("\\"), "");
    assert_eq!(file_name("//\\"), "");
    assert_eq!(file_name(""), "");
}

#[test]
fn texts_are_found_in_texts() {
    assert!(text_contains("C:\\Program Files\\firefox.exe", "firefox"));
    assert!(text_contains("firefox", "firefox"));
    assert!(text_contains("firefox", ""));
    assert!(text_contains("", ""));
    assert!(!text_contains("", "x"));
    assert!(!text_contains("firefo", "firefox"));
    assert!(!text_contains("Firefox.exe", "firefox"));
    assert!(text_contains("aab", "ab"));
    let text = chars_of("abcabc");
    assert!(find_text(&text, &chars_of("cab")));
    assert!(matches_at(&text, &chars_of("bc"), 1));
    assert!(matches_at(&text, &chars_of("bc"), 4));
    assert!(!matches_at(&text, &chars_of("bc"), 5));
    assert!(!matches_at(&text, &chars_of("bc"), 2));
    assert!(!matches_at(&text, &chars_of("bc"), usize::MAX));
    assert!(matches_at(&text, &chars_of(""), 6));
}

#[test]
fn characters_are_found_in_texts() {
    assert_eq!(find_char(&chars_of("a#b#"), '#'), 1);
    assert_eq!(find_char(&chars_of("ab"), '#'), 2);
    assert_eq!(find_char(&chars_of(""), '#'), 0);
    assert_eq!(find_last_char(&chars_of("a#b#c"), '#'), Some(3));
    assert_eq!(find_last_char(&chars_of("#"), '#'), Some(0));
    assert_eq!(find_last_char(&chars_of("ab"), '#'), None);
    assert_eq!(find_last_char(&chars_of(""), '#'), None);
    assert!(same_text("abc", "abc"));
    assert!(!same_text("abc", "abd"));
    assert!(!same_text("abc", "ab"));
}
