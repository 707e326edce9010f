use neltex::text;

fn chars(s: &str) -> Vec<char> {
    s.chars().collect()
}

fn strings(v: Vec<&[char]>) -> Vec<String> {
    v.iter().map(|c| c.iter().collect::<String>()).collect()
}

#[test]
fn white_space_is_that_of_unicode() {
    let mut n: u32 = 0;
    while n < 0x110000 {
        if let Some(c) = char::from_u32(n) {
            assert_eq!(text::white(c), c.is_whitespace(), "{:x}", n);
        }
        n += 1;
    }
}

#[test]
fn trimming_agrees_with_the_library() {
    for s in ["", " ", "a", " a ", "\t a b \r\n", "\u{3000}x\u{2003}", "no"] {
        let c = chars(s);
        assert_eq!(text::string_of(text::trimmed(&c)), s.trim());
    }
}

#[test]
fn lines_agree_with_the_library() {
    for s in ["", "\n", "a", "a\n", "a\nb", "a\r\nb\r\n", "a\n\nb", "x\r", "\r\n", "a\rb\n", "\n\n"] {
        let c = chars(s);
        let want: Vec<String> = s.lines().map(|l| l.to_string()).collect();
        assert_eq!(strings(text::line_list(&c)), want, "{:?}", s);
    }
}

#[test]
fn fields_agree_with_the_library() {
    for s in ["", ",", "a", "a,b", "a,b,c,d", ",,", "a,,b"] {
        let c = chars(s);
        for n in 1..5 {
            let want: Vec<String> = s.splitn(n, ',').map(|l| l.to_string()).collect();
            assert_eq!(strings(text::field_list(&c, ',', n)), want);
        }
        let want: Vec<String> = s.split(',').map(|l| l.to_string()).collect();
        assert_eq!(strings(text::split_list(&c, ',')), want);
    }
}

#[test]
fn words_agree_with_the_library() {
    for s in ["", "  ", "a", " a  b\tc\n", "Uid:\t1000\t1000", "\u{a0}x\u{a0}"] {
        let c = chars(s);
        let want: Vec<String> = s.split_whitespace().map(|l| l.to_string()).collect();
        assert_eq!(strings(text::word_list(&c)), want);
    }
}

#[test]
fn numbers_agree_with_the_library() {
    let long = "0".repeat(40) + "7";
    for s in [
        "", "+", "-", "0", "7", "+7", "-0", "00012", "4294967295", "4294967296", "1a", " 1", "1 ",
        "18446744073709551615", "18446744073709551616", "99999999999999999999999", "++1",
        long.as_str(),
    ] {
        let c = chars(s);
        assert_eq!(text::parse_number(&c, u64::MAX), s.parse::<u64>().ok(), "{:?}", s);
        let small = text::parse_number(&c, u32::MAX as u64).map(|n| n as u32);
        assert_eq!(small, s.parse::<u32>().ok(), "{:?}", s);
    }
}

#[test]
fn numbers_survive_being_written() {
    for n in [0u64, 7, 10, 99, 100, 1000, 4294967295, u64::MAX] {
        let mut s = String::from("n=");
        text::push_number(&mut s, n);
        assert_eq!(s, format!("n={}", n));
        let c = chars(&s[2..]);
        assert_eq!(text::parse_number(&c, u64::MAX), Some(n));
    }
}

#[test]
fn parts_agree_with_the_library() {
    for s in ["", "/dev/nvidia0", "x/dev/nvidia", "/dev/nvidi", "/dev/null", "/dev/dev/nvidiactl"] {
        assert_eq!(text::contains_part(s, "/dev/nvidia"), s.contains("/dev/nvidia"));
    }
    assert!(text::contains_part("", ""));
}
