use placeclient::text::{
    chars_of, ends_with, last_segment_of, parse_u16, push_decimal, push_signed_decimal,
    replace_all, split_chars, string_from_chars, trim_end,
};

fn s(x: &str) -> Vec<char> {
    x.chars().collect()
}

#[test]
fn decimal_rendering() {
    for n in [0u128, 7, 10, 65535, u128::MAX] {
        let mut out = Vec::new();
        push_decimal(&mut out, n);
        assert_eq!(out.iter().collect::<String>(), n.to_string());
    }
}

#[test]
fn signed_decimal_rendering() {
    for n in [0i64, -1, 42, i64::MIN, i64::MAX] {
        let mut out = Vec::new();
        push_signed_decimal(&mut out, n);
        assert_eq!(out.iter().collect::<String>(), n.to_string());
    }
}

#[test]
fn parse_u16_like_std() {
    for t in ["0", "65535", "65536", "+7", "+", "", "-1", "12a", "007", " 1", "99999999999", "٣"] {
        assert_eq!(parse_u16(&s(t)), t.parse::<u16>().ok(), "input {:?}", t);
    }
}

#[test]
fn split_like_std() {
    for t in ["a,b,c", "", ",", "a,,b,", "no separator"] {
        let got: Vec<String> = split_chars(&s(t), ',').into_iter().map(|v| v.into_iter().collect()).collect();
        let want: Vec<String> = t.split(',').map(|x| x.to_string()).collect();
        assert_eq!(got, want);
    }
}

#[test]
fn trim_end_like_std() {
    for t in ["abc  \n", "\t\u{3000}x\u{2028} ", "   ", "", "a\u{85}"] {
        let got: String = trim_end(&s(t)).into_iter().collect();
        assert_eq!(got, t.trim_end());
    }
}

#[test]
fn ends_with_like_std() {
    assert!(ends_with(&s("https://x/y/image"), &s("image")));
    assert!(!ends_with(&s("age"), &s("image")));
    assert!(ends_with(&s("abc"), &s("")));
}

#[test]
fn replace_like_std() {
    for (t, p, r) in [("aPUTb PUT", "PUT", "12"), ("aaaa", "aa", "b"), ("none", "x", "y"), ("{\"i\":\"TAG\"}", "TAG", "-3")] {
        let got: String = replace_all(&s(t), &s(p), &s(r)).into_iter().collect();
        assert_eq!(got, t.replace(p, r));
    }
}

#[test]
fn last_segment_like_split_last() {
    for t in ["https://a/b/c.png\n", "no-slash", "ends/", ""] {
        let got: String = last_segment_of(&s(t)).into_iter().collect();
        assert_eq!(got, t.split('/').last().unwrap());
    }
}

#[test]
fn chars_and_strings_round_trip() {
    let t = "héllo, wörld";
    assert_eq!(string_from_chars(chars_of(t)), t);
}
