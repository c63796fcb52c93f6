use linuxy::text::{
    contains_str, decimal_exec, ends_with_str, failure_message, join_with_exec, lines_exec, lower, lower_unicode,
    pad_right_exec, replace_str, split_on_exec, starts_with_str, strip_prefixes_str, trim_exec,
};

fn chars(s: &str) -> Vec<char> {
    s.chars().collect()
}

fn text(v: &[char]) -> String {
    v.iter().collect()
}

const SAMPLES: [&str; 12] = [
    "",
    "plain",
    "  padded \t",
    "\u{a0}nbsp\u{3000}",
    "a\nb\r\nc",
    "trailing\n",
    "\r\n",
    "x\r\r\n",
    "fire\"jail\" \"q\"",
    "aaa",
    "ÄÖÜ Straße",
    "a;;b;",
];

#[test]
fn text_operations_follow_std() {
    for s in SAMPLES {
        let c = chars(s);
        assert_eq!(text(&trim_exec(&c)), s.trim(), "{s:?}");
        assert_eq!(text(&lower(&c)), s.to_ascii_lowercase(), "{s:?}");
        assert_eq!(text(&lower_unicode(&c)), s.to_lowercase(), "{s:?}");
        let ls: Vec<String> = lines_exec(&c).iter().map(|l| text(l)).collect();
        assert_eq!(ls, s.lines().collect::<Vec<_>>(), "{s:?}");
        let ps: Vec<String> = split_on_exec(&c, ';').iter().map(|l| text(l)).collect();
        assert_eq!(ps, s.split(';').collect::<Vec<_>>(), "{s:?}");
        for (pat, rep) in [("\"", ""), ("a", "b"), ("aa", "x"), ("\r\n", "\n")] {
            assert_eq!(text(&replace_str(&c, pat, rep)), s.replace(pat, rep), "{s:?} {pat:?}");
        }
        for p in ["a", "aa", " ", "pl"] {
            assert_eq!(text(&strip_prefixes_str(&c, p)), s.trim_start_matches(p), "{s:?} {p:?}");
            assert_eq!(starts_with_str(&c, p), s.starts_with(p));
            assert_eq!(ends_with_str(&c, p), s.ends_with(p));
            assert_eq!(contains_str(&c, p), s.contains(p));
        }
        assert_eq!(text(&pad_right_exec(&c, 8)), format!("{:<8}", s), "{s:?}");
    }
}

#[test]
fn text_numbers_and_joins() {
    for n in [0u64, 7, 10, 99, 100, 12345, u64::MAX] {
        assert_eq!(text(&decimal_exec(n)), n.to_string());
    }
    let parts = vec![chars("Graphics"), chars(""), chars("Art")];
    assert_eq!(text(&join_with_exec(&parts, &chars(";"))), "Graphics;;Art");
    assert_eq!(text(&join_with_exec(&vec![], &chars(";"))), "");
    assert_eq!(failure_message("Update failed: ", "  disk full\n"), "Update failed: disk full");
}
