use linuxy::path::{extension_exec, file_name_exec, file_stem_exec, is_absolute_exec, join_exec};
use std::path::Path;

fn chars(s: &str) -> Vec<char> {
    s.chars().collect()
}

fn text(v: Option<Vec<char>>) -> Option<String> {
    v.map(|c| c.into_iter().collect())
}

const SAMPLES: [&str; 16] = [
    "", "/", "a", "/a/b.c", "a/b/", "a/b/.", "a/..", "..", ".", "/x/.hidden", "/x/y.tar.gz", "name.", "a//b",
    "/a/b/./", ".bashrc", "dir/file.AppImage",
];

#[test]
fn path_components_follow_std() {
    for s in SAMPLES {
        let p = Path::new(s);
        assert_eq!(text(file_name_exec(&chars(s))), p.file_name().map(|o| o.to_string_lossy().into_owned()), "{s}");
        assert_eq!(text(extension_exec(&chars(s))), p.extension().map(|o| o.to_string_lossy().into_owned()), "{s}");
        assert_eq!(text(file_stem_exec(&chars(s))), p.file_stem().map(|o| o.to_string_lossy().into_owned()), "{s}");
        assert_eq!(is_absolute_exec(&chars(s)), p.is_absolute(), "{s}");
    }
}

#[test]
fn path_join_follows_std() {
    for base in ["", "/a", "/a/", "rel"] {
        for q in ["b", "/abs", "c/d", ""] {
            let got: String = join_exec(&chars(base), &chars(q)).into_iter().collect();
            assert_eq!(got, Path::new(base).join(q).to_string_lossy(), "{base} + {q}");
        }
    }
}
