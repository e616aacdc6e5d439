use localcoder::path;
use std::path::{Component, Path};

const SAMPLES: [&str; 20] = [
    "", "/", "//", ".", "..", "./", "/.", "a", "a/", "a/b", "/a/b", "/a//b/", "a/./b", "./a/b",
    "./a/./b/.", "../a", "a/..", "/a/../b", "a//", "/home/user/project/src/lib.rs",
];

fn text_of(path: &Path) -> String {
    path.to_str().unwrap().to_string()
}

#[test]
fn joining_is_what_path_does() {
    for base in SAMPLES {
        for p in SAMPLES {
            assert_eq!(path::join_path(base, p), text_of(&Path::new(base).join(p)));
        }
    }
}

#[test]
fn parents_are_what_path_gives() {
    for p in SAMPLES {
        assert_eq!(path::parent(p), Path::new(p).parent().map(text_of), "{:?}", p);
    }
}

#[test]
fn file_names_are_what_path_gives() {
    for p in SAMPLES {
        let expected = Path::new(p)
            .file_name()
            .map(|name| name.to_str().unwrap().to_string());
        assert_eq!(path::file_name(p), expected, "{:?}", p);
    }
}

#[test]
fn absolute_paths_are_what_path_says() {
    for p in SAMPLES {
        assert_eq!(path::is_absolute_path(p), Path::new(p).is_absolute());
    }
}

#[test]
fn components_are_what_path_gives() {
    for p in SAMPLES {
        let expected: Vec<String> = Path::new(p)
            .components()
            .filter(|component| *component != Component::RootDir)
            .map(|component| component.as_os_str().to_str().unwrap().to_string())
            .collect();
        assert_eq!(path::path_components(p), expected, "{:?}", p);
    }
}

#[test]
fn stripping_a_base_is_what_path_does() {
    for p in SAMPLES {
        for base in SAMPLES {
            let expected = Path::new(p).strip_prefix(base).ok().map(text_of);
            assert_eq!(path::strip_base(p, base), expected, "{:?} {:?}", p, base);
        }
    }
}

#[test]
fn leading_components_can_be_joined_again() {
    let parts = path::path_components("/a/./b//c/d.rs");
    let lead: Vec<String> = parts[..2].to_vec();
    let again = format!("/{}", localcoder::text::join(&lead, "/"));
    assert_eq!(again, "/a/b");
    assert_eq!(path::path_components(&again), lead);
}

#[test]
fn paths_are_the_same_where_path_says_so() {
    for a in SAMPLES {
        for b in SAMPLES {
            assert_eq!(path::is_same_path(a, b), Path::new(a) == Path::new(b), "{:?} {:?}", a, b);
        }
    }
}
