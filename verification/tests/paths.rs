use std::path::{Path, PathBuf};
use wifly::paths::{default_shared_dir, join_path, path_file_name, path_under, paths_equal};

const PATHS: &[&str] = &[
    "", "/", "//", ".", "..", "./", "a", "a/", "a//b", "a/./b", "./a", "../a", "/a/b", "/a/b/",
    "/a/../b", "a/..", "/.", "/./a", ".a", "a.", "..a", "a/.", "/tmp/x", "/tmp/x/", "/tmp//x",
    "./.", "x/./", "/home/u/Downloads/Wifly", "/home/u/Downloads/Wifly/f.txt",
];

#[test]
fn path_equality_follows_components() {
    for a in PATHS {
        for b in PATHS {
            assert_eq!(paths_equal(a, b), Path::new(a) == Path::new(b), "{:?} vs {:?}", a, b);
        }
    }
}

#[test]
fn path_prefix_follows_components() {
    for a in PATHS {
        for b in PATHS {
            assert_eq!(path_under(a, b), Path::new(a).starts_with(b), "{:?} under {:?}", a, b);
        }
    }
}

#[test]
fn path_name_and_join_follow_std() {
    for a in PATHS {
        let expected = Path::new(a).file_name().map(|n| n.to_string_lossy().to_string());
        assert_eq!(path_file_name(a), expected, "name of {:?}", a);
        for b in PATHS {
            let j = PathBuf::from(a).join(b);
            assert_eq!(join_path(a, b), j.to_string_lossy(), "{:?} join {:?}", a, b);
        }
    }
}

#[test]
fn shared_dir_defaults() {
    assert_eq!(
        default_shared_dir(Some("/home/ana".to_string()), Some("C:\\Users".to_string())),
        "/home/ana/Downloads/Wifly"
    );
    assert_eq!(default_shared_dir(None, Some("/users/bo/".to_string())), "/users/bo/Downloads/Wifly");
    assert_eq!(default_shared_dir(None, None), "/tmp/wifly-shared");
}
