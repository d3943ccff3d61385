use std::path::{Component, Path, PathBuf};

use snerdmq::path::{with_file_name, PathPart};
use snerdmq::rate_limiter::RateLimiter;

fn parts(path: &Path) -> Vec<PathPart> {
    path.components()
        .map(|c| match c {
            Component::Prefix(p) => PathPart::Prefix(p.as_os_str().to_str().unwrap().to_string()),
            Component::RootDir => PathPart::RootDir,
            Component::CurDir => PathPart::CurDir,
            Component::ParentDir => PathPart::ParentDir,
            Component::Normal(n) => PathPart::Normal(n.to_str().unwrap().to_string()),
        })
        .collect()
}

fn joined(parts: &[PathPart]) -> PathBuf {
    let mut path = PathBuf::new();
    for part in parts {
        match part {
            PathPart::Prefix(p) => path.push(p),
            PathPart::RootDir => path.push("/"),
            PathPart::CurDir => path.push("."),
            PathPart::ParentDir => path.push(".."),
            PathPart::Normal(n) => path.push(n),
        }
    }
    path
}

#[test]
fn file_names_are_replaced_as_by_the_standard_library() {
    for text in [
        ".snerdata/tasks/tasks.log", "/mnt/shared/tasks.log", "tasks.log", "/", "", ".", "..",
        "a/..", "../x", "a//b/", "./a", "/a",
    ] {
        let path = PathBuf::from(text);
        let mut expected = path.clone();
        expected.set_file_name("other.json");
        let built = joined(&with_file_name(&parts(&path), "other.json"));
        assert_eq!(built, expected, "{}", text);
    }
}

#[test]
fn limiter_keeps_its_file_next_to_the_log() {
    let limiter = RateLimiter::new(&parts(Path::new(".snerdata/tasks/tasks.log")));
    assert_eq!(joined(limiter.file_path()), PathBuf::from(".snerdata/tasks/rate_limits.json"));
}
