use std::path::Path;

use svs::paths::{display_path, display_path_with_home, join_path};

#[test]
fn replaces_home_with_tilde() {
    let home = dirs::home_dir().expect("home dir exists");
    let input = home.join("Documents/slides.pdf");
    assert_eq!(display_path(input.to_str().unwrap()), "~/Documents/slides.pdf");
}

#[test]
fn leaves_non_home_path_unchanged() {
    let input = Path::new("/tmp/other/file.mp4");
    assert_eq!(display_path(input.to_str().unwrap()), "/tmp/other/file.mp4");
}

#[test]
fn handles_home_dir_itself() {
    let home = dirs::home_dir().expect("home dir exists");
    assert_eq!(display_path(home.to_str().unwrap()), "~");
}

#[test]
fn home_prefix_is_matched_by_component() {
    let home = Some("/home/ann".to_string());
    assert_eq!(display_path_with_home("/home/anna/x.pdf", home.clone()), "/home/anna/x.pdf");
    assert_eq!(display_path_with_home("/home/ann/x.pdf", home.clone()), "~/x.pdf");
    assert_eq!(display_path_with_home("/home/ann", Some("/home/ann/".to_string())), "~");
    assert_eq!(display_path_with_home("/home/ann/x", None), "/home/ann/x");
    assert_eq!(display_path_with_home("/etc/hosts", Some("/".to_string())), "~/etc/hosts");
}

#[test]
fn join_path_inserts_one_separator() {
    assert_eq!(join_path("/cache", "notes"), "/cache/notes");
    assert_eq!(join_path("/cache/", "notes"), "/cache/notes");
    assert_eq!(join_path("", "notes"), "notes");
    assert_eq!(join_path("/cache", "/abs"), "/abs");
}

/// `path` shown with `home` written `~`, computed with `std::path`.
fn shown_with_std(path: &str, home: &str) -> String {
    let path = Path::new(path);
    if let Ok(rest) = path.strip_prefix(home) {
        if rest == Path::new("") {
            return "~".to_string();
        }
        let mut buf = std::path::PathBuf::from("~");
        buf.push(rest);
        return buf.display().to_string();
    }
    path.display().to_string()
}

#[test]
fn home_prefix_ignores_repeated_separators_and_dots() {
    let home = Some("/h".to_string());
    assert_eq!(display_path_with_home("/h/./x", home.clone()), "~/x");
    assert_eq!(display_path_with_home("/h//x/", home.clone()), "~/x");
    assert_eq!(display_path_with_home("/h/x/./y", home.clone()), "~/x/./y");
    assert_eq!(display_path_with_home("/h/.", home.clone()), "~");
    assert_eq!(display_path_with_home("/hx", home.clone()), "/hx");
    assert_eq!(display_path_with_home("/h/x", Some("/h/./".to_string())), "~/x");
    assert_eq!(display_path_with_home("a/b", Some("a".to_string())), "~/b");
}

#[test]
fn display_agrees_with_path_strip_prefix() {
    let paths = [
        "", "/", "//", ".", "./", "./x", "x", "x/", "x/./y", "/h", "/h/", "/h/.", "/h/./",
        "/h//", "/h/x", "/h/x/", "/h/x/.", "/h//x", "/h/./x", "/h/x/./y", "/h/x//y//",
        "/hx", "/h/xy/z", "//h/x", "/./h/x", "h/x", "./h/x", "/h/..", "/h/../x", "/h/.x",
    ];
    let homes = ["/", "/h", "/h/", "/h/.", "//h", "/h/x", "h", "./h", ".", "/h/x/", "/./h"];
    for p in paths {
        for h in homes {
            assert_eq!(
                display_path_with_home(p, Some(h.to_string())),
                shown_with_std(p, h),
                "path {p:?} home {h:?}"
            );
        }
    }
}
