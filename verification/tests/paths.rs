use deck::paths::{extension, file_name, file_stem, join, parent, relative_to, strip_prefix};

#[test]
fn relative_to_computes_dotdot_paths() {
    assert_eq!(relative_to("/a/b", "/a/b/c/t.wav"), "c/t.wav");
    assert_eq!(relative_to("/a/b", "/a/x/t.wav"), "../x/t.wav");
}

#[test]
fn relative_to_without_a_shared_root_keeps_the_target() {
    assert_eq!(relative_to("a/b", "/x/t.wav"), "/x/t.wav");
    assert_eq!(relative_to("/a/b/c", "/a/t.wav"), "../../t.wav");
}

#[test]
fn names_stems_and_extensions() {
    assert_eq!(file_name("/music/a.flac").as_deref(), Some("a.flac"));
    assert_eq!(file_name("/music/..").as_deref(), None);
    assert_eq!(file_name("/").as_deref(), None);
    assert_eq!(extension("/music/a.tar.gz").as_deref(), Some("gz"));
    assert_eq!(extension("/music/.hidden").as_deref(), None);
    assert_eq!(file_stem("/music/a.tar.gz").as_deref(), Some("a.tar"));
    assert_eq!(file_stem("/music/.hidden").as_deref(), Some(".hidden"));
}

#[test]
fn parents_and_joins() {
    assert_eq!(parent("/a/b").as_deref(), Some("/a"));
    assert_eq!(parent("/a").as_deref(), Some("/"));
    assert_eq!(parent("/"), None);
    assert_eq!(parent("a").as_deref(), Some(""));
    assert_eq!(join("/a", "b"), "/a/b");
    assert_eq!(join("/a/", "b"), "/a/b");
    assert_eq!(join("/a", "/b"), "/b");
    assert_eq!(join("", "b"), "b");
}

#[test]
fn strip_prefix_by_components() {
    assert_eq!(strip_prefix("/m/a/b.flac", "/m").as_deref(), Some("a/b.flac"));
    assert_eq!(strip_prefix("/m/a", "/m/a").as_deref(), Some(""));
    assert_eq!(strip_prefix("/music", "/m"), None);
}

fn resolve_dots(path: &str) -> String {
    let mut parts: Vec<&str> = Vec::new();
    for piece in path.split('/') {
        if piece.is_empty() || piece == "." {
            continue;
        }
        if piece == ".." {
            parts.pop();
        } else {
            parts.push(piece);
        }
    }
    format!("/{}", parts.join("/"))
}

#[test]
fn relative_hint_leads_back_to_the_target() {
    let cases = [
        ("/music/sets", "/music/tracks/a.wav"),
        ("/music/sets/friday", "/music/sets/friday/b.flac"),
        ("/music", "/other/deep/c.mp3"),
        ("/", "/x.wav"),
    ];
    for (base, target) in cases {
        let hint = relative_to(base, target);
        assert!(!hint.starts_with('/'), "{hint}");
        assert_eq!(resolve_dots(&join(base, &hint)), target);
    }
}
