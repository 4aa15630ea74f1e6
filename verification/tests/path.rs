use fat32_parser::path::{path_segments, push_component, push_segments, resolve_path};

fn strings(items: &[&str]) -> Vec<String> {
    items.iter().map(|s| s.to_string()).collect()
}

#[test]
fn path_segments_drops_empty_segments() {
    assert_eq!(path_segments("/a/b"), strings(&["a", "b"]));
    assert_eq!(path_segments("//a//b/"), strings(&["a", "b"]));
    assert_eq!(path_segments("/"), strings(&[]));
    assert_eq!(path_segments(""), strings(&[]));
    assert_eq!(path_segments("a/b"), strings(&["a", "b"]));
    assert_eq!(path_segments("/HELLO.TXT"), strings(&["HELLO.TXT"]));
    assert_eq!(path_segments("/./.."), strings(&[".", ".."]));
}

#[test]
fn push_component_ignores_empty_and_dot() {
    let mut c = strings(&["a"]);
    push_component(&mut c, "");
    assert_eq!(c, strings(&["a"]));
    push_component(&mut c, ".");
    assert_eq!(c, strings(&["a"]));
}

#[test]
fn push_component_dot_dot_drops_the_last() {
    let mut c = strings(&["a", "b"]);
    push_component(&mut c, "..");
    assert_eq!(c, strings(&["a"]));
    push_component(&mut c, "..");
    assert_eq!(c, strings(&[]));
    push_component(&mut c, "..");
    assert_eq!(c, strings(&[]));
}

#[test]
fn push_component_adds_any_other_part() {
    let mut c = strings(&[]);
    push_component(&mut c, "DIR");
    push_component(&mut c, "...");
    push_component(&mut c, ".x");
    push_component(&mut c, " ");
    assert_eq!(c, strings(&["DIR", "...", ".x", " "]));
}

#[test]
fn push_segments_takes_each_segment_in_turn() {
    let mut c = strings(&["a"]);
    push_segments(&mut c, "b/./c/../d//");
    assert_eq!(c, strings(&["a", "b", "d"]));
    push_segments(&mut c, "../../../../x");
    assert_eq!(c, strings(&["x"]));
    push_segments(&mut c, "");
    assert_eq!(c, strings(&["x"]));
}

#[test]
fn resolve_path_examples() {
    assert_eq!(resolve_path("/DIR", ".."), "/");
    assert_eq!(resolve_path("/DIR", "FILE.TXT"), "/DIR/FILE.TXT");
    assert_eq!(resolve_path("/", "/AUTRE/XX"), "/AUTRE/XX");
}

#[test]
fn resolve_path_absolute_paths_ignore_the_current_directory() {
    assert_eq!(resolve_path("/A/B", "/C"), "/C");
    assert_eq!(resolve_path("/A/B", "/"), "/");
    assert_eq!(resolve_path("/A/B", "//C//D/"), "/C/D");
    assert_eq!(resolve_path("/A/B", "/C/../D/./E"), "/D/E");
    assert_eq!(resolve_path("/A/B", "/.."), "/");
}

#[test]
fn resolve_path_relative_paths_start_at_the_current_directory() {
    assert_eq!(resolve_path("/", "DIR"), "/DIR");
    assert_eq!(resolve_path("/A/B", "C"), "/A/B/C");
    assert_eq!(resolve_path("/A/B", "../C"), "/A/C");
    assert_eq!(resolve_path("/A/B", "../../../C"), "/C");
    assert_eq!(resolve_path("/A/B", "."), "/A/B");
    assert_eq!(resolve_path("/A/B", ""), "/A/B");
    assert_eq!(resolve_path("/A/./B/..", "C/"), "/A/C");
    assert_eq!(resolve_path("", ""), "/");
    assert_eq!(resolve_path("A", "B"), "/A/B");
}

#[test]
fn resolve_path_always_gives_an_absolute_path() {
    for current in ["/", "/A", "/A/B", "", "X", "/.."] {
        for path in ["", ".", "..", "a", "/a", "a/..", "../..", "//", "./x/"] {
            let r = resolve_path(current, path);
            assert!(r.starts_with('/'), "{current:?} {path:?} gave {r:?}");
            for part in r.split('/').skip(1) {
                if r != "/" {
                    assert!(!part.is_empty() && part != "." && part != "..");
                }
            }
        }
    }
}
