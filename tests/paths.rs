use wineyard::paths;

fn s(v: &[&str]) -> Vec<String> {
    v.iter().map(|x| x.to_string()).collect()
}

#[test]
fn normalize_boundaries() {
    assert_eq!(paths::normalize("/"), Some("/".to_string()));
    assert_eq!(paths::normalize(""), None);
    assert_eq!(paths::normalize("a/../"), None);
}

#[test]
fn normalize_cases() {
    assert_eq!(paths::normalize("a/b/c").as_deref(), Some("a/b/c"));
    assert_eq!(paths::normalize("/a/b/c").as_deref(), Some("/a/b/c"));
    assert_eq!(paths::normalize("a/./c").as_deref(), Some("a/c"));
    assert_eq!(paths::normalize("a/../c").as_deref(), Some("c"));
    assert_eq!(paths::normalize("a/../c/./").as_deref(), Some("c"));
    assert_eq!(paths::normalize("./a//\\./../b").as_deref(), Some("b"));
    assert_eq!(paths::normalize(" ").as_deref(), Some(" "));
    assert_eq!(paths::normalize("."), None);
    assert_eq!(paths::normalize(".."), None);
    assert_eq!(paths::normalize("./.."), None);
    assert_eq!(paths::normalize("a/.."), None);
}

#[test]
fn join_cases() {
    assert_eq!(paths::join(&s(&["a", "b", "c"])).as_deref(), Some("a/b/c"));
    assert_eq!(paths::join(&s(&["/", "a", "b", "c"])).as_deref(), Some("/a/b/c"));
    assert_eq!(paths::join(&s(&["a", "..", "b"])).as_deref(), Some("b"));
    assert_eq!(paths::join(&s(&[".", "a", ".", "b"])).as_deref(), Some("a/b"));
    assert_eq!(paths::join(&s(&[""])), None);
    assert_eq!(paths::join(&s(&["."])), None);
    assert_eq!(paths::join(&s(&[".."])), None);
    assert_eq!(paths::join(&s(&[".", ".."])), None);
    assert_eq!(paths::join(&s(&["a", ".."])), None);
    assert_eq!(paths::join(&s(&["/"])).as_deref(), Some("/"));
}

#[test]
fn parts_parent_file_name_cases() {
    assert_eq!(paths::parts("a/b/c"), Some(s(&["a", "b", "c"])));
    assert_eq!(paths::parts("a/./c"), Some(s(&["a", "c"])));
    assert_eq!(paths::parts("a/./c/.."), Some(s(&["a"])));
    assert_eq!(paths::parts("\\a/b/// /c"), Some(s(&["a", "b", " ", "c"])));
    assert_eq!(paths::parts(""), None);
    assert_eq!(paths::parts("."), None);
    assert_eq!(paths::parts("a/.."), None);

    assert_eq!(paths::parent("a/b/c").as_deref(), Some("a/b"));
    assert_eq!(paths::parent("/a/b/c").as_deref(), Some("/a/b"));
    assert_eq!(paths::parent("a\\./b").as_deref(), Some("a"));
    assert_eq!(paths::parent("a"), None);
    assert_eq!(paths::parent("a/."), None);
    assert_eq!(paths::parent("a/../b"), None);

    assert_eq!(paths::file_name("/").as_deref(), Some("/"));
    assert_eq!(paths::file_name("a").as_deref(), Some("a"));
    assert_eq!(paths::file_name("a/b/c").as_deref(), Some("c"));
    assert_eq!(paths::file_name("/a/b/c").as_deref(), Some("c"));
    assert_eq!(paths::file_name("a\\./b").as_deref(), Some("b"));
    assert_eq!(paths::file_name("."), None);
    assert_eq!(paths::file_name("a/.."), None);
}
