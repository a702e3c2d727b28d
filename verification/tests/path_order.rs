use agent_skills::paths::{components_of, path_before, path_sort_order};

fn strings(v: &[&str]) -> Vec<String> {
    v.iter().map(|s| s.to_string()).collect()
}

#[test]
fn components_follow_std_path() {
    assert_eq!(
        components_of("/usr/./lib/../x/"),
        vec![
            (1u8, String::new()),
            (4u8, "usr".to_string()),
            (4u8, "lib".to_string()),
            (3u8, String::new()),
            (4u8, "x".to_string()),
        ]
    );
    assert_eq!(components_of("./a"), vec![(2u8, String::new()), (4u8, "a".to_string())]);
    assert_eq!(components_of("."), vec![(2u8, String::new())]);
    assert_eq!(components_of("a/./b"), vec![(4u8, "a".to_string()), (4u8, "b".to_string())]);
    assert_eq!(components_of(""), Vec::<(u8, String)>::new());
}

#[test]
fn paths_compare_component_by_component() {
    assert!(path_before("a", "b"));
    assert!(!path_before("b", "a"));
    assert!(path_before("a", "a/b"));
    assert!(!path_before("a/b", "a"));
    // As strings "a-b" < "a/b"; as paths the component "a" comes first.
    assert!(path_before("a/b", "a-b"));
    assert!(!path_before("a-b", "a/b"));
    assert!(path_before("/x", "a"));
    assert!(path_before("./a", "a"));
    assert!(path_before("..", "a"));
    assert!(!path_before("a//b", "a/b"));
    assert!(!path_before("a/b", "a//b"));
    assert!(!path_before("a/b/", "a/b"));
}

#[test]
fn sort_order_matches_pathbuf_sort() {
    let paths = strings(&["skills/zeta", "plugins/p/skills/alpha", "skills/a-b", "skills/a"]);
    let order = path_sort_order(&paths);
    assert_eq!(order, vec![1, 3, 2, 0]);

    let mut bufs: Vec<std::path::PathBuf> = paths.iter().map(std::path::PathBuf::from).collect();
    bufs.sort();
    let by_order: Vec<std::path::PathBuf> =
        order.iter().map(|&i| std::path::PathBuf::from(&paths[i])).collect();
    assert_eq!(bufs, by_order);
}

#[test]
fn sort_order_is_stable() {
    let paths = strings(&["a/b", "a//b", "a"]);
    assert_eq!(path_sort_order(&paths), vec![2, 0, 1]);
    assert_eq!(path_sort_order(&Vec::new()), Vec::<usize>::new());
}

#[test]
fn sort_order_differs_from_string_order() {
    let paths = strings(&["x/a-b", "x/a/c"]);
    assert_eq!(path_sort_order(&paths), vec![1, 0]);
    let mut s = paths.clone();
    s.sort();
    assert_eq!(s, strings(&["x/a-b", "x/a/c"]));
}
