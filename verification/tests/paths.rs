use std::path::{Component as StdComponent, Path, PathBuf};

use zed_prj_workspace::components;
use zed_prj_workspace::components::Component;
use zed_prj_workspace::order;
use zed_prj_workspace::paths::{
    compute_paths_order, normalize_path, parse_workspace_paths, paths_equal,
    reconstruct_ordered_paths, relative_path,
};

fn texts(v: &[&str]) -> Vec<String> {
    v.iter().map(|t| t.to_string()).collect()
}

#[test]
fn normalize_resolves_dotdot() {
    assert_eq!(PathBuf::from(normalize_path("/a/b/../c")), PathBuf::from("/a/c"));
}

#[test]
fn normalize_resolves_dot() {
    assert_eq!(PathBuf::from(normalize_path("/a/./b/./c")), PathBuf::from("/a/b/c"));
}

#[test]
fn normalize_multiple_dotdot() {
    assert_eq!(PathBuf::from(normalize_path("/a/b/c/../../d")), PathBuf::from("/a/d"));
}

#[test]
fn normalize_already_clean() {
    assert_eq!(PathBuf::from(normalize_path("/a/b/c")), PathBuf::from("/a/b/c"));
}

#[test]
fn normalize_root_dotdot() {
    let result = PathBuf::from(normalize_path("/a/../.."));
    assert!(result == PathBuf::from("/") || result == PathBuf::from("/.."));
    assert_eq!(normalize_path("/a/../.."), "/..");
}

#[test]
fn relative_child() {
    assert_eq!(PathBuf::from(relative_path("/a/b", "/a/b/c/d")), PathBuf::from("c/d"));
}

#[test]
fn relative_sibling() {
    assert_eq!(PathBuf::from(relative_path("/a/b", "/a/c")), PathBuf::from("../c"));
}

#[test]
fn relative_same() {
    assert_eq!(PathBuf::from(relative_path("/a/b", "/a/b")), PathBuf::from("."));
}

#[test]
fn relative_deep_sibling() {
    assert_eq!(PathBuf::from(relative_path("/a/b/c", "/a/d/e")), PathBuf::from("../../d/e"));
}

#[test]
fn equal_same_path() {
    assert!(paths_equal("/a/b/c", "/a/b/c"));
}

#[test]
fn equal_with_dotdot() {
    assert!(paths_equal("/a/b/../c", "/a/c"));
}

#[test]
fn equal_with_dot() {
    assert!(paths_equal("/a/./b", "/a/b"));
}

#[test]
fn not_equal_different() {
    assert!(!paths_equal("/a/b", "/a/c"));
}

#[test]
fn parse_single() {
    let paths = parse_workspace_paths("/Users/test/project1");
    assert_eq!(paths, texts(&["/Users/test/project1"]));
}

#[test]
fn parse_multi() {
    let paths = parse_workspace_paths("/Users/test/a\n/Users/test/b");
    assert_eq!(paths, texts(&["/Users/test/a", "/Users/test/b"]));
}

#[test]
fn parse_empty() {
    assert!(parse_workspace_paths("").is_empty());
}

#[test]
fn parse_with_whitespace() {
    let paths = parse_workspace_paths("  /a  \n  /b  \n\n  /c  ");
    assert_eq!(paths, texts(&["/a", "/b", "/c"]));
}

#[test]
fn reconstruct_sequential_order() {
    let paths = texts(&["/a", "/b", "/c"]);
    let ordered = reconstruct_ordered_paths(&paths, "0,1,2");
    assert_eq!(ordered, paths);
}

#[test]
fn reconstruct_shuffled_order() {
    let paths = texts(&["/a", "/b", "/c"]);
    let ordered = reconstruct_ordered_paths(&paths, "2,0,1");
    assert_eq!(ordered, texts(&["/b", "/c", "/a"]));
}

#[test]
fn reconstruct_empty_order_returns_lex() {
    let paths = texts(&["/a", "/b"]);
    let ordered = reconstruct_ordered_paths(&paths, "");
    assert_eq!(ordered, paths);
}

#[test]
fn reconstruct_malformed_order_returns_lex() {
    let paths = texts(&["/a", "/b"]);
    let ordered = reconstruct_ordered_paths(&paths, "0,1,2");
    assert_eq!(ordered, paths);
}

#[test]
fn reconstruct_real_example() {
    let paths = texts(&[
        "/codes/_my__jdbox",
        "/codes/_topic/_my__cursor-jwt-decoder",
        "/codes/_topic/websession-kimi",
        "/codes-repos/gh-keats__jsonwebtoken",
        "/codes-repos/gh-libyal__dtformats",
        "/codes-repos/gh-saying121__tidy-browser",
    ]);
    let ordered = reconstruct_ordered_paths(&paths, "0,4,1,5,2,3");
    assert_eq!(ordered[0], "/codes/_my__jdbox");
    assert_eq!(ordered[1], "/codes/_topic/websession-kimi");
    assert_eq!(ordered[2], "/codes-repos/gh-libyal__dtformats");
    assert_eq!(ordered[3], "/codes-repos/gh-saying121__tidy-browser");
    assert_eq!(ordered[4], "/codes/_topic/_my__cursor-jwt-decoder");
    assert_eq!(ordered[5], "/codes-repos/gh-keats__jsonwebtoken");
}

#[test]
fn compute_order_identity() {
    let paths = texts(&["/a", "/b", "/c"]);
    assert_eq!(compute_paths_order(&paths, &paths), "0,1,2");
}

#[test]
fn compute_order_reversed() {
    let ordered = texts(&["/c", "/b", "/a"]);
    let sorted = texts(&["/a", "/b", "/c"]);
    assert_eq!(compute_paths_order(&ordered, &sorted), "2,1,0");
}

#[test]
fn compute_order_roundtrip() {
    let sorted = texts(&["/a", "/b", "/c", "/d"]);
    let original_order = "2,0,3,1";
    let ordered = reconstruct_ordered_paths(&sorted, original_order);
    let computed = compute_paths_order(&ordered, &sorted);
    assert_eq!(computed, original_order);
}

/// Written and read again, an order displays the same paths.
#[test]
fn computed_order_displays_the_paths() {
    let sorted = texts(&["/a", "/b", "/c", "/d"]);
    let ordered = texts(&["/d", "/a", "/c", "/b"]);
    let order = compute_paths_order(&ordered, &sorted);
    assert_eq!(order, "1,3,2,0");
    assert_eq!(reconstruct_ordered_paths(&sorted, &order), ordered);
}

#[test]
fn reconstruct_refuses_positions_out_of_range() {
    let paths = texts(&["/a", "/b", "/c"]);
    assert_eq!(reconstruct_ordered_paths(&paths, "0,1,3"), paths);
    assert_eq!(reconstruct_ordered_paths(&paths, "a,b,c"), paths);
    assert_eq!(reconstruct_ordered_paths(&paths, "2,x,0,1"), paths);
    let two = texts(&["/a", "/b"]);
    assert_eq!(reconstruct_ordered_paths(&two, "1,x,0"), two);
    assert_eq!(reconstruct_ordered_paths(&two, "1,,0"), two);
}

#[test]
fn normalize_keeps_relative_paths_relative() {
    assert_eq!(normalize_path("./a/../b"), "b");
    assert_eq!(normalize_path("../a"), "../a");
    assert_eq!(normalize_path("a/.."), ".");
    assert_eq!(normalize_path(""), ".");
    assert_eq!(normalize_path("/"), "/");
}

/// Normalizing again changes nothing, and normal paths are equal only if they
/// are the same.
#[test]
fn normalize_is_idempotent() {
    for p in ["/a/./b/../c", "../x/..", "/..", "a//b/", "", "./."] {
        let n = normalize_path(p);
        assert_eq!(normalize_path(&n), n, "{}", p);
        assert!(paths_equal(&n, p));
    }
}

/// The relative path leads from the base back to the target.
#[test]
fn relative_path_leads_back() {
    for (base, target) in [
        ("/a/b", "/a/b/c/d"),
        ("/a/b", "/a/c"),
        ("/a/b", "/a/b"),
        ("/a/b/c", "/x"),
        ("/", "/a"),
        ("/a/./b", "/a/c/../d"),
    ] {
        let r = relative_path(base, target);
        assert!(paths_equal(&components::join_path(base, &r), target), "{} {}", base, target);
    }
}

/// Where one path is absolute and the other is not, there may be no way.
#[test]
fn relative_path_between_absolute_and_relative() {
    assert_eq!(relative_path("a", "/b"), "/b");
    assert_eq!(relative_path("/a", "b"), "b");
}

#[test]
fn components_are_those_of_std() {
    for p in [
        "", "/", "//", ".", "..", "./", "/.", "a", "a/", "/a/b", "a//b", "./a", "a/./b", "/./a",
        "../a/..", "a/..", "/a/../b/.", ".a", "a.b.c", "/x y/ü",
    ] {
        let ours: Vec<String> = components::split_path(p)
            .iter()
            .map(|c| match c {
                Component::RootDir => "R".to_string(),
                Component::CurDir => "C".to_string(),
                Component::ParentDir => "P".to_string(),
                Component::Normal(n) => format!("N{}", n),
            })
            .collect();
        let std: Vec<String> = Path::new(p)
            .components()
            .map(|c| match c {
                StdComponent::RootDir => "R".to_string(),
                StdComponent::CurDir => "C".to_string(),
                StdComponent::ParentDir => "P".to_string(),
                StdComponent::Normal(n) => format!("N{}", n.to_string_lossy()),
                StdComponent::Prefix(_) => unreachable!(),
            })
            .collect();
        assert_eq!(ours, std, "{}", p);
    }
}

#[test]
fn path_functions_are_those_of_std() {
    let all = [
        "", "/", ".", "..", "a", "a/", "/a", "/a/b", "a/b/", "a/.", "a/..", "./a", ".a", "a.b",
        "a.b.c", "/x/.hidden", "/x/a.", "x/.tar.gz", "/p/a.code-workspace",
    ];
    for p in all {
        let std = Path::new(p);
        assert_eq!(components::is_absolute(p), std.is_absolute(), "{}", p);
        let name = std.file_name().map(|n| n.to_string_lossy().into_owned());
        assert_eq!(components::file_name_of(p), name, "{}", p);
        let stem = std.file_stem().map(|n| n.to_string_lossy().into_owned());
        assert_eq!(components::file_stem_of(p), stem, "{}", p);
        let extension = std.extension().map(|n| n.to_string_lossy().into_owned());
        assert_eq!(components::extension_of(p), extension, "{}", p);
        let parent = components::parent_of(p).map(PathBuf::from);
        assert_eq!(parent, std.parent().map(PathBuf::from), "{}", p);
        let replaced = PathBuf::from(components::replace_extension(p, "tmp"));
        assert_eq!(replaced, std.with_extension("tmp"), "{}", p);
        for q in all {
            assert_eq!(components::join_path(p, q), std.join(q).to_string_lossy(), "{} {}", p, q);
            assert_eq!(components::is_same_path(p, q), std == Path::new(q), "{} {}", p, q);
            assert_eq!(components::path_lt(p, q), std < Path::new(q), "{} {}", p, q);
            let stripped = components::strip_prefix(p, q).map(PathBuf::from);
            assert_eq!(stripped, std.strip_prefix(q).ok().map(PathBuf::from), "{} {}", p, q);
        }
    }
}

#[test]
fn path_order_goes_by_components() {
    assert!(components::path_lt("/a/b", "/a-b"));
    assert!(!components::path_lt("/a-b", "/a/b"));
}

#[test]
fn positions_are_read_and_written() {
    assert_eq!(order::parse_positions("2,0,1"), Some(vec![2, 0, 1]));
    assert_eq!(order::parse_positions(" 2 ,+1"), Some(vec![2, 1]));
    assert_eq!(order::parse_positions("2,x,1"), None);
    assert_eq!(order::parse_positions("2,-3"), None);
    assert_eq!(order::parse_positions("1,0,"), None);
    assert_eq!(order::parse_positions(""), None);
    assert_eq!(order::write_positions(&[2, 0, 1]), "2,0,1");
    assert_eq!(order::write_positions(&[]), "");
    assert_eq!(order::sort_by_position(&[2, 0, 1]), vec![1, 2, 0]);
}
