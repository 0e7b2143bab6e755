use fs_util::collect::{
    drop_repeats, roots_or_current, FileCollector, Visit, WalkEntry, WalkItem, WalkedRoot,
};
use fs_util::path::{FsPath, Segment};
use std::path::{Component, Path};

fn collect_path(text: &str) -> FsPath {
    FsPath::from_segments(
        Path::new(text)
            .components()
            .map(|c| match c {
                Component::Prefix(p) => Segment::Prefix(p.as_os_str().to_string_lossy().into_owned()),
                Component::RootDir => Segment::RootDir,
                Component::CurDir => Segment::CurDir,
                Component::ParentDir => Segment::ParentDir,
                Component::Normal(n) => Segment::Normal(n.to_string_lossy().into_owned()),
            })
            .collect(),
    )
}

fn collect_entry(depth: usize, text: &str, is_dir: bool) -> WalkItem {
    WalkItem::Entry(WalkEntry {
        depth,
        path: collect_path(text),
        is_dir,
        canonical: Some(collect_path(text)),
    })
}

// dir.ts
// ├── a.ts
// ├── b.js
// ├── child
// |   ├── node_modules
// |   |   └── node_modules.js
// |   ├── .git
// |   |   └── git.js
// │   ├── e.mjs
// │   ├── f.mjsx
// │   ├── .foo.TS
// │   └── README.md
// ├── c.tsx
// ├── d.jsx
// └── ignore
//     ├── g.d.ts
//     └── .gitignore
fn collect_tree() -> Vec<WalkItem> {
    vec![
        collect_entry(0, "/t/dir.ts", true),
        collect_entry(1, "/t/dir.ts/a.ts", false),
        collect_entry(1, "/t/dir.ts/b.js", false),
        collect_entry(1, "/t/dir.ts/child", true),
        collect_entry(2, "/t/dir.ts/child/node_modules", true),
        collect_entry(3, "/t/dir.ts/child/node_modules/node_modules.js", false),
        collect_entry(2, "/t/dir.ts/child/.git", true),
        collect_entry(3, "/t/dir.ts/child/.git/git.js", false),
        collect_entry(2, "/t/dir.ts/child/e.mjs", false),
        collect_entry(2, "/t/dir.ts/child/f.mjsx", false),
        collect_entry(2, "/t/dir.ts/child/.foo.TS", false),
        collect_entry(2, "/t/dir.ts/child/README.md", false),
        collect_entry(1, "/t/dir.ts/c.tsx", false),
        collect_entry(1, "/t/dir.ts/d.jsx", false),
        collect_entry(1, "/t/dir.ts/ignore", true),
        collect_entry(2, "/t/dir.ts/ignore/g.d.ts", false),
        collect_entry(2, "/t/dir.ts/ignore/.gitignore", false),
    ]
}

fn collect_node_modules_tree() -> Vec<WalkItem> {
    vec![
        collect_entry(0, "/t/dir.ts/child/node_modules", true),
        collect_entry(1, "/t/dir.ts/child/node_modules/node_modules.js", false),
    ]
}

fn collect_names(found: Vec<FsPath>) -> Vec<String> {
    let mut names: Vec<String> = found.into_iter().map(|p| p.file_name().unwrap()).collect();
    names.sort();
    names
}

fn collect_no_dotfiles(path: &FsPath) -> bool {
    path.file_name().map_or(false, |f| !f.starts_with('.'))
}

#[test]
fn test_collect_files() {
    let root = WalkedRoot { canonical: Some(collect_path("/t/dir.ts")), items: collect_tree() };
    let file_collector = FileCollector::new(collect_no_dotfiles)
        .add_ignore_paths(&[Some(collect_path("/t/dir.ts/ignore"))]);

    let result = file_collector.collect_files(&[root]);
    let expected = [
        "README.md",
        "a.ts",
        "b.js",
        "c.tsx",
        "d.jsx",
        "e.mjs",
        "f.mjsx",
        "git.js",
        "node_modules.js",
    ];
    assert_eq!(collect_names(result), expected);

    // test ignoring the .git and node_modules folder
    let file_collector = file_collector.ignore_git_folder().ignore_node_modules();
    let root = WalkedRoot { canonical: Some(collect_path("/t/dir.ts")), items: collect_tree() };
    let result = file_collector.collect_files(&[root]);
    let expected = ["README.md", "a.ts", "b.js", "c.tsx", "d.jsx", "e.mjs", "f.mjsx"];
    assert_eq!(collect_names(result), expected);

    // test opting out of ignoring by specifying the dir
    let roots = [
        WalkedRoot { canonical: Some(collect_path("/t/dir.ts")), items: collect_tree() },
        WalkedRoot {
            canonical: Some(collect_path("/t/dir.ts/child/node_modules/")),
            items: collect_node_modules_tree(),
        },
    ];
    let result = file_collector.collect_files(&roots);
    let expected = [
        "README.md",
        "a.ts",
        "b.js",
        "c.tsx",
        "d.jsx",
        "e.mjs",
        "f.mjsx",
        "node_modules.js",
    ];
    assert_eq!(collect_names(result), expected);
}

#[test]
fn collect_keeps_listing_order() {
    let collector = FileCollector::new(|_: &FsPath| true);
    let found = collector.collect_listing(&collect_path("/t/dir.ts"), &collect_tree());
    let names: Vec<String> = found.into_iter().map(|p| p.file_name().unwrap()).collect();
    assert_eq!(
        names,
        [
            "a.ts",
            "b.js",
            "node_modules.js",
            "git.js",
            "e.mjs",
            "f.mjsx",
            ".foo.TS",
            "README.md",
            "c.tsx",
            "d.jsx",
            "g.d.ts",
            ".gitignore"
        ]
    );
}

#[test]
fn collect_prunes_names_in_any_case() {
    let items = vec![
        collect_entry(0, "/r", true),
        collect_entry(1, "/r/Node_Modules", true),
        collect_entry(2, "/r/Node_Modules/x.js", false),
        collect_entry(1, "/r/.GIT", true),
        collect_entry(2, "/r/.GIT/y.js", false),
        collect_entry(1, "/r/node_modules2", true),
        collect_entry(2, "/r/node_modules2/z.js", false),
    ];
    let collector = FileCollector::new(|_: &FsPath| true).ignore_git_folder().ignore_node_modules();
    let found = collector.collect_listing(&collect_path("/r"), &items);
    assert_eq!(collect_names(found), ["z.js"]);
}

#[test]
fn collect_single_flag_prunes_only_its_name() {
    let collector = FileCollector::new(|_: &FsPath| true).ignore_git_folder();
    let found = collector.collect_listing(&collect_path("/t/dir.ts"), &collect_tree());
    let names = collect_names(found);
    assert!(names.contains(&"node_modules.js".to_string()));
    assert!(!names.contains(&"git.js".to_string()));

    let collector = FileCollector::new(|_: &FsPath| true).ignore_node_modules();
    let found = collector.collect_listing(&collect_path("/t/dir.ts"), &collect_tree());
    let names = collect_names(found);
    assert!(!names.contains(&"node_modules.js".to_string()));
    assert!(names.contains(&"git.js".to_string()));
}

#[test]
fn collect_skips_unresolved_and_unreadable() {
    let items = vec![
        collect_entry(0, "/r", true),
        WalkItem::Unreadable { depth: 1 },
        WalkItem::Entry(WalkEntry {
            depth: 1,
            path: collect_path("/r/dangling"),
            is_dir: false,
            canonical: None,
        }),
        WalkItem::Entry(WalkEntry {
            depth: 1,
            path: collect_path("/r/gone"),
            is_dir: true,
            canonical: None,
        }),
        collect_entry(2, "/r/gone/inside.js", false),
        collect_entry(1, "/r/kept.js", false),
    ];
    let collector = FileCollector::new(|_: &FsPath| true);
    let found = collector.collect_listing(&collect_path("/r"), &items);
    assert_eq!(collect_names(found), ["kept.js"]);
}

#[test]
fn collect_passes_over_unresolved_root() {
    let roots = [
        WalkedRoot { canonical: None, items: collect_tree() },
        WalkedRoot {
            canonical: Some(collect_path("/t/dir.ts/child/node_modules")),
            items: collect_node_modules_tree(),
        },
    ];
    let collector = FileCollector::new(|_: &FsPath| true);
    assert_eq!(collect_names(collector.collect_files(&roots)), ["node_modules.js"]);
    assert!(collector.collect_files(&[]).is_empty());
}

#[test]
fn collect_gives_canonical_path_and_asks_about_walk_path() {
    let items = vec![
        collect_entry(0, "/r", true),
        WalkItem::Entry(WalkEntry {
            depth: 1,
            path: collect_path("/r/link.js"),
            is_dir: false,
            canonical: Some(collect_path("/elsewhere/target.js")),
        }),
    ];
    let collector =
        FileCollector::new(|p: &FsPath| p.file_name() == Some("link.js".to_string()));
    let found = collector.collect_listing(&collect_path("/r"), &items);
    assert_eq!(found.len(), 1);
    assert!(found[0].same(&collect_path("/elsewhere/target.js")));
}

#[test]
fn collect_filter_is_not_asked_about_directories() {
    let collector = FileCollector::new(|p: &FsPath| {
        assert!(p.file_name() != Some("child".to_string()));
        assert!(p.file_name() != Some("dir.ts".to_string()));
        assert!(p.file_name() != Some("g.d.ts".to_string()));
        true
    })
    .add_ignore_paths(&[Some(collect_path("/t/dir.ts/ignore")), None]);
    let found = collector.collect_listing(&collect_path("/t/dir.ts"), &collect_tree());
    assert_eq!(found.len(), 10);
}

#[test]
fn collect_ignore_is_a_component_prefix() {
    let items = vec![
        collect_entry(0, "/r", true),
        collect_entry(1, "/r/ignore", true),
        collect_entry(2, "/r/ignore/a.js", false),
        collect_entry(1, "/r/ignored", true),
        collect_entry(2, "/r/ignored/b.js", false),
        collect_entry(1, "/r/ignore.js", false),
    ];
    let collector =
        FileCollector::new(|_: &FsPath| true).add_ignore_paths(&[Some(collect_path("/r/ignore"))]);
    let found = collector.collect_listing(&collect_path("/r"), &items);
    assert_eq!(collect_names(found), ["b.js", "ignore.js"]);
}

#[test]
fn collect_visit_decides_each_kind() {
    let root = collect_path("/r");
    let collector = FileCollector::new(|_: &FsPath| false)
        .add_ignore_paths(&[Some(collect_path("/r/out"))])
        .ignore_git_folder();
    assert!(matches!(collector.visit(&root, &collect_entry(0, "/r", true)), Visit::Descend));
    assert!(matches!(collector.visit(&root, &collect_entry(1, "/r/out", true)), Visit::Prune));
    assert!(matches!(collector.visit(&root, &collect_entry(1, "/r/out/f", false)), Visit::Skip));
    assert!(matches!(collector.visit(&root, &collect_entry(1, "/r/.git", true)), Visit::Prune));
    assert!(matches!(
        collector.visit(&root, &collect_entry(1, "/r/node_modules", true)),
        Visit::Descend
    ));
    assert!(matches!(collector.visit(&root, &collect_entry(1, "/r/f", false)), Visit::Skip));
    assert!(matches!(
        collector.visit_with(&root, &collect_entry(1, "/r/f", false), true),
        Visit::Collect(_)
    ));
    assert!(matches!(
        collector.visit_with(&root, &collect_entry(1, "/r/.git", true), true),
        Visit::Prune
    ));
    assert!(matches!(collector.visit(&root, &WalkItem::Unreadable { depth: 1 }), Visit::Skip));
    let git_root = collect_path("/r/.git");
    assert!(matches!(
        collector.visit(&git_root, &collect_entry(0, "/r/.git", true)),
        Visit::Descend
    ));
}

#[test]
fn collect_defaults_to_current_directory() {
    let roots = roots_or_current(Vec::new());
    assert_eq!(roots.len(), 1);
    assert!(roots[0].same(&collect_path(".")));
    let roots = roots_or_current(vec![collect_path("a"), collect_path("b")]);
    assert_eq!(roots.len(), 2);
    assert!(roots[1].same(&collect_path("b")));
}

#[test]
fn collect_can_be_used_again() {
    let collector = FileCollector::new(collect_no_dotfiles).ignore_git_folder().ignore_node_modules();
    let first = collector.collect_listing(&collect_path("/t/dir.ts"), &collect_tree());
    let second = collector.collect_listing(&collect_path("/t/dir.ts"), &collect_tree());
    assert_eq!(collect_names(first), collect_names(second));
}

fn collect_child_tree() -> Vec<WalkItem> {
    vec![
        collect_entry(0, "/t/dir.ts/child", true),
        collect_entry(1, "/t/dir.ts/child/node_modules", true),
        collect_entry(2, "/t/dir.ts/child/node_modules/node_modules.js", false),
        collect_entry(1, "/t/dir.ts/child/.git", true),
        collect_entry(2, "/t/dir.ts/child/.git/git.js", false),
        collect_entry(1, "/t/dir.ts/child/e.mjs", false),
        collect_entry(1, "/t/dir.ts/child/f.mjsx", false),
        collect_entry(1, "/t/dir.ts/child/.foo.TS", false),
        collect_entry(1, "/t/dir.ts/child/README.md", false),
    ]
}

#[test]
fn collect_files_is_a_set() {
    // the second root lies below the first: its files are met twice
    let roots = [
        WalkedRoot { canonical: Some(collect_path("/t/dir.ts")), items: collect_tree() },
        WalkedRoot { canonical: Some(collect_path("/t/dir.ts/child")), items: collect_child_tree() },
    ];
    let collector = FileCollector::new(|_: &FsPath| true);
    let found = collector.collect_files(&roots);
    assert_eq!(found.len(), 12);
    for (i, a) in found.iter().enumerate() {
        for b in &found[i + 1..] {
            assert!(!a.same(b));
        }
    }
    let once = collector.collect_files(&roots[..1]);
    assert_eq!(collect_names(found), collect_names(once));

    // the same root twice
    let roots = [
        WalkedRoot { canonical: Some(collect_path("/t/dir.ts/child")), items: collect_child_tree() },
        WalkedRoot { canonical: Some(collect_path("/t/dir.ts/child")), items: collect_child_tree() },
    ];
    assert_eq!(collector.collect_files(&roots).len(), 6);

    // two entries of one walk that resolve to the same file
    let items = vec![
        collect_entry(0, "/r", true),
        collect_entry(1, "/r/target.js", false),
        WalkItem::Entry(WalkEntry {
            depth: 1,
            path: collect_path("/r/link.js"),
            is_dir: false,
            canonical: Some(collect_path("/r/target.js")),
        }),
    ];
    let roots = [WalkedRoot { canonical: Some(collect_path("/r")), items }];
    let found = collector.collect_files(&roots);
    assert_eq!(found.len(), 1);
    assert!(found[0].same(&collect_path("/r/target.js")));
}

#[test]
fn collect_drop_repeats_keeps_the_first() {
    let given = [
        collect_path("/a"),
        collect_path("/b"),
        collect_path("/a"),
        collect_path("/c"),
        collect_path("/b"),
        collect_path("/a"),
    ];
    let kept = drop_repeats(&given);
    assert_eq!(kept.len(), 3);
    assert!(kept[0].same(&collect_path("/a")));
    assert!(kept[1].same(&collect_path("/b")));
    assert!(kept[2].same(&collect_path("/c")));
    assert!(drop_repeats(&[]).is_empty());
}
