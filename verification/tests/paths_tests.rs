use pcat::paths::{collect_paths, compute_outdir_paths, DirPath, DirTree, PathError};

fn path(components: &[&str]) -> DirPath {
    DirPath {
        components: components.iter().map(|c| c.as_bytes().to_vec()).collect(),
    }
}

fn components(p: &DirPath) -> Vec<String> {
    p.components
        .iter()
        .map(|c| String::from_utf8(c.clone()).unwrap())
        .collect()
}

fn leaf(components: &[&str]) -> DirTree {
    DirTree {
        path: path(components),
        subdirs: Vec::new(),
    }
}

#[test]
fn rebasing_moves_paths_under_the_output_base() {
    let base_in = path(&["data", "in"]);
    let base_out = path(&["data", "out"]);
    let process = vec![
        path(&["data", "in"]),
        path(&["data", "in", "x"]),
        path(&["data", "in", "x", "y"]),
    ];
    let mapped = match compute_outdir_paths(3, &base_in, &base_out, &process) {
        Ok(v) => v,
        Err(_) => panic!("paths under the base must map"),
    };
    assert_eq!(mapped.len(), 3);
    assert_eq!(components(&mapped[0]), vec!["data", "out"]);
    assert_eq!(components(&mapped[1]), vec!["data", "out", "x"]);
    assert_eq!(components(&mapped[2]), vec!["data", "out", "x", "y"]);
}

#[test]
fn a_path_outside_the_base_is_reported() {
    let base_in = path(&["data", "in"]);
    let base_out = path(&["data", "out"]);
    let process = vec![path(&["data", "in", "x"]), path(&["elsewhere", "x"])];
    match compute_outdir_paths(0, &base_in, &base_out, &process) {
        Err(PathError::NotAPrefix { index }) => assert_eq!(index, 1),
        Ok(_) => panic!("a path outside the base must be rejected"),
    }
}

#[test]
fn the_length_hint_does_not_change_the_result() {
    let base_in = path(&["in"]);
    let base_out = path(&["out"]);
    let process = vec![path(&["in", "a"])];
    let small = match compute_outdir_paths(0, &base_in, &base_out, &process) {
        Ok(v) => v,
        Err(_) => panic!("paths under the base must map"),
    };
    let large = match compute_outdir_paths(64, &base_in, &base_out, &process) {
        Ok(v) => v,
        Err(_) => panic!("paths under the base must map"),
    };
    assert_eq!(components(&small[0]), components(&large[0]));
    assert_eq!(small.len(), large.len());
}

#[test]
fn a_single_directory_collects_to_itself() {
    let tree = leaf(&["root"]);
    let order = collect_paths(&tree);
    assert_eq!(order.len(), 1);
    assert_eq!(components(&order[0]), vec!["root"]);
}

#[test]
fn collection_visits_later_siblings_first() {
    let tree = DirTree {
        path: path(&["r"]),
        subdirs: vec![leaf(&["r", "a"]), leaf(&["r", "b"]), leaf(&["r", "c"])],
    };
    let order: Vec<Vec<String>> = collect_paths(&tree).iter().map(components).collect();
    assert_eq!(
        order,
        vec![
            vec!["r".to_string()],
            vec!["r".to_string(), "c".to_string()],
            vec!["r".to_string(), "b".to_string()],
            vec!["r".to_string(), "a".to_string()],
        ]
    );
}

#[test]
fn collection_finishes_a_subtree_before_its_earlier_siblings() {
    let tree = DirTree {
        path: path(&["r"]),
        subdirs: vec![
            leaf(&["r", "a"]),
            DirTree {
                path: path(&["r", "c"]),
                subdirs: vec![leaf(&["r", "c", "d"])],
            },
        ],
    };
    let order: Vec<Vec<String>> = collect_paths(&tree).iter().map(components).collect();
    assert_eq!(
        order,
        vec![
            vec!["r".to_string()],
            vec!["r".to_string(), "c".to_string()],
            vec!["r".to_string(), "c".to_string(), "d".to_string()],
            vec!["r".to_string(), "a".to_string()],
        ]
    );
}
