use graft::{graft_entries, graft_plan, join_path, GraftOp, Node};

fn s(x: &str) -> String {
    String::from(x)
}

#[test]
fn join_adds_one_separator() {
    assert_eq!(join_path(&s("/dst"), &s("a.txt")), "/dst/a.txt");
    assert_eq!(join_path(&s("/"), &s("a.txt")), "/a.txt");
    assert_eq!(join_path(&s("/dst/"), &s("sub")), "/dst/sub");
    assert_eq!(join_path(&s(""), &s("x")), "/x");
}

#[test]
fn flat_tree() {
    let nodes = vec![Node::Other { name: s("a.txt") }];
    let ops = graft_plan(&s("/src"), &s("/dst"), &nodes);
    assert_eq!(ops, vec![GraftOp::Symlink { target: s("/src/a.txt"), link: s("/dst/a.txt") }]);
}

#[test]
fn nested_tree() {
    let nodes = vec![Node::Dir { name: s("sub"), children: vec![Node::Other { name: s("b.txt") }] }];
    let ops = graft_plan(&s("/src"), &s("/dst"), &nodes);
    assert_eq!(
        ops,
        vec![
            GraftOp::CreateDir { path: s("/dst/sub") },
            GraftOp::Symlink { target: s("/src/sub/b.txt"), link: s("/dst/sub/b.txt") },
        ]
    );
}

#[test]
fn relative_symlink_is_preserved() {
    let nodes = vec![Node::Link { name: s("c.lnk"), target: s("../other/c.real") }];
    let ops = graft_plan(&s("/src"), &s("/dst"), &nodes);
    assert_eq!(ops, vec![GraftOp::Symlink { target: s("../other/c.real"), link: s("/dst/c.lnk") }]);
}

#[test]
fn absolute_symlink_is_preserved() {
    let nodes = vec![Node::Link { name: s("d.lnk"), target: s("/etc/passwd") }];
    let ops = graft_plan(&s("/src"), &s("/dst"), &nodes);
    assert_eq!(ops, vec![GraftOp::Symlink { target: s("/etc/passwd"), link: s("/dst/d.lnk") }]);
}

#[test]
fn empty_source_plans_nothing() {
    let ops = graft_plan(&s("/src"), &s("/dst"), &vec![]);
    assert!(ops.is_empty());
}

#[test]
fn empty_directory_is_created() {
    let nodes = vec![Node::Dir { name: s("empty"), children: vec![] }];
    let ops = graft_plan(&s("/src"), &s("/dst"), &nodes);
    assert_eq!(ops, vec![GraftOp::CreateDir { path: s("/dst/empty") }]);
}

#[test]
fn mixed_tree_keeps_listing_order_and_parents_first() {
    let nodes = vec![
        Node::Other { name: s("z") },
        Node::Dir {
            name: s("d"),
            children: vec![
                Node::Dir { name: s("e"), children: vec![Node::Other { name: s("f") }] },
                Node::Link { name: s("g"), target: s("../z") },
            ],
        },
        Node::Other { name: s("a") },
    ];
    let ops = graft_plan(&s("/src"), &s("/dst/"), &nodes);
    assert_eq!(
        ops,
        vec![
            GraftOp::Symlink { target: s("/src/z"), link: s("/dst/z") },
            GraftOp::CreateDir { path: s("/dst/d") },
            GraftOp::CreateDir { path: s("/dst/d/e") },
            GraftOp::Symlink { target: s("/src/d/e/f"), link: s("/dst/d/e/f") },
            GraftOp::Symlink { target: s("../z"), link: s("/dst/d/g") },
            GraftOp::Symlink { target: s("/src/a"), link: s("/dst/a") },
        ]
    );
}

#[test]
fn entries_are_appended_after_existing_ops() {
    let mut ops = vec![GraftOp::CreateDir { path: s("/dst/x") }];
    graft_entries(&s("/src/x"), &s("/dst/x"), &vec![Node::Other { name: s("y") }], &mut ops);
    assert_eq!(
        ops,
        vec![
            GraftOp::CreateDir { path: s("/dst/x") },
            GraftOp::Symlink { target: s("/src/x/y"), link: s("/dst/x/y") },
        ]
    );
}

#[test]
fn second_graft_finds_destination_filled() {
    let nodes = vec![Node::Other { name: s("a.txt") }];
    let ops = graft_plan(&s("/src"), &s("/dst"), &nodes);
    match &ops[0] {
        GraftOp::Symlink { link, .. } => assert_eq!(link, "/dst/a.txt"),
        other => panic!("unexpected: {:?}", other),
    }
    assert_eq!(graft::emptiness_outcome(&s("/dst"), Some(ops.len())).unwrap(), false);
}
