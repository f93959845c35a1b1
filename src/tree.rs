use vstd::prelude::*;
use crate::path::{join, join_path, path_of};

verus! {

broadcast use vstd::std_specs::vec::group_vec_axioms;

/// One entry of a source directory, as it was read from the filesystem.
#[derive(Debug)]
pub enum Node {
    /// A directory with the entries it lists.
    Dir { name: String, children: Vec<Node> },
    /// A symbolic link, with its target exactly as stored (never resolved).
    Link { name: String, target: String },
    /// A regular file, or any other entry that is neither a directory nor a link.
    Other { name: String },
}

impl Node {
    pub open spec fn name_of(&self) -> Seq<char> {
        match self {
            Node::Dir { name, .. } => name@,
            Node::Link { name, .. } => name@,
            Node::Other { name } => name@,
        }
    }
}

/// The filesystem change that one step of a graft makes.
#[derive(Debug, PartialEq, Eq)]
pub enum GraftOp {
    /// Create a directory at `path`.
    CreateDir { path: String },
    /// Create a symbolic link at `link` whose stored target is `target`.
    Symlink { target: String, link: String },
}

/// What a `GraftOp` does, over plain character sequences.
pub ghost enum Step {
    CreateDir { path: Seq<char> },
    Symlink { target: Seq<char>, link: Seq<char> },
}

impl View for GraftOp {
    type V = Step;

    open spec fn view(&self) -> Step {
        match self {
            GraftOp::CreateDir { path } => Step::CreateDir { path: path@ },
            GraftOp::Symlink { target, link } => Step::Symlink { target: target@, link: link@ },
        }
    }
}

impl Step {
    /// The path that the step creates.
    pub open spec fn created(self) -> Seq<char> {
        match self {
            Step::CreateDir { path } => path,
            Step::Symlink { link, .. } => link,
        }
    }
}

/// The steps of a graft, in the order they are carried out.
pub open spec fn steps_of(ops: Seq<GraftOp>) -> Seq<Step> {
    ops.map_values(|o: GraftOp| o@)
}

/// The steps that graft the entry `n` of the source directory `src` into the
/// destination directory `dst`: a directory is created and then filled, a
/// link is copied with its stored target, and anything else becomes a link to
/// the path of the source entry.
pub open spec fn node_steps(src: Seq<char>, dst: Seq<char>, n: Node) -> Seq<Step>
    decreases n,
{
    match n {
        Node::Dir { name, children } => seq![Step::CreateDir { path: join(dst, name@) }]
            + nodes_steps(join(src, name@), join(dst, name@), children@),
        Node::Link { name, target } => seq![Step::Symlink { target: target@, link: join(dst, name@) }],
        Node::Other { name } => seq![Step::Symlink { target: join(src, name@), link: join(dst, name@) }],
    }
}

/// The steps that graft the entries `ns` of `src` into `dst`, one entry after
/// the other in the order given.
pub open spec fn nodes_steps(src: Seq<char>, dst: Seq<char>, ns: Seq<Node>) -> Seq<Step>
    decreases ns,
{
    if ns.len() == 0 {
        Seq::empty()
    } else {
        nodes_steps(src, dst, ns.drop_last()) + node_steps(src, dst, ns.last())
    }
}

/// Appends to `ops` the steps that graft the entries `nodes` of the source
/// directory `src` into the destination directory `dst`.
pub fn graft_entries(src: &String, dst: &String, nodes: &Vec<Node>, ops: &mut Vec<GraftOp>)
    ensures
        steps_of(final(ops)@) == steps_of(old(ops)@) + nodes_steps(src@, dst@, nodes@),
    decreases nodes@,
{
    let ghost start = steps_of(ops@);
    let mut i: usize = 0;
    while i < nodes.len()
        invariant
            i <= nodes.len(),
            steps_of(ops@) == start + nodes_steps(src@, dst@, nodes@.subrange(0, i as int)),
        decreases nodes.len() - i,
    {
        let ghost before = ops@;
        assert(nodes@.subrange(0, i + 1).drop_last() =~= nodes@.subrange(0, i as int));
        match &nodes[i] {
            Node::Dir { name, children } => {
                let s = join_path(src, name);
                let d = join_path(dst, name);
                ops.push(GraftOp::CreateDir { path: d.clone() });
                assert(steps_of(ops@) =~= steps_of(before) + seq![Step::CreateDir { path: d@ }]);
                assert(decreases_to!(nodes@ => nodes@[i as int]));
                graft_entries(&s, &d, children, ops);
            },
            Node::Link { name, target } => {
                let d = join_path(dst, name);
                ops.push(GraftOp::Symlink { target: target.clone(), link: d });
                assert(steps_of(ops@) =~= steps_of(before) + node_steps(src@, dst@, nodes@[i as int]));
            },
            Node::Other { name } => {
                let s = join_path(src, name);
                let d = join_path(dst, name);
                ops.push(GraftOp::Symlink { target: s, link: d });
                assert(steps_of(ops@) =~= steps_of(before) + node_steps(src@, dst@, nodes@[i as int]));
            },
        }
        assert(nodes_steps(src@, dst@, nodes@.subrange(0, i + 1)) == nodes_steps(
            src@,
            dst@,
            nodes@.subrange(0, i as int),
        ) + node_steps(src@, dst@, nodes@[i as int]));
        i = i + 1;
    }
    assert(nodes@.subrange(0, nodes.len() as int) =~= nodes@);
}

/// The steps that graft the source root `src`, whose entries are `nodes`,
/// into the destination root `dst`.
pub fn graft_plan(src: &String, dst: &String, nodes: &Vec<Node>) -> (ops: Vec<GraftOp>)
    ensures
        steps_of(ops@) == nodes_steps(src@, dst@, nodes@),
{
    let mut ops: Vec<GraftOp> = Vec::new();
    graft_entries(src, dst, nodes, &mut ops);
    assert(steps_of(Seq::<GraftOp>::empty()) + nodes_steps(src@, dst@, nodes@) =~= nodes_steps(src@, dst@, nodes@));
    ops
}

} // verus!
