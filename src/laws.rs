use vstd::prelude::*;
use crate::path::{join, path_of};
use crate::tree::{node_steps, nodes_steps, Node, Step};

verus! {

broadcast use vstd::std_specs::vec::group_vec_axioms;

/// Whether the source entries `ns` hold the entry `n` at the relative path
/// `rel`, a non-empty sequence of names each of which but the last names a
/// directory on the way down.
pub open spec fn located(ns: Seq<Node>, rel: Seq<Seq<char>>, n: Node) -> bool
    decreases rel.len(),
{
    if rel.len() == 0 {
        false
    } else if rel.len() == 1 {
        exists|i: int| 0 <= i < ns.len() && ns[i] == n && n.name_of() == rel[0]
    } else {
        exists|i: int|
            0 <= i < ns.len() && ns[i] is Dir && ns[i].name_of() == rel[0] && located(
                ns[i]->Dir_children@,
                rel.drop_first(),
                n,
            )
    }
}

/// The step that grafts the entry `n`, found at `rel` under the source root
/// `src`, into the destination root `dst`.
pub open spec fn expected_step(src: Seq<char>, dst: Seq<char>, rel: Seq<Seq<char>>, n: Node) -> Step {
    match n {
        Node::Dir { .. } => Step::CreateDir { path: path_of(dst, rel) },
        Node::Link { target, .. } => Step::Symlink { target: target@, link: path_of(dst, rel) },
        Node::Other { .. } => Step::Symlink { target: path_of(src, rel), link: path_of(dst, rel) },
    }
}

proof fn lemma_path_of_one(root: Seq<char>, name: Seq<char>)
    ensures
        path_of(root, seq![name]) == join(root, name),
{
    assert(seq![name].drop_first() =~= Seq::<Seq<char>>::empty());
    assert(path_of(join(root, name), Seq::<Seq<char>>::empty()) == join(root, name));
}

proof fn lemma_part_of_whole(src: Seq<char>, dst: Seq<char>, ns: Seq<Node>, i: int, s: Step)
    requires
        0 <= i < ns.len(),
        node_steps(src, dst, ns[i]).contains(s),
    ensures
        nodes_steps(src, dst, ns).contains(s),
    decreases ns.len(),
{
    let part = node_steps(src, dst, ns[i]);
    let j = choose|j: int| 0 <= j < part.len() && part[j] == s;
    let prefix = nodes_steps(src, dst, ns.drop_last());
    if i == ns.len() - 1 {
        assert(nodes_steps(src, dst, ns)[prefix.len() + j] == s);
    } else {
        lemma_part_of_whole(src, dst, ns.drop_last(), i, s);
        let k = choose|k: int| 0 <= k < prefix.len() && prefix[k] == s;
        assert(nodes_steps(src, dst, ns)[k] == s);
    }
}

proof fn lemma_whole_of_parts(src: Seq<char>, dst: Seq<char>, ns: Seq<Node>, s: Step)
    requires
        nodes_steps(src, dst, ns).contains(s),
    ensures
        exists|i: int| 0 <= i < ns.len() && node_steps(src, dst, ns[i]).contains(s),
    decreases ns.len(),
{
    let whole = nodes_steps(src, dst, ns);
    let k = choose|k: int| 0 <= k < whole.len() && whole[k] == s;
    let prefix = nodes_steps(src, dst, ns.drop_last());
    let last = ns.len() - 1;
    if k < prefix.len() {
        assert(prefix[k] == s);
        lemma_whole_of_parts(src, dst, ns.drop_last(), s);
        let i = choose|i: int| 0 <= i < ns.drop_last().len() && node_steps(src, dst, ns.drop_last()[i]).contains(s);
        assert(ns[i] == ns.drop_last()[i]);
    } else {
        assert(node_steps(src, dst, ns[last])[k - prefix.len()] == s);
    }
}

proof fn lemma_entry_has_step(src: Seq<char>, dst: Seq<char>, ns: Seq<Node>, rel: Seq<Seq<char>>, n: Node)
    requires
        located(ns, rel, n),
    ensures
        nodes_steps(src, dst, ns).contains(expected_step(src, dst, rel, n)),
    decreases rel.len(),
{
    let e = expected_step(src, dst, rel, n);
    if rel.len() == 1 {
        let i = choose|i: int| 0 <= i < ns.len() && ns[i] == n && n.name_of() == rel[0];
        assert(rel =~= seq![rel[0]]);
        lemma_path_of_one(src, rel[0]);
        lemma_path_of_one(dst, rel[0]);
        assert(node_steps(src, dst, n)[0] == e);
        lemma_part_of_whole(src, dst, ns, i, e);
    } else {
        let i = choose|i: int|
            0 <= i < ns.len() && ns[i] is Dir && ns[i].name_of() == rel[0] && located(
                ns[i]->Dir_children@,
                rel.drop_first(),
                n,
            );
        let name = rel[0];
        let inner = nodes_steps(join(src, name), join(dst, name), ns[i]->Dir_children@);
        lemma_entry_has_step(join(src, name), join(dst, name), ns[i]->Dir_children@, rel.drop_first(), n);
        let j = choose|j: int| 0 <= j < inner.len() && inner[j] == e;
        assert(node_steps(src, dst, ns[i])[j + 1] == e);
        lemma_part_of_whole(src, dst, ns, i, e);
    }
}

proof fn lemma_step_has_entry(src: Seq<char>, dst: Seq<char>, ns: Seq<Node>, s: Step)
    requires
        nodes_steps(src, dst, ns).contains(s),
    ensures
        exists|rel: Seq<Seq<char>>, n: Node| located(ns, rel, n) && s == expected_step(src, dst, rel, n),
    decreases ns,
{
    lemma_whole_of_parts(src, dst, ns, s);
    let i = choose|i: int| 0 <= i < ns.len() && node_steps(src, dst, ns[i]).contains(s);
    let n = ns[i];
    let part = node_steps(src, dst, n);
    let j = choose|j: int| 0 <= j < part.len() && part[j] == s;
    let rel = seq![n.name_of()];
    if j == 0 {
        lemma_path_of_one(src, n.name_of());
        lemma_path_of_one(dst, n.name_of());
        assert(located(ns, rel, n));
        assert(s == expected_step(src, dst, rel, n));
    } else {
        let name = n.name_of();
        let children = n->Dir_children@;
        let inner = nodes_steps(join(src, name), join(dst, name), children);
        assert(inner[j - 1] == s);
        assert(decreases_to!(ns => ns[i]));
        lemma_step_has_entry(join(src, name), join(dst, name), children, s);
        let (rel2, m) = choose|rel2: Seq<Seq<char>>, m: Node|
            located(children, rel2, m) && s == expected_step(join(src, name), join(dst, name), rel2, m);
        let full = seq![name] + rel2;
        assert(full.drop_first() =~= rel2);
        assert(located(ns, full, m));
        assert(s == expected_step(src, dst, full, m));
    }
}

/// A graft mirrors the structure of the source tree: every entry of the
/// source at a relative path has a counterpart created at the same relative
/// path under the destination, a directory exactly where the source has a
/// directory and a link elsewhere; and every created path is the counterpart
/// of some source entry.
pub proof fn lemma_graft_mirrors_structure(src: Seq<char>, dst: Seq<char>, ns: Seq<Node>)
    ensures
        forall|rel: Seq<Seq<char>>, n: Node| #[trigger] located(ns, rel, n) ==> {
            &&& n is Dir ==> nodes_steps(src, dst, ns).contains(Step::CreateDir { path: path_of(dst, rel) })
            &&& !(n is Dir) ==> exists|t: Seq<char>|
                nodes_steps(src, dst, ns).contains(Step::Symlink { target: t, link: path_of(dst, rel) })
        },
        forall|s: Step| #[trigger] nodes_steps(src, dst, ns).contains(s) ==> exists|rel: Seq<Seq<char>>, n: Node|
            located(ns, rel, n) && s.created() == path_of(dst, rel) && (s is CreateDir <==> n is Dir),
{
    assert forall|rel: Seq<Seq<char>>, n: Node| #[trigger] located(ns, rel, n) implies {
        &&& n is Dir ==> nodes_steps(src, dst, ns).contains(Step::CreateDir { path: path_of(dst, rel) })
        &&& !(n is Dir) ==> exists|t: Seq<char>|
            nodes_steps(src, dst, ns).contains(Step::Symlink { target: t, link: path_of(dst, rel) })
    } by {
        lemma_entry_has_step(src, dst, ns, rel, n);
        let e = expected_step(src, dst, rel, n);
        if !(n is Dir) {
            assert(nodes_steps(src, dst, ns).contains(Step::Symlink { target: e->Symlink_target, link: path_of(dst, rel) }));
        }
    }
    assert forall|s: Step| #[trigger] nodes_steps(src, dst, ns).contains(s) implies exists|rel: Seq<Seq<char>>, n: Node|
        located(ns, rel, n) && s.created() == path_of(dst, rel) && (s is CreateDir <==> n is Dir) by {
        lemma_step_has_entry(src, dst, ns, s);
    }
}

/// Every regular file (or other non-directory, non-link entry) of the source
/// becomes a link at its relative path under the destination whose target is
/// the file's path under the source root.
pub proof fn lemma_graft_links_files(src: Seq<char>, dst: Seq<char>, ns: Seq<Node>, rel: Seq<Seq<char>>, n: Node)
    requires
        located(ns, rel, n),
        n is Other,
    ensures
        nodes_steps(src, dst, ns).contains(Step::Symlink { target: path_of(src, rel), link: path_of(dst, rel) }),
{
    lemma_entry_has_step(src, dst, ns, rel, n);
}

/// Every link of the source becomes a link at its relative path under the
/// destination that stores exactly the same target, relative or absolute.
pub proof fn lemma_graft_copies_links(src: Seq<char>, dst: Seq<char>, ns: Seq<Node>, rel: Seq<Seq<char>>, n: Node)
    requires
        located(ns, rel, n),
        n is Link,
    ensures
        nodes_steps(src, dst, ns).contains(Step::Symlink { target: n->Link_target@, link: path_of(dst, rel) }),
{
    lemma_entry_has_step(src, dst, ns, rel, n);
}

/// A graft of a non-empty source leaves the destination non-empty: its first
/// step creates an entry directly in the destination root, so a later check
/// of that destination finds it not empty and refuses a second graft.
pub proof fn lemma_graft_fills_destination(src: Seq<char>, dst: Seq<char>, ns: Seq<Node>)
    requires
        ns.len() > 0,
    ensures
        nodes_steps(src, dst, ns).len() > 0,
        nodes_steps(src, dst, ns)[0].created() == join(dst, ns[0].name_of()),
    decreases ns.len(),
{
    let last = node_steps(src, dst, ns.last());
    assert(last.len() > 0);
    if ns.len() > 1 {
        lemma_graft_fills_destination(src, dst, ns.drop_last());
        assert(ns.drop_last()[0] == ns[0]);
    } else {
        assert(ns.drop_last() =~= Seq::<Node>::empty());
        assert(nodes_steps(src, dst, ns.drop_last()) == Seq::<Step>::empty());
        assert(ns.last() == ns[0]);
        assert(nodes_steps(src, dst, ns) =~= last);
    }
}

/// Whether the steps before index `k` create the directory that holds the
/// counterpart of the entry at `rel`; trivially so for a top-level entry.
pub open spec fn parent_made_before(steps: Seq<Step>, k: int, dst: Seq<char>, rel: Seq<Seq<char>>) -> bool {
    rel.len() > 1 ==> exists|j: int| 0 <= j < k && steps[j] == Step::CreateDir { path: path_of(dst, rel.drop_last()) }
}

/// Whether the step at index `k` of the graft of `ns` is the counterpart of a
/// source entry whose enclosing directory was created by an earlier step.
pub open spec fn traced(src: Seq<char>, dst: Seq<char>, ns: Seq<Node>, k: int) -> bool {
    exists|rel: Seq<Seq<char>>, n: Node|
        located(ns, rel, n) && nodes_steps(src, dst, ns)[k] == expected_step(src, dst, rel, n)
            && parent_made_before(nodes_steps(src, dst, ns), k, dst, rel)
}

proof fn lemma_located_in_prefix(ns: Seq<Node>, rel: Seq<Seq<char>>, n: Node)
    requires
        ns.len() > 0,
        located(ns.drop_last(), rel, n),
    ensures
        located(ns, rel, n),
{
    let pre = ns.drop_last();
    if rel.len() == 1 {
        let i = choose|i: int| 0 <= i < pre.len() && pre[i] == n && n.name_of() == rel[0];
        assert(ns[i] == pre[i]);
    } else {
        let i = choose|i: int|
            0 <= i < pre.len() && pre[i] is Dir && pre[i].name_of() == rel[0] && located(
                pre[i]->Dir_children@,
                rel.drop_first(),
                n,
            );
        assert(ns[i] == pre[i]);
    }
}

proof fn lemma_step_origin(src: Seq<char>, dst: Seq<char>, ns: Seq<Node>, k: int)
    requires
        0 <= k < nodes_steps(src, dst, ns).len(),
    ensures
        traced(src, dst, ns, k),
    decreases ns,
{
    let steps = nodes_steps(src, dst, ns);
    let prefix = nodes_steps(src, dst, ns.drop_last());
    let last = ns.last();
    if k < prefix.len() {
        assert(decreases_to!(ns => ns.drop_last()));
        lemma_step_origin(src, dst, ns.drop_last(), k);
        let (rel, n) = choose|rel: Seq<Seq<char>>, n: Node|
            located(ns.drop_last(), rel, n) && prefix[k] == expected_step(src, dst, rel, n)
                && parent_made_before(prefix, k, dst, rel);
        lemma_located_in_prefix(ns, rel, n);
        assert(steps[k] == prefix[k]);
        if rel.len() > 1 {
            let j = choose|j: int| 0 <= j < k && prefix[j] == Step::CreateDir { path: path_of(dst, rel.drop_last()) };
            assert(steps[j] == prefix[j]);
        }
        assert(parent_made_before(steps, k, dst, rel));
    } else {
        let m = k - prefix.len();
        let name = last.name_of();
        let i = ns.len() - 1;
        assert(steps[k] == node_steps(src, dst, last)[m]);
        let top = seq![name];
        lemma_path_of_one(src, name);
        lemma_path_of_one(dst, name);
        if m == 0 {
            assert(located(ns, top, last));
            assert(steps[k] == expected_step(src, dst, top, last));
            assert(parent_made_before(steps, k, dst, top));
        } else {
            let children = last->Dir_children@;
            let (s2, d2) = (join(src, name), join(dst, name));
            let inner = nodes_steps(s2, d2, children);
            assert(steps[k] == inner[m - 1]);
            assert(decreases_to!(ns => ns[i]));
            lemma_step_origin(s2, d2, children, m - 1);
            let (rel2, n) = choose|rel2: Seq<Seq<char>>, n: Node|
                located(children, rel2, n) && inner[m - 1] == expected_step(s2, d2, rel2, n)
                    && parent_made_before(inner, m - 1, d2, rel2);
            let rel = top + rel2;
            assert(rel.drop_first() =~= rel2);
            assert(rel[0] == name);
            assert(located(ns, rel, n));
            assert(steps[k] == expected_step(src, dst, rel, n));
            assert(steps[prefix.len() as int] == Step::CreateDir { path: d2 });
            if rel2.len() > 1 {
                let j = choose|j: int| 0 <= j < m - 1 && inner[j] == Step::CreateDir { path: path_of(d2, rel2.drop_last()) };
                assert(rel.drop_last().drop_first() =~= rel2.drop_last());
                assert(rel.drop_last()[0] == name);
                assert(steps[prefix.len() + 1 + j] == inner[j]);
            } else {
                assert(rel.drop_last() =~= top);
            }
            assert(parent_made_before(steps, k, dst, rel));
        }
    }
}

/// Steps come in an order that can be carried out: each step is the
/// counterpart of a source entry, and when that entry lies inside a source
/// directory, the counterpart of that directory was created by an earlier step.
pub proof fn lemma_graft_parents_first(src: Seq<char>, dst: Seq<char>, ns: Seq<Node>)
    ensures
        forall|k: int| 0 <= k < nodes_steps(src, dst, ns).len() ==> #[trigger] traced(src, dst, ns, k),
{
    assert forall|k: int| 0 <= k < nodes_steps(src, dst, ns).len() implies #[trigger] traced(src, dst, ns, k) by {
        lemma_step_origin(src, dst, ns, k);
    }
}

} // verus!
