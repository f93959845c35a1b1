use vstd::prelude::*;

verus! {

/// `dir` followed by the entry `name`, with one separator between them.
pub open spec fn join(dir: Seq<char>, name: Seq<char>) -> Seq<char> {
    if dir.len() > 0 && dir.last() == '/' {
        dir + name
    } else {
        dir + seq!['/'] + name
    }
}

/// The path reached from `root` by following the names of `rel` in turn.
pub open spec fn path_of(root: Seq<char>, rel: Seq<Seq<char>>) -> Seq<char>
    decreases rel.len(),
{
    if rel.len() == 0 {
        root
    } else {
        path_of(join(root, rel[0]), rel.drop_first())
    }
}

/// Joins the entry `name` onto the directory path `dir`.
pub fn join_path(dir: &String, name: &String) -> (r: String)
    ensures
        r@ == join(dir@, name@),
{
    let d = dir.as_str();
    let n = d.unicode_len();
    let mut r = dir.clone();
    if n > 0 && d.get_char(n - 1) == '/' {
        r.append(name.as_str());
    } else {
        r.append("/");
        proof {
            reveal_strlit("/");
        }
        r.append(name.as_str());
    }
    r
}

} // verus!
