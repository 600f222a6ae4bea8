use vstd::prelude::*;

verus! {

/// Node `i` followed by its descendants, depth first, children in order,
/// looking at most `depth` levels down. Nodes are indices into `children`,
/// which lists the children of each node.
pub open spec fn preorder(children: Seq<Seq<usize>>, i: int, depth: nat) -> Seq<int>
    decreases depth, 0nat,
{
    if depth == 0 || !(0 <= i < children.len()) {
        Seq::empty()
    } else {
        seq![i] + preorder_all(children, children[i], (depth - 1) as nat)
    }
}

/// The nodes `nodes` and their descendants, depth first, one after another.
pub open spec fn preorder_all(children: Seq<Seq<usize>>, nodes: Seq<usize>, depth: nat) -> Seq<int>
    decreases depth, nodes.len() + 1,
{
    if nodes.len() == 0 {
        Seq::empty()
    } else {
        preorder_all(children, nodes.drop_last(), depth) + preorder(
            children,
            nodes.last() as int,
            depth,
        )
    }
}

fn visit(children: &Vec<Vec<usize>>, i: usize, depth: usize, out: &mut Vec<usize>)
    ensures
        final(out)@.map_values(|k: usize| k as int) == old(out)@.map_values(|k: usize| k as int)
            + preorder(children@.map_values(|c: Vec<usize>| c@), i as int, depth as nat),
    decreases depth,
{
    let ghost tree = children@.map_values(|c: Vec<usize>| c@);
    if depth == 0 || i >= children.len() {
        assert(preorder(tree, i as int, depth as nat) =~= Seq::empty());
        assert(out@.map_values(|k: usize| k as int) + Seq::empty() =~= out@.map_values(
            |k: usize| k as int,
        ));
        return ;
    }
    let ghost start = out@.map_values(|k: usize| k as int);
    out.push(i);
    assert(out@.map_values(|k: usize| k as int) =~= start + seq![i as int]);
    let kids = &children[i];
    assert(kids@ == tree[i as int]);
    let mut j: usize = 0;
    while j < kids.len()
        invariant
            j <= kids@.len(),
            kids@ == tree[i as int],
            tree == children@.map_values(|c: Vec<usize>| c@),
            0 < depth,
            out@.map_values(|k: usize| k as int) == start + seq![i as int] + preorder_all(
                tree,
                kids@.take(j as int),
                (depth - 1) as nat,
            ),
        decreases kids@.len() - j,
    {
        let ghost mid = out@.map_values(|k: usize| k as int);
        visit(children, kids[j], depth - 1, out);
        assert(kids@.take(j + 1).drop_last() =~= kids@.take(j as int));
        assert(kids@.take(j + 1).last() == kids@[j as int]);
        assert(out@.map_values(|k: usize| k as int) =~= start + seq![i as int] + preorder_all(
            tree,
            kids@.take(j + 1),
            (depth - 1) as nat,
        ));
        j = j + 1;
    }
    assert(kids@.take(j as int) =~= kids@);
    assert(out@.map_values(|k: usize| k as int) =~= start + preorder(tree, i as int, depth as nat));
}

/// The descendants of `root`, depth first with children in order, as
/// indices into `children`, which lists the children of each node. A node
/// more than `children.len()` levels down, which a tree cannot hold, is not
/// reached.
pub fn depth_first(children: &Vec<Vec<usize>>, root: usize) -> (r: Vec<usize>)
    requires
        root < children@.len(),
    ensures
        r@.map_values(|k: usize| k as int) == preorder_all(
            children@.map_values(|c: Vec<usize>| c@),
            children@[root as int]@,
            children@.len() as nat,
        ),
{
    let mut out: Vec<usize> = Vec::new();
    let ghost tree = children@.map_values(|c: Vec<usize>| c@);
    let kids = &children[root];
    assert(kids@ == tree[root as int]);
    let mut j: usize = 0;
    assert(out@.map_values(|k: usize| k as int) =~= Seq::empty());
    while j < kids.len()
        invariant
            j <= kids@.len(),
            tree == children@.map_values(|c: Vec<usize>| c@),
            out@.map_values(|k: usize| k as int) == preorder_all(
                tree,
                kids@.take(j as int),
                children@.len() as nat,
            ),
        decreases kids@.len() - j,
    {
        visit(children, kids[j], children.len(), &mut out);
        assert(kids@.take(j + 1).drop_last() =~= kids@.take(j as int));
        j = j + 1;
    }
    assert(kids@.take(j as int) =~= kids@);
    out
}

} // verus!
