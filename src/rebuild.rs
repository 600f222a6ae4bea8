use vstd::prelude::*;

verus! {

/// A node of the character's skeleton subtree, in search order.
#[derive(Debug)]
pub struct BoneNode {
    pub entity: u64,
    pub name: Option<String>,
}

/// A skinned mesh primitive of a loaded fragment.
#[derive(Debug)]
pub struct PrimitiveNode {
    pub entity: u64,
    /// The fragment-local mesh that groups it, if it has one.
    pub parent: Option<u64>,
    /// The names of the fragment joints it is skinned to, in order; `None`
    /// for a joint without a name.
    pub joints: Vec<Option<String>>,
}

/// A primitive to spawn under the character: a copy of `source` skinned to
/// the skeleton bones `joints`.
#[derive(Debug)]
pub struct RebuiltPrimitive {
    pub source: u64,
    pub joints: Vec<u64>,
}

/// A mesh container to spawn under the character, for the fragment mesh
/// `mesh`, with its primitives in order.
#[derive(Debug)]
pub struct MeshGroup {
    pub mesh: u64,
    pub primitives: Vec<RebuiltPrimitive>,
}

impl View for RebuiltPrimitive {
    type V = (u64, Seq<u64>);

    open spec fn view(&self) -> (u64, Seq<u64>) {
        (self.source, self.joints@)
    }
}

impl View for MeshGroup {
    type V = (u64, Seq<(u64, Seq<u64>)>);

    open spec fn view(&self) -> (u64, Seq<(u64, Seq<u64>)>) {
        (self.mesh, self.primitives@.map_values(|p: RebuiltPrimitive| p@))
    }
}

/// Whether bone `b` carries exactly the name `name`.
pub open spec fn bone_named(b: BoneNode, name: Seq<char>) -> bool {
    b.name is Some && b.name.unwrap()@ == name
}

/// The first bone of `bones` named `name`.
pub open spec fn bone_for(bones: Seq<BoneNode>, name: Seq<char>) -> Option<u64>
    decreases bones.len(),
{
    if bones.len() == 0 {
        None
    } else {
        match bone_for(bones.drop_last(), name) {
            Some(e) => Some(e),
            None => if bone_named(bones.last(), name) {
                Some(bones.last().entity)
            } else {
                None
            },
        }
    }
}

/// The skeleton bones that the joints named `joints` are bound to, in order;
/// a joint without a name, or whose name no bone carries, is left out.
pub open spec fn remapped(joints: Seq<Option<String>>, bones: Seq<BoneNode>) -> Seq<u64>
    decreases joints.len(),
{
    if joints.len() == 0 {
        Seq::empty()
    } else {
        let prev = remapped(joints.drop_last(), bones);
        match joints.last() {
            Some(n) => match bone_for(bones, n@) {
                Some(e) => prev.push(e),
                None => prev,
            },
            None => prev,
        }
    }
}


/// Whether some primitive of `prims` is grouped by mesh `m`.
pub open spec fn has_mesh(prims: Seq<PrimitiveNode>, m: u64) -> bool {
    exists|i: int| 0 <= i < prims.len() && #[trigger] prims[i].parent == Some(m)
}

/// Whether `s` is strictly ascending.
pub open spec fn ascending(s: Seq<u64>) -> bool {
    forall|i: int, j: int| 0 <= i < j < s.len() ==> s[i] < s[j]
}

/// Whether `keys` lists the meshes that group `prims`, each once, in
/// ascending order.
pub open spec fn mesh_order(prims: Seq<PrimitiveNode>, keys: Seq<u64>) -> bool {
    &&& ascending(keys)
    &&& forall|m: u64| #[trigger] keys.contains(m) <==> has_mesh(prims, m)
}

/// The primitives of `prims` grouped by mesh `key`, in order, each rebuilt
/// against `bones`.
pub open spec fn members(prims: Seq<PrimitiveNode>, key: u64, bones: Seq<BoneNode>) -> Seq<
    (u64, Seq<u64>),
>
    decreases prims.len(),
{
    if prims.len() == 0 {
        Seq::empty()
    } else {
        let prev = members(prims.drop_last(), key, bones);
        if prims.last().parent == Some(key) {
            prev.push((prims.last().entity, remapped(prims.last().joints@, bones)))
        } else {
            prev
        }
    }
}


/// Whether `groups` is the rebuild of a fragment whose primitives are
/// `prims`: one group per mesh, in ascending order of mesh, each with the
/// primitives of that mesh in order, skinned against `bones`.
pub open spec fn is_plan(
    prims: Seq<PrimitiveNode>,
    bones: Seq<BoneNode>,
    groups: Seq<(u64, Seq<(u64, Seq<u64>)>)>,
) -> bool {
    &&& mesh_order(prims, groups.map_values(|g: (u64, Seq<(u64, Seq<u64>)>)| g.0))
    &&& forall|i: int| 0 <= i < groups.len() ==> #[trigger] groups[i].1 == members(prims, groups[i].0, bones)
}

/// Two ascending sequences with the same elements are equal: the order of
/// mesh groups is fixed by the meshes alone.
pub proof fn lemma_ascending_unique(s: Seq<u64>, t: Seq<u64>)
    requires
        ascending(s),
        ascending(t),
        forall|m: u64| #[trigger] s.contains(m) <==> t.contains(m),
    ensures
        s == t,
    decreases s.len(),
{
    if s.len() == 0 {
        if t.len() > 0 {
            assert(t.contains(t[0]));
            assert(s.contains(t[0]));
        }
        assert(t.len() == 0);
    } else {
        assert(s.contains(s[0]));
        assert(t.len() > 0);
        assert(t.contains(t[0]));
        assert(s.contains(t[0]));
        let i = choose|i: int| 0 <= i < t.len() && t[i] == s[0];
        let j = choose|j: int| 0 <= j < s.len() && s[j] == t[0];
        assert(t[0] <= t[i]);
        assert(s[0] <= s[j]);
        assert(s[0] == t[0]);
        let s1 = s.subrange(1, s.len() as int);
        let t1 = t.subrange(1, t.len() as int);
        assert forall|m: u64| #[trigger] s1.contains(m) <==> t1.contains(m) by {
            if s1.contains(m) {
                let k = choose|k: int| 0 <= k < s1.len() && s1[k] == m;
                assert(s[k + 1] == m);
                assert(s.contains(m));
                let l = choose|l: int| 0 <= l < t.len() && t[l] == m;
                assert(l != 0);
                assert(t1[l - 1] == m);
            }
            if t1.contains(m) {
                let k = choose|k: int| 0 <= k < t1.len() && t1[k] == m;
                assert(t[k + 1] == m);
                assert(t.contains(m));
                assert(s.contains(m));
                let l = choose|l: int| 0 <= l < s.len() && s[l] == m;
                assert(l != 0);
                assert(s1[l - 1] == m);
            }
        }
        lemma_ascending_unique(s1, t1);
        assert(s =~= seq![s[0]] + s1);
        assert(t =~= seq![t[0]] + t1);
    }
}

/// There is one rebuild of a fragment, whatever computes it.
pub proof fn lemma_plan_unique(
    prims: Seq<PrimitiveNode>,
    bones: Seq<BoneNode>,
    g: Seq<(u64, Seq<(u64, Seq<u64>)>)>,
    h: Seq<(u64, Seq<(u64, Seq<u64>)>)>,
)
    requires
        is_plan(prims, bones, g),
        is_plan(prims, bones, h),
    ensures
        g == h,
{
    let gk = g.map_values(|x: (u64, Seq<(u64, Seq<u64>)>)| x.0);
    let hk = h.map_values(|x: (u64, Seq<(u64, Seq<u64>)>)| x.0);
    lemma_ascending_unique(gk, hk);
    assert forall|i: int| 0 <= i < g.len() implies g[i] == h[i] by {
        assert(gk[i] == hk[i]);
    }
    assert(g =~= h);
}

/// A fragment with at least one primitive under a mesh is rebuilt into at
/// least one group.
pub proof fn lemma_plan_nonempty(
    prims: Seq<PrimitiveNode>,
    bones: Seq<BoneNode>,
    groups: Seq<(u64, Seq<(u64, Seq<u64>)>)>,
    m: u64,
)
    requires
        is_plan(prims, bones, groups),
        has_mesh(prims, m),
    ensures
        groups.len() > 0,
{
    let keys = groups.map_values(|g: (u64, Seq<(u64, Seq<u64>)>)| g.0);
    assert(keys.contains(m));
}

/// `second` is `first` with its entities renamed: each primitive keeps its
/// place and its joints, and its mesh is renamed by `f`.
pub open spec fn renamed(first: Seq<PrimitiveNode>, second: Seq<PrimitiveNode>, f: spec_fn(u64) -> u64) -> bool {
    &&& first.len() == second.len()
    &&& forall|i: int|
        0 <= i < first.len() ==> {
            &&& second[i].joints@ == #[trigger] first[i].joints@
            &&& match first[i].parent {
                Some(m) => second[i].parent == Some(f(m)),
                None => second[i].parent is None,
            }
        }
}

/// The joint lists of rebuilt primitives, in order.
pub open spec fn joint_lists(ms: Seq<(u64, Seq<u64>)>) -> Seq<Seq<u64>> {
    ms.map_values(|m: (u64, Seq<u64>)| m.1)
}

proof fn lemma_members_renamed(
    first: Seq<PrimitiveNode>,
    second: Seq<PrimitiveNode>,
    f: spec_fn(u64) -> u64,
    bones: Seq<BoneNode>,
    k: u64,
)
    requires
        renamed(first, second, f),
        forall|a: u64, b: u64| #[trigger] f(a) == #[trigger] f(b) ==> a == b,
    ensures
        joint_lists(members(second, f(k), bones)) == joint_lists(members(first, k, bones)),
    decreases first.len(),
{
    if first.len() > 0 {
        let q1 = first.drop_last();
        let q2 = second.drop_last();
        assert forall|i: int| 0 <= i < q1.len() implies q2[i].joints@ == #[trigger] q1[i].joints@ && match q1[i].parent {
            Some(m) => q2[i].parent == Some(f(m)),
            None => q2[i].parent is None,
        } by {
            assert(q1[i] == first[i] && q2[i] == second[i]);
            assert(second[i].joints@ == first[i].joints@);
        }
        lemma_members_renamed(q1, q2, f, bones, k);
        let n = first.len() - 1;
        assert(second[n].joints@ == first[n].joints@);
        let r1 = members(q1, k, bones);
        let r2 = members(q2, f(k), bones);
        assert((second.last().parent == Some(f(k))) <==> (first.last().parent == Some(k)));
        if first.last().parent == Some(k) {
            let e1 = (first.last().entity, remapped(first.last().joints@, bones));
            let e2 = (second.last().entity, remapped(second.last().joints@, bones));
            assert(joint_lists(r1.push(e1)) =~= joint_lists(r1).push(e1.1));
            assert(joint_lists(r2.push(e2)) =~= joint_lists(r2).push(e2.1));
        }
    }
}

/// Two loads of the same fragment, whose entities differ by a one-to-one
/// renaming that keeps the order of meshes, are rebuilt alike: as many
/// groups, group by group the same mesh renamed, with primitives skinned to
/// the same skeleton bones.
pub proof fn lemma_rebuild_idempotent(
    first: Seq<PrimitiveNode>,
    second: Seq<PrimitiveNode>,
    f: spec_fn(u64) -> u64,
    bones: Seq<BoneNode>,
    g1: Seq<(u64, Seq<(u64, Seq<u64>)>)>,
    g2: Seq<(u64, Seq<(u64, Seq<u64>)>)>,
)
    requires
        renamed(first, second, f),
        forall|a: u64, b: u64| a < b ==> #[trigger] f(a) < #[trigger] f(b),
        is_plan(first, bones, g1),
        is_plan(second, bones, g2),
    ensures
        g2.len() == g1.len(),
        forall|i: int|
            0 <= i < g1.len() ==> #[trigger] g2[i].0 == f(g1[i].0) && joint_lists(g2[i].1)
                == joint_lists(g1[i].1),
{
    assert forall|a: u64, b: u64| #[trigger] f(a) == #[trigger] f(b) implies a == b by {
        if a < b {
            assert(f(a) < f(b));
        } else if b < a {
            assert(f(b) < f(a));
        }
    }
    let k1 = g1.map_values(|x: (u64, Seq<(u64, Seq<u64>)>)| x.0);
    let k2 = g2.map_values(|x: (u64, Seq<(u64, Seq<u64>)>)| x.0);
    let mapped = k1.map_values(f);
    assert forall|m: u64| has_mesh(first, m) <==> has_mesh(second, f(m)) by {
        if has_mesh(first, m) {
            let i = choose|i: int| 0 <= i < first.len() && #[trigger] first[i].parent == Some(m);
            assert(second[i].joints@ == first[i].joints@);
            assert(second[i].parent == Some(f(m)));
        }
        if has_mesh(second, f(m)) {
            let i = choose|i: int| 0 <= i < second.len() && #[trigger] second[i].parent == Some(f(m));
            assert(second[i].joints@ == first[i].joints@);
            match first[i].parent {
                Some(p) => {
                    assert(f(p) == f(m));
                    assert(first[i].parent == Some(m));
                },
                None => {},
            }
        }
    }
    assert forall|m: u64| #[trigger] mapped.contains(m) <==> k2.contains(m) by {
        if mapped.contains(m) {
            let i = choose|i: int| 0 <= i < mapped.len() && mapped[i] == m;
            assert(k1.contains(k1[i]));
            assert(has_mesh(first, k1[i]));
        }
        if k2.contains(m) {
            assert(has_mesh(second, m));
            let i = choose|i: int| 0 <= i < second.len() && #[trigger] second[i].parent == Some(m);
            assert(second[i].joints@ == first[i].joints@);
            let p = first[i].parent.unwrap();
            assert(first[i].parent == Some(p));
            assert(has_mesh(first, p));
            assert(k1.contains(p));
            let j = choose|j: int| 0 <= j < k1.len() && k1[j] == p;
            assert(mapped[j] == m);
        }
    }
    assert(ascending(mapped)) by {
        assert forall|i: int, j: int| 0 <= i < j < mapped.len() implies mapped[i] < mapped[j] by {
            assert(k1[i] < k1[j]);
            assert(f(k1[i]) < f(k1[j]));
        }
    }
    lemma_ascending_unique(mapped, k2);
    assert forall|i: int| 0 <= i < g1.len() implies #[trigger] g2[i].0 == f(g1[i].0) && joint_lists(
        g2[i].1,
    ) == joint_lists(g1[i].1) by {
        assert(k2[i] == mapped[i]);
        lemma_members_renamed(first, second, f, bones, g1[i].0);
    }
}

/// The first bone of `bones` named `name`, searched in order.
pub fn find_bone(bones: &Vec<BoneNode>, name: &String) -> (r: Option<u64>)
    ensures
        r == bone_for(bones@, name@),
{
    let mut found: Option<u64> = None;
    let mut i: usize = 0;
    while i < bones.len()
        invariant
            i <= bones@.len(),
            found == bone_for(bones@.take(i as int), name@),
        decreases bones@.len() - i,
    {
        assert(bones@.take(i + 1).drop_last() =~= bones@.take(i as int));
        if found.is_none() {
            match &bones[i].name {
                Some(n) => {
                    if *n == *name {
                        found = Some(bones[i].entity);
                    }
                },
                None => {},
            }
        }
        i = i + 1;
    }
    assert(bones@.take(i as int) =~= bones@);
    found
}

/// Binds the joints named `joints` to the skeleton bones of the same name.
pub fn remap_joints(joints: &Vec<Option<String>>, bones: &Vec<BoneNode>) -> (r: Vec<u64>)
    ensures
        r@ == remapped(joints@, bones@),
{
    let mut out: Vec<u64> = Vec::new();
    let mut i: usize = 0;
    while i < joints.len()
        invariant
            i <= joints@.len(),
            out@ == remapped(joints@.take(i as int), bones@),
        decreases joints@.len() - i,
    {
        assert(joints@.take(i + 1).drop_last() =~= joints@.take(i as int));
        match &joints[i] {
            Some(n) => match find_bone(bones, n) {
                Some(e) => out.push(e),
                None => {},
            },
            None => {},
        }
        i = i + 1;
    }
    assert(joints@.take(i as int) =~= joints@);
    out
}


/// The meshes that group `prims`, each once, in ascending order; a primitive
/// without a mesh is left out.
pub fn group_keys(prims: &Vec<PrimitiveNode>) -> (r: Vec<u64>)
    ensures
        mesh_order(prims@, r@),
{
    let mut keys: Vec<u64> = Vec::new();
    let mut i: usize = 0;
    while i < prims.len()
        invariant
            i <= prims@.len(),
            mesh_order(prims@.take(i as int), keys@),
        decreases prims@.len() - i,
    {
        let ghost seen = prims@.take(i as int);
        let ghost next = prims@.take(i + 1);
        assert forall|m: u64| has_mesh(next, m) <==> has_mesh(seen, m) || prims@[i as int].parent
            == Some(m) by {
            if has_mesh(seen, m) {
                let k = choose|k: int| 0 <= k < seen.len() && #[trigger] seen[k].parent == Some(m);
                assert(next[k] == seen[k]);
            }
            if prims@[i as int].parent == Some(m) {
                assert(next[i as int].parent == Some(m));
            }
            if has_mesh(next, m) {
                let k = choose|k: int| 0 <= k < next.len() && #[trigger] next[k].parent == Some(m);
                if k < i {
                    assert(seen[k] == next[k]);
                }
            }
        }
        match prims[i].parent {
            Some(p) => {
                let mut j: usize = 0;
                while j < keys.len() && keys[j] < p
                    invariant
                        j <= keys@.len(),
                        forall|t: int| 0 <= t < j ==> keys@[t] < p,
                    decreases keys@.len() - j,
                {
                    j = j + 1;
                }
                if j < keys.len() && keys[j] == p {
                    assert(keys@.contains(p));
                } else {
                    let ghost before = keys@;
                    keys.insert(j, p);
                    proof {
                        before.insert_ensures(j as int, p);
                        assert forall|a: int, b: int| 0 <= a < b < keys@.len() implies keys@[a]
                            < keys@[b] by {
                            if b < j {
                            } else if b == j {
                                assert(before[a] < p);
                            } else if a < j {
                                assert(keys@[b] == before[b - 1]);
                                assert(before[a] < p);
                                assert(p <= before[j as int]);
                                assert(before[j as int] <= before[b - 1]);
                            } else if a == j {
                                assert(keys@[b] == before[b - 1]);
                                assert(p < before[j as int]);
                                assert(before[j as int] <= before[b - 1]);
                            } else {
                                assert(keys@[b] == before[b - 1]);
                                assert(keys@[a] == before[a - 1]);
                            }
                        }
                        assert forall|m: u64| #[trigger] keys@.contains(m) <==> before.contains(m)
                            || m == p by {
                            if before.contains(m) {
                                let k = choose|k: int| 0 <= k < before.len() && before[k] == m;
                                if k < j {
                                    assert(keys@[k] == m);
                                } else {
                                    assert(keys@[k + 1] == m);
                                }
                            }
                            if m == p {
                                assert(keys@[j as int] == p);
                            }
                            if keys@.contains(m) {
                                let k = choose|k: int| 0 <= k < keys@.len() && keys@[k] == m;
                                if k < j {
                                    assert(before[k] == m);
                                } else if k > j {
                                    assert(before[k - 1] == m);
                                }
                            }
                        }
                    }
                }
            },
            None => {},
        }
        i = i + 1;
    }
    assert(prims@.take(i as int) =~= prims@);
    keys
}

/// The primitives of `prims` whose mesh is `key`, in order, each skinned to
/// the bones of `bones` that carry its joints' names.
pub fn group_members(prims: &Vec<PrimitiveNode>, key: u64, bones: &Vec<BoneNode>) -> (r: Vec<
    RebuiltPrimitive,
>)
    ensures
        r@.map_values(|p: RebuiltPrimitive| p@) == members(prims@, key, bones@),
{
    let mut out: Vec<RebuiltPrimitive> = Vec::new();
    let mut i: usize = 0;
    while i < prims.len()
        invariant
            i <= prims@.len(),
            out@.map_values(|p: RebuiltPrimitive| p@) == members(prims@.take(i as int), key, bones@),
        decreases prims@.len() - i,
    {
        assert(prims@.take(i + 1).drop_last() =~= prims@.take(i as int));
        if prims[i].parent == Some(key) {
            let joints = remap_joints(&prims[i].joints, bones);
            let ghost before = out@;
            out.push(RebuiltPrimitive { source: prims[i].entity, joints });
            assert(out@.map_values(|p: RebuiltPrimitive| p@) =~= before.map_values(
                |p: RebuiltPrimitive| p@,
            ).push(out@.last()@));
        }
        i = i + 1;
    }
    assert(prims@.take(i as int) =~= prims@);
    out
}


/// The rebuild of a fragment whose skinned primitives are `prims`, against
/// the character's skeleton `bones`: one group per mesh, in ascending order
/// of mesh, each with its primitives in order and their joints bound to the
/// skeleton by name. Primitives without a mesh are left out.
pub fn plan_rebuild(prims: &Vec<PrimitiveNode>, bones: &Vec<BoneNode>) -> (r: Vec<MeshGroup>)
    ensures
        is_plan(prims@, bones@, r@.map_values(|g: MeshGroup| g@)),
{
    let keys = group_keys(prims);
    let mut out: Vec<MeshGroup> = Vec::new();
    let mut i: usize = 0;
    while i < keys.len()
        invariant
            i <= keys@.len(),
            mesh_order(prims@, keys@),
            out@.len() == i,
            forall|t: int| 0 <= t < i ==> #[trigger] out@[t].mesh == keys@[t],
            forall|t: int|
                0 <= t < i ==> #[trigger] out@[t]@.1 == members(prims@, keys@[t], bones@),
        decreases keys@.len() - i,
    {
        let key = keys[i];
        let primitives = group_members(prims, key, bones);
        out.push(MeshGroup { mesh: key, primitives });
        i = i + 1;
    }
    let ghost views = out@.map_values(|g: MeshGroup| g@);
    assert(views.map_values(|g: (u64, Seq<(u64, Seq<u64>)>)| g.0) =~= keys@);
    assert forall|t: int| 0 <= t < views.len() implies #[trigger] views[t].1 == members(
        prims@,
        views[t].0,
        bones@,
    ) by {
        assert(views[t] == out@[t]@);
    }
    out
}

} // verus!
