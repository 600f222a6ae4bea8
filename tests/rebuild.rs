use modular_character::{
    depth_first,
    find_bone, group_keys, group_members, plan_rebuild, remap_joints, BoneNode, PrimitiveNode,
};

fn bone(entity: u64, name: &str) -> BoneNode {
    BoneNode { entity, name: Some(name.to_string()) }
}

fn joints(names: &[&str]) -> Vec<Option<String>> {
    names.iter().map(|n| Some(n.to_string())).collect()
}

fn skeleton() -> Vec<BoneNode> {
    vec![
        bone(1, "root"),
        BoneNode { entity: 2, name: None },
        bone(3, "hand_L"),
        bone(4, "hand_R"),
        bone(5, "hand_L"),
    ]
}

#[test]
fn joint_remapping_drops_unbound() {
    let bones = skeleton();
    let r = remap_joints(&joints(&["hand_L", "hand_R", "ghost"]), &bones);
    assert_eq!(r, vec![3, 4]);
}

#[test]
fn unnamed_joint_is_dropped() {
    let bones = skeleton();
    let r = remap_joints(&vec![None, Some("hand_R".to_string()), Some("root".to_string())], &bones);
    assert_eq!(r, vec![4, 1]);
}

#[test]
fn first_bone_of_a_name_wins() {
    let bones = skeleton();
    assert_eq!(find_bone(&bones, &"hand_L".to_string()), Some(3));
    assert_eq!(find_bone(&bones, &"ghost".to_string()), None);
    assert_eq!(find_bone(&vec![], &"root".to_string()), None);
}

#[test]
fn primitives_grouped_by_mesh() {
    let prims = vec![
        PrimitiveNode { entity: 10, parent: Some(200), joints: joints(&["hand_L"]) },
        PrimitiveNode { entity: 11, parent: Some(100), joints: joints(&["hand_R"]) },
        PrimitiveNode { entity: 12, parent: None, joints: joints(&["root"]) },
        PrimitiveNode { entity: 13, parent: Some(200), joints: joints(&["ghost", "root"]) },
    ];
    assert_eq!(group_keys(&prims), vec![100, 200]);
    let bones = skeleton();
    let m = group_members(&prims, 200, &bones);
    assert_eq!(m.len(), 2);
    assert_eq!((m[0].source, m[0].joints.clone()), (10, vec![3]));
    assert_eq!((m[1].source, m[1].joints.clone()), (13, vec![1]));

    let plan = plan_rebuild(&prims, &bones);
    assert_eq!(plan.len(), 2);
    assert_eq!(plan[0].mesh, 100);
    assert_eq!(plan[0].primitives.len(), 1);
    assert_eq!(plan[0].primitives[0].source, 11);
    assert_eq!(plan[0].primitives[0].joints, vec![4]);
    assert_eq!(plan[1].mesh, 200);
    assert_eq!(plan[1].primitives.len(), 2);
    assert_eq!(plan[1].primitives[1].source, 13);
}

#[test]
fn mesh_keys_ascend_whatever_the_enumeration() {
    let prims = vec![
        PrimitiveNode { entity: 1, parent: Some(9), joints: vec![] },
        PrimitiveNode { entity: 2, parent: Some(3), joints: vec![] },
        PrimitiveNode { entity: 3, parent: Some(9), joints: vec![] },
        PrimitiveNode { entity: 4, parent: Some(5), joints: vec![] },
        PrimitiveNode { entity: 5, parent: Some(3), joints: vec![] },
    ];
    assert_eq!(group_keys(&prims), vec![3, 5, 9]);
}

#[test]
fn empty_fragment_plans_nothing() {
    assert!(plan_rebuild(&vec![], &skeleton()).is_empty());
}

#[test]
fn same_fragment_rebuilds_the_same() {
    let bones = skeleton();
    let first = vec![
        PrimitiveNode { entity: 10, parent: Some(50), joints: joints(&["hand_L", "hand_R"]) },
        PrimitiveNode { entity: 11, parent: Some(51), joints: joints(&["root"]) },
    ];
    let second = vec![
        PrimitiveNode { entity: 20, parent: Some(60), joints: joints(&["hand_L", "hand_R"]) },
        PrimitiveNode { entity: 21, parent: Some(61), joints: joints(&["root"]) },
    ];
    let a = plan_rebuild(&first, &bones);
    let b = plan_rebuild(&second, &bones);
    assert_eq!(a.len(), b.len());
    for (ga, gb) in a.iter().zip(b.iter()) {
        assert_eq!(ga.primitives.len(), gb.primitives.len());
        for (pa, pb) in ga.primitives.iter().zip(gb.primitives.iter()) {
            assert_eq!(pa.joints, pb.joints);
        }
    }
}

#[test]
fn skeleton_searched_depth_first() {
    // 0: root with children 1 and 4; 1 has 2 and 3; 4 has 5
    let children = vec![vec![1, 4], vec![2, 3], vec![], vec![], vec![5], vec![]];
    assert_eq!(depth_first(&children, 0), vec![1, 2, 3, 4, 5]);
    assert_eq!(depth_first(&children, 4), vec![5]);
    assert_eq!(depth_first(&children, 2), Vec::<usize>::new());
}

#[test]
fn depth_first_order_decides_the_bone() {
    // a breadth-first walk would meet bone 3 before bone 2
    let children = vec![vec![1, 3], vec![2], vec![], vec![]];
    let names = ["root", "arm", "hand_L", "hand_L"];
    let order = depth_first(&children, 0);
    let bones: Vec<BoneNode> = order.iter().map(|i| bone(*i as u64, names[*i])).collect();
    assert_eq!(remap_joints(&joints(&["hand_L"]), &bones), vec![2]);
}
