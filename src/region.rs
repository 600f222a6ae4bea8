use vstd::prelude::*;

verus! {

/// A swappable body region of a character.
#[derive(Clone, Copy, Debug, PartialEq, Eq, Structural)]
pub enum Region {
    Head,
    Body,
    Legs,
    Feet,
}

/// One step through a region's catalog.
#[derive(Clone, Copy, Debug, PartialEq, Eq, Structural)]
pub enum Step {
    Decrement,
    Increment,
}

/// Number of variants in the catalog of a region.
pub open spec fn region_len(region: Region) -> nat {
    match region {
        Region::Head => 4,
        Region::Body => 5,
        Region::Legs => 5,
        Region::Feet => 4,
    }
}

/// The catalog entry of a region at an index.
pub open spec fn region_path(region: Region, id: nat) -> &'static str {
    match region {
        Region::Head => if id == 0 {
            "Witch.gltf#Scene2"
        } else if id == 1 {
            "SciFi.gltf#Scene2"
        } else if id == 2 {
            "Soldier.gltf#Scene2"
        } else {
            "Adventurer.gltf#Scene2"
        },
        Region::Body => if id == 0 {
            "Witch.gltf#Scene3"
        } else if id == 1 {
            "SciFi.gltf#Scene3"
        } else if id == 2 {
            "Soldier.gltf#Scene3"
        } else if id == 3 {
            "Adventurer.gltf#Scene3"
        } else {
            "scifi_torso.glb#Scene0"
        },
        Region::Legs => if id == 0 {
            "Witch.gltf#Scene4"
        } else if id == 1 {
            "SciFi.gltf#Scene4"
        } else if id == 2 {
            "Soldier.gltf#Scene4"
        } else if id == 3 {
            "Adventurer.gltf#Scene4"
        } else {
            "witch_legs.glb#Scene0"
        },
        Region::Feet => if id == 0 {
            "Witch.gltf#Scene5"
        } else if id == 1 {
            "SciFi.gltf#Scene5"
        } else if id == 2 {
            "Soldier.gltf#Scene5"
        } else {
            "Adventurer.gltf#Scene5"
        },
    }
}

/// The index reached from `id` by one step in a catalog of `len` entries,
/// wrapping around at both ends.
pub open spec fn stepped(id: nat, step: Step, len: nat) -> nat
    recommends
        0 < len,
{
    match step {
        Step::Increment => ((id + 1) % len) as nat,
        Step::Decrement => ((id + len - 1) as nat % len) as nat,
    }
}

/// The index reached from `id` after every step of `steps`, in order.
pub open spec fn stepped_all(id: nat, steps: Seq<Step>, len: nat) -> nat
    recommends
        0 < len,
    decreases steps.len(),
{
    if steps.len() == 0 {
        id
    } else {
        stepped(stepped_all(id, steps.drop_last(), len), steps.last(), len)
    }
}

/// Number of variants in the catalog of `region`.
pub fn catalog_len(region: Region) -> (r: usize)
    ensures
        r == region_len(region),
        0 < r,
{
    match region {
        Region::Head => 4,
        Region::Body => 5,
        Region::Legs => 5,
        Region::Feet => 4,
    }
}

/// The asset path of variant `id` of `region`.
pub fn catalog_path(region: Region, id: usize) -> (r: &'static str)
    requires
        id < region_len(region),
    ensures
        r == region_path(region, id as nat),
{
    match region {
        Region::Head => if id == 0 {
            "Witch.gltf#Scene2"
        } else if id == 1 {
            "SciFi.gltf#Scene2"
        } else if id == 2 {
            "Soldier.gltf#Scene2"
        } else {
            "Adventurer.gltf#Scene2"
        },
        Region::Body => if id == 0 {
            "Witch.gltf#Scene3"
        } else if id == 1 {
            "SciFi.gltf#Scene3"
        } else if id == 2 {
            "Soldier.gltf#Scene3"
        } else if id == 3 {
            "Adventurer.gltf#Scene3"
        } else {
            "scifi_torso.glb#Scene0"
        },
        Region::Legs => if id == 0 {
            "Witch.gltf#Scene4"
        } else if id == 1 {
            "SciFi.gltf#Scene4"
        } else if id == 2 {
            "Soldier.gltf#Scene4"
        } else if id == 3 {
            "Adventurer.gltf#Scene4"
        } else {
            "witch_legs.glb#Scene0"
        },
        Region::Feet => if id == 0 {
            "Witch.gltf#Scene5"
        } else if id == 1 {
            "SciFi.gltf#Scene5"
        } else if id == 2 {
            "Soldier.gltf#Scene5"
        } else {
            "Adventurer.gltf#Scene5"
        },
    }
}

/// The index reached from `id` by one step in a catalog of `len` entries.
pub fn step_variant(id: usize, step: Step, len: usize) -> (r: usize)
    requires
        id < len,
    ensures
        r == stepped(id as nat, step, len as nat),
        r < len,
{
    match step {
        Step::Increment => if id + 1 == len {
            proof {
                vstd::arithmetic::div_mod::lemma_mod_self_0(len as int);
            }
            0
        } else {
            proof {
                vstd::arithmetic::div_mod::lemma_small_mod((id + 1) as nat, len as nat);
            }
            id + 1
        },
        Step::Decrement => if id == 0 {
            proof {
                vstd::arithmetic::div_mod::lemma_small_mod((len - 1) as nat, len as nat);
            }
            len - 1
        } else {
            proof {
                vstd::arithmetic::div_mod::lemma_mod_add_multiples_vanish((id - 1) as int, len as int);
                vstd::arithmetic::div_mod::lemma_small_mod((id - 1) as nat, len as nat);
            }
            id - 1
        },
    }
}

/// Every sequence of steps keeps an index inside its catalog, and a step wraps
/// around at both ends: down from the first entry to the last, up from the last
/// entry to the first.
pub proof fn lemma_steps_stay_in_catalog(id: nat, steps: Seq<Step>, len: nat)
    requires
        id < len,
    ensures
        stepped_all(id, steps, len) < len,
        stepped(0, Step::Decrement, len) == len - 1,
        stepped((len - 1) as nat, Step::Increment, len) == 0,
    decreases steps.len(),
{
    if steps.len() > 0 {
        lemma_steps_stay_in_catalog(id, steps.drop_last(), len);
    }
    vstd::arithmetic::div_mod::lemma_small_mod((len - 1) as nat, len);
    if steps.len() > 0 {
        let prev = stepped_all(id, steps.drop_last(), len);
        vstd::arithmetic::div_mod::lemma_mod_bound((prev + len - 1) as int, len as int);
        vstd::arithmetic::div_mod::lemma_mod_bound((prev + 1) as int, len as int);
    }
    vstd::arithmetic::div_mod::lemma_mod_self_0(len as int);
}

} // verus!
