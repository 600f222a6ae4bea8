//! Runtime composition of a character from hot-swappable body segments.
//!
//! The library holds the decisions: which variant a slot shows, when a load is
//! abandoned, when a loaded fragment is rebuilt under the character, how its
//! mesh primitives are grouped and how their joints are bound to the
//! character's skeleton. The engine that loads assets and stores entities is
//! driven by the caller, which hands the library plain values.
pub mod region;
pub mod slot;
pub mod rebuild;
pub mod character;
pub mod animation;
pub mod skeleton;

pub use region::{catalog_len, catalog_path, step_variant, Region, Step};
pub use slot::{SegmentSlot, SlotModel, UpdateStep};
pub use rebuild::{find_bone, group_keys, group_members, plan_rebuild, remap_joints, BoneNode, MeshGroup, PrimitiveNode, RebuiltPrimitive};
pub use character::{input_step, ModularCharacter, ModularPlugin, ResetChanged};
pub use animation::{AnimationCycle, ANIMATION_COUNT};
pub use skeleton::depth_first;
