use vstd::prelude::*;

use crate::ids::BodyId;
use std::collections::HashMap;

verus! {

/// Keeps the distance between two particles of a body.
#[derive(Clone, Debug)]
pub struct DistanceConstraint<T> {
    /// Index of the first particle.
    pub idx_left: usize,
    /// Index of the second particle.
    pub idx_right: usize,
    /// Rest distance between the particles, measured when the constraint was made.
    pub target_distance: T,
    /// Solver stiffness in `[0, 1]`: higher values enforce the target more strongly.
    pub stiffness: T,
}

/// Keeps the area of the closed polygon that a body's particles form.
#[derive(Clone, Debug)]
pub struct AreaConstraint<T> {
    /// Area when the constraint was made.
    pub rest_area: T,
    /// Solver stiffness in `[0, 1]`: higher values enforce the target more strongly.
    pub stiffness: T,
}

/// Keeps the turning angle at a vertex of a body's polygon.
#[derive(Clone, Debug)]
pub struct BendingConstraint<T> {
    /// Index of the previous neighbour vertex.
    pub idx_prev: usize,
    /// Index of the constrained vertex.
    pub idx_center: usize,
    /// Index of the next neighbour vertex.
    pub idx_next: usize,
    /// Rest turning angle (radians), measured when the constraint was made.
    pub rest_angle: T,
    /// Solver stiffness in `[0, 1]`: higher values enforce the target more strongly.
    pub stiffness: T,
}

/// A one-sided wall along the line through two particles of a parent body, which keeps
/// the parent's children on one side of it.
#[derive(Clone, Debug)]
pub struct WallConstraint<T> {
    /// Index of the parent particle where the line starts.
    pub parent_point_idx_origin: usize,
    /// Index of the parent particle where the line ends.
    pub parent_point_idx_end: usize,
    /// Solver stiffness in `[0, 1]`: higher values enforce the target more strongly.
    pub stiffness: T,
}

/// Ties a child body to its parent body by keeping the distances between pairs of parent
/// and child particles.
#[derive(Clone, Debug)]
pub struct AttachmentConstraint<T> {
    /// Id of the child body that the constraint acts on.
    pub id: BodyId,
    /// Indices of the parent particles of the pairs.
    pub point_idxs_parent: Vec<usize>,
    /// Indices of the child particles of the pairs.
    pub point_idxs_child: Vec<usize>,
    /// Rest distances of the pairs.
    pub target_distances: Vec<T>,
    /// Solver stiffness in `[0, 1]`: higher values enforce the target more strongly.
    pub stiffness: T,
}

impl<T> AttachmentConstraint<T> {
    /// The id of the body that the constraint acts on.
    pub fn get_id(&self) -> (id: BodyId)
        ensures
            id == self.id,
    {
        self.id
    }

    /// Follows a renaming of bodies: where `id_map` gives a new id for the body that the
    /// constraint acts on, the constraint acts on that id from now on.
    pub fn remap_body_ids(&mut self, id_map: &HashMap<BodyId, BodyId>)
        ensures
            final(self).id == (if id_map@.contains_key(old(self).id) {
                id_map@[old(self).id]
            } else {
                old(self).id
            }),
            final(self).point_idxs_parent == old(self).point_idxs_parent,
            final(self).point_idxs_child == old(self).point_idxs_child,
            final(self).target_distances == old(self).target_distances,
            final(self).stiffness == old(self).stiffness,
    {
        proof {
            broadcast use vstd::std_specs::hash::group_hash_axioms;
        }
        match id_map.get(&self.id) {
            Some(new_id) => {
                self.id = *new_id;
            },
            None => {},
        }
    }
}

/// Collision between two child bodies of the same parent, both of which move.
#[derive(Clone, Debug)]
pub struct CollisionConstraint<T> {
    /// Solver stiffness in `[0, 1]`: higher values enforce the target more strongly.
    stiffness: T,
}

impl<T: Copy> CollisionConstraint<T> {
    /// The stiffness of the constraint.
    pub closed spec fn stiffness_spec(&self) -> T {
        self.stiffness
    }

    /// A collision constraint with the given stiffness.
    pub fn new(stiffness: T) -> (c: Self)
        ensures
            c.stiffness_spec() == stiffness,
    {
        CollisionConstraint { stiffness }
    }

    /// The stiffness the constraint was made with.
    pub fn stiffness(&self) -> (s: T)
        ensures
            s == self.stiffness_spec(),
    {
        self.stiffness
    }
}

} // verus!
