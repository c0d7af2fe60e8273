use vstd::prelude::*;

verus! {

/// How to set up particles that are read from SVG files.
pub struct ParticleSettings<T> {
    /// Mass of each particle. Higher mass means more inertia and resistance to movement.
    pub mass: T,
    /// Friction coefficient of each particle: how quickly it loses velocity over time.
    pub friction: T,
    /// Whether the particles are pinned in place rather than free to move.
    pub is_static: bool,
}

/// Stiffnesses and friction of a simple body built in code (a polygon or a rectangle).
pub struct SimpleBodySettings<T> {
    /// Stiffness of the distance constraints along the outline.
    pub stiffness_distance: T,
    /// Stiffness of the diagonal distance constraints.
    pub stiffness_shear: T,
    /// Stiffness of the area constraint.
    pub stiffness_area: T,
    /// Stiffness of the bending constraints.
    pub stiffness_bending: T,
    /// Friction coefficient of each particle.
    pub friction: T,
}

/// Stiffnesses of the constraints that are generated for SVG polygon shapes.
pub struct ConstraintSettings<T> {
    /// Stiffness of the distance constraints along the outline of a body.
    pub stiffness_distance: T,
    /// Stiffness of the shear distance constraints between non-adjacent particles.
    pub stiffness_shear: T,
    /// Stiffness of the bending constraints, which resist changes of the angle between edges.
    pub stiffness_bending: T,
    /// Stiffness of the area constraint of a body.
    pub stiffness_area: T,
    /// Stiffness of the attachment constraints between a child body and its parent.
    pub attachment_stiffness: T,
}

/// How child bodies are attached to their parent bodies.
pub struct AttachmentSettings<T> {
    /// Stride with which child particles are sampled as attachment anchors.
    pub child_sample_stride: usize,
    /// The largest number of anchors chosen on one child body.
    pub max_total_attachments: usize,
    /// Anchors farther from the parent than this factor times the median distance are pruned.
    pub max_distance_factor: T,
    /// Number of parent particles each child anchor is tied to.
    pub parent_springs_per_child_anchor: usize,
}

/// Settings of the bodies read from SVG files.
pub struct BodySettings<T> {
    pub particle_settings: ParticleSettings<T>,
}

/// Settings of the constraints generated for bodies read from SVG files.
pub struct SVGConstraintSettings<T> {
    /// Stiffnesses of the generated constraints.
    pub constraint_settings: ConstraintSettings<T>,
    /// How child bodies are attached to their parents.
    pub attachment_settings: AttachmentSettings<T>,
}

impl<T> BodySettings<T> {
    /// Body settings with the given particle mass, friction and pinning.
    pub fn from_values(mass: T, friction: T, is_static: bool) -> (s: Self)
        ensures
            s.particle_settings.mass == mass,
            s.particle_settings.friction == friction,
            s.particle_settings.is_static == is_static,
    {
        BodySettings { particle_settings: ParticleSettings { mass, friction, is_static } }
    }
}

impl<T> SVGConstraintSettings<T> {
    /// Constraint settings with the given stiffnesses and attachment parameters.
    pub fn from_values(
        stiffness_distance: T,
        stiffness_shear: T,
        stiffness_bending: T,
        stiffness_area: T,
        attachment_stiffness: T,
        child_sample_stride: usize,
        max_total_attachments: usize,
        max_distance_factor: T,
        parent_springs_per_child_anchor: usize,
    ) -> (s: Self)
        ensures
            s.constraint_settings.stiffness_distance == stiffness_distance,
            s.constraint_settings.stiffness_shear == stiffness_shear,
            s.constraint_settings.stiffness_bending == stiffness_bending,
            s.constraint_settings.stiffness_area == stiffness_area,
            s.constraint_settings.attachment_stiffness == attachment_stiffness,
            s.attachment_settings.child_sample_stride == child_sample_stride,
            s.attachment_settings.max_total_attachments == max_total_attachments,
            s.attachment_settings.max_distance_factor == max_distance_factor,
            s.attachment_settings.parent_springs_per_child_anchor
                == parent_springs_per_child_anchor,
    {
        SVGConstraintSettings {
            constraint_settings: ConstraintSettings {
                stiffness_distance,
                stiffness_shear,
                stiffness_bending,
                stiffness_area,
                attachment_stiffness,
            },
            attachment_settings: AttachmentSettings {
                child_sample_stride,
                max_total_attachments,
                max_distance_factor,
                parent_springs_per_child_anchor,
            },
        }
    }
}

} // verus!
