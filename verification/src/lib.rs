//! Verified core of the Chubby Bunny soft-body toolkit.
mod attachment;
mod color;
mod constraints;
mod enums;
mod input;
mod paint;
mod ids;
mod path_data;
mod path_segments;
mod profiling;
mod settings;
mod style;
mod svg_plan;
mod svg_tree;
mod topology;

pub use attachment::{expand_candidates_to_supports, prune_distance_outliers, select_child_anchor_indices, sort_candidates_by_distance, AttachmentCandidate};
pub use ids::{next_id, BodyId, IdCounter};
pub use path_segments::{polygon_segment_plan, segment_plan, SegmentKind, SegmentStep};
pub use path_data::{parse_simple_polygon_path, parses_as_float, plan_polygon_path, tokenize_path_data, PathStep};
pub use settings::{
    AttachmentSettings, BodySettings, ConstraintSettings, ParticleSettings, SVGConstraintSettings,
    SimpleBodySettings,
};
pub use topology::{opposite_shear_pairs, ring_step_pairs, bending_constraint_triples, boundary_constraint_pairs, ring_neighbors, shear_constraint_pairs};
pub use enums::{EventType, ForceDecayType};
pub use input::{Event, InputState, MouseButton, MouseEventType};
pub use svg_plan::{plan_group_bodies, plan_svg_bodies, PlannedBody};
pub use svg_tree::{split_paths_and_groups, Group, Svg, SvgNode, SvgPath};
pub use profiling::{begin_frame, end_frame, take_last_frame, OpenScope, ProfileGuard, ProfileNode, Profiler};
pub use color::parse_hex_color;
pub use constraints::{
    AreaConstraint, AttachmentConstraint, BendingConstraint, CollisionConstraint, DistanceConstraint,
    WallConstraint,
};
pub use style::{style_declarations, style_values, ChannelStyle, StyleValues};
pub use paint::{color_of_paint, parse_paint_color, PaintFallbackValue, PaintValue, SvgPaint};
