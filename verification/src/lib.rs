//! A verified core for a 2D simulation of circular rigid bodies in a bounded
//! arena: integer-grid geometry primitives, a quadtree spatial index,
//! wall-collision checks, broad-phase pair detection with positional
//! correction, and the elastic-collision impulse response.

mod bounds;
mod collision;
mod location;
mod num;
mod point;
mod quadtree;
mod sim;

pub use bounds::Bounds;
pub use collision::balls_bounce_after_collision;
pub use collision::Ball;
pub use collision::BallCollisions;
pub use collision::EdgeCollider;
pub use collision::lemma_bounce_conserves;
pub use collision::lemma_bounce_momentum_bound;
pub use collision::lemma_check_symmetric;
pub use collision::lemma_correction_near_contact;
pub use collision::lemma_correction_restores_contact;
pub use collision::Velocity;
pub use collision::DIST2_GUARD;
pub use collision::MASS_LIMIT;
pub use collision::POS_GUARD;
pub use collision::RADIUS_LIMIT;
pub use collision::VEL_GUARD;
pub use quadtree::bounds_fuel;
pub use quadtree::lemma_empty_iff_count_zero;
pub use quadtree::lemma_entry_in_every_overlapping_leaf;
pub use quadtree::lemma_regions_wf;
pub use quadtree::lemma_model_regions;
pub use quadtree::lemma_regions_leaf_bodies;
pub use quadtree::model_regions;
pub use quadtree::spec_insert_fueled;
pub use quadtree::spec_insert_tree;
pub use quadtree::Body;
pub use quadtree::BodyModel;
pub use quadtree::ChildrenModel;
pub use quadtree::TreeModel;
pub use quadtree::Children;
pub use quadtree::ErrorKind;
pub use quadtree::Options;
pub use quadtree::QuadTree;
pub use quadtree::Region;
pub use location::Location;
pub use num::div_trunc;
pub use num::isqrt;
pub use num::lemma_div_trunc_bound;
pub use num::lemma_div_trunc_exact;
pub use bounds::in_space;
pub use bounds::lemma_quadrants_wf;
pub use bounds::lemma_split_tiles;
pub use bounds::SPACE_LIMIT;
pub use point::Point;
pub use sim::apply_velocity;
pub use sim::build_index;
pub use sim::spec_build;
pub use sim::check_walls;
pub use sim::collide_regions;
pub use sim::find_body;
pub use sim::respond_pairs;
pub use sim::tick;
pub use sim::SimBody;
pub use sim::ARENA_LIMIT;
pub use sim::DT_LIMIT;
pub use sim::TICK_POS_LIMIT;
