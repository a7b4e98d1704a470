//! An octree for approximate pairwise force accumulation over point bodies
//! in 3D space (the Barnes-Hut scheme, generalized to an arbitrary pairwise
//! interaction law).
//!
//! Instead of evaluating all O(n^2) body-body interactions, the tree
//! partitions space hierarchically and substitutes a single aggregated
//! "super-body" for any cluster that is sufficiently distant relative to its
//! size. Positions and masses are exact integers (a fixed-point scale chosen
//! by the caller), so every aggregate, the acceptance criterion, and the
//! force law are computed and specified exactly.

pub mod limits;
pub mod vec3;
pub mod arith;
pub mod sum;
pub mod ident;
pub mod node;
pub mod query;
pub mod tree;
pub mod laws;

pub use limits::MAX_COORD;
pub use limits::MAX_BODY_MASS;
pub use limits::MAX_BODIES;
pub use limits::MAX_THETA;
pub use limits::MAX_FORCE_CONST;
pub use vec3::V3;
pub use ident::Id;
pub use node::Body;
pub use query::Contrib;
pub use query::Force;
pub use query::PointMass;
pub use tree::BarnesHutTree;
