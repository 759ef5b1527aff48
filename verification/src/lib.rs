//! Condition-gated animation state graphs and cyclic frame sequencing.

pub mod animator;
pub mod error;
pub mod name_map;
pub mod node_tree;
pub mod number;
pub mod state_graph;
pub mod texture_iterator;
pub mod variable_manager;

pub use animator::{Animation, AnimationData, Animator, Frame};
pub use error::AnimationError;
pub use name_map::NameMap;
pub use number::Number;
pub use state_graph::{GraphNode, StateGraph, Transition};
pub use texture_iterator::TextureIterator;
pub use variable_manager::{Condition, Operand, VariableManager};
