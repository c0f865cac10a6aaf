//! The document model of a vector design tool: a scene graph of visual nodes,
//! a flex and grid layout pass, reusable components with variants and
//! instances, and snapshot-based undo.
//!
//! Every scalar is a fixed-point number (see `types`). Each type that owns
//! strings or vectors has a view, a value of mathematics, and the contracts
//! speak of views. A scene is modelled by `tree::SceneView`; the operations
//! on it are functions of that model (`tree_ops`, `layout`, `instance`), and
//! the executable code is proved to compute them.

/// Scalars, points, rectangles and colours.
pub mod types;
/// Views of nested values, and deep equality.
pub mod deep;
/// Lists of node ids.
pub mod ids;
/// Text: order, sorting, joining, numbers as text.
pub mod text;
/// Nodes and their layout configuration.
pub mod node;
/// Components, variant keys, and the store of components.
pub mod component;
/// The model of a scene: a forest of nodes held by id.
pub mod tree;
/// Insertion, removal and moving of nodes on the model.
pub mod tree_ops;
/// Telling whether data describe a forest.
pub mod tree_check;
/// The render order holds every node once.
pub mod tree_order;
/// The scene: the store of nodes.
pub mod scene;
/// The layout pass.
pub mod layout;
/// Hit testing of resize handles.
pub mod hit_test;
/// JSON as the library reads it.
pub mod json;
/// Components made of frames, and instances of components.
pub mod instance;
/// The engine: scene, components and undo history.
pub mod engine;
