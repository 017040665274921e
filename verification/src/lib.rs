//! Scene graph of a visual editor and the generator that turns it into
//! source text for the Turbo rendering DSL.
//!
//! A [`scene::Scene`] owns its nodes by identifier. Nodes refer to each other
//! by identifier only: a node names its parent and lists its children, and
//! the order of that list is the order of the generated statements.
//! [`tree::SceneModel::well_formed`] states what makes the nodes a single
//! tree; every operation of the store keeps it, and an operation that fails
//! changes nothing.
//!
//! [`code_gen::generate_turbo_code`] walks the tree from the root and writes
//! the program. Its result is a function of the scene alone.
//!
//! Numbers are held as the bit pattern of a double together with the numeral
//! that the host wrote for it; see [`property::Number`].

pub mod code_gen;
pub mod editor;
pub mod ident;
pub mod listing;
pub mod node;
pub mod property;
pub mod reach;
pub mod removal;
pub mod render;
pub mod scene;
pub mod sweep;
pub mod text;
pub mod tree;
pub mod walk;
