//! Keeping a live widget tree in step with a declarative one.
//!
//! An application describes its screen as a tree of [`node::Node`]s. When
//! the description changes, [`diff::diff`] computes the patches that turn
//! the old tree into the new one, and [`apply::apply_patches`] applies
//! them to the native widgets that were built from the old tree by
//! [`factory::from_node_tree`], so that nothing is rebuilt that can stay.
//!
//! Nodes and native widgets are numbered in the same way, in pre-order;
//! a patch names its target by that number. [`index::find_nodes`] finds
//! the widgets of the numbers a batch of patches names.
//!
//! The native tree is a model: it holds what a toolkit shows, as plain
//! values. A toolkit binding reads the model off its widgets and writes
//! it onto them.
//!
//! What holds of every diff is proved in [`laws`], [`agreement`],
//! [`suited`] and [`roundtrip`]: a tree against itself needs no patch; every patch
//! targets a node of the old tree; the tree and the widgets built from it
//! agree on numbers; every patch suits the widget it targets; children
//! that carry distinct keys can change their order without being
//! replaced; and applying a diff to the widgets of the old tree gives
//! the widgets of the new tree, unless children changed their order.
pub mod agreement;
pub mod apply;
pub mod attrs;
pub mod diff;
pub mod factory;
pub mod index;
pub mod laws;
pub mod native;
pub mod node;
pub mod patch;
pub mod roundtrip;
pub mod settle;
pub mod suited;
pub mod value;
pub mod widget;
