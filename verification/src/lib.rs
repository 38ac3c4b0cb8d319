//! Page/dataset model and navigation engine for a terminal client that
//! renders remotely described user interfaces.
//!
//! A host sends declarative pages (trees of typed elements), datasets that
//! elements can be bound to, and incremental patches. This library holds the
//! verified core: the element-tree data model, dataset binding and template
//! resolution, the id-to-path index, the directional focus-traversal
//! algorithm, the layout-sizing computation, and the state machine that
//! consumes input events and protocol messages.

pub mod element;
pub mod dataset;
pub mod text;
pub mod page;
pub mod page_list;
pub mod navigate;
pub mod page_state;
pub mod layout;
pub mod messages;
pub mod ui;
pub mod config;
pub mod processor;
