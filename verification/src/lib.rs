//! Declarative control flow for component trees: a multi-way `if` that shows
//! exactly one of its blocks, and keyed portals that show content at another
//! place than the one that wrote it.
//!
//! - [`if_::If`] selects among the blocks built by [`if_::Then`],
//!   [`if_::ElseIf`] and [`if_::Else`], and asks for a block to be rendered
//!   only when the selection has changed.
//! - [`portal::PortalInput`] and [`portal::PortalOutput`] write to and take
//!   from the registry that [`portal::PortalProvider`] sets up.
//!
//! Both are kept free of any rendering framework. A block or a portal holds a
//! value of the caller's choosing (a renderer, most often), conditions come in
//! as plain `bool` values, and every function says in its contract what it
//! returns and what it changes.

pub mod if_;
pub mod portal;
pub mod prelude;
