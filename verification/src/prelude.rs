//! Every component and what it works on, for one import.

pub use crate::if_::{Else, ElseIf, If, IfBlock, MalformedBranchSet, Pass, Rendering, Then};
pub use crate::portal::{PortalCtx, PortalError, PortalInput, PortalOutput, PortalProvider};
