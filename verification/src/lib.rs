//! Layout logic of the vertical tab column of a terminal client shell:
//! title wrapping, section reservation inside the sidebar, and the
//! placement of the tab rows, scrollbar and drag indicator.

pub mod geometry;
pub mod text;
pub mod title_laws;
pub mod model;
pub mod section;
pub mod column;
pub mod layout_laws;
