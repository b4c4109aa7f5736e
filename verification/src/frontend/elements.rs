//! The menus of the header and the forms that open beside the plot.

pub mod header;
pub mod popups;
