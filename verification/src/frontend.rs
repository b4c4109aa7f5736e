//! What the user sees of the spectra, as far as it is decided here: the
//! menus, the forms that ask for input, and what a selection in the plot
//! points at.

pub mod elements;
pub mod plot;
