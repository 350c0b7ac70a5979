//! Terminal panels drawn with ANSI styles: styled text, its visible width, and the lines of
//! a bordered panel.
pub mod components;
pub mod style;
