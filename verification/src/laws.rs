//! What holds of the library's functions, said of what goes into them and what comes out.
pub mod acting;
pub mod planning;
pub mod telling;
pub mod writing;
