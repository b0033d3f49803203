//! Writes down what an arithmetic circuit demands of its tables as a
//! document of definitions: one function per selector and fixed column, one
//! proposition per gate and copy constraint, and a closing proposition that
//! joins them.
//!
//! [`extraction`] holds the recorder of synthesis events and writes the
//! parts of the document; [`tables`] says what the recorder holds and what
//! holds of every run; [`utils`] reads column and selector handles;
//! [`step`] turns sparse column data into match arms and proves that the
//! arms give the data back; [`gates`] rewrites gate polynomials; [`scope`]
//! scopes references to instance cells; [`document`] holds the text of each
//! part. [`order`], [`text`] and [`pattern`] are what those stand on.

pub mod document;
pub mod extraction;
pub mod gates;
pub mod order;
pub mod pattern;
pub mod scope;
pub mod step;
pub mod tables;
pub mod text;
pub mod utils;
