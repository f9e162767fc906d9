//! Encoding of classic 9x9 Sudoku puzzles as CNF formulas in the DIMACS
//! exchange format, and decoding of a solver's model back into a grid.
pub mod clause;
pub mod decode;
pub mod grid;
pub mod literal;
pub mod parse;
pub mod render;
pub mod rules;
pub mod solver;
pub mod text;
