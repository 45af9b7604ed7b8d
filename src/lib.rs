pub mod kernel;
pub mod laws;
pub mod limits;
pub mod matrix;
pub mod metric;
pub mod tensor;
