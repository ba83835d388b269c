pub mod ir_norm;
