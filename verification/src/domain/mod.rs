pub mod kind;
