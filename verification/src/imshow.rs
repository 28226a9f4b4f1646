pub mod lut;
