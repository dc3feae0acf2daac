pub mod python;
