pub mod patch;
