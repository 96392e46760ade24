pub mod autotest;
