pub mod runner;
