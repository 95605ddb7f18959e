pub mod main;
