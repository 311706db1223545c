pub mod input_controller;
