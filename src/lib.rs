pub mod action;
pub mod errors;
pub mod payment_method;
pub mod text;
pub mod message_parser;
pub mod points_handler;
pub mod local_server;
pub mod input_controller;
pub mod coffee_machine;
pub mod orders;
pub mod message_sender;
