pub mod instructions_handler;
