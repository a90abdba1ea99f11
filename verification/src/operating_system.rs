pub mod accounts;
pub mod kernel;
pub mod laws;
pub mod order;
pub mod print_line;
pub mod process;
pub mod resource;
pub mod resource_list;
pub mod schedule;
pub mod script;
pub mod search;
pub mod trace;
