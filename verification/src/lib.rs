pub mod consts;
pub mod operating_system;
pub mod real_machine;
pub mod text;
pub mod virtual_machine;
