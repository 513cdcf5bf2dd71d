pub mod help;
pub mod interface;
pub mod sidebar;
