pub mod history;
