pub mod command;
pub mod human;
pub mod probe;
pub mod removal;
pub mod removal_laws;
pub mod removal_run;
pub mod scan_category;
pub mod scan_laws;
pub mod scan_run;
pub mod scanner;
pub mod signal;
pub mod size;
pub mod size_laws;
pub mod size_run;
pub mod text;
pub mod tree;
pub mod ui;
pub mod visited;
