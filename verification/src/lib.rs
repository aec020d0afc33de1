pub mod trusted;
pub mod text;
pub mod buffer;
pub mod engine;
pub mod editor;
pub mod vim;
pub mod vim_model;
pub mod testutil;
pub mod ui;
pub mod preview;
