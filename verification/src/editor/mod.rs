pub mod preview;
pub mod tmux;
pub mod upload;
pub mod db;
pub mod scribe;
pub mod kitty;
pub mod llm;
pub mod ops;
pub mod list;
pub mod vim;
