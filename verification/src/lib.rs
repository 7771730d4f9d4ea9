pub mod text;
pub mod strings;
pub mod pattern;
pub mod json;
pub mod types;
pub mod buffer;
pub mod lexer;
pub mod compiler;
pub mod output;
pub mod editor;
pub mod preview;
pub mod assistant;
pub mod settings;
pub mod tabs;
pub mod project;
pub mod completion;
pub mod highlight;
