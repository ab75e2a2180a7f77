pub mod agentwrap;
pub mod approved_commands;
pub mod board;
pub mod click;
pub mod curation;
pub mod daemon;
pub mod discovery;
pub mod engine;
pub mod focus;
pub mod history;
pub mod json;
pub mod launch;
pub mod lister;
pub mod menu;
pub mod model;
pub mod nav;
pub mod order;
pub mod palette;
pub mod path;
pub mod paths;
pub mod picker;
pub mod placement;
pub mod prompt;
pub mod rpc;
pub mod text;
pub mod transition;
pub mod watch;
