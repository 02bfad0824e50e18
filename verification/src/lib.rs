//! A system-information display library: a template resolution engine that
//! substitutes embedded shell-command output, host facts and inline RGB
//! colour markup into user templates, plus the pure parsing helpers the
//! fact collection uses.

pub mod commands;
pub mod info;
pub mod parser;
pub mod resolver;
pub mod text;
pub mod utils;
