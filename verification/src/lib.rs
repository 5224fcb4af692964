//! Herdr agent provider.
//!
//! A turn goes to an agent that Herdr already runs: its terminal is read, the prompt is handed over,
//! the terminal is read again once the agent has settled, and the answer is found in what the
//! terminal shows. Prompts are recognised by the marks of Codex (`› `), AGY (`> `) and Grok (`❯ `).
//!
//! The library decides and computes; it runs nothing. [`session`], [`query`] and [`locate`] say what
//! to do next, and are told what came of it; [`run`] takes a turn from one step to the next and counts
//! its prompt as under way. [`turn`] finds the part of a screen that belongs to a
//! turn, [`response`] the answer in it. What holds of them on every screen is proved in the modules
//! whose names end in `laws`, and beside the functions where it concerns one module alone.
pub mod active;
pub mod agent_laws;
pub mod answer_laws;
pub mod chars;
pub mod classify;
pub mod classify_laws;
pub mod clock;
pub mod command;
pub mod echo;
pub mod echo_laws;
pub mod grok_line;
pub mod json;
pub mod line_laws;
pub mod lines;
pub mod locate;
pub mod number;
pub mod preview;
pub mod process;
pub mod query;
pub mod reading_laws;
pub mod response;
pub mod response_laws;
pub mod run;
pub mod session;
pub mod settings;
pub mod status;
pub mod target;
pub mod text;
pub mod turn;
pub mod turn_laws;
