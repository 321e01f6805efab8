//! The decisions behind a desktop shell for `dsh web`.
//!
//! The shell starts the server of a web page, watches over it, and shows the page in a window. The
//! page talks back to it over a control channel on the loopback interface. What the shell does with
//! files, processes, sockets and windows stands outside; this library says what is to be done.
//!
//! - `launch`: one instance of the shell, its server, and the token of the control channel.
//! - `control`: the requests of the page, which of them are served, and how they are answered.
//! - `updater`, `download`: which update is offered, and how its installer is fetched and checked.
//! - `plugins`, `package`, `listing`, `catalog`: the plugins that the page can install.
//! - `speech`: hold-to-talk.
//! - `background`, `paths`: the page's background, and where everything is kept.
//! - `text`, `number`, `encoding`, `digest`, `json`, `decode`, `reply`: what all of these build on.

pub mod text;
pub mod number;
pub mod encoding;
pub mod digest;
pub mod json;
pub mod decode;
pub mod reply;
pub mod paths;
pub mod control;
pub mod launch;
pub mod background;
pub mod updater;
pub mod download;
pub mod package;
pub mod plugins;
pub mod listing;
pub mod catalog;
pub mod speech;
