//! A transport that only logs: every envelope handed to it is summarised on
//! standard output and then dropped.

use crate::messages::SendableMessage;
use crate::transport::Transport;
use std::io::Write;
use vstd::prelude::*;

verus! {

/// The logging transport.
pub struct Printer;

impl Transport for Printer {
    fn send(&self, message: &SendableMessage) {
        let line = message.summary();
        log_line(&line);
    }
}

/// Relies on std's `writeln` to standard output.
#[verifier::external_body]
fn log_line(line: &String) {
    let _ = writeln!(std::io::stdout(), "sending message [{}]", line);
}

} // verus!
