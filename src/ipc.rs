use vstd::prelude::*;

verus! {

/// A request on the control socket; one per line.
#[derive(Debug)]
pub enum ProcessCommand {
    Register { pid: i32, command: String, args: Vec<String> },
    Unregister { pid: i32 },
    QueryStatus,
}

/// The answer to a status query.
#[derive(Debug, Clone, Copy, PartialEq, Eq, Structural)]
pub struct ProcessStatus {
    pub active_count: usize,
    pub queue_depth: usize,
    pub should_throttle: bool,
}

/// What a connection handler got from its client.
#[derive(Debug)]
pub enum ReadEvent {
    /// A line that decoded to a command.
    Decoded(ProcessCommand),
    /// A line that did not decode.
    Malformed,
    /// End of stream.
    Closed,
    /// A read error.
    Failed,
}

/// What a connection handler does next.
#[derive(Debug)]
pub enum HandlerAction {
    /// Hand the command to the consumer queue and read on.
    Deliver(ProcessCommand),
    /// Drop the line and read on.
    Skip,
    /// End this connection.
    Close,
}

/// The connection handler's rule: each decoded line is delivered once, a bad
/// line is dropped and the connection stays open, and only the end of the
/// stream or a read error ends it.
pub fn handle_event(ev: ReadEvent) -> (r: HandlerAction)
    ensures
        match ev {
            ReadEvent::Decoded(c) => r == HandlerAction::Deliver(c),
            ReadEvent::Malformed => r == HandlerAction::Skip,
            _ => r == HandlerAction::Close,
        },
{
    match ev {
        ReadEvent::Decoded(c) => HandlerAction::Deliver(c),
        ReadEvent::Malformed => HandlerAction::Skip,
        _ => HandlerAction::Close,
    }
}

} // verus!
