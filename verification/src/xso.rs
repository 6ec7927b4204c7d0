//! The overlay transport's command channel, as an owned resource: a
//! queue of commands drained by the connection worker, and the
//! connection flag the dispatcher consults.

use vstd::prelude::*;

verus! {

/// One command for the overlay transport, ready to serialise.
#[derive(Debug, Clone, PartialEq, Eq)]
pub struct XSOverlayCommand {
    pub sender: String,
    pub target: String,
    pub command: String,
    pub json_data: String,
    pub raw_data: String,
}

/// The overlay channel: whether the socket is up, and the commands
/// queued for the next send opportunity.
pub struct XsOverlayChannel {
    pub connected: bool,
    pub queued_commands: Vec<XSOverlayCommand>,
}

impl XsOverlayChannel {
    /// A channel that is not connected and has nothing queued.
    pub fn new() -> (r: XsOverlayChannel)
        ensures
            !r.connected,
            r.queued_commands@.len() == 0,
    {
        XsOverlayChannel { connected: false, queued_commands: Vec::new() }
    }

    /// Queue a command to be sent on the next opportunity, so other
    /// workers never touch the socket directly.
    pub fn queue_xsoverlay_command(&mut self, command: XSOverlayCommand)
        ensures
            final(self).queued_commands@ == old(self).queued_commands@.push(command),
            final(self).connected == old(self).connected,
    {
        self.queued_commands.push(command);
    }

    /// The socket came up.
    pub fn mark_connected(&mut self)
        ensures
            final(self).connected,
            final(self).queued_commands == old(self).queued_commands,
    {
        self.connected = true;
    }

    /// The socket went away; queued commands stay for the next
    /// connection.
    pub fn mark_xsoverlay_disconnected(&mut self)
        ensures
            !final(self).connected,
            final(self).queued_commands == old(self).queued_commands,
    {
        self.connected = false;
    }

    /// Take every queued command for sending, in queue order.
    pub fn drain_commands(&mut self) -> (r: Vec<XSOverlayCommand>)
        ensures
            r == old(self).queued_commands,
            final(self).queued_commands@.len() == 0,
            final(self).connected == old(self).connected,
    {
        let mut taken: Vec<XSOverlayCommand> = Vec::new();
        core::mem::swap(&mut taken, &mut self.queued_commands);
        taken
    }
}

} // verus!
