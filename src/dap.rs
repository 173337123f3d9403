//! Debug-adapter sessions: raw bytes over one socket connection, with at most
//! one session active at a time.
use vstd::prelude::*;
use crate::framing::{encode_frame, encoded, FramingMode};
use vstd::string::StringSliceAdditionalSpecFns;

verus! {

/// The active debug-adapter connection: its identifier and the writer `W` of
/// its socket.
pub struct DapSession<W> {
    pub id: String,
    pub writer: W,
}

/// The one debug-adapter session, if any.
pub struct DapState<W> {
    pub session: Option<DapSession<W>>,
}

impl<W> DapState<W> {
    pub fn new() -> (r: Self)
        ensures
            r.session is None,
    {
        DapState { session: None }
    }

    /// Makes a new connection the active session and hands back the one it
    /// replaces, if any.
    pub fn dap_connect(&mut self, id: String, writer: W) -> (r: Option<DapSession<W>>)
        ensures
            final(self).session == Some(DapSession { id, writer }),
            r == old(self).session,
    {
        let mut next = Some(DapSession { id, writer });
        std::mem::swap(&mut next, &mut self.session);
        next
    }

    /// Prepares a message for the active session: its writer and the bytes
    /// to write in one piece. An error where no session is active.
    pub fn dap_send<'a>(&'a self, message: &str) -> (r: Result<(&'a W, Vec<u8>), String>)
        ensures
            self.session is None ==> (r matches Err(e) && e@ == "No active DAP session"@),
            self.session matches Some(s) ==> (r matches Ok((w, bytes)) && *w == s.writer && bytes@
                == encoded(FramingMode::Raw, message.spec_bytes())),
    {
        match &self.session {
            Some(s) => Ok((&s.writer, encode_frame(FramingMode::Raw, message.as_bytes()))),
            None => Err("No active DAP session".to_owned()),
        }
    }

    /// Ends the active session, if any, and hands it back to be closed.
    pub fn dap_disconnect(&mut self) -> (r: Option<DapSession<W>>)
        ensures
            final(self).session is None,
            r == old(self).session,
    {
        let mut none = None;
        std::mem::swap(&mut none, &mut self.session);
        none
    }
}

} // verus!
