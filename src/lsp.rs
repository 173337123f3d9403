//! Language-server sessions: length-prefixed JSON-RPC over a process's
//! standard streams, one session per server identifier.
use vstd::prelude::*;
use crate::framing::{encode_frame, encoded, FramingMode};
use crate::registry::SessionRegistry;
use crate::text::joined3;
use vstd::string::StringSliceAdditionalSpecFns;

verus! {

/// The running language servers, by identifier; `S` is the handle of one
/// server's process and the writer of its standard input.
pub struct LspState<S> {
    pub sessions: SessionRegistry<S>,
}

impl<S> LspState<S> {
    pub open spec fn wf(&self) -> bool {
        self.sessions.wf()
    }

    pub fn new() -> (r: Self)
        ensures
            r.wf(),
            r.sessions@ == Map::<Seq<char>, S>::empty(),
    {
        LspState { sessions: SessionRegistry::new() }
    }

    /// Refuses to start a server under an identifier that is running.
    pub fn lsp_check_absent(&self, server_id: &String) -> (r: Result<(), String>)
        requires
            self.wf(),
        ensures
            r is Ok <==> !self.sessions@.contains_key(server_id@),
            r matches Err(e) ==> e@ == "Server "@ + server_id@ + " already running"@,
    {
        if self.sessions.contains(server_id) {
            Err(joined3("Server ", server_id.as_str(), " already running"))
        } else {
            Ok(())
        }
    }

    /// Registers a started server. Fails, and leaves the state as it was,
    /// where the identifier is running.
    pub fn lsp_register(&mut self, server_id: String, session: S) -> (r: Result<(), String>)
        requires
            old(self).wf(),
        ensures
            final(self).wf(),
            old(self).sessions@.contains_key(server_id@) ==> final(self).sessions@ == old(
                self,
            ).sessions@ && (r matches Err(e) && e@ == "Server "@ + server_id@
                + " already running"@),
            !old(self).sessions@.contains_key(server_id@) ==> r is Ok && final(self).sessions@
                == old(self).sessions@.insert(server_id@, session),
    {
        let msg = joined3("Server ", server_id.as_str(), " already running");
        match self.sessions.register(server_id, session) {
            Ok(()) => Ok(()),
            Err(_) => Err(msg),
        }
    }

    /// Prepares a message for server `server_id`: its session and the whole
    /// length-prefixed frame, which the caller writes in one piece under the
    /// session's writer lock, then flushes.
    pub fn lsp_send<'a>(&'a self, server_id: &String, message: &str) -> (r: Result<
        (&'a S, Vec<u8>),
        String,
    >)
        requires
            self.wf(),
        ensures
            !self.sessions@.contains_key(server_id@) ==> (r matches Err(e) && e@ == "Server "@
                + server_id@ + " not found"@),
            self.sessions@.contains_key(server_id@) ==> (r matches Ok((s, bytes)) && *s
                == self.sessions@[server_id@] && bytes@ == encoded(
                FramingMode::LengthPrefixed,
                message.spec_bytes(),
            )),
    {
        match self.sessions.get(server_id) {
            Some(s) => Ok((s, encode_frame(FramingMode::LengthPrefixed, message.as_bytes()))),
            None => Err(joined3("Server ", server_id.as_str(), " not found")),
        }
    }

    /// Forgets server `server_id` and hands back its session, if any, for the
    /// caller to kill and reap. Stopping an unknown server is no error.
    pub fn lsp_stop(&mut self, server_id: &String) -> (r: Option<S>)
        requires
            old(self).wf(),
        ensures
            final(self).wf(),
            final(self).sessions@ == old(self).sessions@.remove(server_id@),
            r == (if old(self).sessions@.contains_key(server_id@) {
                Some(old(self).sessions@[server_id@])
            } else {
                None
            }),
    {
        self.sessions.remove(server_id)
    }

    /// The identifiers of the running servers, each once.
    pub fn lsp_list(&self) -> (r: Vec<String>)
        requires
            self.wf(),
        ensures
            r.deep_view().to_set() == self.sessions@.dom(),
            r.deep_view().no_duplicates(),
    {
        self.sessions.ids()
    }
}

} // verus!
