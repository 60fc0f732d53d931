//! MD5 calculator for one-shot streamed digests and named incremental
//! sessions.
use vstd::prelude::*;
use crate::digest::{format_digest, formatted, md5_of};
use crate::session::{after_end, after_start, after_update, finalize_output, SessionRegistry};
use crate::stream::CooperativeHasher;

verus! {

/// MD5 calculator that streams one input through a single running state, and
/// keeps its own registry of incremental sessions.
pub struct Md5Calculator {
    enable_log: bool,
    sessions: SessionRegistry,
}

impl Md5Calculator {
    /// The calculator's invariant: its registry is well formed.
    pub closed spec fn wf(&self) -> bool {
        self.sessions.wf()
    }

    /// Whether diagnostic logging is on.
    pub closed spec fn spec_log_enabled(&self) -> bool {
        self.enable_log
    }

    /// The running sessions: id to the bytes absorbed so far.
    pub closed spec fn spec_sessions(&self) -> Map<Seq<char>, Seq<u8>> {
        self.sessions@
    }

    /// A calculator with logging off and no sessions.
    pub fn new() -> (r: Md5Calculator)
        ensures
            r.wf(),
            !r.spec_log_enabled(),
            r.spec_sessions() == Map::<Seq<char>, Seq<u8>>::empty(),
    {
        Md5Calculator { enable_log: false, sessions: SessionRegistry::new() }
    }

    /// The MD5 digest of `data` as hex cut to `md5_length` characters,
    /// absorbed in chunks whose size the input's size picks; the digest is
    /// that of the bytes in one piece. Empty input gives the empty string.
    pub fn calculate_md5_async(&self, data: &[u8], md5_length: usize) -> (r: String)
        ensures
            data@.len() == 0 ==> r@ == Seq::<char>::empty(),
            data@.len() > 0 ==> r@ == formatted(md5_of(data@), md5_length as nat),
    {
        let n = data.len();
        if n == 0 {
            return String::new();
        }
        let mut h = CooperativeHasher::new(n);
        while !h.is_done(data)
            invariant
                n == data@.len(),
                n > 0,
                h.spec_chunk_size() > 0,
                h.spec_processed() <= n,
                h.spec_absorbed() == data@.take(h.spec_processed() as int),
            decreases n - h.spec_processed(),
        {
            // a synchronous caller has no scheduler to yield to
            let _ = h.step(data);
        }
        assert(data@.take(n as int) =~= data@);
        let d = h.finish();
        format_digest(d.as_slice(), md5_length)
    }

    /// Turns diagnostic logging on or off; the sessions are kept.
    pub fn set_log_enabled(&mut self, enable: bool)
        requires
            old(self).wf(),
        ensures
            final(self).wf(),
            final(self).spec_log_enabled() == enable,
            final(self).spec_sessions() == old(self).spec_sessions(),
    {
        self.enable_log = enable;
    }

    /// Whether diagnostic logging is on.
    pub fn is_log_enabled(&self) -> (r: bool)
        ensures
            r == self.spec_log_enabled(),
    {
        self.enable_log
    }

    /// Starts a fresh session named `session_id`, discarding one already
    /// running under that id.
    pub fn start_incremental_md5(&mut self, session_id: &str)
        requires
            old(self).wf(),
        ensures
            final(self).wf(),
            final(self).spec_log_enabled() == old(self).spec_log_enabled(),
            final(self).spec_sessions() == after_start(old(self).spec_sessions(), session_id@),
    {
        self.sessions.start(session_id);
    }

    /// Feeds `data` to the session `session_id`; `false`, with nothing
    /// changed, where no such session runs.
    pub fn update_incremental_md5(&mut self, session_id: &str, data: &[u8]) -> (r: bool)
        requires
            old(self).wf(),
        ensures
            final(self).wf(),
            r == old(self).spec_sessions().contains_key(session_id@),
            final(self).spec_log_enabled() == old(self).spec_log_enabled(),
            final(self).spec_sessions() == after_update(
                old(self).spec_sessions(),
                session_id@,
                data@,
            ),
    {
        self.sessions.update(session_id, data)
    }

    /// Ends the session `session_id` and returns its digest as hex cut to
    /// `md5_length` characters; the empty string, with nothing changed, where
    /// no such session runs.
    pub fn finalize_incremental_md5(&mut self, session_id: &str, md5_length: usize) -> (r: String)
        requires
            old(self).wf(),
        ensures
            final(self).wf(),
            r@ == finalize_output(old(self).spec_sessions(), session_id@, md5_length as nat),
            final(self).spec_log_enabled() == old(self).spec_log_enabled(),
            final(self).spec_sessions() == after_end(old(self).spec_sessions(), session_id@),
    {
        self.sessions.finalize(session_id, md5_length)
    }

    /// Ends the session `session_id` without hashing; returns whether it was
    /// running.
    pub fn cancel_incremental_md5(&mut self, session_id: &str) -> (r: bool)
        requires
            old(self).wf(),
        ensures
            final(self).wf(),
            r == old(self).spec_sessions().contains_key(session_id@),
            final(self).spec_log_enabled() == old(self).spec_log_enabled(),
            final(self).spec_sessions() == after_end(old(self).spec_sessions(), session_id@),
    {
        self.sessions.cancel(session_id)
    }
}

} // verus!
