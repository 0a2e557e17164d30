//! The branch-aware connection proxy's decisions: which backend port a
//! freshly accepted connection goes to, and the byte-forwarding discipline
//! of one direction of one connection.
//!
//! The sockets live outside this crate.  The accept loop reads the current
//! document snapshot, resolves the backend with `resolve_backend_port`,
//! and then shuttles bytes through a `Forwarder` per direction until
//! either side closes.

use vstd::prelude::*;

use crate::config::Config;

verus! {

/// The branch a new connection is routed to: the active branch when one is
/// set, and `main` otherwise.
pub open spec fn spec_target_branch(c: Config) -> Seq<char> {
    match c.active_branch {
        Some(n) => n@,
        None => "main"@,
    }
}

/// Resolve the backend port for a freshly accepted connection from the
/// current document snapshot.  `None` when the targeted branch has
/// vanished from the document, in which case the connection is closed.
/// An existing connection keeps the backend it was given at accept time;
/// only new connections observe a switch.
pub fn resolve_backend_port(config: &Config) -> (r: Option<u16>)
    ensures
        match r {
            Some(p) => exists|i: int|
                0 <= i < config.branches@.len() && (#[trigger] config.branches@[i]).name@
                    == spec_target_branch(*config) && config.branches@[i].port == p,
            None => forall|i: int|
                0 <= i < config.branches@.len() ==> (#[trigger] config.branches@[i]).name@
                    != spec_target_branch(*config),
        },
{
    match &config.active_branch {
        Some(name) => config.branch_port(name.as_str()),
        None => config.branch_port("main"),
    }
}

/// One direction of one proxied connection: bytes taken from the source
/// socket, bytes already delivered to the sink socket, and the bytes in
/// flight between them.
pub struct Forwarder {
    /// Every byte read from the source, in order.
    pub taken: Ghost<Seq<u8>>,
    /// Every byte written to the sink, in order.
    pub delivered: Ghost<Seq<u8>>,
    /// Bytes read but not yet written.
    pub buffer: Vec<u8>,
}

impl Forwarder {
    /// What forwarding preserves: the source stream is exactly the
    /// delivered stream followed by the bytes still in flight — so the
    /// output is a prefix of the input, with nothing reordered or lost.
    pub open spec fn inv(self) -> bool {
        self.taken@ == self.delivered@ + self.buffer@
    }

    /// A fresh direction with nothing taken or delivered.
    pub fn new() -> (r: Forwarder)
        ensures
            r.inv(),
            r.taken@ == Seq::<u8>::empty(),
            r.delivered@ == Seq::<u8>::empty(),
    {
        Forwarder {
            taken: Ghost(Seq::empty()),
            delivered: Ghost(Seq::empty()),
            buffer: Vec::new(),
        }
    }

    /// Take one chunk read from the source.
    pub fn accept_chunk(&mut self, chunk: &Vec<u8>)
        requires
            old(self).inv(),
        ensures
            final(self).inv(),
            final(self).taken@ == old(self).taken@ + chunk@,
            final(self).delivered@ == old(self).delivered@,
    {
        let mut i: usize = 0;
        while i < chunk.len()
            invariant
                i <= chunk@.len(),
                self.buffer@ == old(self).buffer@ + chunk@.take(i as int),
                self.taken == old(self).taken,
                self.delivered == old(self).delivered,
            decreases chunk@.len() - i,
        {
            self.buffer.push(chunk[i]);
            proof {
                assert(self.buffer@ =~= old(self).buffer@ + chunk@.take(i as int + 1));
            }
            i += 1;
        }
        proof {
            assert(chunk@.take(chunk@.len() as int) =~= chunk@);
            self.taken@ = self.taken@ + chunk@;
            assert(self.taken@ =~= self.delivered@ + self.buffer@);
        }
    }

    /// Hand every byte in flight to the sink, in order.
    pub fn emit_chunk(&mut self) -> (r: Vec<u8>)
        requires
            old(self).inv(),
        ensures
            final(self).inv(),
            r@ == old(self).buffer@,
            final(self).delivered@ == old(self).delivered@ + r@,
            final(self).taken@ == old(self).taken@,
            final(self).buffer@ == Seq::<u8>::empty(),
    {
        let out = self.buffer.split_off(0);
        proof {
            self.delivered@ = self.delivered@ + out@;
            assert(self.buffer@ =~= Seq::<u8>::empty());
            assert(out@ =~= old(self).buffer@);
        }
        out
    }
}

/// At every moment, the bytes a direction has delivered are a prefix of
/// the bytes it has taken: the proxy reorders nothing and loses nothing.
pub proof fn lemma_delivered_is_prefix(f: Forwarder)
    requires
        f.inv(),
    ensures
        f.delivered@.is_prefix_of(f.taken@),
{
    assert(f.taken@.subrange(0, f.delivered@.len() as int) =~= f.delivered@);
}

} // verus!
