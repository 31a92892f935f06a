//! The connection pool's bookkeeping: live peers, their receive
//! buffers, and idle eviction.
//!
//! Sockets stay outside the library. The pool tracks each peer's
//! address, the time it was last heard from, and the bytes that wait
//! for their terminating newline. The surrounding process feeds it
//! received chunks and the clock, and removes peers whose writes
//! fail.

use vstd::prelude::*;

use crate::framing::{extract_lines, lines_of, rest_of};

verus! {

/// A peer's receive buffer is cleared when it grows past this many
/// characters without a newline.
pub const BUFFER_LIMIT: usize = 10240;

/// One live peer: its address, when it was last heard from, and its
/// receive accumulator.
pub struct PeerConnection {
    pub addr: String,
    pub last_seen: u64,
    pub buffer: String,
}

/// Whether an address is among the entries.
pub open spec fn has_addr(peers: Seq<PeerConnection>, addr: Seq<char>) -> bool {
    exists|i: int| 0 <= i < peers.len() && peers[i].addr@ == addr
}

/// The entries that are not yet idle at time `now`.
pub open spec fn alive(peers: Seq<PeerConnection>, now: u64, timeout: u64) -> Seq<PeerConnection>
    decreases peers.len(),
{
    if peers.len() == 0 {
        Seq::empty()
    } else if peers.last().last_seen + timeout >= now {
        alive(peers.drop_last(), now, timeout).push(peers.last())
    } else {
        alive(peers.drop_last(), now, timeout)
    }
}

/// Whatever eviction keeps was heard from within the window.
pub proof fn lemma_alive_recent(peers: Seq<PeerConnection>, now: u64, timeout: u64)
    ensures
        forall|i: int|
            0 <= i < alive(peers, now, timeout).len() ==> (#[trigger] alive(
                peers,
                now,
                timeout,
            )[i]).last_seen + timeout >= now,
    decreases peers.len(),
{
    if peers.len() > 0 {
        lemma_alive_recent(peers.drop_last(), now, timeout);
        let k0 = alive(peers.drop_last(), now, timeout);
        if peers.last().last_seen + timeout >= now {
            assert forall|i: int| 0 <= i < alive(peers, now, timeout).len() implies (
            #[trigger] alive(peers, now, timeout)[i]).last_seen + timeout >= now by {
                if i < k0.len() {
                    assert(alive(peers, now, timeout)[i] == k0[i]);
                } else {
                    assert(alive(peers, now, timeout)[i] == peers.last());
                }
            }
        }
    }
}

pub struct ConnectionPool {
    pub connections: Vec<PeerConnection>,
    pub timeout: u64,
}

impl ConnectionPool {
    pub open spec fn peers(self) -> Seq<PeerConnection> {
        self.connections@
    }

    /// Addresses are unique: one entry per peer.
    pub open spec fn wf(self) -> bool {
        forall|i: int, j: int|
            0 <= i < j < self.connections@.len() ==> (#[trigger] self.connections@[i]).addr@ != (
            #[trigger] self.connections@[j]).addr@
    }

    pub fn new(timeout_secs: u64) -> (r: ConnectionPool)
        ensures
            r.peers() =~= Seq::<PeerConnection>::empty(),
            r.timeout == timeout_secs,
            r.wf(),
    {
        ConnectionPool { connections: Vec::new(), timeout: timeout_secs }
    }

    /// The index of the entry for `addr`, when there is one.
    fn find(&self, addr: &String) -> (r: Option<usize>)
        ensures
            (r matches Some(i) ==> i < self.peers().len() && self.peers()[i as int].addr@
                == addr@),
            r is None ==> !has_addr(self.peers(), addr@),
    {
        let n = self.connections.len();
        let mut i: usize = 0;
        while i < n
            invariant
                i <= n,
                n == self.connections@.len(),
                forall|j: int| 0 <= j < i ==> (#[trigger] self.connections@[j]).addr@ != addr@,
            decreases n - i,
        {
            let matched = self.connections[i].addr == *addr;
            if matched {
                return Some(i);
            }
            i = i + 1;
        }
        None
    }

    /// Registers a peer, fresh buffer and all; a peer already present
    /// starts over.
    pub fn add_connection(&mut self, addr: String, now: u64)
        requires
            old(self).wf(),
        ensures
            final(self).wf(),
            final(self).timeout == old(self).timeout,
            has_addr(final(self).peers(), addr@),
            !has_addr(old(self).peers(), addr@) ==> final(self).peers().len() == old(
                self,
            ).peers().len() + 1 && final(self).peers().drop_last() == old(self).peers() && is_fresh(
                final(self).peers().last(),
                addr@,
                now,
            ),
            has_addr(old(self).peers(), addr@) ==> exists|i: int|
                0 <= i < old(self).peers().len() && old(self).peers()[i].addr@ == addr@ && final(self).peers() == old(self).peers().update(i, final(self).peers()[i]) && is_fresh(
                    final(self).peers()[i],
                    addr@,
                    now,
                ),
    {
        let ghost a = addr@;
        match self.find(&addr) {
            Some(i) => {
                self.connections.remove(i);
                let entry = PeerConnection { addr, last_seen: now, buffer: String::new() };
                self.connections.insert(i, entry);
                proof {
                    let ghost fin = self.peers();
                    assert(fin =~= old(self).peers().update(i as int, fin[i as int]));
                    assert(fin[i as int].addr@ == a);
                    assert forall|x: int, y: int|
                        0 <= x < y < fin.len() implies (#[trigger] fin[x]).addr@ != (
                    #[trigger] fin[y]).addr@ by {
                        assert(old(self).peers()[x].addr@ != old(self).peers()[y].addr@);
                    }
                }
            },
            None => {
                let entry = PeerConnection { addr, last_seen: now, buffer: String::new() };
                self.connections.push(entry);
                proof {
                    assert(self.peers().last().addr@ == a);
                    assert(self.peers().drop_last() =~= old(self).peers());
                }
            },
        }
    }

    /// Drops the entry for `addr`, if any.
    pub fn remove_connection(&mut self, addr: &String)
        requires
            old(self).wf(),
        ensures
            final(self).wf(),
            final(self).timeout == old(self).timeout,
            !has_addr(final(self).peers(), addr@),
            !has_addr(old(self).peers(), addr@) ==> final(self).peers() == old(self).peers(),
            has_addr(old(self).peers(), addr@) ==> exists|i: int|
                0 <= i < old(self).peers().len() && old(self).peers()[i].addr@ == addr@ && final(self).peers() == old(self).peers().remove(i),
    {
        match self.find(addr) {
            Some(i) => {
                self.connections.remove(i);
                proof {
                    assert forall|j: int|
                        0 <= j < self.peers().len() implies (#[trigger] self.peers()[j]).addr@
                        != addr@ by {
                        if j < i {
                            assert(self.peers()[j] == old(self).peers()[j]);
                        } else {
                            assert(self.peers()[j] == old(self).peers()[j + 1]);
                        }
                    }
                }
            },
            None => {},
        }
    }

    /// The addresses of every live peer, in table order.
    pub fn get_peer_addresses(&self) -> (r: Vec<String>)
        ensures
            r.deep_view().len() == self.peers().len(),
            forall|i: int|
                0 <= i < self.peers().len() ==> r.deep_view()[i] == (
                #[trigger] self.peers()[i]).addr@,
    {
        let n = self.connections.len();
        let mut out: Vec<String> = Vec::new();
        let mut i: usize = 0;
        while i < n
            invariant
                i <= n,
                n == self.connections@.len(),
                out.deep_view().len() == i,
                forall|j: int|
                    0 <= j < i ==> out.deep_view()[j] == (#[trigger] self.connections@[j]).addr@,
            decreases n - i,
        {
            let ghost pre = out.deep_view();
            out.push(self.connections[i].addr.clone());
            proof {
                assert(out.deep_view() =~= pre.push(self.connections@[i as int].addr@));
            }
            i = i + 1;
        }
        out
    }

    /// Takes a received chunk for `addr`: appends it to the peer's
    /// buffer, hands back every complete line in arrival order, keeps
    /// what waits for its newline — unless it has outgrown the buffer
    /// limit, in which case it is thrown away — and refreshes the
    /// peer's last-seen time. A chunk from an unknown address does
    /// nothing.
    pub fn handle_peer_message(&mut self, addr: &String, data: &str, now: u64) -> (r: Vec<String>)
        requires
            old(self).wf(),
        ensures
            final(self).wf(),
            final(self).timeout == old(self).timeout,
            !has_addr(old(self).peers(), addr@) ==> final(self).peers() == old(self).peers() && r@
                =~= Seq::<String>::empty(),
            has_addr(old(self).peers(), addr@) ==> exists|i: int|
                {
                    &&& 0 <= i < old(self).peers().len()
                    &&& old(self).peers()[i].addr@ == addr@
                    &&& r.deep_view() == lines_of(old(self).peers()[i].buffer@ + data@)
                    &&& final(self).peers() == old(self).peers().update(
                        i,
                        PeerConnection {
                            addr: old(self).peers()[i].addr,
                            last_seen: now,
                            buffer: final(self).peers()[i].buffer,
                        },
                    )
                    &&& final(self).peers()[i].buffer@ == clipped_rest(
                        old(self).peers()[i].buffer@ + data@,
                    )
                    &&& forall|j: int|
                        0 <= j < final(self).peers()[i].buffer@.len()
                            ==> final(self).peers()[i].buffer@[j] != '\n'
                },
    {
        let idx = match self.find(addr) {
            Some(i) => i,
            None => {
                return Vec::new();
            },
        };
        let ghost i = idx as int;
        let entry = self.connections.remove(idx);
        let ghost old_buf = entry.buffer@;
        let mut stream = entry.buffer;
        stream.append(data);
        let (lines, rest) = extract_lines(stream);
        let keep = if rest.as_str().unicode_len() > BUFFER_LIMIT {
            String::new()
        } else {
            rest
        };
        proof {
            assert(keep@ == clipped_rest(old_buf + data@));
            crate::framing::lemma_rest_no_nl(old_buf + data@);
        }
        let fresh = PeerConnection { addr: entry.addr, last_seen: now, buffer: keep };
        self.connections.insert(idx, fresh);
        proof {
            assert(self.peers() =~= old(self).peers().update(
                i,
                PeerConnection {
                    addr: old(self).peers()[i].addr,
                    last_seen: now,
                    buffer: self.peers()[i].buffer,
                },
            ));
            assert forall|a: int, b: int|
                0 <= a < b < self.peers().len() implies (#[trigger] self.peers()[a]).addr@ != (
            #[trigger] self.peers()[b]).addr@ by {
                assert(old(self).peers()[a].addr@ != old(self).peers()[b].addr@);
            }
        }
        lines
    }

    /// Refreshes a peer's last-seen time after a successful write.
    pub fn touch(&mut self, addr: &String, now: u64)
        requires
            old(self).wf(),
        ensures
            final(self).wf(),
            final(self).timeout == old(self).timeout,
            !has_addr(old(self).peers(), addr@) ==> final(self).peers() == old(self).peers(),
            has_addr(old(self).peers(), addr@) ==> exists|i: int|
                0 <= i < old(self).peers().len() && old(self).peers()[i].addr@ == addr@ && final(self).peers() == old(self).peers().update(
                    i,
                    PeerConnection {
                        addr: old(self).peers()[i].addr,
                        last_seen: now,
                        buffer: old(self).peers()[i].buffer,
                    },
                ),
    {
        let idx = match self.find(addr) {
            Some(i) => i,
            None => {
                return ;
            },
        };
        let ghost i = idx as int;
        let entry = self.connections.remove(idx);
        let fresh = PeerConnection { addr: entry.addr, last_seen: now, buffer: entry.buffer };
        self.connections.insert(idx, fresh);
        proof {
            assert(self.peers() =~= old(self).peers().update(
                i,
                PeerConnection {
                    addr: old(self).peers()[i].addr,
                    last_seen: now,
                    buffer: old(self).peers()[i].buffer,
                },
            ));
            assert forall|a: int, b: int|
                0 <= a < b < self.peers().len() implies (#[trigger] self.peers()[a]).addr@ != (
            #[trigger] self.peers()[b]).addr@ by {
                assert(old(self).peers()[a].addr@ != old(self).peers()[b].addr@);
            }
        }
    }

    /// Evicts every peer not heard from within the timeout window:
    /// whoever stays was active recently.
    pub fn cleanup_inactive(&mut self, now: u64)
        requires
            old(self).wf(),
        ensures
            final(self).wf(),
            final(self).timeout == old(self).timeout,
            final(self).peers() == alive(old(self).peers(), now, old(self).timeout),
            forall|i: int|
                0 <= i < final(self).peers().len() ==> (#[trigger] final(self).peers()[i]).last_seen + old(self).timeout >= now,
    {
        let n = self.connections.len();
        let mut out: Vec<PeerConnection> = Vec::new();
        let mut i: usize = 0;
        while i < n
            invariant
                i <= n,
                n == self.connections@.len(),
                self.connections@ == old(self).peers(),
                self.timeout == old(self).timeout,
                out@ == alive(old(self).peers().subrange(0, i as int), now, self.timeout),
            decreases n - i,
        {
            proof {
                let pre = old(self).peers().subrange(0, i + 1);
                assert(pre.drop_last() =~= old(self).peers().subrange(0, i as int));
                assert(pre.last() == old(self).peers()[i as int]);
            }
            let recent = (self.connections[i].last_seen as u128) + (self.timeout as u128) >= (
            now as u128);
            if recent {
                let p = &self.connections[i];
                out.push(
                    PeerConnection {
                        addr: p.addr.clone(),
                        last_seen: p.last_seen,
                        buffer: p.buffer.clone(),
                    },
                );
            }
            proof {
                assert(out@ =~= alive(old(self).peers().subrange(0, i + 1), now, self.timeout));
            }
            i = i + 1;
        }
        proof {
            assert(old(self).peers().subrange(0, n as int) =~= old(self).peers());
        }
        self.connections = out;
        proof {
            lemma_alive_recent(old(self).peers(), now, old(self).timeout);
            lemma_alive_unique(old(self).peers(), now, old(self).timeout);
        }
    }
}

/// A just-registered entry: the given address, seen now, empty
/// buffer.
pub open spec fn is_fresh(p: PeerConnection, addr: Seq<char>, now: u64) -> bool {
    p.addr@ == addr && p.last_seen == now && p.buffer@ == Seq::<char>::empty()
}

/// The remainder of a stream, cleared when it outgrew the limit.
pub open spec fn clipped_rest(s: Seq<char>) -> Seq<char> {
    if rest_of(s).len() > BUFFER_LIMIT {
        Seq::empty()
    } else {
        rest_of(s)
    }
}

/// Everything eviction keeps was already in the table.
pub proof fn lemma_alive_sub(peers: Seq<PeerConnection>, now: u64, timeout: u64)
    ensures
        forall|i: int|
            0 <= i < alive(peers, now, timeout).len() ==> peers.contains(
                #[trigger] alive(peers, now, timeout)[i],
            ),
    decreases peers.len(),
{
    if peers.len() > 0 {
        let dl = peers.drop_last();
        lemma_alive_sub(dl, now, timeout);
        let k0 = alive(dl, now, timeout);
        assert forall|i: int| 0 <= i < alive(peers, now, timeout).len() implies peers.contains(
            #[trigger] alive(peers, now, timeout)[i],
        ) by {
            if i < k0.len() {
                assert(alive(peers, now, timeout)[i] == k0[i]);
                let j = choose|j: int| 0 <= j < dl.len() && dl[j] == k0[i];
                assert(peers[j] == dl[j]);
            } else {
                assert(alive(peers, now, timeout)[i] == peers.last());
                assert(peers[peers.len() - 1] == peers.last());
            }
        }
    }
}

/// Eviction keeps one entry per address when the table had one entry
/// per address.
pub proof fn lemma_alive_unique(peers: Seq<PeerConnection>, now: u64, timeout: u64)
    requires
        forall|i: int, j: int|
            0 <= i < j < peers.len() ==> (#[trigger] peers[i]).addr@ != (
            #[trigger] peers[j]).addr@,
    ensures
        forall|i: int, j: int|
            0 <= i < j < alive(peers, now, timeout).len() ==> (#[trigger] alive(
                peers,
                now,
                timeout,
            )[i]).addr@ != (#[trigger] alive(peers, now, timeout)[j]).addr@,
    decreases peers.len(),
{
    if peers.len() > 0 {
        let dl = peers.drop_last();
        assert forall|i: int, j: int| 0 <= i < j < dl.len() implies (#[trigger] dl[i]).addr@ != (
        #[trigger] dl[j]).addr@ by {
            assert(dl[i] == peers[i]);
            assert(dl[j] == peers[j]);
        }
        lemma_alive_unique(dl, now, timeout);
        lemma_alive_sub(dl, now, timeout);
        let k0 = alive(dl, now, timeout);
        if peers.last().last_seen + timeout >= now {
            assert forall|i: int, j: int|
                0 <= i < j < alive(peers, now, timeout).len() implies (#[trigger] alive(
                peers,
                now,
                timeout,
            )[i]).addr@ != (#[trigger] alive(peers, now, timeout)[j]).addr@ by {
                if j < k0.len() {
                    assert(alive(peers, now, timeout)[i] == k0[i]);
                    assert(alive(peers, now, timeout)[j] == k0[j]);
                } else {
                    assert(alive(peers, now, timeout)[i] == k0[i]);
                    assert(alive(peers, now, timeout)[j] == peers.last());
                    assert(dl.contains(k0[i]));
                    let w = choose|w: int| 0 <= w < dl.len() && dl[w] == k0[i];
                    assert(peers[w] == dl[w]);
                    assert(peers[w].addr@ != peers[peers.len() - 1].addr@);
                    assert(peers.last() == peers[peers.len() - 1]);
                }
            }
        }
    }
}

} // verus!
