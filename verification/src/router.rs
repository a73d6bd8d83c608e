//! The per-pod routing tables.
//!
//! One structure holds the socket-id-to-writer map, the
//! email-to-device-to-socket-id bindings, and the local presence
//! snapshot of device descriptors. Every mutation updates all of them
//! in one call, so no caller sees a device bound in one index but not
//! another. The writer type is a parameter: the library never looks
//! inside a writer, it only hands it back on lookup.

use vstd::prelude::*;

use crate::codec::{DeviceInfo, DeviceView, str_eq};
use crate::strmap::StrMap;

verus! {

broadcast use {vstd::string::group_string_axioms, vstd::seq::group_seq_axioms,
    vstd::std_specs::vec::group_vec_axioms};

/// The routing tables of one pod.
pub struct LocalRouter<W> {
    /// socket id -> outbound writer
    pub writers: StrMap<W>,
    /// email -> device id -> socket id
    pub bindings: StrMap<StrMap<String>>,
    /// email -> device id -> descriptor, the local presence snapshot
    pub presence: StrMap<StrMap<DeviceInfo>>,
}

/// The socket id bound to `(email, device)`, if any.
pub open spec fn socket_of<W>(r: LocalRouter<W>, e: Seq<char>, d: Seq<char>) -> Option<Seq<char>> {
    if r.bindings@.contains_key(e) && r.bindings@[e]@.contains_key(d) {
        Some(r.bindings@[e]@[d]@)
    } else {
        None
    }
}

/// The descriptor recorded for `(email, device)`, if any.
pub open spec fn presence_of<W>(r: LocalRouter<W>, e: Seq<char>, d: Seq<char>) -> Option<
    DeviceView,
> {
    if r.presence@.contains_key(e) && r.presence@[e]@.contains_key(d) {
        Some(r.presence@[e]@[d]@)
    } else {
        None
    }
}

/// Whether `(email, device)` is bound on this pod.
pub open spec fn bound<W>(r: LocalRouter<W>, e: Seq<char>, d: Seq<char>) -> bool {
    socket_of(r, e, d) is Some
}

/// The router's invariant: representations are well-formed, no inner
/// map is empty, every bound socket id has a writer, distinct device
/// keys hold distinct socket ids, and the presence snapshot records
/// exactly the bound devices, each descriptor carrying its own device
/// id.
pub open spec fn router_wf<W>(r: LocalRouter<W>) -> bool {
    &&& r.writers.wf()
    &&& r.bindings.wf()
    &&& r.presence.wf()
    &&& forall|e: Seq<char>|
        r.bindings@.contains_key(e) ==> (#[trigger] r.bindings@[e]).wf()
    &&& forall|e: Seq<char>|
        r.presence@.contains_key(e) ==> (#[trigger] r.presence@[e]).wf()
    &&& forall|e: Seq<char>|
        r.bindings@.contains_key(e) ==> exists|d: Seq<char>|
            #[trigger] r.bindings@[e]@.contains_key(d)
    &&& forall|e: Seq<char>, d: Seq<char>|
        bound(r, e, d) ==> r.writers@.contains_key(#[trigger] socket_of(r, e, d).unwrap())
    &&& forall|e1: Seq<char>, d1: Seq<char>, e2: Seq<char>, d2: Seq<char>|
        bound(r, e1, d1) && bound(r, e2, d2) && #[trigger] socket_of(r, e1, d1)
            == #[trigger] socket_of(r, e2, d2) ==> e1 == e2 && d1 == d2
    &&& r.presence@.dom() == r.bindings@.dom()
    &&& forall|e: Seq<char>|
        r.bindings@.contains_key(e) ==> (#[trigger] r.presence@[e])@.dom()
            == r.bindings@[e]@.dom()
    &&& forall|e: Seq<char>, d: Seq<char>|
        r.presence@.contains_key(e) && (#[trigger] r.presence@[e])@.contains_key(d)
            ==> (#[trigger] r.presence@[e]@[d])@.device_id == d
}

impl<W> LocalRouter<W> {
    /// A router with nothing bound.
    pub fn new() -> (r: LocalRouter<W>)
        ensures
            router_wf(r),
            r.writers@ == Map::<Seq<char>, W>::empty(),
            forall|e: Seq<char>, d: Seq<char>| !bound(r, e, d),
    {
        let r = LocalRouter {
            writers: StrMap::new(),
            bindings: StrMap::new(),
            presence: StrMap::new(),
        };
        proof {
            assert(r.presence@.dom() =~= r.bindings@.dom());
        }
        r
    }

    /// The writer of the socket that `(email, device)` is bound to.
    pub fn lookup(&self, email: &str, device: &str) -> (r: Option<&W>)
        requires
            router_wf(*self),
        ensures
            match r {
                Some(w) => bound(*self, email@, device@) && self.writers@.contains_key(
                    socket_of(*self, email@, device@).unwrap(),
                ) && *w == self.writers@[socket_of(*self, email@, device@).unwrap()],
                None => !bound(*self, email@, device@),
            },
    {
        match self.bindings.get(email) {
            Some(inner) => match inner.get(device) {
                Some(sid) => {
                    proof {
                        assert(socket_of(*self, email@, device@) == Some(sid@));
                        assert(bound(*self, email@, device@));
                        assert(self.writers@.contains_key(
                            socket_of(*self, email@, device@).unwrap(),
                        ));
                    }
                    self.writers.get(sid.as_str())
                },
                None => None,
            },
            None => None,
        }
    }

    /// The socket id that `(email, device)` is bound to.
    pub fn socket_id_of(&self, email: &str, device: &str) -> (r: Option<String>)
        requires
            router_wf(*self),
        ensures
            match r {
                Some(sid) => socket_of(*self, email@, device@) == Some(sid@),
                None => !bound(*self, email@, device@),
            },
    {
        match self.bindings.get(email) {
            Some(inner) => match inner.get(device) {
                Some(sid) => Some(sid.clone()),
                None => None,
            },
            None => None,
        }
    }

    /// The writer held for a socket id, if any.
    pub fn writer_of(&self, socket_id: &str) -> (r: Option<&W>)
        requires
            router_wf(*self),
        ensures
            match r {
                Some(w) => self.writers@.contains_key(socket_id@) && *w == self.writers@[
                    socket_id@],
                None => !self.writers@.contains_key(socket_id@),
            },
    {
        self.writers.get(socket_id)
    }
}


impl<W> LocalRouter<W> {
    /// Binds `(email, device)` to a fresh socket and its writer, and
    /// records the descriptor. Any socket previously bound to the
    /// pair is evicted first: its writer leaves the table before the
    /// new binding is observable. Nothing else changes.
    pub fn bind(&mut self, email: &str, device: &str, socket_id: String, writer: W, info: DeviceInfo)
        requires
            router_wf(*old(self)),
            !old(self).writers@.contains_key(socket_id@),
            info@.device_id == device@,
        ensures
            router_wf(*final(self)),
            socket_of(*final(self), email@, device@) == Some(socket_id@),
            final(self).writers@.contains_key(socket_id@),
            final(self).writers@[socket_id@] == writer,
            presence_of(*final(self), email@, device@) == Some(info@),
            match socket_of(*old(self), email@, device@) {
                Some(old_sid) => !final(self).writers@.contains_key(old_sid),
                None => true,
            },
            forall|s: Seq<char>|
                s != socket_id@ && Some(s) != socket_of(*old(self), email@, device@) ==> (
                final(self).writers@.contains_key(s) <==> old(self).writers@.contains_key(s))
                    && (old(self).writers@.contains_key(s) ==> final(self).writers@[s] == old(self)
                    .writers@[s]),
            forall|e: Seq<char>, d: Seq<char>|
                !(e == email@ && d == device@) ==> #[trigger] socket_of(*final(self), e, d)
                    == socket_of(*old(self), e, d),
            forall|e: Seq<char>, d: Seq<char>|
                !(e == email@ && d == device@) ==> #[trigger] presence_of(*final(self), e, d)
                    == presence_of(*old(self), e, d),
    {
        let ghost r0 = *self;
        // evict the previous socket of this pair, if any
        let old_sid_opt = self.socket_id_of(email, device);
        match &old_sid_opt {
            Some(old_sid) => {
                let _evicted = self.writers.remove(old_sid.as_str());
            },
            None => {},
        }
        self.writers.insert(socket_id.clone(), writer);
        // bindings
        let mut inner: StrMap<String> = match self.bindings.remove(email) {
            Some(m) => m,
            None => StrMap::new(),
        };
        inner.insert(String::from_str(device), socket_id);
        self.bindings.insert(String::from_str(email), inner);
        // presence snapshot
        let mut pinner: StrMap<DeviceInfo> = match self.presence.remove(email) {
            Some(m) => m,
            None => StrMap::new(),
        };
        pinner.insert(String::from_str(device), info);
        self.presence.insert(String::from_str(email), pinner);
        proof {
            let r1 = *self;
            assert(r1.bindings@[email@]@.contains_key(device@));
            assert(socket_of(r1, email@, device@) == Some(socket_id@));
            assert(r1.presence@.dom() =~= r1.bindings@.dom());
            assert(r1.presence@[email@]@.dom() =~= r1.bindings@[email@]@.dom());
            assert(forall|e: Seq<char>, d: Seq<char>|
                !(e == email@ && d == device@) ==> #[trigger] socket_of(r1, e, d) == socket_of(
                    r0,
                    e,
                    d,
                ));
            assert(forall|e: Seq<char>, d: Seq<char>|
                !(e == email@ && d == device@) ==> #[trigger] presence_of(r1, e, d) == presence_of(
                    r0,
                    e,
                    d,
                ));
            assert forall|e1: Seq<char>, d1: Seq<char>, e2: Seq<char>, d2: Seq<char>|
                bound(r1, e1, d1) && bound(r1, e2, d2) && #[trigger] socket_of(r1, e1, d1)
                    == #[trigger] socket_of(r1, e2, d2) implies e1 == e2 && d1 == d2 by {
                if !(e1 == email@ && d1 == device@) && !(e2 == email@ && d2 == device@) {
                    assert(socket_of(r1, e1, d1) == socket_of(r0, e1, d1));
                    assert(socket_of(r1, e2, d2) == socket_of(r0, e2, d2));
                } else if (e1 == email@ && d1 == device@) && !(e2 == email@ && d2 == device@) {
                    assert(socket_of(r1, e2, d2) == socket_of(r0, e2, d2));
                    assert(r0.writers@.contains_key(socket_of(r0, e2, d2).unwrap()));
                    assert(socket_of(r1, e1, d1) == Some(socket_id@));
                } else if !(e1 == email@ && d1 == device@) && (e2 == email@ && d2 == device@) {
                    assert(socket_of(r1, e1, d1) == socket_of(r0, e1, d1));
                    assert(r0.writers@.contains_key(socket_of(r0, e1, d1).unwrap()));
                    assert(socket_of(r1, e2, d2) == Some(socket_id@));
                }
            }
            assert forall|e: Seq<char>, d: Seq<char>| bound(r1, e, d) implies r1.writers@
                .contains_key(#[trigger] socket_of(r1, e, d).unwrap()) by {
                if e == email@ && d == device@ {
                } else {
                    assert(socket_of(r1, e, d) == socket_of(r0, e, d));
                    let s = socket_of(r0, e, d).unwrap();
                    assert(r0.writers@.contains_key(s));
                    assert(s != socket_id@ || !r0.writers@.contains_key(socket_id@));
                    match socket_of(r0, email@, device@) {
                        Some(old_sid) => {
                            if s == old_sid {
                                assert(bound(r0, email@, device@));
                                assert(socket_of(r0, e, d) == socket_of(r0, email@, device@));
                                assert(e == email@ && d == device@);
                            }
                        },
                        None => {},
                    }
                }
            }
            assert forall|e: Seq<char>| r1.bindings@.contains_key(e) implies exists|d: Seq<char>|
                #[trigger] r1.bindings@[e]@.contains_key(d) by {
                if e == email@ {
                    assert(r1.bindings@[e]@.contains_key(device@));
                } else {
                    assert(r0.bindings@.contains_key(e));
                    let d0 = choose|d: Seq<char>| (#[trigger] r0.bindings@[e])@.contains_key(d);
                    assert(r1.bindings@[e]@.contains_key(d0));
                }
            }
            assert(router_wf(r1));
        }
    }

    /// Removes the binding of `(email, device)` and the socket's
    /// writer and descriptor, when the pair is indeed bound to this
    /// socket. After an eviction the pair belongs to another socket:
    /// the call then changes nothing, the evicted writer having left
    /// the table already.
    pub fn unbind(&mut self, email: &str, device: &str, socket_id: &str)
        requires
            router_wf(*old(self)),
        ensures
            router_wf(*final(self)),
            socket_of(*old(self), email@, device@) == Some(socket_id@) ==> {
                &&& !final(self).writers@.contains_key(socket_id@)
                &&& !bound(*final(self), email@, device@)
                &&& presence_of(*final(self), email@, device@) is None
            },
            socket_of(*old(self), email@, device@) != Some(socket_id@) ==> *final(self) == *old(
                self,
            ),
            forall|e: Seq<char>, d: Seq<char>|
                !(e == email@ && d == device@) ==> #[trigger] socket_of(*final(self), e, d)
                    == socket_of(*old(self), e, d),
            forall|e: Seq<char>, d: Seq<char>|
                !(e == email@ && d == device@) ==> #[trigger] presence_of(*final(self), e, d)
                    == presence_of(*old(self), e, d),
            forall|s: Seq<char>|
                s != socket_id@ ==> (final(self).writers@.contains_key(s) <==> old(self).writers@
                    .contains_key(s)) && (old(self).writers@.contains_key(s) ==> final(self)
                    .writers@[s] == old(self).writers@[s]),
    {
        let ghost r0 = *self;
        let is_mine = match self.socket_id_of(email, device) {
            Some(sid) => str_eq(sid.as_str(), socket_id),
            None => false,
        };
        if !is_mine {
            return ;
        }
        let _writer = self.writers.remove(socket_id);
        let mut inner: StrMap<String> = match self.bindings.remove(email) {
            Some(m) => m,
            None => StrMap::new(),
        };
        let _sid = inner.remove(device);
        let mut pinner: StrMap<DeviceInfo> = match self.presence.remove(email) {
            Some(m) => m,
            None => StrMap::new(),
        };
        let _info = pinner.remove(device);
        let ghost inner_v = inner@;
        let ghost pinner_v = pinner@;
        let keep = !inner.is_empty();
        if keep {
            self.bindings.insert(String::from_str(email), inner);
            self.presence.insert(String::from_str(email), pinner);
        }
        proof {
            let r1 = *self;
            let oldb = r0.bindings@[email@]@;
            let oldp = r0.presence@[email@]@;
            assert(r0.bindings@.contains_key(email@));
            assert(r0.presence@.contains_key(email@));
            assert(inner_v =~= oldb.remove(device@));
            assert(pinner_v =~= oldp.remove(device@));
            assert(oldp.dom() == oldb.dom());
            if !keep {
                assert(inner_v == Map::<Seq<char>, String>::empty());
                assert forall|d: Seq<char>| d != device@ implies !oldb.contains_key(d)
                    && !oldp.contains_key(d) by {
                    if oldb.contains_key(d) {
                        assert(inner_v.contains_key(d));
                    }
                    if oldp.contains_key(d) {
                        assert(oldb.contains_key(d));
                    }
                }
                assert(r1.bindings@ == r0.bindings@.remove(email@));
                assert(r1.presence@ == r0.presence@.remove(email@));
            } else {
                assert(r1.bindings@.contains_key(email@) && r1.bindings@[email@]@ == inner_v);
                assert(r1.presence@.contains_key(email@) && r1.presence@[email@]@ == pinner_v);
            }
            assert(r1.presence@.dom() =~= r1.bindings@.dom());
            assert forall|e: Seq<char>| r1.bindings@.contains_key(e) implies (
            #[trigger] r1.presence@[e])@.dom() == r1.bindings@[e]@.dom() by {
                if e == email@ {
                    assert(pinner_v.dom() =~= inner_v.dom());
                } else {
                    assert(r1.presence@[e] == r0.presence@[e]);
                    assert(r1.bindings@[e] == r0.bindings@[e]);
                }
            }
            assert forall|e: Seq<char>, d: Seq<char>| !(e == email@ && d == device@) implies
                #[trigger] socket_of(r1, e, d) == socket_of(r0, e, d) by {
                if e == email@ {
                    if keep {
                        assert(r1.bindings@[email@]@ == oldb.remove(device@));
                    } else {
                        assert(!r1.bindings@.contains_key(email@));
                        assert(!oldb.contains_key(d));
                    }
                }
            }
            assert forall|e: Seq<char>, d: Seq<char>| !(e == email@ && d == device@) implies
                #[trigger] presence_of(r1, e, d) == presence_of(r0, e, d) by {
                if e == email@ {
                    if keep {
                        assert(r1.presence@[email@]@ == oldp.remove(device@));
                    } else {
                        assert(!r1.presence@.contains_key(email@));
                        assert(!oldp.contains_key(d));
                    }
                }
            }
            assert forall|e1: Seq<char>, d1: Seq<char>, e2: Seq<char>, d2: Seq<char>|
                bound(r1, e1, d1) && bound(r1, e2, d2) && #[trigger] socket_of(r1, e1, d1)
                    == #[trigger] socket_of(r1, e2, d2) implies e1 == e2 && d1 == d2 by {
                assert(!(e1 == email@ && d1 == device@));
                assert(!(e2 == email@ && d2 == device@));
                assert(socket_of(r1, e1, d1) == socket_of(r0, e1, d1));
                assert(socket_of(r1, e2, d2) == socket_of(r0, e2, d2));
            }
            assert forall|e: Seq<char>, d: Seq<char>| bound(r1, e, d) implies r1.writers@
                .contains_key(#[trigger] socket_of(r1, e, d).unwrap()) by {
                assert(!(e == email@ && d == device@));
                assert(socket_of(r1, e, d) == socket_of(r0, e, d));
                let sx = socket_of(r0, e, d).unwrap();
                assert(r0.writers@.contains_key(sx));
                if sx == socket_id@ {
                    assert(socket_of(r0, e, d) == socket_of(r0, email@, device@));
                    assert(e == email@ && d == device@);
                }
            }
            assert forall|e: Seq<char>| r1.bindings@.contains_key(e) implies exists|d: Seq<char>|
                #[trigger] r1.bindings@[e]@.contains_key(d) by {
                if e == email@ {
                    let d0 = choose|k: Seq<char>| inner_v.contains_key(k);
                    assert(r1.bindings@[e]@.contains_key(d0));
                } else {
                    assert(r0.bindings@.contains_key(e));
                    let d0 = choose|d: Seq<char>| (#[trigger] r0.bindings@[e])@.contains_key(d);
                    assert(r1.bindings@[e] == r0.bindings@[e]);
                    assert(r1.bindings@[e]@.contains_key(d0));
                }
            }
            assert(router_wf(r1));
        }
    }
}



impl<W> LocalRouter<W> {
    /// The descriptors of every device this pod has bound for
    /// `email`: the local snapshot used when the shared registry is
    /// unreachable. Each device id appears at most once.
    pub fn local_devices(&self, email: &str) -> (r: Vec<DeviceInfo>)
        requires
            router_wf(*self),
        ensures
            forall|i: int|
                0 <= i < r@.len() ==> presence_of(*self, email@, (#[trigger] r@[i])@.device_id)
                    == Some(r@[i]@),
            forall|i: int, j: int|
                0 <= i < j < r@.len() ==> r@[i]@.device_id != r@[j]@.device_id,
            forall|d: Seq<char>|
                presence_of(*self, email@, d) is Some ==> exists|i: int|
                    0 <= i < r@.len() && (#[trigger] r@[i])@.device_id == d,
    {
        match self.presence.get(email) {
            Some(inner) => {
                proof {
                    inner.lemma_keys();
                }
                let n = inner.len();
                let mut out: Vec<DeviceInfo> = Vec::new();
                let mut i: usize = 0;
                while i < n
                    invariant
                        router_wf(*self),
                        self.presence@.contains_key(email@),
                        *inner == self.presence@[email@],
                        inner.wf(),
                        n == inner@.dom().len(),
                        n == inner.key_seq().len(),
                        0 <= i <= n,
                        out@.len() == i,
                        forall|k: int|
                            0 <= k < i ==> (#[trigger] out@[k])@.device_id == inner.key_seq()[k]
                                && inner@.contains_key(inner.key_seq()[k]) && out@[k]@ == inner@[
                                inner.key_seq()[k]]@,
                    decreases n - i,
                {
                    proof {
                        inner.lemma_keys();
                    }
                    let key = inner.key_at(i);
                    match inner.get(key.as_str()) {
                        Some(info) => {
                            out.push(info.clone());
                        },
                        None => {
                            proof {
                                assert(false);
                            }
                        },
                    }
                    i += 1;
                }
                proof {
                    inner.lemma_keys();
                    assert forall|d: Seq<char>| presence_of(*self, email@, d) is Some implies
                        exists|k: int|
                            0 <= k < out@.len() && (#[trigger] out@[k])@.device_id == d by {
                        let k = choose|k: int|
                            0 <= k < inner.key_seq().len() && #[trigger] inner.key_seq()[k] == d;
                        assert(out@[k]@.device_id == d);
                    }
                }
                out
            },
            None => {
                let out: Vec<DeviceInfo> = Vec::new();
                out
            },
        }
    }
}

/// Every bound pair's socket has a writer: a registered device can be
/// delivered to.
pub proof fn lemma_bound_has_writer<W>(r: LocalRouter<W>, e: Seq<char>, d: Seq<char>)
    requires
        router_wf(r),
        bound(r, e, d),
    ensures
        r.writers@.contains_key(socket_of(r, e, d).unwrap()),
{
}

/// No two device keys share a socket: a reader never sees one socket
/// id under two pairs, nor two socket ids under one pair.
pub proof fn lemma_socket_unique<W>(
    r: LocalRouter<W>,
    e1: Seq<char>,
    d1: Seq<char>,
    e2: Seq<char>,
    d2: Seq<char>,
)
    requires
        router_wf(r),
        bound(r, e1, d1),
        bound(r, e2, d2),
        socket_of(r, e1, d1) == socket_of(r, e2, d2),
    ensures
        e1 == e2 && d1 == d2,
{
}


/// A socket whose writer has left the table is bound nowhere: after
/// a disconnect's unbind, no table holds the socket id.
pub proof fn lemma_no_writer_no_binding<W>(r: LocalRouter<W>, sid: Seq<char>)
    requires
        router_wf(r),
        !r.writers@.contains_key(sid),
    ensures
        forall|e: Seq<char>, d: Seq<char>| #[trigger] socket_of(r, e, d) != Some(sid),
{
    assert forall|e: Seq<char>, d: Seq<char>| #[trigger] socket_of(r, e, d) != Some(sid) by {
        if socket_of(r, e, d) == Some(sid) {
            assert(r.writers@.contains_key(socket_of(r, e, d).unwrap()));
        }
    }
}

} // verus!
