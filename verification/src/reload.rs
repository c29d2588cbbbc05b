//! The reload broadcaster: the set of connected live-reload sessions
//! and the fan-out of a reload signal to all of them.

use vstd::prelude::*;

verus! {

/// Owns the set of connected reload sessions, each named by an id the
/// connection shell hands out.
pub struct Broadcaster {
    pub sessions: Vec<u64>,
}

impl Broadcaster {
    /// No session id is held twice.
    pub open spec fn wf(self) -> bool {
        forall|i: int, j: int|
            0 <= i < j < self.sessions@.len() ==> self.sessions@[i] != self.sessions@[j]
    }

    /// The set of currently connected sessions.
    pub open spec fn session_set(self) -> Set<u64> {
        self.sessions@.to_set()
    }

    pub fn new() -> (r: Broadcaster)
        ensures
            r.wf(),
            r.session_set() == Set::<u64>::empty(),
    {
        let r = Broadcaster { sessions: Vec::new() };
        proof {
            assert(r.sessions@.to_set() =~= Set::<u64>::empty());
        }
        r
    }

    /// Whether `id` is currently registered.
    pub fn is_registered(&self, id: u64) -> (r: bool)
        ensures
            r == self.session_set().contains(id),
    {
        let mut i: usize = 0;
        let ghost s = self.sessions@;
        while i < self.sessions.len()
            invariant
                self.sessions@ == s,
                i <= s.len(),
                forall|j: int| 0 <= j < i ==> s[j] != id,
            decreases s.len() - i,
        {
            if self.sessions[i] == id {
                proof {
                    assert(s.contains(id));
                    assert(s.to_set().contains(id));
                }
                return true;
            }
            i += 1;
        }
        proof {
            assert(!s.contains(id));
            assert(!s.to_set().contains(id));
        }
        false
    }

    /// Adds a session; adding one that is already connected changes
    /// nothing.
    pub fn register(&mut self, id: u64)
        requires
            old(self).wf(),
        ensures
            final(self).wf(),
            final(self).session_set() == old(self).session_set().insert(id),
    {
        if !self.is_registered(id) {
            let ghost s = self.sessions@;
            self.sessions.push(id);
            proof {
                assert(forall|x: u64| s.push(id).contains(x) ==> (s.contains(x) || x == id))
                    by {
                    assert(forall|x: u64| #[trigger] s.push(id).contains(x) ==> {
                        let w = choose|k: int| 0 <= k < s.push(id).len() && s.push(id)[k] == x;
                        (s.contains(x) || x == id)
                    });
                };
                assert(s.push(id).last() == id);
                assert(s.push(id).contains(id));
                assert(forall|x: u64| s.contains(x) ==> #[trigger] s.push(id).contains(x)) by {
                    assert(forall|x: u64| #[trigger] s.contains(x) ==> {
                        let w = choose|k: int| 0 <= k < s.len() && s[k] == x;
                        s.push(id)[w] == x && s.push(id).contains(x)
                    });
                };
                assert(self.sessions@.to_set() =~= s.to_set().insert(id));
                assert(forall|i: int, j: int|
                    0 <= i < j < self.sessions@.len() ==> self.sessions@[i]
                        != self.sessions@[j]) by {
                    assert(forall|k: int| 0 <= k < s.len() ==> s.contains(#[trigger] s[k]));
                    assert(!s.contains(id));
                };
            }
        } else {
            proof {
                assert(self.session_set().contains(id));
                assert(self.session_set() =~= self.session_set().insert(id));
            }
        }
    }

    /// Removes a session; removing one that is gone already is a no-op,
    /// and other sessions are untouched.
    pub fn unregister(&mut self, id: u64)
        requires
            old(self).wf(),
        ensures
            final(self).wf(),
            final(self).session_set() == old(self).session_set().remove(id),
    {
        let ghost s = self.sessions@;
        let mut i: usize = 0;
        while i < self.sessions.len()
            invariant
                self.sessions@ == s,
                old(self).wf(),
                s == old(self).sessions@,
                i <= s.len(),
                forall|j: int| 0 <= j < i ==> s[j] != id,
            decreases s.len() - i,
        {
            if self.sessions[i] == id {
                self.sessions.remove(i);
                proof {
                    let t = self.sessions@;
                    assert(t =~= s.subrange(0, i as int) + s.subrange(
                        i as int + 1,
                        s.len() as int,
                    ));
                    assert(forall|x: u64| t.contains(x) ==> (s.contains(x) && x != id)) by {
                        assert(forall|x: u64| #[trigger] t.contains(x) ==> {
                            let w = choose|k: int| 0 <= k < t.len() && t[k] == x;
                            let orig = if w < i as int {
                                w
                            } else {
                                w + 1
                            };
                            s[orig] == x && s.contains(x) && (x != id || orig == i as int)
                        });
                        assert(forall|k: int|
                            0 <= k < t.len() && k >= i ==> t[k] == s[k + 1] && k + 1 != i as int);
                    };
                    assert(forall|x: u64| s.contains(x) && x != id ==> t.contains(x)) by {
                        assert(forall|x: u64| #[trigger] s.contains(x) && x != id ==> {
                            let w = choose|k: int| 0 <= k < s.len() && s[k] == x;
                            let nw = if w < i as int {
                                w
                            } else {
                                w - 1
                            };
                            w != i as int && t[nw] == x && t.contains(x)
                        });
                    };
                    assert(self.sessions@.to_set() =~= s.to_set().remove(id));
                    assert(forall|a: int, b: int|
                        0 <= a < b < t.len() ==> t[a] != t[b]);
                }
                return ;
            }
            i += 1;
        }
        proof {
            assert(!s.contains(id));
            assert(!s.to_set().contains(id));
            assert(s.to_set() =~= s.to_set().remove(id));
        }
    }

    /// The sessions a reload signal is delivered to: every session
    /// registered at the moment of the broadcast, each exactly once.
    pub fn broadcast_targets(&self) -> (r: Vec<u64>)
        ensures
            r@ == self.sessions@,
            r@.to_set() == self.session_set(),
    {
        let mut r: Vec<u64> = Vec::new();
        let mut i: usize = 0;
        while i < self.sessions.len()
            invariant
                i <= self.sessions@.len(),
                r@ == self.sessions@.subrange(0, i as int),
            decreases self.sessions@.len() - i,
        {
            r.push(self.sessions[i]);
            proof {
                assert(r@ =~= self.sessions@.subrange(0, i as int + 1));
            }
            i += 1;
        }
        proof {
            assert(r@ =~= self.sessions@);
        }
        r
    }
}

/// Unregistering a session twice is a no-op: the second removal changes
/// nothing, and every other session is still delivered to.
pub proof fn lemma_unregister_idempotent(s: Set<u64>, id: u64)
    ensures
        s.remove(id).remove(id) == s.remove(id),
        forall|x: u64| x != id ==> (s.remove(id).contains(x) <==> s.contains(x)),
{
    assert(s.remove(id).remove(id) =~= s.remove(id));
}

} // verus!
