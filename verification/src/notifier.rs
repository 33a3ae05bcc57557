use vstd::prelude::*;

verus! {

/// A pending rebuild request: one chunk of one layer whose contents changed
/// and whose visual representation must be rebuilt.
#[derive(Clone, Copy, Debug, PartialEq, Eq, Structural)]
pub struct RebuildToken {
    pub layer_id: u32,
    pub chunk_x: u32,
    pub chunk_y: u32,
}

/// Coalesces per-chunk dirty state into a pending-rebuild queue that the
/// render collaborator drains once per frame. The queue has set semantics: a
/// chunk touched many times in one frame yields exactly one token.
pub struct MutationNotifier {
    pub pending: Vec<RebuildToken>,
}

impl MutationNotifier {
    /// The pending queue, as the set of tokens it holds.
    pub open spec fn pending_set(self) -> Set<RebuildToken> {
        self.pending@.to_set()
    }

    /// The queue never holds a token twice.
    pub open spec fn wf(self) -> bool {
        self.pending@.no_duplicates()
    }

    /// An empty queue.
    pub fn new() -> (n: MutationNotifier)
        ensures
            n.wf(),
            n.pending@.len() == 0,
            n.pending_set() == Set::<RebuildToken>::empty(),
    {
        let n = MutationNotifier { pending: Vec::new() };
        proof {
            assert(n.pending_set() =~= Set::<RebuildToken>::empty());
        }
        n
    }

    /// Enqueues a token. Idempotent: a token already pending is not added
    /// again, so the pending queue keeps set semantics.
    pub fn notify(&mut self, t: RebuildToken)
        requires
            old(self).wf(),
        ensures
            final(self).wf(),
            final(self).pending_set() == old(self).pending_set().insert(t),
            old(self).pending@.contains(t) ==> final(self).pending@ == old(self).pending@,
            !old(self).pending@.contains(t) ==> final(self).pending@ == old(self).pending@.push(
                t,
            ),
    {
        let mut i: usize = 0;
        while i < self.pending.len()
            invariant
                *self == *old(self),
                self.pending@.no_duplicates(),
                i <= self.pending@.len(),
                forall|j: int| 0 <= j < i ==> self.pending@[j] != t,
            decreases self.pending@.len() - i,
        {
            if self.pending[i] == t {
                proof {
                    assert(old(self).pending@.contains(t));
                    assert(old(self).pending_set().insert(t) =~= old(self).pending_set());
                }
                return ;
            }
            i = i + 1;
        }
        proof {
            assert(!old(self).pending@.contains(t));
        }
        self.pending.push(t);
        proof {
            let new_seq = self.pending@;
            let old_seq = old(self).pending@;
            assert forall|x: RebuildToken| new_seq.contains(x) <==> (old_seq.contains(x) || x
                == t) by {
                if new_seq.contains(x) {
                    let k = choose|k: int| 0 <= k < new_seq.len() && new_seq[k] == x;
                    if k < old_seq.len() {
                        assert(old_seq[k] == x);
                    }
                }
                if old_seq.contains(x) {
                    let k = choose|k: int| 0 <= k < old_seq.len() && old_seq[k] == x;
                    assert(new_seq[k] == x);
                }
                if x == t {
                    assert(new_seq[new_seq.len() - 1] == x);
                }
            }
            assert(self.pending_set() =~= old(self).pending_set().insert(t));
        }
    }

    /// Hands out every pending token, in the order the chunks were first
    /// touched, and clears the queue: the once-per-frame drain.
    pub fn drain(&mut self) -> (r: Vec<RebuildToken>)
        requires
            old(self).wf(),
        ensures
            r@ == old(self).pending@,
            r@.no_duplicates(),
            forall|t: RebuildToken| r@.contains(t) <==> old(self).pending_set().contains(t),
            final(self).wf(),
            final(self).pending@.len() == 0,
            final(self).pending_set() == Set::<RebuildToken>::empty(),
    {
        let mut out: Vec<RebuildToken> = Vec::new();
        core::mem::swap(&mut out, &mut self.pending);
        proof {
            assert(self.pending_set() =~= Set::<RebuildToken>::empty());
        }
        out
    }
}

/// A drained queue hands out a pending token at exactly one position: a
/// chunk touched many times in one frame is rebuilt once.
pub proof fn lemma_drained_once(s: Seq<RebuildToken>, t: RebuildToken)
    requires
        s.no_duplicates(),
        s.contains(t),
    ensures
        exists|i: int|
            {
                &&& 0 <= i < s.len()
                &&& s[i] == t
                &&& forall|j: int| 0 <= j < s.len() && s[j] == t ==> j == i
            },
{
    let i = choose|i: int| 0 <= i < s.len() && s[i] == t;
    assert(0 <= i < s.len() && s[i] == t);
    assert forall|j: int| 0 <= j < s.len() && s[j] == t implies j == i by {
        if j != i {
            assert(s[j] != s[i]);
        }
    }
    assert({
        &&& 0 <= i < s.len()
        &&& s[i] == t
        &&& forall|j: int| 0 <= j < s.len() && s[j] == t ==> j == i
    });
}

} // verus!
