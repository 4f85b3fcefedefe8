//! Bounded FIFO buffer of diagnostic lines.
//!
//! The buffer never holds more than its configured capacity: pushing onto a
//! full buffer evicts the oldest line first. All components of the server
//! share one such buffer; the surrounding process guards it with a lock and
//! hands it to the verified functions here one call at a time.

use vstd::prelude::*;

verus! {

/// Capacity used by the server for its process-wide log.
pub const MAX_LOG_ENTRIES: usize = 500;

/// One push onto a bounded FIFO: evicts the oldest line when full.
pub open spec fn push_evict(s: Seq<Seq<char>>, line: Seq<char>, cap: nat) -> Seq<Seq<char>> {
    if s.len() >= cap {
        s.drop_first().push(line)
    } else {
        s.push(line)
    }
}

/// A sequence of pushes onto a bounded FIFO, oldest push first.
pub open spec fn push_all(s: Seq<Seq<char>>, lines: Seq<Seq<char>>, cap: nat) -> Seq<Seq<char>>
    decreases lines.len(),
{
    if lines.len() == 0 {
        s
    } else {
        push_all(push_evict(s, lines.first(), cap), lines.drop_first(), cap)
    }
}

/// Insertion-ordered log lines, bounded by `capacity`.
pub struct LogBuffer {
    entries: Vec<String>,
    capacity: usize,
}

impl View for LogBuffer {
    type V = Seq<Seq<char>>;

    closed spec fn view(&self) -> Seq<Seq<char>> {
        self.entries@.map_values(|s: String| s@)
    }
}

impl LogBuffer {
    pub closed spec fn capacity_spec(&self) -> nat {
        self.capacity as nat
    }

    pub open spec fn wf(&self) -> bool {
        &&& 1 <= self.capacity_spec()
        &&& self@.len() <= self.capacity_spec()
    }

    pub fn new(capacity: usize) -> (r: LogBuffer)
        requires
            1 <= capacity,
        ensures
            r.wf(),
            r@ == Seq::<Seq<char>>::empty(),
            r.capacity_spec() == capacity,
    {
        let r = LogBuffer { entries: Vec::new(), capacity };
        proof {
            assert(r@ =~= Seq::<Seq<char>>::empty());
        }
        r
    }

    pub fn capacity(&self) -> (r: usize)
        ensures
            r == self.capacity_spec(),
    {
        self.capacity
    }

    pub fn len(&self) -> (r: usize)
        ensures
            r == self@.len(),
    {
        self.entries.len()
    }

    /// So that unverified callers can test well-formedness before calling in.
    pub fn is_wf(&self) -> (r: bool)
        ensures
            r == self.wf(),
    {
        1 <= self.capacity && self.entries.len() <= self.capacity
    }

    /// Appends a line, evicting the oldest one when the buffer is full.
    pub fn log(&mut self, line: String)
        requires
            old(self).wf(),
        ensures
            final(self).wf(),
            final(self).capacity_spec() == old(self).capacity_spec(),
            final(self)@ == push_evict(old(self)@, line@, old(self).capacity_spec()),
    {
        let ghost pre = self.entries@;
        if self.entries.len() >= self.capacity {
            self.entries.remove(0);
            proof {
                assert(self.entries@.map_values(|s: String| s@) =~= pre.map_values(
                    |s: String| s@,
                ).drop_first());
            }
        }
        let ghost mid = self.entries@;
        self.entries.push(line);
        proof {
            assert(self.entries@.map_values(|s: String| s@) =~= mid.map_values(
                |s: String| s@,
            ).push(line@));
        }
    }

    /// A copy of the current contents, oldest line first.
    pub fn snapshot(&self) -> (r: Vec<String>)
        ensures
            r@.map_values(|s: String| s@) == self@,
    {
        let mut out: Vec<String> = Vec::new();
        let mut i: usize = 0;
        while i < self.entries.len()
            invariant
                i <= self.entries@.len(),
                out@.len() == i,
                forall|k: int| 0 <= k < i ==> out@[k] == self.entries@[k],
            decreases self.entries@.len() - i,
        {
            out.push(self.entries[i].clone());
            i += 1;
        }
        proof {
            assert(out@ =~= self.entries@);
        }
        out
    }
}

/// After any run of pushes that starts no fuller than the capacity, the
/// buffer holds exactly the last `capacity` lines pushed (or all of them,
/// when fewer): the concatenation of start state and pushed lines, minus
/// what fell off the front.
pub proof fn lemma_push_all_keeps_suffix(s: Seq<Seq<char>>, lines: Seq<Seq<char>>, cap: nat)
    requires
        1 <= cap,
        s.len() <= cap,
    ensures
        push_all(s, lines, cap) == (s + lines).skip(
            if s.len() + lines.len() > cap {
                s.len() + lines.len() - cap
            } else {
                0
            },
        ),
        push_all(s, lines, cap).len() <= cap,
    decreases lines.len(),
{
    if lines.len() == 0 {
        assert((s + lines).skip(0) =~= s);
    } else {
        let s1 = push_evict(s, lines.first(), cap);
        assert(s1.len() <= cap);
        lemma_push_all_keeps_suffix(s1, lines.drop_first(), cap);
        let drop1 = if s1.len() + lines.drop_first().len() > cap {
            s1.len() + lines.drop_first().len() - cap
        } else {
            0
        };
        let drop0 = if s.len() + lines.len() > cap {
            s.len() + lines.len() - cap
        } else {
            0
        };
        if s.len() >= cap {
            assert(s1 =~= s.drop_first().push(lines.first()));
            assert((s1 + lines.drop_first()).skip(drop1 as int) =~= (s + lines).skip(drop0 as int));
        } else {
            assert(s1 =~= s.push(lines.first()));
            assert((s1 + lines.drop_first()).skip(drop1 as int) =~= (s + lines).skip(drop0 as int));
        }
    }
}

/// Law: after `capacity + 1` pushes onto an empty buffer, the contents are
/// exactly the pushed lines minus the first: the oldest line was evicted
/// and the newest is present.
pub proof fn lemma_eviction_after_capacity_plus_one(lines: Seq<Seq<char>>, cap: nat)
    requires
        1 <= cap,
        lines.len() == cap + 1,
    ensures
        push_all(Seq::<Seq<char>>::empty(), lines, cap) == lines.drop_first(),
        push_all(Seq::<Seq<char>>::empty(), lines, cap).contains(lines.last()),
        !lines.drop_first().contains(lines.first()) ==> !push_all(
            Seq::<Seq<char>>::empty(),
            lines,
            cap,
        ).contains(lines.first()),
{
    let e = Seq::<Seq<char>>::empty();
    lemma_push_all_keeps_suffix(e, lines, cap);
    assert((e + lines).skip(1) =~= lines.drop_first());
    assert(lines.drop_first()[cap - 1] == lines.last());
    assert(lines.drop_first().contains(lines.last()));
}

} // verus!
