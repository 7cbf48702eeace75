//! The audio-session watcher's line protocol and the event
//! deduplication the monitor applies before forwarding.

use vstd::prelude::*;

use crate::process::{contains_u32, find_u32, remove_u32, u32s_unique};

verus! {

/// An ASCII decimal digit byte.
pub open spec fn is_digit_byte(b: u8) -> bool {
    0x30 <= b && b <= 0x39
}

/// The numeric value of a digit-byte sequence, most significant first.
pub open spec fn digits_val_bytes(s: Seq<u8>) -> int
    decreases s.len(),
{
    if s.len() == 0 {
        0
    } else {
        digits_val_bytes(s.drop_last()) * 10 + (s.last() as int - 0x30)
    }
}

/// The shortest decimal encoding of a number.
pub open spec fn dec_bytes(v: nat) -> Seq<u8>
    decreases v,
{
    if v < 10 {
        seq![(v + 0x30) as u8]
    } else {
        dec_bytes(v / 10) + seq![(v % 10 + 0x30) as u8]
    }
}

/// A process either gained or lost an active audio-session handle.
#[derive(Clone, Copy, Debug, PartialEq, Eq, Structural)]
pub enum ProcessEvent {
    /// Process add
    Add(u32),
    /// Process remove
    Remove(u32),
}

/// Appends the decimal encoding of `v`.
fn push_dec(v: u32, out: &mut Vec<u8>)
    ensures
        final(out)@ == old(out)@ + dec_bytes(v as nat),
    decreases v,
{
    if v < 10 {
        out.push((v as u8) + 0x30);
        proof {
            assert(final(out)@ =~= old(out)@ + dec_bytes(v as nat));
        }
    } else {
        push_dec(v / 10, out);
        out.push(((v % 10) as u8) + 0x30);
        proof {
            assert(old(out)@ + dec_bytes((v / 10) as nat) + seq![((v % 10) + 0x30) as u8]
                =~= old(out)@ + dec_bytes(v as nat));
        }
    }
}

impl ProcessEvent {
    /// The event's PID.
    pub open spec fn pid(self) -> u32 {
        match self {
            ProcessEvent::Add(p) => p,
            ProcessEvent::Remove(p) => p,
        }
    }

    /// The method word the wire format uses for this event.
    pub open spec fn method_bytes(self) -> Seq<u8> {
        match self {
            ProcessEvent::Add(_) => seq![0x61u8, 0x64u8, 0x64u8],
            ProcessEvent::Remove(_) => seq![0x72u8, 0x65u8, 0x6du8],
        }
    }

    /// Encodes the event as its line: the method word, a space, and the
    /// PID in decimal.
    pub fn to_bytes(&self) -> (r: Vec<u8>)
        ensures
            r@ == self.method_bytes() + seq![0x20u8] + dec_bytes(self.pid() as nat),
    {
        let mut out: Vec<u8> = Vec::new();
        let pid = match self {
            ProcessEvent::Add(p) => {
                out.push(0x61);
                out.push(0x64);
                out.push(0x64);
                *p
            },
            ProcessEvent::Remove(p) => {
                out.push(0x72);
                out.push(0x65);
                out.push(0x6d);
                *p
            },
        };
        out.push(0x20);
        proof {
            assert(out@ =~= self.method_bytes() + seq![0x20u8]);
        }
        push_dec(pid, &mut out);
        proof {
            assert(out@ =~= self.method_bytes() + seq![0x20u8] + dec_bytes(pid as nat));
        }
        out
    }

    /// Parse a process event from bytes: the text before the first space
    /// names the method, and the chunk after it must begin with the PID's
    /// digits.
    #[must_use]
    #[verifier::rlimit(100)]
    pub fn from_bytes(bytes: &[u8]) -> (r: Option<Self>)
        ensures
            r matches Some(e) ==> wire_shape(bytes@, e),
            r is None ==> forall|e: ProcessEvent| !wire_shape(bytes@, e),
    {
        let len = bytes.len();
        let mut i: usize = 0;
        while i < len && bytes[i] != 0x20
            invariant
                i <= len,
                len == bytes@.len(),
                forall|j: int| 0 <= j < i ==> bytes@[j] != 0x20,
            decreases len - i,
        {
            i = i + 1;
        }
        if i >= len {
            proof {
                assert forall|e: ProcessEvent| !wire_shape(bytes@, e) by {}
            }
            return None;
        }
        let is_add = i == 3 && bytes[0] == 0x61 && bytes[1] == 0x64 && bytes[2] == 0x64;
        let is_rem = i == 3 && bytes[0] == 0x72 && bytes[1] == 0x65 && bytes[2] == 0x6d;
        if !is_add && !is_rem {
            proof {
                assert forall|e: ProcessEvent| !wire_shape(bytes@, e) by {
                    if bytes@.take(i as int) == e.method_bytes() {
                        assert(bytes@.take(i as int).len() == 3);
                        assert(bytes@[0] == e.method_bytes()[0]);
                        assert(bytes@[1] == e.method_bytes()[1]);
                        assert(bytes@[2] == e.method_bytes()[2]);
                    }
                }
            }
            return None;
        }
        let mut e: usize = i + 1;
        while e < len && bytes[e] != 0x20
            invariant
                i + 1 <= e <= len,
                len == bytes@.len(),
                forall|j: int| i + 1 <= j < e ==> bytes@[j] != 0x20,
            decreases len - e,
        {
            e = e + 1;
        }
        let ghost chunk = bytes@.subrange(i + 1 as int, e as int);
        let mut d: usize = i + 1;
        let mut acc: u64 = 0;
        proof {
            assert(chunk.take(0) =~= Seq::<u8>::empty());
        }
        while d < e && bytes[d] >= 0x30 && bytes[d] <= 0x39
            invariant
                i + 1 <= d <= e <= len,
                len == bytes@.len(),
                chunk == bytes@.subrange(i + 1 as int, e as int),
                forall|j: int| 0 <= j < d - i - 1 ==> is_digit_byte(chunk[j]),
                acc as int == digits_val_bytes(chunk.take(d - i - 1)),
                acc <= 0xffff_ffff,
            decreases e - d,
        {
            let dv = (bytes[d] - 0x30) as u64;
            let next = acc * 10 + dv;
            proof {
                assert(chunk[d - i - 1] == bytes@[d as int]);
                assert(chunk.take(d - i) =~= chunk.take(d - i - 1).push(bytes@[d as int]));
                assert(chunk.take(d - i).drop_last() =~= chunk.take(d - i - 1));
            }
            if next > 0xffff_ffff {
                proof {
                    assert forall|ev: ProcessEvent| !wire_shape(bytes@, ev) by {
                        if wire_shape(bytes@, ev) {
                            let (i2, b2) = choose|i2: int, b2: int|
                                #![trigger bytes@.take(i2), bytes@.subrange(i2 + 1, b2)]
                                {
                                    &&& 0 <= i2 < bytes@.len()
                                    &&& bytes@[i2] == 0x20
                                    &&& (forall|j: int| 0 <= j < i2 ==> bytes@[j] != 0x20)
                                    &&& bytes@.take(i2) == ev.method_bytes()
                                    &&& i2 + 1 <= b2 <= bytes@.len()
                                    &&& (b2 == bytes@.len() || bytes@[b2] == 0x20)
                                    &&& (forall|j: int| i2 + 1 <= j < b2 ==> bytes@[j] != 0x20)
                                    &&& exists|n: int|
                                        #[trigger] wire_digit_run(
                                            bytes@.subrange(i2 + 1, b2),
                                            n,
                                            ev.pid(),
                                        )
                                };
                            lemma_wire_split_unique(
                                bytes@,
                                i as int,
                                e as int,
                                i2,
                                b2,
                            );
                            let n = choose|n: int|
                                #[trigger] wire_digit_run(chunk, n, ev.pid());
                            assert(n >= d - i) by {
                                if n < d - i {
                                    assert(is_digit_byte(chunk[n]));
                                }
                            }
                            lemma_digit_prefix_monotone(chunk, d - i, n);
                            lemma_digits_nonneg_bytes(chunk.take(n));
                            assert(digits_val_bytes(chunk.take(d - i)) == next);
                        }
                    }
                }
                return None;
            }
            acc = next;
            d = d + 1;
        }
        if d == i + 1 {
            proof {
                assert forall|ev: ProcessEvent| !wire_shape(bytes@, ev) by {
                    if wire_shape(bytes@, ev) {
                        let (i2, b2) = choose|i2: int, b2: int|
                            #![trigger bytes@.take(i2), bytes@.subrange(i2 + 1, b2)]
                            {
                                &&& 0 <= i2 < bytes@.len()
                                &&& bytes@[i2] == 0x20
                                &&& (forall|j: int| 0 <= j < i2 ==> bytes@[j] != 0x20)
                                &&& bytes@.take(i2) == ev.method_bytes()
                                &&& i2 + 1 <= b2 <= bytes@.len()
                                &&& (b2 == bytes@.len() || bytes@[b2] == 0x20)
                                &&& (forall|j: int| i2 + 1 <= j < b2 ==> bytes@[j] != 0x20)
                                &&& exists|n: int|
                                    #[trigger] wire_digit_run(
                                        bytes@.subrange(i2 + 1, b2),
                                        n,
                                        ev.pid(),
                                    )
                            };
                        lemma_wire_split_unique(bytes@, i as int, e as int, i2, b2);
                        let n = choose|n: int| #[trigger] wire_digit_run(chunk, n, ev.pid());
                        assert(is_digit_byte(chunk[0]));
                        assert(chunk[0] == bytes@[i + 1 as int]);
                        assert(d < e);
                    }
                }
            }
            return None;
        }
        let pid = acc as u32;
        proof {
            assert(d - i - 1 == chunk.len() || !is_digit_byte(chunk[d - i - 1])) by {
                if d < e {
                    assert(chunk[d - i - 1] == bytes@[d as int]);
                }
            }
            assert(wire_digit_run(chunk, d - i - 1, pid));
            assert(bytes@.subrange(i + 1 as int, e as int) == chunk);
            assert(wire_digit_run(bytes@.subrange(i + 1 as int, e as int), d - i - 1, pid));
        }
        if is_add {
            proof {
                assert(bytes@.take(i as int) =~= ProcessEvent::Add(pid).method_bytes());
                assert(wire_digit_run(
                    bytes@.subrange(i as int + 1, e as int),
                    d - i - 1,
                    ProcessEvent::Add(pid).pid(),
                ));
                assert(wire_shape(bytes@, ProcessEvent::Add(pid)));
            }
            Some(ProcessEvent::Add(pid))
        } else {
            proof {
                assert(bytes@.take(i as int) =~= ProcessEvent::Remove(pid).method_bytes());
                assert(wire_digit_run(
                    bytes@.subrange(i as int + 1, e as int),
                    d - i - 1,
                    ProcessEvent::Remove(pid).pid(),
                ));
                assert(wire_shape(bytes@, ProcessEvent::Remove(pid)));
            }
            Some(ProcessEvent::Remove(pid))
        }
    }
}

/// The chunk starts with a digit run of length `n` denoting `pid`.
pub open spec fn wire_digit_run(chunk: Seq<u8>, n: int, pid: u32) -> bool {
    &&& 1 <= n <= chunk.len()
    &&& forall|j: int| 0 <= j < n ==> is_digit_byte(#[trigger] chunk[j])
    &&& (n == chunk.len() || !is_digit_byte(chunk[n]))
    &&& digits_val_bytes(chunk.take(n)) == pid as int
}

/// A line carries the event when its first space splits it into the
/// event's method word and a chunk whose leading digits give the PID.
pub open spec fn wire_shape(s: Seq<u8>, e: ProcessEvent) -> bool {
    exists|i: int, b: int|
        #![trigger s.take(i), s.subrange(i + 1, b)]
        {
            &&& 0 <= i < s.len()
            &&& s[i] == 0x20
            &&& (forall|j: int| 0 <= j < i ==> s[j] != 0x20)
            &&& s.take(i) == e.method_bytes()
            &&& i + 1 <= b <= s.len()
            &&& (b == s.len() || s[b] == 0x20)
            &&& (forall|j: int| i + 1 <= j < b ==> s[j] != 0x20)
            &&& exists|n: int| #[trigger] wire_digit_run(s.subrange(i + 1, b), n, e.pid())
        }
}


/// The first space and the chunk end of a wire line are unique, so any
/// witnesses of `wire_shape` coincide with the scanned ones.
proof fn lemma_wire_split_unique(s: Seq<u8>, i: int, b: int, i2: int, b2: int)
    requires
        0 <= i < s.len(),
        s[i] == 0x20,
        forall|j: int| 0 <= j < i ==> s[j] != 0x20,
        i + 1 <= b <= s.len(),
        b == s.len() || s[b] == 0x20,
        forall|j: int| i + 1 <= j < b ==> s[j] != 0x20,
        0 <= i2 < s.len(),
        s[i2] == 0x20,
        forall|j: int| 0 <= j < i2 ==> s[j] != 0x20,
        i2 + 1 <= b2 <= s.len(),
        b2 == s.len() || s[b2] == 0x20,
        forall|j: int| i2 + 1 <= j < b2 ==> s[j] != 0x20,
    ensures
        i2 == i,
        b2 == b,
{
    if i2 < i {
        assert(s[i2] != 0x20);
    }
    if i2 > i {
        assert(s[i] != 0x20);
    }
    if b2 < b {
        assert(s[b2] != 0x20);
        assert(b2 < s.len());
    }
    if b2 > b {
        assert(s[b] != 0x20);
        assert(b < s.len());
    }
}

/// A longer digit prefix never has a smaller value.
proof fn lemma_digit_prefix_monotone(s: Seq<u8>, a: int, b: int)
    requires
        0 <= a <= b <= s.len(),
        forall|j: int| 0 <= j < b ==> is_digit_byte(#[trigger] s[j]),
    ensures
        digits_val_bytes(s.take(a)) <= digits_val_bytes(s.take(b)),
    decreases b - a,
{
    if a < b {
        lemma_digit_prefix_monotone(s, a + 1, b);
        assert(s.take(a + 1).drop_last() =~= s.take(a));
        assert(s.take(a + 1).last() == s[a]);
        lemma_digits_nonneg_bytes(s.take(a));
    }
}

/// Digit-byte strings denote non-negative numbers.
proof fn lemma_digits_nonneg_bytes(s: Seq<u8>)
    requires
        forall|j: int| 0 <= j < s.len() ==> is_digit_byte(#[trigger] s[j]),
    ensures
        digits_val_bytes(s) >= 0,
    decreases s.len(),
{
    if s.len() > 0 {
        assert(forall|j: int|
            0 <= j < s.drop_last().len() ==> is_digit_byte(#[trigger] s.drop_last()[j]));
        lemma_digits_nonneg_bytes(s.drop_last());
    }
}

/// The monitor's deduplication: an add is forwarded only for a PID not
/// yet managed, a removal only for one that is.
#[derive(Debug)]
pub struct MonitorSet {
    /// The managed PIDs
    pub managed: Vec<u32>,
}

impl MonitorSet {
    /// No PID is tracked twice.
    pub open spec fn wf(self) -> bool {
        u32s_unique(self.managed@)
    }

    /// An empty monitor.
    pub fn new() -> (r: MonitorSet)
        ensures
            r.wf(),
            r.managed@.len() == 0,
    {
        MonitorSet { managed: Vec::new() }
    }

    /// Notes an event; the result says whether to forward it.
    pub fn note(&mut self, event: &ProcessEvent) -> (forward: bool)
        requires
            old(self).wf(),
        ensures
            final(self).wf(),
            ({
                match *event {
                    ProcessEvent::Add(pid) => {
                        &&& forward == !contains_u32(old(self).managed@, pid)
                        &&& forall|y: u32|
                            #[trigger] contains_u32(final(self).managed@, y) <==> (contains_u32(
                                old(self).managed@,
                                y,
                            ) || y == pid)
                    },
                    ProcessEvent::Remove(pid) => {
                        &&& forward == contains_u32(old(self).managed@, pid)
                        &&& forall|y: u32|
                            #[trigger] contains_u32(final(self).managed@, y) <==> (contains_u32(
                                old(self).managed@,
                                y,
                            ) && y != pid)
                    },
                }
            }),
    {
        match event {
            ProcessEvent::Add(pid) => {
                if find_u32(&self.managed, *pid) {
                    false
                } else {
                    self.managed.push(*pid);
                    proof {
                        assert forall|y: u32|
                            #[trigger] contains_u32(self.managed@, y) <==> (contains_u32(
                            old(self).managed@,
                            y,
                        ) || y == *pid) by {
                            if contains_u32(self.managed@, y) {
                                let m = choose|m: int|
                                    0 <= m < self.managed@.len() && self.managed@[m] == y;
                                if m < old(self).managed@.len() {
                                    assert(contains_u32(old(self).managed@, y));
                                }
                            }
                            if contains_u32(old(self).managed@, y) {
                                let m = choose|m: int|
                                    0 <= m < old(self).managed@.len() && old(self).managed@[m]
                                        == y;
                                assert(self.managed@[m] == y);
                            }
                            if y == *pid {
                                assert(self.managed@[old(self).managed@.len() as int] == y);
                            }
                        }
                    }
                    true
                }
            },
            ProcessEvent::Remove(pid) => {
                let present = find_u32(&self.managed, *pid);
                if present {
                    remove_u32(&mut self.managed, *pid);
                }
                present
            },
        }
    }
}

} // verus!
