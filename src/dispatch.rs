use vstd::prelude::*;
use crate::canonical::varint;
use crate::codec::HASH_LEN;

verus! {

/// The most bytes a length prefix may take: enough for any 64-bit value.
pub const MAX_VARINT_LEN: usize = 10;

/// What reading a varint from the front of some bytes gives.
pub enum VarintRead {
    /// The value and the number of bytes it took.
    Value(nat, nat),
    /// The bytes end inside the varint.
    Incomplete,
    /// The varint runs longer than the limit.
    Invalid,
}

/// Reads a varint of at most `limit` bytes from the front of `bytes`.
pub open spec fn read_varint_spec(bytes: Seq<u8>, limit: nat) -> VarintRead
    decreases limit,
{
    if limit == 0 {
        VarintRead::Invalid
    } else if bytes.len() == 0 {
        VarintRead::Incomplete
    } else if bytes[0] < 128 {
        VarintRead::Value(bytes[0] as nat, 1)
    } else {
        match read_varint_spec(bytes.drop_first(), (limit - 1) as nat) {
            VarintRead::Value(n, k) => VarintRead::Value(((bytes[0] - 128) + 128 * n) as nat, k + 1),
            other => other,
        }
    }
}

/// `128` to the power `e`.
pub open spec fn pow128(e: nat) -> nat
    decreases e,
{
    if e == 0 {
        1
    } else {
        128 * pow128((e - 1) as nat)
    }
}

/// A message on a request stream: the 32-byte hash of the payload's type,
/// the payload's length as a varint, then the payload.
pub open spec fn message(hash: Seq<u8>, payload: Seq<u8>) -> Seq<u8> {
    hash + varint(payload.len()) + payload
}

/// What the dispatch loop does with the bytes it holds.
#[derive(Debug, Clone, Copy, PartialEq, Eq, Structural)]
pub enum Step {
    /// No whole message yet: read more bytes.
    NeedMore,
    /// The length prefix cannot be read: the stream is unusable.
    Malformed,
    /// A whole message for a registered handler: call `handler` with the
    /// payload `bytes[start..end]`, then go on after `end`.
    Dispatch { handler: usize, start: usize, end: usize },
    /// A whole message that no handler is registered for: skip to `end`
    /// and go on.
    Unknown { end: usize },
}

/// The handlers registered so far, in order of registration, as a map from
/// hash to handler: a later registration of a hash replaces an earlier one.
pub open spec fn registered(entries: Seq<(Seq<u8>, usize)>) -> Map<Seq<u8>, usize>
    decreases entries.len(),
{
    if entries.len() == 0 {
        Map::empty()
    } else {
        registered(entries.drop_last()).insert(entries.last().0, entries.last().1)
    }
}

/// The step the dispatch loop takes on the bytes `buf`, with the handlers
/// `handlers`.
pub open spec fn step_spec(handlers: Map<Seq<u8>, usize>, buf: Seq<u8>) -> Step {
    if buf.len() < HASH_LEN {
        Step::NeedMore
    } else {
        match read_varint_spec(buf.skip(HASH_LEN as int), MAX_VARINT_LEN as nat) {
            VarintRead::Incomplete => Step::NeedMore,
            VarintRead::Invalid => Step::Malformed,
            VarintRead::Value(n, k) => if n > u64::MAX {
                Step::Malformed
            } else if buf.len() < HASH_LEN + k + n {
                Step::NeedMore
            } else {
                let hash = buf.take(HASH_LEN as int);
                let start = (HASH_LEN + k) as usize;
                let end = (HASH_LEN + k + n) as usize;
                if handlers.contains_key(hash) {
                    Step::Dispatch { handler: handlers[hash], start, end }
                } else {
                    Step::Unknown { end }
                }
            },
        }
    }
}

/// A varint read from a buffer.
#[derive(Debug, Clone, Copy, PartialEq, Eq, Structural)]
pub enum ReadVarint {
    /// The value and the number of bytes it took.
    Value(u64, usize),
    /// The buffer ends inside the varint.
    Incomplete,
    /// The varint is too long, or its value does not fit in 64 bits.
    Invalid,
}

/// Reads a varint of at most `limit` bytes starting at `bytes[pos]`.
pub fn read_varint(bytes: &[u8], pos: usize, limit: usize) -> (r: ReadVarint)
    requires
        pos <= bytes@.len(),
    ensures
        match (r, read_varint_spec(bytes@.skip(pos as int), limit as nat)) {
            (ReadVarint::Value(n, k), VarintRead::Value(m, j)) => n == m && k == j,
            (ReadVarint::Incomplete, VarintRead::Incomplete) => true,
            (ReadVarint::Invalid, VarintRead::Invalid) => true,
            (ReadVarint::Invalid, VarintRead::Value(m, _)) => m > u64::MAX,
            _ => false,
        },
        r matches ReadVarint::Value(_, k) ==> 1 <= k <= limit && k <= bytes@.len() - pos,
    decreases limit,
{
    if limit == 0 {
        return ReadVarint::Invalid;
    }
    if pos >= bytes.len() {
        return ReadVarint::Incomplete;
    }
    let b: u8 = bytes[pos];
    if b < 128 {
        return ReadVarint::Value(b as u64, 1);
    }
    proof {
        assert(bytes@.skip(pos as int).drop_first() =~= bytes@.skip(pos + 1));
    }
    let low: u64 = (b - 128) as u64;
    match read_varint(bytes, pos + 1, limit - 1) {
        ReadVarint::Value(n, k) => {
            if n > (u64::MAX - low) / 128 {
                proof {
                    assert(low + 128 * n > u64::MAX) by (nonlinear_arith)
                        requires
                            n > (u64::MAX - low) / 128,
                            low < 128,
                    ;
                }
                ReadVarint::Invalid
            } else {
                proof {
                    assert(low + 128 * n <= u64::MAX) by (nonlinear_arith)
                        requires
                            n <= (u64::MAX - low) / 128,
                            low < 128,
                    ;
                }
                ReadVarint::Value(low + 128 * n, k + 1)
            }
        },
        ReadVarint::Incomplete => ReadVarint::Incomplete,
        ReadVarint::Invalid => {
            proof {
                let sub = read_varint_spec(bytes@.skip(pos + 1), (limit - 1) as nat);
                if let VarintRead::Value(m, _) = sub {
                    assert(low + 128 * m > u64::MAX) by (nonlinear_arith)
                        requires
                            m > u64::MAX,
                    ;
                }
            }
            ReadVarint::Invalid
        },
    }
}

/// The handlers of a request stream, keyed by the stable hash of the type
/// of the requests each one serves. Handlers are named by a number that the
/// caller resolves to the code that runs.
pub struct HandlerTable {
    entries: Vec<([u8; 32], usize)>,
}

impl HandlerTable {
    pub closed spec fn entries_view(&self) -> Seq<(Seq<u8>, usize)> {
        Seq::new(self.entries@.len(), |i: int| (self.entries@[i].0@, self.entries@[i].1))
    }
}

impl View for HandlerTable {
    type V = Map<Seq<u8>, usize>;

    closed spec fn view(&self) -> Map<Seq<u8>, usize> {
        registered(self.entries_view())
    }
}

proof fn lemma_registered_suffix(e: Seq<(Seq<u8>, usize)>, i: int, h: Seq<u8>)
    requires
        0 <= i <= e.len(),
        forall|k: int| i <= k < e.len() ==> (#[trigger] e[k]).0 != h,
    ensures
        registered(e).contains_key(h) == registered(e.take(i)).contains_key(h),
        registered(e).contains_key(h) ==> registered(e)[h] == registered(e.take(i))[h],
    decreases e.len(),
{
    if i < e.len() {
        lemma_registered_suffix(e.drop_last(), i, h);
        assert(e.drop_last().take(i) =~= e.take(i));
    } else {
        assert(e.take(i) =~= e);
    }
}

impl HandlerTable {
    /// A table with no handlers.
    pub fn new() -> (r: HandlerTable)
        ensures
            r@ == Map::<Seq<u8>, usize>::empty(),
    {
        let t = HandlerTable { entries: Vec::new() };
        proof {
            assert(t.entries_view().len() == 0);
        }
        t
    }

    /// Registers `handler` for requests whose type has the stable hash
    /// `hash`. A later registration for the same hash replaces this one.
    pub fn add_handler(&mut self, hash: [u8; 32], handler: usize)
        ensures
            final(self)@ == old(self)@.insert(hash@, handler),
    {
        self.entries.push((hash, handler));
        proof {
            assert(final(self).entries_view().drop_last() =~= old(self).entries_view());
        }
    }

    /// The handler registered for the hash in the first 32 bytes of `hash`.
    pub fn lookup(&self, hash: &[u8]) -> (r: Option<usize>)
        requires
            hash@.len() >= HASH_LEN,
        ensures
            r == (if self@.contains_key(hash@.take(HASH_LEN as int)) {
                Some(self@[hash@.take(HASH_LEN as int)])
            } else {
                None
            }),
    {
        let ghost h = hash@.take(HASH_LEN as int);
        let ghost e = self.entries_view();
        let mut i: usize = self.entries.len();
        while i > 0
            invariant
                i <= self.entries@.len(),
                hash@.len() >= HASH_LEN,
                h == hash@.take(HASH_LEN as int),
                e == self.entries_view(),
                forall|k: int| i <= k < e.len() ==> (#[trigger] e[k]).0 != h,
            decreases i,
        {
            i = i - 1;
            if crate::codec::same_hash(&self.entries[i].0, hash) {
                proof {
                    lemma_registered_suffix(e, i + 1, h);
                    assert(e.take(i + 1).drop_last() =~= e.take(i as int));
                }
                return Some(self.entries[i].1);
            }
        }
        proof {
            lemma_registered_suffix(e, 0, h);
        }
        None
    }

    /// What to do next with the bytes `buf` read so far from a request
    /// stream: wait for more, give up on a malformed length prefix, hand a
    /// whole message to its handler, or skip a whole message that no handler
    /// is registered for.
    pub fn next_request(&self, buf: &[u8]) -> (r: Step)
        ensures
            r == step_spec(self@, buf@),
    {
        if buf.len() < HASH_LEN {
            return Step::NeedMore;
        }
        match read_varint(buf, HASH_LEN, MAX_VARINT_LEN) {
            ReadVarint::Incomplete => Step::NeedMore,
            ReadVarint::Invalid => Step::Malformed,
            ReadVarint::Value(n, k) => {
                let start: usize = HASH_LEN + k;
                if ((buf.len() - start) as u64) < n {
                    return Step::NeedMore;
                }
                let end: usize = start + n as usize;
                match self.lookup(buf) {
                    Some(handler) => Step::Dispatch { handler, start, end },
                    None => Step::Unknown { end },
                }
            },
        }
    }
}

/// A varint reads back as the value it encodes, whatever follows it, given
/// room for its bytes.
pub proof fn lemma_varint_read_back(n: nat, rest: Seq<u8>, limit: nat)
    requires
        0 < limit,
        n < pow128(limit),
    ensures
        read_varint_spec(varint(n) + rest, limit) == VarintRead::Value(n, varint(n).len()),
    decreases n,
{
    if n < 128 {
        assert((varint(n) + rest)[0] == n as u8);
    } else {
        let q = n / 128;
        let b = (n % 128 + 128) as u8;
        assert(varint(n) == seq![b] + varint(q));
        assert((varint(n) + rest)[0] == b);
        assert(b >= 128 && b - 128 == n % 128);
        assert(n == n % 128 + 128 * q);
        assert(q < pow128((limit - 1) as nat)) by (nonlinear_arith)
            requires
                n < 128 * pow128((limit - 1) as nat),
                q == n / 128,
        ;
        assert(q >= 1);
        if limit == 1 {
            assert(pow128(0) == 1);
        }
        lemma_varint_read_back(q, rest, (limit - 1) as nat);
        assert((varint(n) + rest).drop_first() =~= varint(q) + rest);
    }
}

/// Every 64-bit length fits in a varint of at most `MAX_VARINT_LEN` bytes.
pub proof fn lemma_u64_fits_varint(n: nat)
    requires
        n <= u64::MAX,
    ensures
        n < pow128(MAX_VARINT_LEN as nat),
{
    reveal_with_fuel(pow128, 11);
    assert(pow128(10) == 1180591620717411303424nat);
}

/// A message for a type that has no handler is skipped as a whole and calls
/// no handler; the message after it is then handed to its own handler, so one
/// unknown message leaves the stream open for those that follow.
pub proof fn lemma_unknown_then_known(
    handlers: Map<Seq<u8>, usize>,
    unknown: Seq<u8>,
    skipped: Seq<u8>,
    known: Seq<u8>,
    served: Seq<u8>,
)
    requires
        unknown.len() == HASH_LEN,
        known.len() == HASH_LEN,
        !handlers.contains_key(unknown),
        handlers.contains_key(known),
        skipped.len() <= u64::MAX,
        served.len() <= u64::MAX,
    ensures
        step_spec(handlers, message(unknown, skipped) + message(known, served)) == (Step::Unknown {
            end: message(unknown, skipped).len() as usize,
        }),
        (message(unknown, skipped) + message(known, served)).skip(message(unknown, skipped).len() as int) == message(known, served),
        step_spec(handlers, message(known, served)) == (Step::Dispatch {
            handler: handlers[known],
            start: (HASH_LEN + varint(served.len()).len()) as usize,
            end: message(known, served).len() as usize,
        }),
{
    let m1 = message(unknown, skipped);
    let m2 = message(known, served);
    let buf = m1 + m2;
    lemma_u64_fits_varint(skipped.len());
    lemma_u64_fits_varint(served.len());
    lemma_varint_read_back(skipped.len(), skipped + m2, MAX_VARINT_LEN as nat);
    lemma_varint_read_back(served.len(), served, MAX_VARINT_LEN as nat);
    assert(buf.skip(HASH_LEN as int) =~= varint(skipped.len()) + (skipped + m2));
    assert(buf.take(HASH_LEN as int) =~= unknown);
    assert(m2.skip(HASH_LEN as int) =~= varint(served.len()) + served);
    assert(m2.take(HASH_LEN as int) =~= known);
    assert(buf.skip(m1.len() as int) =~= m2);
}

} // verus!
