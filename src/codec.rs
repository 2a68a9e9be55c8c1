use vstd::prelude::*;
use crate::schema::{Named, Schema, Shape};
use crate::canonical::{SchemaAndHash, stable_hash_of};

verus! {

/// Length in bytes of a stable hash, the discriminator of every frame.
pub const HASH_LEN: usize = 32;

/// Why a frame could not be decoded.
#[derive(Debug, Clone, Copy, PartialEq, Eq, Structural)]
pub enum DecodeError {
    /// The frame ended before a whole hash was read.
    MissingHash,
    /// The hash matches no case of the decoding union.
    UnknownDiscriminator,
}

/// Two cases of one union have the same stable hash, so a frame could not
/// tell them apart.
#[derive(Debug, Clone, Copy, PartialEq, Eq, Structural)]
pub struct DuplicateHash {
    /// Position of the earlier case.
    pub first: usize,
    /// Position of the later case, with the same hash as `first`.
    pub second: usize,
}

/// The index of the case whose hash is `h`, if some case has it.
pub open spec fn case_of(hashes: Seq<Seq<u8>>, h: Seq<u8>) -> Option<int> {
    if exists|i: int| 0 <= i < hashes.len() && hashes[i] == h {
        Some(choose|i: int| 0 <= i < hashes.len() && hashes[i] == h)
    } else {
        None
    }
}

/// What decoding `bytes` against a union with case hashes `hashes` gives:
/// the case whose hash is the first 32 bytes, and the payload after them.
pub open spec fn decode_spec(hashes: Seq<Seq<u8>>, bytes: Seq<u8>) -> Result<(int, Seq<u8>), DecodeError> {
    if bytes.len() < HASH_LEN {
        Err(DecodeError::MissingHash)
    } else {
        match case_of(hashes, bytes.take(HASH_LEN as int)) {
            Some(i) => Ok((i, bytes.skip(HASH_LEN as int))),
            None => Err(DecodeError::UnknownDiscriminator),
        }
    }
}

/// No two entries are equal.
pub open spec fn distinct(hashes: Seq<Seq<u8>>) -> bool {
    forall|i: int, j: int| 0 <= i < hashes.len() && 0 <= j < hashes.len() && i != j ==> hashes[i] != hashes[j]
}

/// The byte sequences of some hashes.
pub open spec fn views(hashes: Seq<[u8; 32]>) -> Seq<Seq<u8>> {
    Seq::new(hashes.len(), |i: int| hashes[i]@)
}

/// `second` is the earliest position whose hash repeats an earlier one, and
/// `first` the earliest position with that hash.
pub open spec fn first_repeat(hashes: Seq<Seq<u8>>, first: int, second: int) -> bool {
    &&& 0 <= first < second < hashes.len()
    &&& hashes[first] == hashes[second]
    &&& distinct(hashes.take(second))
    &&& forall|k: int| 0 <= k < first ==> hashes[k] != hashes[second]
}

/// Finds the first repeated hash: `None` when all are distinct, else the
/// pair that `first_repeat` describes.
pub fn first_duplicate(hashes: &Vec<[u8; 32]>) -> (r: Option<(usize, usize)>)
    ensures
        r is None <==> distinct(views(hashes@)),
        r matches Some((a, b)) ==> first_repeat(views(hashes@), a as int, b as int),
{
    let ghost hs = views(hashes@);
    let mut i: usize = 0;
    while i < hashes.len()
        invariant
            hs == views(hashes@),
            i <= hashes@.len(),
            distinct(hs.take(i as int)),
        decreases hashes@.len() - i,
    {
        let mut j: usize = 0;
        while j < i
            invariant
                hs == views(hashes@),
                j <= i < hashes@.len(),
                distinct(hs.take(i as int)),
                forall|k: int| 0 <= k < j ==> hs[k] != hs[i as int],
            decreases i - j,
        {
            let h: &[u8] = hashes[i].as_slice();
            proof {
                assert(h@.take(HASH_LEN as int) =~= hs[i as int]);
            }
            if same_hash(&hashes[j], h) {
                proof {
                    assert(hs[j as int] == hs[i as int]);
                    assert(!distinct(hs));
                }
                return Some((j, i));
            }
            j = j + 1;
        }
        proof {
            assert forall|a: int, b: int|
                0 <= a < i + 1 && 0 <= b < i + 1 && a != b implies #[trigger] hs.take(i + 1)[a] != #[trigger] hs.take(i + 1)[b] by {
                if a < i && b < i {
                    assert(hs.take(i as int)[a] != hs.take(i as int)[b]);
                } else if a == i {
                    assert(hs[b] != hs[a]);
                } else {
                    assert(hs[a] != hs[b]);
                }
            }
        }
        i = i + 1;
    }
    proof {
        assert(hs.take(i as int) =~= hs);
    }
    None
}

/// The cases of a hash-discriminated union, in declaration order: each with
/// its name, its payload schema and that schema's stable hash.
pub struct CaseTable {
    cases: Vec<(String, SchemaAndHash)>,
}

impl CaseTable {
    pub closed spec fn len(&self) -> nat {
        self.cases@.len()
    }

    pub closed spec fn name(&self, i: int) -> Seq<char> {
        self.cases@[i].0@
    }

    pub closed spec fn shape(&self, i: int) -> Shape {
        self.cases@[i].1.schema@
    }

    pub closed spec fn hashes(&self) -> Seq<Seq<u8>> {
        Seq::new(self.cases@.len(), |i: int| self.cases@[i].1.hash@)
    }

    /// Every case carries the stable hash of its schema, and no two cases
    /// share a hash.
    pub closed spec fn wf(&self) -> bool {
        &&& forall|i: int| 0 <= i < self.cases@.len() ==> #[trigger] self.cases@[i].1.hash@ == stable_hash_of(
            self.cases@[i].1.schema@,
        )
        &&& distinct(self.hashes())
    }

    pub proof fn lemma_hashes(&self)
        requires
            self.wf(),
        ensures
            self.hashes().len() == self.len(),
            forall|i: int| 0 <= i < self.len() ==> #[trigger] self.hashes()[i] == stable_hash_of(self.shape(i)),
            forall|i: int| 0 <= i < self.len() ==> #[trigger] self.hashes()[i].len() == HASH_LEN,
            distinct(self.hashes()),
    {
        assert forall|i: int| 0 <= i < self.len() implies #[trigger] self.hashes()[i].len() == HASH_LEN by {
            assert(self.cases@[i].1.hash@.len() == 32);
        }
    }

    /// Builds the table of a union from its cases, each a name and the
    /// schema of its payload. Fails when two cases have the same stable
    /// hash, naming the first such pair: the earliest case that repeats the
    /// hash of an earlier one, and the first case with that hash.
    pub fn new(cases: Vec<Named>) -> (r: Result<CaseTable, DuplicateHash>)
        ensures
            ({
                let hs = Seq::new(cases@.len(), |i: int| stable_hash_of(cases@[i].1@));
                &&& r is Ok <==> distinct(hs)
                &&& r matches Ok(t) ==> {
                    &&& t.wf()
                    &&& t.len() == cases@.len()
                    &&& forall|i: int| 0 <= i < cases@.len() ==> t.name(i) == cases@[i].0@ && t.shape(i) == cases@[i].1@
                }
                &&& r matches Err(d) ==> first_repeat(hs, d.first as int, d.second as int)
            }),
    {
        let ghost input = cases@;
        let ghost hs = Seq::new(cases@.len(), |i: int| stable_hash_of(cases@[i].1@));
        let n = cases.len();
        let mut rest = cases;
        let mut built: Vec<(String, SchemaAndHash)> = Vec::new();
        let mut hashes: Vec<[u8; 32]> = Vec::new();
        let mut i: usize = 0;
        while i < n
            invariant
                n == input.len(),
                hs == Seq::new(input.len(), |i: int| stable_hash_of(input[i].1@)),
                i <= n,
                rest@ == input.skip(i as int),
                built@.len() == i,
                hashes@.len() == i,
                forall|k: int| 0 <= k < i ==> {
                    &&& (#[trigger] built@[k]).0@ == input[k].0@
                    &&& built@[k].1.schema@ == input[k].1@
                    &&& built@[k].1.hash@ == hs[k]
                },
                forall|k: int| 0 <= k < i ==> (#[trigger] hashes@[k])@ == hs[k],
            decreases n - i,
        {
            let Named(name, schema) = rest.remove(0);
            let entry = SchemaAndHash::from(schema);
            hashes.push(entry.hash);
            built.push((name, entry));
            i = i + 1;
        }
        proof {
            assert(views(hashes@) =~= hs);
        }
        match first_duplicate(&hashes) {
            Some((first, second)) => Err(DuplicateHash { first, second }),
            None => {
                let t = CaseTable { cases: built };
                proof {
                    assert(t.hashes() =~= hs);
                }
                Ok(t)
            },
        }
    }

    /// The number of cases.
    pub fn num_cases(&self) -> (r: usize)
        ensures
            r == self.len(),
    {
        self.cases.len()
    }

    /// The name of case `i`.
    pub fn case_name(&self, i: usize) -> (r: &String)
        requires
            i < self.len(),
        ensures
            r@ == self.name(i as int),
    {
        &self.cases[i].0
    }

    /// The payload schema of case `i`.
    pub fn case_schema(&self, i: usize) -> (r: &Schema)
        requires
            i < self.len(),
        ensures
            r@ == self.shape(i as int),
    {
        &self.cases[i].1.schema
    }

    /// The stable hash of case `i`, its discriminator on the wire.
    pub fn case_hash(&self, i: usize) -> (r: [u8; 32])
        requires
            i < self.len(),
        ensures
            r@ == self.hashes()[i as int],
    {
        self.cases[i].1.hash
    }

    /// The frame of a value of case `i`: the case's hash, then the payload
    /// as the payload's own serializer wrote it.
    pub fn encode(&self, i: usize, payload: &[u8]) -> (r: Vec<u8>)
        requires
            i < self.len(),
        ensures
            r@ == self.hashes()[i as int] + payload@,
    {
        let hash: &[u8; 32] = &self.cases[i].1.hash;
        let mut out: Vec<u8> = Vec::new();
        let mut k: usize = 0;
        while k < HASH_LEN
            invariant
                k <= HASH_LEN,
                hash@.len() == HASH_LEN,
                hash@ == self.hashes()[i as int],
                out@ == hash@.take(k as int),
            decreases HASH_LEN - k,
        {
            out.push(hash[k]);
            k = k + 1;
            proof {
                assert(out@ =~= hash@.take(k as int));
            }
        }
        let mut k: usize = 0;
        while k < payload.len()
            invariant
                k <= payload@.len(),
                out@ == hash@ + payload@.take(k as int),
                hash@ == self.hashes()[i as int],
            decreases payload@.len() - k,
        {
            out.push(payload[k]);
            k = k + 1;
            proof {
                assert(out@ =~= hash@ + payload@.take(k as int));
            }
        }
        proof {
            assert(payload@.take(k as int) =~= payload@);
            assert(hash@.take(HASH_LEN as int) =~= hash@);
        }
        out
    }

    /// Decodes a frame: reads the hash, selects the case that has it, and
    /// hands back the case's position and the payload bytes after the hash.
    pub fn decode(&self, bytes: &[u8]) -> (r: Result<(usize, Vec<u8>), DecodeError>)
        requires
            self.wf(),
        ensures
            match (r, decode_spec(self.hashes(), bytes@)) {
                (Ok((i, p)), Ok((j, q))) => i == j && p@ == q,
                (Err(e), Err(f)) => e == f,
                _ => false,
            },
    {
        proof {
            self.lemma_hashes();
        }
        if bytes.len() < HASH_LEN {
            return Err(DecodeError::MissingHash);
        }
        let ghost header = bytes@.take(HASH_LEN as int);
        let mut i: usize = 0;
        while i < self.cases.len()
            invariant
                self.wf(),
                bytes@.len() >= HASH_LEN,
                header == bytes@.take(HASH_LEN as int),
                self.hashes().len() == self.len(),
                i <= self.len(),
                forall|k: int| 0 <= k < i ==> self.hashes()[k] != header,
            decreases self.len() - i,
        {
            if same_hash(&self.cases[i].1.hash, bytes) {
                proof {
                    assert(self.hashes()[i as int] == header);
                    let c = choose|k: int| 0 <= k < self.hashes().len() && self.hashes()[k] == header;
                    assert(c == i);
                }
                let mut payload: Vec<u8> = Vec::new();
                let mut k: usize = HASH_LEN;
                while k < bytes.len()
                    invariant
                        HASH_LEN <= k <= bytes@.len(),
                        payload@ == bytes@.subrange(HASH_LEN as int, k as int),
                    decreases bytes@.len() - k,
                {
                    payload.push(bytes[k]);
                    k = k + 1;
                    proof {
                        assert(payload@ =~= bytes@.subrange(HASH_LEN as int, k as int));
                    }
                }
                proof {
                    assert(payload@ =~= bytes@.skip(HASH_LEN as int));
                }
                return Ok((i, payload));
            }
            i = i + 1;
        }
        Err(DecodeError::UnknownDiscriminator)
    }
}

/// A frame written by one version of a union decodes, under another version
/// that still has a case with the same payload shape, to that case and to the
/// very payload bytes that were written, wherever the case stands in either
/// union and whatever other cases either has.
pub proof fn lemma_round_trip(sender: &CaseTable, receiver: &CaseTable, i: int, j: int, payload: Seq<u8>)
    requires
        sender.wf(),
        receiver.wf(),
        0 <= i < sender.len(),
        0 <= j < receiver.len(),
        sender.shape(i) == receiver.shape(j),
    ensures
        decode_spec(receiver.hashes(), sender.hashes()[i] + payload) == Ok::<(int, Seq<u8>), DecodeError>((j, payload)),
{
    sender.lemma_hashes();
    receiver.lemma_hashes();
    let frame = sender.hashes()[i] + payload;
    assert(frame.take(HASH_LEN as int) =~= receiver.hashes()[j]);
    assert(frame.skip(HASH_LEN as int) =~= payload);
    let c = choose|k: int| 0 <= k < receiver.hashes().len() && receiver.hashes()[k] == receiver.hashes()[j];
    assert(c == j);
}

/// A frame whose hash no case of the decoding union has is rejected as an
/// unknown discriminator; it is never taken for another case.
pub proof fn lemma_unknown_discriminator(sender: &CaseTable, receiver: &CaseTable, i: int, payload: Seq<u8>)
    requires
        sender.wf(),
        receiver.wf(),
        0 <= i < sender.len(),
        forall|j: int| 0 <= j < receiver.len() ==> receiver.hashes()[j] != sender.hashes()[i],
    ensures
        decode_spec(receiver.hashes(), sender.hashes()[i] + payload) == Err::<(int, Seq<u8>), DecodeError>(
            DecodeError::UnknownDiscriminator,
        ),
{
    sender.lemma_hashes();
    receiver.lemma_hashes();
    let frame = sender.hashes()[i] + payload;
    assert(frame.take(HASH_LEN as int) =~= sender.hashes()[i]);
}

/// Whether `h` equals the first 32 bytes of `bytes`.
pub(crate) fn same_hash(h: &[u8; 32], bytes: &[u8]) -> (r: bool)
    requires
        bytes@.len() >= HASH_LEN,
    ensures
        r == (h@ == bytes@.take(HASH_LEN as int)),
{
    let mut k: usize = 0;
    while k < HASH_LEN
        invariant
            k <= HASH_LEN,
            h@.len() == HASH_LEN,
            bytes@.len() >= HASH_LEN,
            h@.take(k as int) == bytes@.take(k as int),
        decreases HASH_LEN - k,
    {
        if h[k] != bytes[k] {
            proof {
                assert(h@[k as int] != bytes@.take(HASH_LEN as int)[k as int]);
            }
            return false;
        }
        k = k + 1;
        proof {
            assert(h@.take(k as int) =~= bytes@.take(k as int));
        }
    }
    proof {
        assert(h@.take(HASH_LEN as int) =~= h@);
    }
    true
}

} // verus!
