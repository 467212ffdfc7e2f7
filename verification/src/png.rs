//! The container: a fixed 8-byte signature followed by an ordered sequence
//! of chunk records, of which the last, and only the last, carries the
//! terminator type code.

use vstd::prelude::*;

use crate::chunk::{chunk_prefix_ok, lemma_chunk_encoding_decodes, spec_decode_err,
    spec_total_len, Chunk};
use crate::chunk_type::ChunkType;
use crate::error::Error;

verus! {

/// The fixed 8-byte signature that every container starts with.
pub open spec fn spec_signature() -> Seq<u8> {
    seq![137u8, 80u8, 78u8, 71u8, 13u8, 10u8, 26u8, 10u8]
}

/// The terminator type code, the four bytes of `IEND`.
pub open spec fn spec_terminator_bytes() -> Seq<u8> {
    seq![73u8, 69u8, 78u8, 68u8]
}

/// True when `t` is the terminator type code.
pub open spec fn spec_is_terminator(t: ChunkType) -> bool {
    t.spec_bytes() == spec_terminator_bytes()
}

fn is_terminator(t: &ChunkType) -> (r: bool)
    ensures
        r == spec_is_terminator(*t),
{
    let r = t.ancillary == 73 && t.private == 69 && t.reserved == 78 && t.safe_to_copy == 68;
    proof {
        if r {
            assert(t.spec_bytes() =~= spec_terminator_bytes());
        }
        if t.spec_bytes() == spec_terminator_bytes() {
            assert(t.ancillary == spec_terminator_bytes()[0]);
            assert(t.private == spec_terminator_bytes()[1]);
            assert(t.reserved == spec_terminator_bytes()[2]);
            assert(t.safe_to_copy == spec_terminator_bytes()[3]);
        }
    }
    r
}

/// The concatenation of the encoded forms of the records in `cs`, in order.
pub open spec fn chunks_bytes(cs: Seq<Chunk>) -> Seq<u8>
    decreases cs.len(),
{
    if cs.len() == 0 {
        Seq::empty()
    } else {
        cs[0].spec_as_bytes() + chunks_bytes(cs.skip(1))
    }
}

/// True when `s` splits completely into well-formed chunk records.
pub open spec fn chunks_parse_ok(s: Seq<u8>) -> bool
    decreases s.len(),
{
    if s.len() == 0 {
        true
    } else if !chunk_prefix_ok(s) {
        false
    } else {
        chunks_parse_ok(s.skip(spec_total_len(s)))
    }
}

/// The decode failure of the first record in `s` that does not decode;
/// meaningful only when `chunks_parse_ok(s)` does not hold.
pub open spec fn chunks_err_code(s: Seq<u8>) -> Error
    decreases s.len(),
{
    if s.len() == 0 || !chunk_prefix_ok(s) {
        spec_decode_err(s)
    } else {
        chunks_err_code(s.skip(spec_total_len(s)))
    }
}

/// True when the records in `s` all decode, the last one carries the
/// terminator type code, and no earlier one does.
pub open spec fn terminator_ok(s: Seq<u8>) -> bool
    decreases s.len(),
{
    if !chunk_prefix_ok(s) {
        false
    } else if s.len() == spec_total_len(s) {
        s.subrange(4, 8) == spec_terminator_bytes()
    } else {
        s.subrange(4, 8) != spec_terminator_bytes() && terminator_ok(s.skip(spec_total_len(s)))
    }
}

/// True when the sequence of records ends with the terminator and holds no
/// other terminator: the shape every parsed container has.
pub open spec fn spec_terminated(cs: Seq<Chunk>) -> bool {
    &&& cs.len() >= 1
    &&& spec_is_terminator(cs[cs.len() - 1].chunk_type)
    &&& forall|i: int| 0 <= i < cs.len() - 1 ==> !spec_is_terminator(
        (#[trigger] cs[i]).chunk_type,
    )
}

/// The terminator condition mid-parse: the records read so far hold no
/// terminator yet and the remaining bytes end in one, or nothing remains
/// and the records read are terminated.
pub open spec fn spec_terminated_partial(cs: Seq<Chunk>, rest: Seq<u8>) -> bool {
    if rest.len() == 0 {
        spec_terminated(cs)
    } else {
        (forall|i: int| 0 <= i < cs.len() ==> !spec_is_terminator((#[trigger] cs[i]).chunk_type))
            && terminator_ok(rest)
    }
}

/// Appending one record to a sequence appends its encoding to the bytes.
pub proof fn lemma_chunks_bytes_push(cs: Seq<Chunk>, c: Chunk)
    ensures
        chunks_bytes(cs.push(c)) == chunks_bytes(cs) + c.spec_as_bytes(),
    decreases cs.len(),
{
    if cs.len() == 0 {
        assert(cs.push(c).skip(1) =~= Seq::<Chunk>::empty());
        assert(cs.push(c)[0] == c);
        assert(chunks_bytes(Seq::<Chunk>::empty()) == Seq::<u8>::empty());
        assert(chunks_bytes(cs.push(c)) == c.spec_as_bytes() + Seq::<u8>::empty());
        assert(c.spec_as_bytes() + Seq::<u8>::empty() =~= Seq::<u8>::empty()
            + c.spec_as_bytes());
    } else {
        assert(cs.push(c).skip(1) =~= cs.skip(1).push(c));
        lemma_chunks_bytes_push(cs.skip(1), c);
        assert(cs.push(c)[0] == cs[0]);
        assert(chunks_bytes(cs.push(c)) == cs[0].spec_as_bytes() + chunks_bytes(
            cs.skip(1).push(c),
        ));
        assert(chunks_bytes(cs) == cs[0].spec_as_bytes() + chunks_bytes(cs.skip(1)));
        assert(cs[0].spec_as_bytes() + (chunks_bytes(cs.skip(1)) + c.spec_as_bytes()) =~= (
        cs[0].spec_as_bytes() + chunks_bytes(cs.skip(1))) + c.spec_as_bytes());
    }
}

/// The index of the first record in `cs` whose type code is `t`, or a
/// negative value when no record has it.
pub open spec fn spec_first_match(cs: Seq<Chunk>, t: ChunkType) -> int
    decreases cs.len(),
{
    if cs.len() == 0 {
        -1
    } else if cs[0].chunk_type == t {
        0
    } else {
        let r = spec_first_match(cs.skip(1), t);
        if r < 0 {
            -1
        } else {
            r + 1
        }
    }
}

/// What a first match means: a non-negative result is a valid index of a
/// record with the type, with none before it; a negative result means no
/// record has the type.
pub proof fn lemma_first_match(cs: Seq<Chunk>, t: ChunkType)
    ensures
        spec_first_match(cs, t) >= 0 ==> {
            let i = spec_first_match(cs, t);
            &&& 0 <= i < cs.len()
            &&& cs[i].chunk_type == t
            &&& forall|j: int| 0 <= j < i ==> (#[trigger] cs[j]).chunk_type != t
        },
        spec_first_match(cs, t) < 0 ==> forall|j: int|
            0 <= j < cs.len() ==> (#[trigger] cs[j]).chunk_type != t,
    decreases cs.len(),
{
    if cs.len() == 0 {
    } else if cs[0].chunk_type == t {
    } else {
        lemma_first_match(cs.skip(1), t);
        let r = spec_first_match(cs.skip(1), t);
        if r >= 0 {
            assert(cs.skip(1)[r] == cs[r + 1]);
            assert forall|j: int| 0 <= j < r + 1 implies (#[trigger] cs[j]).chunk_type != t by {
                if j > 0 {
                    assert(cs.skip(1)[j - 1] == cs[j]);
                }
            }
        } else {
            assert forall|j: int| 0 <= j < cs.len() implies (#[trigger] cs[j]).chunk_type
                != t by {
                if j > 0 {
                    assert(cs.skip(1)[j - 1] == cs[j]);
                }
            }
        }
    }
}

/// One parsing step keeps the terminator condition: reading the record at
/// the front of `rest` moves it from the unread bytes to the record list.
proof fn lemma_terminated_partial_step(cs: Seq<Chunk>, c: Chunk, rest: Seq<u8>)
    requires
        chunk_prefix_ok(rest),
        c.chunk_type.spec_bytes() == rest.subrange(4, 8),
    ensures
        spec_terminated_partial(cs, rest) == spec_terminated_partial(
            cs.push(c),
            rest.skip(spec_total_len(rest)),
        ),
{
    let t = spec_total_len(rest);
    let rest2 = rest.skip(t);
    let cs2 = cs.push(c);
    assert(cs2.len() == cs.len() + 1);
    assert(forall|i: int| 0 <= i < cs.len() ==> #[trigger] cs2[i] == cs[i]);
    assert(cs2[cs.len() as int] == c);
    assert(rest.len() > 0);
    assert(spec_is_terminator(c.chunk_type) == (rest.subrange(4, 8) == spec_terminator_bytes()));
    if rest.len() == t {
        assert(rest2.len() == 0);
        assert(terminator_ok(rest) == (rest.subrange(4, 8) == spec_terminator_bytes()));
        if spec_terminated_partial(cs, rest) {
            assert(spec_is_terminator(c.chunk_type));
            assert forall|i: int| 0 <= i < cs2.len() - 1 implies !spec_is_terminator(
                (#[trigger] cs2[i]).chunk_type,
            ) by {
                assert(cs2[i] == cs[i]);
            }
            assert(spec_terminated(cs2));
        }
        if spec_terminated_partial(cs2, rest2) {
            assert(spec_terminated(cs2));
            assert forall|i: int| 0 <= i < cs.len() implies !spec_is_terminator(
                (#[trigger] cs[i]).chunk_type,
            ) by {
                assert(cs2[i] == cs[i]);
            }
            assert(spec_is_terminator(c.chunk_type));
            assert(terminator_ok(rest));
        }
    } else {
        assert(rest2.len() > 0);
        assert(terminator_ok(rest) == (rest.subrange(4, 8) != spec_terminator_bytes()
            && terminator_ok(rest2)));
        if spec_terminated_partial(cs, rest) {
            assert(!spec_is_terminator(c.chunk_type));
            assert forall|i: int| 0 <= i < cs2.len() implies !spec_is_terminator(
                (#[trigger] cs2[i]).chunk_type,
            ) by {
                if i < cs.len() {
                    assert(cs2[i] == cs[i]);
                } else {
                    assert(cs2[i] == c);
                }
            }
            assert(terminator_ok(rest2));
        }
        if spec_terminated_partial(cs2, rest2) {
            assert forall|i: int| 0 <= i < cs.len() implies !spec_is_terminator(
                (#[trigger] cs[i]).chunk_type,
            ) by {
                assert(cs2[i] == cs[i]);
            }
            assert(!spec_is_terminator(c.chunk_type)) by {
                assert(cs2[cs.len() as int] == c);
            }
            assert(terminator_ok(rest));
        }
    }
}

/// The first match sits exactly where a scan from the front finds it.
pub proof fn lemma_first_match_at(cs: Seq<Chunk>, t: ChunkType, i: int)
    requires
        0 <= i < cs.len(),
        cs[i].chunk_type == t,
        forall|j: int| 0 <= j < i ==> (#[trigger] cs[j]).chunk_type != t,
    ensures
        spec_first_match(cs, t) == i,
    decreases cs.len(),
{
    if i == 0 {
    } else {
        assert(cs.skip(1)[i - 1] == cs[i]);
        assert(forall|j: int| 0 <= j < i - 1 ==> cs.skip(1)[j] == cs[j + 1]);
        lemma_first_match_at(cs.skip(1), t, i - 1);
    }
}

/// No record has the type exactly when the scan reports no match.
pub proof fn lemma_first_match_none(cs: Seq<Chunk>, t: ChunkType)
    requires
        forall|j: int| 0 <= j < cs.len() ==> (#[trigger] cs[j]).chunk_type != t,
    ensures
        spec_first_match(cs, t) < 0,
    decreases cs.len(),
{
    if cs.len() == 0 {
    } else {
        assert(forall|j: int| 0 <= j < cs.skip(1).len() ==> cs.skip(1)[j] == cs[j + 1]);
        lemma_first_match_none(cs.skip(1), t);
    }
}

/// A container: the parsed form of a byte stream, an ordered sequence of
/// records. The signature is fixed and implicit; the terminator invariant
/// is established by parsing and preserved by the mutations below.
#[derive(Debug)]
pub struct Png {
    /// The records, in stream order; when well-formed, the last and only
    /// the last is the terminator.
    pub chunks: Vec<Chunk>,
}

impl Png {
    /// A well-formed container: every record well-formed, terminated by a
    /// single terminator record in last position.
    pub open spec fn wf(&self) -> bool {
        &&& forall|i: int| 0 <= i < self.chunks@.len() ==> (#[trigger] self.chunks@[i]).wf()
        &&& spec_terminated(self.chunks@)
    }

    /// The serialized form: signature, then every record's encoding in order.
    pub open spec fn spec_as_bytes(&self) -> Seq<u8> {
        spec_signature() + chunks_bytes(self.chunks@)
    }

    /// Parses a whole byte stream into a container, validating everything
    /// eagerly: size floor, signature, every record, and the terminator.
    /// A failure yields no container at all.
    #[verifier::loop_isolation(false)]
    pub fn try_from(input: &[u8]) -> (r: Result<Png, Error>)
        ensures
            match r {
                Ok(p) => {
                    &&& input@.len() >= 20
                    &&& input@.subrange(0, 8) == spec_signature()
                    &&& chunks_parse_ok(input@.skip(8))
                    &&& terminator_ok(input@.skip(8))
                    &&& p.wf()
                    &&& p.spec_as_bytes() == input@
                },
                Err(e) => {
                    if input@.len() < 20 {
                        e == Error::TooSmall
                    } else if input@.subrange(0, 8) != spec_signature() {
                        e == Error::SignatureMismatch
                    } else if !chunks_parse_ok(input@.skip(8)) {
                        e == chunks_err_code(input@.skip(8))
                    } else {
                        &&& !terminator_ok(input@.skip(8))
                        &&& e == Error::TerminatorMissing
                    }
                },
            },
    {
        let n = input.len();
        if n < 20 {
            return Err(Error::TooSmall);
        }
        let sig_ok = input[0] == 137 && input[1] == 80 && input[2] == 78 && input[3] == 71
            && input[4] == 13 && input[5] == 10 && input[6] == 26 && input[7] == 10;
        proof {
            let sub = input@.subrange(0, 8);
            assert(sub[0] == input@[0] && sub[1] == input@[1] && sub[2] == input@[2] && sub[3]
                == input@[3] && sub[4] == input@[4] && sub[5] == input@[5] && sub[6] == input@[6]
                && sub[7] == input@[7]);
            if sig_ok {
                assert(sub =~= spec_signature());
            }
        }
        if !sig_ok {
            return Err(Error::SignatureMismatch);
        }
        let ghost whole = input@.skip(8);
        let mut chunks: Vec<Chunk> = Vec::new();
        let mut off: usize = 8;
        proof {
            assert(chunks_bytes(chunks@) =~= input@.subrange(8, 8));
        }
        while off < n
            invariant
                8 <= off <= n,
                n == input@.len(),
                n >= 20,
                whole == input@.skip(8),
                chunks_bytes(chunks@) == input@.subrange(8, off as int),
                forall|i: int| 0 <= i < chunks@.len() ==> (#[trigger] chunks@[i]).wf(),
                chunks_parse_ok(whole) == chunks_parse_ok(input@.skip(off as int)),
                !chunks_parse_ok(whole) ==> chunks_err_code(whole) == chunks_err_code(
                    input@.skip(off as int),
                ),
                terminator_ok(whole) == spec_terminated_partial(chunks@, input@.skip(off as int)),
            decreases n - off,
        {
            let ghost rest = input@.skip(off as int);
            proof {
                assert(rest.len() == n - off);
            }
            match Chunk::decode_at(input, off) {
                Ok((c, next)) => {
                    proof {
                        let t = spec_total_len(rest);
                        assert(rest.skip(t) =~= input@.skip(next as int));
                        // the new prefix of parsed bytes
                        lemma_chunks_bytes_push(chunks@, c);
                        assert(c.spec_as_bytes() =~= input@.subrange(off as int, next as int));
                        assert(input@.subrange(8, off as int) + input@.subrange(
                            off as int,
                            next as int,
                        ) =~= input@.subrange(8, next as int));
                        // one unread record moves to the record list
                        lemma_terminated_partial_step(chunks@, c, rest);
                        assert(chunks_parse_ok(rest) == chunks_parse_ok(rest.skip(t)));
                        assert(!chunks_parse_ok(rest) ==> chunks_err_code(rest)
                            == chunks_err_code(rest.skip(t)));
                    }
                    chunks.push(c);
                    off = next;
                },
                Err(e) => {
                    proof {
                        assert(rest.len() != 0);
                        assert(!chunks_parse_ok(rest));
                        assert(chunks_err_code(rest) == spec_decode_err(rest));
                    }
                    return Err(e);
                },
            }
        }
        proof {
            assert(input@.skip(off as int).len() == 0);
            assert(chunks_parse_ok(input@.skip(off as int)));
            assert(chunks_parse_ok(whole));
            assert(terminator_ok(whole) == spec_terminated(chunks@));
            // at least one record was read: the stream past the signature is
            // not empty, and an empty record list would serialize to nothing
            assert(chunks_bytes(chunks@) == input@.subrange(8, n as int));
            assert(input@.subrange(8, n as int).len() == n - 8 >= 12);
            if chunks@.len() == 0 {
                assert(chunks_bytes(chunks@).len() == 0);
            }
            assert(chunks@.len() >= 1);
        }
        let k = chunks.len();
        let last_is_term = is_terminator(&chunks[k - 1].chunk_type);
        if !last_is_term {
            proof {
                assert(!spec_terminated(chunks@));
            }
            return Err(Error::TerminatorMissing);
        }
        let mut i: usize = 0;
        while i < k - 1
            invariant
                0 <= i <= k - 1,
                k == chunks@.len(),
                k >= 1,
                forall|j: int| 0 <= j < i ==> !spec_is_terminator(
                    (#[trigger] chunks@[j]).chunk_type,
                ),
            decreases k - 1 - i,
        {
            if is_terminator(&chunks[i].chunk_type) {
                proof {
                    assert(!spec_terminated(chunks@));
                }
                return Err(Error::TerminatorMissing);
            }
            i += 1;
        }
        proof {
            assert(spec_terminated(chunks@));
        }
        let p = Png { chunks };
        proof {
            assert(p.spec_as_bytes() =~= input@.subrange(0, 8) + input@.subrange(8, n as int));
            assert(input@.subrange(0, 8) + input@.subrange(8, n as int) =~= input@);
        }
        Ok(p)
    }

    /// Read-only view of the record sequence, in stream order.
    pub fn chunks(&self) -> (r: &Vec<Chunk>)
        ensures
            r == &self.chunks,
    {
        &self.chunks
    }

    /// Returns the first record whose type code is `target`, if any;
    /// duplicates of ancillary types are permitted by the format, so first
    /// match is the defined tie-break.
    pub fn chunk_by_type(&self, target: &ChunkType) -> (r: Option<&Chunk>)
        ensures
            match r {
                Some(c) => {
                    &&& spec_first_match(self.chunks@, *target) >= 0
                    &&& c == &self.chunks@[spec_first_match(self.chunks@, *target)]
                },
                None => spec_first_match(self.chunks@, *target) < 0,
            },
    {
        let k = self.chunks.len();
        let mut i: usize = 0;
        while i < k
            invariant
                0 <= i <= k,
                k == self.chunks@.len(),
                forall|j: int| 0 <= j < i ==> (#[trigger] self.chunks@[j]).chunk_type != *target,
            decreases k - i,
        {
            if self.chunks[i].chunk_type == *target {
                proof {
                    lemma_first_match_at(self.chunks@, *target, i as int);
                }
                return Some(&self.chunks[i]);
            }
            i += 1;
        }
        proof {
            lemma_first_match_none(self.chunks@, *target);
        }
        None
    }

    /// Inserts `chunk` immediately before the terminator, unless a record
    /// of the same type is already present; a failure leaves the container
    /// untouched.
    pub fn append_chunk(&mut self, chunk: Chunk) -> (r: Result<(), Error>)
        requires
            old(self).chunks@.len() >= 1,
        ensures
            match r {
                Ok(_) => {
                    &&& spec_first_match(old(self).chunks@, chunk.chunk_type) < 0
                    &&& final(self).chunks@ == old(self).chunks@.insert(
                        old(self).chunks@.len() - 1,
                        chunk,
                    )
                },
                Err(e) => {
                    &&& e == Error::DuplicateChunkType
                    &&& spec_first_match(old(self).chunks@, chunk.chunk_type) >= 0
                    &&& final(self).chunks@ == old(self).chunks@
                },
            },
            old(self).wf() && chunk.wf() && r is Ok ==> final(self).wf(),
    {
        let k = self.chunks.len();
        let mut i: usize = 0;
        while i < k
            invariant
                0 <= i <= k,
                k == self.chunks@.len(),
                self.chunks@ == old(self).chunks@,
                forall|j: int| 0 <= j < i ==> (#[trigger] self.chunks@[j]).chunk_type
                    != chunk.chunk_type,
            decreases k - i,
        {
            if self.chunks[i].chunk_type == chunk.chunk_type {
                proof {
                    lemma_first_match_at(self.chunks@, chunk.chunk_type, i as int);
                }
                return Err(Error::DuplicateChunkType);
            }
            i += 1;
        }
        proof {
            lemma_first_match_none(self.chunks@, chunk.chunk_type);
        }
        let ghost old_cs = self.chunks@;
        let ghost was_wf = old(self).wf();
        self.chunks.insert(k - 1, chunk);
        proof {
            if was_wf && chunk.wf() {
                let cs2 = old_cs.insert(k - 1, chunk);
                assert(cs2.len() == k + 1);
                assert(forall|j: int| 0 <= j < k - 1 ==> cs2[j] == old_cs[j]);
                assert(cs2[k - 1] == chunk);
                assert(cs2[k as int] == old_cs[k - 1]);
                // the appended record is no terminator: the terminator is the
                // last old record, and a record of its type was not found
                assert(!spec_is_terminator(chunk.chunk_type)) by {
                    if spec_is_terminator(chunk.chunk_type) {
                        let last = old_cs[k - 1];
                        assert(spec_is_terminator(last.chunk_type));
                        assert(last.chunk_type.spec_bytes() == chunk.chunk_type.spec_bytes());
                        assert(last.chunk_type.spec_bytes()[0] == chunk.chunk_type.spec_bytes()[0]
                            && last.chunk_type.spec_bytes()[1] == chunk.chunk_type.spec_bytes()[1]
                            && last.chunk_type.spec_bytes()[2] == chunk.chunk_type.spec_bytes()[2]
                            && last.chunk_type.spec_bytes()[3]
                            == chunk.chunk_type.spec_bytes()[3]);
                        assert(last.chunk_type == chunk.chunk_type);
                        assert((#[trigger] old_cs[k - 1]).chunk_type == chunk.chunk_type);
                    }
                }
                assert(spec_terminated(cs2));
            }
        }
        Ok(())
    }

    /// Removes and returns the first record whose type code is `target`;
    /// the remaining records keep their relative order, and a failure
    /// leaves the container untouched.
    pub fn remove_chunk(&mut self, target: &ChunkType) -> (r: Result<Chunk, Error>)
        ensures
            match r {
                Ok(c) => {
                    let i = spec_first_match(old(self).chunks@, *target);
                    &&& i >= 0
                    &&& c == old(self).chunks@[i]
                    &&& final(self).chunks@ == old(self).chunks@.remove(i)
                },
                Err(e) => {
                    &&& e == Error::NotFound
                    &&& spec_first_match(old(self).chunks@, *target) < 0
                    &&& final(self).chunks@ == old(self).chunks@
                },
            },
            old(self).wf() && !spec_is_terminator(*target) && r is Ok ==> final(self).wf(),
    {
        let k = self.chunks.len();
        let mut i: usize = 0;
        while i < k
            invariant
                0 <= i <= k,
                k == self.chunks@.len(),
                self.chunks@ == old(self).chunks@,
                forall|j: int| 0 <= j < i ==> (#[trigger] self.chunks@[j]).chunk_type != *target,
            decreases k - i,
        {
            if self.chunks[i].chunk_type == *target {
                proof {
                    lemma_first_match_at(self.chunks@, *target, i as int);
                }
                let ghost old_cs = self.chunks@;
                let ghost was_wf = old(self).wf();
                let c = self.chunks.remove(i);
                proof {
                    if was_wf && !spec_is_terminator(*target) {
                        let cs2 = old_cs.remove(i as int);
                        assert(cs2.len() == k - 1);
                        assert(i < k - 1) by {
                            assert(old_cs[i as int].chunk_type == *target);
                            assert(spec_is_terminator(old_cs[k - 1].chunk_type));
                            if i == k - 1 {
                                assert(spec_is_terminator(*target));
                            }
                        }
                        assert(forall|j: int| 0 <= j < i ==> cs2[j] == old_cs[j]);
                        assert(forall|j: int| i <= j < cs2.len() ==> cs2[j] == old_cs[j + 1]);
                        assert(cs2[cs2.len() - 1] == old_cs[k - 1]);
                        assert(spec_terminated(cs2));
                    }
                }
                return Ok(c);
            }
            i += 1;
        }
        proof {
            lemma_first_match_none(self.chunks@, *target);
        }
        Err(Error::NotFound)
    }

    /// Serializes the container: the signature, then every record's bytes
    /// in current order.
    pub fn as_bytes(&self) -> (r: Vec<u8>)
        ensures
            r@ == self.spec_as_bytes(),
    {
        let mut out: Vec<u8> = Vec::new();
        out.push(137);
        out.push(80);
        out.push(78);
        out.push(71);
        out.push(13);
        out.push(10);
        out.push(26);
        out.push(10);
        proof {
            assert(out@ =~= spec_signature());
            assert(self.chunks@.take(0) =~= Seq::<Chunk>::empty());
        }
        let k = self.chunks.len();
        let mut i: usize = 0;
        while i < k
            invariant
                0 <= i <= k,
                k == self.chunks@.len(),
                out@ == spec_signature() + chunks_bytes(self.chunks@.take(i as int)),
            decreases k - i,
        {
            let mut cb = self.chunks[i].as_bytes();
            out.append(&mut cb);
            proof {
                lemma_chunks_bytes_push(self.chunks@.take(i as int), self.chunks@[i as int]);
                assert(self.chunks@.take(i + 1) =~= self.chunks@.take(i as int).push(
                    self.chunks@[i as int],
                ));
                assert(out@ =~= spec_signature() + chunks_bytes(self.chunks@.take(i + 1)));
            }
            i += 1;
        }
        proof {
            assert(self.chunks@.take(k as int) =~= self.chunks@);
        }
        out
    }
}

/// The encoding of a list of well-formed records parses back record by
/// record, and ends in exactly one final terminator precisely when the
/// list itself is terminated.
pub proof fn lemma_chunks_bytes_parse(cs: Seq<Chunk>)
    requires
        forall|i: int| 0 <= i < cs.len() ==> (#[trigger] cs[i]).wf(),
    ensures
        chunks_parse_ok(chunks_bytes(cs)),
        terminator_ok(chunks_bytes(cs)) == spec_terminated(cs),
        cs.len() >= 1 ==> chunks_bytes(cs).len() >= 12,
    decreases cs.len(),
{
    if cs.len() == 0 {
        assert(chunks_bytes(cs).len() == 0);
    } else {
        let c0 = cs[0];
        let rest = cs.skip(1);
        assert(forall|i: int| 0 <= i < rest.len() ==> #[trigger] rest[i] == cs[i + 1]);
        lemma_chunks_bytes_parse(rest);
        let rb = chunks_bytes(rest);
        let s = chunks_bytes(cs);
        assert(s == c0.spec_as_bytes() + rb);
        lemma_chunk_encoding_decodes(c0, rb);
        let t = spec_total_len(s);
        assert(t == c0.spec_as_bytes().len());
        assert(s.skip(t) == rb);
        assert(chunks_parse_ok(s));
        assert(spec_is_terminator(c0.chunk_type) == (s.subrange(4, 8)
            == spec_terminator_bytes()));
        if rest.len() == 0 {
            assert(rb.len() == 0);
            assert(s.len() == t);
            assert(terminator_ok(s) == spec_is_terminator(c0.chunk_type));
            assert(spec_terminated(cs) == spec_is_terminator(c0.chunk_type));
        } else {
            assert(rb.len() >= 12);
            assert(s.len() > t);
            assert(terminator_ok(s) == (!spec_is_terminator(c0.chunk_type) && terminator_ok(
                rb,
            )));
            if spec_terminated(cs) {
                assert(!spec_is_terminator(c0.chunk_type));
                assert(rest[rest.len() - 1] == cs[cs.len() - 1]);
                assert forall|i: int| 0 <= i < rest.len() - 1 implies !spec_is_terminator(
                    (#[trigger] rest[i]).chunk_type,
                ) by {
                    assert(rest[i] == cs[i + 1]);
                }
                assert(spec_terminated(rest));
            }
            if !spec_is_terminator(c0.chunk_type) && spec_terminated(rest) {
                assert(cs[cs.len() - 1] == rest[rest.len() - 1]);
                assert forall|i: int| 0 <= i < cs.len() - 1 implies !spec_is_terminator(
                    (#[trigger] cs[i]).chunk_type,
                ) by {
                    if i > 0 {
                        assert(rest[i - 1] == cs[i]);
                    }
                }
                assert(spec_terminated(cs));
            }
        }
    }
}

/// The container round trip: the serialized form of any well-formed
/// container satisfies every condition under which `Png::try_from` succeeds,
/// so parsing it yields a container that serializes to the same bytes again.
pub proof fn lemma_png_round_trip(p: Png)
    requires
        p.wf(),
    ensures
        p.spec_as_bytes().len() >= 20,
        p.spec_as_bytes().subrange(0, 8) == spec_signature(),
        chunks_parse_ok(p.spec_as_bytes().skip(8)),
        terminator_ok(p.spec_as_bytes().skip(8)),
{
    lemma_chunks_bytes_parse(p.chunks@);
    assert(p.spec_as_bytes().subrange(0, 8) =~= spec_signature());
    assert(p.spec_as_bytes().skip(8) =~= chunks_bytes(p.chunks@));
}

/// The append/remove inverse: inserting a record of a type not yet present
/// just before the last position, then removing the first record of that
/// type, restores the record list exactly - so a container's serialized
/// bytes return to what they were before the append.
pub proof fn lemma_append_remove_inverse(cs: Seq<Chunk>, c: Chunk)
    requires
        cs.len() >= 1,
        spec_first_match(cs, c.chunk_type) < 0,
    ensures
        spec_first_match(cs.insert(cs.len() - 1, c), c.chunk_type) == cs.len() - 1,
        cs.insert(cs.len() - 1, c).remove(cs.len() - 1) == cs,
{
    lemma_first_match(cs, c.chunk_type);
    let k = cs.len() as int;
    let cs2 = cs.insert(k - 1, c);
    cs.insert_ensures(k - 1, c);
    assert(cs2[k - 1] == c);
    assert forall|j: int| 0 <= j < k - 1 implies (#[trigger] cs2[j]).chunk_type
        != c.chunk_type by {
        assert(cs2[j] == cs[j]);
    }
    lemma_first_match_at(cs2, c.chunk_type, k - 1);
    assert(cs2.remove(k - 1) =~= cs);
}


} // verus!
