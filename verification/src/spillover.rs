//! The file format of the disk spillover buffer, and its replay.
//!
//! Each batch is one frame: the length of its bytes, their CRC-32, and the bytes.

use vstd::prelude::*;

verus! {

/// The number of bytes before the bytes of a batch.
pub const HEADER_SIZE: usize = 8;

// ---------------------------------------------------------------------------
// Checksums
// ---------------------------------------------------------------------------

/// One step of the division by the CRC-32 polynomial, whose bits stand in reverse
/// order in `0xedb8_8320`.
pub open spec fn crc_bit(state: u32) -> u32 {
    if state & 1 == 1 {
        (state >> 1) ^ 0xedb8_8320
    } else {
        state >> 1
    }
}

/// `n` such steps.
pub open spec fn crc_bits(state: u32, n: nat) -> u32
    decreases n,
{
    if n == 0 {
        state
    } else {
        crc_bit(crc_bits(state, (n - 1) as nat))
    }
}

/// The remainder after a row of bytes, which starts with all bits set.
pub open spec fn crc_state(data: Seq<u8>) -> u32
    decreases data.len(),
{
    if data.len() == 0 {
        0xffff_ffff
    } else {
        crc_bits(crc_state(data.drop_last()) ^ (data.last() as u32), 8)
    }
}

/// The CRC-32 checksum of a row of bytes: the remainder with all bits inverted.
#[verifier::opaque]
pub open spec fn crc32(data: Seq<u8>) -> u32 {
    crc_state(data) ^ 0xffff_ffff
}

proof fn lemma_crc_bit_keeps_apart(a: u32, b: u32)
    requires
        a != b,
    ensures
        crc_bit(a) != crc_bit(b),
{
    let x = if a & 1 == 1 {
        (a >> 1) ^ 0xedb8_8320
    } else {
        a >> 1
    };
    let y = if b & 1 == 1 {
        (b >> 1) ^ 0xedb8_8320
    } else {
        b >> 1
    };
    assert(x != y) by (bit_vector)
        requires
            a != b,
            x == if a & 1 == 1 {
                (a >> 1) ^ 0xedb8_8320
            } else {
                a >> 1
            },
            y == if b & 1 == 1 {
                (b >> 1) ^ 0xedb8_8320
            } else {
                b >> 1
            },
    ;
}

proof fn lemma_crc_bits_keep_apart(a: u32, b: u32, n: nat)
    requires
        a != b,
    ensures
        crc_bits(a, n) != crc_bits(b, n),
    decreases n,
{
    if n > 0 {
        lemma_crc_bits_keep_apart(a, b, (n - 1) as nat);
        lemma_crc_bit_keeps_apart(crc_bits(a, (n - 1) as nat), crc_bits(b, (n - 1) as nat));
    }
}

proof fn lemma_crc_states_differ(a: Seq<u8>, b: Seq<u8>, at: int)
    requires
        a.len() == b.len(),
        0 <= at < a.len(),
        a[at] != b[at],
        forall|i: int| 0 <= i < a.len() && i != at ==> a[i] == b[i],
    ensures
        crc_state(a) != crc_state(b),
    decreases a.len(),
{
    let p = a.drop_last();
    let q = b.drop_last();
    let s = crc_state(p);
    let t = crc_state(q);
    let x = a.last() as u32;
    let y = b.last() as u32;
    if at == a.len() - 1 {
        assert(p =~= q);
        assert(s ^ x != s ^ y) by (bit_vector)
            requires
                x != y,
        ;
        lemma_crc_bits_keep_apart(s ^ x, s ^ y, 8);
    } else {
        lemma_crc_states_differ(p, q, at);
        assert(s ^ x != t ^ x) by (bit_vector)
            requires
                s != t,
        ;
        lemma_crc_bits_keep_apart(s ^ x, t ^ x, 8);
    }
}

/// A changed byte is always noticed: two rows of the same length that differ in
/// exactly one byte have different checksums.
pub proof fn law_changed_byte_is_noticed(a: Seq<u8>, b: Seq<u8>, at: int)
    requires
        a.len() == b.len(),
        0 <= at < a.len(),
        a[at] != b[at],
        forall|i: int| 0 <= i < a.len() && i != at ==> a[i] == b[i],
    ensures
        crc32(a) != crc32(b),
{
    reveal(crc32);
    lemma_crc_states_differ(a, b, at);
    let s = crc_state(a);
    let t = crc_state(b);
    assert(s ^ 0xffff_ffff != t ^ 0xffff_ffff) by (bit_vector)
        requires
            s != t,
    ;
}

/// `crc32fast::hash` is the CRC-32 of IEEE 802.3.
#[verifier::external_body]
pub(crate) fn crc32_of(data: &[u8]) -> (r: u32)
    ensures
        r == crc32(data@),
{
    crc32fast::hash(data)
}

// ---------------------------------------------------------------------------
// Frames
// ---------------------------------------------------------------------------

/// The four bytes of a number, the lowest first.
pub open spec fn le_bytes(n: int) -> Seq<u8> {
    seq![
        (n % 256) as u8,
        (n / 256 % 256) as u8,
        (n / 65_536 % 256) as u8,
        (n / 16_777_216 % 256) as u8,
    ]
}

/// The number that four bytes stand for, the lowest first.
pub open spec fn le_value(b: Seq<u8>) -> int {
    b[0] + b[1] * 256 + b[2] * 65_536 + b[3] * 16_777_216
}

/// A batch as it stands in the file. The length is cut to 32 bits.
pub open spec fn frame(data: Seq<u8>) -> Seq<u8> {
    le_bytes(data.len() as int % 0x1_0000_0000) + le_bytes(crc32(data) as int) + data
}

/// Frames one behind the other.
pub open spec fn frames(batches: Seq<Seq<u8>>) -> Seq<u8>
    decreases batches.len(),
{
    if batches.len() == 0 {
        seq![]
    } else {
        frame(batches[0]) + frames(batches.skip(1))
    }
}

fn push_le(out: &mut Vec<u8>, n: u32)
    ensures
        final(out)@ == old(out)@ + le_bytes(n as int),
{
    out.push((n % 256) as u8);
    out.push((n / 256 % 256) as u8);
    out.push((n / 65_536 % 256) as u8);
    out.push((n / 16_777_216 % 256) as u8);
    assert(out@ =~= old(out)@ + le_bytes(n as int));
}

/// A batch as it stands in the file.
pub fn encode_frame(data: &[u8]) -> (r: Vec<u8>)
    ensures
        r@ == frame(data@),
{
    let len: u32 = (data.len() as u64 % 0x1_0000_0000) as u32;
    let mut r: Vec<u8> = Vec::new();
    push_le(&mut r, len);
    push_le(&mut r, crc32_of(data));
    r.extend_from_slice(data);
    assert(r@ =~= frame(data@));
    r
}

// ---------------------------------------------------------------------------
// Reading
// ---------------------------------------------------------------------------

/// What stands at the beginning of the bytes of a file.
pub ghost enum Found {
    /// Not even a whole header: the file ends here.
    End,
    /// A header whose bytes are not all there.
    Cut,
    /// A frame whose checksum is right, and the number of its bytes in the file.
    Batch(Seq<u8>, nat),
    /// A frame whose checksum is wrong, and the number of its bytes in the file.
    Corrupt(nat),
}

/// What stands at the beginning of `bytes`.
pub open spec fn found(bytes: Seq<u8>) -> Found {
    if bytes.len() < 8 {
        Found::End
    } else {
        let len = le_value(bytes.subrange(0, 4));
        if bytes.len() < 8 + len {
            Found::Cut
        } else {
            let data = bytes.subrange(8, 8 + len);
            if crc32(data) == le_value(bytes.subrange(4, 8)) {
                Found::Batch(data, (8 + len) as nat)
            } else {
                Found::Corrupt((8 + len) as nat)
            }
        }
    }
}

/// The batches in the bytes of a file whose checksums are right, in their order,
/// and whether the file ends where a frame ends or within a header.
pub open spec fn scan(bytes: Seq<u8>) -> (Seq<Seq<u8>>, bool)
    decreases bytes.len(),
{
    match found(bytes) {
        Found::End => (seq![], true),
        Found::Cut => (seq![], false),
        Found::Batch(data, n) => if 0 < n <= bytes.len() {
            (seq![data] + scan(bytes.skip(n as int)).0, scan(bytes.skip(n as int)).1)
        } else {
            (seq![], false)
        },
        Found::Corrupt(n) => if 0 < n <= bytes.len() {
            scan(bytes.skip(n as int))
        } else {
            (seq![], false)
        },
    }
}

proof fn lemma_le(n: int)
    requires
        0 <= n < 0x1_0000_0000,
    ensures
        le_value(le_bytes(n)) == n,
{
}

/// A frame at the beginning of a file is found there.
#[verifier::rlimit(40)]
pub proof fn lemma_frame_is_found(data: Seq<u8>, rest: Seq<u8>)
    requires
        data.len() <= u32::MAX,
    ensures
        found(frame(data) + rest) == Found::Batch(data, 8 + data.len()),
        (frame(data) + rest).skip(8 + data.len() as int) == rest,
{
    let bytes = frame(data) + rest;
    lemma_le(data.len() as int);
    lemma_le(crc32(data) as int);
    assert(bytes.subrange(0, 4) =~= le_bytes(data.len() as int));
    assert(bytes.subrange(4, 8) =~= le_bytes(crc32(data) as int));
    assert(bytes.subrange(8, 8 + data.len() as int) =~= data);
    assert(bytes.skip(8 + data.len() as int) =~= rest);
}

/// Whatever has been appended is read back, in its order, whatever stands behind
/// it in the file.
pub proof fn law_appended_batches_come_back(batches: Seq<Seq<u8>>, rest: Seq<u8>)
    requires
        forall|i: int| 0 <= i < batches.len() ==> #[trigger] batches[i].len() <= u32::MAX,
    ensures
        scan(frames(batches) + rest).0 == batches + scan(rest).0,
        scan(frames(batches) + rest).1 == scan(rest).1,
    decreases batches.len(),
{
    if batches.len() == 0 {
        assert(frames(batches) + rest =~= rest);
        assert(batches + scan(rest).0 =~= scan(rest).0);
    } else {
        let tail = frames(batches.skip(1)) + rest;
        assert(frames(batches) + rest =~= frame(batches[0]) + tail);
        lemma_frame_is_found(batches[0], tail);
        assert forall|i: int| 0 <= i < batches.skip(1).len() implies #[trigger] batches.skip(
            1,
        )[i].len() <= u32::MAX by {
            assert(batches.skip(1)[i] == batches[i + 1]);
        }
        law_appended_batches_come_back(batches.skip(1), rest);
        assert(seq![batches[0]] + (batches.skip(1) + scan(rest).0) =~= batches + scan(rest).0);
    }
}

/// A frame with a checksum that is wrong for its bytes is skipped, and nothing
/// else is.
#[verifier::rlimit(40)]
pub proof fn law_corrupt_frame_is_skipped(
    before: Seq<Seq<u8>>,
    data: Seq<u8>,
    crc: u32,
    rest: Seq<u8>,
)
    requires
        forall|i: int| 0 <= i < before.len() ==> #[trigger] before[i].len() <= u32::MAX,
        data.len() <= u32::MAX,
        crc != crc32(data),
    ensures
        scan(frames(before) + (le_bytes(data.len() as int) + le_bytes(crc as int) + data + rest))
            == (before + scan(rest).0, scan(rest).1),
{
    let bad = le_bytes(data.len() as int) + le_bytes(crc as int) + data + rest;
    law_appended_batches_come_back(before, bad);
    lemma_le(data.len() as int);
    lemma_le(crc as int);
    assert(bad.subrange(0, 4) =~= le_bytes(data.len() as int));
    assert(bad.subrange(4, 8) =~= le_bytes(crc as int));
    assert(bad.subrange(8, 8 + data.len() as int) =~= data);
    assert(bad.skip(8 + data.len() as int) =~= rest);
}

/// A batch in which a byte has been changed behind its header is skipped, and
/// nothing else is.
#[verifier::rlimit(40)]
pub proof fn law_changed_batch_is_skipped(
    before: Seq<Seq<u8>>,
    data: Seq<u8>,
    at: int,
    byte: u8,
    rest: Seq<u8>,
)
    requires
        forall|i: int| 0 <= i < before.len() ==> #[trigger] before[i].len() <= u32::MAX,
        data.len() <= u32::MAX,
        0 <= at < data.len(),
        byte != data[at],
    ensures
        scan(frames(before) + (frame(data).update(8 + at, byte) + rest)) == (
            before + scan(rest).0,
            scan(rest).1,
        ),
{
    let changed = data.update(at, byte);
    law_changed_byte_is_noticed(data, changed, at);
    law_corrupt_frame_is_skipped(before, changed, crc32(data), rest);
    assert(frame(data).update(8 + at, byte) + rest =~= le_bytes(changed.len() as int) + le_bytes(
        crc32(data) as int,
    ) + changed + rest);
}

/// After an append that was interrupted, everything appended before it comes
/// back. The file then counts as read to its end if not even the header of the
/// last frame is whole.
#[verifier::rlimit(40)]
pub proof fn law_interrupted_append_loses_nothing_else(
    before: Seq<Seq<u8>>,
    data: Seq<u8>,
    written: nat,
)
    requires
        forall|i: int| 0 <= i < before.len() ==> #[trigger] before[i].len() <= u32::MAX,
        data.len() <= u32::MAX,
        written < frame(data).len(),
    ensures
        scan(frames(before) + frame(data).take(written as int)) == (before, written < 8),
{
    let part = frame(data).take(written as int);
    law_appended_batches_come_back(before, part);
    if written >= 8 {
        lemma_le(data.len() as int);
        assert(part.subrange(0, 4) =~= le_bytes(data.len() as int));
    }
    assert(before + Seq::<Seq<u8>>::empty() =~= before);
}

// ---------------------------------------------------------------------------
// Replay
// ---------------------------------------------------------------------------

/// A replay of the bytes of a spillover file.
pub struct Replay {
    bytes: Vec<u8>,
    pos: usize,
    count: usize,
    handed: Ghost<Seq<Seq<u8>>>,
}

/// What comes next in a replay.
pub enum Step {
    /// The bytes of a batch, to be decoded and handed to the consumer.
    Batch(Vec<u8>),
    /// A frame has been skipped because its checksum is wrong.
    Corrupt { expected: u32, actual: u32 },
    /// Everything has been replayed: the file is to be truncated.
    Finished { replayed: usize },
    /// The file ends within the bytes of a batch: it stays as it is.
    Cut,
}

/// How a replay goes on after a batch.
#[derive(Debug, Clone, Copy, PartialEq, Eq, Structural)]
pub enum Verdict {
    /// The next batch is due.
    Continue,
    /// The consumer has no room: the replay ends here and the file stays as it
    /// is.
    Paused { replayed: usize },
}

impl Replay {
    /// All bytes of the file.
    pub closed spec fn file(&self) -> Seq<u8> {
        self.bytes@
    }

    /// The bytes that have not been replayed yet.
    pub closed spec fn rest(&self) -> Seq<u8> {
        self.bytes@.skip(self.pos as int)
    }

    /// The batches that have come out so far.
    pub closed spec fn handed(&self) -> Seq<Seq<u8>> {
        self.handed@
    }

    /// The number of records that have been replayed so far.
    pub closed spec fn replayed(&self) -> usize {
        self.count
    }

    /// The batches that have come out, and those that are still to come, are
    /// those of the file.
    pub closed spec fn wf(&self) -> bool {
        &&& self.pos <= self.bytes@.len()
        &&& scan(self.file()) == (self.handed() + scan(self.rest()).0, scan(self.rest()).1)
    }

    /// A replay from the beginning of a file.
    pub fn new(bytes: Vec<u8>) -> (r: Self)
        ensures
            r.wf(),
            r.file() == bytes@,
            r.rest() == bytes@,
            r.handed() == Seq::<Seq<u8>>::empty(),
            r.replayed() == 0,
    {
        let r: Replay = Replay { bytes, pos: 0, count: 0, handed: Ghost(Seq::empty()) };
        assert(r.rest() =~= bytes@);
        assert(r.handed() + scan(r.rest()).0 =~= scan(r.rest()).0);
        r
    }

    /// The next step.
    pub fn next(&mut self) -> (r: Step)
        requires
            old(self).wf(),
        ensures
            final(self).wf(),
            final(self).file() == old(self).file(),
            final(self).replayed() == old(self).replayed(),
            match found(old(self).rest()) {
                Found::End => {
                    &&& r matches Step::Finished { replayed } && replayed == old(self).replayed()
                    &&& final(self).handed() == scan(old(self).file()).0
                    &&& scan(old(self).file()).1
                    &&& final(self).rest() == old(self).rest()
                },
                Found::Cut => {
                    &&& r is Cut
                    &&& final(self).handed() == scan(old(self).file()).0
                    &&& !scan(old(self).file()).1
                    &&& final(self).rest() == old(self).rest()
                },
                Found::Batch(data, n) => {
                    &&& r matches Step::Batch(v) && v@ == data
                    &&& final(self).handed() == old(self).handed().push(data)
                    &&& final(self).rest() == old(self).rest().skip(n as int)
                    &&& 8 <= n <= old(self).rest().len()
                },
                Found::Corrupt(n) => {
                    &&& r matches Step::Corrupt { expected, actual } && expected == le_value(
                        old(self).rest().subrange(4, 8),
                    ) && actual == crc32(old(self).rest().subrange(8, n as int))
                    &&& final(self).handed() == old(self).handed()
                    &&& final(self).rest() == old(self).rest().skip(n as int)
                    &&& 8 <= n <= old(self).rest().len()
                },
            },
    {
        let left: usize = self.bytes.len() - self.pos;
        if left < HEADER_SIZE {
            assert(self.handed() + scan(self.rest()).0 =~= self.handed());
            return Step::Finished { replayed: self.count };
        }
        let start: usize = self.pos;
        let ghost rest = self.rest();
        proof {
            assert(forall|i: int| 0 <= i < 8 ==> rest[i] == self.bytes@[start + i]);
        }
        let len: u32 = read_le(&self.bytes, start);
        let expected: u32 = read_le(&self.bytes, start + 4);
        assert(rest.subrange(0, 4) =~= self.bytes@.subrange(start as int, start + 4));
        assert(rest.subrange(4, 8) =~= self.bytes@.subrange(start + 4, start + 8));
        if left - HEADER_SIZE < len as usize {
            assert(self.handed() + scan(self.rest()).0 =~= self.handed());
            return Step::Cut;
        }
        let size: usize = len as usize;
        let data: Vec<u8> = bytes_of(&self.bytes, start + HEADER_SIZE, size);
        assert(rest.subrange(8, 8 + size as int) =~= data@);
        let actual: u32 = crc32_of(data.as_slice());
        self.pos = start + HEADER_SIZE + size;
        assert(self.rest() =~= rest.skip(8 + size as int));
        if actual != expected {
            return Step::Corrupt { expected, actual };
        }
        proof {
            let handed = self.handed@;
            self.handed@ = handed.push(data@);
            assert(handed + (seq![data@] + scan(self.rest()).0) =~= handed.push(data@) + scan(
                self.rest(),
            ).0);
        }
        Step::Batch(data)
    }

    /// Counts the records of a batch that the consumer was handed, and ends the
    /// replay if it had no room for them.
    pub fn settle(&mut self, records: usize, taken: bool) -> (r: Verdict)
        requires
            old(self).wf(),
            old(self).replayed() + records <= usize::MAX,
        ensures
            final(self).wf(),
            final(self).file() == old(self).file(),
            final(self).rest() == old(self).rest(),
            final(self).handed() == old(self).handed(),
            final(self).replayed() == old(self).replayed() + records,
            r == if taken {
                Verdict::Continue
            } else {
                Verdict::Paused { replayed: final(self).replayed() }
            },
    {
        self.count += records;
        if taken {
            Verdict::Continue
        } else {
            Verdict::Paused { replayed: self.count }
        }
    }

    /// The number of records that have been replayed so far.
    pub fn count(&self) -> (n: usize)
        ensures
            n == self.replayed(),
    {
        self.count
    }
}

fn read_le(bytes: &Vec<u8>, at: usize) -> (n: u32)
    requires
        at + 4 <= bytes@.len(),
    ensures
        n == le_value(bytes@.subrange(at as int, at + 4)),
{
    assert(at + 4 <= bytes.len());
    bytes[at] as u32 + bytes[at + 1] as u32 * 256 + bytes[at + 2] as u32 * 65_536 + bytes[at
        + 3] as u32 * 16_777_216
}

fn bytes_of(bytes: &Vec<u8>, from: usize, len: usize) -> (r: Vec<u8>)
    requires
        from + len <= bytes@.len(),
    ensures
        r@ == bytes@.subrange(from as int, from + len),
{
    let mut r: Vec<u8> = Vec::new();
    let mut i: usize = 0;
    while i < len
        invariant
            i <= len,
            from + len <= bytes.len(),
            r@ =~= bytes@.subrange(from as int, from + i),
        decreases len - i,
    {
        r.push(bytes[from + i]);
        i += 1;
    }
    r
}

} // verus!
