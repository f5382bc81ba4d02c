//! The test-data generator: it builds wire-format frames, sequences,
//! chunks and whole capture files, and carries the proof that framing
//! round-trips — parsing the encoded frames yields the frames back.

use vstd::prelude::*;
use crate::bytes_be::{be_u32_of, be_u64_of};
use crate::data_layer::{fram_tag, spec_frame_at, SpecFrame};
use crate::parser::{gunzip_of, spec_frames_in};
use std::collections::hash_map::DefaultHasher;
use std::hash::{Hash, Hasher};
use vstd::arithmetic::div_mod::lemma_div_denominator;

verus! {

/// Generator configuration.
#[derive(Clone, Debug)]
pub struct TestDataConfig {
    /// How many files to generate.
    pub file_count: usize,
    /// Target size of each file in bytes.
    pub target_file_size: usize,
    /// Frames per file.
    pub frames_per_file: usize,
    /// Output directory path.
    pub output_dir: Vec<u8>,
}

impl Default for TestDataConfig {
    /// The default configuration: 20 files of 15 MiB targeting 2000 frames
    /// each, under `test_data`.
    fn default() -> (r: TestDataConfig)
        ensures
            r.file_count == 20,
            r.target_file_size == 0xF00000,
            r.frames_per_file == 2000,
    {
        let mut output_dir: Vec<u8> = Vec::new();
        output_dir.push(0x74);
        output_dir.push(0x65);
        output_dir.push(0x73);
        output_dir.push(0x74);
        output_dir.push(0x5f);
        output_dir.push(0x64);
        output_dir.push(0x61);
        output_dir.push(0x74);
        output_dir.push(0x61);
        TestDataConfig {
            file_count: 20,
            target_file_size: 0xF00000,
            frames_per_file: 2000,
            output_dir,
        }
    }
}

/// Whether a frame carries a standard or an extended identifier.
#[derive(Clone, Copy, Debug, PartialEq, Eq)]
pub enum CanFrameType {
    /// An 11-bit identifier.
    Standard,
    /// A 29-bit identifier.
    Extended,
}

/// One generated frame.
#[derive(Clone, Debug)]
pub struct CanFrame {
    /// CAN identifier.
    pub id: u32,
    /// Data length, 0 to 8.
    pub dlc: u8,
    /// Data bytes, exactly `dlc` of them.
    pub data: Vec<u8>,
    /// Timestamp in microseconds.
    pub timestamp: u64,
    /// Identifier kind.
    pub frame_type: CanFrameType,
    /// Whether this is a remote frame; generated frames never are.
    pub is_remote: bool,
}

/// Relies on std's `DefaultHasher`: a pseudo-random 64-bit value derived
/// from the input; nothing is claimed of the value.
#[verifier::external_body]
fn hash_seed(timestamp: u64) -> u64 {
    let mut hasher = DefaultHasher::new();
    timestamp.hash(&mut hasher);
    hasher.finish()
}

impl CanFrame {
    /// A generated frame is well formed: its data length code is at most 8
    /// and counts its data bytes exactly, and it is a data frame.
    pub open spec fn wf(self) -> bool {
        &&& self.dlc <= 8
        &&& self.data@.len() == self.dlc
        &&& !self.is_remote
    }

    /// Generates a frame for a timestamp: a pseudo-random identifier from a
    /// fixed table of vehicle identifiers of the requested kind, with data
    /// derived from the identifier and the seed.
    pub fn generate_realistic_vehicle_frame(timestamp: u64, frame_type: CanFrameType) -> (r:
        CanFrame)
        ensures
            r.wf(),
            r.timestamp == timestamp,
            r.frame_type == frame_type,
            r.id > 0,
            frame_type == CanFrameType::Standard ==> 0x100 <= r.id <= 0x800,
            frame_type == CanFrameType::Extended ==> r.id > 0x7FF,
    {
        let seed = hash_seed(timestamp);
        let can_id: u32 = match frame_type {
            CanFrameType::Standard => {
                match seed % 8 {
                    0 => 0x100,
                    1 => 0x200,
                    2 => 0x300,
                    3 => 0x400,
                    4 => 0x500,
                    5 => 0x600,
                    6 => 0x700,
                    _ => 0x800,
                }
            },
            CanFrameType::Extended => {
                match seed % 4 {
                    0 => 0x18FF1234,
                    1 => 0x18FF5678,
                    2 => 0x18FF9ABC,
                    _ => 0x18FFDEF0,
                }
            },
        };
        let (dlc, data) = Self::generate_realistic_data(can_id, seed);
        CanFrame { id: can_id, dlc, data, timestamp, frame_type, is_remote: false }
    }

    /// Derives frame data from the identifier and the seed: each known
    /// vehicle identifier gets its own field layout; unknown identifiers
    /// get a pseudo-random length of pseudo-random bytes. The data length
    /// code is at most 8 and counts the data bytes exactly.
    pub fn generate_realistic_data(can_id: u32, seed: u64) -> (r: (u8, Vec<u8>))
        ensures
            r.0 <= 8,
            r.1@.len() == r.0,
    {
        let mut data: Vec<u8> = Vec::new();
        if can_id == 0x100 {
            let engine_speed = ((seed % 8000) + 800) as u16;
            data.push((engine_speed % 256) as u8);
            data.push((engine_speed / 256) as u8);
            data.push(((seed % 100) + 80) as u8);
            data.push(((seed % 100) + 1) as u8);
            data.push(((seed % 5) + 1) as u8);
            data.push((seed % 100) as u8);
            data.push((seed % 100) as u8);
            data.push(0);
            (8, data)
        } else if can_id == 0x200 {
            data.push(((seed % 8) + 1) as u8);
            data.push(((seed % 100) + 50) as u8);
            data.push((seed % 2) as u8);
            data.push(((seed % 50) + 80) as u8);
            data.push(((seed % 20) + 80) as u8);
            data.push((seed % 4) as u8);
            (6, data)
        } else if can_id == 0x300 {
            let brake_pressure = ((seed % 200) + 50) as u16;
            data.push((brake_pressure % 256) as u8);
            data.push((brake_pressure / 256) as u8);
            data.push(((seed % 100) + 50) as u8);
            data.push((seed % 2) as u8);
            data.push(((seed % 20) + 80) as u8);
            data.push((seed % 100) as u8);
            data.push(((seed % 100) + 1) as u8);
            (7, data)
        } else if can_id == 0x400 {
            data.push((seed % 256) as u8);
            data.push((seed / 256 % 256) as u8);
            data.push(((seed % 200) + 1) as u8);
            data.push(((seed % 100) + 1) as u8);
            data.push(((seed % 50) + 1) as u8);
            (5, data)
        } else if can_id == 0x500 {
            data.push((seed % 16) as u8);
            data.push((seed % 100) as u8);
            data.push((seed % 100) as u8);
            data.push((seed % 100) as u8);
            data.push((seed % 8) as u8);
            data.push((seed % 4) as u8);
            data.push((seed % 100) as u8);
            data.push((seed % 4) as u8);
            (8, data)
        } else if can_id == 0x600 {
            data.push(((seed % 200) + 1) as u8);
            data.push((seed % 100) as u8);
            data.push(((seed % 50) + 70) as u8);
            data.push((seed % 100) as u8);
            data.push(((seed % 5) + 12) as u8);
            data.push((seed % 16) as u8);
            (6, data)
        } else if can_id == 0x700 {
            data.push(((seed % 30) + 15) as u8);
            data.push(((seed % 10) + 20) as u8);
            data.push(((seed % 8) + 1) as u8);
            data.push((seed % 4) as u8);
            (4, data)
        } else if can_id == 0x800 {
            data.push((seed % 2) as u8);
            data.push((seed % 2) as u8);
            data.push((seed % 2) as u8);
            data.push((seed % 2) as u8);
            data.push((seed % 2) as u8);
            (5, data)
        } else if can_id >= 0x18FF0000 {
            let mut i: usize = 0;
            let mut s = seed;
            while i < 8
                invariant
                    i <= 8,
                    data@.len() == i,
                decreases 8 - i,
            {
                data.push((s % 256) as u8);
                s = s / 256;
                i = i + 1;
            }
            (8, data)
        } else {
            let dlc = ((seed / 256) % 9) as u8;
            let mut i: usize = 0;
            let mut s = seed;
            while i < dlc as usize
                invariant
                    i <= dlc as usize,
                    dlc < 9,
                    data@.len() == i,
                decreases dlc as usize - i,
            {
                data.push((s % 256) as u8);
                s = s / 256;
                i = i + 1;
            }
            (dlc, data)
        }
    }

    /// The 16 wire bytes of a frame: its identifier big-endian, its data
    /// length code, three reserved zero bytes, and its data padded with
    /// zeros to eight bytes.
    pub fn to_bytes(&self) -> (r: Vec<u8>)
        requires
            self.wf(),
        ensures
            r@.len() == 16,
            be_u32_of(r@, 0) == self.id,
            r@[4] == self.dlc,
            r@[5] == 0 && r@[6] == 0 && r@[7] == 0,
            forall|k: int| 8 <= k < 8 + self.data@.len() ==> #[trigger] r@[k] == self.data@[k - 8],
            forall|k: int| 8 + self.data@.len() <= k < 16 ==> #[trigger] r@[k] == 0,
    {
        let mut r: Vec<u8> = Vec::new();
        push_be_u32(&mut r, self.id);
        r.push(self.dlc);
        r.push(0);
        r.push(0);
        r.push(0);
        let mut k: usize = 0;
        while k < self.data.len()
            invariant
                k <= self.data@.len(),
                self.data@.len() <= 8,
                r@.len() == 8 + k,
                be_u32_of(r@, 0) == self.id,
                r@[4] == self.dlc,
                r@[5] == 0 && r@[6] == 0 && r@[7] == 0,
                forall|j: int| 8 <= j < 8 + k ==> #[trigger] r@[j] == self.data@[j - 8],
            decreases self.data@.len() - k,
        {
            r.push(self.data[k]);
            k = k + 1;
        }
        while k < 8
            invariant
                self.data@.len() <= k <= 8,
                r@.len() == 8 + k,
                be_u32_of(r@, 0) == self.id,
                r@[4] == self.dlc,
                r@[5] == 0 && r@[6] == 0 && r@[7] == 0,
                forall|j: int| 8 <= j < 8 + self.data@.len() ==> #[trigger] r@[j] == self.data@[j
                    - 8],
                forall|j: int| 8 + self.data@.len() <= j < 8 + k ==> #[trigger] r@[j] == 0,
            decreases 8 - k,
        {
            r.push(0);
            k = k + 1;
        }
        r
    }
}

/// Appends the four big-endian bytes of a 32-bit value.
pub fn push_be_u32(out: &mut Vec<u8>, x: u32)
    ensures
        final(out)@.len() == old(out)@.len() + 4,
        forall|j: int| 0 <= j < old(out)@.len() ==> #[trigger] final(out)@[j] == old(out)@[j],
        final(out)@.subrange(0, old(out)@.len() as int) == old(out)@,
        be_u32_of(final(out)@, old(out)@.len() as int) == x,
{
    let b0 = (x / 0x1000000) as u8;
    let b1 = (x / 0x10000 % 0x100) as u8;
    let b2 = (x / 0x100 % 0x100) as u8;
    let b3 = (x % 0x100) as u8;
    out.push(b0);
    out.push(b1);
    out.push(b2);
    out.push(b3);
    proof {
        let n = old(out)@.len() as int;
        assert(final(out)@.subrange(0, n) =~= old(out)@);
        let x0 = x as int;
        let q1 = x0 / 0x100;
        let q2 = x0 / 0x10000;
        let q3 = x0 / 0x1000000;
        assert(q1 / 0x100 == q2 && q2 / 0x100 == q3) by {
            lemma_div_denominator(x0, 0x100, 0x100);
            lemma_div_denominator(x0, 0x10000, 0x100);
        }
        assert(q3 < 0x100) by (nonlinear_arith)
            requires
                q3 == x0 / 0x1000000,
                0 <= x0 <= u32::MAX,
        ;
        assert(q2 == q3 * 0x100 + q2 % 0x100);
        assert(q1 == q2 * 0x100 + q1 % 0x100);
        assert(x0 == q1 * 0x100 + x0 % 0x100);
        assert((q3 * 0x100 + q2 % 0x100) * 0x100 == q3 * 0x10000 + (q2 % 0x100) * 0x10000 / 0x100)
            by (nonlinear_arith);
        assert(be_u32_of(final(out)@, n) == ((b0 * 0x100 + b1) * 0x100 + b2) * 0x100 + b3)
            by (nonlinear_arith)
            requires
                be_u32_of(final(out)@, n) == b0 * 0x1000000 + b1 * 0x10000 + b2 * 0x100 + b3,
        ;
        assert(((b0 * 0x100 + b1) * 0x100 + b2) * 0x100 + b3 == x0) by (nonlinear_arith)
            requires
                b0 == q3,
                b1 == q2 % 0x100,
                b2 == q1 % 0x100,
                b3 == x0 % 0x100,
                q2 == q3 * 0x100 + q2 % 0x100,
                q1 == q2 * 0x100 + q1 % 0x100,
                x0 == q1 * 0x100 + x0 % 0x100,
        ;
    }
}

/// Appends the eight big-endian bytes of a 64-bit value.
pub fn push_be_u64(out: &mut Vec<u8>, x: u64)
    ensures
        final(out)@.len() == old(out)@.len() + 8,
        forall|j: int| 0 <= j < old(out)@.len() ==> #[trigger] final(out)@[j] == old(out)@[j],
        final(out)@.subrange(0, old(out)@.len() as int) == old(out)@,
        be_u64_of(final(out)@, old(out)@.len() as int) == x,
{
    let b0 = (x / 0x100000000000000) as u8;
    let b1 = (x / 0x1000000000000 % 0x100) as u8;
    let b2 = (x / 0x10000000000 % 0x100) as u8;
    let b3 = (x / 0x100000000 % 0x100) as u8;
    let b4 = (x / 0x1000000 % 0x100) as u8;
    let b5 = (x / 0x10000 % 0x100) as u8;
    let b6 = (x / 0x100 % 0x100) as u8;
    let b7 = (x % 0x100) as u8;
    out.push(b0);
    out.push(b1);
    out.push(b2);
    out.push(b3);
    out.push(b4);
    out.push(b5);
    out.push(b6);
    out.push(b7);
    proof {
        let n = old(out)@.len() as int;
        assert(final(out)@.subrange(0, n) =~= old(out)@);
        let x0 = x as int;
        let q1 = x0 / 0x100;
        let q2 = x0 / 0x10000;
        let q3 = x0 / 0x1000000;
        let q4 = x0 / 0x100000000;
        let q5 = x0 / 0x10000000000;
        let q6 = x0 / 0x1000000000000;
        let q7 = x0 / 0x100000000000000;
        assert(q1 / 0x100 == q2) by {
            lemma_div_denominator(x0, 0x100, 0x100);
        }
        assert(q2 / 0x100 == q3) by {
            lemma_div_denominator(x0, 0x10000, 0x100);
        }
        assert(q3 / 0x100 == q4) by {
            lemma_div_denominator(x0, 0x1000000, 0x100);
        }
        assert(q4 / 0x100 == q5) by {
            lemma_div_denominator(x0, 0x100000000, 0x100);
        }
        assert(q5 / 0x100 == q6) by {
            lemma_div_denominator(x0, 0x10000000000, 0x100);
        }
        assert(q6 / 0x100 == q7) by {
            lemma_div_denominator(x0, 0x1000000000000, 0x100);
        }
        assert(q7 < 0x100) by (nonlinear_arith)
            requires
                q7 == x0 / 0x100000000000000,
                0 <= x0 <= u64::MAX,
        ;
        let v1 = b0 as int;
        let v2 = v1 * 0x100 + b1 as int;
        let v3 = v2 * 0x100 + b2 as int;
        let v4 = v3 * 0x100 + b3 as int;
        let v5 = v4 * 0x100 + b4 as int;
        let v6 = v5 * 0x100 + b5 as int;
        let v7 = v6 * 0x100 + b6 as int;
        let v8 = v7 * 0x100 + b7 as int;
        assert(v1 == q7);
        assert(v2 == q6 && v3 == q5 && v4 == q4 && v5 == q3 && v6 == q2 && v7 == q1 && v8 == x0);
        assert(be_u64_of(final(out)@, n) == v8);
    }
}

/// The frame a generated frame puts on the wire.
pub open spec fn spec_wire_frame(f: CanFrame) -> SpecFrame {
    SpecFrame {
        timestamp: f.timestamp,
        can_id: f.id,
        dlc: f.dlc,
        reserved: seq![0u8, 0u8, 0u8],
        data: f.data@,
    }
}

/// Encodes one frame as its 24 wire bytes: the timestamp big-endian, then
/// the 16 frame bytes. Parsing the bytes gives the frame back.
pub fn encode_frame(f: &CanFrame) -> (r: Vec<u8>)
    requires
        f.wf(),
    ensures
        r@.len() == 24,
        spec_frame_at(r@, 0) == spec_wire_frame(*f),
        r@[12] == f.dlc,
{
    let mut r: Vec<u8> = Vec::new();
    push_be_u64(&mut r, f.timestamp);
    let body = f.to_bytes();
    let mut k: usize = 0;
    while k < body.len()
        invariant
            k <= body@.len(),
            body@.len() == 16,
            r@.len() == 8 + k,
            be_u64_of(r@, 0) == f.timestamp,
            forall|j: int| 8 <= j < 8 + k ==> #[trigger] r@[j] == body@[j - 8],
        decreases body@.len() - k,
    {
        r.push(body[k]);
        k = k + 1;
    }
    proof {
        assert(be_u32_of(r@, 8) == be_u32_of(body@, 0));
        assert(spec_frame_at(r@, 0).reserved =~= seq![0u8, 0u8, 0u8]);
        assert(crate::data_layer::effective_len(r@[12]) == f.data@.len());
        assert(spec_frame_at(r@, 0).data =~= f.data@);
        assert(spec_frame_at(r@, 0) =~= spec_wire_frame(*f));
    }
    r
}

/// Parsing the bytes of a narrower buffer is unchanged in a wider buffer
/// that starts with those bytes.
pub proof fn lemma_frames_in_prefix(s1: Seq<u8>, s2: Seq<u8>, lo: int, hi: int)
    requires
        hi <= s1.len() <= s2.len(),
        forall|i: int| 0 <= i < s1.len() ==> s1[i] == s2[i],
    ensures
        spec_frames_in(s2, lo, hi) == spec_frames_in(s1, lo, hi),
    decreases hi - lo,
{
    if !(lo < 0 || lo + 24 > hi) {
        lemma_frames_in_prefix(s1, s2, lo + 24, hi);
        assert(spec_frame_at(s1, lo) =~= spec_frame_at(s2, lo)) by {
            assert(s1.subrange(lo + 13, lo + 16) =~= s2.subrange(lo + 13, lo + 16));
            assert(s1[lo + 12] == s2[lo + 12]);
            assert(s1.subrange(lo + 16, lo + 16 + crate::data_layer::effective_len(s1[lo + 12]))
                =~= s2.subrange(lo + 16, lo + 16 + crate::data_layer::effective_len(s2[lo + 12])));
        }
    }
}

/// Parsing is unchanged under an offset shift into another buffer holding
/// the same bytes.
pub proof fn lemma_frames_in_shift(s: Seq<u8>, t: Seq<u8>, d: int, lo: int, hi: int)
    requires
        0 <= d,
        0 <= lo,
        hi <= t.len(),
        d + hi <= s.len(),
        forall|i: int| lo <= i < hi ==> s[d + i] == t[i],
    ensures
        spec_frames_in(s, d + lo, d + hi) == spec_frames_in(t, lo, hi),
    decreases hi - lo,
{
    if !(lo < 0 || lo + 24 > hi) {
        lemma_frames_in_shift(s, t, d, lo + 24, hi);
        assert(spec_frame_at(s, d + lo) =~= spec_frame_at(t, lo)) by {
            assert(s[(d + lo) + 12] == t[lo + 12]) by {
                assert(s[d + (lo + 12)] == t[lo + 12]);
            }
            assert(s.subrange(d + lo + 13, d + lo + 16) =~= t.subrange(lo + 13, lo + 16)) by {
                assert forall|k: int|
                    0 <= k < 3 implies #[trigger] s.subrange(d + lo + 13, d + lo + 16)[k]
                    == t.subrange(lo + 13, lo + 16)[k] by {
                    assert(s[d + (lo + 13 + k)] == t[lo + 13 + k]);
                }
            }
            assert(crate::bytes_be::be_u64_of(s, d + lo) == crate::bytes_be::be_u64_of(t, lo)) by {
                assert(s[d + (lo + 0)] == t[lo + 0]);
                assert(s[d + (lo + 1)] == t[lo + 1]);
                assert(s[d + (lo + 2)] == t[lo + 2]);
                assert(s[d + (lo + 3)] == t[lo + 3]);
                assert(s[d + (lo + 4)] == t[lo + 4]);
                assert(s[d + (lo + 5)] == t[lo + 5]);
                assert(s[d + (lo + 6)] == t[lo + 6]);
                assert(s[d + (lo + 7)] == t[lo + 7]);
            }
            assert(crate::bytes_be::be_u32_of(s, d + lo + 8) == crate::bytes_be::be_u32_of(
                t,
                lo + 8,
            )) by {
                assert(s[d + (lo + 8)] == t[lo + 8]);
                assert(s[d + (lo + 9)] == t[lo + 9]);
                assert(s[d + (lo + 10)] == t[lo + 10]);
                assert(s[d + (lo + 11)] == t[lo + 11]);
            }
            assert(s.subrange(
                d + lo + 16,
                d + lo + 16 + crate::data_layer::effective_len(s[d + lo + 12]),
            ) =~= t.subrange(lo + 16, lo + 16 + crate::data_layer::effective_len(t[lo + 12]))) by {
                let e = crate::data_layer::effective_len(t[lo + 12]);
                assert forall|k: int|
                    0 <= k < e implies #[trigger] s.subrange(d + lo + 16, d + lo + 16 + e)[k]
                    == t.subrange(lo + 16, lo + 16 + e)[k] by {
                    assert(s[d + (lo + 16 + k)] == t[lo + 16 + k]);
                }
            }
        }
        assert((d + lo) + 24 == d + (lo + 24));
    }
}

/// Parsing splits at any frame boundary: the frames of a window are the
/// frames before a 24-byte-aligned cut followed by the frames after it.
pub proof fn lemma_frames_in_split(s: Seq<u8>, lo: int, mid: int, hi: int)
    requires
        0 <= lo <= mid <= hi <= s.len(),
        (mid - lo) % 24 == 0,
    ensures
        spec_frames_in(s, lo, hi) == spec_frames_in(s, lo, mid) + spec_frames_in(s, mid, hi),
    decreases mid - lo,
{
    if mid == lo {
        assert(spec_frames_in(s, lo, mid) =~= Seq::<SpecFrame>::empty());
        assert(Seq::<SpecFrame>::empty() + spec_frames_in(s, mid, hi) =~= spec_frames_in(
            s,
            mid,
            hi,
        ));
    } else {
        assert(lo + 24 <= mid) by {
            assert((mid - lo) % 24 == 0 && mid - lo > 0);
            if mid - lo < 24 {
                assert((mid - lo) % 24 == mid - lo);
            }
        }
        assert(((mid - (lo + 24)) % 24) == 0) by {
            assert(mid - (lo + 24) == (mid - lo) - 24);
            assert(((mid - lo) - 24) % 24 == (mid - lo) % 24) by {
                vstd::arithmetic::div_mod::lemma_mod_sub_multiples_vanish(mid - lo, 24);
            }
        }
        lemma_frames_in_split(s, lo + 24, mid, hi);
        let f = spec_frame_at(s, lo);
        if f.dlc <= 8 {
            assert(seq![f] + (spec_frames_in(s, lo + 24, mid) + spec_frames_in(s, mid, hi))
                =~= (seq![f] + spec_frames_in(s, lo + 24, mid)) + spec_frames_in(s, mid, hi));
        }
    }
}

/// Encodes a list of well-formed frames as their concatenated 24-byte wire
/// records. Framing round-trips: parsing the result yields exactly the wire
/// image of the input frames.
pub fn encode_frames(frames: &Vec<CanFrame>) -> (r: Vec<u8>)
    requires
        forall|k: int| 0 <= k < frames@.len() ==> (#[trigger] frames@[k]).wf(),
        frames@.len() * 24 <= usize::MAX,
    ensures
        r@.len() == frames@.len() * 24,
        spec_frames_in(r@, 0, r@.len() as int) == frames@.map_values(
            |f: CanFrame| spec_wire_frame(f),
        ),
{
    let ghost expected = frames@.map_values(|f: CanFrame| spec_wire_frame(f));
    let mut r: Vec<u8> = Vec::new();
    let mut i: usize = 0;
    while i < frames.len()
        invariant
            i <= frames@.len(),
            frames@.len() * 24 <= usize::MAX,
            expected == frames@.map_values(|f: CanFrame| spec_wire_frame(f)),
            forall|k: int| 0 <= k < frames@.len() ==> (#[trigger] frames@[k]).wf(),
            r@.len() == i * 24,
            spec_frames_in(r@, 0, r@.len() as int) == expected.take(i as int),
        decreases frames@.len() - i,
    {
        proof {
            assert(i * 24 + 24 <= frames@.len() * 24) by (nonlinear_arith)
                requires
                    i < frames@.len(),
            ;
        }
        let ghost before = r@;
        let enc = encode_frame(&frames[i]);
        let mut k: usize = 0;
        while k < enc.len()
            invariant
                k <= enc@.len(),
                r@.len() == before.len() + k,
                r@.subrange(0, before.len() as int) =~= before,
                forall|j: int|
                    before.len() <= j < before.len() + k ==> #[trigger] r@[j] == enc@[j
                        - before.len()],
            decreases enc@.len() - k,
        {
            r.push(enc[k]);
            proof {
                assert(r@.subrange(0, before.len() as int) =~= before);
            }
            k = k + 1;
        }
        proof {
            let n = before.len() as int;
            assert(forall|j: int| 0 <= j < n ==> r@[j] == before[j]);
            lemma_frames_in_prefix(before, r@, 0, n);
            assert((n - 0) % 24 == 0) by {
                assert(n == i * 24);
                assert((i * 24) % 24 == 0) by (nonlinear_arith);
            }
            lemma_frames_in_split(r@, 0, n, r@.len() as int);
            assert(spec_frames_in(r@, 0, n) == expected.take(i as int));
            assert(forall|j: int| n <= j < n + 24 ==> #[trigger] r@[j] == enc@[j - n]);
            assert(spec_frame_at(r@, n) =~= spec_frame_at(enc@, 0)) by {
                assert(be_u64_of(r@, n) == be_u64_of(enc@, 0));
                assert(be_u32_of(r@, n + 8) == be_u32_of(enc@, 8));
                assert(r@[n + 12] == enc@[12]);
                assert(r@.subrange(n + 13, n + 16) =~= enc@.subrange(13, 16));
                assert(r@.subrange(n + 16, n + 16 + crate::data_layer::effective_len(r@[n + 12]))
                    =~= enc@.subrange(16, 16 + crate::data_layer::effective_len(enc@[12])));
            }
            assert(spec_frames_in(r@, n, r@.len() as int) =~= seq![spec_frame_at(r@, n)]) by {
                assert(spec_frames_in(r@, n + 24, r@.len() as int) =~= Seq::<SpecFrame>::empty());
                assert(r@[n + 12] == enc@[12]);
                assert(spec_frame_at(r@, n).dlc == frames@[i as int].dlc);
            }
            assert(spec_frames_in(r@, 0, r@.len() as int) =~= expected.take(i as int) + seq![
                expected[i as int],
            ]);
            assert(expected.take(i as int) + seq![expected[i as int]] =~= expected.take(i + 1));
        }
        i = i + 1;
    }
    proof {
        assert(expected.take(frames@.len() as int) =~= expected);
    }
    r
}

/// Counters over generated files.
#[derive(Clone, Copy, Debug, PartialEq, Eq)]
pub struct TestDataStats {
    /// Files whose structure checked out.
    pub valid_files: usize,
    /// Files that did not.
    pub invalid_files: usize,
    /// Bytes over all checked files.
    pub total_size: u64,
}

/// Structure checks over generated files.
pub struct TestDataValidator;

impl TestDataValidator {
    /// Whether a generated file's bytes are structurally sound: at least a
    /// 35-byte header, the expected magic, and a whole declared payload.
    pub fn validate_file_bytes(buffer: &[u8]) -> (r: bool)
        ensures
            r == (buffer@.len() >= 35 && buffer@.subrange(0, 8) =~= candata_magic() && 35
                + be_u32_of(buffer@, 31) <= buffer@.len()),
    {
        if buffer.len() < 35 {
            return false;
        }
        let magic_ok = buffer[0] == 0x43 && buffer[1] == 0x41 && buffer[2] == 0x4e && buffer[3]
            == 0x44 && buffer[4] == 0x41 && buffer[5] == 0x54 && buffer[6] == 0x41 && buffer[7]
            == 0;
        proof {
            if magic_ok {
                assert(buffer@.subrange(0, 8) =~= candata_magic());
            } else {
                assert(!(buffer@.subrange(0, 8) =~= candata_magic()));
            }
        }
        if !magic_ok {
            return false;
        }
        let compressed_length = crate::bytes_be::read_be_u32(buffer, 31) as usize;
        compressed_length <= buffer.len() - 35
    }
}

/// The ASCII bytes of the generated file magic, `CANDATA` and one zero.
pub open spec fn candata_magic() -> Seq<u8> {
    seq![0x43u8, 0x41u8, 0x4eu8, 0x44u8, 0x41u8, 0x54u8, 0x41u8, 0u8]
}

/// The wire-format generator.
pub struct TestDataGenerator {
    /// Configuration.
    config: TestDataConfig,
}

impl TestDataGenerator {
    /// A generator with the given configuration.
    pub fn new(config: TestDataConfig) -> (r: TestDataGenerator)
        ensures
            r.spec_config() == config,
    {
        TestDataGenerator { config }
    }

    /// The generator's configuration.
    pub closed spec fn spec_config(self) -> TestDataConfig {
        self.config
    }

    /// The generator's configuration.
    pub fn config(&self) -> (r: &TestDataConfig)
        ensures
            r == self.spec_config(),
    {
        &self.config
    }

    /// Builds the 35-byte file header: the magic, version 1, the file
    /// index, a timestamp one hour apart per file, a zero checksum, three
    /// reserved zero bytes, and the compressed payload length.
    pub fn generate_file_header(&self, file_index: usize, compressed_data_size: usize) -> (r: Vec<
        u8,
    >)
        requires
            file_index <= u32::MAX,
            compressed_data_size <= u32::MAX,
        ensures
            r@.len() == 35,
            r@.subrange(0, 8) == candata_magic(),
            be_u32_of(r@, 31) == compressed_data_size,
            be_u64_of(r@, 16) == 1640995200 + file_index * 3600,
            be_u32_of(r@, 12) == file_index,
    {
        let mut r: Vec<u8> = Vec::new();
        r.push(0x43);
        r.push(0x41);
        r.push(0x4e);
        r.push(0x44);
        r.push(0x41);
        r.push(0x54);
        r.push(0x41);
        r.push(0);
        push_be_u32(&mut r, 1);
        push_be_u32(&mut r, file_index as u32);
        let timestamp: u64 = 1640995200 + (file_index as u64) * 3600;
        push_be_u64(&mut r, timestamp);
        push_be_u32(&mut r, 0);
        r.push(0);
        r.push(0);
        r.push(0);
        push_be_u32(&mut r, compressed_data_size as u32);
        proof {
            assert(r@.subrange(0, 8) =~= candata_magic());
        }
        r
    }

    /// Builds the 20-byte chunk header: the `FRAM` tag, version 2, the
    /// frame count, the file index, and the body length.
    pub fn generate_layer2_header(&self, file_index: usize, frame_count: u32, body_len: u32) -> (r:
        Vec<u8>)
        requires
            file_index <= u32::MAX,
        ensures
            r@.len() == 20,
            r@.subrange(0, 4) == fram_tag(),
            be_u32_of(r@, 4) == 2,
            be_u32_of(r@, 8) == frame_count,
            be_u32_of(r@, 12) == file_index,
            be_u32_of(r@, 16) == body_len,
    {
        let mut r: Vec<u8> = Vec::new();
        r.push(0x46);
        r.push(0x52);
        r.push(0x41);
        r.push(0x4d);
        push_be_u32(&mut r, 2);
        push_be_u32(&mut r, frame_count);
        push_be_u32(&mut r, file_index as u32);
        push_be_u32(&mut r, body_len);
        proof {
            assert(r@.subrange(0, 4) =~= fram_tag());
        }
        r
    }

    /// Builds the 16-byte sequence header: the sequence's bus version, its
    /// timestamp, and its body length.
    pub fn generate_sequence_header(&self, sequence_id: u32, timestamp: u64, body_len: u32) -> (r:
        Vec<u8>)
        ensures
            r@.len() == 16,
            be_u32_of(r@, 0) == sequence_id,
            be_u64_of(r@, 4) == timestamp,
            be_u32_of(r@, 12) == body_len,
    {
        let mut r: Vec<u8> = Vec::new();
        push_be_u32(&mut r, sequence_id);
        push_be_u64(&mut r, timestamp);
        push_be_u32(&mut r, body_len);
        r
    }

    /// Generates one frame for a named electronic control unit: the unit
    /// index picks the identifier kind, the rest is derived from the seed.
    pub fn generate_ecu_specific_frame(&self, ecu_index: usize, timestamp: u64, frame_idx: usize)
        -> (r: CanFrame)
        ensures
            r.wf(),
            r.timestamp == timestamp,
    {
        let frame_type = match ecu_index % 8 {
            0 => if frame_idx % 3 == 0 {
                CanFrameType::Extended
            } else {
                CanFrameType::Standard
            },
            1 => if frame_idx % 2 == 0 {
                CanFrameType::Standard
            } else {
                CanFrameType::Extended
            },
            7 => CanFrameType::Extended,
            _ => CanFrameType::Standard,
        };
        CanFrame::generate_realistic_vehicle_frame(timestamp, frame_type)
    }

    /// Builds one short frame sequence body at one-second steps from a base
    /// timestamp derived from the file and sequence indices.
    pub fn generate_single_frame_sequence(
        &self,
        file_index: usize,
        seq_idx: usize,
        frame_count: usize,
    ) -> (r: Vec<u8>)
        requires
            file_index <= 0xFFFF,
            seq_idx <= 0xFFFF,
            frame_count * 24 <= usize::MAX,
        ensures
            r@.len() == frame_count * 24,
    {
        let base_timestamp: u64 = 1640995200 + (file_index as u64) * 3600 + (seq_idx as u64) * 360;
        let mut frames: Vec<CanFrame> = Vec::new();
        let mut k: usize = 0;
        while k < frame_count
            invariant
                k <= frame_count,
                frames@.len() == k,
                base_timestamp <= 0xFFFFFFFF,
                forall|j: int| 0 <= j < k ==> (#[trigger] frames@[j]).wf(),
            decreases frame_count - k,
        {
            let timestamp: u64 = base_timestamp + (k as u64) % 0x10000000000;
            let frame_type = if k % 2 == 0 {
                CanFrameType::Standard
            } else {
                CanFrameType::Extended
            };
            frames.push(CanFrame::generate_realistic_vehicle_frame(timestamp, frame_type));
            k = k + 1;
        }
        encode_frames(&frames)
    }

    /// Builds the whole decompressed content of one file: a 20-byte chunk
    /// header followed by twenty frame sequences, each with its 16-byte
    /// header and its frames.
    pub fn generate_frame_sequences(&self, file_index: usize) -> (r: Vec<u8>)
        requires
            file_index <= 0xFFFF,
            self.spec_config().frames_per_file <= 0x100000,
        ensures
            r@.len() >= 20,
            r@.subrange(0, 4) == fram_tag(),
    {
        let frames_per_file = self.config.frames_per_file;
        let sequences_count: usize = 20;
        let frames_per_sequence = frames_per_file / sequences_count;
        let mut body: Vec<u8> = Vec::new();
        let mut seq_idx: usize = 0;
        while seq_idx < sequences_count
            invariant
                seq_idx <= 20,
                sequences_count == 20,
                file_index <= 0xFFFF,
                frames_per_sequence <= 0x100000,
                body@.len() <= seq_idx * (16 + 24 * 0x100000),
            decreases sequences_count - seq_idx,
        {
            let sequence_data = self.generate_realistic_frame_sequence(
                file_index,
                seq_idx,
                frames_per_sequence,
            );
            let seq_timestamp: u64 = 1640995200 + (file_index as u64) * 3600 + (seq_idx as u64)
                * 360;
            let header = self.generate_sequence_header(
                seq_idx as u32,
                seq_timestamp,
                sequence_data.len() as u32,
            );
            let ghost body_before = body@;
            let mut k: usize = 0;
            while k < header.len()
                invariant
                    k <= header@.len(),
                    header@.len() == 16,
                    body@.len() == body_before.len() + k,
                decreases header@.len() - k,
            {
                body.push(header[k]);
                k = k + 1;
            }
            let mut m: usize = 0;
            while m < sequence_data.len()
                invariant
                    m <= sequence_data@.len(),
                    sequence_data@.len() <= 24 * 0x100000,
                    body@.len() == body_before.len() + 16 + m,
                decreases sequence_data@.len() - m,
            {
                body.push(sequence_data[m]);
                m = m + 1;
            }
            proof {
                assert(body@.len() <= (seq_idx + 1) * (16 + 24 * 0x100000)) by (nonlinear_arith)
                    requires
                        body@.len() <= seq_idx * (16 + 24 * 0x100000) + 16 + 24 * 0x100000,
                        0 <= seq_idx,
                ;
            }
            seq_idx = seq_idx + 1;
        }
        let mut out = self.generate_layer2_header(
            file_index,
            frames_per_file as u32,
            body.len() as u32,
        );
        let ghost header_view = out@;
        let mut k: usize = 0;
        while k < body.len()
            invariant
                k <= body@.len(),
                out@.len() == 20 + k,
                out@.subrange(0, 4) == header_view.subrange(0, 4),
                header_view.subrange(0, 4) == fram_tag(),
            decreases body@.len() - k,
        {
            out.push(body[k]);
            proof {
                assert(out@.subrange(0, 4) =~= header_view.subrange(0, 4));
            }
            k = k + 1;
        }
        out
    }

    /// Builds the bytes of one whole capture file: the 35-byte header, the
    /// gzip-compressed chunk content, and zero padding up to the target
    /// size. The declared payload length names exactly the compressed
    /// bytes, which decompress back to the chunk content.
    pub fn generate_single_file_bytes(&self, file_index: usize) -> (r: Result<
        Vec<u8>,
        crate::data_layer::ParseError,
    >)
        requires
            file_index <= 0xFFFF,
            self.spec_config().frames_per_file <= 0x100000,
        ensures
            r matches Ok(v) ==> v@.len() >= 35 && v@.subrange(0, 8) == candata_magic() && 35
                + crate::bytes_be::be_u32_of(v@, 31) <= v@.len() && (gunzip_of(
                v@.subrange(35, 35 + crate::bytes_be::be_u32_of(v@, 31)),
            ) matches Some(dec) && dec.subrange(0, 4) == fram_tag()),
    {
        let raw = self.generate_frame_sequences(file_index);
        let compressed = crate::parser::compress_payload(raw.as_slice());
        if compressed.len() > u32::MAX as usize {
            return Err(crate::data_layer::ParseError::ConfigError);
        }
        let mut out = self.generate_file_header(file_index, compressed.len());
        let ghost header_view = out@;
        let ghost comp_view = compressed@;
        let mut k: usize = 0;
        while k < compressed.len()
            invariant
                k <= comp_view.len(),
                compressed@ == comp_view,
                out@.len() == 35 + k,
                out@.subrange(0, 35) == header_view,
                forall|j: int| 35 <= j < 35 + k ==> #[trigger] out@[j] == comp_view[j - 35],
            decreases comp_view.len() - k,
        {
            out.push(compressed[k]);
            proof {
                assert(out@.subrange(0, 35) =~= header_view);
            }
            k = k + 1;
        }
        proof {
            assert(out@.subrange(35, 35 + comp_view.len() as int) =~= comp_view);
            assert(out@.subrange(0, 8) =~= header_view.subrange(0, 8));
        }
        let ghost before_pad = out@;
        let target = self.config.target_file_size;
        while out.len() < target
            invariant
                out@.len() >= before_pad.len(),
                out@.subrange(0, before_pad.len() as int) == before_pad,
            decreases target - out@.len(),
        {
            out.push(0);
            proof {
                assert(out@.subrange(0, before_pad.len() as int) =~= before_pad);
            }
        }
        proof {
            assert(out@.subrange(0, 8) =~= before_pad.subrange(0, 8));
            assert(out@.subrange(0, 35) =~= before_pad.subrange(0, 35));
            assert(out@.subrange(35, 35 + comp_view.len() as int) =~= before_pad.subrange(
                35,
                35 + comp_view.len() as int,
            ));
            assert(crate::bytes_be::be_u32_of(out@, 31) == crate::bytes_be::be_u32_of(
                before_pad,
                31,
            ));
        }
        Ok(out)
    }

    /// Encodes well-formed frames as one whole capture file — one outer
    /// block holding one chunk holding one sequence — and carries the
    /// whole-format round trip: parsing the file yields exactly one entry,
    /// under the given serial and a `FRAM` chunk, whose single sequence
    /// holds the wire image of the frames.
    pub fn encode_single_sequence_file(
        &self,
        serial: &Vec<u8>,
        sequence_id: u32,
        sequence_timestamp: u64,
        frames: &Vec<CanFrame>,
    ) -> (r: Result<Vec<u8>, crate::data_layer::ParseError>)
        requires
            serial@.len() == 18,
            forall|k: int| 0 <= k < frames@.len() ==> (#[trigger] frames@[k]).wf(),
            frames@.len() * 24 + 16 <= u32::MAX,
        ensures
            r matches Ok(file) ==> ({
                let parsed = crate::parser::spec_blocks_in(file@, 0);
                &&& parsed.len() == 1
                &&& parsed[0].serial == serial@
                &&& parsed[0].chunk_header.data_type == fram_tag()
                &&& parsed[0].sequences == seq![
                    crate::parser::SpecSequenceData {
                        sequence_id,
                        timestamp: sequence_timestamp,
                        data_length: (frames@.len() * 24) as u32,
                        frames: frames@.map_values(|f: CanFrame| spec_wire_frame(f)),
                    },
                ]
            }),
    {
        proof {
            assert(frames@.len() <= frames@.len() * 24) by (nonlinear_arith)
                requires
                    frames@.len() >= 0,
            ;
        }
        let mut body = encode_frames(frames);
        let ghost body_view = body@;
        let body_len = body.len();
        let mut seq_bytes = self.generate_sequence_header(
            sequence_id,
            sequence_timestamp,
            body_len as u32,
        );
        let ghost seq_hdr_view = seq_bytes@;
        seq_bytes.append(&mut body);
        let ghost seq_view = seq_bytes@;
        let seq_len = seq_bytes.len();
        let mut chunk = self.generate_layer2_header(0, frames.len() as u32, seq_len as u32);
        let ghost chunk_hdr_view = chunk@;
        chunk.append(&mut seq_bytes);
        let ghost dec = chunk@;
        let mut comp = crate::parser::compress_payload(chunk.as_slice());
        let ghost comp_view = comp@;
        if comp.len() > 0xFFFFFFDC {
            return Err(crate::data_layer::ParseError::ConfigError);
        }
        let cl = comp.len();
        let mut file = crate::data_layer::clone_bytes(serial);
        let mut z: usize = 0;
        while z < 13
            invariant
                z <= 13,
                file@.len() == 18 + z,
                file@.subrange(0, 18) == serial@,
            decreases 13 - z,
        {
            file.push(0);
            proof {
                assert(file@.subrange(0, 18) =~= serial@);
            }
            z = z + 1;
        }
        push_be_u32(&mut file, cl as u32);
        proof {
            assert(file@.subrange(0, 18) =~= serial@);
            assert(be_u32_of(file@, 31) == cl);
        }
        let ghost header_view = file@;
        file.append(&mut comp);
        proof {
            let fv = file@;
            assert(fv.len() == 35 + cl);
            assert(fv.subrange(0, 18) =~= serial@);
            assert(be_u32_of(fv, 31) == be_u32_of(header_view, 31));
            assert(fv.subrange(35, 35 + cl as int) =~= comp_view);
            assert(gunzip_of(fv.subrange(35, 35 + cl as int)) == Some(dec));

            // the chunk: one FRAM header over one whole sequence
            assert(dec.len() == 20 + seq_len);
            assert(seq_len == 16 + body_len);
            let hdr = crate::data_layer::spec_chunk_header_at(dec, 0);
            assert(hdr.data_type =~= fram_tag()) by {
                assert(dec.subrange(0, 4) =~= chunk_hdr_view.subrange(0, 4));
            }
            assert(be_u32_of(dec, 16) == be_u32_of(chunk_hdr_view, 16));
            assert(hdr.data_length == seq_len);

            // the sequence: its header fields and its frames
            assert(be_u32_of(dec, 20) == be_u32_of(seq_view, 0));
            assert(be_u64_of(dec, 24) == be_u64_of(seq_view, 4));
            assert(be_u32_of(dec, 32) == be_u32_of(seq_view, 12));
            assert(be_u32_of(seq_view, 0) == be_u32_of(seq_hdr_view, 0));
            assert(be_u64_of(seq_view, 4) == be_u64_of(seq_hdr_view, 4));
            assert(be_u32_of(seq_view, 12) == be_u32_of(seq_hdr_view, 12));
            assert forall|i: int| 0 <= i < body_len implies #[trigger] dec[36 + i]
                == body_view[i] by {
                assert(dec[36 + i] == seq_view[16 + i]);
                assert(seq_view[16 + i] == body_view[i]);
            }
            lemma_frames_in_shift(dec, body_view, 36, 0, body_len as int);
            let sequence = crate::parser::SpecSequenceData {
                sequence_id,
                timestamp: sequence_timestamp,
                data_length: (frames@.len() * 24) as u32,
                frames: frames@.map_values(|f: CanFrame| spec_wire_frame(f)),
            };
            assert(crate::parser::spec_sequences_in(dec, 20, 20 + seq_len as int)
                == seq![sequence] + crate::parser::spec_sequences_in(
                dec,
                20 + seq_len as int,
                20 + seq_len as int,
            )) by {
                assert(spec_frames_in(dec, 36, 36 + body_len as int) == spec_frames_in(
                    body_view,
                    0,
                    body_len as int,
                ));
            }
            assert(crate::parser::spec_sequences_in(dec, 20 + seq_len as int, 20 + seq_len as int)
                =~= Seq::<crate::parser::SpecSequenceData>::empty());
            assert(seq![sequence] + Seq::<crate::parser::SpecSequenceData>::empty()
                =~= seq![sequence]);
            let chunk_data = crate::parser::SpecChunkData { header: hdr, sequences: seq![sequence] };
            assert(crate::parser::spec_chunks_in(dec, 0) == seq![chunk_data]
                + crate::parser::spec_chunks_in(dec, 20 + seq_len as int));
            assert(crate::parser::spec_chunks_in(dec, 20 + seq_len as int) =~= Seq::<
                crate::parser::SpecChunkData,
            >::empty());
            assert(seq![chunk_data] + Seq::<crate::parser::SpecChunkData>::empty()
                =~= seq![chunk_data]);

            // the whole file: exactly one block, then nothing
            assert(crate::parser::spec_blocks_in(fv, 35 + cl as int) =~= Seq::<
                crate::parser::SpecParsedFile,
            >::empty());
            assert(crate::parser::spec_blocks_in(fv, 0)
                == crate::parser::spec_block_files(
                fv.subrange(0, 18),
                (cl as u32),
                crate::parser::spec_chunks_in(dec, 0),
            ) + Seq::<crate::parser::SpecParsedFile>::empty());
            assert(crate::parser::spec_block_files(
                fv.subrange(0, 18),
                (cl as u32),
                seq![chunk_data],
            ) =~= seq![crate::parser::spec_file_entry(fv.subrange(0, 18), cl as u32, chunk_data)]);
            assert(crate::parser::spec_blocks_in(fv, 0) =~= seq![
                crate::parser::spec_file_entry(serial@, cl as u32, chunk_data),
            ]);
        }
        Ok(file)
    }

    /// Builds one frame sequence body: `frame_count` frames generated at
    /// 10-millisecond intervals from the base timestamp, each of a kind
    /// chosen from its index.
    pub fn generate_realistic_frame_sequence(
        &self,
        file_index: usize,
        seq_idx: usize,
        frame_count: usize,
    ) -> (r: Vec<u8>)
        requires
            file_index <= 0xFFFF,
            seq_idx <= 0xFFFF,
            frame_count * 24 <= usize::MAX,
        ensures
            r@.len() == frame_count * 24,
    {
        let base_timestamp: u64 = (file_index as u64) * 1000000 + (seq_idx as u64) * 100000;
        let mut frames: Vec<CanFrame> = Vec::new();
        let mut k: usize = 0;
        while k < frame_count
            invariant
                k <= frame_count,
                frames@.len() == k,
                file_index <= 0xFFFF,
                seq_idx <= 0xFFFF,
                base_timestamp == file_index * 1000000 + seq_idx * 100000,
                forall|j: int| 0 <= j < k ==> (#[trigger] frames@[j]).wf(),
            decreases frame_count - k,
        {
            let timestamp: u64 = base_timestamp + (k as u64) % 0x10000000000 * 10000;
            let frame_type = if k % 3 == 0 {
                CanFrameType::Extended
            } else {
                CanFrameType::Standard
            };
            let frame = CanFrame::generate_realistic_vehicle_frame(timestamp, frame_type);
            frames.push(frame);
            k = k + 1;
        }
        let r = encode_frames(&frames);
        r
    }
}

} // verus!
