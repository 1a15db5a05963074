//! Wire protocol between the clients and the daemon.
//!
//! A frame is a tag, the length of the payload in four bytes, most significant
//! first, and the payload.
use vstd::prelude::*;
use vstd::slice::slice_subrange;
use vstd::string::*;
use vstd::utf8::encode_utf8;
use crate::decimal::Decimal;
use crate::encoder::{StreamSummary, SummaryView};
use crate::text::{decoded, text_of_bytes};

verus! {

/// The payload is a control message in JSON.
pub const TAG_CTRL: u8 = 1;

/// The payload is a request number and the bytes asked for (client to daemon).
pub const TAG_BLOCK: u8 = 2;

/// The payload is a job's name and bytes of its result (daemon to client).
pub const TAG_RESULT: u8 = 3;

/// No frame has a longer payload.
pub const MAX_FRAME: usize = 67_108_864;

// ---------------------------------------------------------------- numbers as bytes
/// A number in `n` bytes, most significant first; what does not fit is cut off.
pub open spec fn be_bytes(v: int, n: nat) -> Seq<u8>
    decreases n,
{
    if n == 0 {
        Seq::empty()
    } else {
        be_bytes(v / 256, (n - 1) as nat).push((v % 256) as u8)
    }
}

/// The number that bytes write down, most significant first.
pub open spec fn be_value(b: Seq<u8>) -> int
    decreases b.len(),
{
    if b.len() == 0 {
        0
    } else {
        be_value(b.drop_last()) * 256 + b.last()
    }
}

/// 256 to the power `n`.
pub open spec fn pow256(n: nat) -> int
    decreases n,
{
    if n == 0 {
        1
    } else {
        256 * pow256((n - 1) as nat)
    }
}

/// Bytes of a number that fits write the number down again.
pub proof fn number_reads_back(v: int, n: nat)
    requires
        0 <= v < pow256(n),
    ensures
        be_bytes(v, n).len() == n,
        be_value(be_bytes(v, n)) == v,
    decreases n,
{
    if n > 0 {
        assert(v / 256 < pow256((n - 1) as nat)) by (nonlinear_arith)
            requires
                v < 256 * pow256((n - 1) as nat),
        ;
        number_reads_back(v / 256, (n - 1) as nat);
        assert(be_bytes(v, n).drop_last() =~= be_bytes(v / 256, (n - 1) as nat));
    }
}

proof fn lemma_be_len(v: int, n: nat)
    ensures
        be_bytes(v, n).len() == n,
    decreases n,
{
    if n > 0 {
        lemma_be_len(v / 256, (n - 1) as nat);
    }
}

proof fn lemma_be_value_bound(b: Seq<u8>)
    ensures
        0 <= be_value(b) < pow256(b.len()),
    decreases b.len(),
{
    if b.len() > 0 {
        lemma_be_value_bound(b.drop_last());
    }
}

fn push_be(out: &mut Vec<u8>, v: u64, n: u8)
    ensures
        final(out)@ == old(out)@ + be_bytes(v as int, n as nat),
    decreases n,
{
    let ghost before = out@;
    if n > 0 {
        push_be(out, v / 256, n - 1);
        out.push((v % 256) as u8);
    }
    assert(out@ =~= before + be_bytes(v as int, n as nat));
}

fn read_be(b: &[u8], from: usize, n: usize) -> (r: u64)
    requires
        from + n <= b@.len(),
        n <= 8,
    ensures
        r == be_value(b@.subrange(from as int, from + n)),
{
    let mut v: u64 = 0;
    let mut i: usize = 0;
    let len = b.len();
    proof {
        reveal_with_fuel(pow256, 9);
    }
    while i < n
        invariant
            i <= n <= 8,
            len == b@.len(),
            from + n <= b@.len(),
            v == be_value(b@.subrange(from as int, from + i)),
            i == 0 ==> v < pow256(0),
            v < pow256(i as nat),
            forall|k: nat| k < 8 ==> #[trigger] pow256(k) <= 0x100_0000_0000_0000,
        decreases n - i,
    {
        let ghost next = b@.subrange(from as int, from + i + 1);
        assert(next.drop_last() =~= b@.subrange(from as int, from + i));
        assert(v <= 0x100_0000_0000_0000 - 1) by {
            assert(pow256(i as nat) <= 0x100_0000_0000_0000);
        }
        v = v * 256 + b[from + i] as u64;
        i += 1;
        proof {
            lemma_be_value_bound(next);
        }
    }
    v
}

// ---------------------------------------------------------------- frames
/// A frame as it goes over the wire.
pub open spec fn frame(tag: u8, payload: Seq<u8>) -> Seq<u8> {
    seq![tag] + be_bytes(payload.len() as int, 4) + payload
}

/// Why no frame could be read.
#[derive(Clone, Copy, PartialEq, Eq, Structural, Debug)]
pub enum FrameError {
    /// The bytes end before the frame does.
    Truncated,
    /// The payload is longer than any frame's may be.
    TooLarge,
}

/// The first frame in some bytes: its tag, its payload and its whole length.
pub open spec fn first_frame(b: Seq<u8>) -> Result<(u8, Seq<u8>, int), FrameError> {
    if b.len() < 5 {
        Err(FrameError::Truncated)
    } else {
        let n = be_value(b.subrange(1, 5));
        if n > MAX_FRAME {
            Err(FrameError::TooLarge)
        } else if b.len() < 5 + n {
            Err(FrameError::Truncated)
        } else {
            Ok((b[0], b.subrange(5, 5 + n), 5 + n))
        }
    }
}

/// Appends a frame.
pub fn write_frame(w: &mut Vec<u8>, tag: u8, payload: &[u8])
    ensures
        final(w)@ == old(w)@ + frame(tag, payload@),
{
    w.push(tag);
    push_be(w, payload.len() as u64, 4);
    w.extend_from_slice(payload);
    assert(w@ =~= old(w)@ + frame(tag, payload@));
}

/// Reads the first frame.
pub fn read_frame(r: &[u8]) -> (f: Result<(u8, Vec<u8>, usize), FrameError>)
    ensures
        match f {
            Ok((tag, payload, used)) => first_frame(r@) == Ok::<_, FrameError>(
                (tag, payload@, used as int),
            ),
            Err(e) => first_frame(r@) == Err::<(u8, Seq<u8>, int), _>(e),
        },
{
    if r.len() < 5 {
        return Err(FrameError::Truncated);
    }
    let n: u64 = read_be(r, 1, 4);
    if n > MAX_FRAME as u64 {
        return Err(FrameError::TooLarge);
    }
    let n: usize = n as usize;
    if r.len() - 5 < n {
        return Err(FrameError::Truncated);
    }
    let mut payload: Vec<u8> = Vec::new();
    payload.extend_from_slice(slice_subrange(r, 5, 5 + n));
    assert(payload@ =~= r@.subrange(5, 5 + n));
    Ok((r[0], payload, 5 + n))
}

/// Appends a control message, already in JSON.
pub fn write_json(w: &mut Vec<u8>, json: &[u8])
    ensures
        final(w)@ == old(w)@ + frame(TAG_CTRL, json@),
{
    write_frame(w, TAG_CTRL, json);
}

// ---------------------------------------------------------------- blocks
/// The payload of a block.
pub open spec fn block_payload(req_id: u64, data: Seq<u8>) -> Seq<u8> {
    be_bytes(req_id as int, 8) + data
}

/// The request number and the bytes of a block.
pub open spec fn block_in(payload: Seq<u8>) -> Option<(int, Seq<u8>)> {
    if payload.len() < 8 {
        None
    } else {
        Some((be_value(payload.take(8)), payload.skip(8)))
    }
}

/// Appends a block, the reply to a request.
pub fn write_block(w: &mut Vec<u8>, req_id: u64, data: &[u8])
    ensures
        final(w)@ == old(w)@ + frame(TAG_BLOCK, block_payload(req_id, data@)),
{
    let mut payload: Vec<u8> = Vec::new();
    push_be(&mut payload, req_id, 8);
    payload.extend_from_slice(data);
    assert(payload@ =~= block_payload(req_id, data@));
    write_frame(w, TAG_BLOCK, payload.as_slice());
}

/// Takes a block's payload apart.
pub fn parse_block(payload: &[u8]) -> (r: Option<(u64, &[u8])>)
    ensures
        match r {
            Some((id, data)) => block_in(payload@) == Some((id as int, data@)),
            None => block_in(payload@) is None,
        },
{
    if payload.len() < 8 {
        return None;
    }
    let id = read_be(payload, 0, 8);
    assert(payload@.subrange(0, 8) =~= payload@.take(8));
    let n = payload.len();
    let data = slice_subrange(payload, 8, n);
    assert(data@ =~= payload@.skip(8));
    Some((id, data))
}

// ---------------------------------------------------------------- results
/// The payload of a piece of a result.
pub open spec fn result_payload(job_id: Seq<char>, data: Seq<u8>) -> Seq<u8> {
    be_bytes(encode_utf8(job_id).len() as int, 2) + encode_utf8(job_id) + data
}

/// The job's name and the bytes of a piece of a result.
pub open spec fn result_in(payload: Seq<u8>) -> Option<(Seq<char>, Seq<u8>)> {
    let n = be_value(payload.take(2));
    if payload.len() < 2 || payload.len() < 2 + n {
        None
    } else {
        Some((decoded(payload.subrange(2, 2 + n)), payload.skip(2 + n)))
    }
}

/// Appends a piece of a result file.
pub fn write_result(w: &mut Vec<u8>, job_id: &str, data: &[u8])
    ensures
        final(w)@ == old(w)@ + frame(TAG_RESULT, result_payload(job_id@, data@)),
{
    let jid = job_id.as_bytes();
    let mut payload: Vec<u8> = Vec::new();
    push_be(&mut payload, jid.len() as u64, 2);
    payload.extend_from_slice(jid);
    payload.extend_from_slice(data);
    assert(payload@ =~= result_payload(job_id@, data@));
    write_frame(w, TAG_RESULT, payload.as_slice());
}

/// Takes the payload of a piece of a result apart.
pub fn parse_result(payload: &[u8]) -> (r: Option<(String, &[u8])>)
    ensures
        match r {
            Some((id, data)) => result_in(payload@) == Some((id@, data@)),
            None => result_in(payload@) is None,
        },
{
    if payload.len() < 2 {
        return None;
    }
    let n: usize = read_be(payload, 0, 2) as usize;
    proof {
        assert(payload@.subrange(0, 2) =~= payload@.take(2));
        lemma_be_value_bound(payload@.take(2));
        reveal_with_fuel(pow256, 3);
    }
    if payload.len() - 2 < n {
        return None;
    }
    let id = text_of_bytes(slice_subrange(payload, 2, 2 + n));
    let end = payload.len();
    let data = slice_subrange(payload, 2 + n, end);
    assert(data@ =~= payload@.skip(2 + n));
    Some((id, data))
}

// ---------------------------------------------------------------- messages
/// What a client says to the daemon.
pub enum C2D {
    Hello { token: String, name: String },
    Submit {
        job_id: String,
        filename: String,
        size: u64,
        /// 1 is centered, 2 is one third, anything else is no crop.
        crop: u8,
        /// H264, H265 or AV1.
        codec: String,
        /// p1 to p7.
        preset: String,
        bitrate_idx: usize,
        /// Set where the daemon is to read the file from its own disk.
        local_path: Option<String>,
    },
    Cancel { job_id: String },
    SetParallel { n: usize },
    Key { job_id: String, key: String },
}

/// A stream summary as it goes over the wire.
pub struct SummaryDto {
    pub dur: String,
    pub dur_sec: Decimal,
    pub v_codec: String,
    pub v_res: String,
    pub v_fps: String,
    pub v_bits: String,
    pub v_fmt: String,
    pub v_bitrate: String,
    pub a_codec: String,
    pub a_layout: String,
    pub a_rate: String,
    pub a_bitrate: String,
}

impl SummaryDto {
    /// The summary that is sent.
    pub open spec fn view(&self) -> SummaryView {
        SummaryView {
            duration: self.dur_sec@,
            dur_str: self.dur@,
            v_codec: self.v_codec@,
            v_res: self.v_res@,
            v_fps: self.v_fps@,
            v_bits: self.v_bits@,
            v_fmt: self.v_fmt@,
            v_bitrate: self.v_bitrate@,
            a_codec: self.a_codec@,
            a_layout: self.a_layout@,
            a_rate: self.a_rate@,
            a_bitrate: self.a_bitrate@,
        }
    }

    pub open spec fn wf(&self) -> bool {
        self.dur_sec.wf()
    }

    /// Puts a summary in the form in which it is sent.
    pub fn of_summary(s: &StreamSummary) -> (r: SummaryDto)
        requires
            s.wf(),
        ensures
            r.wf(),
            r@ == s@,
    {
        SummaryDto {
            dur: s.dur_str.clone(),
            dur_sec: s.duration.dup(),
            v_codec: s.v_codec.clone(),
            v_res: s.v_res.clone(),
            v_fps: s.v_fps.clone(),
            v_bits: s.v_bits.clone(),
            v_fmt: s.v_fmt.clone(),
            v_bitrate: s.v_bitrate.clone(),
            a_codec: s.a_codec.clone(),
            a_layout: s.a_layout.clone(),
            a_rate: s.a_rate.clone(),
            a_bitrate: s.a_bitrate.clone(),
        }
    }
}

/// What the daemon says to a client.
pub enum D2C {
    Welcome { msg: String },
    Denied { msg: String },
    ReadBlock { req_id: u64, job_id: String, offset: u64, len: u32 },
    State { job_id: String, state: String, detail: String },
    Streams {
        job_id: String,
        source: SummaryDto,
        target: SummaryDto,
        /// The command, with placeholders for the source and the target.
        cmd: String,
    },
    Progress {
        job_id: String,
        frame: String,
        fps: String,
        q: String,
        size: String,
        time: String,
        bitrate: String,
        speed: String,
        time_sec: Decimal,
        eta: String,
        /// How much is done, from 0 to 100.
        percent: Decimal,
    },
    /// The result file is about to be sent.
    ResultBegin { job_id: String },
    /// The result file has been sent, or the job came to nothing.
    ResultEnd { job_id: String, ok: bool },
}

// ---------------------------------------------------------------- laws
/// A frame that was written is read back, whatever follows it.
pub proof fn frame_reads_back(tag: u8, payload: Seq<u8>, rest: Seq<u8>)
    requires
        payload.len() <= MAX_FRAME,
    ensures
        first_frame(frame(tag, payload) + rest) == Ok::<_, FrameError>(
            (tag, payload, frame(tag, payload).len() as int),
        ),
{
    reveal_with_fuel(pow256, 5);
    number_reads_back(payload.len() as int, 4);
    let b = frame(tag, payload) + rest;
    assert(b.subrange(1, 5) =~= be_bytes(payload.len() as int, 4));
    assert(b.subrange(5, 5 + payload.len() as int) =~= payload);
}

/// While a frame is still arriving nothing is read.
pub proof fn partial_frame_waits(tag: u8, payload: Seq<u8>, k: int)
    requires
        payload.len() <= MAX_FRAME,
        0 <= k < frame(tag, payload).len(),
    ensures
        first_frame(frame(tag, payload).take(k)) == Err::<(u8, Seq<u8>, int), _>(
            FrameError::Truncated,
        ),
{
    reveal_with_fuel(pow256, 5);
    number_reads_back(payload.len() as int, 4);
    let b = frame(tag, payload).take(k);
    if k >= 5 {
        assert(b.subrange(1, 5) =~= be_bytes(payload.len() as int, 4));
    }
}

/// A payload that is too long is refused as soon as its length is known.
pub proof fn long_frame_is_refused(tag: u8, payload: Seq<u8>, k: int)
    requires
        MAX_FRAME < payload.len() <= u32::MAX,
        5 <= k <= frame(tag, payload).len(),
    ensures
        first_frame(frame(tag, payload).take(k)) == Err::<(u8, Seq<u8>, int), _>(
            FrameError::TooLarge,
        ),
{
    reveal_with_fuel(pow256, 5);
    number_reads_back(payload.len() as int, 4);
    let b = frame(tag, payload).take(k);
    assert(b.subrange(1, 5) =~= be_bytes(payload.len() as int, 4));
}

/// A block that was written is read back.
pub proof fn block_reads_back(req_id: u64, data: Seq<u8>)
    ensures
        block_in(block_payload(req_id, data)) == Some((req_id as int, data)),
{
    reveal_with_fuel(pow256, 9);
    number_reads_back(req_id as int, 8);
    let p = block_payload(req_id, data);
    assert(p.take(8) =~= be_bytes(req_id as int, 8));
    assert(p.skip(8) =~= data);
}

/// A piece of a result that was written is read back, where the job's name is
/// short enough for its length to be sent.
pub proof fn result_reads_back(job_id: Seq<char>, data: Seq<u8>)
    requires
        encode_utf8(job_id).len() < 65536,
    ensures
        result_in(result_payload(job_id, data)) == Some((job_id, data)),
{
    reveal_with_fuel(pow256, 3);
    let n = encode_utf8(job_id).len() as int;
    number_reads_back(n, 2);
    let p = result_payload(job_id, data);
    assert(p.take(2) =~= be_bytes(n, 2));
    assert(p.subrange(2, 2 + n) =~= encode_utf8(job_id));
    assert(p.skip(2 + n) =~= data);
    vstd::utf8::encode_utf8_valid_utf8(job_id);
    vstd::utf8::encode_utf8_decode_utf8(job_id);
}

/// A frame is its tag, the length of its payload in four bytes with the most
/// significant one first, and the payload.
pub proof fn frame_is_laid_out(tag: u8, payload: Seq<u8>)
    requires
        payload.len() < 0x1_0000_0000,
    ensures
        ({
            let f = frame(tag, payload);
            &&& f.len() == 5 + payload.len()
            &&& f[0] == tag
            &&& payload.len() == f[1] * 0x100_0000 + f[2] * 0x1_0000 + f[3] * 0x100 + f[4]
            &&& f.skip(5) == payload
        }),
{
    let f = frame(tag, payload);
    let n = payload.len() as int;
    lemma_four_bytes(n);
    assert(f.skip(5) =~= payload);
    assert(f[1] == be_bytes(n, 4)[0] && f[2] == be_bytes(n, 4)[1] && f[3] == be_bytes(n, 4)[2]
        && f[4] == be_bytes(n, 4)[3]);
}

proof fn lemma_four_bytes(n: int)
    requires
        0 <= n < 0x1_0000_0000,
    ensures
        ({
            let b = be_bytes(n, 4);
            b.len() == 4 && n == b[0] * 0x100_0000 + b[1] * 0x1_0000 + b[2] * 0x100 + b[3]
        }),
{
    let a = n / 256;
    let b = a / 256;
    let c = b / 256;
    reveal_with_fuel(be_bytes, 5);
    assert(be_bytes(c / 256, 0) =~= Seq::<u8>::empty());
    assert(be_bytes(c, 1) =~= seq![(c % 256) as u8]);
    assert(be_bytes(b, 2) =~= seq![(c % 256) as u8, (b % 256) as u8]);
    assert(be_bytes(a, 3) =~= seq![(c % 256) as u8, (b % 256) as u8, (a % 256) as u8]);
    assert(be_bytes(n, 4) =~= seq![
        (c % 256) as u8,
        (b % 256) as u8,
        (a % 256) as u8,
        (n % 256) as u8,
    ]);
    assert(c < 256);
}

/// The tags of the three kinds of frames, and how long a payload may be: 64 MiB.
pub proof fn frames_have_their_kinds()
    ensures
        TAG_CTRL == 1,
        TAG_BLOCK == 2,
        TAG_RESULT == 3,
        MAX_FRAME == 64 * 1024 * 1024,
{
}

/// A block has its number in eight bytes before the data, and a piece of a result
/// has the length of its job's name in two.
pub proof fn payloads_are_laid_out(req_id: u64, job_id: Seq<char>, data: Seq<u8>)
    ensures
        block_payload(req_id, data).len() == 8 + data.len(),
        block_payload(req_id, data).skip(8) == data,
        req_id < 256 ==> block_payload(req_id, data)[7] == req_id && block_payload(req_id, data)[0]
            == 0,
        result_payload(job_id, data).len() == 2 + encode_utf8(job_id).len() + data.len(),
        encode_utf8(job_id).len() < 256 ==> result_payload(job_id, data)[0] == 0 && result_payload(
            job_id,
            data,
        )[1] == encode_utf8(job_id).len(),
        result_payload(job_id, data).skip((2 + encode_utf8(job_id).len()) as int) == data,
        result_payload(job_id, data).subrange(2, (2 + encode_utf8(job_id).len()) as int)
            == encode_utf8(job_id),
{
    let n = encode_utf8(job_id).len() as int;
    lemma_be_len(req_id as int, 8);
    lemma_be_len(n, 2);
    reveal_with_fuel(be_bytes, 9);
    let b = block_payload(req_id, data);
    assert(b.skip(8) =~= data);
    let r = result_payload(job_id, data);
    assert(r.skip(2 + n) =~= data);
    assert(r.subrange(2, 2 + n) =~= encode_utf8(job_id));
    if req_id < 256 {
        let v = req_id as int;
        assert(v / 256 == 0 && v % 256 == v);
        assert(be_bytes(v, 8) == be_bytes(0, 7).push(req_id as u8));
        lemma_be_len(0, 7);
        assert(be_bytes(0, 7)[0] == 0) by {
            assert(be_bytes(0, 1) =~= seq![0u8]);
        }
    }
    if n < 256 {
        assert(n / 256 == 0 && n % 256 == n);
        assert(be_bytes(n, 2) =~= seq![0u8, n as u8]);
    }
}

} // verus!
