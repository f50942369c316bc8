//! An H.264 Annex B reader that cuts a byte stream into NAL units.
//!
//! The reader does no I/O itself: whoever owns the byte source hands it the
//! bytes with `push_input`, and `next_nal` either produces the next NAL unit
//! (or an error), or answers `NeedInput` when it would have had to wait for
//! more bytes. A read that cannot be served in full is served short once the
//! caller says that the source had nothing more to give (`input_ended`).

use crate::buffers::{
    bytes_at, bytes_contents, bytes_from_vec, bytes_len, bytes_mut_at, bytes_mut_clear,
    bytes_mut_contents, bytes_mut_is_empty, bytes_mut_len, bytes_mut_new, bytes_mut_put_u8,
    bytes_mut_split, bytes_mut_split_off,
};
use bytes::Bytes;
use bytes::BytesMut;
use vstd::prelude::*;
use webrtc::media::io::h264_reader::NalUnitType;

verus! {

/// The discriminant of `NalUnitType::from(code)`: the codes 0 to 13 and 19
/// have a variant of their own, every other code maps to `Reserved` (20).
pub open spec fn spec_unit_type(code: u8) -> u8 {
    if code <= 13 || code == 19 {
        code
    } else {
        20
    }
}

/// `NalUnitType::from(code)`, taken by its discriminant.
#[verifier::external_body]
fn unit_type_of(code: u8) -> (t: u8)
    ensures
        t == spec_unit_type(code),
{
    NalUnitType::from(code) as u8
}

/// The discriminant of `NalUnitType::SEI`.
#[verifier::external_body]
fn sei_unit_type() -> (t: u8)
    ensures
        t == 6,
{
    NalUnitType::SEI as u8
}

/// Errors of the reader; each carries a short description of where it arose.
#[derive(Debug)]
pub enum H264Error {
    ErrIoEOF(String),
    ErrDataIsNotH264Stream(String),
}

/// The text by which an `H264Error` is reported as a WebRTC error.
pub open spec fn spec_error_message(e: H264Error) -> Seq<char> {
    match e {
        H264Error::ErrIoEOF(s) => "H264Error::ErrIoEOF("@ + s@ + ")"@,
        H264Error::ErrDataIsNotH264Stream(s) => "H264Error::ErrDataIsNotH264Stream("@ + s@ + ")"@,
    }
}

/// Different errors become different WebRTC error messages: the message
/// tells the kind of error and its description.
pub proof fn lemma_error_message_distinguishes(e1: H264Error, e2: H264Error)
    ensures
        (spec_error_message(e1) == spec_error_message(e2)) == (error_outcome(e1)
            == error_outcome(e2)),
{
    reveal_strlit("H264Error::ErrIoEOF(");
    reveal_strlit("H264Error::ErrDataIsNotH264Stream(");
    reveal_strlit(")");
    let eof = "H264Error::ErrIoEOF("@;
    let not = "H264Error::ErrDataIsNotH264Stream("@;
    let close = ")"@;
    assert(eof[14] == 'I' && not[14] == 'D');
    match (e1, e2) {
        (H264Error::ErrIoEOF(x), H264Error::ErrIoEOF(y)) => {
            lemma_unwrap_message(eof, x@, y@, close);
        },
        (H264Error::ErrDataIsNotH264Stream(x), H264Error::ErrDataIsNotH264Stream(y)) => {
            lemma_unwrap_message(not, x@, y@, close);
        },
        (H264Error::ErrIoEOF(x), H264Error::ErrDataIsNotH264Stream(y)) => {
            // The kinds differ at the fifteenth character ('I' against 'D').
            lemma_char_at_14(eof, x@, close);
            lemma_char_at_14(not, y@, close);
        },
        (H264Error::ErrDataIsNotH264Stream(x), H264Error::ErrIoEOF(y)) => {
            lemma_char_at_14(not, x@, close);
            lemma_char_at_14(eof, y@, close);
        },
    }
}

proof fn lemma_char_at_14(a: Seq<char>, x: Seq<char>, c: Seq<char>)
    requires
        a.len() > 14,
    ensures
        (a + x + c)[14] == a[14],
{
    assert((a + x)[14] == a[14]);
}

proof fn lemma_unwrap_message(a: Seq<char>, x: Seq<char>, y: Seq<char>, c: Seq<char>)
    ensures
        (a + x + c == a + y + c) == (x == y),
{
    if a + x + c == a + y + c {
        assert(x =~= (a + x + c).subrange(a.len() as int, (a + x + c).len() - c.len()));
        assert(y =~= (a + y + c).subrange(a.len() as int, (a + y + c).len() - c.len()));
    }
}

impl H264Error {
    /// The message of the WebRTC error that this error becomes.
    pub fn to_error_message(&self) -> (m: String)
        ensures
            m@ == spec_error_message(*self),
    {
        match self {
            H264Error::ErrIoEOF(s) => {
                let mut m = String::from_str("H264Error::ErrIoEOF(");
                m.append(s.as_str());
                m.append(")");
                m
            },
            H264Error::ErrDataIsNotH264Stream(s) => {
                let mut m = String::from_str("H264Error::ErrDataIsNotH264Stream(");
                m.append(s.as_str());
                m.append(")");
                m
            },
        }
    }
}

/// NAL H.264 Network Abstraction Layer unit.
///
/// `unit_type` is the discriminant of the webrtc `NalUnitType` of the unit.
#[allow(clippy::upper_case_acronyms)]
pub struct NAL {
    /// NAL header
    pub forbidden_zero_bit: bool,
    pub ref_idc: u8,
    pub unit_type: u8,
    /// header byte + rbsp
    pub data: BytesMut,
}

/// The header fields of `nal` are those that its first byte encodes.
pub open spec fn header_ok(nal: NAL) -> bool {
    let d = bytes_mut_contents(nal.data);
    &&& d.len() > 0
    &&& nal.forbidden_zero_bit == (d[0] >= 128)
    &&& nal.ref_idc == (d[0] / 32) % 4
    &&& nal.unit_type == spec_unit_type((d[0] % 32) as u8)
}

impl NAL {
    fn new(data: BytesMut) -> (nal: NAL)
        ensures
            nal.data == data,
            !nal.forbidden_zero_bit,
            nal.ref_idc == 0,
            nal.unit_type == 0,
    {
        NAL { forbidden_zero_bit: false, ref_idc: 0, unit_type: unit_type_of(0), data }
    }

    fn parse_header(&mut self)
        requires
            bytes_mut_contents(old(self).data).len() > 0,
        ensures
            final(self).data == old(self).data,
            header_ok(*final(self)),
    {
        let first_byte = bytes_mut_at(&self.data, 0);
        self.forbidden_zero_bit = ((first_byte & 0x80) >> 7) == 1;  // 0x80 = 0b10000000
        self.ref_idc = (first_byte & 0x60) >> 5;  // 0x60 = 0b01100000
        self.unit_type = unit_type_of(first_byte & 0x1F);  // 0x1F = 0b00011111
        proof {
            assert((((first_byte & 0x80) >> 7) == 1) == (first_byte >= 128)) by (bit_vector);
            assert((first_byte & 0x60) >> 5 == (first_byte / 32) % 4) by (bit_vector);
            assert(first_byte & 0x1F == first_byte % 32) by (bit_vector);
        }
    }
}


/// The abstract state of an `H264Reader`.
pub struct ReaderState {
    /// Bytes received from the source and not yet consumed.
    pub read_buffer: Seq<u8>,
    /// Bytes of the NAL unit being assembled.
    pub nal_buffer: Seq<u8>,
    /// Number of consecutive zero bytes read last.
    pub zeros: nat,
    /// Whether the stream's leading start code has been read.
    pub prefix_parsed: bool,
}

/// What one call of `next_nal` yields.
pub enum Outcome {
    /// The reader must wait for more input.
    NeedInput,
    /// A NAL unit with these bytes (header byte first).
    Nal(Seq<u8>),
    /// `ErrIoEOF` with this description.
    EndOfStream(Seq<char>),
    /// `ErrDataIsNotH264Stream` with this description.
    NotH264(Seq<char>),
}

/// The state of a reader that has seen nothing.
pub open spec fn initial_state() -> ReaderState {
    ReaderState {
        read_buffer: Seq::empty(),
        nal_buffer: Seq::empty(),
        zeros: 0,
        prefix_parsed: false,
    }
}

/// The largest number of bytes a reader holds at once stays below
/// `isize::MAX`, the most a buffer can be made to hold.
pub open spec fn buffered_len(s: ReaderState) -> nat {
    s.nal_buffer.len() + s.read_buffer.len()
}

/// `p` holds a start code: two zero bytes followed by a one.
pub open spec fn has_start_code(p: Seq<u8>) -> bool {
    exists|i: int| 2 <= i < p.len() && #[trigger] p[i] == 1 && p[i - 1] == 0 && p[i - 2] == 0
}

/// A unit whose first byte is not zero holds no start code. (A unit that
/// starts with zero bytes can only arise from zero bytes that follow a
/// start code, and may hold one.)
pub open spec fn no_hidden_start_code(d: Seq<u8>) -> bool {
    d.len() > 0 && d[0] != 0 ==> !has_start_code(d)
}

/// The part of the reader's invariant that memory safety needs: the zero
/// count only counts zero bytes that end the NAL buffer, the buffered
/// bytes fit in memory, and nothing is collected before the leading start
/// code has been read.
pub open spec fn wf_core(s: ReaderState) -> bool {
    &&& s.zeros <= s.nal_buffer.len()
    &&& forall|i: int| s.nal_buffer.len() - s.zeros <= i < s.nal_buffer.len() ==> s.nal_buffer[i] == 0
    &&& buffered_len(s) < isize::MAX
    &&& !s.prefix_parsed ==> s.nal_buffer.len() == 0 && s.zeros == 0
}

/// A unit being collected that starts with a non-zero byte holds no start
/// code, and the zero count is exactly the number of zero bytes it ends
/// with.
pub open spec fn unit_ok(nal: Seq<u8>, zeros: nat) -> bool {
    nal.len() > 0 && nal[0] != 0 ==> {
        &&& !has_start_code(nal)
        &&& zeros < nal.len()
        &&& nal[nal.len() - zeros - 1] != 0
    }
}

/// The reader's invariant.
pub open spec fn wf_state(s: ReaderState) -> bool {
    &&& wf_core(s)
    &&& unit_ok(s.nal_buffer, s.zeros)
}

/// A header byte whose unit type is SEI.
pub open spec fn is_sei(header: u8) -> bool {
    header % 32 == 6
}

/// One byte after the NAL buffer `nal` with `zeros` trailing zero bytes
/// counted: the new NAL buffer, the new count, and whether the byte closed
/// a start code that ends a non-empty NAL unit (whose bytes are then the
/// new NAL buffer, the start code's zero bytes cut off).
pub open spec fn spec_process_byte(nal: Seq<u8>, zeros: nat, b: u8) -> (Seq<u8>, nat, bool) {
    if b == 0 {
        (nal, zeros + 1, false)
    } else if b == 1 && zeros >= 2 {
        let cut: int = if zeros > 2 { 3 } else { 2 };
        if nal.len() - cut > 0 {
            (nal.take(nal.len() - cut), 0, true)
        } else {
            (nal, 0, false)
        }
    } else {
        (nal, 0, false)
    }
}

/// A byte that does not end a unit keeps the collected unit free of start
/// codes and the zero count exact.
pub proof fn lemma_push_keeps_unit(nal: Seq<u8>, zeros: nat, b: u8)
    requires
        zeros <= nal.len(),
        forall|i: int| nal.len() - zeros <= i < nal.len() ==> nal[i] == 0,
        unit_ok(nal, zeros),
        !spec_process_byte(nal, zeros, b).2,
    ensures
        spec_process_byte(nal, zeros, b).0 == nal,
        unit_ok(nal.push(b), spec_process_byte(nal, zeros, b).1),
{
    let n1 = nal.push(b);
    let z1 = spec_process_byte(nal, zeros, b).1;
    if n1[0] != 0 {
        if nal.len() > 0 {
            assert(nal[0] == n1[0]);
            if b == 1 && zeros >= 2 {
                let cut: int = if zeros > 2 { 3 } else { 2 };
                assert(nal.len() - cut > 0);
            }
            assert forall|i: int| 2 <= i < n1.len() implies !(#[trigger] n1[i] == 1 && n1[i - 1] == 0
                && n1[i - 2] == 0) by {
                if i < nal.len() {
                    assert(n1[i] == nal[i] && n1[i - 1] == nal[i - 1] && n1[i - 2] == nal[i - 2]);
                    if nal[i] == 1 && nal[i - 1] == 0 && nal[i - 2] == 0 {
                        assert(has_start_code(nal));
                    }
                } else if b == 1 {
                    assert(n1[i - 1] == nal[nal.len() - 1]);
                    assert(n1[i - 2] == nal[nal.len() - 2]);
                }
            }
            assert(n1[n1.len() - z1 - 1] != 0) by {
                if b == 0 {
                    assert(n1[n1.len() - z1 - 1] == nal[nal.len() - zeros - 1]);
                }
            }
        }
    }
}

/// The state with the read buffer replaced.
pub open spec fn with_read_buffer(s: ReaderState, rb: Seq<u8>) -> ReaderState {
    ReaderState { read_buffer: rb, nal_buffer: s.nal_buffer, zeros: s.zeros, prefix_parsed: s.prefix_parsed }
}

/// The state with the leading start code marked as read.
pub open spec fn prefix_read(s: ReaderState) -> ReaderState {
    ReaderState { read_buffer: s.read_buffer, nal_buffer: s.nal_buffer, zeros: s.zeros, prefix_parsed: true }
}

/// Reading the stream byte by byte after its leading start code: bytes are
/// collected until a start code ends a NAL unit (SEI units are dropped and
/// reading goes on), until the input runs out (`NeedInput`), or, once the
/// input has ended, until nothing is left (what was collected is the last
/// unit).
pub open spec fn spec_scan(s: ReaderState, ended: bool) -> (ReaderState, Outcome)
    decreases s.read_buffer.len(),
{
    if s.read_buffer.len() == 0 {
        if !ended {
            (s, Outcome::NeedInput)
        } else if s.nal_buffer.len() == 0 {
            (s, Outcome::EndOfStream("self.nal_buffer.is_empty()"@))
        } else {
            (
                ReaderState {
                    read_buffer: s.read_buffer,
                    nal_buffer: Seq::empty(),
                    zeros: 0,
                    prefix_parsed: s.prefix_parsed,
                },
                Outcome::Nal(s.nal_buffer),
            )
        }
    } else {
        let b = s.read_buffer[0];
        let rest = s.read_buffer.drop_first();
        let (nal, zeros, found) = spec_process_byte(s.nal_buffer, s.zeros, b);
        if found {
            let next = ReaderState {
                read_buffer: rest,
                nal_buffer: Seq::empty(),
                zeros: zeros,
                prefix_parsed: s.prefix_parsed,
            };
            if is_sei(nal[0]) {
                spec_scan(next, ended)
            } else {
                (next, Outcome::Nal(nal))
            }
        } else {
            spec_scan(
                ReaderState {
                    read_buffer: rest,
                    nal_buffer: nal.push(b),
                    zeros: zeros,
                    prefix_parsed: s.prefix_parsed,
                },
                ended,
            )
        }
    }
}

/// What reading the leading start code comes to.
pub enum PrefixStep {
    /// Fewer than four bytes are held and the source may deliver more.
    Wait,
    /// A start code of this many bytes was read.
    Found(nat),
    /// The stream does not start with a start code, or has ended.
    Failed(Outcome),
}

/// Reading the leading start code from state `s`: four bytes are taken (or
/// what is held, once the source has ended); `[0, 0, 1]` leaves its next
/// byte as the first byte of the first unit, `[0, 0, 0, 1]` leaves nothing.
/// Whether the start code has been read is left for the caller to mark.
pub open spec fn spec_read_prefix(s: ReaderState, ended: bool) -> (ReaderState, PrefixStep) {
    if s.read_buffer.len() < 4 && !ended {
        (s, PrefixStep::Wait)
    } else {
        let n: int = if s.read_buffer.len() < 4 { s.read_buffer.len() as int } else { 4 };
        let p = s.read_buffer.take(n);
        let s1 = with_read_buffer(s, s.read_buffer.skip(n));
        if n == 0 {
            (s1, PrefixStep::Failed(Outcome::EndOfStream("n == 0 when reading prefix"@)))
        } else if n < 3 {
            (s1, PrefixStep::Failed(Outcome::NotH264("n < 3"@)))
        } else if n == 3 {
            if p == seq![0u8, 0u8, 1u8] {
                // A start code with nothing after it: the stream has ended.
                (s1, PrefixStep::Failed(Outcome::EndOfStream("n == 3 && nal_prefix3bytes_found"@)))
            } else {
                (s1, PrefixStep::Failed(Outcome::NotH264("n == 3 && !nal_prefix3bytes_found"@)))
            }
        } else if p.take(3) == seq![0u8, 0u8, 1u8] {
            (
                ReaderState {
                    read_buffer: s1.read_buffer,
                    nal_buffer: s.nal_buffer.push(p[3]),
                    zeros: s.zeros,
                    prefix_parsed: s.prefix_parsed,
                },
                PrefixStep::Found(3),
            )
        } else if p == seq![0u8, 0u8, 0u8, 1u8] {
            (s1, PrefixStep::Found(4))
        } else {
            (s1, PrefixStep::Failed(Outcome::NotH264("no nal prefix found"@)))
        }
    }
}

/// One call of `next_nal` from state `s`: first the leading start code
/// (`spec_read_prefix`) if it has not been read yet, then `spec_scan`.
pub open spec fn spec_next_nal(s: ReaderState, ended: bool) -> (ReaderState, Outcome) {
    if s.prefix_parsed {
        spec_scan(s, ended)
    } else {
        let (s1, step) = spec_read_prefix(s, ended);
        match step {
            PrefixStep::Wait => (s1, Outcome::NeedInput),
            PrefixStep::Failed(o) => (s1, o),
            PrefixStep::Found(_) => spec_scan(prefix_read(s1), ended),
        }
    }
}

/// The step that a result of the prefix reader stands for.
pub open spec fn prefix_step(r: Option<Result<usize, H264Error>>) -> PrefixStep {
    match r {
        None => PrefixStep::Wait,
        Some(Ok(k)) => PrefixStep::Found(k as nat),
        Some(Err(e)) => PrefixStep::Failed(error_outcome(e)),
    }
}

/// What `next_nal` hands back.
pub enum NalPoll {
    /// No result can be given before more input arrives (or the source says
    /// that it has ended).
    NeedInput,
    /// The next NAL unit, or the error that stopped the reader.
    Ready(Result<NAL, H264Error>),
}

/// The outcome that an error stands for.
pub open spec fn error_outcome(e: H264Error) -> Outcome {
    match e {
        H264Error::ErrIoEOF(m) => Outcome::EndOfStream(m@),
        H264Error::ErrDataIsNotH264Stream(m) => Outcome::NotH264(m@),
    }
}

/// The outcome that a `NalPoll` stands for.
pub open spec fn poll_outcome(p: NalPoll) -> Outcome {
    match p {
        NalPoll::NeedInput => Outcome::NeedInput,
        NalPoll::Ready(Ok(nal)) => Outcome::Nal(bytes_mut_contents(nal.data)),
        NalPoll::Ready(Err(e)) => error_outcome(e),
    }
}

/// H264Reader cuts the bytes handed to it into H.264 NAL units.
pub struct H264Reader {
    nal_buffer: BytesMut,
    count_of_consecutive_zero_bytes: usize,
    nal_prefix_parsed: bool,
    read_buffer: Vec<u8>,
}

impl View for H264Reader {
    type V = ReaderState;

    closed spec fn view(&self) -> ReaderState {
        ReaderState {
            read_buffer: self.read_buffer@,
            nal_buffer: bytes_mut_contents(self.nal_buffer),
            zeros: self.count_of_consecutive_zero_bytes as nat,
            prefix_parsed: self.nal_prefix_parsed,
        }
    }
}

impl H264Reader {
    pub open spec fn wf(&self) -> bool {
        wf_state(self@)
    }

    /// new creates a new H264Reader that has seen no byte.
    pub fn new() -> (r: Self)
        ensures
            r.wf(),
            r@ == initial_state(),
    {
        let r = Self {
            nal_buffer: bytes_mut_new(),
            count_of_consecutive_zero_bytes: 0,
            nal_prefix_parsed: false,
            read_buffer: Vec::new(),
        };
        assert(r@.read_buffer =~= Seq::<u8>::empty());
        r
    }

    /// The number of bytes the reader holds.
    pub fn buffered_len(&self) -> (n: usize)
        requires
            self.wf(),
        ensures
            n == buffered_len(self@),
    {
        bytes_mut_len(&self.nal_buffer) + self.read_buffer.len()
    }

    /// Hands the reader bytes that the source delivered.
    pub fn push_input(&mut self, data: &[u8])
        requires
            old(self).wf(),
            buffered_len(old(self)@) + data@.len() < isize::MAX,
        ensures
            final(self).wf(),
            final(self)@ == with_read_buffer(old(self)@, old(self)@.read_buffer + data@),
    {
        let ghost old_rb = self.read_buffer@;
        let mut i: usize = 0;
        while i < data.len()
            invariant
                i <= data@.len(),
                self.read_buffer@ == old_rb + data@.take(i as int),
                self.nal_buffer == old(self).nal_buffer,
                self.count_of_consecutive_zero_bytes == old(self).count_of_consecutive_zero_bytes,
                self.nal_prefix_parsed == old(self).nal_prefix_parsed,
            decreases data@.len() - i,
        {
            self.read_buffer.push(data[i]);
            i = i + 1;
            assert(data@.take(i as int) =~= data@.take((i - 1) as int).push(data@[i - 1]));
        }
        assert(data@.take(data@.len() as int) =~= data@);
    }

    /// Takes the first `num_to_read` bytes of the read buffer, or all of them
    /// if fewer are held and the source has ended; `None` when fewer are held
    /// and the source may still deliver more.
    fn read(&mut self, num_to_read: usize, input_ended: bool) -> (r: Option<Bytes>)
        ensures
            final(self).nal_buffer == old(self).nal_buffer,
            final(self).count_of_consecutive_zero_bytes == old(self).count_of_consecutive_zero_bytes,
            final(self).nal_prefix_parsed == old(self).nal_prefix_parsed,
            old(self).read_buffer@.len() < num_to_read && !input_ended ==> {
                &&& r is None
                &&& final(self).read_buffer@ == old(self).read_buffer@
            },
            old(self).read_buffer@.len() >= num_to_read || input_ended ==> {
                let k: int = if num_to_read <= old(self).read_buffer@.len() {
                    num_to_read as int
                } else {
                    old(self).read_buffer@.len() as int
                };
                &&& r is Some
                &&& bytes_contents(r.unwrap()) == old(self).read_buffer@.take(k)
                &&& final(self).read_buffer@ == old(self).read_buffer@.skip(k)
                &&& bytes_contents(r.unwrap()) + final(self).read_buffer@ == old(self).read_buffer@
            },
    {
        if self.read_buffer.len() < num_to_read && !input_ended {
            return None;
        }
        let num_should_read = if num_to_read <= self.read_buffer.len() {
            num_to_read
        } else {
            self.read_buffer.len()
        };
        let mut taken = self.read_buffer.split_off(num_should_read);
        std::mem::swap(&mut taken, &mut self.read_buffer);
        proof {
            assert(self.read_buffer@ =~= old(self).read_buffer@.skip(num_should_read as int));
            assert(taken@ =~= old(self).read_buffer@.take(num_should_read as int));
            assert(taken@ + self.read_buffer@ =~= old(self).read_buffer@);
        }
        Some(bytes_from_vec(taken))
    }

    /// Reads the stream's leading start code, `[0, 0, 1]` (whose following
    /// byte starts the first unit) or `[0, 0, 0, 1]`.
    fn bit_stream_starts_with_h264prefix(&mut self, input_ended: bool) -> (r: Option<
        Result<usize, H264Error>,
    >)
        requires
            old(self).wf(),
            !old(self)@.prefix_parsed,
        ensures
            (final(self)@, prefix_step(r)) == spec_read_prefix(old(self)@, input_ended),
            !(r is Some && r.unwrap() is Ok) ==> wf_state(final(self)@),
            r is Some && r.unwrap() is Ok ==> wf_state(prefix_read(final(self)@)),
    {
        let prefix_buffer = match self.read(4, input_ended) {
            None => {
                return None;
            },
            Some(b) => b,
        };
        let ghost p = bytes_contents(prefix_buffer);
        let n = bytes_len(&prefix_buffer);
        if n == 0 {
            return Some(Err(H264Error::ErrIoEOF(String::from_str("n == 0 when reading prefix"))));
        }
        if n < 3 {
            return Some(Err(H264Error::ErrDataIsNotH264Stream(String::from_str("n < 3"))));
        }
        let nal_prefix3bytes_found = bytes_at(&prefix_buffer, 0) == 0 && bytes_at(&prefix_buffer, 1)
            == 0 && bytes_at(&prefix_buffer, 2) == 1;
        proof {
            assert(nal_prefix3bytes_found == (p.take(3) == seq![0u8, 0u8, 1u8])) by {
                if nal_prefix3bytes_found {
                    assert(p.take(3) =~= seq![0u8, 0u8, 1u8]);
                }
            }
        }
        if n == 3 {
            assert(p.take(3) =~= p);
            if nal_prefix3bytes_found {
                // A start code with nothing after it: the stream has ended.
                return Some(
                    Err(H264Error::ErrIoEOF(String::from_str("n == 3 && nal_prefix3bytes_found"))),
                );
            }
            return Some(
                Err(
                    H264Error::ErrDataIsNotH264Stream(
                        String::from_str("n == 3 && !nal_prefix3bytes_found"),
                    ),
                ),
            );
        }
        // n == 4

        if nal_prefix3bytes_found {
            bytes_mut_put_u8(&mut self.nal_buffer, bytes_at(&prefix_buffer, 3));
            return Some(Ok(3));
        }
        let nal_prefix4bytes_found = bytes_at(&prefix_buffer, 0) == 0 && bytes_at(&prefix_buffer, 1)
            == 0 && bytes_at(&prefix_buffer, 2) == 0 && bytes_at(&prefix_buffer, 3) == 1;
        proof {
            assert(nal_prefix4bytes_found == (p == seq![0u8, 0u8, 0u8, 1u8])) by {
                if nal_prefix4bytes_found {
                    assert(p =~= seq![0u8, 0u8, 0u8, 1u8]);
                }
            }
        }
        if nal_prefix4bytes_found {
            Some(Ok(4))
        } else {
            Some(Err(H264Error::ErrDataIsNotH264Stream(String::from_str("no nal prefix found"))))
        }
    }

    /// Feeds one byte to the start-code detector: counts zero bytes, and on
    /// a `1` after two or more zeros cuts the start code's zeros off the NAL
    /// buffer and reports a complete unit if anything is left.
    fn process_byte(&mut self, read_byte: u8) -> (nal_found: bool)
        requires
            old(self)@.zeros <= old(self)@.nal_buffer.len(),
            old(self)@.nal_buffer.len() < isize::MAX,
        ensures
            ({
                let (nal, zeros, found) = spec_process_byte(
                    old(self)@.nal_buffer,
                    old(self)@.zeros,
                    read_byte,
                );
                &&& final(self)@.nal_buffer == nal
                &&& final(self)@.zeros == zeros
                &&& nal_found == found
            }),
            final(self).read_buffer == old(self).read_buffer,
            final(self).nal_prefix_parsed == old(self).nal_prefix_parsed,
    {
        let mut nal_found = false;

        match read_byte {
            0 => {
                self.count_of_consecutive_zero_bytes += 1;
            },
            1 => {
                if self.count_of_consecutive_zero_bytes >= 2 {
                    let count_of_consecutive_zero_bytes_in_prefix: usize =
                        if self.count_of_consecutive_zero_bytes > 2 {
                        3
                    } else {
                        2
                    };
                    let nal_unit_length = bytes_mut_len(&self.nal_buffer)
                        - count_of_consecutive_zero_bytes_in_prefix;
                    if nal_unit_length > 0 {
                        let _ = bytes_mut_split_off(&mut self.nal_buffer, nal_unit_length);
                        nal_found = true;
                    }
                }
                self.count_of_consecutive_zero_bytes = 0;
            },
            _ => {
                self.count_of_consecutive_zero_bytes = 0;
            },
        }

        nal_found
    }

    /// next_nal reads the next NAL unit from the bytes handed to the reader.
    ///
    /// It answers `NeedInput` where it would have had to wait for bytes that
    /// have not arrived; `input_ended` says that the source had nothing more
    /// to give, so that a read is then served with what is held. The result
    /// is `spec_next_nal`: an error where the stream does not start with a
    /// start code, `ErrIoEOF` where the input ends before any byte of a unit,
    /// and otherwise the next unit other than SEI (or, once the input has
    /// ended, what remains).
    pub fn next_nal(&mut self, input_ended: bool) -> (p: NalPoll)
        requires
            old(self).wf(),
        ensures
            final(self).wf(),
            (final(self)@, poll_outcome(p)) == spec_next_nal(old(self)@, input_ended),
            p matches NalPoll::Ready(Ok(nal)) ==> header_ok(nal),
            p matches NalPoll::Ready(Ok(nal)) ==> no_hidden_start_code(bytes_mut_contents(nal.data)),
    {
        if !self.nal_prefix_parsed {
            match self.bit_stream_starts_with_h264prefix(input_ended) {
                None => {
                    return NalPoll::NeedInput;
                },
                Some(Err(e)) => {
                    return NalPoll::Ready(Err(e));
                },
                Some(Ok(_)) => {},
            }
            self.nal_prefix_parsed = true;
        }
        let ghost target = spec_next_nal(old(self)@, input_ended);
        assert(spec_scan(self@, input_ended) == target);

        loop
            invariant_except_break
                target == spec_next_nal(old(self)@, input_ended),
                wf_state(self@),
                self@.prefix_parsed,
                spec_scan(self@, input_ended) == target,
            ensures
                target == spec_next_nal(old(self)@, input_ended),
                wf_core(self@),
                self@.prefix_parsed,
                no_hidden_start_code(self@.nal_buffer),
                (self@.read_buffer.len() == 0 && input_ended && spec_scan(self@, input_ended)
                    == target) || ({
                    &&& self@.nal_buffer.len() > 0
                    &&& self@.zeros == 0
                    &&& target == (
                        ReaderState {
                            read_buffer: self@.read_buffer,
                            nal_buffer: Seq::empty(),
                            zeros: 0,
                            prefix_parsed: true,
                        },
                        Outcome::Nal(self@.nal_buffer),
                    )
                }),
            decreases self@.read_buffer.len(),
        {
            let ghost before = self@;
            let buffer = match self.read(1, input_ended) {
                None => {
                    assert(self@ == before);
                    return NalPoll::NeedInput;
                },
                Some(b) => b,
            };
            let n = bytes_len(&buffer);

            if n != 1 {
                assert(self@.read_buffer =~= before.read_buffer);
                assert(self@ == before);
                break;
            }
            let read_byte = bytes_at(&buffer, 0);
            assert(read_byte == before.read_buffer[0]);
            assert(self@.read_buffer == before.read_buffer.drop_first());
            let nal_found = self.process_byte(read_byte);
            if nal_found {
                let first = bytes_mut_at(&self.nal_buffer, 0);
                proof {
                    assert(first & 0x1F == first % 32) by (bit_vector);
                }
                if unit_type_of(first & 0x1F) == sei_unit_type() {
                    bytes_mut_clear(&mut self.nal_buffer);
                    continue;
                } else {
                    proof {
                        // The unit is a prefix of the collected bytes.
                        let d = self@.nal_buffer;
                        let c = before.nal_buffer;
                        if d[0] != 0 {
                            assert(c[0] == d[0]);
                            assert forall|i: int| 2 <= i < d.len() implies !(#[trigger] d[i] == 1
                                && d[i - 1] == 0 && d[i - 2] == 0) by {
                                assert(d[i] == c[i] && d[i - 1] == c[i - 1] && d[i - 2] == c[i - 2]);
                                if c[i] == 1 && c[i - 1] == 0 && c[i - 2] == 0 {
                                    assert(has_start_code(c));
                                }
                            }
                        }
                    }
                    break;
                }
            }
            proof {
                lemma_push_keeps_unit(before.nal_buffer, before.zeros, read_byte);
            }
            bytes_mut_put_u8(&mut self.nal_buffer, read_byte);
            proof {
                let nb = self@.nal_buffer;
                assert forall|i: int| nb.len() - self@.zeros <= i < nb.len() implies nb[i] == 0 by {
                    if i < nb.len() - 1 {
                        assert(nb[i] == before.nal_buffer[i]);
                    }
                }
            }
        }

        if bytes_mut_is_empty(&self.nal_buffer) {
            return NalPoll::Ready(Err(H264Error::ErrIoEOF(String::from_str("self.nal_buffer.is_empty()"))));
        }
        let mut nal = NAL::new(bytes_mut_split(&mut self.nal_buffer));
        // A unit that ends with the input may leave zero bytes counted; the
        // count goes with the bytes that it counted.
        self.count_of_consecutive_zero_bytes = 0;
        nal.parse_header();

        NalPoll::Ready(Ok(nal))
    }
}

} // verus!
