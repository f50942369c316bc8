//! Properties of the H.264 reader that span calls or whole streams.

use crate::h264::{
    has_start_code,
    initial_state, is_sei, prefix_read, spec_next_nal, spec_process_byte, spec_scan,
    with_read_buffer, Outcome, ReaderState,
};
use vstd::prelude::*;

verus! {

/// The two start codes of H.264 Annex B.
pub open spec fn is_start_code(sc: Seq<u8>) -> bool {
    sc == seq![0u8, 0u8, 1u8] || sc == seq![0u8, 0u8, 0u8, 1u8]
}

/// The bytes of a unit that a following start code delimits exactly: not
/// empty, holding no start code, not ending with a zero byte (which would
/// count as part of a four-byte start code), and not SEI.
pub open spec fn delimited_unit(p: Seq<u8>) -> bool {
    &&& p.len() > 0
    &&& !has_start_code(p)
    &&& p.last() != 0
    &&& !is_sei(p[0])
}

/// A reader in the middle of a stream, between two units.
pub open spec fn between_units(rb: Seq<u8>) -> ReaderState {
    ReaderState { read_buffer: rb, nal_buffer: Seq::empty(), zeros: 0, prefix_parsed: true }
}

/// Scanning the payload of a unit collects it whole and leaves no zero
/// counted, whatever follows it.
proof fn lemma_scan_payload(p: Seq<u8>, i: int, z: nat, tail: Seq<u8>, ended: bool)
    requires
        p.len() > 0,
        !has_start_code(p),
        p.last() != 0,
        0 <= i <= p.len(),
        z <= i,
        forall|j: int| i - z <= j < i ==> p[j] == 0,
    ensures
        spec_scan(
            ReaderState { read_buffer: p.skip(i) + tail, nal_buffer: p.take(i), zeros: z, prefix_parsed: true },
            ended,
        ) == spec_scan(
            ReaderState { read_buffer: tail, nal_buffer: p, zeros: 0, prefix_parsed: true },
            ended,
        ),
    decreases p.len() - i,
{
    if i == p.len() {
        if z > 0 {
            assert(p[p.len() - 1] == 0);
        }
        assert(p.skip(i) + tail =~= tail);
        assert(p.take(i) =~= p);
    } else {
        let rb = p.skip(i) + tail;
        let b = p[i];
        assert(rb[0] == b);
        assert(rb.drop_first() =~= p.skip(i + 1) + tail);
        if b == 1 && z >= 2 {
            assert(p[i - 1] == 0 && p[i - 2] == 0);
            assert(has_start_code(p));
        }
        let (nal, zeros, found) = spec_process_byte(p.take(i), z, b);
        assert(!found);
        assert(nal.push(b) =~= p.take(i + 1));
        lemma_scan_payload(p, i + 1, zeros, tail, ended);
    }
}

/// A start code after a collected unit hands the unit out, or, for an SEI
/// unit, drops it and goes on after the start code.
proof fn lemma_start_code_ends_unit(p: Seq<u8>, sc: Seq<u8>, rest: Seq<u8>, ended: bool)
    requires
        p.len() > 0,
        is_start_code(sc),
    ensures
        spec_scan(
            ReaderState { read_buffer: sc + rest, nal_buffer: p, zeros: 0, prefix_parsed: true },
            ended,
        ) == if is_sei(p[0]) {
            spec_scan(between_units(rest), ended)
        } else {
            (between_units(rest), Outcome::Nal(p))
        },
{
    let expected = if is_sei(p[0]) {
        spec_scan(between_units(rest), ended)
    } else {
        (between_units(rest), Outcome::Nal(p))
    };
    let z1 = p.push(0u8);
    let z2 = z1.push(0u8);
    if sc == seq![0u8, 0u8, 1u8] {
        let s1 = ReaderState { read_buffer: (sc + rest).drop_first(), nal_buffer: z1, zeros: 1, prefix_parsed: true };
        let s2 = ReaderState { read_buffer: s1.read_buffer.drop_first(), nal_buffer: z2, zeros: 2, prefix_parsed: true };
        assert(s2.read_buffer[0] == 1u8);
        assert(s2.read_buffer.drop_first() =~= rest);
        assert(z2.take(z2.len() - 2) =~= p);
        assert(spec_scan(s2, ended) == expected);
        assert(spec_scan(s1, ended) == spec_scan(s2, ended));
    } else {
        let z3 = z2.push(0u8);
        let s1 = ReaderState { read_buffer: (sc + rest).drop_first(), nal_buffer: z1, zeros: 1, prefix_parsed: true };
        let s2 = ReaderState { read_buffer: s1.read_buffer.drop_first(), nal_buffer: z2, zeros: 2, prefix_parsed: true };
        let s3 = ReaderState { read_buffer: s2.read_buffer.drop_first(), nal_buffer: z3, zeros: 3, prefix_parsed: true };
        assert(s3.read_buffer[0] == 1u8);
        assert(s3.read_buffer.drop_first() =~= rest);
        assert(z3.take(z3.len() - 3) =~= p);
        assert(spec_scan(s3, ended) == expected);
        assert(spec_scan(s2, ended) == spec_scan(s3, ended));
        assert(spec_scan(s1, ended) == spec_scan(s2, ended));
    }
}

/// Between two units, the bytes up to the next start code come out as the
/// next NAL unit, and the reader then stands right after that start code.
pub proof fn lemma_unit_before_start_code(p: Seq<u8>, sc: Seq<u8>, rest: Seq<u8>, ended: bool)
    requires
        delimited_unit(p),
        is_start_code(sc),
    ensures
        spec_next_nal(between_units(p + sc + rest), ended) == (
            between_units(rest),
            Outcome::Nal(p),
        ),
{
    lemma_scan_payload(p, 0, 0, sc + rest, ended);
    assert(p.skip(0) + (sc + rest) =~= p + sc + rest);
    assert(p.take(0) =~= Seq::<u8>::empty());
    lemma_start_code_ends_unit(p, sc, rest, ended);
}

/// A stream that starts with either start code yields its first unit as
/// the first NAL.
pub proof fn lemma_first_unit(lead: Seq<u8>, p: Seq<u8>, sc: Seq<u8>, rest: Seq<u8>, ended: bool)
    requires
        is_start_code(lead),
        delimited_unit(p),
        is_start_code(sc),
    ensures
        spec_next_nal(with_read_buffer(initial_state(), lead + p + sc + rest), ended) == (
            between_units(rest),
            Outcome::Nal(p),
        ),
{
    let rb = lead + p + sc + rest;
    if lead == seq![0u8, 0u8, 0u8, 1u8] {
        assert(rb.take(4) =~= lead);
        assert(rb.take(4).take(3) =~= seq![0u8, 0u8, 0u8]);
        assert(rb.take(4).take(3) != seq![0u8, 0u8, 1u8]) by {
            assert(rb.take(4).take(3)[2] == 0u8);
        }
        assert(rb.skip(4) =~= p + sc + rest);
        lemma_unit_before_start_code(p, sc, rest, ended);
    } else {
        assert(rb.take(4) =~= seq![0u8, 0u8, 1u8, p[0]]);
        assert(rb.take(4).take(3) =~= seq![0u8, 0u8, 1u8]);
        assert(rb.skip(4) =~= p.skip(1) + (sc + rest));
        assert(Seq::<u8>::empty().push(p[0]) =~= p.take(1));
        lemma_scan_payload(p, 1, 0, sc + rest, ended);
        lemma_start_code_ends_unit(p, sc, rest, ended);
    }
}

/// Scanning leaves the mark of the leading start code as it is.
proof fn lemma_scan_keeps_prefix(s: ReaderState, ended: bool)
    ensures
        spec_scan(s, ended).0.prefix_parsed == s.prefix_parsed,
    decreases s.read_buffer.len(),
{
    if s.read_buffer.len() > 0 {
        let b = s.read_buffer[0];
        let (nal, zeros, found) = spec_process_byte(s.nal_buffer, s.zeros, b);
        let rest = s.read_buffer.drop_first();
        if found {
            lemma_scan_keeps_prefix(
                ReaderState { read_buffer: rest, nal_buffer: Seq::empty(), zeros: zeros, prefix_parsed: s.prefix_parsed },
                ended,
            );
        } else {
            lemma_scan_keeps_prefix(
                ReaderState { read_buffer: rest, nal_buffer: nal.push(b), zeros: zeros, prefix_parsed: s.prefix_parsed },
                ended,
            );
        }
    }
}

/// Scanning that stops for input has consumed everything it was given.
proof fn lemma_scan_resumes(s: ReaderState, extra: Seq<u8>, ended: bool)
    requires
        spec_scan(s, false).1 == Outcome::NeedInput,
    ensures
        spec_scan(with_read_buffer(s, s.read_buffer + extra), ended) == spec_scan(
            with_read_buffer(spec_scan(s, false).0, spec_scan(s, false).0.read_buffer + extra),
            ended,
        ),
    decreases s.read_buffer.len(),
{
    if s.read_buffer.len() == 0 {
        assert(spec_scan(s, false).0 == s);
    } else {
        let rb = s.read_buffer + extra;
        assert(rb[0] == s.read_buffer[0]);
        assert(rb.drop_first() =~= s.read_buffer.drop_first() + extra);
        let b = s.read_buffer[0];
        let (nal, zeros, found) = spec_process_byte(s.nal_buffer, s.zeros, b);
        if found {
            let next = ReaderState {
                read_buffer: s.read_buffer.drop_first(),
                nal_buffer: Seq::empty(),
                zeros: zeros,
                prefix_parsed: s.prefix_parsed,
            };
            assert(is_sei(nal[0]));
            lemma_scan_resumes(next, extra, ended);
            assert(with_read_buffer(next, next.read_buffer + extra) == ReaderState {
                read_buffer: rb.drop_first(),
                nal_buffer: Seq::empty(),
                zeros: zeros,
                prefix_parsed: s.prefix_parsed,
            });
        } else {
            let next = ReaderState {
                read_buffer: s.read_buffer.drop_first(),
                nal_buffer: nal.push(b),
                zeros: zeros,
                prefix_parsed: s.prefix_parsed,
            };
            lemma_scan_resumes(next, extra, ended);
            assert(with_read_buffer(next, next.read_buffer + extra) == ReaderState {
                read_buffer: rb.drop_first(),
                nal_buffer: nal.push(b),
                zeros: zeros,
                prefix_parsed: s.prefix_parsed,
            });
        }
    }
}

/// Where `next_nal` asks for input, handing it more bytes later gives the
/// same result as if those bytes had been there from the start: how the
/// source splits the stream into chunks does not matter.
pub proof fn lemma_more_input_resumes(s: ReaderState, extra: Seq<u8>, ended: bool)
    requires
        spec_next_nal(s, false).1 == Outcome::NeedInput,
    ensures
        spec_next_nal(with_read_buffer(s, s.read_buffer + extra), ended) == spec_next_nal(
            with_read_buffer(spec_next_nal(s, false).0, spec_next_nal(s, false).0.read_buffer + extra),
            ended,
        ),
{
    if s.prefix_parsed {
        lemma_scan_resumes(s, extra, ended);
        lemma_scan_keeps_prefix(s, false);
    } else if s.read_buffer.len() < 4 {
        assert(spec_next_nal(s, false).0 == s);
    } else {
        let rb = s.read_buffer + extra;
        assert(rb.take(4) =~= s.read_buffer.take(4));
        assert(rb.skip(4) =~= s.read_buffer.skip(4) + extra);
        let p = s.read_buffer.take(4);
        let s1 = with_read_buffer(s, s.read_buffer.skip(4));
        if p.take(3) == seq![0u8, 0u8, 1u8] {
            let t = ReaderState {
                read_buffer: s1.read_buffer,
                nal_buffer: s.nal_buffer.push(p[3]),
                zeros: s.zeros,
                prefix_parsed: true,
            };
            lemma_scan_resumes(t, extra, ended);
            lemma_scan_keeps_prefix(t, false);
            assert(with_read_buffer(t, t.read_buffer + extra) == ReaderState {
                read_buffer: rb.skip(4),
                nal_buffer: s.nal_buffer.push(rb.take(4)[3]),
                zeros: s.zeros,
                prefix_parsed: true,
            });
        } else if p == seq![0u8, 0u8, 0u8, 1u8] {
            let t = prefix_read(s1);
            lemma_scan_resumes(t, extra, ended);
            lemma_scan_keeps_prefix(t, false);
            assert(with_read_buffer(t, t.read_buffer + extra) == prefix_read(
                with_read_buffer(s, rb.skip(4)),
            ));
        }
    }
}

/// Once the source has ended, scanning always comes to a result.
proof fn lemma_scan_ended_answers(s: ReaderState)
    ensures
        spec_scan(s, true).1 != Outcome::NeedInput,
    decreases s.read_buffer.len(),
{
    if s.read_buffer.len() > 0 {
        let b = s.read_buffer[0];
        let (nal, zeros, found) = spec_process_byte(s.nal_buffer, s.zeros, b);
        let rest = s.read_buffer.drop_first();
        if found {
            lemma_scan_ended_answers(
                ReaderState { read_buffer: rest, nal_buffer: Seq::empty(), zeros: zeros, prefix_parsed: s.prefix_parsed },
            );
        } else {
            lemma_scan_ended_answers(
                ReaderState { read_buffer: rest, nal_buffer: nal.push(b), zeros: zeros, prefix_parsed: s.prefix_parsed },
            );
        }
    }
}

/// Once the source has ended, `next_nal` never asks for input again: it
/// hands out a unit or an error.
pub proof fn lemma_ended_never_waits(s: ReaderState)
    ensures
        spec_next_nal(s, true).1 != Outcome::NeedInput,
{
    if s.prefix_parsed {
        lemma_scan_ended_answers(s);
    } else if s.read_buffer.len() >= 3 {
        let n: int = if s.read_buffer.len() < 4 { s.read_buffer.len() as int } else { 4 };
        let p = s.read_buffer.take(n);
        let s1 = with_read_buffer(s, s.read_buffer.skip(n));
        if n == 4 && p.take(3) == seq![0u8, 0u8, 1u8] {
            lemma_scan_ended_answers(
                ReaderState {
                    read_buffer: s1.read_buffer,
                    nal_buffer: s.nal_buffer.push(p[3]),
                    zeros: s.zeros,
                    prefix_parsed: true,
                },
            );
        } else if n == 4 {
            lemma_scan_ended_answers(prefix_read(s1));
        }
    }
}

/// Without the end of input, a unit is handed out only when a start code
/// ends it, so it is never SEI.
proof fn lemma_scan_skips_sei(s: ReaderState)
    ensures
        spec_scan(s, false).1 matches Outcome::Nal(d) ==> !is_sei(d[0]),
    decreases s.read_buffer.len(),
{
    if s.read_buffer.len() > 0 {
        let b = s.read_buffer[0];
        let (nal, zeros, found) = spec_process_byte(s.nal_buffer, s.zeros, b);
        let rest = s.read_buffer.drop_first();
        if found {
            lemma_scan_skips_sei(
                ReaderState { read_buffer: rest, nal_buffer: Seq::empty(), zeros: zeros, prefix_parsed: s.prefix_parsed },
            );
        } else {
            lemma_scan_skips_sei(
                ReaderState { read_buffer: rest, nal_buffer: nal.push(b), zeros: zeros, prefix_parsed: s.prefix_parsed },
            );
        }
    }
}

/// SEI units are dropped: while the source has not ended, no unit that
/// `next_nal` hands out is of type SEI.
pub proof fn lemma_sei_never_handed_out(s: ReaderState)
    ensures
        spec_next_nal(s, false).1 matches Outcome::Nal(d) ==> !is_sei(d[0]),
{
    if s.prefix_parsed {
        lemma_scan_skips_sei(s);
    } else if s.read_buffer.len() >= 4 {
        let p = s.read_buffer.take(4);
        let s1 = with_read_buffer(s, s.read_buffer.skip(4));
        if p.take(3) == seq![0u8, 0u8, 1u8] {
            lemma_scan_skips_sei(
                ReaderState {
                    read_buffer: s1.read_buffer,
                    nal_buffer: s.nal_buffer.push(p[3]),
                    zeros: s.zeros,
                    prefix_parsed: true,
                },
            );
        } else {
            lemma_scan_skips_sei(prefix_read(s1));
        }
    }
}

/// Bytes that can stand as one unit of a stream: not empty, starting and
/// ending with a non-zero byte, and holding no start code.
pub open spec fn stream_unit(u: Seq<u8>) -> bool {
    &&& u.len() > 0
    &&& u[0] != 0
    &&& u.last() != 0
    &&& !has_start_code(u)
}

/// The units with the start codes `codes` between each two.
pub open spec fn encode(units: Seq<Seq<u8>>, codes: Seq<Seq<u8>>) -> Seq<u8>
    decreases units.len(),
{
    if units.len() == 0 {
        Seq::empty()
    } else if units.len() == 1 {
        units[0]
    } else {
        units[0] + codes[0] + encode(units.drop_first(), codes.drop_first())
    }
}

/// The units that the reader hands out of a stream of `units`: all but
/// the SEI units, except that the last unit, which the end of the input
/// closes, is handed out whatever its type.
pub open spec fn handed_out(units: Seq<Seq<u8>>) -> Seq<Seq<u8>>
    decreases units.len(),
{
    if units.len() <= 1 {
        units
    } else if is_sei(units[0][0]) {
        handed_out(units.drop_first())
    } else {
        seq![units[0]] + handed_out(units.drop_first())
    }
}

/// The outcomes of `n` successive calls of `next_nal` from state `s`, the
/// whole input being held and the source having ended.
pub open spec fn run(s: ReaderState, n: nat) -> Seq<Outcome>
    decreases n,
{
    if n == 0 {
        Seq::empty()
    } else {
        seq![spec_next_nal(s, true).1] + run(spec_next_nal(s, true).0, (n - 1) as nat)
    }
}

/// What the reader gives for a stream of `units`: each unit handed out, in
/// order, then `ErrIoEOF`.
pub open spec fn stream_outcomes(units: Seq<Seq<u8>>) -> Seq<Outcome> {
    handed_out(units).map_values(|u: Seq<u8>| Outcome::Nal(u)).push(
        Outcome::EndOfStream("self.nal_buffer.is_empty()"@),
    )
}

/// The units and start codes of a well-formed stream.
pub open spec fn well_formed_stream(units: Seq<Seq<u8>>, codes: Seq<Seq<u8>>) -> bool {
    &&& units.len() >= 1
    &&& codes.len() + 1 == units.len()
    &&& forall|i: int| 0 <= i < units.len() ==> stream_unit(#[trigger] units[i])
    &&& forall|j: int| 0 <= j < codes.len() ==> is_start_code(#[trigger] codes[j])
}

proof fn lemma_run_same_start(a: ReaderState, b: ReaderState, n: nat)
    requires
        spec_next_nal(a, true) == spec_next_nal(b, true),
        n > 0,
    ensures
        run(a, n) == run(b, n),
{
}

proof fn lemma_encode_first(units: Seq<Seq<u8>>, codes: Seq<Seq<u8>>)
    requires
        well_formed_stream(units, codes),
    ensures
        encode(units, codes).len() > 0,
        encode(units, codes)[0] == units[0][0],
{
    assert(stream_unit(units[0]));
}

/// The last unit, closed by the end of the input, is handed out, and then
/// `ErrIoEOF` comes.
proof fn lemma_run_last_unit(u: Seq<u8>)
    requires
        stream_unit(u),
    ensures
        run(between_units(u), 2) == seq![
            Outcome::Nal(u),
            Outcome::EndOfStream("self.nal_buffer.is_empty()"@),
        ],
{
    lemma_scan_payload(u, 0, 0, Seq::empty(), true);
    assert(u.skip(0) + Seq::<u8>::empty() =~= u);
    assert(u.take(0) =~= Seq::<u8>::empty());
    let after = ReaderState { read_buffer: Seq::empty(), nal_buffer: u, zeros: 0, prefix_parsed: true };
    assert(spec_scan(after, true) == (between_units(Seq::empty()), Outcome::Nal(u)));
    assert(spec_next_nal(between_units(u), true) == (between_units(Seq::empty()), Outcome::Nal(u)));
    let rest = run(between_units(Seq::empty()), 1);
    assert(rest == seq![Outcome::EndOfStream("self.nal_buffer.is_empty()"@)]) by {
        assert(run(between_units(Seq::empty()), 0) == Seq::<Outcome>::empty());
    }
    assert(run(between_units(u), 2) =~= seq![Outcome::Nal(u)] + rest);
}

proof fn lemma_run_between(units: Seq<Seq<u8>>, codes: Seq<Seq<u8>>)
    requires
        well_formed_stream(units, codes),
    ensures
        run(between_units(encode(units, codes)), handed_out(units).len() + 1) == stream_outcomes(
            units,
        ),
    decreases units.len(),
{
    assert(stream_unit(units[0]));
    if units.len() == 1 {
        lemma_run_last_unit(units[0]);
        assert(stream_outcomes(units) =~= seq![
            Outcome::Nal(units[0]),
            Outcome::EndOfStream("self.nal_buffer.is_empty()"@),
        ]);
    } else {
        let u = units[0];
        let sc = codes[0];
        let tail = units.drop_first();
        let ctail = codes.drop_first();
        let rest = encode(tail, ctail);
        assert(is_start_code(sc));
        assert(well_formed_stream(tail, ctail)) by {
            assert forall|i: int| 0 <= i < tail.len() implies stream_unit(#[trigger] tail[i]) by {
                assert(tail[i] == units[i + 1]);
            }
            assert forall|j: int| 0 <= j < ctail.len() implies is_start_code(#[trigger] ctail[j]) by {
                assert(ctail[j] == codes[j + 1]);
            }
        }
        lemma_run_between(tail, ctail);
        assert(encode(units, codes) == u + sc + rest);
        lemma_scan_payload(u, 0, 0, sc + rest, true);
        assert(u.skip(0) + (sc + rest) =~= u + sc + rest);
        assert(u.take(0) =~= Seq::<u8>::empty());
        lemma_start_code_ends_unit(u, sc, rest, true);
        let m = handed_out(tail).len();
        if is_sei(u[0]) {
            assert(spec_next_nal(between_units(u + sc + rest), true) == spec_next_nal(
                between_units(rest),
                true,
            ));
            lemma_run_same_start(between_units(u + sc + rest), between_units(rest), m + 1);
        } else {
            assert(spec_next_nal(between_units(u + sc + rest), true) == (
                between_units(rest),
                Outcome::Nal(u),
            ));
            assert(handed_out(units) == seq![u] + handed_out(tail));
            assert(run(between_units(u + sc + rest), m + 2) == seq![Outcome::Nal(u)] + run(
                between_units(rest),
                m + 1,
            ));
            assert(stream_outcomes(units) =~= seq![Outcome::Nal(u)] + stream_outcomes(tail));
        }
    }
}

/// A whole stream: after either leading start code, successive calls of
/// `next_nal` hand out the stream's units in order, SEI units dropped
/// except the last unit, which the end of the input closes; then
/// `ErrIoEOF`.
pub proof fn lemma_whole_stream(lead: Seq<u8>, units: Seq<Seq<u8>>, codes: Seq<Seq<u8>>)
    requires
        is_start_code(lead),
        well_formed_stream(units, codes),
    ensures
        run(
            with_read_buffer(initial_state(), lead + encode(units, codes)),
            handed_out(units).len() + 1,
        ) == stream_outcomes(units),
{
    let x = encode(units, codes);
    lemma_encode_first(units, codes);
    lemma_run_between(units, codes);
    let start = with_read_buffer(initial_state(), lead + x);
    let rb = lead + x;
    if lead == seq![0u8, 0u8, 0u8, 1u8] {
        assert(rb.take(4) =~= lead);
        assert(rb.take(4).take(3) != seq![0u8, 0u8, 1u8]) by {
            assert(rb.take(4).take(3)[2] == 0u8);
        }
        assert(rb.skip(4) =~= x);
        assert(prefix_read(with_read_buffer(start, rb.skip(4))) == between_units(x));
    } else {
        assert(rb.take(4) =~= seq![0u8, 0u8, 1u8, x[0]]);
        assert(rb.take(4).take(3) =~= seq![0u8, 0u8, 1u8]);
        assert(rb.skip(4) =~= x.drop_first());
        assert(Seq::<u8>::empty().push(x[0]) =~= seq![x[0]]);
        let (n0, z0, f0) = spec_process_byte(Seq::empty(), 0, x[0]);
        assert(!f0 && n0 == Seq::<u8>::empty() && z0 == 0);
    }
    assert(spec_next_nal(start, true) == spec_next_nal(between_units(x), true));
    lemma_run_same_start(start, between_units(x), handed_out(units).len() + 1);
}

/// The number of zero bytes that `q` ends with.
pub open spec fn trailing_zeros(q: Seq<u8>) -> nat
    decreases q.len(),
{
    if q.len() == 0 || q.last() != 0 {
        0
    } else {
        1 + trailing_zeros(q.drop_last())
    }
}

proof fn lemma_trailing_zeros_are_zero(q: Seq<u8>, j: int)
    requires
        0 <= j < trailing_zeros(q),
    ensures
        j < q.len(),
        q[q.len() - 1 - j] == 0,
    decreases q.len(),
{
    if j > 0 {
        lemma_trailing_zeros_are_zero(q.drop_last(), j - 1);
    }
}

proof fn lemma_no_start_code_prefix(q: Seq<u8>, k: int)
    requires
        !has_start_code(q),
        0 <= k <= q.len(),
    ensures
        !has_start_code(q.take(k)),
{
    let t = q.take(k);
    assert forall|i: int| 2 <= i < t.len() implies !(#[trigger] t[i] == 1 && t[i - 1] == 0 && t[i
        - 2] == 0) by {
        assert(t[i] == q[i] && t[i - 1] == q[i - 1] && t[i - 2] == q[i - 2]);
        if q[i] == 1 && q[i - 1] == 0 && q[i - 2] == 0 {
            assert(has_start_code(q));
        }
    }
}

/// Scanning bytes that hold no start code, without the end of the input,
/// only collects them.
proof fn lemma_scan_collects(p: Seq<u8>, i: int)
    requires
        !has_start_code(p),
        0 <= i <= p.len(),
    ensures
        spec_scan(
            ReaderState {
                read_buffer: p.skip(i),
                nal_buffer: p.take(i),
                zeros: trailing_zeros(p.take(i)),
                prefix_parsed: true,
            },
            false,
        ) == (
            ReaderState {
                read_buffer: Seq::empty(),
                nal_buffer: p,
                zeros: trailing_zeros(p),
                prefix_parsed: true,
            },
            Outcome::NeedInput,
        ),
    decreases p.len() - i,
{
    if i == p.len() {
        assert(p.skip(i) =~= Seq::<u8>::empty());
        assert(p.take(i) =~= p);
    } else {
        let q = p.take(i);
        let z = trailing_zeros(q);
        let b = p[i];
        let rb = p.skip(i);
        assert(rb[0] == b);
        assert(rb.drop_first() =~= p.skip(i + 1));
        let q1 = p.take(i + 1);
        assert(q.push(b) =~= q1);
        assert(q1.drop_last() =~= q);
        if b == 1 && z >= 2 {
            lemma_trailing_zeros_are_zero(q, 0);
            lemma_trailing_zeros_are_zero(q, 1);
            assert(p[i - 1] == 0 && p[i - 2] == 0);
            assert(has_start_code(p));
        }
        let (nal, zeros, found) = spec_process_byte(q, z, b);
        assert(!found);
        assert(zeros == trailing_zeros(q1));
        lemma_scan_collects(p, i + 1);
    }
}

/// While the source has not ended, a unit is handed out only when a start
/// code closes it: between units, bytes that hold no start code are all
/// collected into the unit being read, whatever their number, and the
/// reader asks for more input.
pub proof fn lemma_open_unit_waits(p: Seq<u8>)
    requires
        !has_start_code(p),
    ensures
        spec_next_nal(between_units(p), false) == (
            ReaderState {
                read_buffer: Seq::empty(),
                nal_buffer: p,
                zeros: trailing_zeros(p),
                prefix_parsed: true,
            },
            Outcome::NeedInput,
        ),
{
    assert(p.skip(0) =~= p);
    assert(p.take(0) =~= Seq::<u8>::empty());
    lemma_scan_collects(p, 0);
}

/// In the middle of a unit too: with the bytes `q` collected and the zero
/// count exact, held bytes `r` that add no start code are collected and the
/// reader asks for more input, however many bytes the unit then has.
pub proof fn lemma_collecting_waits(q: Seq<u8>, r: Seq<u8>)
    requires
        !has_start_code(q + r),
    ensures
        spec_next_nal(
            ReaderState { read_buffer: r, nal_buffer: q, zeros: trailing_zeros(q), prefix_parsed: true },
            false,
        ) == (
            ReaderState {
                read_buffer: Seq::empty(),
                nal_buffer: q + r,
                zeros: trailing_zeros(q + r),
                prefix_parsed: true,
            },
            Outcome::NeedInput,
        ),
{
    let p = q + r;
    assert(p.skip(q.len() as int) =~= r);
    assert(p.take(q.len() as int) =~= q);
    lemma_scan_collects(p, q.len() as int);
}

/// The same from a fresh reader: after either leading start code, the first
/// bytes of a unit that hold no start code are collected and the reader
/// asks for more input, however many they are.
pub proof fn lemma_first_bytes_wait(lead: Seq<u8>, p: Seq<u8>)
    requires
        is_start_code(lead),
        p.len() > 0,
        p[0] != 0,
        !has_start_code(p),
    ensures
        spec_next_nal(with_read_buffer(initial_state(), lead + p), false) == (
            ReaderState {
                read_buffer: Seq::empty(),
                nal_buffer: p,
                zeros: trailing_zeros(p),
                prefix_parsed: true,
            },
            Outcome::NeedInput,
        ),
{
    let rb = lead + p;
    if lead == seq![0u8, 0u8, 0u8, 1u8] {
        assert(rb.take(4) =~= lead);
        assert(rb.take(4).take(3) != seq![0u8, 0u8, 1u8]) by {
            assert(rb.take(4).take(3)[2] == 0u8);
        }
        assert(rb.skip(4) =~= p);
        lemma_open_unit_waits(p);
    } else {
        assert(rb.take(4) =~= seq![0u8, 0u8, 1u8, p[0]]);
        assert(rb.take(4).take(3) =~= seq![0u8, 0u8, 1u8]);
        assert(rb.skip(4) =~= p.skip(1));
        assert(Seq::<u8>::empty().push(p[0]) =~= p.take(1));
        assert(p.take(1).drop_last() =~= Seq::<u8>::empty());
        assert(trailing_zeros(p.take(1)) == 0);
        lemma_scan_collects(p, 1);
    }
}

/// A unit whose bytes reach the reader over two reads comes out whole:
/// after the first part has been collected (the reader asking for more),
/// handing it the rest and the closing start code gives the unit as one.
pub proof fn lemma_unit_split_across_reads(
    p: Seq<u8>,
    r: Seq<u8>,
    sc: Seq<u8>,
    rest: Seq<u8>,
    ended: bool,
)
    requires
        delimited_unit(p + r),
        is_start_code(sc),
    ensures
        spec_next_nal(between_units(p), false).1 == Outcome::NeedInput,
        spec_next_nal(
            with_read_buffer(spec_next_nal(between_units(p), false).0, r + sc + rest),
            ended,
        ) == (between_units(rest), Outcome::Nal(p + r)),
{
    let u = p + r;
    assert(u.take(p.len() as int) =~= p);
    lemma_no_start_code_prefix(u, p.len() as int);
    lemma_open_unit_waits(p);
    let s = between_units(p);
    let s1 = spec_next_nal(s, false).0;
    lemma_more_input_resumes(s, r + sc + rest, ended);
    assert(s1.read_buffer + (r + sc + rest) =~= r + sc + rest);
    assert(s.read_buffer + (r + sc + rest) =~= u + sc + rest);
    assert(with_read_buffer(s, s.read_buffer + (r + sc + rest)) == between_units(u + sc + rest));
    lemma_unit_before_start_code(u, sc, rest, ended);
}

/// A stream that does not start with a start code is rejected as soon as
/// four bytes are held, whether or not the source has ended: the four
/// bytes are consumed and the answer is `ErrDataIsNotH264Stream`.
pub proof fn lemma_no_start_code_rejected(rb: Seq<u8>, ended: bool)
    requires
        rb.len() >= 4,
        rb.take(3) != seq![0u8, 0u8, 1u8],
        rb.take(4) != seq![0u8, 0u8, 0u8, 1u8],
    ensures
        spec_next_nal(with_read_buffer(initial_state(), rb), ended) == (
            with_read_buffer(initial_state(), rb.skip(4)),
            Outcome::NotH264("no nal prefix found"@),
        ),
{
    assert(rb.take(4).take(3) =~= rb.take(3));
}

} // verus!
