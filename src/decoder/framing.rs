//! How Track 1 and Track 2 payloads are laid out on a stripe, and the
//! proofs that the decoders read every such layout back.
use vstd::prelude::*;

use super::common::{
    bit_value, lemma_lsb_value_bound, lrc_track1, lrc_track2, lsb_value, ones, parity_holds, two_to,
    xor_all, xor_low6,
};
use super::track2::{
    canonical5, expected_track2_lrc, find_start, reverse5, track2_char, track2_decode, track2_scan,
    track2_symbol, TRACK2_END_SENTINEL, TRACK2_START_SENTINEL,
};
use super::track1::{
    track1_char, track1_decode, track1_scan, track1_seek, track1_symbol, TRACK1_END_SENTINEL,
    TRACK1_START_SENTINEL,
};
use crate::{DecoderError, ParityType};

verus! {

/// The low `w` bits of `c`, least significant first.
pub open spec fn lsb_bits(c: nat, w: nat) -> Seq<bool>
    decreases w,
{
    if w == 0 {
        seq![]
    } else {
        seq![c % 2 == 1] + lsb_bits(c / 2, (w - 1) as nat)
    }
}

/// The bits of the `w`-bit values `ws`, one after another, each least
/// significant bit first.
pub open spec fn symbols_bits(ws: Seq<u8>, w: nat) -> Seq<bool>
    decreases ws.len(),
{
    if ws.len() == 0 {
        seq![]
    } else {
        lsb_bits(ws[0] as nat, w) + symbols_bits(ws.drop_first(), w)
    }
}

/// The canonical character for four data bits: the data with the parity
/// bit that makes the number of ones odd.
pub open spec fn track2_encode(d: u8) -> u8 {
    if ones(d as nat, 4) % 2 == 0 {
        (d + 16) as u8
    } else {
        d
    }
}

/// The canonical characters that frame `payload`: the start sentinel, the
/// encoded data and the end sentinel.
pub open spec fn track2_frame(payload: Seq<u8>) -> Seq<u8> {
    seq![TRACK2_START_SENTINEL] + payload.map_values(|d: u8| track2_encode(d)) + seq![
        TRACK2_END_SENTINEL,
    ]
}

/// A 5-bit value in the wire's bit order, as a value read least significant
/// bit first.
pub open spec fn in_wire_order(c: u8, lsb_first: bool) -> u8 {
    if lsb_first {
        c
    } else {
        reverse5(c)
    }
}

/// A canonical character as it stands on the wire: complemented where the
/// polarity is inverted, in the wire's bit order.
pub open spec fn on_wire(c: u8, lsb_first: bool, inverted: bool) -> u8 {
    in_wire_order(
        if inverted {
            c ^ 0x1F
        } else {
            c
        },
        lsb_first,
    )
}

/// The values on the wire for `payload`: the frame as it stands on the wire,
/// followed by the LRC of the frame without its end sentinel, which is not
/// complemented.
pub open spec fn track2_wire(payload: Seq<u8>, lsb_first: bool, inverted: bool) -> Seq<u8> {
    let frame = track2_frame(payload);
    frame.map_values(|c: u8| on_wire(c, lsb_first, inverted)) + seq![
        in_wire_order(lrc_track2(frame.drop_last()), lsb_first),
    ]
}

/// The idle level of a stripe: the complement of the first bit that the
/// start sentinel puts on the wire.
pub open spec fn idle_level(lsb_first: bool, inverted: bool) -> bool {
    lsb_first == inverted
}

/// A Track 2 stripe holding `payload`: `preamble` bits of the idle level,
/// the wire values, then any bits at all.
pub open spec fn track2_stripe(
    payload: Seq<u8>,
    lsb_first: bool,
    inverted: bool,
    preamble: nat,
    tail: Seq<bool>,
) -> Seq<bool> {
    Seq::new(preamble, |i: int| idle_level(lsb_first, inverted)) + symbols_bits(
        track2_wire(payload, lsb_first, inverted),
        5,
    ) + tail
}

/// The characters that the data values of a Track 2 payload stand for.
pub open spec fn track2_text(payload: Seq<u8>) -> Seq<char> {
    payload.map_values(|d: u8| track2_char(d))
}

proof fn lemma_lsb_bits_len(c: nat, w: nat)
    ensures
        lsb_bits(c, w).len() == w,
    decreases w,
{
    if w > 0 {
        lemma_lsb_bits_len(c / 2, (w - 1) as nat);
    }
}

proof fn lemma_lsb_value_of_bits(bits: Seq<bool>, off: int, c: nat, w: nat)
    requires
        0 <= off,
        off + w <= bits.len(),
        c < two_to(w),
        forall|k: int| 0 <= k < w ==> bits[off + k] == #[trigger] lsb_bits(c, w)[k],
    ensures
        lsb_value(bits, off, w) == c,
    decreases w,
{
    if w > 0 {
        lemma_lsb_bits_len(c / 2, (w - 1) as nat);
        assert(bits[off] == lsb_bits(c, w)[0]);
        assert forall|k: int| 0 <= k < w - 1 implies bits[(off + 1) + k] == #[trigger] lsb_bits(
            c / 2,
            (w - 1) as nat,
        )[k] by {
            assert(bits[off + (k + 1)] == lsb_bits(c, w)[k + 1]);
        }
        lemma_lsb_value_of_bits(bits, off + 1, c / 2, (w - 1) as nat);
    }
}

proof fn lemma_symbols_bits(ws: Seq<u8>, w: nat)
    ensures
        symbols_bits(ws, w).len() == w * ws.len(),
        forall|j: int, k: int|
            0 <= j < ws.len() && 0 <= k < w ==> symbols_bits(ws, w)[w * j + k] == #[trigger] lsb_bits(
                ws[j] as nat,
                w,
            )[k],
    decreases ws.len(),
{
    if ws.len() > 0 {
        let rest = ws.drop_first();
        lemma_symbols_bits(rest, w);
        lemma_lsb_bits_len(ws[0] as nat, w);
        assert(w * ws.len() == w + w * rest.len()) by (nonlinear_arith)
            requires
                ws.len() == rest.len() + 1,
        ;
        assert forall|j: int, k: int| 0 <= j < ws.len() && 0 <= k < w implies symbols_bits(ws, w)[w
            * j + k] == #[trigger] lsb_bits(ws[j] as nat, w)[k] by {
            if j > 0 {
                assert(rest[j - 1] == ws[j]);
                assert(w * j + k == w + (w * (j - 1) + k)) by (nonlinear_arith);
                assert(0 <= w * (j - 1)) by (nonlinear_arith)
                    requires
                        j >= 1,
                ;
                assert(w * (j - 1) + k < w * rest.len()) by (nonlinear_arith)
                    requires
                        j - 1 < rest.len(),
                        k < w,
                ;
                assert(symbols_bits(rest, w)[w * (j - 1) + k] == lsb_bits(rest[j - 1] as nat, w)[k]);
            } else {
                assert(w * j + k == k) by (nonlinear_arith)
                    requires
                        j == 0,
                ;
            }
        }
    }
}

proof fn lemma_ones_top(d: nat, w: nat, b: nat)
    requires
        d < two_to(w),
        b <= 1,
    ensures
        ones(d + two_to(w) * b, w + 1) == ones(d, w) + b,
    decreases w,
{
    if w > 0 {
        let t = two_to((w - 1) as nat) * b;
        assert(two_to(w) * b == 2 * t) by {
            if b == 0 {
            } else {
            }
        }
        assert((d + 2 * t) / 2 == d / 2 + t);
        assert((d + 2 * t) % 2 == d % 2);
        lemma_ones_top(d / 2, (w - 1) as nat, b);
    } else {
        assert(ones(b, 1) == b % 2 + ones(b / 2, 0));
    }
}

proof fn lemma_wire_values(c: u8, lsb_first: bool, inverted: bool)
    by (bit_vector)
    requires
        c < 32,
    ensures
        on_wire(c, lsb_first, inverted) < 32,
        in_wire_order(c, lsb_first) < 32,
        canonical5(on_wire(c, lsb_first, inverted), lsb_first, inverted) == c,
        canonical5(in_wire_order(c, lsb_first), lsb_first, inverted) == (if inverted {
            c ^ 0x1F
        } else {
            c
        }),
        (c % 2 == 1) == idle_level(lsb_first, inverted) ==> canonical5(c, lsb_first, inverted)
            != TRACK2_START_SENTINEL,
{
}

proof fn lemma_encode(d: u8)
    requires
        d < 15,
    ensures
        track2_encode(d) < 31,
        track2_encode(d) & 0x0F == d,
        parity_holds(track2_encode(d) as nat, 5, ParityType::Odd),
{
    reveal_with_fuel(two_to, 5);
    lemma_ones_top(d as nat, 4, 1);
    lemma_ones_top(d as nat, 4, 0);
    assert(d < 16 ==> (d + 16) as u8 & 0x0F == d && d & 0x0F == d) by (bit_vector);
}

proof fn lemma_xor_all_five_bits(s: Seq<u8>)
    requires
        forall|i: int| 0 <= i < s.len() ==> s[i] < 32,
    ensures
        xor_all(s) < 32,
        lrc_track2(s) < 32,
    decreases s.len(),
{
    if s.len() > 0 {
        lemma_xor_all_five_bits(s.drop_last());
        let x = xor_all(s.drop_last());
        let y = s.last();
        assert(x < 32 && y < 32 ==> x ^ y < 32) by (bit_vector);
    }
    let z = xor_all(s);
    assert(z < 32 ==> z ^ 0x10 < 32) by (bit_vector);
}

proof fn lemma_find_start_skips(bits: Seq<bool>, from: int, p: int, lsb_first: bool, inverted: bool)
    requires
        0 <= from <= p,
        p + 5 <= bits.len(),
        track2_symbol(bits, p, lsb_first, inverted) == TRACK2_START_SENTINEL,
        forall|q: int| 0 <= q < p ==> #[trigger] track2_symbol(bits, q, lsb_first, inverted)
            != TRACK2_START_SENTINEL,
    ensures
        find_start(bits, from, lsb_first, inverted) == Some(p),
    decreases p - from,
{
    if from < p {
        assert(track2_symbol(bits, from, lsb_first, inverted) != TRACK2_START_SENTINEL);
        lemma_find_start_skips(bits, from + 1, p, lsb_first, inverted);
    }
}

proof fn lemma_scan_frame(
    payload: Seq<u8>,
    lsb_first: bool,
    inverted: bool,
    bits: Seq<bool>,
    p: int,
    j: int,
)
    requires
        0 <= j <= payload.len(),
        0 <= p,
        p + 5 * (payload.len() + 3) <= bits.len(),
        forall|i: int| 0 <= i < payload.len() ==> payload[i] < 15,
        payload.len() > 0,
        forall|i: int|
            0 <= i < payload.len() + 2 ==> #[trigger] track2_frame(payload)[i] < 32 && (1 <= i
                <= payload.len() ==> track2_frame(payload)[i] == track2_encode(payload[i - 1])),
        forall|i: int|
            0 <= i < payload.len() + 3 ==> #[trigger] track2_symbol(bits, p + 5 * i, lsb_first, inverted)
                == (if i < payload.len() + 2 {
                track2_frame(payload)[i]
            } else {
                expected_track2_lrc(track2_frame(payload).drop_last(), inverted)
            }),
    ensures
        track2_scan(
            bits,
            p + 5 * (j + 1),
            lsb_first,
            inverted,
            true,
            false,
            track2_frame(payload).subrange(0, j + 1),
            track2_text(payload.subrange(0, j)),
        ) == Ok::<Seq<char>, DecoderError>(track2_text(payload)),
    decreases payload.len() - j,
{
    let m = payload.len() as int;
    let frame = track2_frame(payload);
    let offset = p + 5 * (j + 1);
    let c = track2_symbol(bits, offset, lsb_first, inverted);
    assert(c == frame[j + 1]);
    if j < m {
        let d = payload[j];
        lemma_encode(d);
        assert(c == track2_encode(d));
        assert(frame.subrange(0, j + 1).push(c) =~= frame.subrange(0, j + 2));
        assert(track2_text(payload.subrange(0, j)).push(track2_char(c & 0x0F)) =~= track2_text(
            payload.subrange(0, j + 1),
        ));
        assert(p + 5 * (j + 1) + 5 == p + 5 * (j + 2));
        lemma_scan_frame(payload, lsb_first, inverted, bits, p, j + 1);
    } else {
        assert(c == TRACK2_END_SENTINEL);
        reveal_with_fuel(ones, 6);
        assert(parity_holds(c as nat, 5, ParityType::Odd));
        assert(track2_symbol(bits, p + 5 * (m + 2), lsb_first, inverted) == expected_track2_lrc(
            frame.drop_last(),
            inverted,
        ));
        assert(offset + 5 == p + 5 * (m + 2));
        assert(frame.subrange(0, j + 1) =~= frame.drop_last());
        assert(payload.subrange(0, j) =~= payload);
    }
}

/// A Track 2 payload of data values other than the end sentinel's, laid out
/// as `track2_stripe` lays it out, decodes to exactly its characters, with
/// the bit order and polarity that it was laid out with.
pub proof fn track2_round_trip(
    payload: Seq<u8>,
    lsb_first: bool,
    inverted: bool,
    preamble: nat,
    tail: Seq<bool>,
)
    requires
        payload.len() > 0,
        forall|i: int| 0 <= i < payload.len() ==> payload[i] < 15,
    ensures
        track2_decode(
            track2_stripe(payload, lsb_first, inverted, preamble, tail),
            inverted,
            lsb_first,
            false,
            false,
        )
            == Ok::<Seq<char>, DecoderError>(track2_text(payload)),
{
    let m = payload.len() as int;
    let frame = track2_frame(payload);
    let wire = track2_wire(payload, lsb_first, inverted);
    let bits = track2_stripe(payload, lsb_first, inverted, preamble, tail);
    let p = preamble as int;
    let lrc = lrc_track2(frame.drop_last());
    assert(frame.len() == m + 2);
    assert(wire.len() == m + 3);
    lemma_symbols_bits(wire, 5);
    reveal_with_fuel(two_to, 6);
    assert forall|j: int| 0 <= j < m + 2 implies #[trigger] frame[j] < 32 && (1 <= j <= m ==> frame[j]
        == track2_encode(payload[j - 1])) by {
        if 1 <= j <= m {
            lemma_encode(payload[j - 1]);
        }
    }
    lemma_xor_all_five_bits(frame.drop_last());
    // Every symbol of the wire reads back as its canonical character.
    assert forall|j: int| 0 <= j < m + 3 implies #[trigger] track2_symbol(
        bits,
        p + 5 * j,
        lsb_first,
        inverted,
    ) == (if j < m + 2 {
        frame[j]
    } else {
        expected_track2_lrc(frame.drop_last(), inverted)
    }) by {
        let w = wire[j];
        if j < m + 2 {
            lemma_wire_values(frame[j], lsb_first, inverted);
        } else {
            lemma_wire_values(lrc, lsb_first, inverted);
        }
        assert(w < 32);
        assert forall|k: int| 0 <= k < 5 implies bits[(p + 5 * j) + k] == #[trigger] lsb_bits(
            w as nat,
            5,
        )[k] by {
            assert(bits[p + (5 * j + k)] == symbols_bits(wire, 5)[5 * j + k]);
        }
        lemma_lsb_value_of_bits(bits, p + 5 * j, w as nat, 5);
    }
    // The preamble holds no start sentinel.
    assert forall|q: int| 0 <= q < p implies #[trigger] track2_symbol(bits, q, lsb_first, inverted)
        != TRACK2_START_SENTINEL by {
        let v = lsb_value(bits, q, 5);
        lemma_lsb_value_bound(bits, q, 5);
        assert(bits[q] == idle_level(lsb_first, inverted));
        assert(v % 2 == bit_value(idle_level(lsb_first, inverted)));
        lemma_wire_values(v as u8, lsb_first, inverted);
    }
    assert(track2_symbol(bits, p + 5 * 0, lsb_first, inverted) == frame[0]);
    assert(p + 5 * 0 == p);
    lemma_find_start_skips(bits, 0, p, lsb_first, inverted);
    assert(find_start(bits, 0, lsb_first, inverted) == Some(p));
    lemma_scan_frame(payload, lsb_first, inverted, bits, p, 0);
    assert(frame.subrange(0, 1) =~= seq![TRACK2_START_SENTINEL]);
    assert(track2_text(payload.subrange(0, 0)) =~= Seq::<char>::empty());
}

/// The Track 1 character for six data bits: the data with the parity bit
/// that makes the number of ones odd.
pub open spec fn track1_encode(d: u8) -> u8 {
    if ones(d as nat, 6) % 2 == 0 {
        (d + 64) as u8
    } else {
        d
    }
}

/// The Track 1 characters of a stripe holding `payload`: `lead` spaces,
/// the start sentinel, the data and the end sentinel.
pub open spec fn track1_frame(payload: Seq<u8>, lead: nat) -> Seq<u8> {
    (Seq::new(lead, |i: int| 0u8) + seq![TRACK1_START_SENTINEL] + payload + seq![
        TRACK1_END_SENTINEL,
    ]).map_values(|d: u8| track1_encode(d))
}

/// The values on the wire for `payload`: the characters, complemented where
/// the polarity is inverted, followed by the LRC of the characters from the
/// start sentinel through the end sentinel, which stands on the wire as it is.
pub open spec fn track1_wire(payload: Seq<u8>, inverted: bool, lead: nat) -> Seq<u8> {
    let frame = track1_frame(payload, lead);
    frame.map_values(|c: u8| if inverted { c ^ 0x7F } else { c }) + seq![
        lrc_track1(frame.subrange(lead as int, frame.len() as int)),
    ]
}

/// A Track 1 stripe holding `payload`, followed by any bits at all.
pub open spec fn track1_stripe(payload: Seq<u8>, inverted: bool, lead: nat, tail: Seq<bool>) -> Seq<
    bool,
> {
    symbols_bits(track1_wire(payload, inverted, lead), 7) + tail
}

/// The characters that the data values of a Track 1 payload stand for.
pub open spec fn track1_text(payload: Seq<u8>) -> Seq<char> {
    payload.map_values(|d: u8| track1_char(d))
}

proof fn lemma_seven_bits(c: u8)
    by (bit_vector)
    requires
        c < 128,
    ensures
        c ^ 0x7F < 128,
        !(c ^ 0x7F) & 0x7F == c,
        c & 0x7F == c,
{
}

proof fn lemma_track1_encode(d: u8)
    requires
        d < 64,
    ensures
        track1_encode(d) < 128,
        track1_encode(d) & 0x3F == d,
        parity_holds(track1_encode(d) as nat, 7, ParityType::Odd),
{
    reveal_with_fuel(two_to, 7);
    lemma_ones_top(d as nat, 6, 1);
    lemma_ones_top(d as nat, 6, 0);
    assert(d < 64 ==> (d + 64) as u8 & 0x3F == d && d & 0x3F == d) by (bit_vector);
}

proof fn lemma_track1_seek(
    payload: Seq<u8>,
    inverted: bool,
    lead: nat,
    bits: Seq<bool>,
    j: int,
    result: Result<Seq<char>, DecoderError>,
)
    requires
        0 <= j <= lead,
        7 * (lead as int + 1) <= bits.len(),
        forall|i: int|
            0 <= i <= lead ==> #[trigger] track1_symbol(bits, 7 * i, inverted) == track1_frame(
                payload,
                lead,
            )[i],
        forall|i: int|
            0 <= i <= lead ==> #[trigger] track1_frame(payload, lead)[i] == track1_encode(
                if i < lead {
                    0u8
                } else {
                    TRACK1_START_SENTINEL
                },
            ),
        track1_scan(
            bits,
            7 * (lead as int + 1),
            inverted,
            seq![track1_frame(payload, lead)[lead as int]],
            seq![],
        ) == result,
    ensures
        track1_seek(bits, 7 * j, inverted) == result,
    decreases lead - j,
{
    let c = track1_symbol(bits, 7 * j, inverted);
    if j < lead {
        lemma_track1_encode(0);
        assert(c == track1_encode(0));
        assert(7 * j + 7 == 7 * (j + 1));
        lemma_track1_seek(payload, inverted, lead, bits, j + 1, result);
    } else {
        lemma_track1_encode(TRACK1_START_SENTINEL);
        assert(7 * j + 7 == 7 * (lead as int + 1));
    }
}

proof fn lemma_track1_scan(payload: Seq<u8>, inverted: bool, lead: nat, bits: Seq<bool>, j: int)
    requires
        0 <= j <= payload.len(),
        payload.len() > 0,
        forall|i: int| 0 <= i < payload.len() ==> payload[i] < 64 && payload[i] != TRACK1_END_SENTINEL,
        7 * (lead as int + payload.len() + 3) <= bits.len(),
        forall|i: int|
            0 <= i < lead + payload.len() + 2 ==> #[trigger] track1_symbol(bits, 7 * i, inverted)
                == track1_frame(payload, lead)[i],
        forall|i: int|
            0 <= i < payload.len() ==> #[trigger] track1_frame(payload, lead)[lead as int + 1 + i]
                == track1_encode(payload[i]),
        track1_frame(payload, lead)[lead as int + payload.len() + 1] == track1_encode(TRACK1_END_SENTINEL),
        track1_frame(payload, lead).len() == lead as int + payload.len() + 2,
        lsb_value(bits, 7 * (lead as int + payload.len() + 2), 7) == lrc_track1(
            track1_frame(payload, lead).subrange(lead as int, lead as int + payload.len() + 2),
        ),
        lrc_track1(track1_frame(payload, lead).subrange(lead as int, lead as int + payload.len() + 2))
            < 128,
    ensures
        track1_scan(
            bits,
            7 * (lead as int + 1 + j),
            inverted,
            track1_frame(payload, lead).subrange(lead as int, lead as int + 1 + j),
            track1_text(payload.subrange(0, j)),
        ) == Ok::<Seq<char>, DecoderError>(track1_text(payload)),
    decreases payload.len() - j,
{
    let m = payload.len() as int;
    let frame = track1_frame(payload, lead);
    let offset = 7 * (lead as int + 1 + j);
    let c = track1_symbol(bits, offset, inverted);
    assert(c == frame[lead as int + 1 + j]);
    if j < m {
        let d = payload[j];
        lemma_track1_encode(d);
        assert(frame.subrange(lead as int, lead as int + 1 + j).push(c) =~= frame.subrange(
            lead as int,
            lead + 1 + (j + 1),
        ));
        assert(track1_text(payload.subrange(0, j)).push(track1_char(c & 0x3F)) =~= track1_text(
            payload.subrange(0, j + 1),
        ));
        assert(offset + 7 == 7 * (lead as int + 1 + (j + 1)));
        lemma_track1_scan(payload, inverted, lead, bits, j + 1);
    } else {
        lemma_track1_encode(TRACK1_END_SENTINEL);
        let lrc = lrc_track1(frame.subrange(lead as int, lead as int + m + 2));
        assert(offset + 7 == 7 * (lead as int + m + 2));
        lemma_seven_bits(lrc);
        assert(frame.subrange(lead as int, lead as int + 1 + j).push(c) =~= frame.subrange(
            lead as int,
            lead + m + 2,
        ));
        assert(payload.subrange(0, j) =~= payload);
    }
}

/// A Track 1 payload of data values other than the end sentinel's, laid out
/// as `track1_stripe` lays it out, decodes to exactly its characters, with
/// the polarity that it was laid out with.
pub proof fn track1_round_trip(payload: Seq<u8>, inverted: bool, lead: nat, tail: Seq<bool>)
    requires
        payload.len() > 0,
        forall|i: int| 0 <= i < payload.len() ==> payload[i] < 64 && payload[i] != TRACK1_END_SENTINEL,
    ensures
        track1_decode(track1_stripe(payload, inverted, lead, tail), inverted) == Ok::<
            Seq<char>,
            DecoderError,
        >(track1_text(payload)),
{
    let m = payload.len() as int;
    let raw = Seq::new(lead, |i: int| 0u8) + seq![TRACK1_START_SENTINEL] + payload + seq![
        TRACK1_END_SENTINEL,
    ];
    let frame = track1_frame(payload, lead);
    let n = lead as int + m + 2;
    let lrc = lrc_track1(frame.subrange(lead as int, n));
    let wire = track1_wire(payload, inverted, lead);
    let bits = track1_stripe(payload, inverted, lead, tail);
    assert(frame.len() == n);
    assert(wire.len() == n + 1);
    assert forall|i: int| 0 <= i < n implies raw[i] < 64 && #[trigger] frame[i] == track1_encode(
        raw[i],
    ) && frame[i] < 128 by {
        lemma_track1_encode(raw[i]);
    }
    assert forall|i: int| 0 <= i < m implies #[trigger] frame[lead as int + 1 + i] == track1_encode(
        payload[i],
    ) by {
        assert(raw[lead as int + 1 + i] == payload[i]);
    }
    assert forall|i: int| 0 <= i <= lead implies #[trigger] frame[i] == track1_encode(
        if i < lead {
            0u8
        } else {
            TRACK1_START_SENTINEL
        },
    ) by {
        assert(raw[i] == (if i < lead {
            0u8
        } else {
            TRACK1_START_SENTINEL
        }));
    }
    assert(raw[n - 1] == TRACK1_END_SENTINEL);
    lemma_symbols_bits(wire, 7);
    reveal_with_fuel(two_to, 8);
    lemma_lrc_track1_bound(frame.subrange(lead as int, n));
    assert forall|j: int| 0 <= j <= n implies lsb_value(bits, #[trigger] (7 * j), 7) == wire[j] by {
        if j < n {
            lemma_seven_bits(frame[j]);
        }
        let w = wire[j];
        assert forall|k: int| 0 <= k < 7 implies bits[7 * j + k] == #[trigger] lsb_bits(
            w as nat,
            7,
        )[k] by {
            assert(bits[7 * j + k] == symbols_bits(wire, 7)[7 * j + k]);
        }
        lemma_lsb_value_of_bits(bits, 7 * j, w as nat, 7);
    }
    assert forall|i: int| 0 <= i < n implies #[trigger] track1_symbol(bits, 7 * i, inverted)
        == frame[i] by {
        assert(lsb_value(bits, 7 * i, 7) == wire[i]);
        lemma_seven_bits(frame[i]);
    }
    assert(lsb_value(bits, 7 * n, 7) == lrc);
    lemma_track1_scan(payload, inverted, lead, bits, 0);
    assert(frame.subrange(lead as int, lead as int + 1) =~= seq![frame[lead as int]]);
    assert(track1_text(payload.subrange(0, 0)) =~= Seq::<char>::empty());
    lemma_track1_seek(
        payload,
        inverted,
        lead,
        bits,
        0,
        Ok::<Seq<char>, DecoderError>(track1_text(payload)),
    );
    assert(7 * 0 == 0);
}

proof fn lemma_lrc_track1_bound(s: Seq<u8>)
    ensures
        lrc_track1(s) < 128,
{
    lemma_xor_low6_bound(s);
    let z = xor_low6(s);
    assert(z < 64 ==> (z | 0x40) < 128) by (bit_vector);
}

proof fn lemma_xor_low6_bound(s: Seq<u8>)
    ensures
        xor_low6(s) < 64,
    decreases s.len(),
{
    if s.len() > 0 {
        lemma_xor_low6_bound(s.drop_last());
        let x = xor_low6(s.drop_last());
        let y = s.last();
        assert(x < 64 ==> x ^ (y & 0x3F) < 64) by (bit_vector);
    }
}

} // verus!
