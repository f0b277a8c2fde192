//! Wire representation of envelopes.
//!
//! One frame is the JSON text
//! `{"kind":"<kind name>","action":"<action>","data":<payload>}` as bytes:
//! a fixed header, the frame kind's name, the action with `"` and `\`
//! escaped and control bytes in `\u00XX` form, and the payload text
//! spliced in verbatim before the closing brace. Decoding rejects anything that no envelope encodes to, with
//! [`StreamError::MalformedMessage`], and recovers the envelope exactly
//! otherwise.

use vstd::prelude::*;
use crate::error::StreamError;
use crate::message::{Kind, Message, MessageModel};

verus! {

/// The bytes of `{"kind":"`.
pub open spec fn h1() -> Seq<u8> {
    seq![123u8, 34u8, 107u8, 105u8, 110u8, 100u8, 34u8, 58u8, 34u8]
}

/// The bytes of `","action":"`.
pub open spec fn h2() -> Seq<u8> {
    seq![34u8, 44u8, 34u8, 97u8, 99u8, 116u8, 105u8, 111u8, 110u8, 34u8, 58u8, 34u8]
}

/// The bytes of `","data":`.
pub open spec fn h3() -> Seq<u8> {
    seq![34u8, 44u8, 34u8, 100u8, 97u8, 116u8, 97u8, 34u8, 58u8]
}

/// The name of a frame kind as it stands on the wire.
pub open spec fn kind_name(k: Kind) -> Seq<u8> {
    match k {
        Kind::SenderRequest => seq![
            83u8, 101u8, 110u8, 100u8, 101u8, 114u8, 82u8, 101u8, 113u8, 117u8, 101u8, 115u8,
            116u8,
        ],
        Kind::SenderMessage => seq![
            83u8, 101u8, 110u8, 100u8, 101u8, 114u8, 77u8, 101u8, 115u8, 115u8, 97u8, 103u8,
            101u8,
        ],
        Kind::SenderClose => seq![
            83u8, 101u8, 110u8, 100u8, 101u8, 114u8, 67u8, 108u8, 111u8, 115u8, 101u8,
        ],
        Kind::ReceiverRequest => seq![
            82u8, 101u8, 99u8, 101u8, 105u8, 118u8, 101u8, 114u8, 82u8, 101u8, 113u8, 117u8,
            101u8, 115u8, 116u8,
        ],
        Kind::ReceiverMessage => seq![
            82u8, 101u8, 99u8, 101u8, 105u8, 118u8, 101u8, 114u8, 77u8, 101u8, 115u8, 115u8,
            97u8, 103u8, 101u8,
        ],
        Kind::ReceiverClose => seq![
            82u8, 101u8, 99u8, 101u8, 105u8, 118u8, 101u8, 114u8, 67u8, 108u8, 111u8, 115u8,
            101u8,
        ],
    }
}

/// The lowercase hex digit of a nibble.
pub open spec fn hex_digit(n: u8) -> u8 {
    if n < 10 {
        (48 + n) as u8
    } else {
        (87 + n) as u8
    }
}

/// The high hex digit of a byte.
pub open spec fn hex_hi(b: u8) -> u8 {
    hex_digit(b / 16)
}

/// The low hex digit of a byte.
pub open spec fn hex_lo(b: u8) -> u8 {
    hex_digit(b % 16)
}

/// How one action byte stands on the wire: `"` and `\` get a backslash,
/// a control byte becomes its `\u00XX` form, every other byte stands for
/// itself.
pub open spec fn esc_byte(b: u8) -> Seq<u8> {
    if b == 34 {
        seq![92u8, 34u8]
    } else if b == 92 {
        seq![92u8, 92u8]
    } else if b < 32 {
        seq![92u8, 117u8, 48u8, 48u8, hex_hi(b), hex_lo(b)]
    } else {
        seq![b]
    }
}

/// The escaped form of an action.
pub open spec fn esc(s: Seq<u8>) -> Seq<u8>
    decreases s.len(),
{
    if s.len() == 0 {
        Seq::empty()
    } else {
        esc_byte(s[0]) + esc(s.skip(1))
    }
}

/// The exact wire bytes of an envelope.
pub open spec fn spec_encode(m: MessageModel) -> Seq<u8> {
    h1() + kind_name(m.kind) + h2() + esc(m.action) + h3() + m.data + seq![125u8]
}

/// Escaping distributes over concatenation.
pub proof fn lemma_esc_append(a: Seq<u8>, b: Seq<u8>)
    ensures
        esc(a + b) == esc(a) + esc(b),
    decreases a.len(),
{
    if a.len() == 0 {
        assert(a + b =~= b);
        assert(esc(a) + esc(b) =~= esc(b));
    } else {
        assert((a + b).skip(1) =~= a.skip(1) + b);
        lemma_esc_append(a.skip(1), b);
        assert((a + b)[0] == a[0]);
        assert(esc(a + b) =~= esc(a) + esc(b));
    }
}

/// Escaping one more byte appends that byte's wire form.
pub proof fn lemma_esc_snoc(s: Seq<u8>, b: u8)
    ensures
        esc(s.push(b)) == esc(s) + esc_byte(b),
{
    assert(s.push(b) =~= s + seq![b]);
    lemma_esc_append(s, seq![b]);
    assert(seq![b].skip(1) =~= Seq::<u8>::empty());
    assert(esc(Seq::<u8>::empty()) == Seq::<u8>::empty());
    assert(seq![b][0] == b);
    assert(esc(seq![b]) == esc_byte(b) + esc(Seq::<u8>::empty()));
    assert(esc(seq![b]) =~= esc_byte(b));
}

/// The bytes of `{"kind":"` as a vector.
fn h1_vec() -> (r: Vec<u8>)
    ensures
        r@ == h1(),
{
    let mut v: Vec<u8> = Vec::new();
    v.push(123);
    v.push(34);
    v.push(107);
    v.push(105);
    v.push(110);
    v.push(100);
    v.push(34);
    v.push(58);
    v.push(34);
    assert(v@ =~= h1());
    v
}

/// The bytes of `","action":"` as a vector.
fn h2_vec() -> (r: Vec<u8>)
    ensures
        r@ == h2(),
{
    let mut v: Vec<u8> = Vec::new();
    v.push(34);
    v.push(44);
    v.push(34);
    v.push(97);
    v.push(99);
    v.push(116);
    v.push(105);
    v.push(111);
    v.push(110);
    v.push(34);
    v.push(58);
    v.push(34);
    assert(v@ =~= h2());
    v
}

/// The bytes of `","data":` as a vector.
fn h3_vec() -> (r: Vec<u8>)
    ensures
        r@ == h3(),
{
    let mut v: Vec<u8> = Vec::new();
    v.push(34);
    v.push(44);
    v.push(34);
    v.push(100);
    v.push(97);
    v.push(116);
    v.push(97);
    v.push(34);
    v.push(58);
    assert(v@ =~= h3());
    v
}

/// The wire name of a frame kind as a vector.
fn kind_name_vec(k: Kind) -> (r: Vec<u8>)
    ensures
        r@ == kind_name(k),
{
    let mut v: Vec<u8> = Vec::new();
    match k {
        Kind::SenderRequest | Kind::SenderMessage | Kind::SenderClose => {
            v.push(83);
            v.push(101);
            v.push(110);
            v.push(100);
            v.push(101);
            v.push(114);
        },
        Kind::ReceiverRequest | Kind::ReceiverMessage | Kind::ReceiverClose => {
            v.push(82);
            v.push(101);
            v.push(99);
            v.push(101);
            v.push(105);
            v.push(118);
            v.push(101);
            v.push(114);
        },
    }
    match k {
        Kind::SenderRequest | Kind::ReceiverRequest => {
            v.push(82);
            v.push(101);
            v.push(113);
            v.push(117);
            v.push(101);
            v.push(115);
            v.push(116);
        },
        Kind::SenderMessage | Kind::ReceiverMessage => {
            v.push(77);
            v.push(101);
            v.push(115);
            v.push(115);
            v.push(97);
            v.push(103);
            v.push(101);
        },
        Kind::SenderClose | Kind::ReceiverClose => {
            v.push(67);
            v.push(108);
            v.push(111);
            v.push(115);
            v.push(101);
        },
    }
    assert(v@ =~= kind_name(k));
    v
}

/// Encodes an envelope to its wire bytes, exactly as [`spec_encode`]
/// says: total over every action and payload byte string.
pub fn encode(m: &Message) -> (r: Vec<u8>)
    ensures
        r@ == spec_encode(m@),
{
    let mut out = h1_vec();
    let mut name = kind_name_vec(m.kind);
    out.append(&mut name);
    let mut mid = h2_vec();
    out.append(&mut mid);
    let ghost pre = out@;
    assert(pre =~= h1() + kind_name(m@.kind) + h2());
    let mut i: usize = 0;
    while i < m.action.len()
        invariant
            0 <= i <= m.action@.len(),
            out@ == pre + esc(m.action@.take(i as int)),
        decreases m.action@.len() - i,
    {
        let ghost done = m.action@.take(i as int);
        let b = m.action[i];
        if b == 34 {
            out.push(92);
            out.push(34);
        } else if b == 92 {
            out.push(92);
            out.push(92);
        } else if b < 32 {
            out.push(92);
            out.push(117);
            out.push(48);
            out.push(48);
            let hi = 48 + b / 16;
            let nib = b % 16;
            let lo = if nib < 10 {
                48 + nib
            } else {
                87 + nib
            };
            out.push(hi);
            out.push(lo);
            proof {
                assert(hi == hex_hi(b));
                assert(lo == hex_lo(b));
            }
        } else {
            out.push(b);
        }
        proof {
            lemma_esc_snoc(done, b);
            assert(m.action@.take(i + 1) =~= done.push(b));
            assert(out@ =~= pre + esc(m.action@.take(i + 1)));
        }
        i += 1;
    }
    assert(m.action@.take(m.action@.len() as int) =~= m.action@);
    let mut tail = h3_vec();
    out.append(&mut tail);
    out.extend_from_slice(m.data.as_slice());
    out.push(125);
    assert(out@ =~= spec_encode(m@));
    out
}

/// `s` is the exact wire form of the envelope `mm`.
pub open spec fn encodes(s: Seq<u8>, mm: MessageModel) -> bool {
    s == spec_encode(mm)
}

/// `s` carries `k`'s name at the kind position, with the closing quote
/// right after it.
pub open spec fn spec_kind_at(s: Seq<u8>, k: Kind) -> bool {
    let n = kind_name(k);
    &&& s.len() >= 10 + n.len()
    &&& s.subrange(9, 9 + n.len() as int) == n
    &&& s[9 + n.len() as int] == 34
}

/// No kind name contains a quote byte.
proof fn lemma_kind_name_no_quote(k: Kind)
    ensures
        forall|i: int| 0 <= i < kind_name(k).len() ==> kind_name(k)[i] != 34,
{
}

/// Kind names are pairwise distinct.
proof fn lemma_kind_names_injective(k1: Kind, k2: Kind)
    requires
        kind_name(k1) == kind_name(k2),
    ensures
        k1 == k2,
{
    let n1 = kind_name(k1);
    let n2 = kind_name(k2);
    assert(n1.len() == n2.len());
    assert(n1[0] == n2[0]);
    assert(n1[6] == n2[6]);
    assert(n1[8] == n2[8]);
}

/// At most one kind name fits one wire frame.
proof fn lemma_kind_at_unique(s: Seq<u8>, k1: Kind, k2: Kind)
    requires
        spec_kind_at(s, k1),
        spec_kind_at(s, k2),
    ensures
        k1 == k2,
{
    let n1 = kind_name(k1);
    let n2 = kind_name(k2);
    if n1.len() == n2.len() {
        assert(n1 =~= n2);
        lemma_kind_names_injective(k1, k2);
    } else if n1.len() < n2.len() {
        assert(s.subrange(9, 9 + n2.len() as int)[n1.len() as int] == s[9 + n1.len() as int]);
        assert(n2[n1.len() as int] == 34);
        lemma_kind_name_no_quote(k2);
        assert(false);
    } else {
        assert(s.subrange(9, 9 + n1.len() as int)[n2.len() as int] == s[9 + n2.len() as int]);
        assert(n1[n2.len() as int] == 34);
        lemma_kind_name_no_quote(k1);
        assert(false);
    }
}

/// The same hex digits name the same byte.
proof fn lemma_hex_injective(p: u8, q: u8)
    requires
        p < 32,
        q < 32,
        hex_hi(p) == hex_hi(q),
        hex_lo(p) == hex_lo(q),
    ensures
        p == q,
{
    assert(p / 16 < 10 && q / 16 < 10);
    assert(p / 16 == q / 16);
    if p % 16 < 10 {
        if q % 16 < 10 {
            assert(p % 16 == q % 16);
        } else {
            assert(hex_lo(p) < 58 && hex_lo(q) > 96);
            assert(false);
        }
    } else {
        if q % 16 < 10 {
            assert(hex_lo(q) < 58 && hex_lo(p) > 96);
            assert(false);
        } else {
            assert(p % 16 == q % 16);
        }
    }
    assert(p == 16 * (p / 16) + (p % 16)) by (nonlinear_arith);
    assert(q == 16 * (q / 16) + (q % 16)) by (nonlinear_arith);
}

/// The per-byte wire forms make a prefix code.
proof fn lemma_esc_byte_prefix(p: u8, q: u8, s: Seq<u8>, t: Seq<u8>)
    requires
        esc_byte(p) + s == esc_byte(q) + t,
    ensures
        p == q,
        s == t,
{
    let ep = esc_byte(p);
    let eq2 = esc_byte(q);
    assert((ep + s)[0] == ep[0]);
    assert((eq2 + t)[0] == eq2[0]);
    let p_plain = p != 34 && p != 92 && p >= 32;
    let q_plain = q != 34 && q != 92 && q >= 32;
    if p_plain {
        if q_plain {
            assert(p == q);
        } else {
            assert(ep[0] == p && eq2[0] == 92);
            assert(false);
        }
    } else {
        if q_plain {
            assert(ep[0] == 92 && eq2[0] == q);
            assert(false);
        } else {
            // Both escaped: the second byte separates the quote,
            // backslash and control forms.
            assert((ep + s)[1] == ep[1]);
            assert((eq2 + t)[1] == eq2[1]);
            assert(ep[1] == eq2[1]);
            if p < 32 {
                assert(ep[1] == 117);
                assert(q < 32);
                assert((ep + s)[4] == ep[4]);
                assert((eq2 + t)[4] == eq2[4]);
                assert((ep + s)[5] == ep[5]);
                assert((eq2 + t)[5] == eq2[5]);
                assert(hex_hi(p) == hex_hi(q));
                assert(hex_lo(p) == hex_lo(q));
                lemma_hex_injective(p, q);
            } else {
                assert(q >= 32);
                assert(p == q);
            }
        }
    }
    assert(ep == eq2);
    assert(s =~= (ep + s).skip(ep.len() as int));
    assert(t =~= (eq2 + t).skip(eq2.len() as int));
    assert(s =~= t);
}

/// Quote-terminated escaped streams decode uniquely: either the whole
/// scanned prefix `x` is the action `a`, or `x` is a proper prefix of `a`
/// and the unread input continues with the wire form of the rest of `a`.
proof fn lemma_esc_unique_scan(x: Seq<u8>, a: Seq<u8>, u: Seq<u8>, v: Seq<u8>)
    requires
        esc(x) + u == esc(a) + v,
        v.len() > 0,
        v[0] == 34,
    ensures
        (x == a && u == v) || (x.len() < a.len() && x == a.take(x.len() as int) && u == esc(
            a.skip(x.len() as int),
        ) + v),
    decreases x.len(),
{
    if x.len() == 0 {
        assert(esc(x) + u =~= u);
        if a.len() == 0 {
            assert(esc(a) + v =~= v);
            assert(x =~= a);
            assert(u =~= v);
        } else {
            assert(x =~= a.take(0));
            assert(a.skip(0) =~= a);
        }
    } else {
        let x0 = x[0];
        let xr = x.skip(1);
        assert(esc(x) == esc_byte(x0) + esc(xr));
        if a.len() == 0 {
            assert(esc(a) + v =~= v);
            assert((esc_byte(x0) + esc(xr) + u)[0] == esc_byte(x0)[0]);
            assert(esc(x) + u =~= esc_byte(x0) + (esc(xr) + u));
            assert(esc_byte(x0)[0] != 34);
            assert(false);
        } else {
            let a0 = a[0];
            let ar = a.skip(1);
            assert(esc(a) == esc_byte(a0) + esc(ar));
            assert(esc(x) + u =~= esc_byte(x0) + (esc(xr) + u));
            assert(esc(a) + v =~= esc_byte(a0) + (esc(ar) + v));
            lemma_esc_byte_prefix(x0, a0, esc(xr) + u, esc(ar) + v);
            lemma_esc_unique_scan(xr, ar, u, v);
            if xr == ar && u == v {
                assert(x.len() == a.len());
                assert forall|i: int| 0 <= i < x.len() implies x[i] == a[i] by {
                    if i > 0 {
                        assert(x[i] == xr[i - 1]);
                        assert(a[i] == ar[i - 1]);
                    }
                }
                assert(x =~= a);
            } else {
                assert(x.len() < a.len());
                assert forall|i: int| 0 <= i < x.len() implies x[i] == a.take(
                    x.len() as int,
                )[i] by {
                    if i > 0 {
                        assert(x[i] == xr[i - 1]);
                        assert(xr[i - 1] == ar.take(xr.len() as int)[i - 1]);
                        assert(ar[i - 1] == a[i]);
                    }
                }
                assert(x =~= a.take(x.len() as int));
                assert(a.skip(x.len() as int) =~= ar.skip(xr.len() as int));
            }
        }
    }
}

/// Every wire frame of an envelope carries that envelope's kind name.
proof fn lemma_encoding_kind_at(s: Seq<u8>, mm: MessageModel)
    requires
        encodes(s, mm),
    ensures
        spec_kind_at(s, mm.kind),
{
    let n = kind_name(mm.kind);
    assert(s.len() >= 10 + n.len());
    assert(s.subrange(9, 9 + n.len() as int) =~= n);
    assert(s[9 + n.len() as int] == 34);
}

/// What the rest of a wire frame looks like once the kind is known.
proof fn lemma_encoding_parts(s: Seq<u8>, k: Kind, mm: MessageModel)
    requires
        encodes(s, mm),
        spec_kind_at(s, k),
    ensures
        mm.kind == k,
        s.len() >= 31 + kind_name(k).len(),
        s.subrange(9 + kind_name(k).len() as int, 21 + kind_name(k).len() as int) == h2(),
        s.skip(21 + kind_name(k).len() as int) == esc(mm.action) + (h3() + mm.data + seq![125u8]),
{
    lemma_encoding_kind_at(s, mm);
    lemma_kind_at_unique(s, k, mm.kind);
    let n = kind_name(k);
    assert(s.len() >= 31 + n.len());
    assert(s.subrange(9 + n.len() as int, 21 + n.len() as int) =~= h2());
    assert(s.skip(21 + n.len() as int) =~= esc(mm.action) + (h3() + mm.data + seq![125u8]));
}

/// Whether `pat` stands verbatim in `input` at `pos`.
fn match_at(input: &Vec<u8>, pos: usize, pat: &Vec<u8>) -> (r: bool)
    requires
        pos <= input@.len(),
    ensures
        r == (pat@.len() <= input@.len() - pos && input@.subrange(
            pos as int,
            pos as int + pat@.len() as int,
        ) == pat@),
{
    let n = input.len();
    if n - pos < pat.len() {
        return false;
    }
    let mut i: usize = 0;
    while i < pat.len()
        invariant
            0 <= i <= pat@.len(),
            pos + pat@.len() <= input@.len(),
            input@.len() <= usize::MAX,
            forall|j: int| 0 <= j < i ==> input@[pos + j] == pat@[j],
        decreases pat@.len() - i,
    {
        proof {
            assert(pos + i < input@.len());
        }
        if input[pos + i] != pat[i] {
            proof {
                if input@.subrange(pos as int, pos as int + pat@.len() as int) == pat@ {
                    assert(input@.subrange(pos as int, pos as int + pat@.len() as int)[i as int]
                        == input@[pos + i]);
                    assert(false);
                }
            }
            return false;
        }
        i += 1;
    }
    assert(input@.subrange(pos as int, pos as int + pat@.len() as int) =~= pat@);
    true
}

/// The unread input continues the escaped action and the frame tail.
proof fn lemma_scan_ctx(input: Seq<u8>, k: Kind, out: Seq<u8>, p: int, mm: MessageModel)
    requires
        encodes(input, mm),
        spec_kind_at(input, k),
        21 + kind_name(k).len() <= p <= input.len(),
        esc(out) == input.subrange(21 + kind_name(k).len() as int, p),
    ensures
        mm.kind == k,
        esc(out) + input.skip(p) == esc(mm.action) + (h3() + mm.data + seq![125u8]),
        (h3() + mm.data + seq![125u8]).len() >= 10,
        (h3() + mm.data + seq![125u8])[0] == 34,
{
    lemma_encoding_parts(input, k, mm);
    let g0 = 21 + kind_name(k).len() as int;
    assert(esc(out) + input.skip(p) =~= input.skip(g0));
    assert((h3() + mm.data + seq![125u8])[0] == h3()[0]);
}

/// Mid-scan case split: for a frame that encodes `mm`, either the scanned
/// action is complete and the frame tail follows, or the unread input
/// starts with the wire form of the next action byte.
#[verifier::rlimit(100)]
proof fn lemma_scan_cases(input: Seq<u8>, k: Kind, out: Seq<u8>, p: int, mm: MessageModel)
    requires
        encodes(input, mm),
        spec_kind_at(input, k),
        21 + kind_name(k).len() <= p <= input.len(),
        esc(out) == input.subrange(21 + kind_name(k).len() as int, p),
    ensures
        input.len() - p >= 10,
        (mm.kind == k && mm.action == out && input.len() - p == 10 + mm.data.len()
            && input.subrange(p, p + 9) == h3() && input[input.len() - 1] == 125 && mm.data
            == input.subrange(p + 9, input.len() - 1) && input[p] == 34) || (out.len()
            < mm.action.len() && ((mm.action[out.len() as int] != 34 && mm.action[out.len() as int]
            != 92 && mm.action[out.len() as int] >= 32 && input[p] == mm.action[out.len() as int])
            || ((mm.action[out.len() as int] == 34 || mm.action[out.len() as int] == 92) && input[p]
            == 92 && input[p + 1] == mm.action[out.len() as int] && input.len() - p >= 12) || (
        mm.action[out.len() as int] < 32 && input[p] == 92 && input[p + 1] == 117 && input[p + 2]
            == 48 && input[p + 3] == 48 && input[p + 4] == hex_hi(mm.action[out.len() as int])
            && input[p + 5] == hex_lo(mm.action[out.len() as int]) && input.len() - p >= 16))),
{
    lemma_scan_ctx(input, k, out, p, mm);
    let u = input.skip(p);
    let v = h3() + mm.data + seq![125u8];
    lemma_esc_unique_scan(out, mm.action, u, v);
    assert(v.len() == 10 + mm.data.len());
    if out == mm.action && u == v {
        assert(u.len() == v.len());
        assert forall|i: int| 0 <= i < 9 implies input.subrange(p, p + 9)[i] == h3()[i] by {
            assert(input.subrange(p, p + 9)[i] == input[p + i]);
            assert(input[p + i] == u[i]);
            assert(v[i] == h3()[i]);
        }
        assert(input.subrange(p, p + 9) =~= h3());
        assert(input[input.len() - 1] == u[u.len() - 1]);
        assert(v[v.len() - 1] == 125);
        assert forall|i: int| 0 <= i < mm.data.len() implies input.subrange(
            p + 9,
            input.len() - 1,
        )[i] == mm.data[i] by {
            assert(input.subrange(p + 9, input.len() - 1)[i] == input[p + 9 + i]);
            assert(input[p + 9 + i] == u[9 + i]);
            assert(v[9 + i] == mm.data[i]);
        }
        assert(mm.data =~= input.subrange(p + 9, input.len() - 1));
        assert(input[p] == u[0]);
        assert(v[0] == h3()[0]);
    } else {
        let j = out.len() as int;
        let b0 = mm.action[j];
        assert(mm.action.skip(j)[0] == b0);
        assert(mm.action.skip(j).len() > 0);
        assert(esc(mm.action.skip(j)) == esc_byte(b0) + esc(mm.action.skip(j).skip(1)));
        assert(u =~= esc_byte(b0) + (esc(mm.action.skip(j).skip(1)) + v));
        assert(u[0] == esc_byte(b0)[0]);
        assert(input[p] == u[0]);
        if b0 == 34 || b0 == 92 {
            assert(esc_byte(b0).len() == 2);
            assert(u[1] == esc_byte(b0)[1]);
            assert(input[p + 1] == u[1]);
            assert(u.len() >= 2 + v.len());
        } else if b0 < 32 {
            assert(esc_byte(b0).len() == 6);
            assert(u[1] == esc_byte(b0)[1]);
            assert(u[2] == esc_byte(b0)[2]);
            assert(u[3] == esc_byte(b0)[3]);
            assert(u[4] == esc_byte(b0)[4]);
            assert(u[5] == esc_byte(b0)[5]);
            assert(input[p + 1] == u[1]);
            assert(input[p + 2] == u[2]);
            assert(input[p + 3] == u[3]);
            assert(input[p + 4] == u[4]);
            assert(input[p + 5] == u[5]);
            assert(u.len() >= 6 + v.len());
        } else {
            assert(u[0] == b0);
            assert(u.len() >= 1 + v.len());
        }
    }
}

/// A parse that found every fixed part found the encoding of its result.
proof fn lemma_assemble(input: Seq<u8>, k: Kind, act: Seq<u8>, d: Seq<u8>, p: int)
    requires
        input.subrange(0, 9) == h1(),
        spec_kind_at(input, k),
        input.subrange(9 + kind_name(k).len() as int, 21 + kind_name(k).len() as int) == h2(),
        21 + kind_name(k).len() <= p,
        p + 10 <= input.len(),
        esc(act) == input.subrange(21 + kind_name(k).len() as int, p),
        input.subrange(p, p + 9) == h3(),
        d == input.subrange(p + 9, input.len() - 1),
        input[input.len() - 1] == 125,
    ensures
        input == spec_encode(MessageModel { kind: k, action: act, data: d }),
{
    let mm = MessageModel { kind: k, action: act, data: d };
    let enc = spec_encode(mm);
    let nn = kind_name(k).len() as int;
    let ilen = input.len() as int;
    assert(esc(act).len() == p - (21 + nn));
    assert(d.len() == ilen - 1 - (p + 9));
    assert(enc.len() == ilen);
    assert forall|i: int| 0 <= i < ilen implies input[i] == enc[i] by {
        if i < 9 {
            assert(input.subrange(0, 9)[i] == input[i]);
            assert(enc[i] == h1()[i]);
        } else if i < 9 + nn {
            assert(input.subrange(9, 9 + nn)[i - 9] == input[i]);
            assert(enc[i] == kind_name(k)[i - 9]);
        } else if i < 21 + nn {
            assert(input.subrange(9 + nn, 21 + nn)[i - (9 + nn)] == input[i]);
            assert(enc[i] == h2()[i - (9 + nn)]);
        } else if i < p {
            assert(input.subrange(21 + nn, p)[i - (21 + nn)] == input[i]);
            assert(enc[i] == esc(act)[i - (21 + nn)]);
        } else if i < p + 9 {
            assert(input.subrange(p, p + 9)[i - p] == input[i]);
            assert(enc[i] == h3()[i - p]);
        } else if i < ilen - 1 {
            assert(input.subrange(p + 9, ilen - 1)[i - (p + 9)] == input[i]);
            assert(enc[i] == d[i - (p + 9)]);
        } else {
            assert(enc[i] == 125);
        }
    }
    assert(input =~= enc);
}

/// Whether the frame carries `k`'s kind name.
fn match_kind(input: &Vec<u8>, k: Kind) -> (r: bool)
    requires
        input@.len() >= 9,
    ensures
        r == spec_kind_at(input@, k),
{
    let name = kind_name_vec(k);
    if !match_at(input, 9, &name) {
        return false;
    }
    if input.len() - 9 == name.len() {
        return false;
    }
    let q = input[9 + name.len()];
    q == 34
}

/// Scans the escaped action between its opening quote and the closing
/// quote, undoing the escapes: on success the recovered action bytes and
/// the position of the closing quote.
#[verifier::loop_isolation(false)]
#[verifier::rlimit(100)]
#[verifier::spinoff_prover]
fn scan_action(input: &Vec<u8>, p0: usize, kind: Kind) -> (r: Result<(Vec<u8>, usize), StreamError>)
    requires
        spec_kind_at(input@, kind),
        p0 == 21 + kind_name(kind).len(),
        p0 <= input@.len(),
    ensures
        (r matches Ok(pair) ==> p0 <= pair.1 < input@.len() && esc(pair.0@) == input@.subrange(
            p0 as int,
            pair.1 as int,
        ) && input@[pair.1 as int] == 34),
        (r matches Err(e) ==> e == StreamError::MalformedMessage && (forall|mm: MessageModel|
            !encodes(input@, mm))),
{
    let n = input.len();
    let ghost g0 = p0 as int;
    let mut p = p0;
    let mut out: Vec<u8> = Vec::new();
    assert(esc(out@) =~= input@.subrange(g0, g0));
    let ghost g0 = p0 as int;
    let mut p = p0;
    let mut out: Vec<u8> = Vec::new();
    assert(esc(out@) =~= input@.subrange(g0, g0));
    loop
        invariant
            g0 <= p as int <= input@.len(),
            esc(out@) == input@.subrange(g0, p as int),
        decreases input@.len() - p as int,
    {
        if p >= n {
            proof {
                assert forall|mm: MessageModel| !encodes(input@, mm) by {
                    if encodes(input@, mm) {
                        lemma_scan_cases(input@, kind, out@, p as int, mm);
                        assert(false);
                    }
                }
            }
            return Err(StreamError::MalformedMessage);
        }
        let c = input[p];
        assert(c == input@[p as int]);
        if c == 34 {
            break;
        }
        if c == 92 {
            if n - p < 2 {
                proof {
                    assert forall|mm: MessageModel| !encodes(input@, mm) by {
                        if encodes(input@, mm) {
                            lemma_scan_cases(input@, kind, out@, p as int, mm);
                            assert(false);
                        }
                    }
                }
                return Err(StreamError::MalformedMessage);
            }
            let d = input[p + 1];
            if d == 34 || d == 92 {
                let ghost oldout = out@;
                if d == 34 {
                    out.push(34);
                } else {
                    out.push(92);
                }
                proof {
                    lemma_esc_snoc(oldout, d);
                    assert(esc_byte(d) =~= seq![92u8, d]);
                    assert(input@.subrange(g0, p as int + 2) =~= input@.subrange(g0, p as int)
                        + seq![input@[p as int], input@[p as int + 1]]);
                    assert(esc(out@) =~= input@.subrange(g0, p as int + 2));
                }
                p = p + 2;
            } else if d == 117 {
                if n - p < 6 {
                    proof {
                        assert forall|mm: MessageModel| !encodes(input@, mm) by {
                            if encodes(input@, mm) {
                                lemma_scan_cases(input@, kind, out@, p as int, mm);
                                assert(false);
                            }
                        }
                    }
                    return Err(StreamError::MalformedMessage);
                }
                let z2 = input[p + 2];
                let z3 = input[p + 3];
                let hi = input[p + 4];
                let lo = input[p + 5];
                if z2 != 48 || z3 != 48 || !(hi == 48 || hi == 49) {
                    proof {
                        assert forall|mm: MessageModel| !encodes(input@, mm) by {
                            if encodes(input@, mm) {
                                lemma_scan_cases(input@, kind, out@, p as int, mm);
                                assert(false);
                            }
                        }
                    }
                    return Err(StreamError::MalformedMessage);
                }
                let nib: u8;
                if 48 <= lo && lo <= 57 {
                    nib = lo - 48;
                } else if 97 <= lo && lo <= 102 {
                    nib = lo - 87;
                } else {
                    proof {
                        assert forall|mm: MessageModel| !encodes(input@, mm) by {
                            if encodes(input@, mm) {
                                lemma_scan_cases(input@, kind, out@, p as int, mm);
                                assert(false);
                            }
                        }
                    }
                    return Err(StreamError::MalformedMessage);
                }
                let b = (hi - 48) * 16 + nib;
                let ghost oldout = out@;
                out.push(b);
                proof {
                    lemma_esc_snoc(oldout, b);
                    assert(b < 32);
                    assert(b / 16 == hi - 48 && b % 16 == nib) by (nonlinear_arith)
                        requires
                            b == (hi - 48) * 16 + nib,
                            hi == 48 || hi == 49,
                            nib < 16,
                    ;
                    assert(hex_hi(b) == hi);
                    assert(hex_lo(b) == lo);
                    assert(esc_byte(b) =~= seq![92u8, 117u8, 48u8, 48u8, hi, lo]);
                    assert(input@.subrange(g0, p as int + 6) =~= input@.subrange(g0, p as int)
                        + seq![
                        input@[p as int],
                        input@[p as int + 1],
                        input@[p as int + 2],
                        input@[p as int + 3],
                        input@[p as int + 4],
                        input@[p as int + 5],
                    ]);
                    assert(esc(out@) =~= input@.subrange(g0, p as int + 6));
                }
                p = p + 6;
            } else {
                proof {
                    assert forall|mm: MessageModel| !encodes(input@, mm) by {
                        if encodes(input@, mm) {
                            lemma_scan_cases(input@, kind, out@, p as int, mm);
                            assert(false);
                        }
                    }
                }
                return Err(StreamError::MalformedMessage);
            }
        } else if c < 32 {
            proof {
                assert forall|mm: MessageModel| !encodes(input@, mm) by {
                    if encodes(input@, mm) {
                        lemma_scan_cases(input@, kind, out@, p as int, mm);
                        assert(false);
                    }
                }
            }
            return Err(StreamError::MalformedMessage);
        } else {
            let ghost oldout = out@;
            out.push(c);
            proof {
                lemma_esc_snoc(oldout, c);
                assert(esc_byte(c) =~= seq![c]);
                assert(input@.subrange(g0, p as int + 1) =~= input@.subrange(g0, p as int)
                    + seq![input@[p as int]]);
                assert(esc(out@) =~= input@.subrange(g0, p as int + 1));
            }
            p = p + 1;
        }
    }
    Ok((out, p))
}

/// Decodes wire bytes back to an envelope.
///
/// Succeeds exactly on the wire form of an envelope and then
/// returns that envelope; everything else — truncated input, an unknown
/// kind, a broken escape, trailing damage — is refused with
/// [`StreamError::MalformedMessage`].
#[verifier::loop_isolation(false)]
#[verifier::rlimit(100)]
#[verifier::spinoff_prover]
pub fn decode(input: &Vec<u8>) -> (r: Result<Message, StreamError>)
    ensures
        (r matches Ok(m) ==> input@ == spec_encode(m@) && (forall|mm: MessageModel|
            encodes(input@, mm) ==> mm == m@)),
        (r matches Err(e) ==> e == StreamError::MalformedMessage && (forall|mm: MessageModel|
            !encodes(input@, mm))),
{
    let n = input.len();
    let h1p = h1_vec();
    if !match_at(input, 0, &h1p) {
        proof {
            assert forall|mm: MessageModel| !encodes(input@, mm) by {
                if encodes(input@, mm) {
                    assert(input@.len() >= 9);
                    assert(input@.subrange(0, 9) =~= h1());
                    assert(false);
                }
            }
        }
        return Err(StreamError::MalformedMessage);
    }
    let kind: Kind;
    if match_kind(input, Kind::SenderRequest) {
        kind = Kind::SenderRequest;
    } else if match_kind(input, Kind::SenderMessage) {
        kind = Kind::SenderMessage;
    } else if match_kind(input, Kind::SenderClose) {
        kind = Kind::SenderClose;
    } else if match_kind(input, Kind::ReceiverRequest) {
        kind = Kind::ReceiverRequest;
    } else if match_kind(input, Kind::ReceiverMessage) {
        kind = Kind::ReceiverMessage;
    } else if match_kind(input, Kind::ReceiverClose) {
        kind = Kind::ReceiverClose;
    } else {
        proof {
            assert forall|mm: MessageModel| !encodes(input@, mm) by {
                if encodes(input@, mm) {
                    lemma_encoding_kind_at(input@, mm);
                    assert(false);
                }
            }
        }
        return Err(StreamError::MalformedMessage);
    }
    assert(spec_kind_at(input@, kind));
    let name = kind_name_vec(kind);
    let nlen = name.len();
    assert(nlen <= 15);
    let pos = 9 + nlen;
    let h2p = h2_vec();
    if !match_at(input, pos, &h2p) {
        proof {
            assert forall|mm: MessageModel| !encodes(input@, mm) by {
                if encodes(input@, mm) {
                    lemma_encoding_parts(input@, kind, mm);
                    assert(false);
                }
            }
        }
        return Err(StreamError::MalformedMessage);
    }
    let p0 = pos + 12;
    let scanned = scan_action(input, p0, kind);
    let (out, p): (Vec<u8>, usize) = match scanned {
        Ok(pair) => pair,
        Err(e) => {
            return Err(e);
        },
    };
    let ghost g0 = p0 as int;
    // The closing quote of the action stands at `p`.
    assert(input@[p as int] == 34);
    let h3p = h3_vec();
    if !match_at(input, p, &h3p) || n - p < 10 {
        proof {
            assert forall|mm: MessageModel| !encodes(input@, mm) by {
                if encodes(input@, mm) {
                    lemma_scan_cases(input@, kind, out@, p as int, mm);
                    assert(false);
                }
            }
        }
        return Err(StreamError::MalformedMessage);
    }
    let dstart = p + 9;
    let dend = n - 1;
    if input[dend] != 125 {
        proof {
            assert forall|mm: MessageModel| !encodes(input@, mm) by {
                if encodes(input@, mm) {
                    lemma_scan_cases(input@, kind, out@, p as int, mm);
                    assert(false);
                }
            }
        }
        return Err(StreamError::MalformedMessage);
    }
    let mut data: Vec<u8> = Vec::new();
    let mut idx = dstart;
    while idx < dend
        invariant
            dstart <= idx <= dend,
            data@ == input@.subrange(dstart as int, idx as int),
        decreases dend - idx,
    {
        data.push(input[idx]);
        proof {
            assert(input@.subrange(dstart as int, idx as int + 1) =~= input@.subrange(
                dstart as int,
                idx as int,
            ) + seq![input@[idx as int]]);
        }
        idx += 1;
    }
    let m = Message { kind, action: out, data };
    proof {
        lemma_assemble(input@, kind, m@.action, m@.data, p as int);
        assert(input@ == spec_encode(m@));
        assert forall|mm: MessageModel| encodes(input@, mm) implies mm == m@ by {
            lemma_scan_cases(input@, kind, out@, p as int, mm);
            assert(mm =~= m@);
        }
    }
    Ok(m)
}

/// The decoder's mathematical face: the unique envelope that encodes to
/// `s`, if any.
pub open spec fn spec_decode(s: Seq<u8>) -> Option<MessageModel> {
    if exists|mm: MessageModel| encodes(s, mm) {
        Some(choose|mm: MessageModel| encodes(s, mm))
    } else {
        None
    }
}

/// Round trip: decoding the wire form of any envelope yields exactly
/// that envelope.
pub proof fn lemma_decode_encode(mm: MessageModel)
    ensures
        spec_decode(spec_encode(mm)) == Some(mm),
{
    assert(encodes(spec_encode(mm), mm));
    let got = choose|m2: MessageModel| encodes(spec_encode(mm), m2);
    assert(encodes(spec_encode(mm), got));
    lemma_encode_injective(got, mm);
}

/// Encoding is injective: two envelopes with the same wire bytes are the
/// same envelope. Together with [`decode`]'s contract this
/// is the round trip: decoding `spec_encode(m)` yields `m` and nothing
/// else.
#[verifier::rlimit(100)]
pub proof fn lemma_encode_injective(m1: MessageModel, m2: MessageModel)
    requires
        spec_encode(m1) == spec_encode(m2),
    ensures
        m1 == m2,
{
    let s = spec_encode(m1);
    lemma_encoding_kind_at(s, m1);
    lemma_encoding_kind_at(s, m2);
    lemma_encoding_parts(s, m1.kind, m1);
    lemma_encoding_parts(s, m1.kind, m2);
    let v1 = h3() + m1.data + seq![125u8];
    let v2 = h3() + m2.data + seq![125u8];
    assert(esc(m1.action) + v1 == esc(m2.action) + v2);
    assert(v2[0] == h3()[0]);
    lemma_esc_unique_scan(m1.action, m2.action, v1, v2);
    if m1.action == m2.action && v1 == v2 {
        assert(v1.subrange(9, v1.len() - 1) =~= m1.data);
        assert(v2.subrange(9, v2.len() - 1) =~= m2.data);
        assert(m1 =~= m2);
    } else {
        let j = m1.action.len() as int;
        let b0 = m2.action.skip(j)[0];
        assert(esc(m2.action.skip(j)) == esc_byte(b0) + esc(m2.action.skip(j).skip(1)));
        assert(v1 =~= esc_byte(b0) + (esc(m2.action.skip(j).skip(1)) + v2));
        assert(v1[0] == esc_byte(b0)[0]);
        assert(esc_byte(b0)[0] != 34);
        assert(v1[0] == h3()[0]);
        assert(false);
    }
}

} // verus!
