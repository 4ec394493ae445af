//! The persisted pool format: one line per point, each coordinate written
//! as a sign byte and ten zero-padded decimal digits, the two coordinates
//! separated by a space. Encoding and decoding invert each other exactly,
//! so a saved pool reloads as the same ordered point sequence.

use vstd::prelude::*;
use vstd::arithmetic::div_mod::{lemma_fundamental_div_mod, lemma_fundamental_div_mod_converse};
use crate::geom::{coord_ok, point_ok, pool_wf, Point};

verus! {

pub open spec fn pow10(k: nat) -> nat
    decreases k,
{
    if k == 0 {
        1
    } else {
        10 * pow10((k - 1) as nat)
    }
}

/// `n` written as exactly `k` decimal digits, zero-padded, most
/// significant first (truncated to the low `k` digits if `n` is larger).
pub open spec fn pad_digits(n: nat, k: nat) -> Seq<u8>
    decreases k,
{
    if k == 0 {
        Seq::empty()
    } else {
        pad_digits(n / 10, (k - 1) as nat).push((48 + n % 10) as u8)
    }
}

/// The number a digit sequence denotes.
pub open spec fn val_of(s: Seq<u8>) -> int
    decreases s.len(),
{
    if s.len() == 0 {
        0
    } else {
        val_of(s.drop_last()) * 10 + (s.last() as int - 48)
    }
}

pub open spec fn all_digits(s: Seq<u8>) -> bool {
    forall|i: int| 0 <= i < s.len() ==> 48 <= #[trigger] s[i] <= 57
}

/// A coordinate: `+` or `-`, then ten digits of its magnitude.
pub open spec fn enc_coord(v: int) -> Seq<u8> {
    if v < 0 {
        seq![45u8] + pad_digits((-v) as nat, 10)
    } else {
        seq![43u8] + pad_digits(v as nat, 10)
    }
}

/// One point record: x, a space, y, a newline. Always 24 bytes.
pub open spec fn enc_point(p: Point) -> Seq<u8> {
    enc_coord(p.x as int) + seq![32u8] + enc_coord(p.y as int) + seq![10u8]
}

/// The whole pool, record after record in order.
pub open spec fn enc_pool(ps: Seq<Point>) -> Seq<u8>
    decreases ps.len(),
{
    if ps.len() == 0 {
        Seq::empty()
    } else {
        enc_pool(ps.drop_last()) + enc_point(ps.last())
    }
}

proof fn lemma_pow10_mono(a: nat, b: nat)
    requires
        a <= b,
    ensures
        pow10(a) <= pow10(b),
        pow10(a) >= 1,
    decreases b,
{
    if b > 0 {
        if a == b {
            lemma_pow10_mono((a - 1) as nat, (b - 1) as nat);
        } else {
            lemma_pow10_mono(a, (b - 1) as nat);
        }
    }
}

proof fn lemma_pow10_10()
    ensures
        pow10(9) == 1_000_000_000,
        pow10(10) == 10_000_000_000,
{
    reveal_with_fuel(pow10, 11);
}

proof fn lemma_pad_len(n: nat, k: nat)
    ensures
        pad_digits(n, k).len() == k,
        all_digits(pad_digits(n, k)),
    decreases k,
{
    if k > 0 {
        lemma_pad_len(n / 10, (k - 1) as nat);
    }
}

/// Padded digits denote the number they were made from.
proof fn lemma_pad_val(n: nat, k: nat)
    requires
        n < pow10(k),
    ensures
        val_of(pad_digits(n, k)) == n,
    decreases k,
{
    if k > 0 {
        let q = n / 10;
        lemma_fundamental_div_mod(n as int, 10);
        assert(q < pow10((k - 1) as nat)) by {
            if q >= pow10((k - 1) as nat) {
                assert(n >= 10 * pow10((k - 1) as nat));
            }
        }
        lemma_pad_val(q, (k - 1) as nat);
        let s = pad_digits(n, k);
        assert(s.drop_last() =~= pad_digits(q, (k - 1) as nat));
    }
}

/// A digit sequence of length `k` is the padded form of its own value:
/// digit strings of a fixed width are unique.
proof fn lemma_digits_unique(s: Seq<u8>, k: nat)
    requires
        s.len() == k,
        all_digits(s),
    ensures
        0 <= val_of(s) < pow10(k),
        s == pad_digits(val_of(s) as nat, k),
    decreases k,
{
    if k == 0 {
        assert(s =~= pad_digits(0, 0));
    } else {
        let st = s.drop_last();
        let d = s.last() as int - 48;
        lemma_digits_unique(st, (k - 1) as nat);
        let v = val_of(s);
        assert(v == val_of(st) * 10 + d);
        assert(v < pow10(k)) by {
            assert(val_of(st) <= pow10((k - 1) as nat) - 1);
            assert(val_of(st) * 10 <= (pow10((k - 1) as nat) - 1) * 10) by (nonlinear_arith)
                requires
                    val_of(st) <= pow10((k - 1) as nat) - 1,
            {}
        }
        lemma_fundamental_div_mod_converse(v, 10, val_of(st), d);
        assert(pad_digits(v as nat, k) == pad_digits((v / 10) as nat, (k - 1) as nat).push(
            (48 + v as nat % 10) as u8,
        ));
        assert((v / 10) as nat == val_of(st));
        assert(48 + v as nat % 10 == s.last());
        assert(s =~= st.push(s.last()));
    }
}

/// Equal encodings of in-bound coordinates come from equal coordinates.
proof fn lemma_enc_coord_injective(v: int, w: int)
    requires
        coord_ok(v),
        coord_ok(w),
        enc_coord(v) == enc_coord(w),
    ensures
        v == w,
{
    lemma_pow10_10();
    let mv = if v < 0 {
        (-v) as nat
    } else {
        v as nat
    };
    let mw = if w < 0 {
        (-w) as nat
    } else {
        w as nat
    };
    lemma_pad_len(mv, 10);
    lemma_pad_len(mw, 10);
    assert(enc_coord(v)[0] == enc_coord(w)[0]);
    if v < 0 {
        assert(enc_coord(v)[0] == 45u8);
    } else {
        assert(enc_coord(v)[0] == 43u8);
    }
    if w < 0 {
        assert(enc_coord(w)[0] == 45u8);
    } else {
        assert(enc_coord(w)[0] == 43u8);
    }
    assert((v < 0) == (w < 0));
    assert(pad_digits(mv, 10) =~= pad_digits(mw, 10)) by {
        assert forall|i: int| 0 <= i < 10 implies pad_digits(mv, 10)[i] == pad_digits(
            mw,
            10,
        )[i] by {
            assert(enc_coord(v)[i + 1] == pad_digits(mv, 10)[i]);
            assert(enc_coord(w)[i + 1] == pad_digits(mw, 10)[i]);
        }
    }
    lemma_pad_val(mv, 10);
    lemma_pad_val(mw, 10);
}

proof fn lemma_enc_point_len(p: Point)
    ensures
        enc_point(p).len() == 24,
        enc_coord(p.x as int).len() == 11,
        enc_coord(p.y as int).len() == 11,
{
    let mx = if p.x < 0 {
        (-(p.x as int)) as nat
    } else {
        p.x as nat
    };
    let my = if p.y < 0 {
        (-(p.y as int)) as nat
    } else {
        p.y as nat
    };
    lemma_pad_len(mx, 10);
    lemma_pad_len(my, 10);
}

/// Equal records of in-bound points come from equal points.
proof fn lemma_enc_point_injective(p: Point, q: Point)
    requires
        point_ok(p),
        point_ok(q),
        enc_point(p) == enc_point(q),
    ensures
        p == q,
{
    lemma_enc_point_len(p);
    lemma_enc_point_len(q);
    assert(enc_coord(p.x as int) =~= enc_coord(q.x as int)) by {
        assert forall|i: int|
            0 <= i < 11 implies enc_coord(p.x as int)[i] == enc_coord(q.x as int)[i] by {
            assert(enc_point(p)[i] == enc_coord(p.x as int)[i]);
            assert(enc_point(q)[i] == enc_coord(q.x as int)[i]);
        }
    }
    assert(enc_coord(p.y as int) =~= enc_coord(q.y as int)) by {
        assert forall|i: int|
            0 <= i < 11 implies enc_coord(p.y as int)[i] == enc_coord(q.y as int)[i] by {
            assert(enc_point(p)[i + 12] == enc_coord(p.y as int)[i]);
            assert(enc_point(q)[i + 12] == enc_coord(q.y as int)[i]);
        }
    }
    lemma_enc_coord_injective(p.x as int, q.x as int);
    lemma_enc_coord_injective(p.y as int, q.y as int);
}

proof fn lemma_enc_pool_len(ps: Seq<Point>)
    ensures
        enc_pool(ps).len() == 24 * ps.len(),
    decreases ps.len(),
{
    if ps.len() > 0 {
        lemma_enc_pool_len(ps.drop_last());
        lemma_enc_point_len(ps.last());
    }
}

/// Record `k` of an encoded pool sits at bytes `24k .. 24k + 24`.
proof fn lemma_enc_pool_record(ps: Seq<Point>, k: int)
    requires
        0 <= k < ps.len(),
    ensures
        enc_pool(ps).subrange(24 * k, 24 * k + 24) == enc_point(ps[k]),
    decreases ps.len(),
{
    lemma_enc_pool_len(ps);
    lemma_enc_pool_len(ps.drop_last());
    lemma_enc_point_len(ps.last());
    if k == ps.len() - 1 {
        assert(enc_pool(ps).subrange(24 * k, 24 * k + 24) =~= enc_point(ps.last()));
    } else {
        lemma_enc_pool_record(ps.drop_last(), k);
        assert(enc_pool(ps).subrange(24 * k, 24 * k + 24) =~= enc_pool(ps.drop_last()).subrange(
            24 * k,
            24 * k + 24,
        ));
    }
}

/// A saved pool is the only pool with its encoding: decoding is
/// unambiguous, which with `encode_pool`'s and `decode_pool`'s contracts
/// gives the round trip `decode(encode(ps)) == Some(ps)`.
pub proof fn lemma_encode_injective(a: Seq<Point>, b: Seq<Point>)
    requires
        pool_wf(a),
        pool_wf(b),
        enc_pool(a) == enc_pool(b),
    ensures
        a == b,
{
    lemma_enc_pool_len(a);
    lemma_enc_pool_len(b);
    assert(a.len() == b.len());
    assert forall|k: int| 0 <= k < a.len() implies a[k] == b[k] by {
        lemma_enc_pool_record(a, k);
        lemma_enc_pool_record(b, k);
        lemma_enc_point_injective(a[k], b[k]);
    }
    assert(a =~= b);
}

/// What the encoding of an in-bound coordinate looks like: its sign byte,
/// and ten digits denoting its magnitude.
proof fn lemma_enc_coord_shape(v: int)
    requires
        coord_ok(v),
    ensures
        enc_coord(v).len() == 11,
        enc_coord(v)[0] == (if v < 0 {
            45u8
        } else {
            43u8
        }),
        all_digits(enc_coord(v).subrange(1, 11)),
        val_of(enc_coord(v).subrange(1, 11)) == (if v < 0 {
            -v
        } else {
            v
        }),
{
    lemma_pow10_10();
    let m = (if v < 0 {
        -v
    } else {
        v
    }) as nat;
    lemma_pad_len(m, 10);
    lemma_pad_val(m, 10);
    assert(enc_coord(v).subrange(1, 11) =~= pad_digits(m, 10));
}

/// Append one coordinate: its sign, then its magnitude as ten zero-padded
/// decimal digits.
fn push_coord(out: &mut Vec<u8>, v: i64)
    requires
        coord_ok(v as int),
    ensures
        final(out)@ == old(out)@ + enc_coord(v as int),
{
    let ghost base = out@;
    let mag: u64;
    if v < 0 {
        out.push(45);
        mag = (-(v as i128)) as u64;
    } else {
        out.push(43);
        mag = v as u64;
    }
    let ghost mag0 = mag as nat;
    proof {
        if v < 0 {
            assert(mag0 == (-(v as int)) as nat);
        } else {
            assert(mag0 == v as nat);
        }
    }
    let mut tmp: Vec<u8> = Vec::new();
    let mut m: u64 = mag;
    proof {
        assert(pad_digits(mag0, 10) =~= pad_digits(m as nat, 10) + tmp@.reverse());
    }
    let mut k: usize = 0;
    while k < 10
        invariant
            k <= 10,
            tmp@.len() == k,
            pad_digits(mag0, 10) == pad_digits(m as nat, (10 - k) as nat) + tmp@.reverse(),
        decreases 10 - k,
    {
        let ghost tprev = tmp@;
        let d: u8 = (m % 10) as u8 + 48;
        tmp.push(d);
        proof {
            assert(pad_digits(m as nat, (10 - k) as nat) == pad_digits(
                (m / 10) as nat,
                (10 - k - 1) as nat,
            ).push((48 + m as nat % 10) as u8));
            assert((48 + m as nat % 10) as u8 == d);
            assert(tmp@.reverse() =~= seq![d] + tprev.reverse());
            assert(pad_digits((m / 10) as nat, (10 - k - 1) as nat) + (seq![d] + tprev.reverse())
                =~= (pad_digits((m / 10) as nat, (10 - k - 1) as nat) + seq![d]) + tprev.reverse());
        }
        m = m / 10;
        k = k + 1;
    }
    proof {
        assert(pad_digits(mag0, 10) =~= tmp@.reverse());
        lemma_pad_len(mag0, 10);
        assert(enc_coord(v as int) =~= enc_coord(v as int).take(1) + pad_digits(mag0, 10));
        assert(out@ =~= base + enc_coord(v as int).take(1));
    }
    let mut j: usize = 0;
    while j < 10
        invariant
            j <= 10,
            tmp@.len() == 10,
            pad_digits(mag0, 10) == tmp@.reverse(),
            out@ == base + enc_coord(v as int).take(1 + j),
            enc_coord(v as int) == enc_coord(v as int).take(1) + pad_digits(mag0, 10),
        decreases 10 - j,
    {
        let b = tmp[10 - 1 - j];
        out.push(b);
        proof {
            assert(tmp@.reverse()[j as int] == b);
            assert(enc_coord(v as int)[1 + j] == pad_digits(mag0, 10)[j as int]);
            assert(out@ =~= base + enc_coord(v as int).take(1 + j + 1));
        }
        j = j + 1;
    }
    proof {
        assert(enc_coord(v as int).take(11) =~= enc_coord(v as int)) by {
            lemma_pad_len(mag0, 10);
        }
    }
}

/// Parse one coordinate record at `off`: a sign byte, then ten digits
/// whose value is within the coordinate bound; a `-` sign with value zero
/// is no encoding of anything.
fn parse_coord(bytes: &Vec<u8>, off: usize) -> (r: Option<i64>)
    requires
        off + 11 <= bytes@.len(),
    ensures
        r matches Some(v) ==> coord_ok(v as int) && bytes@.subrange(off as int, off + 11)
            == enc_coord(v as int),
        forall|v: i64|
            coord_ok(v as int) && bytes@.subrange(off as int, off + 11) == enc_coord(v as int)
                ==> r == Some(v),
{
    let ghost reg = bytes@.subrange(off as int, off + 11);
    let blen = bytes.len();
    let sign = bytes[off];
    if sign != 43 && sign != 45 {
        proof {
            assert forall|v: i64| coord_ok(v as int) && reg == enc_coord(v as int) implies false by {
                lemma_enc_coord_shape(v as int);
                assert(reg[0] == sign);
            }
        }
        return None;
    }
    let mut val: u64 = 0;
    let mut k: usize = 0;
    while k < 10
        invariant
            k <= 10,
            off + 11 <= blen,
            blen == bytes@.len(),
            reg == bytes@.subrange(off as int, off + 11),
            sign == bytes@[off as int],
            all_digits(bytes@.subrange(off + 1, off + 1 + k)),
            val == val_of(bytes@.subrange(off + 1, off + 1 + k)),
            val < pow10(k as nat),
        decreases 10 - k,
    {
        let b = bytes[off + 1 + k];
        if b < 48 || b > 57 {
            proof {
                assert forall|v: i64|
                    coord_ok(v as int) && reg == enc_coord(v as int) implies false by {
                    lemma_enc_coord_shape(v as int);
                    assert(reg[1 + k as int] == enc_coord(v as int).subrange(1, 11)[k as int]);
                    assert(reg[1 + k as int] == b);
                }
            }
            return None;
        }
        proof {
            lemma_pow10_mono(k as nat, 9);
            lemma_pow10_10();
        }
        let ghost q = bytes@.subrange(off + 1, off + 1 + k);
        val = val * 10 + ((b - 48) as u64);
        proof {
            let q2 = bytes@.subrange(off + 1, off + 1 + (k + 1));
            assert(q2 =~= q.push(b));
            assert(q2.drop_last() =~= q);
            assert(val_of(q2) == val_of(q) * 10 + (b as int - 48));
            assert(pow10((k + 1) as nat) == 10 * pow10(k as nat));
        }
        k = k + 1;
    }
    let ghost digs = bytes@.subrange(off + 1, off + 11);
    proof {
        lemma_pow10_10();
        lemma_digits_unique(digs, 10);
    }
    if val > 1_000_000_000 {
        proof {
            assert forall|v: i64| coord_ok(v as int) && reg == enc_coord(v as int) implies false by {
                lemma_enc_coord_shape(v as int);
                assert(digs =~= enc_coord(v as int).subrange(1, 11));
            }
        }
        return None;
    }
    if sign == 45 {
        if val == 0 {
            proof {
                assert forall|v: i64|
                    coord_ok(v as int) && reg == enc_coord(v as int) implies false by {
                    lemma_enc_coord_shape(v as int);
                    assert(reg[0] == sign);
                    assert(digs =~= enc_coord(v as int).subrange(1, 11));
                }
            }
            return None;
        }
        let v: i64 = -(val as i64);
        proof {
            assert(reg =~= enc_coord(v as int)) by {
                assert(digs == pad_digits(val as nat, 10));
                assert forall|i: int| 0 <= i < 11 implies reg[i] == enc_coord(v as int)[i] by {
                    if i >= 1 {
                        assert(reg[i] == digs[i - 1]);
                    }
                }
            }
            assert forall|w: i64|
                coord_ok(w as int) && reg == enc_coord(w as int) implies Some(v) == Some::<i64>(
                w,
            ) by {
                lemma_enc_coord_injective(v as int, w as int);
            }
        }
        Some(v)
    } else {
        let v: i64 = val as i64;
        proof {
            assert(reg =~= enc_coord(v as int)) by {
                assert(digs == pad_digits(val as nat, 10));
                assert forall|i: int| 0 <= i < 11 implies reg[i] == enc_coord(v as int)[i] by {
                    if i >= 1 {
                        assert(reg[i] == digs[i - 1]);
                    }
                }
            }
            assert forall|w: i64|
                coord_ok(w as int) && reg == enc_coord(w as int) implies Some(v) == Some::<i64>(
                w,
            ) by {
                lemma_enc_coord_injective(v as int, w as int);
            }
        }
        Some(v)
    }
}

/// Parse one point record at `off`: x, a space, y, a newline.
fn parse_point(bytes: &Vec<u8>, off: usize) -> (r: Option<Point>)
    requires
        off + 24 <= bytes@.len(),
    ensures
        r matches Some(p) ==> point_ok(p) && bytes@.subrange(off as int, off + 24) == enc_point(p),
        forall|p: Point|
            point_ok(p) && bytes@.subrange(off as int, off + 24) == enc_point(p) ==> r == Some(p),
{
    let ghost reg = bytes@.subrange(off as int, off + 24);
    let blen = bytes.len();
    proof {
        assert(off + 24 <= blen);
    }
    let x = match parse_coord(bytes, off) {
        Some(x) => x,
        None => {
            proof {
                assert forall|p: Point|
                    point_ok(p) && reg == enc_point(p) implies false by {
                    lemma_enc_point_len(p);
                    assert(bytes@.subrange(off as int, off + 11) =~= enc_coord(p.x as int));
                }
            }
            return None;
        },
    };
    if bytes[off + 11] != 32 {
        proof {
            assert forall|p: Point| point_ok(p) && reg == enc_point(p) implies false by {
                lemma_enc_point_len(p);
                assert(reg[11] == 32u8);
            }
        }
        return None;
    }
    let y = match parse_coord(bytes, off + 12) {
        Some(y) => y,
        None => {
            proof {
                assert forall|p: Point|
                    point_ok(p) && reg == enc_point(p) implies false by {
                    lemma_enc_point_len(p);
                    assert(bytes@.subrange(off + 12, off + 23) =~= enc_coord(p.y as int)) by {
                        assert forall|i: int|
                            0 <= i < 11 implies bytes@.subrange(off + 12, off + 23)[i]
                            == enc_coord(p.y as int)[i] by {
                            assert(bytes@.subrange(off + 12, off + 23)[i] == reg[12 + i]);
                            assert(enc_point(p)[12 + i] == enc_coord(p.y as int)[i]);
                        }
                    }
                }
            }
            return None;
        },
    };
    if bytes[off + 23] != 10 {
        proof {
            assert forall|p: Point| point_ok(p) && reg == enc_point(p) implies false by {
                lemma_enc_point_len(p);
                assert(reg[23] == 10u8);
            }
        }
        return None;
    }
    let p = Point { x, y };
    proof {
        lemma_enc_point_len(p);
        assert(reg =~= enc_point(p)) by {
            assert forall|i: int| 0 <= i < 24 implies reg[i] == enc_point(p)[i] by {
                if i < 11 {
                    assert(reg[i] == bytes@.subrange(off as int, off + 11)[i]);
                } else if 12 <= i < 23 {
                    assert(reg[i] == bytes@.subrange(off + 12, off + 23)[i - 12]);
                }
            }
        }
        assert forall|q: Point|
            point_ok(q) && reg == enc_point(q) implies Some(p) == Some::<Point>(q) by {
            lemma_enc_point_injective(p, q);
        }
    }
    Some(p)
}

/// Decode a saved pool. Exactly the encodings of in-bound pools are
/// accepted, and each one decodes back to the pool it was saved from.
pub fn decode_pool(bytes: &Vec<u8>) -> (r: Option<Vec<Point>>)
    ensures
        r matches Some(ps) ==> pool_wf(ps@) && bytes@ == enc_pool(ps@),
        forall|ps: Seq<Point>|
            pool_wf(ps) && bytes@ == enc_pool(ps) ==> (r matches Some(v) && v@ == ps),
{
    let n = bytes.len();
    if n % 24 != 0 {
        proof {
            assert forall|ps: Seq<Point>|
                pool_wf(ps) && bytes@ == enc_pool(ps) implies false by {
                lemma_enc_pool_len(ps);
                vstd::arithmetic::div_mod::lemma_mod_multiples_basic(ps.len() as int, 24);
            }
        }
        return None;
    }
    let count = n / 24;
    proof {
        lemma_fundamental_div_mod(n as int, 24);
    }
    let mut out: Vec<Point> = Vec::new();
    let mut k: usize = 0;
    while k < count
        invariant
            k <= count,
            n == bytes@.len(),
            n == 24 * count,
            out@.len() == k,
            pool_wf(out@),
            bytes@.subrange(0, 24 * (k as int)) == enc_pool(out@),
        decreases count - k,
    {
        let off = 24 * k;
        match parse_point(bytes, off) {
            Some(p) => {
                let ghost prev = out@;
                out.push(p);
                proof {
                    assert(out@.drop_last() =~= prev);
                    assert(out@.last() == p);
                    assert(enc_pool(out@) == enc_pool(prev) + enc_point(p));
                    assert(bytes@.subrange(0, 24 * (k + 1 as int)) =~= bytes@.subrange(
                        0,
                        24 * (k as int),
                    ) + bytes@.subrange(off as int, off + 24));
                }
            },
            None => {
                proof {
                    assert forall|ps: Seq<Point>|
                        pool_wf(ps) && bytes@ == enc_pool(ps) implies false by {
                        lemma_enc_pool_len(ps);
                        lemma_enc_pool_record(ps, k as int);
                        assert(point_ok(ps[k as int]));
                        assert(bytes@.subrange(off as int, off + 24) == enc_point(ps[k as int]));
                    }
                }
                return None;
            },
        }
        k = k + 1;
    }
    proof {
        assert(bytes@.subrange(0, n as int) =~= bytes@);
        assert forall|ps: Seq<Point>|
            pool_wf(ps) && bytes@ == enc_pool(ps) implies out@ == ps by {
            lemma_encode_injective(out@, ps);
        }
    }
    Some(out)
}

/// Encode the pool for saving.
pub fn encode_pool(points: &Vec<Point>) -> (r: Vec<u8>)
    requires
        pool_wf(points@),
    ensures
        r@ == enc_pool(points@),
{
    let mut out: Vec<u8> = Vec::new();
    let n = points.len();
    let mut k: usize = 0;
    while k < n
        invariant
            k <= n,
            n == points@.len(),
            pool_wf(points@),
            out@ == enc_pool(points@.take(k as int)),
        decreases n - k,
    {
        let ghost prev = out@;
        let p = points[k];
        push_coord(&mut out, p.x);
        out.push(32);
        push_coord(&mut out, p.y);
        out.push(10);
        proof {
            assert(out@ =~= prev + enc_point(p));
            assert(points@.take(k + 1).drop_last() =~= points@.take(k as int));
            assert(points@.take(k + 1).last() == p);
        }
        k = k + 1;
    }
    proof {
        assert(points@.take(n as int) =~= points@);
    }
    out
}

} // verus!
