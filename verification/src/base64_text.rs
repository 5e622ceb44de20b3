//! Standard base64 (RFC 4648, section 4: the alphabet `A-Z a-z 0-9 + /`,
//! with `=` padding), as the data URLs of preview frames carry their bytes,
//! and the decoding that gives the bytes back.

use vstd::prelude::*;

verus! {

/// The character of the standard alphabet for the six-bit value `v`.
pub open spec fn b64_char(v: int) -> char {
    if v < 26 {
        ('A' as int + v) as char
    } else if v < 52 {
        ('a' as int + (v - 26)) as char
    } else if v < 62 {
        ('0' as int + (v - 52)) as char
    } else if v == 62 {
        '+'
    } else {
        '/'
    }
}

/// The six-bit value of a character of the standard alphabet.
pub open spec fn b64_value(c: char) -> int {
    let x = c as int;
    if 'A' as int <= x <= 'Z' as int {
        x - 'A' as int
    } else if 'a' as int <= x <= 'z' as int {
        x - 'a' as int + 26
    } else if '0' as int <= x <= '9' as int {
        x - '0' as int + 52
    } else if c == '+' {
        62
    } else {
        63
    }
}

/// The four characters that encode the three bytes `x`, `y`, `z`.
pub open spec fn b64_group(x: int, y: int, z: int) -> Seq<char> {
    seq![
        b64_char(x / 4),
        b64_char((x % 4) * 16 + y / 16),
        b64_char((y % 16) * 4 + z / 64),
        b64_char(z % 64),
    ]
}

/// The standard base64 text of `b`: four characters for every three bytes;
/// a last group of one or two bytes is padded with `=` to four characters.
pub open spec fn base64_text(b: Seq<u8>) -> Seq<char>
    decreases b.len(),
{
    if b.len() == 0 {
        seq![]
    } else if b.len() == 1 {
        b64_group(b[0] as int, 0, 0).subrange(0, 2) + seq!['=', '=']
    } else if b.len() == 2 {
        b64_group(b[0] as int, b[1] as int, 0).subrange(0, 3) + seq!['=']
    } else {
        b64_group(b[0] as int, b[1] as int, b[2] as int) + base64_text(b.subrange(3, b.len() as int))
    }
}

/// The bytes that a group of four characters stands for: one when it ends
/// in "==", two when it ends in one '=', three otherwise.
pub open spec fn b64_group_bytes(q: Seq<char>) -> Seq<u8> {
    let v0 = b64_value(q[0]);
    let v1 = b64_value(q[1]);
    let v2 = b64_value(q[2]);
    let v3 = b64_value(q[3]);
    let x = (v0 * 4 + v1 / 16) as u8;
    let y = ((v1 % 16) * 16 + v2 / 4) as u8;
    let z = ((v2 % 4) * 64 + v3) as u8;
    if q[2] == '=' && q[3] == '=' {
        seq![x]
    } else if q[3] == '=' {
        seq![x, y]
    } else {
        seq![x, y, z]
    }
}

/// Decodes a standard base64 text group by group of four characters.
pub open spec fn base64_decoded(t: Seq<char>) -> Seq<u8>
    decreases t.len(),
{
    if t.len() < 4 {
        seq![]
    } else {
        b64_group_bytes(t.subrange(0, 4)) + base64_decoded(t.subrange(4, t.len() as int))
    }
}

proof fn lemma_b64_char_value(v: int)
    requires
        0 <= v < 64,
    ensures
        b64_value(b64_char(v)) == v,
        b64_char(v) != '=',
{
}

proof fn lemma_group_bytes(x: u8, y: u8, z: u8, n: int)
    requires
        1 <= n <= 3,
    ensures
        ({
            let g = b64_group(x as int, if n >= 2 { y as int } else { 0 }, if n >= 3 { z as int } else { 0 });
            let q = if n == 1 {
                g.subrange(0, 2) + seq!['=', '=']
            } else if n == 2 {
                g.subrange(0, 3) + seq!['=']
            } else {
                g
            };
            &&& q.len() == 4
            &&& b64_group_bytes(q) == (if n == 1 {
                seq![x]
            } else if n == 2 {
                seq![x, y]
            } else {
                seq![x, y, z]
            })
        }),
{
    let y2: int = if n >= 2 { y as int } else { 0 };
    let z2: int = if n >= 3 { z as int } else { 0 };
    let a = x as int / 4;
    let b = (x as int % 4) * 16 + y2 / 16;
    let c = (y2 % 16) * 4 + z2 / 64;
    let d = z2 % 64;
    lemma_b64_char_value(a);
    lemma_b64_char_value(b);
    lemma_b64_char_value(c);
    lemma_b64_char_value(d);
    assert(a * 4 + b / 16 == x as int);
    assert((b % 16) * 16 + c / 4 == y2);
    assert((c % 4) * 64 + d == z2);
    let g = b64_group(x as int, y2, z2);
    let q = if n == 1 {
        g.subrange(0, 2) + seq!['=', '=']
    } else if n == 2 {
        g.subrange(0, 3) + seq!['=']
    } else {
        g
    };
    assert(q[0] == b64_char(a));
    assert(q[1] == b64_char(b));
    if n >= 2 {
        assert(q[2] == b64_char(c));
    }
    if n == 3 {
        assert(q[3] == b64_char(d));
    }
    assert(b64_group_bytes(q) =~= (if n == 1 {
        seq![x]
    } else if n == 2 {
        seq![x, y]
    } else {
        seq![x, y, z]
    }));
}

/// Decoding the standard base64 text of any bytes gives the bytes back:
/// the encoding loses nothing.
pub proof fn lemma_base64_round_trip(b: Seq<u8>)
    ensures
        base64_decoded(base64_text(b)) == b,
        base64_text(b).len() == (b.len() + 2) / 3 * 4,
    decreases b.len(),
{
    let t = base64_text(b);
    if b.len() == 0 {
        assert(base64_decoded(t) =~= b);
    } else if b.len() <= 2 {
        let n = b.len() as int;
        let y: u8 = if n >= 2 { b[1] } else { 0 };
        lemma_group_bytes(b[0], y, 0, n);
        assert(t.subrange(0, 4) =~= t);
        assert(t.subrange(4, 4) =~= Seq::<char>::empty());
        assert(base64_decoded(t.subrange(4, 4)) =~= Seq::<u8>::empty());
        if n == 1 {
            assert(b =~= seq![b[0]]);
        } else {
            assert(b =~= seq![b[0], b[1]]);
        }
        assert(base64_decoded(t) =~= b);
    } else {
        let rest = b.subrange(3, b.len() as int);
        lemma_base64_round_trip(rest);
        lemma_group_bytes(b[0], b[1], b[2], 3);
        let g = b64_group(b[0] as int, b[1] as int, b[2] as int);
        assert(t == g + base64_text(rest));
        assert(t.subrange(0, 4) =~= g);
        assert(t.subrange(4, t.len() as int) =~= base64_text(rest));
        assert(b =~= seq![b[0], b[1], b[2]] + rest);
        assert(base64_decoded(t) =~= b);
    }
}

} // verus!
