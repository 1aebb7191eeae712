//! The binary wire primitives of the daemon protocol.
//!
//! Integers travel as base-128 varints with the continuation bit high and
//! the minimal number of bytes; a string is its character count followed by
//! one varint per Unicode scalar value; a boolean is one byte, `0` or `1`;
//! an optional field is a one-byte presence flag followed by the payload.
//! Every decoder accepts exactly the encodings its encoder produces.

use vstd::prelude::*;
use vstd::string::StrSliceExecFns;
use vstd::utf8::char_is_scalar;
use vstd::utf8::char_u32_cast;
use vstd::utf8::is_scalar;

verus! {

/// The bytes of `n` as a minimal base-128 varint, least-significant group
/// first, continuation bit high on every byte but the last.
pub open spec fn varint(n: u64) -> Seq<u8>
    decreases n,
{
    if n < 128 {
        seq![n as u8]
    } else {
        seq![(n % 128 + 128) as u8] + varint(n / 128)
    }
}

/// Reads a varint at `pos` as an unbounded natural, rejecting non-minimal
/// encodings (a continuation into a zero value).
pub open spec fn parse_varint_nat(bytes: Seq<u8>, pos: int) -> Option<(nat, int)>
    decreases bytes.len() - pos,
{
    if pos < 0 || pos >= bytes.len() {
        None
    } else {
        let b = bytes[pos];
        if b < 128 {
            Some((b as nat, pos + 1))
        } else {
            match parse_varint_nat(bytes, pos + 1) {
                Some((v, p)) => if v == 0 {
                    None
                } else {
                    Some(((b - 128) as nat + 128 * v, p))
                },
                None => None,
            }
        }
    }
}

/// Reads a varint at `pos`, rejecting values that do not fit in 64 bits.
pub open spec fn parse_varint(bytes: Seq<u8>, pos: int) -> Option<(u64, int)> {
    match parse_varint_nat(bytes, pos) {
        Some((v, p)) => if v < 0x1_0000_0000_0000_0000 {
            Some((v as u64, p))
        } else {
            None
        },
        None => None,
    }
}

/// A varint written at `pos` reads back as the value it encodes.
pub proof fn lemma_parse_varint_at(bytes: Seq<u8>, pos: int, n: u64)
    requires
        0 <= pos,
        pos + varint(n).len() <= bytes.len(),
        bytes.subrange(pos, pos + varint(n).len() as int) == varint(n),
    ensures
        parse_varint_nat(bytes, pos) == Some((n as nat, pos + varint(n).len())),
        parse_varint(bytes, pos) == Some((n, pos + varint(n).len())),
    decreases n,
{
    let w = varint(n);
    assert(bytes[pos] == bytes.subrange(pos, pos + w.len() as int)[0]);
    if n < 128 {
        assert(bytes[pos] == n as u8);
    } else {
        let rest = varint(n / 128);
        assert(bytes[pos] == (n % 128 + 128) as u8);
        assert(bytes.subrange(pos + 1, pos + 1 + rest.len() as int) =~= rest) by {
            assert forall|k: int| 0 <= k < rest.len() implies bytes.subrange(
                pos + 1,
                pos + 1 + rest.len() as int,
            )[k] == rest[k] by {
                assert(bytes.subrange(pos, pos + w.len() as int)[k + 1] == rest[k]);
            }
        }
        lemma_parse_varint_at(bytes, pos + 1, n / 128);
        assert(n / 128 >= 1);
        assert((n % 128 + 128) as u8 >= 128);
        assert(((n % 128 + 128) as u8 - 128) as nat + 128 * (n / 128) as nat == n as nat);
    }
}

/// Appends the varint encoding of `n`.
pub fn encode_varint(out: &mut Vec<u8>, n: u64)
    ensures
        final(out)@ == old(out)@ + varint(n),
{
    let mut m = n;
    while m >= 128
        invariant
            out@ + varint(m) == old(out)@ + varint(n),
        decreases m,
    {
        out.push((m % 128 + 128) as u8);
        m = m / 128;
    }
    out.push(m as u8);
    assert(final(out)@ =~= old(out)@ + varint(n));
}

/// Reads a varint, returning the value and the position after it; `None` on
/// anything but a minimal encoding of a 64-bit value.
pub fn decode_varint(bytes: &Vec<u8>, pos: usize) -> (r: Option<(u64, usize)>)
    ensures
        match r {
            Some(v) => pos < v.1 <= bytes@.len() && parse_varint(bytes@, pos as int) == Some(
                (v.0, v.1 as int),
            ),
            None => parse_varint(bytes@, pos as int) is None,
        },
    decreases bytes@.len() - pos,
{
    if pos >= bytes.len() {
        return None;
    }
    let b = bytes[pos];
    if b < 128 {
        Some((b as u64, pos + 1))
    } else {
        match decode_varint(bytes, pos + 1) {
            None => None,
            Some((v, p)) => {
                if v == 0 {
                    None
                } else if v > (u64::MAX - (b - 128) as u64) / 128 {
                    assert(parse_varint_nat(bytes@, pos as int) matches Some(t) && t.0
                        >= 0x1_0000_0000_0000_0000) by {
                        assert((b - 128) as nat + 128 * (v as nat) >= 0x1_0000_0000_0000_0000)
                            by (nonlinear_arith)
                            requires
                                v > (u64::MAX - (b - 128) as u64) / 128,
                                v <= u64::MAX,
                                b >= 128,
                        ;
                    }
                    None
                } else {
                    assert((b - 128) as u64 + 128 * v <= u64::MAX) by (nonlinear_arith)
                        requires
                            v <= (u64::MAX - (b - 128) as u64) / 128,
                            b >= 128,
                    ;
                    Some(((b - 128) as u64 + 128 * v, p))
                }
            },
        }
    }
}

/// The character count of `s` followed by each character's scalar value,
/// every number a varint.
pub open spec fn encode_chars(s: Seq<char>) -> Seq<u8>
    decreases s.len(),
{
    if s.len() == 0 {
        Seq::empty()
    } else {
        varint((s[0] as u32) as u64) + encode_chars(s.drop_first())
    }
}

/// The wire form of a string.
pub open spec fn spec_encode_str(s: Seq<char>) -> Seq<u8> {
    varint(s.len() as u64) + encode_chars(s)
}

/// Appending one character extends the character encoding at its end.
pub proof fn lemma_encode_chars_push(s: Seq<char>, c: char)
    ensures
        encode_chars(s.push(c)) == encode_chars(s) + varint((c as u32) as u64),
    decreases s.len(),
{
    if s.len() == 0 {
        assert(s.push(c)[0] == c);
        assert(s.push(c).drop_first() =~= Seq::<char>::empty());
        assert(encode_chars(Seq::<char>::empty()) == Seq::<u8>::empty());
        assert(encode_chars(s.push(c)) =~= encode_chars(s) + varint((c as u32) as u64));
    } else {
        assert(s.push(c)[0] == s[0]);
        assert(s.push(c).drop_first() =~= s.drop_first().push(c));
        lemma_encode_chars_push(s.drop_first(), c);
        assert(encode_chars(s.push(c)) =~= encode_chars(s) + varint((c as u32) as u64));
    }
}

/// Reads `count` characters at `pos`, each a varint that must be a valid
/// Unicode scalar value.
pub open spec fn parse_chars(bytes: Seq<u8>, pos: int, count: nat) -> Option<(Seq<char>, int)>
    decreases count,
{
    if count == 0 {
        Some((Seq::empty(), pos))
    } else {
        match parse_varint(bytes, pos) {
            Some((v, p)) => if v < 0x1_0000_0000 && is_scalar(v as u32) {
                match parse_chars(bytes, p, (count - 1) as nat) {
                    Some((s, p2)) => Some((seq![(v as u32) as char] + s, p2)),
                    None => None,
                }
            } else {
                None
            },
            None => None,
        }
    }
}

/// Reads a string at `pos`: its character count, then its characters.
pub open spec fn parse_str(bytes: Seq<u8>, pos: int) -> Option<(Seq<char>, int)> {
    match parse_varint(bytes, pos) {
        Some((n, p)) => parse_chars(bytes, p, n as nat),
        None => None,
    }
}

/// Characters written at `pos` read back as themselves.
pub proof fn lemma_parse_chars_at(bytes: Seq<u8>, pos: int, s: Seq<char>)
    requires
        0 <= pos,
        pos + encode_chars(s).len() <= bytes.len(),
        bytes.subrange(pos, pos + encode_chars(s).len() as int) == encode_chars(s),
    ensures
        parse_chars(bytes, pos, s.len()) == Some((s, pos + encode_chars(s).len())),
    decreases s.len(),
{
    broadcast use char_is_scalar, char_u32_cast;

    if s.len() > 0 {
        let c = s[0];
        let w = varint((c as u32) as u64);
        let e = encode_chars(s);
        let rest = encode_chars(s.drop_first());
        assert(e == w + rest);
        assert(bytes.subrange(pos, pos + w.len() as int) =~= w) by {
            assert forall|k: int| 0 <= k < w.len() implies bytes.subrange(
                pos,
                pos + w.len() as int,
            )[k] == w[k] by {
                assert(bytes.subrange(pos, pos + e.len() as int)[k] == e[k]);
            }
        }
        lemma_parse_varint_at(bytes, pos, (c as u32) as u64);
        let p = pos + w.len();
        assert(bytes.subrange(p, p + rest.len() as int) =~= rest) by {
            assert forall|k: int| 0 <= k < rest.len() implies bytes.subrange(
                p,
                p + rest.len() as int,
            )[k] == rest[k] by {
                assert(bytes.subrange(pos, pos + e.len() as int)[w.len() + k] == e[w.len() + k]);
            }
        }
        lemma_parse_chars_at(bytes, p, s.drop_first());
        let x: u32 = c as u32;
        assert((x as u64) < 0x1_0000_0000) by (bit_vector);
        assert(((x as u64) as u32) == x) by (bit_vector);
        char_u32_cast(c, (x as u64) as u32);
        assert(((((c as u32) as u64)) as u32) as char == c);
        assert(seq![c] + s.drop_first() =~= s);
    }
}

/// A string written at `pos` reads back as itself.
pub proof fn lemma_parse_str_at(bytes: Seq<u8>, pos: int, s: Seq<char>)
    requires
        s.len() < 0x1_0000_0000_0000_0000,
        0 <= pos,
        pos + spec_encode_str(s).len() <= bytes.len(),
        bytes.subrange(pos, pos + spec_encode_str(s).len() as int) == spec_encode_str(s),
    ensures
        parse_str(bytes, pos) == Some((s, pos + spec_encode_str(s).len())),
{
    let w = varint(s.len() as u64);
    let e = spec_encode_str(s);
    let rest = encode_chars(s);
    assert(bytes.subrange(pos, pos + w.len() as int) =~= w) by {
        assert forall|k: int| 0 <= k < w.len() implies bytes.subrange(
            pos,
            pos + w.len() as int,
        )[k] == w[k] by {
            assert(bytes.subrange(pos, pos + e.len() as int)[k] == e[k]);
        }
    }
    lemma_parse_varint_at(bytes, pos, s.len() as u64);
    let p = pos + w.len();
    assert(bytes.subrange(p, p + rest.len() as int) =~= rest) by {
        assert forall|k: int| 0 <= k < rest.len() implies bytes.subrange(
            p,
            p + rest.len() as int,
        )[k] == rest[k] by {
            assert(bytes.subrange(pos, pos + e.len() as int)[w.len() + k] == e[w.len() + k]);
        }
    }
    lemma_parse_chars_at(bytes, p, s);
    assert((s.len() as u64) as nat == s.len());
}

/// Relies on `char::from_u32` of std: `Some` exactly for Unicode scalar
/// values, yielding the character with that value.
#[verifier::external_body]
fn char_from_u32(v: u32) -> (r: Option<char>)
    ensures
        r is Some <==> is_scalar(v),
        r matches Some(c) ==> c == (v as char),
{
    char::from_u32(v)
}

/// Relies on `String::push` of std: appends the given character to the end
/// of the string.
#[verifier::external_body]
fn push_char(s: &mut String, c: char)
    ensures
        final(s)@ == old(s)@.push(c),
{
    s.push(c);
}

/// Appends the wire form of a string.
pub fn encode_str(out: &mut Vec<u8>, s: &String)
    ensures
        final(out)@ == old(out)@ + spec_encode_str(s@),
{
    broadcast use char_is_scalar;

    let n = s.as_str().unicode_len();
    encode_varint(out, n as u64);
    let mut i: usize = 0;
    assert(s@.take(0) =~= Seq::<char>::empty());
    while i < n
        invariant
            i <= n,
            n == s@.len(),
            out@ == old(out)@ + varint(n as u64) + encode_chars(s@.take(i as int)),
        decreases n - i,
    {
        let c = s.as_str().get_char(i);
        proof {
            lemma_encode_chars_push(s@.take(i as int), c);
            assert(s@.take(i as int).push(c) =~= s@.take(i + 1));
        }
        encode_varint(out, (c as u32) as u64);
        i += 1;
        assert(out@ =~= old(out)@ + varint(n as u64) + encode_chars(s@.take(i as int)));
    }
    assert(s@.take(n as int) =~= s@);
    assert(final(out)@ =~= old(out)@ + spec_encode_str(s@));
}

/// Reads a string, returning it and the position after it.
pub fn decode_str(bytes: &Vec<u8>, pos: usize) -> (r: Option<(String, usize)>)
    ensures
        match r {
            Some(v) => pos <= v.1 <= bytes@.len() && (parse_str(bytes@, pos as int) matches Some(
                q,
            ) && q.0 == v.0@ && q.1 == v.1 as int),
            None => parse_str(bytes@, pos as int) is None,
        },
{
    let (count, mut cur) = match decode_varint(bytes, pos) {
        None => {
            return None;
        },
        Some(v) => v,
    };
    let mut acc = String::new();
    let mut k: u64 = 0;
    while k < count
        invariant
            k <= count,
            pos < cur <= bytes@.len(),
            parse_str(bytes@, pos as int) == (match parse_chars(
                bytes@,
                cur as int,
                (count - k) as nat,
            ) {
                Some(q) => Some((acc@ + q.0, q.1)),
                None => None::<(Seq<char>, int)>,
            }),
        decreases count - k,
    {
        let (v, p) = match decode_varint(bytes, cur) {
            None => {
                return None;
            },
            Some(v) => v,
        };
        if v >= 0x1_0000_0000 {
            return None;
        }
        let c = match char_from_u32(v as u32) {
            None => {
                return None;
            },
            Some(c) => c,
        };
        let ghost acc_pre = acc@;
        push_char(&mut acc, c);
        proof {
            assert(parse_chars(bytes@, cur as int, (count - k) as nat) == (match parse_chars(
                bytes@,
                p as int,
                (count - k - 1) as nat,
            ) {
                Some(q) => Some((seq![c] + q.0, q.1)),
                None => None::<(Seq<char>, int)>,
            }));
            match parse_chars(bytes@, p as int, (count - k - 1) as nat) {
                Some(q) => {
                    assert(acc@ + q.0 =~= acc_pre + (seq![c] + q.0));
                },
                None => {},
            }
        }
        cur = p;
        k = k + 1;
    }
    assert(acc@ + Seq::<char>::empty() =~= acc@);
    Some((acc, cur))
}

/// The wire form of a boolean: one byte, `1` for true.
pub open spec fn encode_bool(b: bool) -> Seq<u8> {
    seq![if b { 1u8 } else { 0u8 }]
}

/// Reads a boolean byte; anything but `0` or `1` is rejected.
pub open spec fn parse_bool(bytes: Seq<u8>, pos: int) -> Option<(bool, int)> {
    if 0 <= pos < bytes.len() {
        if bytes[pos] == 0 {
            Some((false, pos + 1))
        } else if bytes[pos] == 1 {
            Some((true, pos + 1))
        } else {
            None
        }
    } else {
        None
    }
}

/// Appends a boolean byte.
pub fn encode_bool_byte(out: &mut Vec<u8>, b: bool)
    ensures
        final(out)@ == old(out)@ + encode_bool(b),
{
    out.push(if b { 1 } else { 0 });
    assert(final(out)@ =~= old(out)@ + encode_bool(b));
}

/// Reads a boolean byte.
pub fn decode_bool_byte(bytes: &Vec<u8>, pos: usize) -> (r: Option<(bool, usize)>)
    ensures
        match r {
            Some(v) => pos < v.1 <= bytes@.len() && parse_bool(bytes@, pos as int) == Some(
                (v.0, v.1 as int),
            ),
            None => parse_bool(bytes@, pos as int) is None,
        },
{
    if pos >= bytes.len() {
        return None;
    }
    let b = bytes[pos];
    if b == 0 {
        Some((false, pos + 1))
    } else if b == 1 {
        Some((true, pos + 1))
    } else {
        None
    }
}

/// Splitting a written concatenation back into its two parts.
pub proof fn lemma_concat_subranges(bytes: Seq<u8>, pos: int, a: Seq<u8>, b: Seq<u8>)
    requires
        0 <= pos,
        pos + a.len() + b.len() <= bytes.len(),
        bytes.subrange(pos, pos + a.len() + b.len()) == a + b,
    ensures
        bytes.subrange(pos, pos + a.len() as int) == a,
        bytes.subrange(pos + a.len(), pos + a.len() + b.len()) == b,
{
    assert(bytes.subrange(pos, pos + a.len() as int) =~= a) by {
        assert forall|k: int| 0 <= k < a.len() implies bytes.subrange(pos, pos + a.len() as int)[k]
            == a[k] by {
            assert(bytes.subrange(pos, pos + a.len() + b.len())[k] == (a + b)[k]);
        }
    }
    assert(bytes.subrange(pos + a.len(), pos + a.len() + b.len()) =~= b) by {
        assert forall|k: int| 0 <= k < b.len() implies bytes.subrange(
            pos + a.len(),
            pos + a.len() + b.len(),
        )[k] == b[k] by {
            assert(bytes.subrange(pos, pos + a.len() + b.len())[a.len() + k] == (a + b)[a.len()
                + k]);
            assert(bytes.subrange(pos, pos + a.len() + b.len())[a.len() + k] == bytes[pos + a.len()
                + k]);
            assert(bytes.subrange(pos + a.len(), pos + a.len() + b.len())[k] == bytes[pos + a.len()
                + k]);
            assert((a + b)[a.len() + k] == b[k]);
        }
    }
}

/// The wire form of an optional string: a presence byte, then the string.
pub open spec fn encode_opt_str(o: Option<Seq<char>>) -> Seq<u8> {
    match o {
        None => seq![0u8],
        Some(s) => seq![1u8] + spec_encode_str(s),
    }
}

/// Reads an optional string.
pub open spec fn parse_opt_str(bytes: Seq<u8>, pos: int) -> Option<(Option<Seq<char>>, int)> {
    if 0 <= pos < bytes.len() {
        if bytes[pos] == 0 {
            Some((None, pos + 1))
        } else if bytes[pos] == 1 {
            match parse_str(bytes, pos + 1) {
                Some((s, p)) => Some((Some(s), p)),
                None => None,
            }
        } else {
            None
        }
    } else {
        None
    }
}

/// An optional string written at `pos` reads back as itself.
pub proof fn lemma_parse_opt_str_at(bytes: Seq<u8>, pos: int, o: Option<Seq<char>>)
    requires
        o matches Some(s) ==> s.len() < 0x1_0000_0000_0000_0000,
        0 <= pos,
        pos + encode_opt_str(o).len() <= bytes.len(),
        bytes.subrange(pos, pos + encode_opt_str(o).len() as int) == encode_opt_str(o),
    ensures
        parse_opt_str(bytes, pos) == Some((o, pos + encode_opt_str(o).len())),
{
    let e = encode_opt_str(o);
    assert(bytes[pos] == bytes.subrange(pos, pos + e.len() as int)[0]);
    match o {
        None => {},
        Some(s) => {
            lemma_concat_subranges(bytes, pos, seq![1u8], spec_encode_str(s));
            lemma_parse_str_at(bytes, pos + 1, s);
        },
    }
}

/// The wire form of an optional integer: a presence byte, then a varint.
pub open spec fn encode_opt_u64(o: Option<u64>) -> Seq<u8> {
    match o {
        None => seq![0u8],
        Some(n) => seq![1u8] + varint(n),
    }
}

/// Reads an optional integer.
pub open spec fn parse_opt_u64(bytes: Seq<u8>, pos: int) -> Option<(Option<u64>, int)> {
    if 0 <= pos < bytes.len() {
        if bytes[pos] == 0 {
            Some((None, pos + 1))
        } else if bytes[pos] == 1 {
            match parse_varint(bytes, pos + 1) {
                Some((n, p)) => Some((Some(n), p)),
                None => None,
            }
        } else {
            None
        }
    } else {
        None
    }
}

/// An optional integer written at `pos` reads back as itself.
pub proof fn lemma_parse_opt_u64_at(bytes: Seq<u8>, pos: int, o: Option<u64>)
    requires
        0 <= pos,
        pos + encode_opt_u64(o).len() <= bytes.len(),
        bytes.subrange(pos, pos + encode_opt_u64(o).len() as int) == encode_opt_u64(o),
    ensures
        parse_opt_u64(bytes, pos) == Some((o, pos + encode_opt_u64(o).len())),
{
    let e = encode_opt_u64(o);
    assert(bytes[pos] == bytes.subrange(pos, pos + e.len() as int)[0]);
    match o {
        None => {},
        Some(n) => {
            lemma_concat_subranges(bytes, pos, seq![1u8], varint(n));
            lemma_parse_varint_at(bytes, pos + 1, n);
        },
    }
}

/// The wire form of an optional boolean: a presence byte, then the value.
pub open spec fn encode_opt_bool(o: Option<bool>) -> Seq<u8> {
    match o {
        None => seq![0u8],
        Some(b) => seq![1u8] + encode_bool(b),
    }
}

/// Reads an optional boolean.
pub open spec fn parse_opt_bool(bytes: Seq<u8>, pos: int) -> Option<(Option<bool>, int)> {
    if 0 <= pos < bytes.len() {
        if bytes[pos] == 0 {
            Some((None, pos + 1))
        } else if bytes[pos] == 1 {
            match parse_bool(bytes, pos + 1) {
                Some((b, p)) => Some((Some(b), p)),
                None => None,
            }
        } else {
            None
        }
    } else {
        None
    }
}

/// An optional boolean written at `pos` reads back as itself.
pub proof fn lemma_parse_opt_bool_at(bytes: Seq<u8>, pos: int, o: Option<bool>)
    requires
        0 <= pos,
        pos + encode_opt_bool(o).len() <= bytes.len(),
        bytes.subrange(pos, pos + encode_opt_bool(o).len() as int) == encode_opt_bool(o),
    ensures
        parse_opt_bool(bytes, pos) == Some((o, pos + encode_opt_bool(o).len())),
{
    let e = encode_opt_bool(o);
    assert(bytes[pos] == bytes.subrange(pos, pos + e.len() as int)[0]);
    match o {
        None => {},
        Some(b) => {
            lemma_concat_subranges(bytes, pos, seq![1u8], encode_bool(b));
            assert(bytes[pos + 1] == bytes.subrange(pos + 1, pos + 2)[0]);
        },
    }
}

/// Appends an optional string.
pub fn encode_opt_str_field(out: &mut Vec<u8>, o: &Option<String>)
    ensures
        final(out)@ == old(out)@ + encode_opt_str(match *o {
            Some(ref s) => Some(s@),
            None => None,
        }),
{
    match o {
        None => {
            out.push(0);
            assert(final(out)@ =~= old(out)@ + encode_opt_str(None));
        },
        Some(s) => {
            out.push(1);
            encode_str(out, s);
            assert(final(out)@ =~= old(out)@ + encode_opt_str(Some(s@)));
        },
    }
}

/// Reads an optional string.
pub fn decode_opt_str_field(bytes: &Vec<u8>, pos: usize) -> (r: Option<(Option<String>, usize)>)
    ensures
        match r {
            Some(v) => pos < v.1 <= bytes@.len() && (parse_opt_str(bytes@, pos as int)
                matches Some(q) && q.0 == (match v.0 {
                Some(ref s) => Some(s@),
                None => None::<Seq<char>>,
            }) && q.1 == v.1 as int),
            None => parse_opt_str(bytes@, pos as int) is None,
        },
{
    if pos >= bytes.len() {
        return None;
    }
    let flag = bytes[pos];
    if flag == 0 {
        Some((None, pos + 1))
    } else if flag == 1 {
        match decode_str(bytes, pos + 1) {
            Some((s, p)) => Some((Some(s), p)),
            None => None,
        }
    } else {
        None
    }
}

/// Appends an optional integer.
pub fn encode_opt_u64_field(out: &mut Vec<u8>, o: Option<u64>)
    ensures
        final(out)@ == old(out)@ + encode_opt_u64(o),
{
    match o {
        None => {
            out.push(0);
            assert(final(out)@ =~= old(out)@ + encode_opt_u64(None));
        },
        Some(n) => {
            out.push(1);
            encode_varint(out, n);
            assert(final(out)@ =~= old(out)@ + encode_opt_u64(Some(n)));
        },
    }
}

/// Reads an optional integer.
pub fn decode_opt_u64_field(bytes: &Vec<u8>, pos: usize) -> (r: Option<(Option<u64>, usize)>)
    ensures
        match r {
            Some(v) => pos < v.1 <= bytes@.len() && parse_opt_u64(bytes@, pos as int) == Some(
                (v.0, v.1 as int),
            ),
            None => parse_opt_u64(bytes@, pos as int) is None,
        },
{
    if pos >= bytes.len() {
        return None;
    }
    let flag = bytes[pos];
    if flag == 0 {
        Some((None, pos + 1))
    } else if flag == 1 {
        match decode_varint(bytes, pos + 1) {
            Some((n, p)) => Some((Some(n), p)),
            None => None,
        }
    } else {
        None
    }
}

/// Appends an optional boolean.
pub fn encode_opt_bool_field(out: &mut Vec<u8>, o: Option<bool>)
    ensures
        final(out)@ == old(out)@ + encode_opt_bool(o),
{
    match o {
        None => {
            out.push(0);
            assert(final(out)@ =~= old(out)@ + encode_opt_bool(None));
        },
        Some(b) => {
            out.push(1);
            encode_bool_byte(out, b);
            assert(final(out)@ =~= old(out)@ + encode_opt_bool(Some(b)));
        },
    }
}

/// Reads an optional boolean.
pub fn decode_opt_bool_field(bytes: &Vec<u8>, pos: usize) -> (r: Option<(Option<bool>, usize)>)
    ensures
        match r {
            Some(v) => pos < v.1 <= bytes@.len() && parse_opt_bool(bytes@, pos as int) == Some(
                (v.0, v.1 as int),
            ),
            None => parse_opt_bool(bytes@, pos as int) is None,
        },
{
    if pos >= bytes.len() {
        return None;
    }
    let flag = bytes[pos];
    if flag == 0 {
        Some((None, pos + 1))
    } else if flag == 1 {
        match decode_bool_byte(bytes, pos + 1) {
            Some((b, p)) => Some((Some(b), p)),
            None => None,
        }
    } else {
        None
    }
}

} // verus!
