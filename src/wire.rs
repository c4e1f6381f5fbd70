use vstd::prelude::*;
use vstd::utf8::{decode_utf8, encode_utf8, valid_utf8};

verus! {

/// The base-128 varint of `n`: seven bits per byte, least significant
/// group first, the top bit set on every byte but the last.
pub open spec fn varint(n: u64) -> Seq<u8>
    decreases n,
{
    if n < 128 {
        seq![n as u8]
    } else {
        seq![((n % 128) + 128) as u8] + varint(n / 128)
    }
}

/// Reads a varint of at most `fuel` bytes at `pos`: its value and the
/// position after it.
pub open spec fn parse_varint(s: Seq<u8>, pos: int, fuel: nat) -> Option<(int, int)>
    decreases fuel,
{
    if fuel == 0 || pos < 0 || pos >= s.len() {
        None
    } else if s[pos] < 128 {
        Some((s[pos] as int, pos + 1))
    } else {
        match parse_varint(s, pos + 1, (fuel - 1) as nat) {
            Some((v, p)) => Some(((s[pos] - 128) + 128 * v, p)),
            None => None,
        }
    }
}

/// The most bytes a 64-bit varint takes.
pub const VARINT_MAX_BYTES: usize = 10;

/// The varint at `pos`, if one of at most ten bytes is there and its value
/// fits 64 bits.
pub open spec fn read_varint(s: Seq<u8>, pos: int) -> Option<(u64, int)> {
    match parse_varint(s, pos, VARINT_MAX_BYTES as nat) {
        Some((v, p)) => if v <= u64::MAX {
            Some((v as u64, p))
        } else {
            None
        },
        None => None,
    }
}

pub open spec fn pow128(k: nat) -> int
    decreases k,
{
    if k == 0 {
        1
    } else {
        128 * pow128((k - 1) as nat)
    }
}

proof fn lemma_parse_varint_bound(s: Seq<u8>, pos: int, fuel: nat)
    ensures
        parse_varint(s, pos, fuel) matches Some((v, p)) ==> 0 <= v < pow128(fuel) && pos < p <= s.len(),
    decreases fuel,
{
    if fuel > 0 && 0 <= pos < s.len() && s[pos] >= 128 {
        lemma_parse_varint_bound(s, pos + 1, (fuel - 1) as nat);
        if let Some((v, p)) = parse_varint(s, pos + 1, (fuel - 1) as nat) {
            let b = s[pos] - 128;
            assert(0 <= b < 128);
            assert(b + 128 * v < 128 + 128 * v);
            assert(128 * v + 128 <= 128 * pow128((fuel - 1) as nat)) by (nonlinear_arith)
                requires v < pow128((fuel - 1) as nat), v >= 0;
        }
    }
    if fuel > 0 {
        assert(pow128(fuel) == 128 * pow128((fuel - 1) as nat));
        lemma_pow128_positive((fuel - 1) as nat);
    }
}

proof fn lemma_pow128_positive(k: nat)
    ensures
        pow128(k) >= 1,
    decreases k,
{
    if k > 0 {
        lemma_pow128_positive((k - 1) as nat);
    }
}

/// A varint is read back as the number it was written from, whatever follows.
pub proof fn lemma_varint_round_trip(n: u64, rest: Seq<u8>)
    ensures
        1 <= varint(n).len() <= VARINT_MAX_BYTES,
        read_varint(varint(n) + rest, 0) == Some((n, varint(n).len() as int)),
{
    lemma_pow128_ten();
    lemma_varint_parse(n, rest, VARINT_MAX_BYTES as nat);
}

proof fn lemma_pow128_ten()
    ensures
        pow128(10) == 0x40_0000_0000_0000_0000,
{
    reveal_with_fuel(pow128, 11);
}

proof fn lemma_varint_len(n: u64, k: nat)
    requires
        (n as int) < pow128(k),
    ensures
        varint(n).len() <= k || (k == 0),
        varint(n).len() >= 1,
    decreases n,
{
    if n >= 128 {
        if k > 0 {
            assert(pow128(k) == 128 * pow128((k - 1) as nat));
            assert(((n / 128) as int) < pow128((k - 1) as nat)) by (nonlinear_arith)
                requires (n as int) < 128 * pow128((k - 1) as nat), n >= 128;
            lemma_varint_len(n / 128, (k - 1) as nat);
            if k == 1 {
                assert(pow128(0) == 1);
            }
        } else {
            lemma_varint_len(n / 128, 0);
        }
    }
}

proof fn lemma_varint_parse(n: u64, rest: Seq<u8>, fuel: nat)
    requires
        (n as int) < pow128(fuel),
        fuel >= 1,
    ensures
        1 <= varint(n).len() <= fuel,
        parse_varint(varint(n) + rest, 0, fuel) == Some((n as int, varint(n).len() as int)),
    decreases n,
{
    let s = varint(n) + rest;
    lemma_varint_len(n, fuel);
    if fuel == 0 {
        assert(pow128(0) == 1);
    }
    if n >= 128 {
        let m = n / 128;
        assert(pow128(fuel) == 128 * pow128((fuel - 1) as nat));
        assert((m as int) < pow128((fuel - 1) as nat)) by (nonlinear_arith)
            requires (n as int) < 128 * pow128((fuel - 1) as nat), n >= 128, m == n / 128;
        if fuel == 1 {
            assert(pow128(0) == 1);
        }
        lemma_varint_parse(m, rest, (fuel - 1) as nat);
        assert(varint(n) == seq![((n % 128) + 128) as u8] + varint(m));
        assert(s.subrange(1, s.len() as int) =~= varint(m) + rest);
        lemma_parse_shift(s, 1, (fuel - 1) as nat);
        assert(s[0] == ((n % 128) + 128) as u8);
        assert(n as int == (n % 128) + 128 * (m as int));
    } else {
        assert(s[0] == n as u8);
    }
}

/// Parsing at `pos` reads the same as parsing the bytes from `pos` on.
proof fn lemma_parse_shift(s: Seq<u8>, pos: int, fuel: nat)
    requires
        0 <= pos <= s.len(),
    ensures
        parse_varint(s, pos, fuel) == match parse_varint(s.subrange(pos, s.len() as int), 0, fuel) {
            Some((v, p)) => Some((v, p + pos)),
            None => None,
        },
    decreases fuel,
{
    let t = s.subrange(pos, s.len() as int);
    if fuel > 0 && pos < s.len() {
        assert(t[0] == s[pos]);
        if s[pos] >= 128 {
            lemma_parse_shift(s, pos + 1, (fuel - 1) as nat);
            lemma_parse_shift(t, 1, (fuel - 1) as nat);
            assert(t.subrange(1, t.len() as int) =~= s.subrange(pos + 1, s.len() as int));
        }
    }
}

/// Relies on `prost::encoding::encode_varint`: it appends the base-128
/// bytes of `n`, least significant group first, with the top bit set on all
/// but the last.
#[verifier::external_body]
pub(crate) fn push_varint(out: &mut Vec<u8>, n: u64)
    ensures
        final(out)@ == old(out)@ + varint(n),
{
    prost::encoding::encode_varint(n, out)
}

/// Relies on `prost::encoding::decode_varint` over the bytes from `pos` on:
/// it reads a varint of at most ten bytes whose value fits 64 bits, fails
/// otherwise, and leaves the slice just after it; the result holds the
/// value and how many bytes are left.
#[verifier::external_body]
fn decode_varint_from(s: &[u8], pos: usize) -> (r: Option<(u64, usize)>)
    requires
        pos <= s@.len(),
    ensures
        match read_varint(s@, pos as int) {
            Some((v, p)) => r == Some((v, (s@.len() - p) as usize)),
            None => r is None,
        },
{
    let mut rest = &s[pos..];
    match prost::encoding::decode_varint(&mut rest) {
        Ok(v) => Some((v, rest.len())),
        Err(_) => None,
    }
}

/// Reads the varint at `pos`: its value and the position after it.
pub fn read_varint_at(s: &[u8], pos: usize) -> (r: Option<(u64, usize)>)
    ensures
        match read_varint(s@, pos as int) {
            Some((v, p)) => r == Some((v, p as usize)),
            None => r is None,
        },
{
    if pos > s.len() {
        return None;
    }
    proof {
        lemma_read_varint_bound(s@, pos as int);
    }
    match decode_varint_from(s, pos) {
        Some((v, rest)) => Some((v, s.len() - rest)),
        None => None,
    }
}

/// The value of one field, as its wire type lays it out. Length-delimited
/// values are given by their start and end in the input.
#[derive(Clone, Copy, Debug, PartialEq, Eq, Structural)]
pub enum WireValue {
    Varint(u64),
    Fixed64,
    Bytes(usize, usize),
    Fixed32,
}

/// The largest field number.
pub const MAX_TAG: u64 = 0x1fff_ffff;

/// The field at `pos`: its number, its value, and the position after it.
/// Field number zero, numbers over `MAX_TAG`, group wire types and values
/// that run past the end are refused.
pub open spec fn read_field(s: Seq<u8>, pos: int) -> Option<(u64, WireValue, int)> {
    match read_varint(s, pos) {
        None => None,
        Some((k, p1)) => {
            let tag = k / 8;
            let wt = k % 8;
            if tag == 0 || tag > MAX_TAG {
                None
            } else if wt == 0 {
                match read_varint(s, p1) {
                    Some((v, p2)) => Some((tag, WireValue::Varint(v), p2)),
                    None => None,
                }
            } else if wt == 1 {
                if p1 + 8 <= s.len() {
                    Some((tag, WireValue::Fixed64, p1 + 8))
                } else {
                    None
                }
            } else if wt == 2 {
                match read_varint(s, p1) {
                    Some((n, p2)) => if p2 + n <= s.len() {
                        Some((tag, WireValue::Bytes(p2 as usize, (p2 + n) as usize), p2 + n))
                    } else {
                        None
                    },
                    None => None,
                }
            } else if wt == 5 {
                if p1 + 4 <= s.len() {
                    Some((tag, WireValue::Fixed32, p1 + 4))
                } else {
                    None
                }
            } else {
                None
            }
        },
    }
}

proof fn lemma_read_varint_bound(s: Seq<u8>, pos: int)
    ensures
        read_varint(s, pos) matches Some((v, p)) ==> pos < p <= s.len(),
{
    lemma_parse_varint_bound(s, pos, VARINT_MAX_BYTES as nat);
}

pub proof fn lemma_read_field_bound(s: Seq<u8>, pos: int)
    requires
        s.len() <= usize::MAX,
    ensures
        read_field(s, pos) matches Some((t, v, p)) ==> pos < p <= s.len() && (v matches WireValue::Bytes(a, b) ==> pos
            < a <= b == p),
{
    lemma_read_varint_bound(s, pos);
    if let Some((k, p1)) = read_varint(s, pos) {
        lemma_read_varint_bound(s, p1);
    }
}

/// Reads the field at `pos`.
pub fn read_field_at(s: &[u8], pos: usize) -> (r: Option<(u64, WireValue, usize)>)
    ensures
        match read_field(s@, pos as int) {
            Some((t, v, p)) => r == Some((t, v, p as usize)),
            None => r is None,
        },
{
    let len = s.len();
    proof {
        lemma_read_varint_bound(s@, pos as int);
    }
    let (k, p1) = match read_varint_at(s, pos) {
        Some(x) => x,
        None => return None,
    };
    proof {
        lemma_read_varint_bound(s@, p1 as int);
    }
    let tag = k / 8;
    let wt = k % 8;
    if tag == 0 || tag > MAX_TAG {
        return None;
    }
    if wt == 0 {
        match read_varint_at(s, p1) {
            Some((v, p2)) => Some((tag, WireValue::Varint(v), p2)),
            None => None,
        }
    } else if wt == 1 {
        if s.len() - p1 >= 8 {
            Some((tag, WireValue::Fixed64, p1 + 8))
        } else {
            None
        }
    } else if wt == 2 {
        match read_varint_at(s, p1) {
            Some((n, p2)) => if n <= (s.len() - p2) as u64 {
                let end = p2 + n as usize;
                Some((tag, WireValue::Bytes(p2, end), end))
            } else {
                None
            },
            None => None,
        }
    } else if wt == 5 {
        if s.len() - p1 >= 4 {
            Some((tag, WireValue::Fixed32, p1 + 4))
        } else {
            None
        }
    } else {
        None
    }
}

/// The key of a field: its number and wire type.
pub open spec fn key_bytes(tag: u64, wt: u64) -> Seq<u8> {
    varint((tag * 8 + wt) as u64)
}

/// A length-delimited field.
pub open spec fn len_field(tag: u64, b: Seq<u8>) -> Seq<u8> {
    key_bytes(tag, 2) + varint(b.len() as u64) + b
}

/// A varint field.
pub open spec fn varint_field(tag: u64, v: u64) -> Seq<u8> {
    key_bytes(tag, 0) + varint(v)
}

/// A string field, left out when the string is empty.
pub open spec fn string_field(tag: u64, s: Seq<char>) -> Seq<u8> {
    if encode_utf8(s).len() == 0 {
        Seq::empty()
    } else {
        len_field(tag, encode_utf8(s))
    }
}

/// Appends a length-delimited field.
pub fn push_len_field(out: &mut Vec<u8>, tag: u64, b: &[u8])
    requires
        1 <= tag <= MAX_TAG,
    ensures
        final(out)@ == old(out)@ + len_field(tag, b@),
{
    push_varint(out, tag * 8 + 2);
    push_varint(out, b.len() as u64);
    let ghost mid = out@;
    let mut i: usize = 0;
    while i < b.len()
        invariant
            i <= b@.len(),
            out@ == mid + b@.subrange(0, i as int),
        decreases b@.len() - i,
    {
        out.push(b[i]);
        i = i + 1;
        assert(out@ =~= mid + b@.subrange(0, i as int));
    }
    assert(b@.subrange(0, b@.len() as int) =~= b@);
    assert(final(out)@ =~= old(out)@ + len_field(tag, b@));
}

/// Appends a varint field.
pub fn push_varint_field(out: &mut Vec<u8>, tag: u64, v: u64)
    requires
        1 <= tag <= MAX_TAG,
    ensures
        final(out)@ == old(out)@ + varint_field(tag, v),
{
    push_varint(out, tag * 8);
    push_varint(out, v);
    assert(final(out)@ =~= old(out)@ + varint_field(tag, v));
}

/// Appends a string field, nothing for an empty string.
pub fn push_string_field(out: &mut Vec<u8>, tag: u64, s: &String)
    requires
        1 <= tag <= MAX_TAG,
    ensures
        final(out)@ == old(out)@ + string_field(tag, s@),
{
    let b = s.as_str().as_bytes();
    if b.len() == 0 {
        assert(final(out)@ =~= old(out)@ + string_field(tag, s@));
        return;
    }
    push_len_field(out, tag, b);
}

/// Folds `step` over the fields of `s` from `pos` on, starting from `m`:
/// `None` if a field cannot be read or `step` refuses it.
pub open spec fn fold_fields<M>(s: Seq<u8>, pos: int, m: M, step: spec_fn(M, u64, WireValue) -> Option<M>) -> Option<M>
    decreases s.len() - pos,
{
    if pos >= s.len() {
        Some(m)
    } else {
        match read_field(s, pos) {
            None => None,
            Some((t, v, p)) => if p <= pos || p > s.len() {
                None
            } else {
                match step(m, t, v) {
                    None => None,
                    Some(m2) => fold_fields(s, p, m2, step),
                }
            },
        }
    }
}

/// The text that the bytes `a .. b` of `s` spell, if they are UTF-8.
pub open spec fn text_at(s: Seq<u8>, a: int, b: int) -> Option<Seq<char>> {
    if valid_utf8(s.subrange(a, b)) {
        Some(decode_utf8(s.subrange(a, b)))
    } else {
        None
    }
}

/// Relies on `String::from_utf8`: it accepts exactly the valid UTF-8 byte
/// sequences, and the string it returns holds the text those bytes spell.
#[verifier::external_body]
fn utf8_string(b: Vec<u8>) -> (r: Option<String>)
    ensures
        r is Some <==> valid_utf8(b@),
        r matches Some(t) ==> t@ == decode_utf8(b@),
{
    String::from_utf8(b).ok()
}

/// A copy of the bytes `a .. b` of `s`.
pub fn copy_bytes(s: &[u8], a: usize, b: usize) -> (r: Vec<u8>)
    requires
        a <= b <= s@.len(),
    ensures
        r@ == s@.subrange(a as int, b as int),
{
    let mut out: Vec<u8> = Vec::with_capacity(b - a);
    let mut i: usize = a;
    while i < b
        invariant
            a <= i <= b <= s@.len(),
            out@ == s@.subrange(a as int, i as int),
        decreases b - i,
    {
        out.push(s[i]);
        i = i + 1;
        assert(out@ =~= s@.subrange(a as int, i as int));
    }
    out
}

/// The text of the bytes `a .. b` of `s`.
pub fn text_of(s: &[u8], a: usize, b: usize) -> (r: Option<String>)
    requires
        a <= b <= s@.len(),
    ensures
        match text_at(s@, a as int, b as int) {
            Some(t) => r matches Some(x) && x@ == t,
            None => r is None,
        },
{
    utf8_string(copy_bytes(s, a, b))
}

/// A varint written after any bytes is read back at its position.
pub proof fn lemma_varint_at(pre: Seq<u8>, n: u64, rest: Seq<u8>)
    ensures
        read_varint(pre + varint(n) + rest, pre.len() as int) == Some((n, (pre.len() + varint(n).len()) as int)),
{
    let s = pre + varint(n) + rest;
    lemma_varint_round_trip(n, rest);
    lemma_parse_shift(s, pre.len() as int, VARINT_MAX_BYTES as nat);
    assert(s.subrange(pre.len() as int, s.len() as int) =~= varint(n) + rest);
}

/// A length-delimited field written after any bytes is read back there.
pub proof fn lemma_len_field_at(pre: Seq<u8>, tag: u64, b: Seq<u8>, rest: Seq<u8>)
    requires
        1 <= tag <= MAX_TAG,
        pre.len() + len_field(tag, b).len() + rest.len() <= usize::MAX,
        b.len() <= u64::MAX,
    ensures
        ({
            let start = (pre.len() + key_bytes(tag, 2).len() + varint(b.len() as u64).len()) as int;
            &&& read_field(pre + len_field(tag, b) + rest, pre.len() as int) == Some(
                (tag, WireValue::Bytes(start as usize, (start + b.len()) as usize), (start + b.len()) as int),
            )
            &&& (pre + len_field(tag, b) + rest).subrange(start as int, (start + b.len()) as int) == b
            &&& start + b.len() == pre.len() + len_field(tag, b).len()
        }),
{
    let s = pre + len_field(tag, b) + rest;
    let k = (tag * 8 + 2) as u64;
    assert(s =~= pre + varint(k) + (varint(b.len() as u64) + b + rest));
    lemma_varint_at(pre, k, varint(b.len() as u64) + b + rest);
    let pre2 = pre + varint(k);
    assert(s =~= pre2 + varint(b.len() as u64) + (b + rest));
    lemma_varint_at(pre2, b.len() as u64, b + rest);
    assert(k / 8 == tag && k % 8 == 2);
    let start = pre.len() + key_bytes(tag, 2).len() + varint(b.len() as u64).len();
    assert(s.subrange(start as int, (start + b.len()) as int) =~= b);
}

/// A varint field written after any bytes is read back there.
pub proof fn lemma_varint_field_at(pre: Seq<u8>, tag: u64, v: u64, rest: Seq<u8>)
    requires
        1 <= tag <= MAX_TAG,
    ensures
        read_field(pre + varint_field(tag, v) + rest, pre.len() as int) == Some(
            (tag, WireValue::Varint(v), (pre.len() + varint_field(tag, v).len()) as int),
        ),
{
    let s = pre + varint_field(tag, v) + rest;
    let k = (tag * 8) as u64;
    assert(s =~= pre + varint(k) + (varint(v) + rest));
    lemma_varint_at(pre, k, varint(v) + rest);
    let pre2 = pre + varint(k);
    assert(s =~= pre2 + varint(v) + rest);
    lemma_varint_at(pre2, v, rest);
    assert(k / 8 == tag && k % 8 == 0);
}

} // verus!
