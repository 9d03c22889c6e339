//! Byte-level building blocks: fixed-width big-endian integers and lower-case
//! hexadecimal text.
use vstd::prelude::*;

verus! {

/// `256` raised to `w`.
pub open spec fn pow256(w: nat) -> nat
    decreases w,
{
    if w == 0 {
        1
    } else {
        256 * pow256((w - 1) as nat)
    }
}

/// The `w` low-order bytes of `n`, most significant first.
pub open spec fn be_bytes(n: nat, w: nat) -> Seq<u8>
    decreases w,
{
    if w == 0 {
        Seq::empty()
    } else {
        be_bytes(n / 256, (w - 1) as nat).push((n % 256) as u8)
    }
}

/// The number that a big-endian byte string denotes.
pub open spec fn be_value(s: Seq<u8>) -> nat
    decreases s.len(),
{
    if s.len() == 0 {
        0
    } else {
        be_value(s.drop_last()) * 256 + s.last() as nat
    }
}

/// `be_bytes(n, w)` is `w` bytes long.
pub proof fn lemma_be_bytes_len(n: nat, w: nat)
    ensures
        be_bytes(n, w).len() == w,
    decreases w,
{
    if w > 0 {
        lemma_be_bytes_len(n / 256, (w - 1) as nat);
    }
}

/// `w` bytes denote a number below `256^w`.
pub proof fn lemma_be_value_bound(s: Seq<u8>)
    ensures
        be_value(s) < pow256(s.len()),
    decreases s.len(),
{
    if s.len() > 0 {
        lemma_be_value_bound(s.drop_last());
        let h = be_value(s.drop_last());
        let p = pow256((s.len() - 1) as nat);
        assert(h * 256 + (s.last() as nat) < 256 * p) by (nonlinear_arith)
            requires
                h < p,
                s.last() < 256,
        ;
    }
}

/// Reading back the bytes of a number that fits gives the number.
pub proof fn lemma_be_round_trip(n: nat, w: nat)
    requires
        n < pow256(w),
    ensures
        be_value(be_bytes(n, w)) == n,
        be_bytes(n, w).len() == w,
    decreases w,
{
    lemma_be_bytes_len(n, w);
    if w > 0 {
        let p = pow256((w - 1) as nat);
        assert(n / 256 < p) by (nonlinear_arith)
            requires
                n < 256 * p,
        ;
        lemma_be_round_trip(n / 256, (w - 1) as nat);
        let s = be_bytes(n, w);
        assert(s.drop_last() =~= be_bytes(n / 256, (w - 1) as nat));
        assert(n == (n / 256) * 256 + n % 256) by (nonlinear_arith);
    }
}

/// Eight bytes hold exactly the `u64` values.
pub proof fn lemma_pow256_8()
    ensures
        pow256(8) == 0x1_0000_0000_0000_0000,
{
    reveal_with_fuel(pow256, 9);
}

/// Appends the `w` low-order bytes of `n`, most significant first.
pub fn push_be(out: &mut Vec<u8>, n: u64, w: usize)
    requires
        w <= 8,
    ensures
        final(out)@ == old(out)@ + be_bytes(n as nat, w as nat),
    decreases w,
{
    if w > 0 {
        push_be(out, n / 256, w - 1);
        out.push((n % 256) as u8);
        assert(final(out)@ =~= old(out)@ + be_bytes(n as nat, w as nat));
    } else {
        assert(final(out)@ =~= old(out)@ + be_bytes(n as nat, w as nat));
    }
}

/// Reads the big-endian number held by `b[pos .. pos + w]`.
pub fn read_be(b: &Vec<u8>, pos: usize, w: usize) -> (r: u64)
    requires
        w <= 8,
        pos + w <= b@.len(),
    ensures
        r as nat == be_value(b@.subrange(pos as int, pos + w)),
    decreases w,
{
    if w == 0 {
        0
    } else {
        let hi = read_be(b, pos, w - 1);
        let ghost s = b@.subrange(pos as int, pos + w);
        assert(s.drop_last() =~= b@.subrange(pos as int, pos + w - 1));
        proof {
            lemma_be_value_bound(s.drop_last());
            reveal_with_fuel(pow256, 8);
            lemma_pow256_mono((w - 1) as nat, 7);
            assert(pow256(7) == 0x1_0000_0000_0000_00);
            assert(hi < 0x1_0000_0000_0000_00);
        }
        assert(pos + w <= b.len());
        let low = b[pos + (w - 1)] as u64;
        hi * 256 + low
    }
}

/// `256^w` grows with `w`.
pub proof fn lemma_pow256_mono(a: nat, b: nat)
    requires
        a <= b,
    ensures
        pow256(a) <= pow256(b),
    decreases b,
{
    if a < b {
        lemma_pow256_mono(a, (b - 1) as nat);
    }
}

/// The lower-case hexadecimal digit for a value below 16.
pub open spec fn hex_digit(v: nat) -> char {
    if v < 10 {
        (v + 48) as char
    } else {
        (v + 87) as char
    }
}

/// The value of a lower-case hexadecimal digit; any other character,
/// upper-case digits included, has none, so that each byte string has
/// exactly one spelling.
pub open spec fn digit_value(c: char) -> Option<u8> {
    if '0' <= c && c <= '9' {
        Some((c as u32 - 48) as u8)
    } else if 'a' <= c && c <= 'f' {
        Some((c as u32 - 87) as u8)
    } else {
        None
    }
}

/// Two digits for each byte, high nibble first.
pub open spec fn hex_of(b: Seq<u8>) -> Seq<char>
    decreases b.len(),
{
    if b.len() == 0 {
        Seq::empty()
    } else {
        hex_of(b.drop_last()) + seq![hex_digit(b.last() as nat / 16), hex_digit(b.last() as nat % 16)]
    }
}

/// The bytes that a hexadecimal text spells, or `None` when its length is odd
/// or a character is not a digit.
pub open spec fn unhex(s: Seq<char>) -> Option<Seq<u8>>
    decreases s.len(),
{
    if s.len() == 0 {
        Some(Seq::empty())
    } else if s.len() < 2 {
        None
    } else {
        let hi = digit_value(s[s.len() - 2]);
        let lo = digit_value(s[s.len() - 1]);
        match (unhex(s.subrange(0, s.len() - 2)), hi, lo) {
            (Some(front), Some(h), Some(l)) => Some(front.push((h * 16 + l) as u8)),
            _ => None,
        }
    }
}

/// Hexadecimal text has two digits per byte.
pub proof fn lemma_hex_len(b: Seq<u8>)
    ensures
        hex_of(b).len() == 2 * b.len(),
    decreases b.len(),
{
    if b.len() > 0 {
        lemma_hex_len(b.drop_last());
    }
}

/// Hexadecimal text reads back as the bytes it was made from.
pub proof fn lemma_unhex_hex(b: Seq<u8>)
    ensures
        unhex(hex_of(b)) == Some(b),
    decreases b.len(),
{
    if b.len() > 0 {
        let s = hex_of(b);
        lemma_hex_len(b);
        lemma_hex_len(b.drop_last());
        lemma_unhex_hex(b.drop_last());
        assert(s.subrange(0, s.len() - 2) =~= hex_of(b.drop_last()));
        let x = b.last();
        assert(digit_value(hex_digit(x as nat / 16)) == Some((x / 16) as u8));
        assert(digit_value(hex_digit(x as nat % 16)) == Some((x % 16) as u8));
        assert(((x / 16) as u8 * 16 + (x % 16) as u8) as u8 == x);
        assert(b.drop_last().push(x) =~= b);
    }
}

/// Text that reads as hexadecimal is exactly the text that `to_hex` writes
/// for the bytes it reads as: no other spelling of those bytes is accepted.
pub proof fn lemma_unhex_unique(s: Seq<char>)
    ensures
        unhex(s) matches Some(b) ==> s == hex_of(b),
    decreases s.len(),
{
    if s.len() >= 2 {
        let t = s.subrange(0, s.len() - 2);
        lemma_unhex_unique(t);
        if let Some(b) = unhex(s) {
            let h = digit_value(s[s.len() - 2])->Some_0;
            let l = digit_value(s[s.len() - 1])->Some_0;
            let x = (h * 16 + l) as u8;
            assert(h < 16 && l < 16);
            assert(x / 16 == h && x % 16 == l);
            assert(hex_digit(h as nat) == s[s.len() - 2]);
            assert(hex_digit(l as nat) == s[s.len() - 1]);
            assert(b.drop_last() =~= unhex(t)->Some_0);
            assert(s =~= t + seq![s[s.len() - 2], s[s.len() - 1]]);
        }
    }
}

fn hex_char(v: u8) -> (c: char)
    requires
        v < 16,
    ensures
        c == hex_digit(v as nat),
{
    if v < 10 {
        (v + 48) as char
    } else {
        (v + 87) as char
    }
}

fn char_value(c: char) -> (r: Option<u8>)
    ensures
        r == digit_value(c),
{
    if '0' <= c && c <= '9' {
        Some((c as u32 - 48) as u8)
    } else if 'a' <= c && c <= 'f' {
        Some((c as u32 - 87) as u8)
    } else {
        None
    }
}

/// Relies on `String::push`: the character is appended.
#[verifier::external_body]
fn push_char(s: &mut String, c: char)
    ensures
        final(s)@ == old(s)@.push(c),
{
    s.push(c)
}

/// Writes bytes as lower-case hexadecimal text.
pub fn to_hex(b: &Vec<u8>) -> (r: String)
    ensures
        r@ == hex_of(b@),
{
    let mut out = String::new();
    let mut i: usize = 0;
    while i < b.len()
        invariant
            i <= b@.len(),
            out@ == hex_of(b@.subrange(0, i as int)),
        decreases b@.len() - i,
    {
        let x = b[i];
        push_char(&mut out, hex_char(x / 16));
        push_char(&mut out, hex_char(x % 16));
        assert(b@.subrange(0, i + 1).drop_last() =~= b@.subrange(0, i as int));
        i = i + 1;
    }
    assert(b@.subrange(0, b@.len() as int) =~= b@);
    out
}

/// Reads hexadecimal text back into bytes.
pub fn from_hex(s: &str) -> (r: Option<Vec<u8>>)
    ensures
        r matches Some(v) ==> unhex(s@) == Some(v@),
        r is None ==> unhex(s@) is None,
{
    let n = s.unicode_len();
    if n % 2 == 1 {
        proof {
            lemma_unhex_odd(s@);
        }
        return None;
    }
    let mut out: Vec<u8> = Vec::new();
    let mut i: usize = 0;
    while i < n
        invariant
            n == s@.len(),
            n % 2 == 0,
            i % 2 == 0,
            i <= n,
            unhex(s@.subrange(0, i as int)) == Some(out@),
        decreases n - i,
    {
        let hc = s.get_char(i);
        let lc = s.get_char(i + 1);
        let ghost t = s@.subrange(0, i + 2);
        assert(t.subrange(0, t.len() - 2) =~= s@.subrange(0, i as int));
        match (char_value(hc), char_value(lc)) {
            (Some(h), Some(l)) => {
                out.push(h * 16 + l);
            },
            _ => {
                proof {
                    lemma_unhex_prefix_none(s@, (i + 2) as nat);
                }
                return None;
            },
        }
        i = i + 2;
    }
    assert(s@.subrange(0, n as int) =~= s@);
    Some(out)
}

/// Text of odd length is no hexadecimal.
proof fn lemma_unhex_odd(s: Seq<char>)
    requires
        s.len() % 2 == 1,
    ensures
        unhex(s) is None,
    decreases s.len(),
{
    if s.len() >= 2 {
        lemma_unhex_odd(s.subrange(0, s.len() - 2));
    }
}

/// A text that fails to read at an even prefix fails as a whole.
proof fn lemma_unhex_prefix_none(s: Seq<char>, k: nat)
    requires
        k <= s.len(),
        k % 2 == 0,
        unhex(s.subrange(0, k as int)) is None,
    ensures
        unhex(s) is None,
    decreases s.len() - k,
{
    if k < s.len() {
        if k + 2 <= s.len() {
            let t = s.subrange(0, k + 2 as int);
            assert(t.subrange(0, t.len() - 2) =~= s.subrange(0, k as int));
            lemma_unhex_prefix_none(s, k + 2);
        } else {
            lemma_unhex_odd(s);
        }
    } else {
        assert(s.subrange(0, k as int) =~= s);
    }
}

} // verus!
