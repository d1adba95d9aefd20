//! The script integer codec: little-endian sign-magnitude integers whose sign
//! lives in the high bit of the last byte.

use vstd::prelude::*;

verus! {

/// Ways parsing script integers might fail.
#[derive(Debug, Clone, Copy, PartialEq, Eq, Structural)]
pub enum ScriptIntError {
    /// The bytes are not the shortest encoding of their value.
    NonMinimalPush,
    /// The bytes are longer than the size limit of the read.
    NumericOverflow,
}

impl ScriptIntError {
    /// The error in words.
    pub fn message(&self) -> (s: String)
        ensures
            s@ == match *self {
                ScriptIntError::NonMinimalPush => "non-minimal datapush"@,
                ScriptIntError::NumericOverflow => "numeric overflow (number on stack larger than 4 bytes)"@,
            },
    {
        match self {
            ScriptIntError::NonMinimalPush => "non-minimal datapush".to_owned(),
            ScriptIntError::NumericOverflow => "numeric overflow (number on stack larger than 4 bytes)".to_owned(),
        }
    }
}

/// `256^k`.
pub open spec fn pow256(k: nat) -> nat
    decreases k,
{
    if k == 0 {
        1
    } else {
        256 * pow256((k - 1) as nat)
    }
}

/// The natural number that `b` spells in base 256, least significant byte first.
pub open spec fn le_value(b: Seq<u8>) -> nat
    decreases b.len(),
{
    if b.len() == 0 {
        0
    } else {
        b[0] as nat + 256 * le_value(b.skip(1))
    }
}

/// `b` with the sign bit of its last byte cleared.
pub open spec fn magnitude_part(b: Seq<u8>) -> Seq<u8>
    recommends
        b.len() > 0,
{
    b.drop_last().push((b.last() % 128) as u8)
}

/// Whether the sign bit of `b` is set.
pub open spec fn is_negative(b: Seq<u8>) -> bool {
    b.len() > 0 && b.last() >= 128
}

/// The integer that the script bytes `b` stand for, whatever their length.
pub open spec fn scriptint_value(b: Seq<u8>) -> int {
    if b.len() == 0 {
        0
    } else if is_negative(b) {
        -(le_value(magnitude_part(b)) as int)
    } else {
        le_value(magnitude_part(b)) as int
    }
}

/// Whether `b` passes the minimal-encoding rule: its last byte carries
/// magnitude bits, or exists only because the byte below it fills its own
/// high bit.
pub open spec fn is_minimal(b: Seq<u8>) -> bool {
    ||| b.len() == 0
    ||| b.last() % 128 != 0
    ||| (b.len() >= 2 && b[b.len() - 2] >= 128)
}

/// What reading `b` as a script integer gives, under a size limit and an
/// optional minimality requirement.
pub open spec fn decode(b: Seq<u8>, max_size: nat, minimal: bool) -> Result<int, ScriptIntError> {
    if b.len() > max_size {
        Err(ScriptIntError::NumericOverflow)
    } else if minimal && !is_minimal(b) {
        Err(ScriptIntError::NonMinimalPush)
    } else {
        Ok(scriptint_value(b))
    }
}

/// The base-256 digits of `m`, least significant first, without a leading
/// zero digit: no digit at all for zero.
pub open spec fn magnitude_bytes(m: nat) -> Seq<u8>
    decreases m,
{
    if m == 0 {
        Seq::empty()
    } else {
        seq![(m % 256) as u8] + magnitude_bytes(m / 256)
    }
}

/// The canonical script bytes of `n`: the digits of its magnitude, the sign
/// in the high bit of the last digit, and one more byte for the sign where
/// the last digit fills that bit itself.
pub open spec fn scriptint_bytes(n: int) -> Seq<u8> {
    let digits = magnitude_bytes(if n < 0 { (-n) as nat } else { n as nat });
    if n == 0 {
        Seq::empty()
    } else if digits.last() >= 128 {
        digits.push(if n < 0 { 128u8 } else { 0u8 })
    } else if n < 0 {
        digits.update(digits.len() - 1, (digits.last() + 128) as u8)
    } else {
        digits
    }
}

/// `pow256` on the exponents that an eight-byte integer reaches.
pub proof fn lemma_pow256_values()
    ensures
        pow256(0) == 1,
        pow256(1) == 0x100,
        pow256(2) == 0x1_0000,
        pow256(3) == 0x100_0000,
        pow256(4) == 0x1_0000_0000,
        pow256(5) == 0x100_0000_0000,
        pow256(6) == 0x1_0000_0000_0000,
        pow256(7) == 0x100_0000_0000_0000,
        pow256(8) == 0x1_0000_0000_0000_0000,
{
    reveal_with_fuel(pow256, 10);
}

/// `pow256` grows with its exponent.
pub proof fn lemma_pow256_monotonic(j: nat, k: nat)
    requires
        j <= k,
    ensures
        0 < pow256(j) <= pow256(k),
    decreases k,
{
    if j < k {
        lemma_pow256_monotonic(j, (k - 1) as nat);
    } else if k > 0 {
        lemma_pow256_monotonic((k - 1) as nat, (k - 1) as nat);
    }
}

/// A byte string of length `k` spells a number below `256^k`.
pub proof fn lemma_le_value_bound(b: Seq<u8>)
    ensures
        le_value(b) < pow256(b.len()),
    decreases b.len(),
{
    if b.len() > 0 {
        lemma_le_value_bound(b.skip(1));
    }
}

/// Appending a byte adds it at the weight of its position.
pub proof fn lemma_le_value_push(b: Seq<u8>, x: u8)
    ensures
        le_value(b.push(x)) == le_value(b) + x * pow256(b.len()),
    decreases b.len(),
{
    let e = b.push(x);
    if b.len() == 0 {
        assert(e.skip(1) =~= Seq::<u8>::empty());
        assert(le_value(e) == x as nat + 256 * le_value(e.skip(1)));
        assert(x * pow256(0) == x) by (nonlinear_arith)
            requires
                pow256(0) == 1,
        ;
    } else {
        assert(e.skip(1) =~= b.skip(1).push(x));
        assert(e[0] == b[0]);
        lemma_le_value_push(b.skip(1), x);
        let p = pow256((b.len() - 1) as nat);
        assert(pow256(b.len()) == 256 * p);
        assert(256 * (x * p) == x * (256 * p)) by (nonlinear_arith);
        assert(le_value(e) == e[0] as nat + 256 * le_value(e.skip(1)));
    }
}

/// The digits of `m` spell `m`, and the last of them is not zero.
pub proof fn lemma_magnitude_bytes(m: nat)
    ensures
        le_value(magnitude_bytes(m)) == m,
        m > 0 ==> magnitude_bytes(m).len() > 0 && magnitude_bytes(m).last() != 0,
    decreases m,
{
    if m > 0 {
        let d = magnitude_bytes(m);
        let rest = magnitude_bytes(m / 256);
        lemma_magnitude_bytes(m / 256);
        assert(d.skip(1) =~= rest);
        assert(d[0] == (m % 256) as u8);
        if rest.len() > 0 {
            assert(d.last() == rest.last());
        }
    }
}

/// A number below `256^k` has at most `k` digits.
pub proof fn lemma_magnitude_bytes_len(m: nat, k: nat)
    requires
        m < pow256(k),
    ensures
        magnitude_bytes(m).len() <= k,
    decreases m,
{
    if m > 0 {
        lemma_magnitude_bytes_len(m / 256, (k - 1) as nat);
    }
}

/// A number is at least its last digit at the weight of that digit.
pub proof fn lemma_magnitude_bytes_top(m: nat)
    requires
        m > 0,
    ensures
        m >= magnitude_bytes(m).last() * pow256((magnitude_bytes(m).len() - 1) as nat),
{
    let d = magnitude_bytes(m);
    lemma_magnitude_bytes(m);
    assert(d =~= d.drop_last().push(d.last()));
    lemma_le_value_push(d.drop_last(), d.last());
}

/// The canonical bytes of `n` stand for `n` and pass the minimal-encoding rule.
pub proof fn lemma_scriptint_bytes_value(n: int)
    ensures
        scriptint_value(scriptint_bytes(n)) == n,
        is_minimal(scriptint_bytes(n)),
{
    if n != 0 {
        let m: nat = if n < 0 { (-n) as nat } else { n as nat };
        let d = magnitude_bytes(m);
        let e = scriptint_bytes(n);
        lemma_magnitude_bytes(m);
        if d.last() >= 128 {
            assert(e.drop_last() =~= d);
            lemma_le_value_push(d, 0u8);
            assert(d.len() * 0 == 0);
            assert(0 * pow256(d.len()) == 0);
        } else {
            assert(magnitude_part(e) =~= d);
        }
    }
}

/// A number whose magnitude lies below `128 * 256^(k - 1)` has canonical
/// bytes of length at most `k`.
pub proof fn lemma_scriptint_bytes_len(n: int, k: nat)
    requires
        k >= 1,
        -128 * pow256((k - 1) as nat) < n < 128 * pow256((k - 1) as nat),
    ensures
        scriptint_bytes(n).len() <= k,
{
    if n != 0 {
        let m: nat = if n < 0 { (-n) as nat } else { n as nat };
        let d = magnitude_bytes(m);
        let p = pow256((k - 1) as nat);
        assert(pow256(k) == 256 * p);
        lemma_magnitude_bytes(m);
        lemma_magnitude_bytes_len(m, k);
        lemma_magnitude_bytes_top(m);
        if d.len() == k {
            let t = d.last();
            assert(t < 128) by (nonlinear_arith)
                requires
                    m >= t * p,
                    m < 128 * p,
            ;
        }
    }
}

/// No byte string that stands for `n` is shorter than the canonical bytes of `n`.
pub proof fn lemma_scriptint_bytes_shortest(n: int, b: Seq<u8>)
    requires
        scriptint_value(b) == n,
    ensures
        scriptint_bytes(n).len() <= b.len(),
{
    if n != 0 {
        let m: nat = if n < 0 { (-n) as nat } else { n as nat };
        let d = magnitude_bytes(m);
        let e = scriptint_bytes(n);
        let hb = (b.len() - 1) as nat;
        let hd = (d.len() - 1) as nat;
        // what b allows: m < 128 * 256^(len - 1)
        lemma_le_value_push(b.drop_last(), (b.last() % 128) as u8);
        lemma_le_value_bound(b.drop_last());
        assert(m == le_value(magnitude_part(b)));
        assert(m < 128 * pow256(hb)) by (nonlinear_arith)
            requires
                m == le_value(b.drop_last()) + ((b.last() % 128) as u8) * pow256(hb),
                le_value(b.drop_last()) < pow256(hb),
                ((b.last() % 128) as u8) <= 127,
        ;
        // what the digits need: m >= top * 256^(digits - 1)
        lemma_magnitude_bytes(m);
        lemma_magnitude_bytes_top(m);
        let t = d.last();
        if e.len() > b.len() {
            if t >= 128 {
                lemma_pow256_monotonic(hb, hd);
                assert(m >= 128 * pow256(hb)) by (nonlinear_arith)
                    requires
                        m >= t * pow256(hd),
                        t >= 128,
                        pow256(hb) <= pow256(hd),
                ;
            } else {
                lemma_pow256_monotonic((hb + 1) as nat, hd);
                assert(m >= 128 * pow256(hb)) by (nonlinear_arith)
                    requires
                        m >= t * pow256(hd),
                        t >= 1,
                        256 * pow256(hb) <= pow256(hd),
                ;
            }
        }
    }
}

/// Digits without a leading zero digit are the digits of the number they spell.
pub proof fn lemma_digits_unique(x: Seq<u8>)
    requires
        x.len() > 0 ==> x.last() != 0,
    ensures
        magnitude_bytes(le_value(x)) == x,
        x.len() > 0 ==> le_value(x) > 0,
    decreases x.len(),
{
    if x.len() > 0 {
        let rest = x.skip(1);
        if rest.len() > 0 {
            assert(rest.last() == x.last());
        }
        lemma_digits_unique(rest);
        let m = le_value(x);
        assert(m == x[0] as nat + 256 * le_value(rest));
        assert(m % 256 == x[0] as nat && m / 256 == le_value(rest));
        assert(magnitude_bytes(m) =~= x);
    }
}

/// Bytes that pass the minimal-encoding rule are the canonical bytes of the
/// integer they stand for: an integer has one minimal spelling.
pub proof fn lemma_minimal_bytes_are_canonical(b: Seq<u8>)
    requires
        is_minimal(b),
    ensures
        scriptint_bytes(scriptint_value(b)) == b,
{
    if b.len() > 0 {
        let low = (b.last() % 128) as u8;
        let d = b.drop_last();
        if low != 0 {
            lemma_digits_unique(magnitude_part(b));
            assert(scriptint_bytes(scriptint_value(b)) =~= b);
        } else {
            lemma_le_value_push(d, 0u8);
            assert(0 * pow256(d.len()) == 0);
            assert(d.last() == b[b.len() - 2]);
            lemma_digits_unique(d);
            assert(scriptint_bytes(scriptint_value(b)) =~= b);
        }
    }
}

/// Reading back the canonical bytes of an integer, with minimality required
/// and eight bytes allowed, gives the integer; and no other spelling of it is
/// shorter.
pub proof fn lemma_scriptint_round_trip(n: int)
    requires
        -0x8000_0000_0000_0000 < n < 0x8000_0000_0000_0000,
    ensures
        decode(scriptint_bytes(n), 8, true) == Ok::<int, ScriptIntError>(n),
        forall|b: Seq<u8>| scriptint_value(b) == n ==> scriptint_bytes(n).len() <= b.len(),
{
    lemma_scriptint_bytes_value(n);
    lemma_pow256_values();
    lemma_scriptint_bytes_len(n, 8);
    assert forall|b: Seq<u8>| scriptint_value(b) == n implies scriptint_bytes(n).len()
        <= b.len() by {
        lemma_scriptint_bytes_shortest(n, b);
    }
}

/// `bitcoin::script::write_scriptint` writes the canonical bytes of `n` to the
/// front of `out` and returns how many it wrote. Its source fills one byte
/// per digit of the magnitude and one more where the last digit fills the
/// sign bit, so the one integer whose magnitude takes nine bytes is left out.
pub assume_specification[ bitcoin::script::write_scriptint ](out: &mut [u8; 8], n: i64) -> (len:
    usize)
    requires
        n != i64::MIN,
    ensures
        len <= 8,
        final(out)@.subrange(0, len as int) == scriptint_bytes(n as int),
;

/// Returns the minimally encoded script integer as a byte vector.
pub fn scriptint_vec(n: i64) -> (r: Vec<u8>)
    requires
        n != i64::MIN,
    ensures
        r@ == scriptint_bytes(n as int),
{
    let mut buf: [u8; 8] = [0u8; 8];
    let len: usize = bitcoin::script::write_scriptint(&mut buf, n);
    let mut r: Vec<u8> = Vec::with_capacity(len);
    let mut i: usize = 0;
    while i < len
        invariant
            i <= len <= 8,
            r@ == buf@.subrange(0, i as int),
        decreases len - i,
    {
        r.push(buf[i]);
        i += 1;
        assert(buf@.subrange(0, i as int) =~= buf@.subrange(0, i - 1).push(buf@[i - 1]));
    }
    r
}

/// Decodes the script integer that `v` holds, without any check.
///
/// The caller guarantees that `v` is not empty and no longer than eight bytes.
pub fn scriptint_parse(v: &[u8]) -> (r: i64)
    requires
        0 < v@.len() <= 8,
    ensures
        r as int == scriptint_value(v@),
{
    let n: usize = v.len();
    let last: u8 = v[n - 1];
    let top: u8 = last & 0x7f;
    assert(top == last % 128 && top < 128) by (bit_vector)
        requires
            top == last & 0x7f,
    ;
    assert((last & 0x80 != 0) == (last >= 128)) by (bit_vector);
    let ghost cleared = magnitude_part(v@);
    let mut acc: u64 = top as u64;
    let mut i: usize = n - 1;
    proof {
        lemma_pow256_values();
        let high = cleared.skip(i as int);
        assert(high.len() == 1 && high[0] == top);
        assert(high.skip(1) =~= Seq::<u8>::empty());
        assert(le_value(high) == high[0] as nat + 256 * le_value(high.skip(1)));
    }
    while i > 0
        invariant
            i <= n - 1,
            n == v@.len(),
            n <= 8,
            cleared == magnitude_part(v@),
            acc == le_value(cleared.skip(i as int)),
            acc < 128 * pow256((n - 1 - i) as nat),
        decreases i,
    {
        proof {
            lemma_pow256_values();
            lemma_pow256_monotonic((n - i) as nat, 7);
            assert(cleared.skip(i - 1).skip(1) =~= cleared.skip(i as int));
            assert(cleared.skip(i - 1)[0] == v@[i - 1]);
        }
        i -= 1;
        acc = acc * 256 + v[i] as u64;
    }
    proof {
        lemma_pow256_values();
        lemma_pow256_monotonic((n - 1) as nat, 7);
        assert(cleared.skip(0) =~= cleared);
    }
    if last & 0x80 != 0 {
        -(acc as i64)
    } else {
        acc as i64
    }
}

/// Decodes an integer in script format with a flexible size limit.
///
/// Bytes longer than `max_size` are an overflow whatever they hold; with
/// `minimal` set, bytes that fail the minimal-encoding rule are refused.
pub fn read_scriptint_size(v: &[u8], max_size: usize, minimal: bool) -> (r: Result<
    i64,
    ScriptIntError,
>)
    requires
        max_size <= 8,
    ensures
        v@.len() > max_size ==> r == Err::<i64, ScriptIntError>(ScriptIntError::NumericOverflow),
        match decode(v@, max_size as nat, minimal) {
            Ok(n) => r.is_ok() && r.unwrap() as int == n,
            Err(e) => r == Err::<i64, ScriptIntError>(e),
        },
{
    if v.len() > max_size {
        return Err(ScriptIntError::NumericOverflow);
    }
    if v.len() == 0 {
        return Ok(0);
    }
    if minimal {
        let last: u8 = v[v.len() - 1];
        assert(((last & 0x7f) == 0) == (last % 128 == 0)) by (bit_vector);
        if (last & 0x7f) == 0 {
            if v.len() <= 1 {
                return Err(ScriptIntError::NonMinimalPush);
            }
            let below: u8 = v[v.len() - 2];
            assert(((below & 0x80) == 0) == (below < 128)) by (bit_vector);
            if (below & 0x80) == 0 {
                return Err(ScriptIntError::NonMinimalPush);
            }
        }
    }
    Ok(scriptint_parse(v))
}

} // verus!
