use vstd::prelude::*;

verus! {

/// Lowercase hexadecimal digits are the only bytes a digest locator may use.
pub open spec fn is_hex_digit(c: u8) -> bool {
    (48 <= c <= 57) || (97 <= c <= 102)
}

/// The numeric value of one hexadecimal digit (0 on a non-digit).
pub open spec fn hex_val(c: u8) -> nat {
    if 48 <= c <= 57 {
        (c - 48) as nat
    } else if 97 <= c <= 102 {
        (c - 87) as nat
    } else {
        0
    }
}

/// The digit standing for a value below sixteen.
pub open spec fn hex_digit(x: u8) -> u8 {
    if x < 10 {
        (48 + x) as u8
    } else {
        (87 + x) as u8
    }
}

/// The number a big-endian string of hexadecimal digits denotes.
pub open spec fn hex_value_nat(s: Seq<u8>) -> nat
    decreases s.len(),
{
    if s.len() == 0 {
        0
    } else {
        hex_value_nat(s.drop_last()) * 16 + hex_val(s.last())
    }
}

/// Sixteen raised to the given power.
pub open spec fn pow16(n: nat) -> nat
    decreases n,
{
    if n == 0 {
        1
    } else {
        16 * pow16((n - 1) as nat)
    }
}

/// The big-endian hexadecimal spelling of `d` in exactly `n` digits.
pub open spec fn hex_seq(d: nat, n: nat) -> Seq<u8>
    decreases n,
{
    if n == 0 {
        Seq::empty()
    } else {
        hex_seq(d / 16, (n - 1) as nat).push(hex_digit((d % 16) as u8))
    }
}

/// The sixteen-digit spelling of a digest, used as its locator.
pub open spec fn hex_of(d: u64) -> Seq<u8> {
    hex_seq(d as nat, 16)
}

/// The digest a locator denotes, if the locator is exactly sixteen
/// hexadecimal digits; anything else is read as an alias name instead.
pub open spec fn locator_digest(s: Seq<u8>) -> Option<u64> {
    if s.len() == 16 && (forall|i: int| 0 <= i < s.len() ==> is_hex_digit(#[trigger] s[i])) {
        Some(hex_value_nat(s) as u64)
    } else {
        None
    }
}

/// A hexadecimal string of `n` digits denotes a number below sixteen to
/// the `n`.
pub proof fn lemma_hex_value_bound(s: Seq<u8>)
    ensures
        hex_value_nat(s) < pow16(s.len()),
    decreases s.len(),
{
    if s.len() > 0 {
        lemma_hex_value_bound(s.drop_last());
    }
}

/// Powers of sixteen do not decrease.
pub proof fn lemma_pow16_le(n: nat, m: nat)
    requires
        n <= m,
    ensures
        pow16(n) <= pow16(m),
    decreases m,
{
    if n < m {
        lemma_pow16_le(n, (m - 1) as nat);
    }
}

/// Sixteen to the sixteenth is two to the sixty-fourth.
pub proof fn lemma_pow16_16()
    ensures
        pow16(16) == 0x1_0000_0000_0000_0000,
{
    reveal_with_fuel(pow16, 17);
}

/// Spelling a number below sixteen to the `n` in `n` digits and reading it
/// back yields the number again, and every digit written is hexadecimal.
pub proof fn lemma_hex_round_trip(d: nat, n: nat)
    requires
        d < pow16(n),
    ensures
        hex_seq(d, n).len() == n,
        forall|i: int| 0 <= i < n ==> is_hex_digit(#[trigger] hex_seq(d, n)[i]),
        hex_value_nat(hex_seq(d, n)) == d,
    decreases n,
{
    if n == 0 {
    } else {
        let d2 = d / 16;
        let r = (d % 16) as u8;
        assert(d == 16 * (d / 16) + d % 16);
        assert(16 * d2 <= d);
        assert(16 * d2 < 16 * pow16((n - 1) as nat));
        assert(d2 < pow16((n - 1) as nat));
        lemma_hex_round_trip(d2, (n - 1) as nat);
        let tail = hex_seq(d2, (n - 1) as nat);
        assert(hex_seq(d, n) == tail.push(hex_digit(r)));
        assert(tail.push(hex_digit(r)).drop_last() =~= tail);
        assert(tail.push(hex_digit(r)).last() == hex_digit(r));
        assert(is_hex_digit(hex_digit(r)));
        assert(hex_val(hex_digit(r)) == r as nat);
        assert(hex_value_nat(hex_seq(d, n)) == hex_value_nat(tail) * 16 + hex_val(hex_digit(r)));
        assert(hex_value_nat(hex_seq(d, n)) == d2 * 16 + r as nat);
        assert(forall|i: int|
            0 <= i < n ==> is_hex_digit(#[trigger] hex_seq(d, n)[i])) by {
            assert(forall|i: int| 0 <= i < n - 1 ==> hex_seq(d, n)[i] == #[trigger] tail[i]);
            assert(hex_seq(d, n)[n - 1] == hex_digit(r));
        }
    }
}

/// Reads a locator as a digest: succeeds exactly on sixteen hexadecimal
/// digits, yielding the number they denote.
pub fn parse_locator(loc: &Vec<u8>) -> (r: Option<u64>)
    ensures
        r == locator_digest(loc@),
{
    if loc.len() != 16 {
        return None;
    }
    let mut acc: u64 = 0;
    let mut i: usize = 0;
    while i < 16
        invariant
            0 <= i <= 16,
            loc@.len() == 16,
            forall|j: int| 0 <= j < i ==> is_hex_digit(#[trigger] loc@[j]),
            acc as nat == hex_value_nat(loc@.take(i as int)),
        decreases 16 - i,
    {
        let c = loc[i];
        let v: u64;
        if 48 <= c && c <= 57 {
            v = (c - 48) as u64;
        } else if 97 <= c && c <= 102 {
            v = (c - 87) as u64;
        } else {
            return None;
        }
        proof {
            lemma_hex_value_bound(loc@.take(i as int));
            lemma_pow16_le((i + 1) as nat, 16);
            lemma_pow16_16();
            assert(loc@.take(i + 1 as int).drop_last() =~= loc@.take(i as int));
            assert(loc@.take(i + 1 as int).last() == loc@[i as int]);
            assert(acc as nat * 16 + hex_val(loc@[i as int]) < pow16((i + 1) as nat));
        }
        acc = acc * 16 + v;
        i += 1;
    }
    proof {
        assert(loc@.take(16) =~= loc@);
        lemma_hex_value_bound(loc@);
        lemma_pow16_16();
    }
    Some(acc)
}

/// Writes one digit of a value below sixteen.
fn hex_digit_exec(x: u64) -> (r: u8)
    requires
        x < 16,
    ensures
        r == hex_digit(x as u8),
{
    if x < 10 {
        (48 + x) as u8
    } else {
        (87 + x) as u8
    }
}

/// Writes the `n`-digit big-endian spelling of `d`.
fn hex_bytes(d: u64, n: usize) -> (r: Vec<u8>)
    ensures
        r@ == hex_seq(d as nat, n as nat),
    decreases n,
{
    if n == 0 {
        Vec::new()
    } else {
        let mut r = hex_bytes(d / 16, n - 1);
        r.push(hex_digit_exec(d % 16));
        r
    }
}

/// Spells a digest as its sixteen-digit locator; reading that locator back
/// yields the digest again.
pub fn digest_hex(d: u64) -> (r: Vec<u8>)
    ensures
        r@ == hex_of(d),
        locator_digest(r@) == Some(d),
{
    let r = hex_bytes(d, 16);
    proof {
        lemma_pow16_16();
        lemma_hex_round_trip(d as nat, 16);
    }
    r
}

} // verus!
