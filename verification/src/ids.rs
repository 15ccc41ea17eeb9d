use vstd::prelude::*;

verus! {

/// A 128-bit globally unique identifier, split into two 64-bit halves
/// (most significant half first). Identifies one logical context or one
/// transaction on the wire.
#[derive(Clone, Copy, PartialEq, Eq, Structural, Debug, Hash)]
pub struct Uid {
    pub hi: u64,
    pub lo: u64,
}

/// The `i`-th hexadecimal digit of `v`, counted from the most significant end.
pub open spec fn nib(v: u64, i: int) -> u8
    recommends
        0 <= i < 16,
{
    ((v >> (((15 - i) * 4) as u64)) & 0xf) as u8
}

/// Canonical lower-case hex digit byte for a nibble value.
pub open spec fn hex_digit(n: u8) -> u8
    recommends
        n < 16,
{
    if n < 10 {
        (n + 48) as u8
    } else {
        (n + 87) as u8
    }
}

/// Whether `c` is a canonical hex digit byte (`0`-`9` or `a`-`f`).
pub open spec fn is_hex(c: u8) -> bool {
    (48 <= c && c <= 57) || (97 <= c && c <= 102)
}

/// Value of a canonical hex digit byte.
pub open spec fn hex_v(c: u8) -> u8 {
    if 48 <= c && c <= 57 {
        (c - 48) as u8
    } else if 97 <= c && c <= 102 {
        (c - 87) as u8
    } else {
        0
    }
}

/// Positions of the four hyphens in the canonical 36-byte textual form.
pub open spec fn is_dash_pos(k: int) -> bool {
    k == 8 || k == 13 || k == 18 || k == 23
}

/// For a non-hyphen position `k`, the index of its digit among the 32 digits.
pub open spec fn nib_index(k: int) -> int {
    if k < 8 {
        k
    } else if k < 13 {
        k - 1
    } else if k < 18 {
        k - 2
    } else if k < 23 {
        k - 3
    } else {
        k - 4
    }
}

/// Number of digit (non-hyphen) positions strictly before position `k`.
pub open spec fn nib_count(k: int) -> int {
    if k <= 8 {
        k
    } else if k <= 13 {
        k - 1
    } else if k <= 18 {
        k - 2
    } else if k <= 23 {
        k - 3
    } else {
        k - 4
    }
}

/// Position of the `n`-th digit in the canonical 36-byte textual form.
pub open spec fn nib_pos(n: int) -> int {
    if n < 8 {
        n
    } else if n < 12 {
        n + 1
    } else if n < 16 {
        n + 2
    } else if n < 20 {
        n + 3
    } else {
        n + 4
    }
}

/// The canonical textual form of an identifier: 32 lower-case hex digits
/// in five hyphen-separated groups of 8, 4, 4, 4 and 12, 36 bytes in all.
pub open spec fn uuid_bytes(u: Uid) -> Seq<u8> {
    Seq::new(
        36,
        |k: int|
            if is_dash_pos(k) {
                45u8
            } else if nib_index(k) < 16 {
                hex_digit(nib(u.hi, nib_index(k)))
            } else {
                hex_digit(nib(u.lo, nib_index(k) - 16))
            },
    )
}

/// The value a big-endian sequence of nibbles denotes, folded into a `u64`.
pub open spec fn nibs_value(ds: Seq<u8>) -> u64
    decreases ds.len(),
{
    if ds.len() == 0 {
        0u64
    } else {
        ((nibs_value(ds.drop_last()) << 4) | ((ds.last() & 0xf) as u64)) as u64
    }
}

proof fn lemma_nib_bound(v: u64, i: int)
    ensures
        nib(v, i) < 16,
{
    let sh = ((15 - i) * 4) as u64;
    assert((v >> sh) & 0xf < 16) by (bit_vector);
}

proof fn lemma_hex_digit_value(n: u8)
    requires
        n < 16,
    ensures
        is_hex(hex_digit(n)),
        hex_v(hex_digit(n)) == n,
{
}

/// Folding the first `n` digits of `v` recovers the top `n` nibbles of `v`.
proof fn lemma_nibs_value_prefix(v: u64, n: int)
    requires
        0 <= n <= 16,
    ensures
        n == 0 ==> nibs_value(Seq::new(n as nat, |i: int| nib(v, i))) == 0,
        0 < n < 16 ==> nibs_value(Seq::new(n as nat, |i: int| nib(v, i))) == v >> (((16 - n)
            * 4) as u64),
        n == 16 ==> nibs_value(Seq::new(n as nat, |i: int| nib(v, i))) == v,
    decreases n,
{
    let s = Seq::new(n as nat, |i: int| nib(v, i));
    if n == 0 {
    } else {
        let prev = Seq::new((n - 1) as nat, |i: int| nib(v, i));
        assert(s.drop_last() =~= prev);
        lemma_nibs_value_prefix(v, n - 1);
        let a = nibs_value(prev);
        let sh = ((16 - n) * 4) as u64;
        assert(s.last() == nib(v, n - 1));
        if n == 1 {
            assert(((0u64 << 4) | ((((v >> 60) & 0xf) as u8) & 0xf) as u64) == v >> 60)
                by (bit_vector);
        } else {
            // a == v >> (sh + 4); appending the next nibble restores v >> sh.
            assert(((v >> ((sh + 4) as u64)) << 4) | (((((v >> sh) & 0xf) as u8) & 0xf) as u64) == v
                >> sh) by (bit_vector)
                requires
                    sh <= 56,
            ;
            if n == 16 {
                assert(v >> 0u64 == v) by (bit_vector);
            }
        }
    }
}

/// A value is determined by its nibble sequence.
proof fn lemma_nibs_determine(v1: u64, v2: u64)
    requires
        forall|i: int| 0 <= i < 16 ==> nib(v1, i) == nib(v2, i),
    ensures
        v1 == v2,
{
    let s1 = Seq::new(16, |i: int| nib(v1, i));
    let s2 = Seq::new(16, |i: int| nib(v2, i));
    assert(s1 =~= s2);
    lemma_nibs_value_prefix(v1, 16);
    lemma_nibs_value_prefix(v2, 16);
}

/// Two distinct identifiers never share a textual form: the textual form
/// pins the identifier down exactly.
pub proof fn lemma_uuid_bytes_injective(u1: Uid, u2: Uid)
    requires
        uuid_bytes(u1) == uuid_bytes(u2),
    ensures
        u1 == u2,
{
    assert forall|i: int| 0 <= i < 16 implies nib(u1.hi, i) == nib(u2.hi, i) by {
        let k = nib_pos(i);
        lemma_nib_bound(u1.hi, i);
        lemma_nib_bound(u2.hi, i);
        assert(0 <= k < 36 && !is_dash_pos(k) && nib_index(k) == i);
        assert(uuid_bytes(u1)[k] == hex_digit(nib(u1.hi, i)));
        assert(uuid_bytes(u2)[k] == hex_digit(nib(u2.hi, i)));
        assert(hex_digit(nib(u1.hi, i)) == hex_digit(nib(u2.hi, i)));
    }
    assert forall|i: int| 0 <= i < 16 implies nib(u1.lo, i) == nib(u2.lo, i) by {
        let k = nib_pos(16 + i);
        lemma_nib_bound(u1.lo, i);
        lemma_nib_bound(u2.lo, i);
        assert(0 <= k < 36 && !is_dash_pos(k) && nib_index(k) == 16 + i);
        assert(uuid_bytes(u1)[k] == hex_digit(nib(u1.lo, i)));
        assert(uuid_bytes(u2)[k] == hex_digit(nib(u2.lo, i)));
        assert(hex_digit(nib(u1.lo, i)) == hex_digit(nib(u2.lo, i)));
    }
    lemma_nibs_determine(u1.hi, u2.hi);
    lemma_nibs_determine(u1.lo, u2.lo);
}

/// Appends the canonical textual form of `u` (36 bytes) to `out`.
pub fn push_uuid_bytes(out: &mut Vec<u8>, u: Uid)
    ensures
        final(out)@ == old(out)@ + uuid_bytes(u),
{
    let ghost base = out@;
    let mut k: usize = 0;
    while k < 36
        invariant
            k <= 36,
            out@ == base + uuid_bytes(u).subrange(0, k as int),
        decreases 36 - k,
    {
        let b: u8;
        if k == 8 || k == 13 || k == 18 || k == 23 {
            b = 45;
        } else {
            let n: usize = if k < 8 {
                k
            } else if k < 13 {
                k - 1
            } else if k < 18 {
                k - 2
            } else if k < 23 {
                k - 3
            } else {
                k - 4
            };
            let masked: u64 = if n < 16 {
                let sh: u64 = ((15 - n) * 4) as u64;
                let h: u64 = u.hi;
                assert((h >> sh) & 0xf < 16) by (bit_vector);
                (h >> sh) & 0xf
            } else {
                let sh: u64 = ((31 - n) * 4) as u64;
                let l: u64 = u.lo;
                assert((l >> sh) & 0xf < 16) by (bit_vector);
                (l >> sh) & 0xf
            };
            let nv: u8 = masked as u8;
            b = if nv < 10 {
                nv + 48
            } else {
                nv + 87
            };
            assert(b == uuid_bytes(u)[k as int]);
        }
        out.push(b);
        assert(out@ =~= base + uuid_bytes(u).subrange(0, k as int + 1));
        k = k + 1;
    }
    assert(uuid_bytes(u).subrange(0, 36) =~= uuid_bytes(u));
}

/// Whether `a[at .. at + b.len()]` equals `b`.
pub(crate) fn eq_range(a: &Vec<u8>, at: usize, b: &Vec<u8>) -> (r: bool)
    requires
        at + b@.len() <= a@.len(),
    ensures
        r == (a@.subrange(at as int, at as int + b@.len()) =~= b@),
{
    let n = b.len();
    let alen = a.len();
    let mut j: usize = 0;
    while j < n
        invariant
            n == b@.len(),
            alen == a@.len(),
            at + n <= alen,
            j <= n,
            forall|i: int| 0 <= i < j ==> a@[at + i] == b@[i],
        decreases n - j,
    {
        if a[at + j] != b[j] {
            assert(a@.subrange(at as int, at as int + n) != b@) by {
                assert(a@.subrange(at as int, at as int + n)[j as int] == a@[at + j]);
            }
            return false;
        }
        j = j + 1;
    }
    assert(a@.subrange(at as int, at as int + n) =~= b@);
    true
}

/// Parses the canonical textual form found at `frame[at .. at + 36]`.
/// Returns the identifier exactly when those 36 bytes are the canonical
/// textual form of some identifier, and `None` otherwise.
pub fn parse_uuid_at(frame: &Vec<u8>, at: usize) -> (r: Option<Uid>)
    requires
        at + 36 <= frame@.len(),
    ensures
        match r {
            Some(u) => frame@.subrange(at as int, at as int + 36) == uuid_bytes(u),
            None => forall|u: Uid| frame@.subrange(at as int, at as int + 36) != uuid_bytes(u),
        },
{
    let ghost sub = frame@.subrange(at as int, at as int + 36);
    let flen = frame.len();
    let mut hi: u64 = 0;
    let mut lo: u64 = 0;
    let mut k: usize = 0;
    while k < 36
        invariant
            at + 36 <= flen,
            flen == frame@.len(),
            sub == frame@.subrange(at as int, at as int + 36),
            k <= 36,
            forall|j: int| 0 <= j < k && is_dash_pos(j) ==> sub[j] == 45,
            forall|j: int| 0 <= j < k && !is_dash_pos(j) ==> is_hex(sub[j]),
            hi == nibs_value(
                Seq::new(
                    (if nib_count(k as int) < 16 {
                        nib_count(k as int)
                    } else {
                        16
                    }) as nat,
                    |i: int| hex_v(sub[nib_pos(i)]),
                ),
            ),
            lo == nibs_value(
                Seq::new(
                    (if nib_count(k as int) < 16 {
                        0
                    } else {
                        nib_count(k as int) - 16
                    }) as nat,
                    |i: int| hex_v(sub[nib_pos(16 + i)]),
                ),
            ),
        decreases 36 - k,
    {
        let b = frame[at + k];
        assert(b == sub[k as int]);
        if k == 8 || k == 13 || k == 18 || k == 23 {
            if b != 45 {
                assert(forall|u: Uid| sub != uuid_bytes(u)) by {
                    assert(forall|u: Uid| uuid_bytes(u)[k as int] == 45);
                }
                return None;
            }
        } else {
            let d: u8;
            if 48 <= b && b <= 57 {
                d = b - 48;
            } else if 97 <= b && b <= 102 {
                d = b - 87;
            } else {
                assert forall|u: Uid| sub != uuid_bytes(u) by {
                    let n = nib_index(k as int);
                    if n < 16 {
                        lemma_nib_bound(u.hi, n);
                        lemma_hex_digit_value(nib(u.hi, n));
                    } else {
                        lemma_nib_bound(u.lo, n - 16);
                        lemma_hex_digit_value(nib(u.lo, n - 16));
                    }
                    assert(is_hex(uuid_bytes(u)[k as int]));
                }
                return None;
            }
            let ghost n = nib_index(k as int);
            assert(nib_pos(n) == k as int);
            assert(nib_count(k as int) == n && nib_count(k as int + 1) == n + 1);
            assert(d == hex_v(sub[k as int]) && d < 16);
            assert(d & 0xf == d) by (bit_vector)
                requires
                    d < 16,
            ;
            if k < 18 {
                // digits of the high half
                let ghost prev = Seq::new(n as nat, |i: int| hex_v(sub[nib_pos(i)]));
                let ghost next = Seq::new((n + 1) as nat, |i: int| hex_v(sub[nib_pos(i)]));
                assert(next.drop_last() =~= prev);
                assert(next.last() == hex_v(sub[nib_pos(n)]));
                hi = (hi << 4) | (d as u64);
                assert(hi == nibs_value(next));
            } else {
                let ghost m = n - 16;
                let ghost prev = Seq::new(m as nat, |i: int| hex_v(sub[nib_pos(16 + i)]));
                let ghost next = Seq::new((m + 1) as nat, |i: int| hex_v(sub[nib_pos(16 + i)]));
                assert(next.drop_last() =~= prev);
                assert(next.last() == hex_v(sub[nib_pos(16 + m)]));
                lo = (lo << 4) | (d as u64);
                assert(lo == nibs_value(next));
            }
        }
        k = k + 1;
    }
    let u = Uid { hi, lo };
    let mut canonical: Vec<u8> = Vec::new();
    push_uuid_bytes(&mut canonical, u);
    if eq_range(frame, at, &canonical) {
        Some(u)
    } else {
        // The digits were canonical for some value only if re-encoding that
        // value reproduces the input; it did not, so no identifier matches.
        assert forall|u2: Uid| sub != uuid_bytes(u2) by {
            if sub == uuid_bytes(u2) {
                assert forall|i: int| 0 <= i < 16 implies hex_v(sub[nib_pos(i)]) == nib(u2.hi, i)
                    by {
                    lemma_nib_bound(u2.hi, i);
                    lemma_hex_digit_value(nib(u2.hi, i));
                    assert(sub[nib_pos(i)] == hex_digit(nib(u2.hi, i)));
                }
                assert forall|i: int| 0 <= i < 16 implies hex_v(sub[nib_pos(16 + i)]) == nib(
                    u2.lo,
                    i,
                ) by {
                    lemma_nib_bound(u2.lo, i);
                    lemma_hex_digit_value(nib(u2.lo, i));
                    assert(sub[nib_pos(16 + i)] == hex_digit(nib(u2.lo, i)));
                }
                assert(Seq::new(16, |i: int| hex_v(sub[nib_pos(i)])) =~= Seq::new(
                    16,
                    |i: int| nib(u2.hi, i),
                ));
                assert(Seq::new(16, |i: int| hex_v(sub[nib_pos(16 + i)])) =~= Seq::new(
                    16,
                    |i: int| nib(u2.lo, i),
                ));
                lemma_nibs_value_prefix(u2.hi, 16);
                lemma_nibs_value_prefix(u2.lo, 16);
                assert(u == u2);
                assert(canonical@ == sub);
            }
        }
        None
    }
}

/// Relies on uuid::Uuid::new_v4 (through as_u64_pair): a fresh random
/// version-4 identifier. Nothing beyond the fixed version and variant bits
/// can be promised of a random value.
#[verifier::external_body]
pub fn fresh_uid() -> (r: Uid)
    ensures
        r.hi & 0xf000 == 0x4000,
        r.lo & 0xc000_0000_0000_0000 == 0x8000_0000_0000_0000,
{
    let (hi, lo) = uuid::Uuid::new_v4().as_u64_pair();
    Uid { hi, lo }
}

} // verus!
