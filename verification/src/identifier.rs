//! Note identifiers: 128-bit values written in the hyphenated hexadecimal
//! form `xxxxxxxx-xxxx-xxxx-xxxx-xxxxxxxxxxxx`.
use vstd::prelude::*;
use vstd::arithmetic::div_mod::lemma_mod_breakdown;
use crate::text::{chars_of, string_of};

verus! {

/// A note's unique, stable, immutable identifier: the high and the low 64
/// bits of a 128-bit value.
#[derive(Clone, Copy, Debug, PartialEq, Eq, Structural)]
pub struct Identifier {
    pub hi: u64,
    pub lo: u64,
}

/// Lower-case hexadecimal digits.
pub const HEX_DIGITS: [char; 16] = [
    '0', '1', '2', '3', '4', '5', '6', '7', '8', '9', 'a', 'b', 'c', 'd', 'e', 'f',
];

/// The lower-case hexadecimal digit for `d < 16`.
pub open spec fn hex_char(d: nat) -> char {
    HEX_DIGITS@[d as int]
}

/// The value of a hexadecimal digit of either case.
pub open spec fn hex_value(c: char) -> Option<nat> {
    if '0' <= c && c <= '9' {
        Some((c as u32 - '0' as u32) as nat)
    } else if 'a' <= c && c <= 'f' {
        Some((c as u32 - 'a' as u32 + 10) as nat)
    } else if 'A' <= c && c <= 'F' {
        Some((c as u32 - 'A' as u32 + 10) as nat)
    } else {
        None
    }
}

/// 16 to the power of `n`.
pub open spec fn pow16(n: nat) -> nat
    decreases n,
{
    if n == 0 {
        1
    } else {
        16 * pow16((n - 1) as nat)
    }
}

/// The lowest `n` hexadecimal digits of `x`, most significant first.
pub open spec fn hex_digits(x: nat, n: nat) -> Seq<char>
    decreases n,
{
    if n == 0 {
        seq![]
    } else {
        hex_digits(x / 16, (n - 1) as nat).push(hex_char(x % 16))
    }
}

/// Whether every character of `s` is a hexadecimal digit.
pub open spec fn all_hex(s: Seq<char>) -> bool {
    forall|i: int| 0 <= i < s.len() ==> (#[trigger] hex_value(s[i])) is Some
}

/// The number that the hexadecimal digits `s` denote, most significant first.
pub open spec fn digits_value(s: Seq<char>) -> nat
    decreases s.len(),
{
    if s.len() == 0 {
        0
    } else {
        digits_value(s.drop_last()) * 16 + hex_value(s.last())->Some_0
    }
}

/// The positions of the hyphens in the text of an identifier.
pub open spec fn is_hyphen_position(i: int) -> bool {
    i == 8 || i == 13 || i == 18 || i == 23
}

/// The 32 hexadecimal digits `h` with hyphens after the 8th, 12th, 16th and
/// 20th digit.
pub open spec fn hyphenate(h: Seq<char>) -> Seq<char> {
    h.subrange(0, 8) + seq!['-'] + h.subrange(8, 12) + seq!['-'] + h.subrange(12, 16) + seq!['-']
        + h.subrange(16, 20) + seq!['-'] + h.subrange(20, 32)
}

/// The 32 hexadecimal digits of the text `s`, that is `s` without the
/// characters at the hyphen positions.
pub open spec fn dehyphenate(s: Seq<char>) -> Seq<char> {
    s.subrange(0, 8) + s.subrange(9, 13) + s.subrange(14, 18) + s.subrange(19, 23) + s.subrange(
        24,
        36,
    )
}

impl Identifier {
    /// The identifier's text: 32 lower-case hexadecimal digits in groups of
    /// 8, 4, 4, 4 and 12, separated by hyphens.
    pub open spec fn text(self) -> Seq<char> {
        hyphenate(hex_digits(self.hi as nat, 16) + hex_digits(self.lo as nat, 16))
    }

    /// What parsing `s` gives: an identifier when `s` has 36 characters,
    /// hyphens at positions 8, 13, 18 and 23, and hexadecimal digits of
    /// either case everywhere else.
    pub open spec fn parsed(s: Seq<char>) -> Option<Identifier> {
        if s.len() == 36 && (forall|i: int| #[trigger] is_hyphen_position(i) ==> s[i] == '-')
            && all_hex(dehyphenate(s)) {
            let h = dehyphenate(s);
            Some(
                Identifier {
                    hi: digits_value(h.subrange(0, 16)) as u64,
                    lo: digits_value(h.subrange(16, 32)) as u64,
                },
            )
        } else {
            None
        }
    }
}

proof fn lemma_pow16_16()
    ensures
        pow16(16) == 0x1_0000_0000_0000_0000,
{
    reveal_with_fuel(pow16, 17);
}

proof fn lemma_hex_char_value(d: nat)
    requires
        d < 16,
    ensures
        hex_value(hex_char(d)) == Some(d),
{
    assert(HEX_DIGITS@[0] == '0' && HEX_DIGITS@[1] == '1' && HEX_DIGITS@[2] == '2' && HEX_DIGITS@[3]
        == '3' && HEX_DIGITS@[4] == '4' && HEX_DIGITS@[5] == '5' && HEX_DIGITS@[6] == '6'
        && HEX_DIGITS@[7] == '7' && HEX_DIGITS@[8] == '8' && HEX_DIGITS@[9] == '9'
        && HEX_DIGITS@[10] == 'a' && HEX_DIGITS@[11] == 'b' && HEX_DIGITS@[12] == 'c'
        && HEX_DIGITS@[13] == 'd' && HEX_DIGITS@[14] == 'e' && HEX_DIGITS@[15] == 'f');
}

proof fn lemma_hex_digits(x: nat, n: nat)
    ensures
        hex_digits(x, n).len() == n,
        all_hex(hex_digits(x, n)),
        digits_value(hex_digits(x, n)) == x % pow16(n),
        forall|i: int| 0 <= i < n ==> #[trigger] hex_digits(x, n)[i] != '-',
    decreases n,
{
    if n == 0 {
    } else {
        let m = (n - 1) as nat;
        lemma_hex_digits(x / 16, m);
        let s = hex_digits(x / 16, m);
        let t = hex_digits(x, n);
        assert(t == s.push(hex_char(x % 16)));
        lemma_hex_char_value(x % 16);
        assert(t.drop_last() =~= s);
        assert(all_hex(t)) by {
            assert forall|i: int| 0 <= i < t.len() implies (#[trigger] hex_value(t[i])) is Some by {
                if i < s.len() {
                    assert(t[i] == s[i]);
                }
            }
        }
        assert forall|i: int| 0 <= i < n implies #[trigger] t[i] != '-' by {
            if i < s.len() {
                assert(t[i] == s[i]);
            }
        }
        assert(pow16(m) > 0) by {
            lemma_pow16_positive(m);
        }
        lemma_mod_breakdown(x as int, 16, pow16(m) as int);
    }
}

proof fn lemma_pow16_positive(n: nat)
    ensures
        pow16(n) > 0,
    decreases n,
{
    if n > 0 {
        lemma_pow16_positive((n - 1) as nat);
    }
}

/// Reading an identifier's text gives the identifier back.
pub proof fn lemma_parse_text(id: Identifier)
    ensures
        Identifier::parsed(id.text()) == Some(id),
{
    lemma_hex_digits(id.hi as nat, 16);
    lemma_hex_digits(id.lo as nat, 16);
    lemma_pow16_16();
    let h = hex_digits(id.hi as nat, 16) + hex_digits(id.lo as nat, 16);
    let s = id.text();
    assert(h.len() == 32);
    assert(s.len() == 36);
    assert(dehyphenate(s) =~= h);
    assert(h.subrange(0, 16) =~= hex_digits(id.hi as nat, 16));
    assert(h.subrange(16, 32) =~= hex_digits(id.lo as nat, 16));
    assert forall|i: int| #[trigger] is_hyphen_position(i) implies s[i] == '-' by {}
    assert(all_hex(h)) by {
        assert forall|i: int| 0 <= i < h.len() implies (#[trigger] hex_value(h[i])) is Some by {
            if i < 16 {
                assert(h[i] == hex_digits(id.hi as nat, 16)[i]);
            } else {
                assert(h[i] == hex_digits(id.lo as nat, 16)[i - 16]);
            }
        }
    }
}

/// The identifier's text is 36 characters long, with hyphens exactly at the
/// four hyphen positions.
pub proof fn lemma_text_shape(id: Identifier)
    ensures
        id.text().len() == 36,
        forall|i: int|
            0 <= i < 36 ==> (#[trigger] id.text()[i] == '-' <==> is_hyphen_position(i)),
{
    lemma_hex_digits(id.hi as nat, 16);
    lemma_hex_digits(id.lo as nat, 16);
    let h = hex_digits(id.hi as nat, 16) + hex_digits(id.lo as nat, 16);
    assert forall|i: int| 0 <= i < 32 implies #[trigger] h[i] != '-' by {
        if i < 16 {
            assert(h[i] == hex_digits(id.hi as nat, 16)[i]);
        } else {
            assert(h[i] == hex_digits(id.lo as nat, 16)[i - 16]);
        }
    }
    let s = id.text();
    assert forall|i: int| 0 <= i < 36 implies (#[trigger] s[i] == '-' <==> is_hyphen_position(i)) by {
        if i < 8 {
            assert(s[i] == h[i]);
        } else if 8 < i < 13 {
            assert(s[i] == h[i - 1]);
        } else if 13 < i < 18 {
            assert(s[i] == h[i - 2]);
        } else if 18 < i < 23 {
            assert(s[i] == h[i - 3]);
        } else if 23 < i {
            assert(s[i] == h[i - 4]);
        }
    }
}

fn push_hex_digits(out: &mut Vec<char>, x: u64, n: usize)
    requires
        n <= 16,
    ensures
        final(out)@ == old(out)@ + hex_digits(x as nat, n as nat),
    decreases n,
{
    if n > 0 {
        push_hex_digits(out, x / 16, n - 1);
        out.push(HEX_DIGITS[(x % 16) as usize]);
    }
}

fn hex_value_of(c: char) -> (r: Option<u64>)
    ensures
        r matches Some(v) ==> hex_value(c) == Some(v as nat),
        r is None ==> hex_value(c) is None,
{
    if '0' <= c && c <= '9' {
        Some((c as u32 - '0' as u32) as u64)
    } else if 'a' <= c && c <= 'f' {
        Some((c as u32 - 'a' as u32 + 10) as u64)
    } else if 'A' <= c && c <= 'F' {
        Some((c as u32 - 'A' as u32 + 10) as u64)
    } else {
        None
    }
}

fn value_of_digits(h: &Vec<char>, start: usize) -> (r: Option<u64>)
    requires
        start + 16 <= h@.len(),
    ensures
        r matches Some(v) ==> all_hex(h@.subrange(start as int, start + 16)) && v as nat
            == digits_value(h@.subrange(start as int, start + 16)),
        r is None ==> !all_hex(h@.subrange(start as int, start + 16)),
{
    let mut acc: u64 = 0;
    let mut k: usize = 0;
    while k < 16
        invariant
            k <= 16,
            start + 16 <= h@.len(),
            all_hex(h@.subrange(start as int, start + k)),
            acc as nat == digits_value(h@.subrange(start as int, start + k)),
            acc < pow16(k as nat),
        decreases 16 - k,
    {
        assert(start + k < h.len());
        let ghost prev = h@.subrange(start as int, start + k);
        let ghost next = h@.subrange(start as int, start + k + 1);
        match hex_value_of(h[start + k]) {
            None => {
                assert(next[k as int] == h@[start + k]);
                assert(!all_hex(h@.subrange(start as int, start + 16))) by {
                    assert(h@.subrange(start as int, start + 16)[k as int] == h@[start + k]);
                }
                return None;
            },
            Some(d) => {
                assert(next.drop_last() =~= prev);
                assert(next.last() == h@[start + k]);
                assert(all_hex(next)) by {
                    assert forall|i: int| 0 <= i < next.len() implies (#[trigger] hex_value(
                        next[i],
                    )) is Some by {
                        if i < k {
                            assert(next[i] == prev[i]);
                        }
                    }
                }
                assert(acc * 16 + d < pow16((k + 1) as nat)) by {
                    assert(acc + 1 <= pow16(k as nat));
                    assert((acc + 1) * 16 <= pow16(k as nat) * 16) by (nonlinear_arith)
                        requires
                            acc + 1 <= pow16(k as nat),
                    ;
                }
                proof {
                    lemma_pow16_16();
                    if k < 16 {
                        assert(pow16((k + 1) as nat) <= pow16(16)) by {
                            lemma_pow16_monotone((k + 1) as nat, 16);
                        }
                    }
                }
                acc = acc * 16 + d;
                k = k + 1;
            },
        }
    }
    Some(acc)
}

proof fn lemma_pow16_monotone(a: nat, b: nat)
    requires
        a <= b,
    ensures
        pow16(a) <= pow16(b),
    decreases b,
{
    if a < b {
        lemma_pow16_monotone(a, (b - 1) as nat);
    }
}

/// Whether the 128-bit value `hi`, `lo` is a random (version 4, RFC 4122
/// variant) UUID: its version nibble, bits 12 to 15 of `hi`, is 4, and its
/// two variant bits, the top bits of `lo`, are `10`.
pub open spec fn is_random_uuid(hi: u64, lo: u64) -> bool {
    (hi / 0x1000) % 16 == 4 && lo / 0x4000_0000_0000_0000 == 2
}

impl Identifier {
    /// A fresh, random identifier: a version-4 UUID.
    pub fn new() -> (id: Identifier)
        ensures
            is_random_uuid(id.hi, id.lo),
    {
        let (hi, lo) = random_uuid_halves();
        Identifier { hi, lo }
    }

    /// The identifier's text.
    pub fn to_string(&self) -> (s: String)
        ensures
            s@ == self.text(),
    {
        let mut h: Vec<char> = Vec::new();
        push_hex_digits(&mut h, self.hi, 16);
        push_hex_digits(&mut h, self.lo, 16);
        proof {
            lemma_hex_digits(self.hi as nat, 16);
            lemma_hex_digits(self.lo as nat, 16);
        }
        let mut out: Vec<char> = Vec::new();
        let mut i: usize = 0;
        while i < 32
            invariant
                h@.len() == 32,
                i <= 32,
                out@ == hyphenate(h@).take(i + (if i > 20 {
                    4int
                } else if i > 16 {
                    3int
                } else if i > 12 {
                    2int
                } else if i > 8 {
                    1int
                } else {
                    0int
                })),
            decreases 32 - i,
        {
            if i == 8 || i == 12 || i == 16 || i == 20 {
                out.push('-');
            }
            out.push(h[i]);
            i = i + 1;
            assert(out@ =~= hyphenate(h@).take(
                i + (if i > 20 {
                    4int
                } else if i > 16 {
                    3int
                } else if i > 12 {
                    2int
                } else if i > 8 {
                    1int
                } else {
                    0int
                }),
            ));
        }
        assert(out@ =~= hyphenate(h@));
        string_of(out.as_slice())
    }

    /// Reads an identifier from its text; hexadecimal digits may be of
    /// either case.
    pub fn parse(s: &str) -> (r: Option<Identifier>)
        ensures
            r == Identifier::parsed(s@),
    {
        let v = chars_of(s);
        if v.len() != 36 {
            return None;
        }
        if v[8] != '-' || v[13] != '-' || v[18] != '-' || v[23] != '-' {
            assert(is_hyphen_position(8) && is_hyphen_position(13) && is_hyphen_position(18)
                && is_hyphen_position(23));
            return None;
        }
        let mut h: Vec<char> = Vec::new();
        let mut i: usize = 0;
        while i < 36
            invariant
                v@.len() == 36,
                i <= 36,
                h@ == dehyphenate(v@).take(
                    i - (if i > 23 {
                        4int
                    } else if i > 18 {
                        3int
                    } else if i > 13 {
                        2int
                    } else if i > 8 {
                        1int
                    } else {
                        0int
                    }),
                ),
            decreases 36 - i,
        {
            if i != 8 && i != 13 && i != 18 && i != 23 {
                h.push(v[i]);
            }
            i = i + 1;
            assert(h@ =~= dehyphenate(v@).take(
                i - (if i > 23 {
                    4int
                } else if i > 18 {
                    3int
                } else if i > 13 {
                    2int
                } else if i > 8 {
                    1int
                } else {
                    0int
                }),
            ));
        }
        assert(h@ =~= dehyphenate(v@));
        let hi = value_of_digits(&h, 0);
        let lo = value_of_digits(&h, 16);
        proof {
            assert forall|i: int| #[trigger] is_hyphen_position(i) implies v@[i] == '-' by {}
            let d = dehyphenate(v@);
            assert(all_hex(d) <==> all_hex(d.subrange(0, 16)) && all_hex(d.subrange(16, 32))) by {
                if all_hex(d.subrange(0, 16)) && all_hex(d.subrange(16, 32)) {
                    assert forall|i: int| 0 <= i < d.len() implies (#[trigger] hex_value(
                        d[i],
                    )) is Some by {
                        if i < 16 {
                            assert(d[i] == d.subrange(0, 16)[i]);
                        } else {
                            assert(d[i] == d.subrange(16, 32)[i - 16]);
                        }
                    }
                }
                if all_hex(d) {
                    assert forall|i: int| 0 <= i < 16 implies (#[trigger] hex_value(
                        d.subrange(0, 16)[i],
                    )) is Some by {
                        assert(d.subrange(0, 16)[i] == d[i]);
                    }
                    assert forall|i: int| 0 <= i < 16 implies (#[trigger] hex_value(
                        d.subrange(16, 32)[i],
                    )) is Some by {
                        assert(d.subrange(16, 32)[i] == d[i + 16]);
                    }
                }
            }
        }
        match (hi, lo) {
            (Some(hi), Some(lo)) => Some(Identifier { hi, lo }),
            _ => None,
        }
    }
}

/// The error of reading an identifier from a text that is not one.
#[derive(Clone, Copy, Debug, PartialEq, Eq, Structural)]
pub struct InvalidIdentifier;

impl std::str::FromStr for Identifier {
    type Err = InvalidIdentifier;

    fn from_str(s: &str) -> (r: Result<Identifier, InvalidIdentifier>)
        ensures
            match Identifier::parsed(s@) {
                Some(id) => r == Ok::<Identifier, InvalidIdentifier>(id),
                None => r == Err::<Identifier, InvalidIdentifier>(InvalidIdentifier),
            },
    {
        match Identifier::parse(s) {
            Some(id) => Ok(id),
            None => Err(InvalidIdentifier),
        }
    }
}

/// `uuid::Uuid::new_v4`, split into its high and low 64 bits
/// (`Uuid::as_u64_pair`).  The value is random; what is claimed is what its
/// source shows of every value: `new_v4` masks a random `u128` and sets the
/// version nibble to 4 and the two variant bits to `10`.
#[verifier::external_body]
fn random_uuid_halves() -> (r: (u64, u64))
    ensures
        is_random_uuid(r.0, r.1),
{
    uuid::Uuid::new_v4().as_u64_pair()
}

} // verus!
