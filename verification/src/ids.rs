//! Rendering and reading of request identifiers.
//!
//! A request identifier is the 128-bit value of a UUID. On the wire it is
//! the canonical text form: 32 lowercase hexadecimal digits with hyphens
//! after the 8th, 12th, 16th and 20th digit. Reading accepts upper- and
//! lowercase digits; rendering always produces lowercase.

use vstd::prelude::*;
use vstd::string::StrSliceExecFns;

verus! {

/// The lowercase hexadecimal digit for a value below 16.
pub open spec fn spec_hex_char(n: int) -> char {
    if n == 0 {
        '0'
    } else if n == 1 {
        '1'
    } else if n == 2 {
        '2'
    } else if n == 3 {
        '3'
    } else if n == 4 {
        '4'
    } else if n == 5 {
        '5'
    } else if n == 6 {
        '6'
    } else if n == 7 {
        '7'
    } else if n == 8 {
        '8'
    } else if n == 9 {
        '9'
    } else if n == 10 {
        'a'
    } else if n == 11 {
        'b'
    } else if n == 12 {
        'c'
    } else if n == 13 {
        'd'
    } else if n == 14 {
        'e'
    } else {
        'f'
    }
}

/// Whether position `i` of the 36-character text form holds a hyphen.
pub open spec fn spec_hyphen_pos(i: int) -> bool {
    i == 8 || i == 13 || i == 18 || i == 23
}

/// The index (0 = most significant) of the hexadecimal digit at text
/// position `i`, for a non-hyphen position.
pub open spec fn spec_digit_idx(i: int) -> int {
    if i < 8 {
        i
    } else if i < 13 {
        i - 1
    } else if i < 18 {
        i - 2
    } else if i < 23 {
        i - 3
    } else {
        i - 4
    }
}

/// The number of hexadecimal digits strictly before text position `i`.
pub open spec fn spec_digits_before(i: int) -> int {
    if i <= 8 {
        i
    } else if i <= 13 {
        i - 1
    } else if i <= 18 {
        i - 2
    } else if i <= 23 {
        i - 3
    } else {
        i - 4
    }
}

/// The text position of hexadecimal digit `j` (0 = most significant).
pub open spec fn spec_digit_pos(j: int) -> int {
    if j < 8 {
        j
    } else if j < 12 {
        j + 1
    } else if j < 16 {
        j + 2
    } else if j < 20 {
        j + 3
    } else {
        j + 4
    }
}

/// The value of hexadecimal digit `idx` (0 = most significant of 32) of a
/// 128-bit identifier.
pub open spec fn spec_nibble(id: u128, idx: int) -> u128 {
    (id >> (((31 - idx) * 4) as u32)) & 0xf
}

/// The canonical text form of a 128-bit identifier: 32 lowercase
/// hexadecimal digits, most significant first, with hyphens after the
/// 8th, 12th, 16th and 20th digit.
pub open spec fn spec_uuid_chars(id: u128) -> Seq<char> {
    Seq::new(
        36,
        |i: int|
            if spec_hyphen_pos(i) {
                '-'
            } else {
                spec_hex_char(spec_nibble(id, spec_digit_idx(i)) as int)
            },
    )
}

/// Whether `c` is a hexadecimal digit, in either case.
pub open spec fn spec_is_hex_digit(c: char) -> bool {
    ('0' <= c && c <= '9') || ('a' <= c && c <= 'f') || ('A' <= c && c <= 'F')
}

/// The value of a hexadecimal digit, in either case.
pub open spec fn spec_hex_val(c: char) -> int {
    if '0' <= c && c <= '9' {
        c as int - '0' as int
    } else if 'a' <= c && c <= 'f' {
        c as int - 'a' as int + 10
    } else {
        c as int - 'A' as int + 10
    }
}

/// Whether `s` has the text shape of a UUID: 36 characters, hyphens at the
/// four canonical positions, hexadecimal digits everywhere else.
pub open spec fn spec_is_uuid_chars(s: Seq<char>) -> bool {
    &&& s.len() == 36
    &&& forall|i: int|
        0 <= i < 36 ==> (if spec_hyphen_pos(i) {
            s[i] == '-'
        } else {
            spec_is_hex_digit(#[trigger] s[i])
        })
}

/// The value of a sequence of hexadecimal digits, most significant first.
pub open spec fn spec_hex_value(ds: Seq<char>) -> int
    decreases ds.len(),
{
    if ds.len() == 0 {
        0
    } else {
        spec_hex_value(ds.drop_last()) * 16 + spec_hex_val(ds.last())
    }
}

/// The 32 hexadecimal digits of a UUID text form, hyphens removed.
pub open spec fn spec_uuid_digits(s: Seq<char>) -> Seq<char> {
    Seq::new(32, |j: int| s[spec_digit_pos(j)])
}

/// The identifier a UUID text form denotes, or `None` where the text does
/// not have the shape of a UUID.
pub open spec fn spec_parse_uuid(s: Seq<char>) -> Option<u128> {
    if spec_is_uuid_chars(s) {
        Some(spec_hex_value(spec_uuid_digits(s)) as u128)
    } else {
        None
    }
}

/// Sixteen to the power `k`.
pub open spec fn pow16(k: nat) -> int
    decreases k,
{
    if k == 0 {
        1
    } else {
        16 * pow16((k - 1) as nat)
    }
}

/// The value of `k` hexadecimal digits is below sixteen to the `k`.
pub proof fn lemma_hex_value_bound(ds: Seq<char>)
    requires
        forall|i: int| 0 <= i < ds.len() ==> spec_is_hex_digit(#[trigger] ds[i]),
    ensures
        0 <= spec_hex_value(ds) < pow16(ds.len()),
    decreases ds.len(),
{
    if ds.len() > 0 {
        lemma_hex_value_bound(ds.drop_last());
    }
}

/// The lowercase hexadecimal digit for a value below 16, as text.
fn hex_str(nib: u128) -> (r: &'static str)
    requires
        nib < 16,
    ensures
        r@.len() == 1,
        r@[0] == spec_hex_char(nib as int),
{
    proof {
        reveal_strlit("0");
        reveal_strlit("1");
        reveal_strlit("2");
        reveal_strlit("3");
        reveal_strlit("4");
        reveal_strlit("5");
        reveal_strlit("6");
        reveal_strlit("7");
        reveal_strlit("8");
        reveal_strlit("9");
        reveal_strlit("a");
        reveal_strlit("b");
        reveal_strlit("c");
        reveal_strlit("d");
        reveal_strlit("e");
        reveal_strlit("f");
    }
    if nib == 0 {
        "0"
    } else if nib == 1 {
        "1"
    } else if nib == 2 {
        "2"
    } else if nib == 3 {
        "3"
    } else if nib == 4 {
        "4"
    } else if nib == 5 {
        "5"
    } else if nib == 6 {
        "6"
    } else if nib == 7 {
        "7"
    } else if nib == 8 {
        "8"
    } else if nib == 9 {
        "9"
    } else if nib == 10 {
        "a"
    } else if nib == 11 {
        "b"
    } else if nib == 12 {
        "c"
    } else if nib == 13 {
        "d"
    } else if nib == 14 {
        "e"
    } else {
        "f"
    }
}

/// Renders a 128-bit identifier in the canonical UUID text form.
pub fn uuid_string(id: u128) -> (s: String)
    ensures
        s@ == spec_uuid_chars(id),
{
    let mut s = String::new();
    let mut i: usize = 0;
    while i < 36
        invariant
            i <= 36,
            s@.len() == i as int,
            forall|j: int| 0 <= j < i as int ==> s@[j] == spec_uuid_chars(id)[j],
        decreases 36 - i,
    {
        if i == 8 || i == 13 || i == 18 || i == 23 {
            proof {
                reveal_strlit("-");
            }
            s.append("-");
        } else {
            let di: usize = if i < 8 {
                i
            } else if i < 13 {
                i - 1
            } else if i < 18 {
                i - 2
            } else if i < 23 {
                i - 3
            } else {
                i - 4
            };
            let sh: u32 = ((31 - di) * 4) as u32;
            let nib: u128 = (id >> sh) & 0xf;
            proof {
                assert(((id >> sh) & 0xf) < 16) by (bit_vector);
            }
            s.append(hex_str(nib));
        }
        i = i + 1;
    }
    proof {
        assert(s@ =~= spec_uuid_chars(id));
    }
    s
}

/// Reads a UUID text form: `Some` exactly on text of the canonical shape,
/// with the 128-bit value the digits denote.
pub fn parse_uuid(s: &str) -> (r: Option<u128>)
    ensures
        r == spec_parse_uuid(s@),
{
    if s.unicode_len() != 36 {
        return None;
    }
    let mut acc: u128 = 0;
    let mut i: usize = 0;
    while i < 36
        invariant
            s@.len() == 36,
            i <= 36,
            forall|j: int|
                0 <= j < i as int ==> (if spec_hyphen_pos(j) {
                    s@[j] == '-'
                } else {
                    spec_is_hex_digit(#[trigger] s@[j])
                }),
            acc == spec_hex_value(
                Seq::new(spec_digits_before(i as int) as nat, |j: int| s@[spec_digit_pos(j)]),
            ),
            acc < pow16(spec_digits_before(i as int) as nat),
        decreases 36 - i,
    {
        let ghost prefix = Seq::new(
            spec_digits_before(i as int) as nat,
            |j: int| s@[spec_digit_pos(j)],
        );
        let c = s.get_char(i);
        if i == 8 || i == 13 || i == 18 || i == 23 {
            if c != '-' {
                return None;
            }
            proof {
                assert(Seq::new(
                    spec_digits_before(i as int + 1) as nat,
                    |j: int| s@[spec_digit_pos(j)],
                ) =~= prefix);
            }
        } else {
            let u = c as u32;
            let v: u32 = if u >= 48 && u <= 57 {
                u - 48
            } else if u >= 97 && u <= 102 {
                u - 97 + 10
            } else if u >= 65 && u <= 70 {
                u - 65 + 10
            } else {
                return None;
            };
            proof {
                lemma_hex_value_bound(prefix);
                assert(pow16(31nat) == 0x1000_0000_0000_0000_0000_0000_0000_0000int) by {
                    reveal_with_fuel(pow16, 32);
                }
                if spec_digits_before(i as int) < 31 {
                    lemma_pow16_mono(spec_digits_before(i as int) as nat, 31nat);
                }
                let next = Seq::new(
                    spec_digits_before(i as int + 1) as nat,
                    |j: int| s@[spec_digit_pos(j)],
                );
                assert(next.drop_last() =~= prefix);
                assert(next.last() == s@[i as int]);
            }
            acc = acc * 16 + (v as u128);
        }
        i = i + 1;
    }
    proof {
        assert(spec_is_uuid_chars(s@));
        assert(Seq::new(32, |j: int| s@[spec_digit_pos(j)]) =~= spec_uuid_digits(s@));
    }
    Some(acc)
}

/// Sixteen to the `j` divides sixteen to the `k` when `j <= k`; in
/// particular the powers do not shrink.
pub proof fn lemma_pow16_mono(j: nat, k: nat)
    requires
        j <= k,
    ensures
        pow16(j) <= pow16(k),
        pow16(j) >= 1,
    decreases k,
{
    if j < k {
        lemma_pow16_mono(j, (k - 1) as nat);
    } else if k > 0 {
        lemma_pow16_mono((j - 1) as nat, (k - 1) as nat);
    }
}

proof fn lemma_nibble_below_16(id: u128, idx: int)
    requires
        0 <= idx < 32,
    ensures
        0 <= spec_nibble(id, idx) < 16,
{
    let sh = ((31 - idx) * 4) as u32;
    assert((id >> sh) & 0xf < 16) by (bit_vector);
}

proof fn lemma_hex_char_value(n: int)
    requires
        0 <= n < 16,
    ensures
        spec_is_hex_digit(spec_hex_char(n)),
        spec_hex_val(spec_hex_char(n)) == n,
{
}

proof fn lemma_uuid_value_prefix(id: u128, k: int)
    requires
        0 <= k <= 32,
    ensures
        spec_hex_value(Seq::new(k as nat, |j: int| spec_hex_char(spec_nibble(id, j) as int))) == (
        if k == 0 {
            0int
        } else {
            (id >> (((32 - k) * 4) as u32)) as int
        }),
    decreases k,
{
    let ds = Seq::new(k as nat, |j: int| spec_hex_char(spec_nibble(id, j) as int));
    if k > 0 {
        lemma_uuid_value_prefix(id, k - 1);
        let prev = Seq::new((k - 1) as nat, |j: int| spec_hex_char(spec_nibble(id, j) as int));
        assert(ds.drop_last() =~= prev);
        assert(ds.last() == spec_hex_char(spec_nibble(id, k - 1) as int));
        lemma_nibble_below_16(id, k - 1);
        lemma_hex_char_value(spec_nibble(id, k - 1) as int);
        let sh = ((32 - k) * 4) as u32;
        if k == 1 {
            assert((id >> 124u32) & 0xf == (id >> 124u32)) by (bit_vector);
            assert(sh == 124u32);
        } else {
            let shp = ((32 - (k - 1)) * 4) as u32;
            assert(shp == ((sh + 4) as u32));
            assert((id >> sh) == (id >> ((sh + 4) as u32)) * 16 + ((id >> sh) & 0xf))
                by (bit_vector)
                requires
                    sh <= 120u32,
            ;
        }
    }
}

/// Rendering an identifier and reading the text back yields the same
/// identifier: the canonical text form denotes exactly the value it was
/// made from.
pub proof fn lemma_uuid_round_trip(id: u128)
    ensures
        spec_parse_uuid(spec_uuid_chars(id)) == Some(id),
{
    let s = spec_uuid_chars(id);
    assert forall|i: int|
        0 <= i < 36 implies (if spec_hyphen_pos(i) {
        s[i] == '-'
    } else {
        spec_is_hex_digit(#[trigger] s[i])
    }) by {
        if !spec_hyphen_pos(i) {
            lemma_nibble_below_16(id, spec_digit_idx(i));
            lemma_hex_char_value(spec_nibble(id, spec_digit_idx(i)) as int);
        }
    }
    assert(spec_is_uuid_chars(s));
    let ds = spec_uuid_digits(s);
    let ns = Seq::new(32, |j: int| spec_hex_char(spec_nibble(id, j) as int));
    assert forall|j: int| 0 <= j < 32 implies ds[j] == ns[j] by {
        assert(!spec_hyphen_pos(spec_digit_pos(j)));
        assert(spec_digit_idx(spec_digit_pos(j)) == j);
    }
    assert(ds =~= ns);
    lemma_uuid_value_prefix(id, 32);
    assert(id >> 0u32 == id) by (bit_vector);
    assert(spec_hex_value(ds) == id);
}

} // verus!
