//! Room ids that can be built without drawing: version-4 UUID texts that count
//! upwards, used when random draws keep hitting ids in use.
use crate::external::{hex_digit, is_lower_hex, is_v4_uuid_text};
use vstd::prelude::*;
use vstd::string::*;

verus! {

/// Sixteen to the power `m`.
pub open spec fn pow16(m: nat) -> nat
    decreases m,
{
    if m == 0 {
        1
    } else {
        16 * pow16((m - 1) as nat)
    }
}

/// The last `m` hexadecimal digits of `k`, most significant first.
pub open spec fn hex_digits(k: nat, m: nat) -> Seq<char>
    decreases m,
{
    if m == 0 {
        Seq::empty()
    } else {
        hex_digits(k / 16, (m - 1) as nat).push(hex_digit((k % 16) as int))
    }
}

/// The `k`-th counted room id: the version-4 UUID text whose sixteen free
/// digits at 17, 20 to 22 and 24 to 35 spell `k` in hexadecimal, and whose
/// other digits are zero.
pub open spec fn counted_room_id(k: nat) -> Seq<char> {
    let h = hex_digits(k, 16);
    seq!['0', '0', '0', '0', '0', '0', '0', '0', '-', '0', '0', '0', '0', '-', '4', '0', '0']
        + h.subrange(0, 1) + seq!['-', '8'] + h.subrange(1, 4) + seq!['-'] + h.subrange(4, 16)
}

proof fn lemma_hex_digit(d: int)
    requires
        0 <= d < 16,
    ensures
        is_lower_hex(hex_digit(d)),
        d < 10 ==> hex_digit(d) as int == 48 + d,
        d >= 10 ==> hex_digit(d) as int == 87 + d,
{
}

proof fn lemma_hex_digits(k: nat, m: nat)
    ensures
        hex_digits(k, m).len() == m,
        forall|i: int| 0 <= i < m ==> is_lower_hex(#[trigger] hex_digits(k, m)[i]),
    decreases m,
{
    if m > 0 {
        lemma_hex_digits(k / 16, (m - 1) as nat);
        lemma_hex_digit((k % 16) as int);
    }
}

proof fn lemma_hex_digits_injective(a: nat, b: nat, m: nat)
    requires
        a < pow16(m),
        b < pow16(m),
        hex_digits(a, m) == hex_digits(b, m),
    ensures
        a == b,
    decreases m,
{
    if m > 0 {
        let p = pow16((m - 1) as nat);
        let ha = hex_digits(a, m);
        let hb = hex_digits(b, m);
        assert(ha.last() == hb.last());
        lemma_hex_digit((a % 16) as int);
        lemma_hex_digit((b % 16) as int);
        assert(a % 16 == b % 16);
        assert(ha.drop_last() =~= hex_digits(a / 16, (m - 1) as nat));
        assert(hb.drop_last() =~= hex_digits(b / 16, (m - 1) as nat));
        assert(a / 16 < p) by (nonlinear_arith)
            requires
                a < 16 * p,
        ;
        assert(b / 16 < p) by (nonlinear_arith)
            requires
                b < 16 * p,
        ;
        lemma_hex_digits_injective(a / 16, b / 16, (m - 1) as nat);
    }
}

/// Every counted room id is a version-4 UUID text.
pub proof fn lemma_counted_id_is_v4(k: nat)
    ensures
        is_v4_uuid_text(counted_room_id(k)),
{
    lemma_hex_digits(k, 16);
    let h = hex_digits(k, 16);
    let s = counted_room_id(k);
    assert(s.len() == 36);
    assert forall|i: int|
        0 <= i < 36 implies if i == 8 || i == 13 || i == 18 || i == 23 {
        #[trigger] s[i] == '-'
    } else {
        is_lower_hex(s[i])
    } by {
        if i == 17 {
            assert(s[i] == h[0]);
        } else if 20 <= i < 23 {
            assert(s[i] == h[i - 19]);
        } else if 24 <= i < 36 {
            assert(s[i] == h[i - 20]);
        }
    }
}

/// Different counts give different ids.
pub proof fn lemma_counted_id_injective(a: u64, b: u64)
    requires
        counted_room_id(a as nat) == counted_room_id(b as nat),
    ensures
        a == b,
{
    lemma_hex_digits(a as nat, 16);
    lemma_hex_digits(b as nat, 16);
    let ha = hex_digits(a as nat, 16);
    let hb = hex_digits(b as nat, 16);
    let sa = counted_room_id(a as nat);
    let sb = counted_room_id(b as nat);
    assert forall|j: int| 0 <= j < 16 implies ha[j] == hb[j] by {
        let i: int = if j == 0 { 17 } else if j < 4 { j + 19 } else { j + 20 };
        assert(sa[i] == ha[j]);
        assert(sb[i] == hb[j]);
    }
    assert(ha =~= hb);
    reveal_with_fuel(pow16, 17);
    assert(pow16(16) == 0x1_0000_0000_0000_0000);
    lemma_hex_digits_injective(a as nat, b as nat, 16);
}

/// Distinct texts that all occur in `keys` are no more than `keys` has entries.
pub proof fn lemma_distinct_within(c: Seq<Seq<char>>, keys: Seq<Seq<char>>)
    requires
        c.no_duplicates(),
        forall|i: int| 0 <= i < c.len() ==> keys.contains(#[trigger] c[i]),
    ensures
        c.len() <= keys.len(),
    decreases c.len(),
{
    if c.len() > 0 {
        let x = c.last();
        assert(keys.contains(c[c.len() - 1]));
        let j = choose|j: int| 0 <= j < keys.len() && keys[j] == x;
        let k2 = keys.remove(j);
        let c2 = c.drop_last();
        assert forall|i: int| 0 <= i < c2.len() implies k2.contains(#[trigger] c2[i]) by {
            assert(c2[i] == c[i]);
            assert(keys.contains(c[i]));
            let p = choose|p: int| 0 <= p < keys.len() && keys[p] == c[i];
            assert(c[i] != x);
            let p2: int = if p < j { p } else { p - 1 };
            assert(k2[p2] == keys[p]);
        }
        lemma_distinct_within(c2, k2);
    }
}

/// The hexadecimal digit of `d` as a one-character text.
fn hex_digit_text(d: u64) -> (t: &'static str)
    requires
        d < 16,
    ensures
        t@ == seq![hex_digit(d as int)],
{
    match d {
        0 => {
            proof {
                reveal_strlit("0");
            }
            "0"
        },
        1 => {
            proof {
                reveal_strlit("1");
            }
            "1"
        },
        2 => {
            proof {
                reveal_strlit("2");
            }
            "2"
        },
        3 => {
            proof {
                reveal_strlit("3");
            }
            "3"
        },
        4 => {
            proof {
                reveal_strlit("4");
            }
            "4"
        },
        5 => {
            proof {
                reveal_strlit("5");
            }
            "5"
        },
        6 => {
            proof {
                reveal_strlit("6");
            }
            "6"
        },
        7 => {
            proof {
                reveal_strlit("7");
            }
            "7"
        },
        8 => {
            proof {
                reveal_strlit("8");
            }
            "8"
        },
        9 => {
            proof {
                reveal_strlit("9");
            }
            "9"
        },
        10 => {
            proof {
                reveal_strlit("a");
            }
            "a"
        },
        11 => {
            proof {
                reveal_strlit("b");
            }
            "b"
        },
        12 => {
            proof {
                reveal_strlit("c");
            }
            "c"
        },
        13 => {
            proof {
                reveal_strlit("d");
            }
            "d"
        },
        14 => {
            proof {
                reveal_strlit("e");
            }
            "e"
        },
        _ => {
            proof {
                reveal_strlit("f");
            }
            "f"
        },
    }
}

/// The last `m` hexadecimal digits of `k`, most significant first.
fn hex_text(k: u64, m: usize) -> (t: String)
    ensures
        t@ == hex_digits(k as nat, m as nat),
    decreases m,
{
    if m == 0 {
        String::new()
    } else {
        let mut t = hex_text(k / 16, m - 1);
        t.append(hex_digit_text(k % 16));
        t
    }
}

/// Builds `counted_room_id(k)`.
pub fn counted_id(k: u64) -> (id: String)
    ensures
        id@ == counted_room_id(k as nat),
{
    let h = hex_text(k, 16);
    proof {
        lemma_hex_digits(k as nat, 16);
        reveal_strlit("00000000-0000-400");
        reveal_strlit("-8");
        reveal_strlit("-");
    }
    let mut id = String::from_str("00000000-0000-400");
    id.append(h.as_str().substring_char(0, 1));
    id.append("-8");
    id.append(h.as_str().substring_char(1, 4));
    id.append("-");
    id.append(h.as_str().substring_char(4, 16));
    assert(id@ =~= counted_room_id(k as nat));
    id
}

} // verus!
