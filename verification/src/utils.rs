//! Rendering of byte counts: plain decimal strings and human-readable
//! binary-unit strings (B, KB, MB, GB, TB, one decimal place).

use vstd::prelude::*;

verus! {

/// The decimal digit character for a value below ten.
pub open spec fn digit_char(d: nat) -> char {
    if d == 0 {
        '0'
    } else if d == 1 {
        '1'
    } else if d == 2 {
        '2'
    } else if d == 3 {
        '3'
    } else if d == 4 {
        '4'
    } else if d == 5 {
        '5'
    } else if d == 6 {
        '6'
    } else if d == 7 {
        '7'
    } else if d == 8 {
        '8'
    } else {
        '9'
    }
}

/// The decimal rendering of a number, most significant digit first, with no
/// leading zeros (zero itself renders as one digit).
pub open spec fn dec_chars(n: nat) -> Seq<char>
    decreases n,
{
    if n < 10 {
        seq![digit_char(n)]
    } else {
        dec_chars(n / 10).push(digit_char(n % 10))
    }
}

/// 1024 raised to a small power: the magnitude steps of the binary units.
pub open spec fn pow1024(k: nat) -> nat
    decreases k,
{
    if k == 0 {
        1
    } else {
        1024 * pow1024((k - 1) as nat)
    }
}

/// The unit a size is rendered in: the number of times it can be divided by
/// 1024 before the magnitude drops below 1024, capped at the largest unit.
pub open spec fn unit_index(n: nat) -> nat {
    if n < pow1024(1) {
        0
    } else if n < pow1024(2) {
        1
    } else if n < pow1024(3) {
        2
    } else if n < pow1024(4) {
        3
    } else {
        4
    }
}

/// The unit suffix for a magnitude step.
pub open spec fn unit_chars(k: nat) -> Seq<char> {
    if k == 0 {
        seq!['B']
    } else if k == 1 {
        seq!['K', 'B']
    } else if k == 2 {
        seq!['M', 'B']
    } else if k == 3 {
        seq!['G', 'B']
    } else {
        seq!['T', 'B']
    }
}

/// The human-readable rendering of a byte count: values below 1024 as a
/// plain digit string followed by `B`; larger values scaled by the unit's
/// magnitude and shown with one decimal place (truncated), followed by the
/// unit suffix.
pub open spec fn human_chars(n: nat) -> Seq<char> {
    let k = unit_index(n);
    if k == 0 {
        dec_chars(n) + seq!['B']
    } else {
        let tenths = n * 10 / pow1024(k);
        dec_chars(tenths / 10) + seq!['.'] + seq![digit_char(tenths % 10)] + unit_chars(k)
    }
}

/// How a size is rendered for display: human-readable units when asked for,
/// a plain decimal byte count otherwise.
pub open spec fn size_render(n: nat, human_readable: bool) -> Seq<char> {
    if human_readable {
        human_chars(n)
    } else {
        dec_chars(n)
    }
}

/// The one-character string for a decimal digit.
fn digit_str(d: u64) -> (r: &'static str)
    requires
        d < 10,
    ensures
        r@ =~= seq![digit_char(d as nat)],
{
    if d == 0 {
        proof {
            reveal_strlit("0");
        }
        "0"
    } else if d == 1 {
        proof {
            reveal_strlit("1");
        }
        "1"
    } else if d == 2 {
        proof {
            reveal_strlit("2");
        }
        "2"
    } else if d == 3 {
        proof {
            reveal_strlit("3");
        }
        "3"
    } else if d == 4 {
        proof {
            reveal_strlit("4");
        }
        "4"
    } else if d == 5 {
        proof {
            reveal_strlit("5");
        }
        "5"
    } else if d == 6 {
        proof {
            reveal_strlit("6");
        }
        "6"
    } else if d == 7 {
        proof {
            reveal_strlit("7");
        }
        "7"
    } else if d == 8 {
        proof {
            reveal_strlit("8");
        }
        "8"
    } else {
        proof {
            reveal_strlit("9");
        }
        "9"
    }
}

/// Renders a number as its plain decimal digit string.
pub fn u64_to_dec_string(n: u64) -> (r: String)
    ensures
        r@ == dec_chars(n as nat),
    decreases n,
{
    if n < 10 {
        String::from_str(digit_str(n))
    } else {
        let mut s = u64_to_dec_string(n / 10);
        s.append(digit_str(n % 10));
        proof {
            assert(s@ =~= dec_chars(n as nat));
        }
        s
    }
}

/// The exact value of `pow1024` for each magnitude step in use.
proof fn lemma_pow1024_values()
    ensures
        pow1024(0) == 1,
        pow1024(1) == 1024,
        pow1024(2) == 0x100000,
        pow1024(3) == 0x40000000,
        pow1024(4) == 0x10000000000,
{
    reveal_with_fuel(pow1024, 5);
}

/// The unit suffix string for a magnitude step.
fn unit_str(k: u64) -> (r: &'static str)
    requires
        k <= 4,
    ensures
        r@ =~= unit_chars(k as nat),
{
    if k == 0 {
        proof {
            reveal_strlit("B");
        }
        "B"
    } else if k == 1 {
        proof {
            reveal_strlit("KB");
        }
        "KB"
    } else if k == 2 {
        proof {
            reveal_strlit("MB");
        }
        "MB"
    } else if k == 3 {
        proof {
            reveal_strlit("GB");
        }
        "GB"
    } else {
        proof {
            reveal_strlit("TB");
        }
        "TB"
    }
}

/// Renders a byte count in human-readable binary units: `B` up to `TB`,
/// scaled by 1024 at each step, with one (truncated) decimal place; a value
/// below 1024 — zero included — renders as a bare digit string plus `B`.
pub fn human_readable_size(n: u64) -> (r: String)
    ensures
        r@ == human_chars(n as nat),
{
    proof {
        lemma_pow1024_values();
    }
    if n < 1024 {
        let mut s = u64_to_dec_string(n);
        s.append(unit_str(0));
        proof {
            assert(s@ =~= human_chars(n as nat));
        }
        s
    } else {
        let k: u64 = if n < 0x100000 {
            1
        } else if n < 0x40000000 {
            2
        } else if n < 0x10000000000 {
            3
        } else {
            4
        };
        let p: u64 = if k == 1 {
            1024
        } else if k == 2 {
            0x100000
        } else if k == 3 {
            0x40000000
        } else {
            0x10000000000
        };
        proof {
            assert(k as nat == unit_index(n as nat));
            assert(p as nat == pow1024(k as nat));
        }
        let tenths_wide: u128 = (n as u128) * 10 / (p as u128);
        let ghost tenths: nat = (n as nat) * 10 / pow1024(k as nat);
        proof {
            assert(tenths_wide == tenths);
            assert((n as nat) * 10 / pow1024(k as nat) <= (n as nat) * 10 / 1024) by (nonlinear_arith)
                requires
                    1024 <= pow1024(k as nat),
            ;
            assert((n as nat) * 10 / 1024 < 0x10000000000000000) by (nonlinear_arith)
                requires
                    n <= u64::MAX,
            ;
        }
        let whole: u64 = (tenths_wide / 10) as u64;
        let frac: u64 = (tenths_wide % 10) as u64;
        let mut s = u64_to_dec_string(whole);
        s.append(".");
        s.append(digit_str(frac));
        s.append(unit_str(k));
        proof {
            reveal_strlit(".");
            assert(whole as nat == tenths / 10);
            assert(frac as nat == tenths % 10);
            assert(s@ =~= human_chars(n as nat));
        }
        s
    }
}

/// Renders a size the way the listing displays it: human-readable units
/// when asked for, a plain decimal byte count otherwise.
pub fn render_size(n: u64, human_readable: bool) -> (r: String)
    ensures
        r@ == size_render(n as nat, human_readable),
{
    if human_readable {
        human_readable_size(n)
    } else {
        u64_to_dec_string(n)
    }
}

} // verus!
