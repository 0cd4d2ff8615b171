//! The DPDK version string (`rte_version.h`).
use vstd::prelude::*;
use vstd::string::*;

verus! {

/// The decimal digit `d` (below ten).
pub open spec fn digit(d: nat) -> char {
    (48 + d) as char
}

/// The decimal digits of `n`, without leading zeros.
pub open spec fn dec(n: nat) -> Seq<char>
    decreases n,
{
    if n < 10 {
        seq![digit(n)]
    } else {
        dec(n / 10).push(digit(n % 10))
    }
}

/// The number that decimal digits `s` stand for.
pub open spec fn decimal_value(s: Seq<char>) -> int
    decreases s.len(),
{
    if s.len() == 0 {
        0
    } else {
        decimal_value(s.drop_last()) * 10 + (s.last() as int - 48)
    }
}

/// `dec(n)` writes `n` in decimal: it is a non-empty string of the digits
/// '0' to '9', without a leading zero (but for zero itself), that reads back
/// as `n`.
pub proof fn lemma_dec_is_decimal(n: nat)
    ensures
        dec(n).len() >= 1,
        forall|i: int| 0 <= i < dec(n).len() ==> '0' <= #[trigger] dec(n)[i] <= '9',
        decimal_value(dec(n)) == n,
        n >= 10 ==> dec(n)[0] != '0',
        n < 10 ==> dec(n) == seq![(48 + n) as char],
    decreases n,
{
    if n >= 10 {
        lemma_dec_is_decimal(n / 10);
        let d = dec(n);
        assert(d.drop_last() =~= dec(n / 10));
        assert(d.last() == digit(n % 10));
        assert((digit(n % 10) as int) == 48 + n % 10);
        assert((n / 10) * 10 + n % 10 == n) by (nonlinear_arith);
        assert(decimal_value(d) == decimal_value(dec(n / 10)) * 10 + (n % 10));
        assert(d[0] == dec(n / 10)[0]);
        assert forall|i: int| 0 <= i < d.len() implies '0' <= #[trigger] d[i] <= '9' by {
            if i < d.len() - 1 {
                assert(d[i] == dec(n / 10)[i]);
            }
        }
    } else {
        assert((digit(n) as int) == 48 + n);
        assert(dec(n).drop_last() =~= Seq::<char>::empty());
        assert(decimal_value(Seq::<char>::empty()) == 0);
        assert(decimal_value(dec(n)) == decimal_value(dec(n).drop_last()) * 10 + (dec(n).last() as int - 48));
    }
}

/// The decimal digits of `n`, padded with a zero to at least two digits.
pub open spec fn dec2(n: nat) -> Seq<char> {
    if n < 10 {
        seq!['0', digit(n)]
    } else {
        dec(n)
    }
}

/// The release number printed after a suffix: release candidates are
/// numbered below 16, releases from 16 on.
pub open spec fn release_number(release: nat) -> nat {
    if release < 16 {
        release
    } else {
        (release - 16) as nat
    }
}

/// The version string: `prefix year.month.minor` with the month on two
/// digits, followed by the suffix and the release number when there is a
/// suffix.
pub open spec fn version_spec(
    prefix: Seq<char>,
    year: nat,
    month: nat,
    minor: nat,
    suffix: Seq<char>,
    release: nat,
) -> Seq<char> {
    let base = prefix + seq![' '] + dec(year) + seq!['.'] + dec2(month) + seq!['.'] + dec(minor);
    if suffix.len() == 0 {
        base
    } else {
        base + suffix + dec(release_number(release))
    }
}

/// The one-character string of digit `d`.
fn digit_str(d: u32) -> (s: &'static str)
    requires
        d < 10,
    ensures
        s@ == seq![digit(d as nat)],
        s@ == seq![(48 + d) as char],
{
    match d {
        0 => {
            proof {
                reveal_strlit("0");
            }
            "0"
        },
        1 => {
            proof {
                reveal_strlit("1");
            }
            "1"
        },
        2 => {
            proof {
                reveal_strlit("2");
            }
            "2"
        },
        3 => {
            proof {
                reveal_strlit("3");
            }
            "3"
        },
        4 => {
            proof {
                reveal_strlit("4");
            }
            "4"
        },
        5 => {
            proof {
                reveal_strlit("5");
            }
            "5"
        },
        6 => {
            proof {
                reveal_strlit("6");
            }
            "6"
        },
        7 => {
            proof {
                reveal_strlit("7");
            }
            "7"
        },
        8 => {
            proof {
                reveal_strlit("8");
            }
            "8"
        },
        _ => {
            proof {
                reveal_strlit("9");
            }
            "9"
        },
    }
}

/// Appends the decimal digits of `n` to `s`.
fn push_dec(s: &mut String, n: u32)
    ensures
        final(s)@ == old(s)@ + dec(n as nat),
    decreases n,
{
    if n >= 10 {
        push_dec(s, n / 10);
    }
    s.append(digit_str(n % 10));
    assert(n < 10 ==> n % 10 == n);
}

/// Appends `text` to `s`.
fn push_str(s: &mut String, text: &str)
    ensures
        final(s)@ == old(s)@ + text@,
{
    s.append(text);
}

/// Formats a version from its parts (the prefix and the suffix are the
/// text of the C strings, without their NUL).
pub fn version_string(
    prefix: &str,
    year: u32,
    month: u32,
    minor: u32,
    suffix: &str,
    release: u32,
) -> (r: String)
    ensures
        r@ == version_spec(
            prefix@,
            year as nat,
            month as nat,
            minor as nat,
            suffix@,
            release as nat,
        ),
{
    let mut s = String::new();
    push_str(&mut s, prefix);
    proof {
        reveal_strlit(" ");
        reveal_strlit(".");
        reveal_strlit("0");
    }
    push_str(&mut s, " ");
    push_dec(&mut s, year);
    push_str(&mut s, ".");
    if month < 10 {
        push_str(&mut s, "0");
    }
    push_dec(&mut s, month);
    push_str(&mut s, ".");
    push_dec(&mut s, minor);
    let ghost base = s@;
    assert(base =~= prefix@ + seq![' '] + dec(year as nat) + seq!['.'] + dec2(month as nat) + seq!['.']
        + dec(minor as nat));
    if suffix.is_empty() {
        s
    } else {
        push_str(&mut s, suffix);
        let rel = if release < 16 {
            release
        } else {
            release - 16
        };
        push_dec(&mut s, rel);
        s
    }
}

/// The version prefix.
pub const RTE_VER_PREFIX: &'static str = "DPDK";

/// The version year.
pub const RTE_VER_YEAR: u32 = 17;

/// The version month.
pub const RTE_VER_MONTH: u32 = 8;

/// The minor version.
pub const RTE_VER_MINOR: u32 = 0;

/// The version suffix (none for a release).
pub const RTE_VER_SUFFIX: &'static str = "";

/// The release number (16: a release, not a release candidate).
pub const RTE_VER_RELEASE: u32 = 16;

/// The version string of this DPDK.
pub fn string() -> (r: String)
    ensures
        r@ == version_spec(
            RTE_VER_PREFIX@,
            RTE_VER_YEAR as nat,
            RTE_VER_MONTH as nat,
            RTE_VER_MINOR as nat,
            RTE_VER_SUFFIX@,
            RTE_VER_RELEASE as nat,
        ),
{
    version_string(
        RTE_VER_PREFIX,
        RTE_VER_YEAR,
        RTE_VER_MONTH,
        RTE_VER_MINOR,
        RTE_VER_SUFFIX,
        RTE_VER_RELEASE,
    )
}

} // verus!
