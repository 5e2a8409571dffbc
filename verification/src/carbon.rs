//! The plaintext wire protocol: one metric per line, in the form
//! `<path> <value> <timestamp>\n`. The value is printed in fixed point with
//! exactly nine fractional digits, so a nanounit rate survives the trip
//! onto the wire and back without loss.

use vstd::prelude::*;
use crate::ewma::SCALE;
use vstd::arithmetic::div_mod::{lemma_fundamental_div_mod, lemma_breakdown};

verus! {

/// The byte separating the fields of a line.
pub const SPACE: u8 = 32;

/// The byte separating a value's integer and fractional digits.
pub const DOT: u8 = 46;

/// The byte ending a line.
pub const NEWLINE: u8 = 10;

/// Whether `b` is an ASCII decimal digit.
pub open spec fn is_digit(b: u8) -> bool {
    48 <= b <= 57
}

/// Whether every byte of `s` is a decimal digit.
pub open spec fn all_digits(s: Seq<u8>) -> bool {
    forall|i: int| 0 <= i < s.len() ==> is_digit(#[trigger] s[i])
}

/// The decimal digits of `n`, most significant first, no leading zeros.
pub open spec fn dec_digits(n: nat) -> Seq<u8>
    decreases n,
{
    if n < 10 {
        seq![(48 + n) as u8]
    } else {
        dec_digits(n / 10).push((48 + n % 10) as u8)
    }
}

/// Exactly `width` decimal digits of `n` (modulo 10^width), leading zeros
/// kept.
pub open spec fn dec_digits_padded(n: nat, width: nat) -> Seq<u8>
    decreases width,
{
    if width == 0 {
        Seq::empty()
    } else {
        dec_digits_padded(n / 10, (width - 1) as nat).push((48 + n % 10) as u8)
    }
}

/// The numeric value of a digit string, most significant first.
pub open spec fn digits_val(s: Seq<u8>) -> nat
    decreases s.len(),
{
    if s.len() == 0 {
        0
    } else {
        ((digits_val(s.drop_last()) as int) * 10 + s.last() as int - 48) as nat
    }
}

/// 10 to the power `w`.
pub open spec fn pow10(w: nat) -> nat
    decreases w,
{
    if w == 0 {
        1
    } else {
        10 * pow10((w - 1) as nat)
    }
}

/// A valid metric path: nonempty and free of the field and line separators.
pub open spec fn valid_path(p: Seq<u8>) -> bool {
    p.len() > 0 && forall|i: int| 0 <= i < p.len() ==> #[trigger] p[i] != SPACE && p[i] != NEWLINE
}

/// A value in fixed point: the integer part, a dot, nine fractional digits.
pub open spec fn dec_value(v: nat) -> Seq<u8> {
    dec_digits(v / (SCALE as nat)) + seq![DOT] + dec_digits_padded(v % (SCALE as nat), 9)
}

/// One wire line: `<path> <value> <timestamp>\n`.
pub open spec fn line_spec(p: Seq<u8>, v: nat, t: nat) -> Seq<u8> {
    p + seq![SPACE] + dec_value(v) + seq![SPACE] + dec_digits(t) + seq![NEWLINE]
}

/// `dec_digits(n)` is a nonempty digit string whose value is `n`.
pub proof fn lemma_dec_digits_props(n: nat)
    ensures
        dec_digits(n).len() >= 1,
        all_digits(dec_digits(n)),
        digits_val(dec_digits(n)) == n,
    decreases n,
{
    if n < 10 {
        let s = dec_digits(n);
        assert(s.len() == 1);
        assert(s.last() == (48 + n) as u8);
        assert(s.drop_last() =~= Seq::<u8>::empty());
        assert(digits_val(Seq::<u8>::empty()) == 0);
        assert(digits_val(s) == n);
    } else {
        lemma_dec_digits_props(n / 10);
        let s = dec_digits(n);
        let head = dec_digits(n / 10);
        assert(s == head.push((48 + n % 10) as u8));
        assert(s.drop_last() =~= head);
        assert(s.last() == (48 + n % 10) as u8);
        assert forall|i: int| 0 <= i < s.len() implies is_digit(s[i]) by {
            if i < head.len() {
                assert(s[i] == head[i]);
            }
        };
        lemma_fundamental_div_mod(n as int, 10);
        assert(digits_val(s) == n);
    }
}

/// `dec_digits_padded(n, w)` is a digit string of length `w` whose value is
/// `n` modulo 10^w.
pub proof fn lemma_padded_props(n: nat, w: nat)
    ensures
        dec_digits_padded(n, w).len() == w,
        all_digits(dec_digits_padded(n, w)),
        pow10(w) > 0,
        digits_val(dec_digits_padded(n, w)) == n % pow10(w),
    decreases w,
{
    if w == 0 {
        assert(n % 1 == 0) by {
            vstd::arithmetic::div_mod::lemma_mod_self_0(1int);
            vstd::arithmetic::div_mod::lemma_small_mod(0nat, 1nat);
            assert(n % 1 == 0) by (nonlinear_arith);
        };
    } else {
        lemma_padded_props(n / 10, (w - 1) as nat);
        let s = dec_digits_padded(n, w);
        let head = dec_digits_padded(n / 10, (w - 1) as nat);
        assert(s == head.push((48 + n % 10) as u8));
        assert(s.drop_last() =~= head);
        assert(s.last() == (48 + n % 10) as u8);
        assert forall|i: int| 0 <= i < s.len() implies is_digit(s[i]) by {
            if i < head.len() {
                assert(s[i] == head[i]);
            }
        };
        let z = pow10((w - 1) as nat) as int;
        lemma_breakdown(n as int, 10, z);
        assert(pow10(w) == 10 * z);
        assert(digits_val(s) as int == ((n as int / 10) % z) * 10 + n as int % 10);
        assert(n as int % (10 * z) == 10 * ((n as int / 10) % z) + n as int % 10);
    }
}

/// The value of a prefix of a digit string is at most the whole string's.
pub proof fn lemma_digits_val_take_le(s: Seq<u8>, m: int)
    requires
        0 <= m <= s.len(),
        all_digits(s),
    ensures
        digits_val(s.take(m)) <= digits_val(s),
    decreases s.len() - m,
{
    if m == s.len() {
        assert(s.take(m) =~= s);
    } else {
        assert(s.drop_last().take(m) =~= s.take(m));
        assert(all_digits(s.drop_last())) by {
            assert forall|i: int| 0 <= i < s.drop_last().len() implies is_digit(
                s.drop_last()[i],
            ) by {
                assert(s.drop_last()[i] == s[i]);
            };
        };
        lemma_digits_val_take_le(s.drop_last(), m);
        assert(digits_val(s) >= digits_val(s.drop_last()));
    }
}

/// A digit string of length `w` has a value below 10^w.
pub proof fn lemma_digits_val_bound(s: Seq<u8>)
    requires
        all_digits(s),
    ensures
        pow10(s.len() as nat) > 0,
        digits_val(s) < pow10(s.len() as nat),
    decreases s.len(),
{
    if s.len() == 0 {
    } else {
        assert(all_digits(s.drop_last())) by {
            assert forall|i: int| 0 <= i < s.drop_last().len() implies is_digit(
                s.drop_last()[i],
            ) by {
                assert(s.drop_last()[i] == s[i]);
            };
        };
        lemma_digits_val_bound(s.drop_last());
        assert(pow10(s.len() as nat) == 10 * pow10((s.len() - 1) as nat));
        assert(s.last() as int - 48 <= 9);
    }
}

/// First index at or past `from` holding `b`, if any.
fn find_byte(s: &Vec<u8>, b: u8, from: usize) -> (r: Option<usize>)
    requires
        from <= s@.len(),
    ensures
        match r {
            Some(idx) => from <= idx < s@.len() && s@[idx as int] == b && forall|k: int|
                from <= k < idx ==> s@[k] != b,
            None => forall|k: int| from <= k < s@.len() ==> s@[k] != b,
        },
{
    let n = s.len();
    let mut i = from;
    while i < n
        invariant
            from <= i <= n,
            n == s@.len(),
            forall|k: int| from <= k < i ==> s@[k] != b,
        decreases n - i,
    {
        if s[i] == b {
            return Some(i);
        }
        i = i + 1;
    }
    None
}

/// Parse the digit run `s[from..to]` as a decimal number. Whenever the run
/// is exactly the decimal spelling of some representable `x`, the result is
/// exactly `x`.
fn parse_digits(s: &Vec<u8>, from: usize, to: usize) -> (r: Option<u128>)
    requires
        from <= to <= s@.len(),
    ensures
        forall|x: nat|
            x <= u128::MAX && s@.subrange(from as int, to as int) == dec_digits(x) ==> r
                == Some(x as u128),
{
    let ghost seg = s@.subrange(from as int, to as int);
    if from == to {
        proof {
            assert forall|x: nat|
                x <= u128::MAX && seg == dec_digits(x) implies None::<u128> == Some(
                x as u128,
            ) by {
                lemma_dec_digits_props(x);
            };
        }
        return None;
    }
    let mut acc: u128 = 0;
    let mut j = from;
    while j < to
        invariant
            from <= j <= to <= s@.len(),
            seg == s@.subrange(from as int, to as int),
            all_digits(s@.subrange(from as int, j as int)),
            acc as nat == digits_val(s@.subrange(from as int, j as int)),
        decreases to - j,
    {
        let byte = s[j];
        let ghost pre = s@.subrange(from as int, j as int);
        let ghost ext = s@.subrange(from as int, j as int + 1);
        proof {
            assert(ext.drop_last() =~= pre);
            assert(ext.last() == s@[j as int]);
        }
        if byte < 48 || byte > 57 {
            proof {
                assert forall|x: nat|
                    x <= u128::MAX && seg == dec_digits(x) implies None::<u128> == Some(
                    x as u128,
                ) by {
                    lemma_dec_digits_props(x);
                    assert(seg[j - from] == s@[j as int]);
                };
            }
            return None;
        }
        let d = (byte - 48) as u128;
        let acc10 = match acc.checked_mul(10) {
            Some(m) => m,
            None => {
                proof {
                    assert forall|x: nat|
                        x <= u128::MAX && seg == dec_digits(x) implies None::<u128> == Some(
                        x as u128,
                    ) by {
                        lemma_dec_digits_props(x);
                        assert(ext =~= seg.take(j - from + 1));
                        lemma_digits_val_take_le(seg, j - from + 1);
                        assert(digits_val(ext) <= x);
                        assert(digits_val(ext) as int == acc as int * 10 + d);
                    };
                }
                return None;
            },
        };
        let acc2 = match acc10.checked_add(d) {
            Some(a) => a,
            None => {
                proof {
                    assert forall|x: nat|
                        x <= u128::MAX && seg == dec_digits(x) implies None::<u128> == Some(
                        x as u128,
                    ) by {
                        lemma_dec_digits_props(x);
                        assert(ext =~= seg.take(j - from + 1));
                        lemma_digits_val_take_le(seg, j - from + 1);
                        assert(digits_val(ext) <= x);
                        assert(digits_val(ext) as int == acc as int * 10 + d);
                    };
                }
                return None;
            },
        };
        proof {
            assert(digits_val(ext) as int == acc as int * 10 + d);
        }
        acc = acc2;
        j = j + 1;
    }
    proof {
        assert forall|x: nat|
            x <= u128::MAX && seg == dec_digits(x) implies Some(acc) == Some(x as u128) by {
            lemma_dec_digits_props(x);
        };
    }
    Some(acc)
}

/// Parse exactly nine digits at `from` as a zero-padded fraction. Whenever
/// they are the nine-digit spelling of some `x` below 10^9, the result is
/// exactly `x`.
fn parse_frac9(s: &Vec<u8>, from: usize) -> (r: Option<u64>)
    requires
        from + 9 <= s@.len(),
    ensures
        forall|x: nat|
            x < 1_000_000_000 && s@.subrange(from as int, from as int + 9) == dec_digits_padded(
                x,
                9,
            ) ==> r == Some(x as u64),
{
    let ghost seg = s@.subrange(from as int, from as int + 9);
    let n = s.len();
    let end = from + 9;
    let mut acc: u64 = 0;
    let mut j = from;
    while j < end
        invariant
            end == from + 9,
            from <= j <= from + 9 <= s@.len(),
            seg == s@.subrange(from as int, from as int + 9),
            all_digits(s@.subrange(from as int, j as int)),
            acc as nat == digits_val(s@.subrange(from as int, j as int)),
            acc < 1_000_000_000,
        decreases end - j,
    {
        let byte = s[j];
        let ghost pre = s@.subrange(from as int, j as int);
        let ghost ext = s@.subrange(from as int, j as int + 1);
        proof {
            assert(ext.drop_last() =~= pre);
            assert(ext.last() == s@[j as int]);
        }
        if byte < 48 || byte > 57 {
            proof {
                assert forall|x: nat|
                    x < 1_000_000_000 && seg == dec_digits_padded(x, 9) implies None::<u64>
                    == Some(x as u64) by {
                    lemma_padded_props(x, 9);
                    assert(seg[j - from] == s@[j as int]);
                };
            }
            return None;
        }
        proof {
            lemma_digits_val_bound(pre);
            assert(pre.len() <= 8);
            assert(pow10(pre.len() as nat) <= pow10(8)) by {
                lemma_pow10_le(pre.len() as nat, 8);
            };
            assert(pow10(8) == 100_000_000) by {
                lemma_pow10_value();
            };
        }
        let d = (byte - 48) as u64;
        acc = acc * 10 + d;
        proof {
            assert(digits_val(ext) as int == digits_val(pre) as int * 10 + d);
        }
        j = j + 1;
    }
    proof {
        assert forall|x: nat|
            x < 1_000_000_000 && seg == dec_digits_padded(x, 9) implies Some(acc) == Some(
            x as u64,
        ) by {
            lemma_padded_props(x, 9);
            assert(pow10(9) == 1_000_000_000) by {
                lemma_pow10_value();
            };
            vstd::arithmetic::div_mod::lemma_small_mod(x, pow10(9));
        };
    }
    Some(acc)
}

/// `pow10` is monotone in its exponent.
proof fn lemma_pow10_le(a: nat, b: nat)
    requires
        a <= b,
    ensures
        pow10(a) <= pow10(b),
    decreases b,
{
    if a < b {
        lemma_pow10_le(a, (b - 1) as nat);
        lemma_padded_props(0, (b - 1) as nat);
    }
}

/// The concrete small powers of ten the parser needs.
proof fn lemma_pow10_value()
    ensures
        pow10(8) == 100_000_000,
        pow10(9) == 1_000_000_000,
{
    reveal_with_fuel(pow10, 11);
}

/// Append the decimal digits of `n` to `out`.
fn push_dec(out: &mut Vec<u8>, n: u128)
    ensures
        final(out)@ == old(out)@ + dec_digits(n as nat),
    decreases n,
{
    if n < 10 {
        out.push(48 + n as u8);
        proof {
            assert(final(out)@ =~= old(out)@ + dec_digits(n as nat));
        }
    } else {
        push_dec(out, n / 10);
        out.push(48 + (n % 10) as u8);
        proof {
            assert(final(out)@ =~= old(out)@ + dec_digits(n as nat));
        }
    }
}

/// Append exactly `width` decimal digits of `n` to `out`, zero padded.
fn push_dec_padded(out: &mut Vec<u8>, n: u64, width: u64)
    ensures
        final(out)@ == old(out)@ + dec_digits_padded(n as nat, width as nat),
    decreases width,
{
    if width == 0 {
        proof {
            assert(final(out)@ =~= old(out)@ + dec_digits_padded(n as nat, 0));
        }
    } else {
        push_dec_padded(out, n / 10, width - 1);
        out.push(48 + (n % 10) as u8);
        proof {
            assert(final(out)@ =~= old(out)@ + dec_digits_padded(n as nat, width as nat));
        }
    }
}

/// Format one wire line: the path, the value in fixed point with nine
/// fractional digits, and the shared batch timestamp, newline terminated.
pub fn format_line(path: &Vec<u8>, value: u128, timestamp: u64) -> (line: Vec<u8>)
    ensures
        line@ == line_spec(path@, value as nat, timestamp as nat),
{
    let mut out: Vec<u8> = Vec::new();
    let n = path.len();
    let mut i: usize = 0;
    while i < n
        invariant
            i <= n,
            n == path@.len(),
            out@ == path@.subrange(0, i as int),
        decreases n - i,
    {
        let b = path[i];
        out.push(b);
        proof {
            assert(out@ =~= path@.subrange(0, i as int + 1));
        }
        i = i + 1;
    }
    proof {
        assert(out@ =~= path@);
    }
    out.push(SPACE);
    push_dec(&mut out, value / (SCALE as u128));
    out.push(DOT);
    push_dec_padded(&mut out, (value % (SCALE as u128)) as u64, 9);
    out.push(SPACE);
    push_dec(&mut out, timestamp as u128);
    out.push(NEWLINE);
    proof {
        assert(out@ =~= line_spec(path@, value as nat, timestamp as nat));
    }
    out
}

/// Parse one wire line back into its path, fixed-point value and
/// timestamp. Round trip: whenever the input is exactly a formatted line
/// for a valid path and a representable value and timestamp, the parse
/// recovers them exactly.
pub fn parse_line(line: &Vec<u8>) -> (r: Option<(Vec<u8>, u128, u64)>)
    ensures
        forall|p: Seq<u8>, v: nat, t: nat|
            valid_path(p) && v <= u128::MAX && t <= u64::MAX && line@ == line_spec(p, v, t)
                ==> match r {
                Some(pr) => pr.0@ == p && pr.1 as nat == v && pr.2 as nat == t,
                None => false,
            },
{
    let n = line.len();
    let sp1 = match find_byte(line, SPACE, 0) {
        Some(i) => i,
        None => {
            proof {
                assert forall|p: Seq<u8>, v: nat, t: nat|
                    valid_path(p) && v <= u128::MAX && t <= u64::MAX && line@ == line_spec(
                        p,
                        v,
                        t,
                    ) implies false by {
                    lemma_line_structure(p, v, t);
                };
            }
            return None;
        },
    };
    let dot = match find_byte(line, DOT, sp1 + 1) {
        Some(i) => i,
        None => {
            proof {
                assert forall|p: Seq<u8>, v: nat, t: nat|
                    valid_path(p) && v <= u128::MAX && t <= u64::MAX && line@ == line_spec(
                        p,
                        v,
                        t,
                    ) implies false by {
                    lemma_line_structure(p, v, t);
                    assert(sp1 == p.len());
                };
            }
            return None;
        },
    };
    if n - dot <= 11 || dot - sp1 <= 1 {
        proof {
            assert forall|p: Seq<u8>, v: nat, t: nat|
                valid_path(p) && v <= u128::MAX && t <= u64::MAX && line@ == line_spec(
                    p,
                    v,
                    t,
                ) implies false by {
                lemma_line_structure(p, v, t);
                assert(sp1 == p.len());
                assert(dot == p.len() + 1 + dec_digits(v / (SCALE as nat)).len());
            };
        }
        return None;
    }
    let sp2 = dot + 10;
    if line[sp2] != SPACE || line[n - 1] != NEWLINE || n - sp2 <= 2 {
        proof {
            assert forall|p: Seq<u8>, v: nat, t: nat|
                valid_path(p) && v <= u128::MAX && t <= u64::MAX && line@ == line_spec(
                    p,
                    v,
                    t,
                ) implies false by {
                lemma_line_structure(p, v, t);
                assert(sp1 == p.len());
                assert(dot == p.len() + 1 + dec_digits(v / (SCALE as nat)).len());
            };
        }
        return None;
    }
    let int_part = match parse_digits(line, sp1 + 1, dot) {
        Some(x) => x,
        None => {
            proof {
                assert forall|p: Seq<u8>, v: nat, t: nat|
                    valid_path(p) && v <= u128::MAX && t <= u64::MAX && line@ == line_spec(
                        p,
                        v,
                        t,
                    ) implies false by {
                    lemma_line_structure(p, v, t);
                    assert(sp1 == p.len());
                    assert(dot == p.len() + 1 + dec_digits(v / (SCALE as nat)).len());
                    assert(v / (SCALE as nat) <= u128::MAX);
                    assert(line@.subrange(sp1 as int + 1, dot as int) == dec_digits(
                        v / (SCALE as nat),
                    ));
                };
            }
            return None;
        },
    };
    let frac = match parse_frac9(line, dot + 1) {
        Some(x) => x,
        None => {
            proof {
                assert forall|p: Seq<u8>, v: nat, t: nat|
                    valid_path(p) && v <= u128::MAX && t <= u64::MAX && line@ == line_spec(
                        p,
                        v,
                        t,
                    ) implies false by {
                    lemma_line_structure(p, v, t);
                    assert(sp1 == p.len());
                    assert(dot == p.len() + 1 + dec_digits(v / (SCALE as nat)).len());
                    assert(v % (SCALE as nat) < 1_000_000_000);
                    assert(line@.subrange(dot as int + 1, dot as int + 10) == dec_digits_padded(
                        v % (SCALE as nat),
                        9,
                    ));
                };
            }
            return None;
        },
    };
    let ts128 = match parse_digits(line, sp2 + 1, n - 1) {
        Some(x) => x,
        None => {
            proof {
                assert forall|p: Seq<u8>, v: nat, t: nat|
                    valid_path(p) && v <= u128::MAX && t <= u64::MAX && line@ == line_spec(
                        p,
                        v,
                        t,
                    ) implies false by {
                    lemma_line_structure(p, v, t);
                    assert(sp1 == p.len());
                    assert(dot == p.len() + 1 + dec_digits(v / (SCALE as nat)).len());
                    assert(line@.subrange(sp2 as int + 1, n as int - 1) == dec_digits(t));
                };
            }
            return None;
        },
    };
    if ts128 > u64::MAX as u128 {
        proof {
            assert forall|p: Seq<u8>, v: nat, t: nat|
                valid_path(p) && v <= u128::MAX && t <= u64::MAX && line@ == line_spec(
                    p,
                    v,
                    t,
                ) implies false by {
                lemma_line_structure(p, v, t);
                assert(sp1 == p.len());
                assert(dot == p.len() + 1 + dec_digits(v / (SCALE as nat)).len());
                assert(line@.subrange(sp2 as int + 1, n as int - 1) == dec_digits(t));
                assert(ts128 as nat == t);
            };
        }
        return None;
    }
    let ts = ts128 as u64;
    let value = match int_part.checked_mul(SCALE as u128) {
        Some(m) => match m.checked_add(frac as u128) {
            Some(a) => a,
            None => {
                proof {
                    assert forall|p: Seq<u8>, v: nat, t: nat|
                        valid_path(p) && v <= u128::MAX && t <= u64::MAX && line@ == line_spec(
                            p,
                            v,
                            t,
                        ) implies false by {
                        lemma_line_structure(p, v, t);
                        assert(sp1 == p.len());
                        assert(dot == p.len() + 1 + dec_digits(v / (SCALE as nat)).len());
                        lemma_value_recombines(v);
                        assert(int_part as nat == v / (SCALE as nat));
                        assert(frac as nat == v % (SCALE as nat));
                    };
                }
                return None;
            },
        },
        None => {
            proof {
                assert forall|p: Seq<u8>, v: nat, t: nat|
                    valid_path(p) && v <= u128::MAX && t <= u64::MAX && line@ == line_spec(
                        p,
                        v,
                        t,
                    ) implies false by {
                    lemma_line_structure(p, v, t);
                    assert(sp1 == p.len());
                    assert(dot == p.len() + 1 + dec_digits(v / (SCALE as nat)).len());
                    lemma_value_recombines(v);
                    assert(int_part as nat == v / (SCALE as nat));
                };
            }
            return None;
        },
    };
    let mut path: Vec<u8> = Vec::new();
    let mut i: usize = 0;
    while i < sp1
        invariant
            i <= sp1 < line@.len(),
            path@ == line@.subrange(0, i as int),
        decreases sp1 - i,
    {
        let b = line[i];
        path.push(b);
        proof {
            assert(path@ =~= line@.subrange(0, i as int + 1));
        }
        i = i + 1;
    }
    proof {
        assert forall|p: Seq<u8>, v: nat, t: nat|
            valid_path(p) && v <= u128::MAX && t <= u64::MAX && line@ == line_spec(
                p,
                v,
                t,
            ) implies path@ == p && value as nat == v && ts as nat == t by {
            lemma_line_structure(p, v, t);
            assert(sp1 == p.len());
            assert(dot == p.len() + 1 + dec_digits(v / (SCALE as nat)).len());
            assert(path@ =~= p);
            lemma_value_recombines(v);
            assert(int_part as nat == v / (SCALE as nat));
            assert(frac as nat == v % (SCALE as nat));
            assert(ts as nat == t);
        };
    }
    Some((path, value, ts))
}

/// A fixed-point value is its integer part times the scale plus its
/// fractional part, and the product stays within range.
proof fn lemma_value_recombines(v: nat)
    requires
        v <= u128::MAX,
    ensures
        v % (SCALE as nat) < 1_000_000_000,
        (v / (SCALE as nat)) * (SCALE as nat) + v % (SCALE as nat) == v,
        (v / (SCALE as nat)) * (SCALE as nat) <= v,
        v / (SCALE as nat) <= u128::MAX,
{
    lemma_fundamental_div_mod(v as int, SCALE as int);
}

/// The exact layout of a well-formed line: where each separator sits and
/// what each segment spells.
proof fn lemma_line_structure(p: Seq<u8>, v: nat, t: nat)
    requires
        valid_path(p),
    ensures
        ({
            let line = line_spec(p, v, t);
            let a = dec_digits(v / (SCALE as nat));
            let b = dec_digits_padded(v % (SCALE as nat), 9);
            let c = dec_digits(t);
            let sp1 = p.len() as int;
            let dot = sp1 + 1 + a.len();
            let sp2 = dot + 10;
            &&& a.len() >= 1
            &&& c.len() >= 1
            &&& line.len() == sp2 + 2 + c.len()
            &&& forall|k: int| 0 <= k < sp1 ==> #[trigger] line[k] == p[k] && line[k] != SPACE
            &&& line[sp1] == SPACE
            &&& forall|k: int|
                sp1 < k < dot ==> is_digit(#[trigger] line[k]) && line[k] != DOT
            &&& line[dot] == DOT
            &&& line.subrange(sp1 + 1, dot) == a
            &&& line.subrange(dot + 1, sp2) == b
            &&& line[sp2] == SPACE
            &&& line.subrange(sp2 + 1, line.len() - 1) == c
            &&& line[line.len() - 1] == NEWLINE
        }),
{
    let line = line_spec(p, v, t);
    let a = dec_digits(v / (SCALE as nat));
    let b = dec_digits_padded(v % (SCALE as nat), 9);
    let c = dec_digits(t);
    let sp1 = p.len() as int;
    let dot = sp1 + 1 + a.len();
    let sp2 = dot + 10;
    lemma_dec_digits_props(v / (SCALE as nat));
    lemma_padded_props(v % (SCALE as nat), 9);
    lemma_dec_digits_props(t);
    let flat = p + seq![SPACE] + a + seq![DOT] + b + seq![SPACE] + c + seq![NEWLINE];
    assert(line =~= flat);
    assert(line.len() == sp2 + 2 + c.len());
    assert forall|k: int| 0 <= k < sp1 implies #[trigger] line[k] == p[k] && line[k]
        != SPACE by {
        assert(p[k] != SPACE);
    };
    assert(line[sp1] == SPACE);
    assert forall|k: int| sp1 < k < dot implies is_digit(#[trigger] line[k]) && line[k]
        != DOT by {
        assert(line[k] == a[k - sp1 - 1]);
    };
    assert(line[dot] == DOT);
    assert(line.subrange(sp1 + 1, dot) =~= a);
    assert forall|k: int| dot < k < sp2 implies is_digit(#[trigger] line[k]) by {
        assert(line[k] == b[k - dot - 1]);
    };
    assert(line.subrange(dot + 1, sp2) =~= b);
    assert(line[sp2] == SPACE);
    assert(line.subrange(sp2 + 1, line.len() - 1) =~= c);
    assert(line[line.len() - 1] == NEWLINE);
}

} // verus!
