use vstd::prelude::*;

verus! {

/// The value of `c` as a digit of `radix` (both letter cases), if it is one.
pub open spec fn digit_value(c: char, radix: nat) -> Option<nat> {
    let v: int = if '0' <= c && c <= '9' {
        c as int - '0' as int
    } else if 'a' <= c && c <= 'z' {
        c as int - 'a' as int + 10
    } else if 'A' <= c && c <= 'Z' {
        c as int - 'A' as int + 10
    } else {
        radix as int
    };
    if v < radix {
        Some(v as nat)
    } else {
        None
    }
}

/// Every character of `s` is a digit of `radix`.
pub open spec fn all_digits(s: Seq<char>, radix: nat) -> bool {
    forall|i: int| 0 <= i < s.len() ==> (#[trigger] digit_value(s[i], radix)) is Some
}

/// The value of the digits `s`, most significant first.
pub open spec fn digits_value(s: Seq<char>, radix: nat) -> nat
    decreases s.len(),
{
    if s.len() == 0 {
        0
    } else {
        digits_value(s.drop_last(), radix) * radix + digit_value(s.last(), radix).unwrap_or(0)
    }
}

/// An unsigned number in `radix`, with an optional leading `+`, that fits in
/// 64 bits.
pub open spec fn parse_u64_spec(s: Seq<char>, radix: nat) -> Option<u64> {
    let body = if s.len() > 0 && s[0] == '+' {
        s.drop_first()
    } else {
        s
    };
    if body.len() > 0 && all_digits(body, radix) && digits_value(body, radix) <= u64::MAX {
        Some(digits_value(body, radix) as u64)
    } else {
        None
    }
}

/// A signed number in `radix`, with an optional leading `+` or `-`, that fits
/// in 64 bits.
pub open spec fn parse_i64_spec(s: Seq<char>, radix: nat) -> Option<i64> {
    let neg = s.len() > 0 && s[0] == '-';
    let body = if s.len() > 0 && (s[0] == '+' || s[0] == '-') {
        s.drop_first()
    } else {
        s
    };
    let v = digits_value(body, radix) as int;
    if body.len() > 0 && all_digits(body, radix) {
        if neg && -v >= i64::MIN {
            Some((-v) as i64)
        } else if !neg && v <= i64::MAX {
            Some(v as i64)
        } else {
            None
        }
    } else {
        None
    }
}

fn digit_of(c: char, radix: u32) -> (r: Option<u32>)
    requires
        2 <= radix <= 36,
    ensures
        match r {
            Some(v) => digit_value(c, radix as nat) == Some(v as nat),
            None => digit_value(c, radix as nat) is None,
        },
{
    let v: u32 = if '0' <= c && c <= '9' {
        (c as u32) - ('0' as u32)
    } else if 'a' <= c && c <= 'z' {
        (c as u32) - ('a' as u32) + 10
    } else if 'A' <= c && c <= 'Z' {
        (c as u32) - ('A' as u32) + 10
    } else {
        radix
    };
    if v < radix {
        Some(v)
    } else {
        None
    }
}

proof fn lemma_digits_prefix(s: Seq<char>, radix: nat, i: int)
    requires
        0 <= i < s.len(),
    ensures
        digits_value(s.subrange(0, i + 1), radix) == digits_value(s.subrange(0, i), radix)
            * radix + digit_value(s[i], radix).unwrap_or(0),
{
    assert(s.subrange(0, i + 1).drop_last() =~= s.subrange(0, i));
}

proof fn lemma_digits_grow(s: Seq<char>, radix: nat, i: int, j: int)
    requires
        0 <= i <= j <= s.len(),
        radix >= 1,
    ensures
        digits_value(s.subrange(0, i), radix) <= digits_value(s.subrange(0, j), radix),
    decreases j - i,
{
    if i < j {
        lemma_digits_grow(s, radix, i, j - 1);
        lemma_digits_prefix(s, radix, j - 1);
        let a = digits_value(s.subrange(0, j - 1), radix);
        assert(a <= a * radix) by (nonlinear_arith)
            requires
                radix >= 1,
        ;
    }
}

/// The value of the digits `s` in `radix`, when all are digits and it fits.
fn parse_magnitude(s: &[char], radix: u32) -> (r: Option<u64>)
    requires
        2 <= radix <= 36,
    ensures
        match r {
            Some(v) => all_digits(s@, radix as nat) && v == digits_value(s@, radix as nat),
            None => !all_digits(s@, radix as nat) || digits_value(s@, radix as nat) > u64::MAX,
        },
{
    let mut acc: u64 = 0;
    let mut i: usize = 0;
    assert(s@.subrange(0, 0) =~= Seq::<char>::empty());
    while i < s.len()
        invariant
            2 <= radix <= 36,
            i <= s@.len(),
            acc == digits_value(s@.subrange(0, i as int), radix as nat),
            forall|k: int| 0 <= k < i ==> (#[trigger] digit_value(s@[k], radix as nat)) is Some,
        decreases s.len() - i,
    {
        let d = match digit_of(s[i], radix) {
            Some(d) => d,
            None => {
                return None;
            },
        };
        proof {
            lemma_digits_prefix(s@, radix as nat, i as int);
        }
        if acc > (u64::MAX - d as u64) / (radix as u64) {
            proof {
                let a = acc as int;
                let rr = radix as int;
                let dd = d as int;
                assert(a * rr + dd > u64::MAX) by (nonlinear_arith)
                    requires
                        a > (u64::MAX - dd) / rr,
                        rr >= 2,
                        0 <= dd,
                ;
                lemma_digits_grow(s@, radix as nat, i as int + 1, s@.len() as int);
                assert(s@.subrange(0, s@.len() as int) =~= s@);
            }
            return None;
        }
        proof {
            let a = acc as int;
            let rr = radix as int;
            let dd = d as int;
            assert(a * rr + dd <= u64::MAX) by (nonlinear_arith)
                requires
                    a <= (u64::MAX - dd) / rr,
                    rr >= 2,
                    0 <= dd <= u64::MAX,
            ;
        }
        acc = acc * (radix as u64) + d as u64;
        i += 1;
    }
    assert(s@.subrange(0, s@.len() as int) =~= s@);
    Some(acc)
}

/// Parses an unsigned 64-bit number in `radix`, as `u64::from_str_radix` does.
pub fn parse_u64(s: &[char], radix: u32) -> (r: Option<u64>)
    requires
        2 <= radix <= 36,
    ensures
        r == parse_u64_spec(s@, radix as nat),
{
    let body: &[char] = if s.len() > 0 && s[0] == '+' {
        &s[1..s.len()]
    } else {
        s
    };
    assert(s.len() > 0 && s@[0] == '+' ==> body@ =~= s@.drop_first());
    if body.len() == 0 {
        return None;
    }
    parse_magnitude(body, radix)
}

/// Parses a signed 64-bit number in `radix`, as `i64::from_str_radix` does.
pub fn parse_i64(s: &[char], radix: u32) -> (r: Option<i64>)
    requires
        2 <= radix <= 36,
    ensures
        r == parse_i64_spec(s@, radix as nat),
{
    let neg = s.len() > 0 && s[0] == '-';
    let body: &[char] = if s.len() > 0 && (s[0] == '+' || s[0] == '-') {
        &s[1..s.len()]
    } else {
        s
    };
    assert(s.len() > 0 && (s@[0] == '+' || s@[0] == '-') ==> body@ =~= s@.drop_first());
    if body.len() == 0 {
        return None;
    }
    match parse_magnitude(body, radix) {
        Some(v) => {
            if neg {
                if v <= 0x8000_0000_0000_0000u64 {
                    if v == 0x8000_0000_0000_0000u64 {
                        Some(i64::MIN)
                    } else {
                        Some(-(v as i64))
                    }
                } else {
                    None
                }
            } else if v <= i64::MAX as u64 {
                Some(v as i64)
            } else {
                None
            }
        },
        None => None,
    }
}

} // verus!
