//! Measuring the throughput of a bridge: the script that is run on it, and
//! how its answer is read.

use vstd::prelude::*;
use vstd::string::*;

verus! {

/// Run on a bridge to measure its receive-side throughput: reads the byte
/// counters of every interface but the loopback twice, one second apart, and
/// prints the difference in megabits per second with one decimal.
pub const SPEED_MEASURE: &'static str =
    "S1=$(for i in $(ls /sys/class/net | grep -v '^lo$'); \
     do cat /sys/class/net/$i/statistics/rx_bytes; done \
     | awk '{s+=$1} END{printf \"%.0f\", s}'); \
     sleep 1; \
     S2=$(for i in $(ls /sys/class/net | grep -v '^lo$'); \
     do cat /sys/class/net/$i/statistics/rx_bytes; done \
     | awk '{s+=$1} END{printf \"%.0f\", s}'); \
     awk -v s1=\"$S1\" -v s2=\"$S2\" \
     'BEGIN {diff=s2-s1; printf \"%.1f\\n\", diff*8/(1024*1024)}'";

/// A decimal digit.
pub open spec fn is_digit(c: char) -> bool {
    48 <= c as u32 <= 57
}

/// Blank, tab, line feed or carriage return.
pub open spec fn is_space(c: char) -> bool {
    c == ' ' || c == '\t' || c == '\n' || c == '\r'
}

/// The value of a run of digits read as a decimal number.
pub open spec fn digits_value(s: Seq<char>) -> nat
    decreases s.len(),
{
    if s.len() == 0 {
        0
    } else {
        (digits_value(s.drop_last()) * 10 + (s.last() as u32 - 48)) as nat
    }
}

/// Every character from `from` up to `to` is a digit.
pub open spec fn digits_between(s: Seq<char>, from: int, to: int) -> bool {
    forall|i: int| from <= i < to ==> is_digit(#[trigger] s[i])
}

/// Every character from `from` up to `to` is white space.
pub open spec fn spaces_between(s: Seq<char>, from: int, to: int) -> bool {
    forall|i: int| from <= i < to ==> is_space(#[trigger] s[i])
}

/// `s` is a measurement: white space, then digits from `a` up to `d`, then
/// either nothing or a point and digits up to `e`, then white space.
pub open spec fn measurement_shape(s: Seq<char>, a: int, d: int, e: int) -> bool {
    &&& 0 <= a < d <= e <= s.len()
    &&& spaces_between(s, 0, a)
    &&& digits_between(s, a, d)
    &&& (d == e || (s[d] == '.' && d + 1 < e && digits_between(s, d + 1, e)))
    &&& spaces_between(s, e, s.len() as int)
}

/// The first three digits behind the point, as thousandths; missing digits
/// count as zero, further digits are dropped.
pub open spec fn thousandths(s: Seq<char>, d: int, e: int) -> nat {
    let first = if d + 1 < e {
        (s[d + 1] as u32 - 48) as nat
    } else {
        0
    };
    let second = if d + 2 < e {
        (s[d + 2] as u32 - 48) as nat
    } else {
        0
    };
    let third = if d + 3 < e {
        (s[d + 3] as u32 - 48) as nat
    } else {
        0
    };
    first * 100 + second * 10 + third
}

/// The value of a measurement of the given shape, in thousandths.
pub open spec fn measurement_value(s: Seq<char>, a: int, d: int, e: int) -> nat {
    digits_value(s.subrange(a, d)) * 1000 + thousandths(s, d, e)
}

/// Whether a text is a measurement.
pub open spec fn is_measurement(s: Seq<char>) -> bool {
    exists|a: int, d: int, e: int| measurement_shape(s, a, d, e)
}

/// What a measurement says, in thousandths of a megabit per second.
pub open spec fn measurement_of(s: Seq<char>) -> nat {
    let (a, d, e) = choose|a: int, d: int, e: int| measurement_shape(s, a, d, e);
    measurement_value(s, a, d, e)
}

/// A text has the shape of a measurement in one way at most.
pub proof fn lemma_measurement_shape_unique(s: Seq<char>, a: int, d: int, e: int)
    requires
        measurement_shape(s, a, d, e),
    ensures
        is_measurement(s),
        measurement_of(s) == measurement_value(s, a, d, e),
{
    let (a2, d2, e2) = choose|a: int, d: int, e: int| measurement_shape(s, a, d, e);
    assert(measurement_shape(s, a2, d2, e2));
    // the first character that is no white space
    if a < a2 {
        assert(is_space(s[a]) && is_digit(s[a]));
    }
    if a2 < a {
        assert(is_space(s[a2]) && is_digit(s[a2]));
    }
    // the first character behind it that is no digit
    if d < d2 {
        assert(is_digit(s[d]));
        if d < e {
            assert(s[d] == '.');
        } else {
            assert(is_space(s[d]));
        }
    }
    if d2 < d {
        assert(is_digit(s[d2]));
        if d2 < e2 {
            assert(s[d2] == '.');
        } else {
            assert(is_space(s[d2]));
        }
    }
    // the end of the digits behind the point
    if e < e2 {
        assert(is_space(s[e]));
        if e == d {
            assert(s[d2] == '.');
        } else {
            assert(is_digit(s[e]));
        }
    }
    if e2 < e {
        assert(is_space(s[e2]));
        if e2 == d2 {
            assert(s[d] == '.');
        } else {
            assert(is_digit(s[e2]));
        }
    }
}

/// Reads the answer of the measuring script.  `None` for a text that is not a
/// measurement, or whose value in thousandths does not fit in 64 bits.
pub fn parse_mbps(text: &str) -> (out: Option<u64>)
    ensures
        out is Some <==> is_measurement(text@) && measurement_of(text@) <= u64::MAX,
        out matches Some(v) ==> v == measurement_of(text@),
{
    let n = text.unicode_len();
    let mut a: usize = 0;
    while a < n && char_is_space(text.get_char(a))
        invariant
            n == text@.len(),
            a <= n,
            spaces_between(text@, 0, a as int),
        decreases n - a,
    {
        a += 1;
    }
    if a == n || !char_is_digit(text.get_char(a)) {
        proof {
            assert forall|a2: int, d2: int, e2: int| !measurement_shape(text@, a2, d2, e2) by {
                if measurement_shape(text@, a2, d2, e2) {
                    if a2 < a {
                        assert(is_space(text@[a2]) && is_digit(text@[a2]));
                    } else if a < a2 {
                        assert(is_space(text@[a as int]));
                    } else {
                        assert(is_digit(text@[a2]));
                    }
                }
            }
        }
        return None;
    }
    let mut whole: Option<u64> = Some(0);
    let mut d: usize = a;
    assert(text@.subrange(a as int, a as int) =~= Seq::<char>::empty());
    while d < n && char_is_digit(text.get_char(d))
        invariant
            n == text@.len(),
            a <= d <= n,
            digits_between(text@, a as int, d as int),
            whole matches Some(w) ==> w == digits_value(text@.subrange(a as int, d as int)),
            whole is None ==> digits_value(text@.subrange(a as int, d as int)) * 1000 > u64::MAX,
        decreases n - d,
    {
        let digit: u64 = (text.get_char(d) as u32 - 48) as u64;
        proof {
            let longer = text@.subrange(a as int, d + 1);
            assert(longer.drop_last() =~= text@.subrange(a as int, d as int));
            assert(longer.last() == text@[d as int]);
        }
        whole = match whole {
            Some(w) => match w.checked_mul(10) {
                Some(t) => t.checked_add(digit),
                None => None,
            },
            None => None,
        };
        d += 1;
    }
    let mut frac: u64 = 0;
    let mut e: usize = d;
    if d < n && text.get_char(d) == '.' {
        e = d + 1;
        while e < n && char_is_digit(text.get_char(e))
            invariant
                n == text@.len(),
                d < e <= n,
                digits_between(text@, d + 1, e as int),
                frac == thousandths(text@, d as int, e as int),
                frac < 1000,
            decreases n - e,
        {
            let digit: u64 = (text.get_char(e) as u32 - 48) as u64;
            if e == d + 1 {
                frac = digit * 100;
            } else if e == d + 2 {
                frac = frac + digit * 10;
            } else if e == d + 3 {
                frac = frac + digit;
            }
            e += 1;
        }
        if e == d + 1 {
            proof {
                assert forall|a2: int, d2: int, e2: int| !measurement_shape(text@, a2, d2, e2) by {
                    if measurement_shape(text@, a2, d2, e2) {
                        lemma_shape_starts(text@, a as int, d as int, a2, d2, e2);
                        if e2 > d2 + 1 {
                            assert(is_digit(text@[d + 1]));
                        } else {
                            assert(is_space(text@[d as int]));
                        }
                    }
                }
            }
            return None;
        }
    }
    let mut z: usize = e;
    while z < n && char_is_space(text.get_char(z))
        invariant
            n == text@.len(),
            e <= z <= n,
            spaces_between(text@, e as int, z as int),
        decreases n - z,
    {
        z += 1;
    }
    if z < n {
        proof {
            assert forall|a2: int, d2: int, e2: int| !measurement_shape(text@, a2, d2, e2) by {
                if measurement_shape(text@, a2, d2, e2) {
                    lemma_shape_starts(text@, a as int, d as int, a2, d2, e2);
                    if e2 < e {
                        assert(is_space(text@[e2]));
                        assert(is_digit(text@[e2]) || text@[e2] == '.');
                    } else if e < e2 {
                        if e == d {
                            assert(text@[d as int] == '.');
                        } else {
                            assert(is_digit(text@[e as int]));
                        }
                    } else {
                        assert(is_space(text@[z as int]));
                    }
                }
            }
        }
        return None;
    }
    proof {
        assert(measurement_shape(text@, a as int, d as int, e as int));
        lemma_measurement_shape_unique(text@, a as int, d as int, e as int);
    }
    match whole {
        Some(w) => match w.checked_mul(1000) {
            Some(t) => t.checked_add(frac),
            None => None,
        },
        None => None,
    }
}

/// Any shape that a text has starts where its first digits start and has its
/// whole part end where they end.
proof fn lemma_shape_starts(s: Seq<char>, a: int, d: int, a2: int, d2: int, e2: int)
    requires
        0 <= a < d <= s.len(),
        spaces_between(s, 0, a),
        digits_between(s, a, d),
        d == s.len() || !is_digit(s[d]),
        measurement_shape(s, a2, d2, e2),
    ensures
        a2 == a,
        d2 == d,
{
    if a2 < a {
        assert(is_space(s[a2]) && is_digit(s[a2]));
    }
    if a < a2 {
        assert(is_space(s[a]) && is_digit(s[a]));
    }
    if d2 < d {
        assert(is_digit(s[d2]));
        if d2 < e2 {
            assert(s[d2] == '.');
        } else {
            assert(is_space(s[d2]));
        }
    }
    if d < d2 {
        assert(is_digit(s[d]));
    }
}

fn char_is_space(c: char) -> (out: bool)
    ensures
        out == is_space(c),
{
    c == ' ' || c == '\t' || c == '\n' || c == '\r'
}

fn char_is_digit(c: char) -> (out: bool)
    ensures
        out == is_digit(c),
{
    let code: u32 = c as u32;
    48 <= code && code <= 57
}

/// Reads the answers of the measuring script from all bridges of a group.
/// `None` as soon as one of them cannot be read.
pub fn read_measurements(answers: &Vec<String>) -> (out: Option<Vec<u64>>)
    ensures
        out is Some <==> forall|k: int|
            0 <= k < answers@.len() ==> is_measurement((#[trigger] answers@[k])@)
                && measurement_of(answers@[k]@) <= u64::MAX,
        out matches Some(samples) ==> samples@.len() == answers@.len() && forall|k: int|
            0 <= k < answers@.len() ==> (#[trigger] samples@[k]) == measurement_of(answers@[k]@),
{
    let mut samples: Vec<u64> = Vec::new();
    let mut i: usize = 0;
    while i < answers.len()
        invariant
            i <= answers@.len(),
            samples@.len() == i,
            forall|k: int|
                0 <= k < i ==> is_measurement((#[trigger] answers@[k])@) && measurement_of(
                    answers@[k]@,
                ) <= u64::MAX,
            forall|k: int| 0 <= k < i ==> (#[trigger] samples@[k]) == measurement_of(answers@[k]@),
        decreases answers@.len() - i,
    {
        match parse_mbps(answers[i].as_str()) {
            Some(v) => {
                samples.push(v);
            },
            None => {
                assert(!(is_measurement(answers@[i as int]@) && measurement_of(answers@[i as int]@)
                    <= u64::MAX));
                return None;
            },
        }
        i += 1;
    }
    Some(samples)
}

} // verus!
