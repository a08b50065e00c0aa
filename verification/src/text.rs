//! Small verified operations on text.

use vstd::prelude::*;
use vstd::string::*;
use vstd::utf8::{encode_utf8, encode_utf8_decode_utf8};

verus! {

/// `prefix` stands at the start of `s`.
pub open spec fn has_prefix(s: Seq<char>, prefix: Seq<char>) -> bool {
    prefix.len() <= s.len() && s.subrange(0, prefix.len() as int) == prefix
}

/// `needle` occurs in `s` at position `at`.
pub open spec fn occurs_at(s: Seq<char>, needle: Seq<char>, at: int) -> bool {
    0 <= at && at + needle.len() <= s.len() && s.subrange(at, at + needle.len()) == needle
}

/// `needle` occurs somewhere in `s`.
pub open spec fn occurs_in(s: Seq<char>, needle: Seq<char>) -> bool {
    exists|at: int| occurs_at(s, needle, at)
}

/// `a` comes before `b` in the byte-wise lexicographic order.
pub open spec fn bytes_lt(a: Seq<u8>, b: Seq<u8>) -> bool {
    exists|k: int| first_gap(a, b, k)
}

/// `a` and `b` agree on their first `k` bytes, and there `a` ends or holds
/// the smaller byte.
pub open spec fn first_gap(a: Seq<u8>, b: Seq<u8>, k: int) -> bool {
    &&& 0 <= k <= a.len()
    &&& k < b.len()
    &&& forall|i: int| 0 <= i < k ==> a[i] == b[i]
    &&& (k == a.len() || a[k] < b[k])
}

/// `a` comes before `b` in the order of their UTF-8 encodings.
pub open spec fn text_before(a: Seq<char>, b: Seq<char>) -> bool {
    bytes_lt(encode_utf8(a), encode_utf8(b))
}

/// The order on byte strings is transitive.
pub proof fn lemma_bytes_lt_transitive(a: Seq<u8>, b: Seq<u8>, c: Seq<u8>)
    requires
        bytes_lt(a, b),
        bytes_lt(b, c),
    ensures
        bytes_lt(a, c),
{
    let k1 = choose|k: int| first_gap(a, b, k);
    let k2 = choose|k: int| first_gap(b, c, k);
    if k1 <= k2 {
        assert(first_gap(a, c, k1));
    } else {
        assert(first_gap(a, c, k2));
    }
}

/// No byte string comes before itself, and of two none comes before the
/// other both ways.
pub proof fn lemma_bytes_lt_asymmetric(a: Seq<u8>, b: Seq<u8>)
    ensures
        !(bytes_lt(a, b) && bytes_lt(b, a)),
{
    if bytes_lt(a, b) && bytes_lt(b, a) {
        let k1 = choose|k: int| first_gap(a, b, k);
        let k2 = choose|k: int| first_gap(b, a, k);
        if k1 < k2 {
            assert(a[k1] == b[k1]);
        } else if k2 < k1 {
            assert(a[k2] == b[k2]);
        }
    }
}

/// Of two different byte strings one comes before the other.
pub proof fn lemma_bytes_lt_connected(a: Seq<u8>, b: Seq<u8>)
    requires
        a != b,
    ensures
        bytes_lt(a, b) || bytes_lt(b, a),
{
    lemma_common_prefix(a, b, 0);
}

proof fn lemma_common_prefix(a: Seq<u8>, b: Seq<u8>, k: int)
    requires
        0 <= k <= a.len(),
        k <= b.len(),
        forall|i: int| 0 <= i < k ==> a[i] == b[i],
        a != b,
    ensures
        bytes_lt(a, b) || bytes_lt(b, a),
    decreases a.len() - k,
{
    if k == a.len() {
        if k == b.len() {
            assert(a =~= b);
        } else {
            assert(first_gap(a, b, k));
        }
    } else if k == b.len() {
        assert(first_gap(b, a, k));
    } else if a[k] < b[k] {
        assert(first_gap(a, b, k));
    } else if b[k] < a[k] {
        assert(first_gap(b, a, k));
    } else {
        lemma_common_prefix(a, b, k + 1);
    }
}

/// Of two different texts one comes before the other.
pub proof fn lemma_text_before_connected(a: Seq<char>, b: Seq<char>)
    requires
        a != b,
    ensures
        text_before(a, b) || text_before(b, a),
{
    encode_utf8_decode_utf8(a);
    encode_utf8_decode_utf8(b);
    lemma_bytes_lt_connected(encode_utf8(a), encode_utf8(b));
}

/// Whether two texts are the same.
pub fn text_eq(a: &str, b: &str) -> (out: bool)
    ensures
        out == (a@ == b@),
{
    let x = String::from_str(a);
    let y = String::from_str(b);
    x == y
}

/// Whether `a` comes before `b` in the order of their UTF-8 encodings.
pub fn text_lt(a: &str, b: &str) -> (out: bool)
    ensures
        out == text_before(a@, b@),
{
    let x = a.as_bytes();
    let y = b.as_bytes();
    let mut k: usize = 0;
    while k < x.len() && k < y.len()
        invariant
            x@ == encode_utf8(a@),
            y@ == encode_utf8(b@),
            k <= x@.len(),
            k <= y@.len(),
            forall|i: int| 0 <= i < k ==> x@[i] == y@[i],
        decreases x@.len() - k,
    {
        if x[k] != y[k] {
            let less = x[k] < y[k];
            proof {
                if less {
                    assert(first_gap(x@, y@, k as int));
                    assert(bytes_lt(x@, y@));
                } else {
                    assert(first_gap(y@, x@, k as int));
                    assert(bytes_lt(y@, x@));
                    lemma_bytes_lt_asymmetric(x@, y@);
                    assert(!bytes_lt(x@, y@));
                }
            }
            return less;
        }
        k += 1;
    }
    let shorter = k < y.len();
    proof {
        if shorter {
            assert(first_gap(x@, y@, k as int));
        } else {
            if bytes_lt(x@, y@) {
                let g = choose|g: int| first_gap(x@, y@, g);
                assert(g < k);
            }
        }
    }
    shorter
}

/// The rest of `s` behind `prefix`, or `None` if `s` does not start with it.
pub fn strip_prefix(s: &str, prefix: &str) -> (out: Option<String>)
    ensures
        out is Some <==> has_prefix(s@, prefix@),
        out matches Some(rest) ==> s@ == prefix@ + rest@,
{
    let n = prefix.unicode_len();
    let m = s.unicode_len();
    if m < n {
        return None;
    }
    if !text_eq(s.substring_char(0, n), prefix) {
        return None;
    }
    let rest = String::from_str(s.substring_char(n, m));
    assert(s@ =~= prefix@ + rest@);
    Some(rest)
}

/// Whether `needle` occurs somewhere in `s`.
pub fn contains(s: &str, needle: &str) -> (out: bool)
    ensures
        out == occurs_in(s@, needle@),
{
    let n = needle.unicode_len();
    let m = s.unicode_len();
    if m < n {
        return false;
    }
    let last: usize = m - n;
    let mut at: usize = 0;
    while at < last
        invariant
            m == s@.len(),
            n == needle@.len(),
            last == m - n,
            at <= last,
            forall|k: int| 0 <= k < at ==> !occurs_at(s@, needle@, k),
        decreases last - at,
    {
        if text_eq(s.substring_char(at, at + n), needle) {
            assert(occurs_at(s@, needle@, at as int));
            return true;
        }
        at += 1;
    }
    let found = text_eq(s.substring_char(last, m), needle);
    proof {
        if found {
            assert(occurs_at(s@, needle@, last as int));
        }
    }
    found
}

/// `a` followed by `b`.
pub fn join(a: &str, b: &str) -> (out: String)
    ensures
        out@ == a@ + b@,
{
    String::from_str(a).concat(b)
}

/// The character of a decimal digit.
pub open spec fn digit_char(d: int) -> char {
    if d == 0 {
        '0'
    } else if d == 1 {
        '1'
    } else if d == 2 {
        '2'
    } else if d == 3 {
        '3'
    } else if d == 4 {
        '4'
    } else if d == 5 {
        '5'
    } else if d == 6 {
        '6'
    } else if d == 7 {
        '7'
    } else if d == 8 {
        '8'
    } else {
        '9'
    }
}

/// A number in decimal notation, without leading zeros.
pub open spec fn decimal(n: nat) -> Seq<char>
    decreases n,
{
    if n < 10 {
        seq![digit_char(n as int)]
    } else {
        decimal(n / 10).push(digit_char((n % 10) as int))
    }
}

/// The text of one decimal digit.
fn digit_text(d: u64) -> (out: &'static str)
    requires
        d < 10,
    ensures
        out@ == seq![digit_char(d as int)],
{
    proof {
        reveal_strlit("0");
        reveal_strlit("1");
        reveal_strlit("2");
        reveal_strlit("3");
        reveal_strlit("4");
        reveal_strlit("5");
        reveal_strlit("6");
        reveal_strlit("7");
        reveal_strlit("8");
        reveal_strlit("9");
    }
    let out = if d == 0 {
        "0"
    } else if d == 1 {
        "1"
    } else if d == 2 {
        "2"
    } else if d == 3 {
        "3"
    } else if d == 4 {
        "4"
    } else if d == 5 {
        "5"
    } else if d == 6 {
        "6"
    } else if d == 7 {
        "7"
    } else if d == 8 {
        "8"
    } else {
        "9"
    };
    assert(out@ =~= seq![digit_char(d as int)]);
    out
}

/// Writes a number in decimal notation.
pub fn decimal_text(n: u64) -> (out: String)
    ensures
        out@ == decimal(n as nat),
    decreases n,
{
    if n < 10 {
        String::from_str(digit_text(n))
    } else {
        let head = decimal_text(n / 10);
        let out = head.concat(digit_text(n % 10));
        assert(out@ =~= decimal((n / 10) as nat).push(digit_char((n % 10) as int)));
        out
    }
}

} // verus!
