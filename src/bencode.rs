//! Finds the exact bytes of the `info` value in a bencoded descriptor, so that
//! the info hash covers them as they appeared, not a re-encoding.
use vstd::prelude::*;

verus! {

pub open spec fn is_digit(c: u8) -> bool {
    48 <= c <= 57
}

/// The end of the run of decimal digits that starts at `p`.
pub open spec fn digits_end(b: Seq<u8>, p: int) -> int
    decreases b.len() - p,
{
    if 0 <= p < b.len() && is_digit(b[p]) {
        digits_end(b, p + 1)
    } else {
        p
    }
}

/// The number that the digits `b[p..q]` write.
pub open spec fn digits_value(b: Seq<u8>, p: int, q: int) -> nat
    decreases q - p,
{
    if q <= p {
        0
    } else {
        digits_value(b, p, q - 1) * 10 + (b[q - 1] - 48) as nat
    }
}

/// The end of the byte string `<length>:<bytes>` that starts at `p`.
pub open spec fn string_end(b: Seq<u8>, p: int) -> Option<int> {
    let q = digits_end(b, p);
    if 0 <= p < q && q < b.len() && b[q] == 58 && q + 1 + digits_value(b, p, q) <= b.len() {
        Some(q + 1 + digits_value(b, p, q))
    } else {
        None
    }
}

/// The end of an integer's `-?<digits>e`, which starts at `p`.
pub open spec fn int_end(b: Seq<u8>, p: int) -> Option<int> {
    let s = if 0 <= p < b.len() && b[p] == 45 {
        p + 1
    } else {
        p
    };
    let q = digits_end(b, s);
    if 0 <= s < q && q < b.len() && b[q] == 101 {
        Some(q + 1)
    } else {
        None
    }
}

/// The end of the bencoded value that starts at `p`.
pub open spec fn value_end(b: Seq<u8>, p: int) -> Option<int>
    decreases b.len() - p, 0int,
{
    if p < 0 || p >= b.len() {
        None
    } else if b[p] == 105 {
        int_end(b, p + 1)
    } else if is_digit(b[p]) {
        string_end(b, p)
    } else if b[p] == 108 {
        items_end(b, p + 1, false)
    } else if b[p] == 100 {
        items_end(b, p + 1, true)
    } else {
        None
    }
}

/// The end of the list items (or the dictionary's key-value pairs) that
/// start at `p`, closing `e` included.
pub open spec fn items_end(b: Seq<u8>, p: int, dict: bool) -> Option<int>
    decreases b.len() - p, 1int,
{
    if p < 0 || p >= b.len() {
        None
    } else if b[p] == 101 {
        Some(p + 1)
    } else {
        let k = if dict {
            string_end(b, p)
        } else {
            Some(p)
        };
        match k {
            Some(k) => if p <= k < b.len() {
                match value_end(b, k) {
                    Some(v) => if p < v <= b.len() {
                        items_end(b, v, dict)
                    } else {
                        None
                    },
                    None => None,
                }
            } else {
                None
            },
            None => None,
        }
    }
}

/// The key `info`.
pub open spec fn info_key() -> Seq<u8> {
    seq![105u8, 110, 102, 111]
}

/// The bytes of the byte string that starts at `p` and ends at `e`.
pub open spec fn string_bytes(b: Seq<u8>, p: int, e: int) -> Seq<u8> {
    b.subrange(digits_end(b, p) + 1, e)
}

/// The span of the value under the first `info` key among the dictionary
/// pairs that start at `p`.
pub open spec fn find_info(b: Seq<u8>, p: int) -> Option<(int, int)>
    decreases b.len() - p,
{
    if p < 0 || p >= b.len() || b[p] == 101 {
        None
    } else {
        match string_end(b, p) {
            Some(k) => match value_end(b, k) {
                Some(v) => if p < v <= b.len() {
                    if string_bytes(b, p, k) == info_key() {
                        Some((k, v))
                    } else {
                        find_info(b, v)
                    }
                } else {
                    None
                },
                None => None,
            },
            None => None,
        }
    }
}

/// Where the `info` value lies in a descriptor that is one well-formed
/// bencoded dictionary.
pub open spec fn info_span(b: Seq<u8>) -> Option<(int, int)> {
    if b.len() > 0 && b[0] == 100 && value_end(b, 0) == Some(b.len() as int) {
        find_info(b, 1)
    } else {
        None
    }
}

/// The bytes of the `info` value, where `info_span` finds one.
pub open spec fn info_bytes(b: Seq<u8>) -> Seq<u8> {
    match info_span(b) {
        Some((s, e)) => b.subrange(s, e),
        None => Seq::empty(),
    }
}

proof fn lemma_digits_end_bounds(b: Seq<u8>, p: int)
    requires
        0 <= p <= b.len(),
    ensures
        p <= digits_end(b, p) <= b.len(),
    decreases b.len() - p,
{
    if p < b.len() && is_digit(b[p]) {
        lemma_digits_end_bounds(b, p + 1);
    }
}

proof fn lemma_digits_value_monotone(b: Seq<u8>, p: int, q: int, r: int)
    requires
        p <= q <= r,
        forall|i: int| p <= i < r ==> #[trigger] is_digit(b[i]),
    ensures
        digits_value(b, p, q) <= digits_value(b, p, r),
    decreases r - q,
{
    if q < r {
        lemma_digits_value_monotone(b, p, q, r - 1);
    }
}

fn scan_digits(b: &[u8], p: usize) -> (q: usize)
    requires
        p <= b@.len(),
    ensures
        q == digits_end(b@, p as int),
        p <= q <= b@.len(),
        forall|i: int| p <= i < q ==> #[trigger] is_digit(b@[i]),
{
    let mut q = p;
    while q < b.len() && 48 <= b[q] && b[q] <= 57
        invariant
            p <= q <= b@.len(),
            digits_end(b@, p as int) == digits_end(b@, q as int),
            forall|i: int| p <= i < q ==> #[trigger] is_digit(b@[i]),
        decreases b@.len() - q,
    {
        q += 1;
    }
    q
}

fn string_end_exec(b: &[u8], p: usize) -> (r: Option<usize>)
    requires
        p <= b@.len(),
    ensures
        match string_end(b@, p as int) {
            Some(e) => r == Some(e as usize),
            None => r is None,
        },
{
    let q = scan_digits(b, p);
    if !(p < q && q < b.len() && b[q] == 58) {
        return None;
    }
    let len = b.len();
    let mut n: usize = 0;
    let mut i = p;
    while i < q
        invariant
            p <= i <= q,
            p < q < len,
            q == digits_end(b@, p as int),
            b@[q as int] == 58,
            len == b@.len(),
            n == digits_value(b@, p as int, i as int),
            n <= len,
            forall|k: int| p <= k < q ==> #[trigger] is_digit(b@[k]),
        decreases q - i,
    {
        assert(is_digit(b@[i as int]));
        let d = (b[i] - 48) as usize;
        if n > len / 10 {
            proof {
                assert(n * 10 + d > len) by (nonlinear_arith)
                    requires
                        n > len / 10,
                ;
                assert(d == (b@[i as int] - 48) as nat);
                assert(digits_value(b@, p as int, i as int + 1) == n * 10 + d);
                lemma_digits_value_monotone(b@, p as int, i as int + 1, q as int);
            }
            return None;
        }
        assert(n * 10 <= len) by (nonlinear_arith)
            requires
                n <= len / 10,
        ;
        let m = n * 10;
        if d > len - m {
            proof {
                assert(digits_value(b@, p as int, i as int + 1) == digits_value(b@, p as int, i as int) * 10 + (b@[i as int] - 48) as nat);
                lemma_digits_value_monotone(b@, p as int, i as int + 1, q as int);
            }
            return None;
        }
        n = m + d;
        i += 1;
    }
    if n > len - q - 1 {
        return None;
    }
    Some(q + 1 + n)
}

fn int_end_exec(b: &[u8], p: usize) -> (r: Option<usize>)
    requires
        p <= b@.len(),
    ensures
        match int_end(b@, p as int) {
            Some(e) => r == Some(e as usize),
            None => r is None,
        },
{
    let s = if p < b.len() && b[p] == 45 {
        p + 1
    } else {
        p
    };
    let q = scan_digits(b, s);
    if s < q && q < b.len() && b[q] == 101 {
        Some(q + 1)
    } else {
        None
    }
}

fn value_end_exec(b: &[u8], p: usize) -> (r: Option<usize>)
    ensures
        match value_end(b@, p as int) {
            Some(e) => r == Some(e as usize) && p < e <= b@.len(),
            None => r is None,
        },
    decreases b@.len() - p, 0int,
{
    proof {
        if value_end(b@, p as int) is Some {
            lemma_value_start(b@, p as int);
        }
    }
    if p >= b.len() {
        None
    } else if b[p] == 105 {
        proof {
            lemma_value_bounds(b@, p as int);
        }
        int_end_exec(b, p + 1)
    } else if 48 <= b[p] && b[p] <= 57 {
        proof {
            lemma_value_bounds(b@, p as int);
        }
        string_end_exec(b, p)
    } else if b[p] == 108 {
        items_end_exec(b, p + 1, false)
    } else if b[p] == 100 {
        items_end_exec(b, p + 1, true)
    } else {
        None
    }
}

fn items_end_exec(b: &[u8], p: usize, dict: bool) -> (r: Option<usize>)
    ensures
        match items_end(b@, p as int, dict) {
            Some(e) => r == Some(e as usize) && p < e <= b@.len(),
            None => r is None,
        },
    decreases b@.len() - p, 1int,
{
    proof {
        if items_end(b@, p as int, dict) is Some {
            lemma_items_start(b@, p as int, dict);
        }
    }
    if p >= b.len() {
        return None;
    }
    if b[p] == 101 {
        return Some(p + 1);
    }
    let k = if dict {
        string_end_exec(b, p)
    } else {
        Some(p)
    };
    proof {
        if dict {
            lemma_value_bounds(b@, p as int);
        }
    }
    match k {
        Some(k) => {
            if p <= k && k < b.len() {
                match value_end_exec(b, k) {
                    Some(v) => {
                        if p < v && v <= b.len() {
                            items_end_exec(b, v, dict)
                        } else {
                            None
                        }
                    },
                    None => None,
                }
            } else {
                None
            }
        },
        None => None,
    }
}

/// `string_end` and `int_end` stay within the input.
proof fn lemma_value_bounds(b: Seq<u8>, p: int)
    requires
        0 <= p < b.len(),
    ensures
        string_end(b, p) matches Some(e) ==> e <= b.len(),
        int_end(b, p + 1) matches Some(e) ==> e <= b.len(),
{
    lemma_digits_end_bounds(b, p);
    lemma_digits_end_bounds(b, p + 1);
    if p + 1 < b.len() {
        lemma_digits_end_bounds(b, p + 2);
    }
}

fn find_info_exec(b: &[u8], p: usize) -> (r: Option<(usize, usize)>)
    ensures
        match find_info(b@, p as int) {
            Some((s, e)) => r == Some((s as usize, e as usize)) && 0 <= s <= e <= b@.len(),
            None => r is None,
        },
    decreases b@.len() - p,
{
    if p >= b.len() || b[p] == 101 {
        return None;
    }
    proof {
        lemma_value_bounds(b@, p as int);
    }
    match string_end_exec(b, p) {
        Some(k) => match value_end_exec(b, k) {
            Some(v) => {
                if p < v && v <= b.len() {
                    let q = scan_digits(b, p);
                    if k - q - 1 == 4 && b[q + 1] == 105 && b[q + 2] == 110 && b[q + 3] == 102
                        && b[q + 4] == 111 {
                        assert(string_bytes(b@, p as int, k as int) =~= info_key());
                        proof {
                            lemma_value_start(b@, k as int);
                        }
                        Some((k, v))
                    } else {
                        assert(string_bytes(b@, p as int, k as int) != info_key()) by {
                            if k - q - 1 == 4 {
                                let s = string_bytes(b@, p as int, k as int);
                                assert(s[0] == b@[q + 1] && s[1] == b@[q + 2] && s[2] == b@[q + 3]
                                    && s[3] == b@[q + 4]);
                            } else {
                                assert(string_bytes(b@, p as int, k as int).len() != 4);
                            }
                        }
                        find_info_exec(b, v)
                    }
                } else {
                    None
                }
            },
            None => None,
        },
        None => None,
    }
}

/// A value that parses ends after it starts.
proof fn lemma_value_start(b: Seq<u8>, k: int)
    requires
        value_end(b, k) is Some,
    ensures
        k < value_end(b, k)->0,
{
    lemma_digits_end_bounds(b, k);
    if k + 1 <= b.len() {
        lemma_digits_end_bounds(b, k + 1);
    }
    if k + 2 <= b.len() {
        lemma_digits_end_bounds(b, k + 2);
    }
    if b[k] == 108 {
        lemma_items_start(b, k + 1, false);
    } else if b[k] == 100 {
        lemma_items_start(b, k + 1, true);
    }
}

proof fn lemma_items_start(b: Seq<u8>, p: int, dict: bool)
    requires
        items_end(b, p, dict) is Some,
    ensures
        p < items_end(b, p, dict)->0,
    decreases b.len() - p,
{
    if 0 <= p < b.len() && b[p] != 101 {
        let k = if dict {
            string_end(b, p)
        } else {
            Some(p)
        };
        let v = value_end(b, k->0)->0;
        lemma_items_start(b, v, dict);
    }
}

/// The span of the `info` value of a descriptor, if it is one well-formed
/// bencoded dictionary with an `info` key.
pub fn find_info_span(b: &[u8]) -> (r: Option<(usize, usize)>)
    ensures
        r is None <==> info_span(b@) is None,
        r matches Some((s, e)) ==> info_span(b@) == Some((s as int, e as int)) && s <= e <= b@.len(),
{
    if b.len() == 0 || b[0] != 100 {
        return None;
    }
    match value_end_exec(b, 0) {
        Some(e) => {
            if e == b.len() {
                find_info_exec(b, 1)
            } else {
                None
            }
        },
        None => None,
    }
}

} // verus!
