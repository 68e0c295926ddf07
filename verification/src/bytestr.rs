//! Byte-string helpers: splitting on a separator byte and decimal
//! parsing/printing, with the spec-level functions the contracts use.

use vstd::prelude::*;

verus! {

/// Split `s` at every occurrence of `sep`. Always yields at least one piece;
/// `n` separators yield `n + 1` pieces (empty pieces included).
pub open spec fn spec_split(s: Seq<u8>, sep: u8) -> Seq<Seq<u8>>
    decreases s.len(),
{
    if s.len() == 0 {
        seq![Seq::<u8>::empty()]
    } else if s[0] == sep {
        seq![Seq::<u8>::empty()] + spec_split(s.drop_first(), sep)
    } else {
        let rest = spec_split(s.drop_first(), sep);
        seq![seq![s[0]] + rest[0]] + rest.drop_first()
    }
}

/// Split `s` at the first occurrence of `sep`; `None` when `sep` is absent.
pub open spec fn spec_split_once(s: Seq<u8>, sep: u8) -> Option<(Seq<u8>, Seq<u8>)>
    decreases s.len(),
{
    if s.len() == 0 {
        None
    } else if s[0] == sep {
        Some((Seq::<u8>::empty(), s.drop_first()))
    } else {
        match spec_split_once(s.drop_first(), sep) {
            None => None,
            Some((a, b)) => Some((seq![s[0]] + a, b)),
        }
    }
}

/// `s` is one or more ASCII decimal digits.
pub open spec fn is_dec_digits(s: Seq<u8>) -> bool {
    s.len() > 0 && forall|i: int| 0 <= i < s.len() ==> 48 <= #[trigger] s[i] <= 57
}

/// The number the digit string `s` denotes.
pub open spec fn spec_dec_value(s: Seq<u8>) -> int
    decreases s.len(),
{
    if s.len() == 0 {
        0
    } else {
        spec_dec_value(s.drop_last()) * 10 + (s.last() - 48)
    }
}

/// The canonical digit string of `n` (no leading zeros except for 0 itself).
pub open spec fn spec_dec_str(n: int) -> Seq<u8>
    recommends
        n >= 0,
    decreases n,
{
    if n < 10 {
        seq![(48 + n) as u8]
    } else {
        spec_dec_str(n / 10).push((48 + n % 10) as u8)
    }
}

pub proof fn lemma_split_len(s: Seq<u8>, sep: u8)
    ensures
        spec_split(s, sep).len() >= 1,
    decreases s.len(),
{
    if s.len() == 0 {
    } else {
        lemma_split_len(s.drop_first(), sep);
    }
}

/// When the first `i` bytes hold no separator, the split starts with that
/// prefix: it is the whole of `s` if no separator follows, and otherwise the
/// split continues after the separator at `i`.
pub proof fn lemma_split_at(s: Seq<u8>, sep: u8, i: int)
    requires
        0 <= i <= s.len(),
        forall|j: int| 0 <= j < i ==> s[j] != sep,
        i < s.len() ==> s[i] == sep,
    ensures
        i == s.len() ==> spec_split(s, sep) == seq![s],
        i < s.len() ==> spec_split(s, sep) == seq![s.subrange(0, i)] + spec_split(
            s.subrange(i + 1, s.len() as int),
            sep,
        ),
    decreases i,
{
    if i == 0 {
        if s.len() == 0 {
            assert(spec_split(s, sep) =~~= seq![s]);
        } else {
            assert(s[0] == sep);
            assert(s.subrange(0, 0) =~= Seq::<u8>::empty());
            assert(s.subrange(1, s.len() as int) =~= s.drop_first());
            assert(spec_split(s, sep) =~= seq![s.subrange(0, 0)] + spec_split(
                s.subrange(1, s.len() as int),
                sep,
            ));
        }
    } else {
        let d = s.drop_first();
        lemma_split_at(d, sep, i - 1);
        lemma_split_len(d, sep);
        let rest = spec_split(d, sep);
        if i == s.len() {
            assert(rest == seq![d]);
            assert(spec_split(s, sep) =~= seq![seq![s[0]] + d]);
            assert(seq![s[0]] + d =~= s);
        } else {
            assert(d.subrange(i - 1 + 1, d.len() as int) =~= s.subrange(i + 1, s.len() as int));
            assert(rest == seq![d.subrange(0, i - 1)] + spec_split(
                s.subrange(i + 1, s.len() as int),
                sep,
            ));
            assert(seq![s[0]] + rest[0] =~= s.subrange(0, i));
            assert(spec_split(s, sep) =~= seq![s.subrange(0, i)] + spec_split(
                s.subrange(i + 1, s.len() as int),
                sep,
            ));
        }
    }
}

/// `spec_split_once` finds exactly the first separator.
pub proof fn lemma_split_once_at(s: Seq<u8>, sep: u8, i: int)
    requires
        0 <= i <= s.len(),
        forall|j: int| 0 <= j < i ==> s[j] != sep,
        i < s.len() ==> s[i] == sep,
    ensures
        i == s.len() ==> spec_split_once(s, sep) is None,
        i < s.len() ==> spec_split_once(s, sep) == Some(
            (s.subrange(0, i), s.subrange(i + 1, s.len() as int)),
        ),
    decreases i,
{
    if i == 0 {
        if s.len() > 0 {
            assert(s.subrange(0, 0) =~= Seq::<u8>::empty());
            assert(s.subrange(1, s.len() as int) =~= s.drop_first());
        }
    } else {
        let d = s.drop_first();
        lemma_split_once_at(d, sep, i - 1);
        if i == s.len() {
        } else {
            assert(d.subrange(i - 1 + 1, d.len() as int) =~= s.subrange(i + 1, s.len() as int));
            let (a, b) = spec_split_once(d, sep).unwrap();
            assert(seq![s[0]] + d.subrange(0, i - 1) =~= s.subrange(0, i));
        }
    }
}

/// A digit string denotes a value no smaller than any of its prefixes'.
pub proof fn lemma_dec_value_nonneg(s: Seq<u8>)
    requires
        forall|i: int| 0 <= i < s.len() ==> 48 <= #[trigger] s[i] <= 57,
    ensures
        spec_dec_value(s) >= 0,
    decreases s.len(),
{
    if s.len() > 0 {
        lemma_dec_value_nonneg(s.drop_last());
    }
}

/// Extending a digit string never shrinks its value.
pub proof fn lemma_dec_value_prefix(s: Seq<u8>, i: int)
    requires
        0 <= i <= s.len(),
        forall|j: int| 0 <= j < s.len() ==> 48 <= #[trigger] s[j] <= 57,
    ensures
        spec_dec_value(s) >= spec_dec_value(s.subrange(0, i)),
    decreases s.len() - i,
{
    if i == s.len() {
        assert(s.subrange(0, i) =~= s);
    } else {
        lemma_dec_value_prefix(s, i + 1);
        let p = s.subrange(0, i + 1);
        assert(p.drop_last() =~= s.subrange(0, i));
        lemma_dec_value_nonneg(s.subrange(0, i));
        assert(spec_dec_value(p) == spec_dec_value(s.subrange(0, i)) * 10 + (p.last() - 48));
    }
}

/// Printing a number and reading it back is the identity.
pub proof fn lemma_dec_str_value(n: int)
    requires
        n >= 0,
    ensures
        is_dec_digits(spec_dec_str(n)),
        spec_dec_value(spec_dec_str(n)) == n,
    decreases n,
{
    if n < 10 {
        let s = spec_dec_str(n);
        assert(s.len() == 1);
        assert(s.drop_last() =~= Seq::<u8>::empty());
        assert(s.last() == (48 + n) as u8);
        assert(spec_dec_value(s) == spec_dec_value(s.drop_last()) * 10 + (s.last() - 48));
        assert(spec_dec_value(s) == n);
    } else {
        lemma_dec_str_value(n / 10);
        let s = spec_dec_str(n);
        assert(s.drop_last() =~= spec_dec_str(n / 10));
        assert(s.last() == (48 + n % 10) as u8);
        assert(0 <= n % 10 < 10);
        assert(spec_dec_value(s) == (n / 10) * 10 + n % 10);
        assert((n / 10) * 10 + n % 10 == n) by (nonlinear_arith)
            requires
                n >= 0,
        ;
    }
}

/// Whether two byte slices hold the same bytes.
pub fn bytes_eq(a: &[u8], b: &[u8]) -> (r: bool)
    ensures
        r <==> a@ == b@,
{
    let n = a.len();
    if n != b.len() {
        assert(a@.len() != b@.len());
        return false;
    }
    let mut i: usize = 0;
    while i < n
        invariant
            n == a@.len() == b@.len(),
            0 <= i <= n,
            forall|j: int| 0 <= j < i ==> a@[j] == b@[j],
        decreases n - i,
    {
        if *vstd::slice::slice_index_get(a, i) != *vstd::slice::slice_index_get(b, i) {
            assert(a@[i as int] != b@[i as int]);
            return false;
        }
        i += 1;
    }
    assert(a@ =~= b@);
    true
}

/// The views of a sequence of byte vectors.
pub open spec fn views(s: Seq<Vec<u8>>) -> Seq<Seq<u8>> {
    s.map_values(|v: Vec<u8>| v@)
}

/// Split a byte slice at every occurrence of `sep`.
pub fn split_bytes(data: &[u8], sep: u8) -> (r: Vec<Vec<u8>>)
    ensures
        views(r@) == spec_split(data@, sep),
{
    let n = data.len();
    let mut r: Vec<Vec<u8>> = Vec::new();
    let mut start: usize = 0;
    let mut i: usize = 0;
    proof {
        assert(data@.subrange(0, n as int) =~= data@);
        assert(views(r@) + spec_split(data@, sep) =~= spec_split(data@, sep));
    }
    while i < n
        invariant
            n == data@.len(),
            0 <= start <= i <= n,
            forall|j: int| start <= j < i ==> data@[j] != sep,
            spec_split(data@, sep) == views(r@) + spec_split(
                data@.subrange(start as int, n as int),
                sep,
            ),
        decreases n - i,
    {
        if *vstd::slice::slice_index_get(data, i) == sep {
            let seg = vstd::slice::slice_to_vec(vstd::slice::slice_subrange(data, start, i));
            proof {
                let suffix = data@.subrange(start as int, n as int);
                lemma_split_at(suffix, sep, i - start);
                assert(suffix.subrange(0, i - start) =~= data@.subrange(start as int, i as int));
                assert(suffix.subrange(i - start + 1, suffix.len() as int) =~= data@.subrange(
                    i + 1,
                    n as int,
                ));
            }
            let ghost r0 = r@;
            r.push(seg);
            proof {
                assert(views(r@) =~= views(r0).push(seg@));
                assert(views(r0).push(seg@) =~= views(r0) + seq![seg@]);
            }
            start = i + 1;
        }
        i += 1;
    }
    let seg = vstd::slice::slice_to_vec(vstd::slice::slice_subrange(data, start, n));
    proof {
        let suffix = data@.subrange(start as int, n as int);
        lemma_split_at(suffix, sep, n - start);
        assert(suffix.subrange(0, n - start) =~= suffix);
    }
    r.push(seg);
    r
}

/// Split a byte slice at the first occurrence of `sep`.
pub fn split_once_bytes(data: &[u8], sep: u8) -> (r: Option<(Vec<u8>, Vec<u8>)>)
    ensures
        match r {
            None => spec_split_once(data@, sep) is None,
            Some((a, b)) => spec_split_once(data@, sep) == Some((a@, b@)),
        },
{
    let n = data.len();
    let mut i: usize = 0;
    while i < n
        invariant
            n == data@.len(),
            0 <= i <= n,
            forall|j: int| 0 <= j < i ==> data@[j] != sep,
        decreases n - i,
    {
        if *vstd::slice::slice_index_get(data, i) == sep {
            let a = vstd::slice::slice_to_vec(vstd::slice::slice_subrange(data, 0, i));
            let b = vstd::slice::slice_to_vec(vstd::slice::slice_subrange(data, i + 1, n));
            proof {
                lemma_split_once_at(data@, sep, i as int);
            }
            return Some((a, b));
        }
        i += 1;
    }
    proof {
        lemma_split_once_at(data@, sep, n as int);
    }
    None
}

/// Parse an ASCII decimal number; `None` on an empty string, a non-digit
/// byte, or overflow.
pub fn parse_u64_dec(s: &[u8]) -> (r: Option<u64>)
    ensures
        match r {
            Some(v) => is_dec_digits(s@) && v == spec_dec_value(s@),
            None => !(is_dec_digits(s@) && spec_dec_value(s@) <= u64::MAX),
        },
{
    let n = s.len();
    if n == 0 {
        return None;
    }
    let mut acc: u64 = 0;
    let mut i: usize = 0;
    while i < n
        invariant
            n == s@.len(),
            n > 0,
            0 <= i <= n,
            forall|j: int| 0 <= j < i ==> 48 <= #[trigger] s@[j] <= 57,
            acc == spec_dec_value(s@.subrange(0, i as int)),
        decreases n - i,
    {
        let b = *vstd::slice::slice_index_get(s, i);
        if b < 48 || b > 57 {
            return None;
        }
        let d = (b - 48) as u64;
        proof {
            assert(s@.subrange(0, i + 1).drop_last() =~= s@.subrange(0, i as int));
        }
        let shifted = match acc.checked_mul(10) {
            Some(x) => x,
            None => {
                proof {
                    overflow_reason(s@, i as int);
                }
                return None;
            },
        };
        let next = match shifted.checked_add(d) {
            Some(x) => x,
            None => {
                proof {
                    overflow_reason(s@, i as int);
                }
                return None;
            },
        };
        proof {
            assert(s@.subrange(0, i + 1).drop_last() =~= s@.subrange(0, i as int));
        }
        acc = next;
        i += 1;
    }
    assert(s@.subrange(0, n as int) =~= s@);
    Some(acc)
}

proof fn overflow_reason(s: Seq<u8>, i: int)
    requires
        0 <= i < s.len(),
        forall|j: int| 0 <= j <= i ==> 48 <= #[trigger] s[j] <= 57,
        spec_dec_value(s.subrange(0, i + 1)) > u64::MAX,
    ensures
        !(is_dec_digits(s) && spec_dec_value(s) <= u64::MAX),
{
    if is_dec_digits(s) {
        lemma_dec_value_prefix(s, i + 1);
    }
}

/// The canonical decimal digits of `n`.
pub fn u32_dec_str(n: u32) -> (r: Vec<u8>)
    ensures
        r@ == spec_dec_str(n as int),
    decreases n,
{
    if n < 10 {
        let mut r: Vec<u8> = Vec::new();
        r.push(48 + n as u8);
        assert(r@ =~= spec_dec_str(n as int));
        r
    } else {
        let mut r = u32_dec_str(n / 10);
        r.push(48 + (n % 10) as u8);
        assert(r@ =~= spec_dec_str(n as int));
        r
    }
}

} // verus!
