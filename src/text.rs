use vstd::prelude::*;

verus! {

pub open spec fn is_digit(b: u8) -> bool {
    48 <= b <= 57
}

/// Every byte is an ASCII digit.
pub open spec fn all_digits(s: Seq<u8>) -> bool {
    forall|i: int| 0 <= i < s.len() ==> is_digit(#[trigger] s[i])
}

/// The value of a string of decimal digits.
pub open spec fn digits_value(s: Seq<u8>) -> nat
    decreases s.len(),
{
    if s.len() == 0 {
        0
    } else {
        digits_value(s.drop_last()) * 10 + (s.last() - 48) as nat
    }
}

/// The shortest decimal form of `n`.
pub open spec fn decimal(n: nat) -> Seq<u8>
    decreases n,
{
    if n < 10 {
        seq![(48 + n) as u8]
    } else {
        decimal(n / 10).push((48 + n % 10) as u8)
    }
}

/// The decimal form is a non-empty string of digits worth `n`.
pub proof fn lemma_decimal(n: nat)
    ensures
        decimal(n).len() > 0,
        all_digits(decimal(n)),
        digits_value(decimal(n)) == n,
    decreases n,
{
    if n >= 10 {
        lemma_decimal(n / 10);
        assert(decimal(n).drop_last() =~= decimal(n / 10));
        assert(decimal(n).last() == (48 + n % 10) as u8);
        assert((n / 10) * 10 + n % 10 == n);
        assert(digits_value(decimal(n)) == digits_value(decimal(n / 10)) * 10 + (decimal(n).last() - 48) as nat);
    } else {
        assert(decimal(n).drop_last() =~= Seq::<u8>::empty());
        assert(digits_value(decimal(n)) == digits_value(Seq::<u8>::empty()) * 10 + (decimal(n).last() - 48) as nat);
    }
}

proof fn lemma_digits_prefix(s: Seq<u8>, i: int)
    requires
        0 <= i <= s.len(),
        all_digits(s),
    ensures
        digits_value(s.subrange(0, i)) <= digits_value(s),
    decreases s.len() - i,
{
    if i < s.len() {
        lemma_digits_prefix(s, i + 1);
        assert(s.subrange(0, i + 1).drop_last() =~= s.subrange(0, i));
    } else {
        assert(s.subrange(0, i) =~= s);
    }
}

/// Appends the decimal form of `n`.
pub fn write_decimal(out: &mut Vec<u8>, n: u64)
    ensures
        final(out)@ == old(out)@ + decimal(n as nat),
    decreases n,
{
    if n >= 10 {
        write_decimal(out, n / 10);
    }
    out.push((48 + n % 10) as u8);
    assert(final(out)@ =~= old(out)@ + decimal(n as nat));
}

/// The value of `buf[start..end]` read as decimal digits, if it is a
/// non-empty run of digits worth at most `max`.
pub fn parse_decimal(buf: &[u8], start: usize, end: usize, max: u64) -> (r: Option<u64>)
    requires
        start <= end <= buf@.len(),
    ensures
        r is Some <==> (start < end && all_digits(buf@.subrange(start as int, end as int)) && digits_value(
            buf@.subrange(start as int, end as int),
        ) <= max),
        r matches Some(v) ==> v == digits_value(buf@.subrange(start as int, end as int)),
{
    let ghost s = buf@.subrange(start as int, end as int);
    if start == end {
        return None;
    }
    let mut v: u64 = 0;
    let mut i: usize = start;
    while i < end
        invariant
            start <= i <= end <= buf@.len(),
            s == buf@.subrange(start as int, end as int),
            all_digits(buf@.subrange(start as int, i as int)),
            v == digits_value(buf@.subrange(start as int, i as int)),
            v <= max,
        decreases end - i,
    {
        let b = buf[i];
        assert(buf@.subrange(start as int, i + 1).drop_last() =~= buf@.subrange(start as int, i as int));
        if b < 48 || b > 57 {
            assert(!is_digit(s[i - start]));
            return None;
        }
        let d = (b - 48) as u64;
        if d > max || v > (max - d) / 10 {
            proof {
                if all_digits(s) {
                    lemma_digits_prefix(s, i + 1 - start);
                    assert(s.subrange(0, i + 1 - start) =~= buf@.subrange(start as int, i + 1));
                }
            }
            return None;
        }
        assert(v * 10 + d <= max) by (nonlinear_arith)
            requires
                v <= (max - d) / 10,
                d <= max,
        {
        }
        v = v * 10 + d;
        i += 1;
    }
    assert(buf@.subrange(start as int, i as int) =~= s);
    Some(v)
}

/// `i` is where `c` first occurs in `s`.
pub open spec fn first_at(s: Seq<u8>, c: u8, i: int) -> bool {
    0 <= i < s.len() && s[i] == c && forall|j: int| 0 <= j < i ==> s[j] != c
}

/// `i` is where `c` last occurs in `s`.
pub open spec fn last_at(s: Seq<u8>, c: u8, i: int) -> bool {
    0 <= i < s.len() && s[i] == c && forall|j: int| i < j < s.len() ==> s[j] != c
}

/// Where `c` first occurs in `s`, if it does.
pub open spec fn find_first(s: Seq<u8>, c: u8) -> Option<int> {
    if exists|i: int| first_at(s, c, i) {
        Some(choose|i: int| first_at(s, c, i))
    } else {
        None
    }
}

/// Where `c` last occurs in `s`, if it does.
pub open spec fn find_last(s: Seq<u8>, c: u8) -> Option<int> {
    if exists|i: int| last_at(s, c, i) {
        Some(choose|i: int| last_at(s, c, i))
    } else {
        None
    }
}

/// The first position of `c` in `buf[start..end]`, counted from `start`.
pub fn index_of(buf: &[u8], start: usize, end: usize, c: u8) -> (r: Option<usize>)
    requires
        start <= end <= buf@.len(),
    ensures
        match (r, find_first(buf@.subrange(start as int, end as int), c)) {
            (Some(i), Some(j)) => i == j,
            (None, None) => true,
            _ => false,
        },
{
    let ghost s = buf@.subrange(start as int, end as int);
    let mut i: usize = start;
    while i < end
        invariant
            start <= i <= end <= buf@.len(),
            s == buf@.subrange(start as int, end as int),
            forall|j: int| 0 <= j < i - start ==> s[j] != c,
        decreases end - i,
    {
        if buf[i] == c {
            let k = i - start;
            assert(first_at(s, c, k as int));
            proof {
                let w = choose|w: int| first_at(s, c, w);
                assert(w == k) by {
                    if w < k {
                    } else if w > k {
                    }
                }
            }
            return Some(k);
        }
        i += 1;
    }
    assert(!exists|w: int| first_at(s, c, w));
    None
}

/// The last position of `c` in `buf[start..end]`, counted from `start`.
pub fn last_index_of(buf: &[u8], start: usize, end: usize, c: u8) -> (r: Option<usize>)
    requires
        start <= end <= buf@.len(),
    ensures
        match (r, find_last(buf@.subrange(start as int, end as int), c)) {
            (Some(i), Some(j)) => i == j,
            (None, None) => true,
            _ => false,
        },
{
    let ghost s = buf@.subrange(start as int, end as int);
    let mut i: usize = end;
    while i > start
        invariant
            start <= i <= end <= buf@.len(),
            s == buf@.subrange(start as int, end as int),
            forall|j: int| i - start <= j < s.len() ==> s[j] != c,
        decreases i - start,
    {
        if buf[i - 1] == c {
            let k = i - 1 - start;
            assert(last_at(s, c, k as int));
            proof {
                let w = choose|w: int| last_at(s, c, w);
                assert(w == k) by {
                    if w < k {
                    } else if w > k {
                    }
                }
            }
            return Some(k);
        }
        i -= 1;
    }
    assert(!exists|w: int| last_at(s, c, w));
    None
}

} // verus!
