use vstd::prelude::*;

verus! {

/// Whether `c` is one of the ASCII digits `0` to `9`.
pub open spec fn is_digit(c: char) -> bool {
    '0' <= c && c <= '9'
}

/// The number that a string of decimal digits spells, most significant first.
pub open spec fn decimal_value(d: Seq<char>) -> nat
    decreases d.len(),
{
    if d.len() == 0 {
        0
    } else {
        decimal_value(d.drop_last()) * 10 + (d.last() as nat - '0' as nat) as nat
    }
}

/// What reading `s` as an unsigned decimal `usize` gives: an optional `+`
/// followed by at least one digit and nothing else, whose value fits in a
/// `usize`; anything else is rejected.
pub open spec fn usize_of(s: Seq<char>) -> Option<usize> {
    let d = if s.len() > 0 && s[0] == '+' {
        s.drop_first()
    } else {
        s
    };
    if d.len() > 0 && (forall|i: int| 0 <= i < d.len() ==> is_digit(#[trigger] d[i]))
        && decimal_value(d) <= usize::MAX {
        Some(decimal_value(d) as usize)
    } else {
        None
    }
}

/// Relies on `<usize as FromStr>::from_str`: it accepts an optional `+` and
/// then decimal digits only, and fails on anything else or on overflow.
#[verifier::external_body]
fn parse_usize(s: &str) -> (r: Option<usize>)
    ensures
        r == usize_of(s@),
{
    <usize as std::str::FromStr>::from_str(s).ok()
}

/// `i` is the position of the first `c` in `s`.
pub open spec fn is_first_index(s: Seq<char>, c: char, i: int) -> bool {
    0 <= i < s.len() && s[i] == c && forall|j: int| 0 <= j < i ==> s[j] != c
}

/// `s` cut at its first `c`: the text before it and the text after it, or
/// nothing where `s` holds no `c`.
pub open spec fn split_at_first(s: Seq<char>, c: char) -> Option<(Seq<char>, Seq<char>)> {
    if s.contains(c) {
        let i = choose|i: int| is_first_index(s, c, i);
        Some((s.take(i), s.skip(i + 1)))
    } else {
        None
    }
}

/// What parsing `s` as two `usize` values around the first `sep` gives.
pub open spec fn pair_of(s: Seq<char>, sep: char) -> Option<(usize, usize)> {
    match split_at_first(s, sep) {
        Some((l, r)) => match (usize_of(l), usize_of(r)) {
            (Some(a), Some(b)) => Some((a, b)),
            _ => None,
        },
        None => None,
    }
}

/// A position that is first among those holding `c` is the one that
/// `split_at_first` cuts at.
proof fn lemma_first_index_unique(s: Seq<char>, c: char, i: int)
    requires
        is_first_index(s, c, i),
    ensures
        s.contains(c),
        (choose|k: int| is_first_index(s, c, k)) == i,
{
    assert(s[i] == c);
    let k = choose|k: int| is_first_index(s, c, k);
    assert(is_first_index(s, c, k));
    if k < i {
        assert(s[k] != c);
    } else if i < k {
        assert(s[i] != c);
    }
}

/// Cuts `s` at the first occurrence of `sep` into the text before it and
/// the text after it; `None` where `s` does not hold `sep`.
pub fn split_pair<'a>(s: &'a str, sep: &char) -> (r: Option<(&'a str, &'a str)>)
    ensures
        match r {
            Some((l, rest)) => split_at_first(s@, *sep) == Some((l@, rest@)),
            None => split_at_first(s@, *sep) is None,
        },
{
    let n = s.unicode_len();
    let mut i: usize = 0;
    while i < n
        invariant
            n == s@.len(),
            i <= n,
            forall|j: int| 0 <= j < i ==> s@[j] != *sep,
        decreases n - i,
    {
        if s.get_char(i) == *sep {
            proof {
                lemma_first_index_unique(s@, *sep, i as int);
            }
            let left = s.substring_char(0, i);
            let right = s.substring_char(i + 1, n);
            assert(left@ =~= s@.take(i as int));
            assert(right@ =~= s@.skip(i + 1));
            return Some((left, right));
        }
        i = i + 1;
    }
    assert(!s@.contains(*sep));
    None
}

/// Parses two `usize` values separated by the first `sep` in `s`, as in
/// `800,600`; `None` where `s` holds no `sep` or either side is not a
/// decimal number that fits in a `usize`.
pub fn parse_pair(s: &str, sep: &char) -> (r: Option<(usize, usize)>)
    ensures
        r == pair_of(s@, *sep),
{
    match split_pair(s, sep) {
        Some((l, rest)) => match (parse_usize(l), parse_usize(rest)) {
            (Some(a), Some(b)) => Some((a, b)),
            _ => None,
        },
        None => None,
    }
}

} // verus!
