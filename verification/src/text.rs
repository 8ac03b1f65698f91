//! Verified helpers over strings: comparison, splitting a selector on dots,
//! and reading decimal numbers. All contracts are stated over `Seq<char>`.

use vstd::prelude::*;

verus! {

/// Character-wise string equality.
pub fn str_eq(a: &str, b: &str) -> (r: bool)
    ensures
        r == (a@ == b@),
{
    let alen = a.unicode_len();
    let blen = b.unicode_len();
    if alen != blen {
        assert(a@.len() != b@.len());
        return false;
    }
    let mut i: usize = 0;
    while i < alen
        invariant
            0 <= i <= alen,
            alen == a@.len(),
            alen == b@.len(),
            forall|j: int| 0 <= j < i ==> a@[j] == b@[j],
        decreases alen - i,
    {
        if a.get_char(i) != b.get_char(i) {
            return false;
        }
        i += 1;
    }
    proof {
        assert(a@ =~= b@);
    }
    true
}

/// True when `s` ends with the three characters `[*]`.
pub open spec fn spec_has_wildcard_suffix(s: Seq<char>) -> bool {
    &&& s.len() >= 3
    &&& s[s.len() - 3] == '['
    &&& s[s.len() - 2] == '*'
    &&& s[s.len() - 1] == ']'
}

/// Tests for the `[*]` suffix that marks an array-wildcard path segment.
pub fn has_wildcard_suffix(s: &str) -> (r: bool)
    ensures
        r == spec_has_wildcard_suffix(s@),
{
    let n = s.unicode_len();
    if n < 3 {
        return false;
    }
    s.get_char(n - 3) == '[' && s.get_char(n - 2) == '*' && s.get_char(n - 1) == ']'
}

/// The position of the first `.` in `s`, if any.
pub open spec fn spec_first_dot(s: Seq<char>) -> Option<int>
    decreases s.len(),
{
    if s.len() == 0 {
        None
    } else if s[0] == '.' {
        Some(0int)
    } else {
        match spec_first_dot(s.drop_first()) {
            Some(i) => Some(i + 1),
            None => None,
        }
    }
}

proof fn lemma_first_dot_character(s: Seq<char>)
    ensures
        match spec_first_dot(s) {
            Some(i) => 0 <= i < s.len() && s[i] == '.' && forall|j: int|
                0 <= j < i ==> s[j] != '.',
            None => forall|j: int| 0 <= j < s.len() ==> s[j] != '.',
        },
    decreases s.len(),
{
    if s.len() > 0 && s[0] != '.' {
        lemma_first_dot_character(s.drop_first());
        match spec_first_dot(s.drop_first()) {
            Some(i) => {
                assert(s[i + 1] == s.drop_first()[i]);
                assert forall|j: int| 0 <= j < i + 1 implies #[trigger] s[j] != '.' by {
                    if j > 0 {
                        assert(s.drop_first()[j - 1] != '.');
                    }
                }
            },
            None => {
                assert forall|j: int| 0 <= j < s.len() implies #[trigger] s[j] != '.' by {
                    if j > 0 {
                        assert(s.drop_first()[j - 1] != '.');
                    }
                }
            },
        }
    }
}

/// A selector path split on `.`; the separators are dropped, empty segments kept.
pub open spec fn spec_dot_split(s: Seq<char>) -> Seq<Seq<char>>
    decreases s.len(),
    via spec_dot_split_decreases
{
    match spec_first_dot(s) {
        None => seq![s],
        Some(i) => seq![s.take(i)] + spec_dot_split(s.skip(i + 1)),
    }
}

#[via_fn]
proof fn spec_dot_split_decreases(s: Seq<char>) {
    lemma_first_dot_character(s);
}

fn first_dot(s: &str) -> (r: Option<usize>)
    ensures
        match r {
            Some(i) => spec_first_dot(s@) == Some(i as int),
            None => spec_first_dot(s@) is None,
        },
{
    proof {
        lemma_first_dot_character(s@);
    }
    let n = s.unicode_len();
    let mut i: usize = 0;
    while i < n
        invariant
            0 <= i <= n,
            n == s@.len(),
            forall|j: int| 0 <= j < i ==> s@[j] != '.',
            match spec_first_dot(s@) {
                Some(k) => 0 <= k < s@.len() && s@[k] == '.' && forall|j: int|
                    0 <= j < k ==> s@[j] != '.',
                None => forall|j: int| 0 <= j < s@.len() ==> s@[j] != '.',
            },
        decreases n - i,
    {
        if s.get_char(i) == '.' {
            return Some(i);
        }
        i += 1;
    }
    None
}

/// Splits a selector path on `.`.
pub fn dot_split(s: &str) -> (r: Vec<String>)
    ensures
        r.deep_view() == spec_dot_split(s@),
    decreases s@.len(),
{
    let n = s.unicode_len();
    match first_dot(s) {
        None => {
            let mut out: Vec<String> = Vec::new();
            out.push(s.to_owned());
            proof {
                assert(out.deep_view() =~= spec_dot_split(s@));
            }
            out
        },
        Some(i) => {
            proof {
                lemma_first_dot_character(s@);
            }
            let head = s.substring_char(0, i);
            let tail = s.substring_char(i + 1, n);
            assert(tail@.len() < s@.len());
            let mut out = dot_split(tail);
            out.insert(0, head.to_owned());
            proof {
                assert(head@ =~= s@.take(i as int));
                assert(tail@ =~= s@.skip(i + 1));
                assert(out.deep_view() =~= spec_dot_split(s@));
            }
            out
        },
    }
}

/// True when `n` occurs in `h` as a contiguous run.
pub open spec fn spec_contains(h: Seq<char>, n: Seq<char>) -> bool {
    exists|i: int| 0 <= i <= h.len() - n.len() && #[trigger] h.subrange(i, i + n.len()) == n
}

/// True when `h` ends with `n`.
pub open spec fn spec_ends_with(h: Seq<char>, n: Seq<char>) -> bool {
    h.len() >= n.len() && h.subrange(h.len() - n.len(), h.len() as int) == n
}

fn matches_at(h: &str, n: &str, at: usize) -> (r: bool)
    requires
        at + n@.len() <= h@.len(),
    ensures
        r == (h@.subrange(at as int, at + n@.len()) == n@),
{
    let hlen = h.unicode_len();
    let nlen = n.unicode_len();
    let mut j: usize = 0;
    while j < nlen
        invariant
            0 <= j <= nlen,
            hlen == h@.len(),
            nlen == n@.len(),
            at + nlen <= h@.len(),
            forall|t: int| 0 <= t < j ==> h@[at + t] == n@[t],
        decreases nlen - j,
    {
        if h.get_char(at + j) != n.get_char(j) {
            assert(h@.subrange(at as int, at + n@.len())[j as int] == h@[at + j]);
            return false;
        }
        j += 1;
    }
    proof {
        assert(h@.subrange(at as int, at + n@.len()) =~= n@);
    }
    true
}

/// Substring search.
pub fn str_contains(h: &str, n: &str) -> (r: bool)
    ensures
        r == spec_contains(h@, n@),
{
    let hlen = h.unicode_len();
    let nlen = n.unicode_len();
    if nlen > hlen {
        return false;
    }
    if nlen == 0 {
        proof {
            assert(h@.subrange(0, 0 + n@.len() as int) =~= n@);
        }
        return true;
    }
    let end = hlen - nlen + 1;
    let mut i: usize = 0;
    while i < end
        invariant
            0 <= i <= end,
            hlen == h@.len(),
            nlen == n@.len(),
            0 < nlen <= hlen,
            end == hlen - nlen + 1,
            forall|t: int| 0 <= t < i ==> #[trigger] h@.subrange(t, t + n@.len()) != n@,
        decreases end - i,
    {
        if matches_at(h, n, i) {
            return true;
        }
        i += 1;
    }
    false
}

/// Suffix test.
pub fn str_ends_with(h: &str, n: &str) -> (r: bool)
    ensures
        r == spec_ends_with(h@, n@),
{
    let hlen = h.unicode_len();
    let nlen = n.unicode_len();
    if nlen > hlen {
        return false;
    }
    matches_at(h, n, hlen - nlen)
}

/// `s` with every trailing `[*]` marker removed.
pub open spec fn spec_trim_wild(s: Seq<char>) -> Seq<char>
    decreases s.len(),
{
    if spec_has_wildcard_suffix(s) {
        spec_trim_wild(s.take(s.len() - 3))
    } else {
        s
    }
}

/// Removes every trailing `[*]` marker.
pub fn trim_wild<'a>(s: &'a str) -> (r: &'a str)
    ensures
        r@ == spec_trim_wild(s@),
    decreases s@.len(),
{
    if has_wildcard_suffix(s) {
        let n = s.unicode_len();
        let base = s.substring_char(0, n - 3);
        assert(base@ =~= s@.take(s@.len() - 3));
        trim_wild(base)
    } else {
        s
    }
}

/// True when `h` begins with `n`.
pub open spec fn spec_starts_with(h: Seq<char>, n: Seq<char>) -> bool {
    h.len() >= n.len() && h.subrange(0, n.len() as int) == n
}

/// Prefix test.
pub fn str_starts_with(h: &str, n: &str) -> (r: bool)
    ensures
        r == spec_starts_with(h@, n@),
{
    let hlen = h.unicode_len();
    let nlen = n.unicode_len();
    if nlen > hlen {
        return false;
    }
    matches_at(h, n, 0)
}

/// Whether `c` is a decimal digit.
pub open spec fn spec_is_digit(c: char) -> bool {
    '0' <= c <= '9'
}

/// The numeric value of a run of digits, most significant first.
pub open spec fn digits_val(s: Seq<char>) -> int
    decreases s.len(),
{
    if s.len() == 0 {
        0
    } else {
        10 * digits_val(s.drop_last()) + (s.last() as int - '0' as int)
    }
}

/// The digits of a decimal numeral, after an optional leading `+`.
pub open spec fn spec_digits_of(s: Seq<char>) -> Seq<char> {
    if s.len() > 0 && s[0] == '+' {
        s.drop_first()
    } else {
        s
    }
}

/// What `str::parse::<u32>` accepts: an optional `+`, then one or more
/// digits, whose value fits `u32`.
pub open spec fn spec_parse_u32(s: Seq<char>) -> Option<u32> {
    let ds = spec_digits_of(s);
    if ds.len() == 0 || (exists|i: int| 0 <= i < ds.len() && !spec_is_digit(#[trigger] ds[i])) {
        None
    } else if digits_val(ds) <= u32::MAX {
        Some(digits_val(ds) as u32)
    } else {
        None
    }
}

proof fn lemma_digits_val_bounds(s: Seq<char>)
    requires
        forall|i: int| 0 <= i < s.len() ==> spec_is_digit(#[trigger] s[i]),
    ensures
        digits_val(s) >= 0,
        s.len() > 0 ==> digits_val(s) >= digits_val(s.drop_last()),
    decreases s.len(),
{
    if s.len() > 0 {
        assert(forall|i: int| 0 <= i < s.drop_last().len() ==> spec_is_digit(
            #[trigger] s.drop_last()[i],
        ));
        lemma_digits_val_bounds(s.drop_last());
    }
}

proof fn lemma_digits_val_monotone(s: Seq<char>, i: int)
    requires
        0 <= i <= s.len(),
        forall|j: int| 0 <= j < s.len() ==> spec_is_digit(#[trigger] s[j]),
    ensures
        digits_val(s.take(i)) <= digits_val(s),
    decreases s.len() - i,
{
    if i < s.len() {
        lemma_digits_val_monotone(s, i + 1);
        assert(s.take(i + 1).drop_last() =~= s.take(i));
        assert(forall|j: int| 0 <= j < s.take(i + 1).len() ==> spec_is_digit(
            #[trigger] s.take(i + 1)[j],
        ));
        lemma_digits_val_bounds(s.take(i + 1));
    } else {
        assert(s.take(i) =~= s);
    }
}

/// Reads a decimal `u32` as `str::parse::<u32>` would.
#[verifier::loop_isolation(false)]
pub fn parse_u32(s: &str) -> (r: Option<u32>)
    ensures
        r == spec_parse_u32(s@),
{
    let n = s.unicode_len();
    let start: usize = if n > 0 && s.get_char(0) == '+' {
        1
    } else {
        0
    };
    let ghost ds = spec_digits_of(s@);
    proof {
        assert(ds =~= s@.skip(start as int));
    }
    if start == n {
        return None;
    }
    let mut acc: u64 = 0;
    let mut i: usize = start;
    while i < n
        invariant
            start <= i <= n,
            n == s@.len(),
            start < n,
            ds == s@.skip(start as int),
            forall|j: int| 0 <= j < i - start ==> spec_is_digit(#[trigger] ds[j]),
            acc == digits_val(ds.take(i - start)),
            acc <= u32::MAX,
        decreases n - i,
    {
        let c = s.get_char(i);
        if c < '0' || c > '9' {
            proof {
                assert(ds[i - start] == s@[i as int]);
                assert(!spec_is_digit(ds[i - start]));
            }
            return None;
        }
        let d: u64 = (c as u32 as u64) - ('0' as u32 as u64);
        proof {
            assert(ds[i - start] == s@[i as int]);
            assert(spec_is_digit(ds[i - start]));
            assert(ds.take(i - start + 1).drop_last() =~= ds.take(i - start));
            assert(ds.take(i - start + 1).last() == ds[i - start]);
        }
        let next: u64 = acc * 10 + d;
        if next > 0xFFFF_FFFF {
            proof {
                assert(digits_val(ds.take(i - start + 1)) == next);
                assert forall|j: int| 0 <= j < ds.len() implies spec_is_digit(
                    #[trigger] ds[j],
                ) || !(spec_parse_u32(s@) is Some) by {}
                if forall|j: int| 0 <= j < ds.len() ==> spec_is_digit(#[trigger] ds[j]) {
                    lemma_digits_val_monotone(ds, i - start + 1);
                }
            }
            return None;
        }
        acc = next;
        i += 1;
    }
    proof {
        assert(ds.take(n - start) =~= ds);
        assert(forall|j: int| 0 <= j < ds.len() ==> spec_is_digit(#[trigger] ds[j]));
    }
    Some(acc as u32)
}

/// The decimal numeral of `n`, most significant digit first.
pub open spec fn spec_u32_digits(n: int) -> Seq<char>
    decreases n,
{
    if n <= 9 {
        seq![spec_digit_char(if n >= 0 { n } else { 0 })]
    } else {
        spec_u32_digits(n / 10) + seq![spec_digit_char(n % 10)]
    }
}

/// The character of one decimal digit.
pub open spec fn spec_digit_char(d: int) -> char {
    if d == 0 {
        '0'
    } else if d == 1 {
        '1'
    } else if d == 2 {
        '2'
    } else if d == 3 {
        '3'
    } else if d == 4 {
        '4'
    } else if d == 5 {
        '5'
    } else if d == 6 {
        '6'
    } else if d == 7 {
        '7'
    } else if d == 8 {
        '8'
    } else {
        '9'
    }
}

fn digit_str(d: u32) -> (r: &'static str)
    requires
        d <= 9,
    ensures
        r@ == seq![spec_digit_char(d as int)],
{
    proof {
        reveal_strlit("0");
        reveal_strlit("1");
        reveal_strlit("2");
        reveal_strlit("3");
        reveal_strlit("4");
        reveal_strlit("5");
        reveal_strlit("6");
        reveal_strlit("7");
        reveal_strlit("8");
        reveal_strlit("9");
    }
    let r: &'static str = match d {
        0 => "0",
        1 => "1",
        2 => "2",
        3 => "3",
        4 => "4",
        5 => "5",
        6 => "6",
        7 => "7",
        8 => "8",
        _ => "9",
    };
    proof {
        assert(r@ =~= seq![spec_digit_char(d as int)]);
    }
    r
}

/// Renders a number in decimal.
pub fn u32_to_string(n: u32) -> (r: String)
    ensures
        r@ == spec_u32_digits(n as int),
    decreases n,
{
    if n <= 9 {
        let out = digit_str(n).to_owned();
        proof {
            assert(out@ =~= spec_u32_digits(n as int));
        }
        out
    } else {
        let head = u32_to_string(n / 10);
        let out = head.concat(digit_str(n % 10));
        proof {
            assert(out@ =~= spec_u32_digits(n as int));
        }
        out
    }
}

} // verus!
