//! Collision-free names: the first of `base`, `prefix 1 suffix`,
//! `prefix 2 suffix`, … that is not already taken.
use vstd::prelude::*;
use vstd::set_lib::{lemma_int_range, lemma_len_subset, lemma_map_size, lemma_map_size_bound, set_int_range};
use vstd::string::StringExecFns;

verus! {

/// The character of a decimal digit.
pub open spec fn digit_char(d: nat) -> char {
    if d == 0 { '0' }
    else if d == 1 { '1' }
    else if d == 2 { '2' }
    else if d == 3 { '3' }
    else if d == 4 { '4' }
    else if d == 5 { '5' }
    else if d == 6 { '6' }
    else if d == 7 { '7' }
    else if d == 8 { '8' }
    else { '9' }
}

/// The decimal writing of `n`, without leading zeros.
pub open spec fn decimal(n: nat) -> Seq<char>
    decreases n,
{
    if n < 10 {
        seq![digit_char(n)]
    } else {
        decimal(n / 10).push(digit_char(n % 10))
    }
}

/// The `c`-th candidate name: `base` for 0, else `prefix`, decimal `c`, `suffix`.
pub open spec fn candidate(base: Seq<char>, prefix: Seq<char>, suffix: Seq<char>, c: nat) -> Seq<char> {
    if c == 0 {
        base
    } else {
        prefix + decimal(c) + suffix
    }
}

/// `r` is the first candidate that `taken` does not hold.
pub open spec fn is_first_free(
    base: Seq<char>,
    prefix: Seq<char>,
    suffix: Seq<char>,
    taken: Seq<Seq<char>>,
    r: Seq<char>,
) -> bool {
    exists|c: nat|
        #![trigger candidate(base, prefix, suffix, c)]
        r == candidate(base, prefix, suffix, c) && !taken.contains(r) && forall|k: nat|
            k < c ==> taken.contains(#[trigger] candidate(base, prefix, suffix, k))
}

/// The views of a sequence of strings.
pub open spec fn string_views(v: Seq<String>) -> Seq<Seq<char>> {
    v.map_values(|s: String| s@)
}

proof fn lemma_decimal_len(n: nat)
    ensures
        decimal(n).len() >= 1,
        n >= 10 ==> decimal(n).len() >= 2,
    decreases n,
{
    if n >= 10 {
        lemma_decimal_len(n / 10);
    }
}

proof fn lemma_decimal_injective(a: nat, b: nat)
    requires
        decimal(a) == decimal(b),
    ensures
        a == b,
    decreases a,
{
    lemma_decimal_len(a);
    lemma_decimal_len(b);
    if a >= 10 && b >= 10 {
        let da = decimal(a);
        let db = decimal(b);
        assert(da.drop_last() == decimal(a / 10));
        assert(db.drop_last() == decimal(b / 10));
        assert(da.last() == digit_char(a % 10));
        assert(db.last() == digit_char(b % 10));
        lemma_decimal_injective(a / 10, b / 10);
    } else if a < 10 && b < 10 {
        assert(decimal(a)[0] == digit_char(a));
        assert(decimal(b)[0] == digit_char(b));
    }
}

proof fn lemma_candidate_injective(base: Seq<char>, prefix: Seq<char>, suffix: Seq<char>, a: nat, b: nat)
    requires
        a >= 1,
        b >= 1,
        candidate(base, prefix, suffix, a) == candidate(base, prefix, suffix, b),
    ensures
        a == b,
{
    let ca = candidate(base, prefix, suffix, a);
    let cb = candidate(base, prefix, suffix, b);
    let lo = prefix.len() as int;
    assert(ca.len() == prefix.len() + decimal(a).len() + suffix.len());
    assert(cb.len() == prefix.len() + decimal(b).len() + suffix.len());
    assert(ca.subrange(lo, lo + decimal(a).len()) =~= decimal(a));
    assert(cb.subrange(lo, lo + decimal(b).len()) =~= decimal(b));
    lemma_decimal_injective(a, b);
}

proof fn lemma_some_candidate_free(base: Seq<char>, prefix: Seq<char>, suffix: Seq<char>, taken: Seq<Seq<char>>)
    ensures
        exists|c: nat| 1 <= c <= taken.len() + 1 && !taken.contains(#[trigger] candidate(base, prefix, suffix, c)),
{
    if forall|c: nat| 1 <= c <= taken.len() + 1 ==> taken.contains(#[trigger] candidate(base, prefix, suffix, c)) {
        let n = taken.len() as int;
        let f = |c: int| candidate(base, prefix, suffix, c as nat);
        let xs = set_int_range(1, n + 2);
        let g = |i: int| taken[i];
        let ts = set_int_range(0, n).map(g);
        lemma_int_range(1, n + 2);
        lemma_int_range(0, n);
        assert(vstd::relations::injective_on(f, xs)) by {
            assert forall|a: int, b: int| xs.contains(a) && xs.contains(b) && #[trigger] f(a) == #[trigger] f(b) implies a == b by {
                lemma_candidate_injective(base, prefix, suffix, a as nat, b as nat);
            }
        }
        lemma_map_size(xs, xs.map(f), f);
        lemma_map_size_bound(set_int_range(0, n), ts, g);
        assert(xs.map(f).subset_of(ts)) by {
            assert forall|y: Seq<char>| xs.map(f).contains(y) implies ts.contains(y) by {
                let c = choose|c: int| xs.contains(c) && f(c) == y;
                assert(taken.contains(candidate(base, prefix, suffix, c as nat)));
                let i = choose|i: int| 0 <= i < n && taken[i] == y;
                assert(set_int_range(0, n).contains(i) && g(i) == y);
            }
        }
        lemma_len_subset(xs.map(f), ts);
    }
}

fn digit_str(d: u128) -> (r: &'static str)
    requires
        d < 10,
    ensures
        r@ == seq![digit_char(d as nat)],
{
    if d == 0 { proof { reveal_strlit("0"); } "0" }
    else if d == 1 { proof { reveal_strlit("1"); } "1" }
    else if d == 2 { proof { reveal_strlit("2"); } "2" }
    else if d == 3 { proof { reveal_strlit("3"); } "3" }
    else if d == 4 { proof { reveal_strlit("4"); } "4" }
    else if d == 5 { proof { reveal_strlit("5"); } "5" }
    else if d == 6 { proof { reveal_strlit("6"); } "6" }
    else if d == 7 { proof { reveal_strlit("7"); } "7" }
    else if d == 8 { proof { reveal_strlit("8"); } "8" }
    else { proof { reveal_strlit("9"); } "9" }
}

/// The decimal writing of `n`.
pub fn decimal_string(n: u128) -> (r: String)
    ensures
        r@ == decimal(n as nat),
    decreases n,
{
    if n < 10 {
        String::from_str(digit_str(n))
    } else {
        let mut s = decimal_string(n / 10);
        s.append(digit_str(n % 10));
        assert(s@ =~= decimal(n as nat));
        s
    }
}

/// Whether `taken` holds a string equal to `s`.
pub fn contains_string(taken: &Vec<String>, s: &String) -> (r: bool)
    ensures
        r == string_views(taken@).contains(s@),
{
    let mut i: usize = 0;
    while i < taken.len()
        invariant
            0 <= i <= taken@.len(),
            forall|j: int| 0 <= j < i ==> taken@[j]@ != s@,
        decreases taken@.len() - i,
    {
        if taken[i] == *s {
            assert(string_views(taken@)[i as int] == s@);
            return true;
        }
        i = i + 1;
    }
    assert forall|j: int| 0 <= j < string_views(taken@).len() implies string_views(taken@)[j] != s@ by {
        assert(taken@[j]@ != s@);
    }
    false
}

/// The first of `base`, `prefix 1 suffix`, `prefix 2 suffix`, … that
/// `taken` does not hold.
pub fn first_free_name(base: &str, prefix: &str, suffix: &str, taken: &Vec<String>) -> (r: String)
    ensures
        is_first_free(base@, prefix@, suffix@, string_views(taken@), r@),
{
    let ghost tv = string_views(taken@);
    proof {
        lemma_some_candidate_free(base@, prefix@, suffix@, tv);
    }
    let len = taken.len();
    let mut c: u128 = 0;
    loop
        invariant
            len == taken@.len(),
            tv == string_views(taken@),
            tv.len() == taken@.len(),
            c <= taken@.len() + 1,
            exists|k: nat| 1 <= k <= tv.len() + 1 && !tv.contains(#[trigger] candidate(base@, prefix@, suffix@, k)),
            forall|k: nat| k < c ==> tv.contains(#[trigger] candidate(base@, prefix@, suffix@, k)),
        decreases taken@.len() + 1 - c,
    {
        let name = if c == 0 {
            String::from_str(base)
        } else {
            let mut s = String::from_str(prefix);
            let digits = decimal_string(c);
            s.append(digits.as_str());
            s.append(suffix);
            s
        };
        assert(name@ == candidate(base@, prefix@, suffix@, c as nat));
        if !contains_string(taken, &name) {
            return name;
        }
        assert(c < len + 1);
        c = c + 1;
    }
}

} // verus!
