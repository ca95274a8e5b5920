//! Names that do not collide with the names already present in a scope.
use vstd::prelude::*;
use vstd::seq_lib::seq_to_set_is_finite;

verus! {

/// The character of a decimal digit.
pub open spec fn digit(d: nat) -> char {
    if d == 0 { '0' }
    else if d == 1 { '1' }
    else if d == 2 { '2' }
    else if d == 3 { '3' }
    else if d == 4 { '4' }
    else if d == 5 { '5' }
    else if d == 6 { '6' }
    else if d == 7 { '7' }
    else if d == 8 { '8' }
    else { '9' }
}

/// The decimal notation of `n`, without leading zeros.
pub open spec fn decimal(n: nat) -> Seq<char>
    decreases n,
{
    if n < 10 {
        seq![digit(n)]
    } else {
        decimal(n / 10) + seq![digit(n % 10)]
    }
}

/// The `k`-th alternative to `base`: `base`, an underscore, and `k` in decimal.
pub open spec fn numbered(base: Seq<char>, k: nat) -> Seq<char> {
    base + seq!['_'] + decimal(k)
}

/// The names held in `names`, as character sequences.
/// `name` is `base` where `base` is free in `taken`, and otherwise the first of the numbered
/// alternatives to `base` that is free.
pub open spec fn first_free(taken: Set<Seq<char>>, base: Seq<char>, name: Seq<char>) -> bool {
    &&& !taken.contains(name)
    &&& !taken.contains(base) ==> name == base
    &&& name == base || exists|k: nat| k >= 1 && name == numbered(base, k) && taken.contains(base)
        && forall|j: nat| 1 <= j < k ==> taken.contains(#[trigger] numbered(base, j))
}

pub open spec fn name_set(names: Seq<String>) -> Set<Seq<char>> {
    names.map_values(|s: String| s@).to_set()
}

proof fn lemma_decimal_nonempty(n: nat)
    ensures
        decimal(n).len() >= 1,
    decreases n,
{
    if n >= 10 {
        lemma_decimal_nonempty(n / 10);
    }
}

proof fn lemma_decimal_injective(a: nat, b: nat)
    requires
        decimal(a) == decimal(b),
    ensures
        a == b,
    decreases a,
{
    if a < 10 && b < 10 {
        assert(decimal(a) == seq![digit(a)]);
        assert(decimal(b) == seq![digit(b)]);
        assert(seq![digit(a)][0] == digit(a));
        assert(seq![digit(b)][0] == digit(b));
        assert(digit(a) == digit(b));
    } else if a < 10 {
        lemma_decimal_nonempty(b / 10);
        assert(decimal(b).len() >= 2);
    } else if b < 10 {
        lemma_decimal_nonempty(a / 10);
        assert(decimal(a).len() >= 2);
    } else {
        let da = decimal(a);
        let db = decimal(b);
        assert(da[da.len() - 1] == digit(a % 10));
        assert(db[db.len() - 1] == digit(b % 10));
        assert(a % 10 == b % 10);
        assert(decimal(a / 10) =~= da.subrange(0, da.len() - 1));
        assert(decimal(b / 10) =~= db.subrange(0, db.len() - 1));
        lemma_decimal_injective(a / 10, b / 10);
        assert(a == 10 * (a / 10) + a % 10);
        assert(b == 10 * (b / 10) + b % 10);
    }
}

/// Distinct numbers give distinct alternatives to a name.
pub proof fn lemma_numbered_injective(base: Seq<char>, a: nat, b: nat)
    requires
        numbered(base, a) == numbered(base, b),
    ensures
        a == b,
{
    let na = numbered(base, a);
    let nb = numbered(base, b);
    let start = base.len() as int + 1;
    assert(decimal(a) =~= na.subrange(start, na.len() as int));
    assert(decimal(b) =~= nb.subrange(start, nb.len() as int));
    lemma_decimal_injective(a, b);
}

fn digit_str(d: u128) -> (r: &'static str)
    requires
        d < 10,
    ensures
        r@ == seq![digit(d as nat)],
{
    if d == 0 {
        proof { reveal_strlit("0"); }
        "0"
    } else if d == 1 {
        proof { reveal_strlit("1"); }
        "1"
    } else if d == 2 {
        proof { reveal_strlit("2"); }
        "2"
    } else if d == 3 {
        proof { reveal_strlit("3"); }
        "3"
    } else if d == 4 {
        proof { reveal_strlit("4"); }
        "4"
    } else if d == 5 {
        proof { reveal_strlit("5"); }
        "5"
    } else if d == 6 {
        proof { reveal_strlit("6"); }
        "6"
    } else if d == 7 {
        proof { reveal_strlit("7"); }
        "7"
    } else if d == 8 {
        proof { reveal_strlit("8"); }
        "8"
    } else {
        proof { reveal_strlit("9"); }
        "9"
    }
}

/// `n` in decimal notation.
pub fn decimal_string(n: u128) -> (r: String)
    ensures
        r@ == decimal(n as nat),
    decreases n,
{
    if n < 10 {
        String::from_str(digit_str(n))
    } else {
        let mut s = decimal_string(n / 10);
        s.append(digit_str(n % 10));
        s
    }
}

fn contains_name(names: &Vec<String>, name: &String) -> (r: bool)
    ensures
        r == name_set(names@).contains(name@),
{
    let mut i: usize = 0;
    while i < names.len()
        invariant
            i <= names.len(),
            forall|j: int| 0 <= j < i ==> (#[trigger] names@[j])@ != name@,
        decreases names.len() - i,
    {
        if names[i] == *name {
            proof {
                assert(names@.map_values(|s: String| s@)[i as int] == name@);
            }
            return true;
        }
        i = i + 1;
    }
    proof {
        if name_set(names@).contains(name@) {
            let ms = names@.map_values(|s: String| s@);
            assert(ms.contains(name@));
            let j = choose|j: int| 0 <= j < ms.len() && #[trigger] ms[j] == name@;
            assert(names@[j]@ == name@);
        }
    }
    false
}

/// A name that none of `names` holds: `base` itself where it is free, or else the first of
/// `base_1`, `base_2`, ... that is free.
pub fn unique_name(names: &Vec<String>, base: &str) -> (r: String)
    ensures
        first_free(name_set(names@), base@, r@),
        !name_set(names@).contains(r@),
        !name_set(names@).contains(base@) ==> r@ == base@,
        r@ == base@ || exists|k: nat| k >= 1 && r@ == numbered(base@, k) && name_set(names@).contains(base@)
            && forall|j: nat| 1 <= j < k ==> name_set(names@).contains(#[trigger] numbered(base@, j)),
{
    let base_s = String::from_str(base);
    if !contains_name(names, &base_s) {
        return base_s;
    }
    let ghost all = name_set(names@);
    proof {
        broadcast use seq_to_set_is_finite;
        names@.map_values(|s: String| s@).lemma_cardinality_of_set();
        assert(all.finite());
    }
    let mut k: u128 = 1;
    let ghost mut tried: Set<Seq<char>> = Set::empty();
    loop
        invariant
            1 <= k <= names.len() as int + 1,
            all == name_set(names@),
            all.contains(base@),
            all.finite(),
            all.len() <= names.len(),
            tried.finite(),
            tried.len() == k - 1,
            tried.subset_of(all),
            forall|s: Seq<char>| #[trigger] tried.contains(s) ==> exists|j: nat| 1 <= j < k && s == numbered(base@, j),
            forall|j: nat| 1 <= j < k ==> all.contains(#[trigger] numbered(base@, j)),
        decreases names.len() + 1 - k,
    {
        let mut c = String::from_str(base);
        proof { reveal_strlit("_"); }
        c.append("_");
        let digits = decimal_string(k);
        c.append(digits.as_str());
        assert(c@ =~= numbered(base@, k as nat));
        if !contains_name(names, &c) {
            proof {
                assert(c@ == numbered(base@, k as nat));
            }
            return c;
        }
        proof {
            if tried.contains(c@) {
                let j = choose|j: nat| 1 <= j < k && c@ == numbered(base@, j);
                lemma_numbered_injective(base@, j, k as nat);
            }
            let t2 = tried.insert(c@);
            assert(t2.len() == k);
            assert(t2.subset_of(all));
            vstd::set_lib::lemma_len_subset(t2, all);
            assert forall|s: Seq<char>| #[trigger] t2.contains(s) implies exists|j: nat| 1 <= j < k + 1 && s == numbered(base@, j) by {
                if s != c@ {
                    assert(tried.contains(s));
                    let j = choose|j: nat| 1 <= j < k && s == numbered(base@, j);
                    assert(1 <= j < k + 1 && s == numbered(base@, j));
                } else {
                    assert(s == numbered(base@, k as nat));
                }
            }
            tried = t2;
        }
        k = k + 1;
    }
}

} // verus!
