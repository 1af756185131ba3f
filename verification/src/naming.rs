//! Names that are not taken yet.

use vstd::prelude::*;
use vstd::string::*;

use crate::roster::valid_name;
use crate::text::{
    all_digits, chars_of, decimal, digits_value, is_digit, is_white_space, is_whitespace, occurs,
    occurs_at, push_decimal, string_of, strings, trim_end,
};

verus! {

/// The longest that a name may be, in characters.
pub const NAME_LIMIT: usize = 64;

/// The suffix that numbers a name.
pub open spec fn number_suffix(n: nat) -> Seq<char> {
    " - "@ + decimal(n)
}

/// The part of a name that stays when a suffix of `len` characters is put behind it.
pub open spec fn name_base(desired: Seq<char>, len: nat) -> Seq<char> {
    if desired.len() + len <= NAME_LIMIT {
        desired
    } else if len <= NAME_LIMIT {
        desired.take(NAME_LIMIT - len)
    } else {
        Seq::empty()
    }
}

/// `desired` with the number `n` behind it, shortened where that would be too long.
pub open spec fn numbered(desired: Seq<char>, n: nat) -> Seq<char> {
    trim_end(name_base(desired, number_suffix(n).len())) + number_suffix(n)
}

/// Whether `n` is the first number from 2 on with which `desired` is not taken.
pub open spec fn is_first_free(desired: Seq<char>, taken: Seq<Seq<char>>, n: nat) -> bool {
    &&& n >= 2
    &&& !taken.contains(numbered(desired, n))
    &&& forall|m: nat| 2 <= m < n ==> taken.contains(#[trigger] numbered(desired, m))
}

/// `desired` if it is free, and otherwise `desired` with the first number from 2 on that makes it
/// free.
pub open spec fn free_name(desired: Seq<char>, taken: Seq<Seq<char>>) -> Seq<char> {
    if !taken.contains(desired) {
        desired
    } else {
        numbered(desired, choose|n: nat| is_first_free(desired, taken, n))
    }
}

/// A decimal numeral is made of digits, is not empty and stands for its number.
pub proof fn law_decimal_reads_back(n: nat)
    ensures
        all_digits(decimal(n)),
        decimal(n).len() > 0,
        digits_value(decimal(n)) == n,
    decreases n,
{
    reveal_with_fuel(digits_value, 2);
    if n >= 10 {
        law_decimal_reads_back(n / 10);
        assert(decimal(n).drop_last() == decimal(n / 10));
    } else {
        assert(decimal(n).drop_last() == Seq::<char>::empty());
    }
}

/// A number below `10^k` has at most `k` digits.
proof fn lemma_decimal_len(n: nat, k: nat)
    requires
        k > 0,
        n < vstd::arithmetic::power::pow(10, k),
    ensures
        decimal(n).len() <= k,
    decreases k,
{
    vstd::arithmetic::power::lemma_pow1(10);
    if n >= 10 {
        if k > 1 {
            vstd::arithmetic::power::lemma_pow_adds(10, (k - 1) as nat, 1);
            assert(n / 10 < vstd::arithmetic::power::pow(10, (k - 1) as nat)) by (nonlinear_arith)
                requires
                    n < vstd::arithmetic::power::pow(10, (k - 1) as nat) * 10,
            ;
            lemma_decimal_len(n / 10, (k - 1) as nat);
        }
    }
}

/// Different numbers make different names.
proof fn lemma_numbered_injective(desired: Seq<char>, a: nat, b: nat)
    requires
        numbered(desired, a) == numbered(desired, b),
    ensures
        a == b,
{
    law_decimal_reads_back(a);
    law_decimal_reads_back(b);
    let s = numbered(desired, a);
    let da = decimal(a);
    let db = decimal(b);
    reveal_strlit(" - ");
    assert(s.skip(s.len() - da.len()) == da);
    assert(s.skip(s.len() - db.len()) == db);
    assert(s[s.len() - da.len() - 1] == ' ');
    assert(s[s.len() - db.len() - 1] == ' ');
    if da.len() < db.len() {
        assert(s.skip(s.len() - db.len())[db.len() - da.len() - 1] == ' ');
        assert(is_digit(db[db.len() - da.len() - 1]));
    } else if db.len() < da.len() {
        assert(s.skip(s.len() - da.len())[da.len() - db.len() - 1] == ' ');
        assert(is_digit(da[da.len() - db.len() - 1]));
    }
}

/// Not all of the first `taken.len() + 1` numbered names can be taken.
proof fn lemma_some_number_free(desired: Seq<char>, taken: Seq<Seq<char>>)
    ensures
        exists|n: nat| 2 <= n <= taken.len() + 2 && !taken.contains(#[trigger] numbered(desired, n)),
{
    if forall|n: nat|
        2 <= n <= taken.len() + 2 ==> taken.contains(#[trigger] numbered(desired, n)) {
        let names = Seq::new(taken.len() + 1, |i: int| numbered(desired, (i + 2) as nat));
        assert(names.no_duplicates()) by {
            assert forall|i: int, j: int|
                0 <= i < names.len() && 0 <= j < names.len() && i != j implies names[i]
                != names[j] by {
                if names[i] == names[j] {
                    lemma_numbered_injective(desired, (i + 2) as nat, (j + 2) as nat);
                }
            }
        }
        names.unique_seq_to_set();
        taken.lemma_cardinality_of_set();
        vstd::seq_lib::seq_to_set_is_finite(taken);
        assert(names.to_set().subset_of(taken.to_set())) by {
            assert forall|x: Seq<char>| names.to_set().contains(x) implies taken.to_set().contains(
                x,
            ) by {
                let i = choose|i: int| 0 <= i < names.len() && names[i] == x;
                assert(taken.contains(numbered(desired, (i + 2) as nat)));
            }
        }
        vstd::set_lib::lemma_len_subset(names.to_set(), taken.to_set());
        assert(false);
    }
}

/// Two numbers that are both the first free one are the same.
pub proof fn lemma_first_free_unique(desired: Seq<char>, taken: Seq<Seq<char>>, a: nat, b: nat)
    requires
        is_first_free(desired, taken, a),
        is_first_free(desired, taken, b),
    ensures
        a == b,
{
    if a < b {
        assert(taken.contains(numbered(desired, a)));
    } else if b < a {
        assert(taken.contains(numbered(desired, b)));
    }
}

/// Whether `name` is one of `taken`.
pub fn is_taken(taken: &Vec<String>, name: &String) -> (r: bool)
    ensures
        r == strings(taken@).contains(name@),
{
    let mut i: usize = 0;
    while i < taken.len()
        invariant
            i <= taken.len(),
            forall|k: int| 0 <= k < i ==> #[trigger] strings(taken@)[k] != name@,
        decreases taken.len() - i,
    {
        if taken[i] == *name {
            assert(strings(taken@)[i as int] == name@);
            return true;
        }
        i += 1;
    }
    false
}

/// `desired` with the number `n` behind it, shortened where that would be too long.
fn number_name(desired: &String, n: u128) -> (r: String)
    ensures
        r@ == numbered(desired@, n as nat),
{
    let mut suffix = String::from_str(" - ");
    push_decimal(&mut suffix, n);
    let v = chars_of(desired.as_str());
    let len: usize = suffix.as_str().unicode_len();
    let room: usize = if len <= NAME_LIMIT {
        NAME_LIMIT - len
    } else {
        0
    };
    let mut to: usize = if v.len() <= room {
        v.len()
    } else {
        room
    };
    let ghost base = name_base(desired@, len as nat);
    assert(base == v@.subrange(0, to as int));
    while to > 0 && is_whitespace(v[to - 1])
        invariant
            to <= v.len(),
            trim_end(base) == trim_end(v@.subrange(0, to as int)),
        decreases to,
    {
        assert(v@.subrange(0, to as int).drop_last() == v@.subrange(0, to - 1));
        to -= 1;
    }
    let mut out = string_of(&v, 0, to);
    out.append(suffix.as_str());
    out
}

/// `desired` if it is free, and otherwise the first free one of "desired - 2", "desired - 3" and
/// so on. The base is shortened where the suffix would push it past the length limit.
pub fn unique_name(desired: String, taken: &Vec<String>) -> (r: String)
    ensures
        r@ == free_name(desired@, strings(taken@)),
{
    if !is_taken(taken, &desired) {
        return desired;
    }
    let ghost names = strings(taken@);
    let limit: u128 = taken.len() as u128 + 2;
    let mut n: u128 = 2;
    loop
        invariant
            names == strings(taken@),
            names.contains(desired@),
            2 <= n <= limit,
            limit == names.len() + 2,
            forall|m: nat| 2 <= m < n ==> names.contains(#[trigger] numbered(desired@, m)),
        decreases limit - n,
    {
        let candidate = number_name(&desired, n);
        if !is_taken(taken, &candidate) {
            proof {
                assert(is_first_free(desired@, names, n as nat));
                let chosen = choose|m: nat| is_first_free(desired@, names, m);
                lemma_first_free_unique(desired@, names, n as nat, chosen);
            }
            return candidate;
        }
        proof {
            lemma_some_number_free(desired@, names);
            assert(names.contains(numbered(desired@, n as nat)));
            if n == limit {
                let free = choose|m: nat|
                    2 <= m <= names.len() + 2 && !names.contains(#[trigger] numbered(desired@, m));
                assert(free < n || free == n);
                assert(false);
            }
        }
        n += 1;
    }
}

/// Some number makes a name free, and it is at most two more than the number of taken names.
pub proof fn lemma_first_free_exists(desired: Seq<char>, taken: Seq<Seq<char>>)
    ensures
        exists|n: nat| n <= taken.len() + 2 && #[trigger] is_first_free(desired, taken, n),
{
    lemma_some_number_free(desired, taken);
    let n = choose|n: nat|
        2 <= n <= taken.len() + 2 && !taken.contains(#[trigger] numbered(desired, n));
    lemma_least_free(desired, taken, n);
}

proof fn lemma_least_free(desired: Seq<char>, taken: Seq<Seq<char>>, n: nat)
    requires
        2 <= n,
        !taken.contains(numbered(desired, n)),
    ensures
        exists|m: nat| m <= n && #[trigger] is_first_free(desired, taken, m),
    decreases n,
{
    if exists|m: nat| 2 <= m < n && !taken.contains(#[trigger] numbered(desired, m)) {
        let m = choose|m: nat| 2 <= m < n && !taken.contains(#[trigger] numbered(desired, m));
        lemma_least_free(desired, taken, m);
    } else {
        assert(is_first_free(desired, taken, n));
    }
}

/// The name that is made free is not taken.
pub proof fn law_free_name_is_free(desired: Seq<char>, taken: Seq<Seq<char>>)
    ensures
        !taken.contains(free_name(desired, taken)),
{
    lemma_first_free_exists(desired, taken);
}

/// Trimming the end leaves a prefix that does not end in white space.
pub proof fn lemma_trim_end(s: Seq<char>)
    ensures
        trim_end(s).len() <= s.len(),
        trim_end(s) == s.take(trim_end(s).len() as int),
        trim_end(s).len() > 0 ==> !is_white_space(trim_end(s).last()),
        s.len() > 0 && !is_white_space(s[0]) ==> trim_end(s).len() > 0,
    decreases s.len(),
{
    if s.len() > 0 && is_white_space(s.last()) {
        lemma_trim_end(s.drop_last());
        let t = trim_end(s.drop_last());
        assert(s.drop_last().take(t.len() as int) == s.take(t.len() as int));
    } else {
        assert(s.take(s.len() as int) == s);
    }
}

/// A well-formed name stays well formed when it is numbered with a number of at most 60 digits.
proof fn lemma_numbered_valid(desired: Seq<char>, n: nat)
    requires
        valid_name(desired),
        decimal(n).len() <= 60,
    ensures
        valid_name(numbered(desired, n)),
{
    reveal_strlit(" - ");
    reveal_strlit("  ");
    law_decimal_reads_back(n);
    let suffix = number_suffix(n);
    let base = name_base(desired, suffix.len());
    lemma_trim_end(base);
    let t = trim_end(base);
    let r = numbered(desired, n);
    assert(!is_white_space(desired[0])) by {
        if is_white_space(desired[0]) {
            assert(desired[0] == ' ');
        }
    }
    assert(base[0] == desired[0]);
    assert(forall|i: int| 0 <= i < t.len() ==> #[trigger] r[i] == desired[i]);
    assert(r.last() == decimal(n).last());
    assert(is_digit(decimal(n)[decimal(n).len() - 1]));
    assert forall|i: int| 0 <= i < r.len() && is_white_space(#[trigger] r[i]) implies r[i]
        == ' ' by {
        if i < t.len() {
            assert(r[i] == desired[i]);
        } else if i >= t.len() + 3 {
            assert(r[i] == decimal(n)[i - t.len() - 3]);
            assert(is_digit(decimal(n)[i - t.len() - 3]));
        } else {
            assert(r[i] == " - "@[i - t.len()]);
        }
    }
    assert(!occurs("  "@, r)) by {
        if occurs("  "@, r) {
            let i = choose|i: int| #[trigger] occurs_at("  "@, r, i);
            assert(r.subrange(i, i + 2)[0] == ' ' && r.subrange(i, i + 2)[1] == ' ');
            assert(r[i] == ' ' && r[i + 1] == ' ');
            if i + 1 < t.len() {
                assert(desired.subrange(i, i + 2) == "  "@);
                assert(occurs_at("  "@, desired, i));
            } else if i + 1 == t.len() {
                assert(t.last() == r[i]);
            } else if i + 1 < t.len() + 3 {
                assert(r[i] == " - "@[i - t.len()]);
                assert(r[i + 1] == " - "@[i + 1 - t.len()]);
            } else {
                assert(r[i + 1] == decimal(n)[i + 1 - t.len() - 3]);
                assert(is_digit(decimal(n)[i + 1 - t.len() - 3]));
            }
        }
    }
}

/// A well-formed name stays well formed when it is made free, for any number of taken names that
/// a machine can hold.
pub proof fn law_free_name_is_valid(desired: Seq<char>, taken: Seq<Seq<char>>)
    requires
        valid_name(desired),
        taken.len() <= usize::MAX,
    ensures
        valid_name(free_name(desired, taken)),
{
    if taken.contains(desired) {
        lemma_first_free_exists(desired, taken);
        let n = choose|n: nat| n <= taken.len() + 2 && #[trigger] is_first_free(desired, taken, n);
        let chosen = choose|n: nat| is_first_free(desired, taken, n);
        lemma_first_free_unique(desired, taken, n, chosen);
        assert(vstd::arithmetic::power::pow(10, 21) > 0x1_0000_0000_0000_0010) by {
            vstd::arithmetic::power::lemma_pow_adds(10, 7, 7);
            vstd::arithmetic::power::lemma_pow_adds(10, 14, 7);
            reveal_with_fuel(vstd::arithmetic::power::pow, 8);
            assert(vstd::arithmetic::power::pow(10, 7) == 10_000_000);
        }
        lemma_decimal_len(n, 21);
        lemma_numbered_valid(desired, n);
    }
}

} // verus!
