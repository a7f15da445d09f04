//! Names that nothing answers to yet.

use crate::text::{contains_text, decimal, decimal_text, lemma_decimal_injective, texts};
use vstd::prelude::*;

verus! {

/// `base_2`, `base_3` and so on.
pub open spec fn suffixed(base: Seq<char>, n: nat) -> Seq<char> {
    base + seq!['_'] + decimal(n)
}

pub open spec fn is_free(base: Seq<char>, taken: Seq<Seq<char>>, n: int) -> bool {
    n >= 2 && !taken.contains(suffixed(base, n as nat))
}

/// Whether `n` is the first number from 2 on with which the name is not taken.
pub open spec fn is_first_free(base: Seq<char>, taken: Seq<Seq<char>>, n: int) -> bool {
    is_free(base, taken, n) && forall|k: int| 2 <= k < n ==> !is_free(base, taken, k)
}

/// `base` if it is not taken, or else the first of `base_2`, `base_3` and so on
/// that is not.
pub open spec fn free_name(base: Seq<char>, taken: Seq<Seq<char>>) -> Seq<char> {
    if !taken.contains(base) {
        base
    } else {
        suffixed(base, (choose|n: int| is_first_free(base, taken, n)) as nat)
    }
}

proof fn lemma_suffixed_injective(base: Seq<char>, a: nat, b: nat)
    requires
        suffixed(base, a) == suffixed(base, b),
    ensures
        a == b,
{
    let n = base.len() + 1;
    assert(suffixed(base, a).skip(n as int) =~= decimal(a));
    assert(suffixed(base, b).skip(n as int) =~= decimal(b));
    lemma_decimal_injective(a, b);
}

/// Among one more numbers than there are names taken, one gives a free name.
proof fn lemma_some_free(base: Seq<char>, taken: Seq<Seq<char>>)
    ensures
        exists|n: int| 2 <= n <= taken.len() + 2 && is_free(base, taken, n),
{
    if forall|n: int| 2 <= n <= taken.len() + 2 ==> !is_free(base, taken, n) {
        let tried = Seq::new(taken.len() + 1, |i: int| suffixed(base, (i + 2) as nat));
        assert(tried.no_duplicates()) by {
            assert forall|i: int, j: int| 0 <= i < tried.len() && 0 <= j < tried.len() && i
                != j implies tried[i] != tried[j] by {
                if tried[i] == tried[j] {
                    lemma_suffixed_injective(base, (i + 2) as nat, (j + 2) as nat);
                }
            }
        }
        tried.unique_seq_to_set();
        taken.lemma_cardinality_of_set();
        assert forall|s: Seq<char>| tried.to_set().contains(s) implies taken.to_set().contains(
            s,
        ) by {
            let i = choose|i: int| 0 <= i < tried.len() && tried[i] == s;
            assert(!is_free(base, taken, i + 2));
        }
        assert(tried.to_set().subset_of(taken.to_set()));
        vstd::set_lib::lemma_len_subset(tried.to_set(), taken.to_set());
    }
}

/// The name that is found is not taken.
pub proof fn law_free_name_is_not_taken(base: Seq<char>, taken: Seq<Seq<char>>)
    ensures
        !taken.contains(free_name(base, taken)),
        !taken.contains(base) ==> free_name(base, taken) == base,
        taken.contains(base) ==> exists|n: int|
            n >= 2 && free_name(base, taken) == #[trigger] suffixed(base, n as nat),
{
    if taken.contains(base) {
        lemma_some_free(base, taken);
        let n = choose|n: int| 2 <= n <= taken.len() + 2 && is_free(base, taken, n);
        lemma_first_free(base, taken, n);
        let first = choose|n: int| is_first_free(base, taken, n);
        assert(is_first_free(base, taken, first));
        assert(free_name(base, taken) == suffixed(base, first as nat));
    }
}

/// The name that is found is `base` where nothing has it. Otherwise it is `base`, an
/// underscore and a number from 2 on: the first with which nothing has the name.
pub proof fn law_first_free_name(base: Seq<char>, taken: Seq<Seq<char>>)
    ensures
        !taken.contains(base) ==> free_name(base, taken) == base,
        taken.contains(base) ==> exists|n: nat|
            {
                &&& n >= 2
                &&& free_name(base, taken) == base + seq!['_'] + #[trigger] decimal(n)
                &&& !taken.contains(base + seq!['_'] + decimal(n))
                &&& forall|k: nat|
                    2 <= k < n ==> taken.contains(base + seq!['_'] + #[trigger] decimal(k))
            },
{
    if taken.contains(base) {
        lemma_some_free(base, taken);
        let some = choose|n: int| 2 <= n <= taken.len() + 2 && is_free(base, taken, n);
        lemma_first_free(base, taken, some);
        let n = choose|n: int| is_first_free(base, taken, n);
        assert forall|k: nat| 2 <= k < n implies taken.contains(
            base + seq!['_'] + #[trigger] decimal(k),
        ) by {
            assert(!is_free(base, taken, k as int));
        }
        assert(free_name(base, taken) == base + seq!['_'] + decimal(n as nat));
    }
}

/// Where some number gives a name that is not taken, there is a first one.
proof fn lemma_first_free(base: Seq<char>, taken: Seq<Seq<char>>, n: int)
    requires
        is_free(base, taken, n),
    ensures
        exists|k: int| is_first_free(base, taken, k),
    decreases n,
{
    if !is_first_free(base, taken, n) {
        let k = choose|k: int| 2 <= k < n && is_free(base, taken, k);
        lemma_first_free(base, taken, k);
    }
}

/// `base` if it is not taken, or else the first of `base_2`, `base_3` and so on
/// that is not.
pub fn unique_name(base: &str, taken: &Vec<String>) -> (name: String)
    ensures
        name@ == free_name(base@, texts(taken@)),
        !texts(taken@).contains(name@),
{
    let mut name = base.to_owned();
    if !contains_text(taken, base) {
        return name;
    }
    let count: usize = taken.len();
    let mut n: u128 = 2;
    name = candidate(base, n);
    while contains_text(taken, name.as_str())
        invariant
            count == taken@.len(),
            2 <= n <= count + 2,
            name@ == suffixed(base@, n as nat),
            forall|k: int| 2 <= k < n ==> !is_free(base@, texts(taken@), k),
        decreases count + 2 - n,
    {
        proof {
            lemma_some_free(base@, texts(taken@));
            let free = choose|k: int|
                2 <= k <= texts(taken@).len() + 2 && is_free(base@, texts(taken@), k);
            assert(free >= n);
            assert(!is_free(base@, texts(taken@), n as int));
        }
        n += 1;
        name = candidate(base, n);
    }
    proof {
        assert(is_first_free(base@, texts(taken@), n as int));
        let first = choose|k: int| is_first_free(base@, texts(taken@), k);
        assert(first == n) by {
            assert(is_first_free(base@, texts(taken@), first));
            if first < n {
                assert(!is_free(base@, texts(taken@), first));
            }
            if n < first {
                assert(!is_free(base@, texts(taken@), n as int));
            }
        }
    }
    name
}

fn candidate(base: &str, n: u128) -> (out: String)
    ensures
        out@ == suffixed(base@, n as nat),
{
    let mut out = base.to_owned();
    out.push('_');
    out.append(&decimal_text(n));
    assert(out@ =~= suffixed(base@, n as nat));
    out
}

} // verus!
