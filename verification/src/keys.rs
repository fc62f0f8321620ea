use vstd::prelude::*;

use vstd::arithmetic::div_mod::lemma_fundamental_div_mod;
use vstd::string::StringExecFns;

use crate::bibliography::{contains_key, unique_keys, Bibliography};
use crate::record::{with_key, Record, RecordView};

verus! {

/// The character for one decimal digit.
pub open spec fn digit_char(d: int) -> char {
    if d == 0 {
        '0'
    } else if d == 1 {
        '1'
    } else if d == 2 {
        '2'
    } else if d == 3 {
        '3'
    } else if d == 4 {
        '4'
    } else if d == 5 {
        '5'
    } else if d == 6 {
        '6'
    } else if d == 7 {
        '7'
    } else if d == 8 {
        '8'
    } else {
        '9'
    }
}

/// The decimal digit string of `n`, without leading zeros.
pub open spec fn decimal(n: int) -> Seq<char>
    decreases n,
{
    if n < 10 {
        seq![digit_char(n)]
    } else {
        decimal(n / 10).push(digit_char(n % 10))
    }
}

/// A probe of the identifier allocator: the preferred key, an underscore,
/// and a counter.
pub open spec fn candidate_key(base: Seq<char>, n: int) -> Seq<char> {
    base + seq!['_'] + decimal(n)
}

proof fn lemma_decimal_len(n: int)
    ensures
        decimal(n).len() >= 1,
        n >= 10 ==> decimal(n).len() >= 2,
    decreases n,
{
    if n >= 10 {
        lemma_decimal_len(n / 10);
    }
}

proof fn lemma_digit_char_injective(a: int, b: int)
    requires
        0 <= a < 10,
        0 <= b < 10,
        digit_char(a) == digit_char(b),
    ensures
        a == b,
{
}

proof fn lemma_decimal_injective(m: int, n: int)
    requires
        0 <= m,
        0 <= n,
        decimal(m) == decimal(n),
    ensures
        m == n,
    decreases m,
{
    lemma_decimal_len(m);
    lemma_decimal_len(n);
    if m < 10 && n < 10 {
        assert(seq![digit_char(m)][0] == digit_char(m));
        assert(seq![digit_char(n)][0] == digit_char(n));
        assert(decimal(m)[0] == decimal(n)[0]);
        lemma_digit_char_injective(m, n);
    } else if m < 10 {
        assert(decimal(m).len() == 1);
        assert(false);
    } else if n < 10 {
        assert(decimal(n).len() == 1);
        assert(false);
    } else {
        assert(decimal(m).last() == digit_char(m % 10));
        assert(decimal(n).last() == digit_char(n % 10));
        lemma_digit_char_injective(m % 10, n % 10);
        assert(decimal(m).drop_last() =~= decimal(m / 10));
        assert(decimal(n).drop_last() =~= decimal(n / 10));
        lemma_decimal_injective(m / 10, n / 10);
        lemma_fundamental_div_mod(m, 10);
        lemma_fundamental_div_mod(n, 10);
    }
}

proof fn lemma_candidate_key_injective(base: Seq<char>, m: int, n: int)
    requires
        0 <= m,
        0 <= n,
        candidate_key(base, m) == candidate_key(base, n),
    ensures
        m == n,
{
    let p = base + seq!['_'];
    assert(candidate_key(base, m) == p + decimal(m));
    assert(candidate_key(base, n) == p + decimal(n));
    assert((p + decimal(m)).skip(p.len() as int) =~= decimal(m));
    assert((p + decimal(n)).skip(p.len() as int) =~= decimal(n));
    lemma_decimal_injective(m, n);
}

/// `n` is the first probe counter whose candidate key is absent from `s`.
pub open spec fn is_first_free_suffix(s: Seq<RecordView>, base: Seq<char>, n: int) -> bool {
    &&& 1 <= n
    &&& !contains_key(s, candidate_key(base, n))
    &&& forall|m: int| 1 <= m < n ==> contains_key(s, candidate_key(base, m))
}

proof fn lemma_free_candidate_exists(s: Seq<RecordView>, base: Seq<char>, bound: int)
    requires
        bound > s.len(),
    ensures
        exists|n: int| 1 <= n <= bound && !contains_key(s, candidate_key(base, n)),
{
    broadcast use vstd::seq_lib::seq_to_set_is_finite;
    broadcast use vstd::set::group_set_axioms;

    if forall|n: int| 1 <= n <= bound ==> contains_key(s, candidate_key(base, n)) {
        let keys = Seq::new(s.len(), |i: int| s[i].key);
        let cands = Seq::new(bound as nat, |i: int| candidate_key(base, i + 1));
        assert forall|i: int, j: int| 0 <= i < j < cands.len() implies cands[i] != cands[j] by {
            if cands[i] == cands[j] {
                lemma_candidate_key_injective(base, i + 1, j + 1);
            }
        }
        assert(cands.no_duplicates());
        cands.unique_seq_to_set();
        keys.lemma_cardinality_of_set();
        assert forall|k: Seq<char>| cands.to_set().contains(k) implies keys.to_set().contains(
            k,
        ) by {
            let i = choose|i: int| 0 <= i < cands.len() && cands[i] == k;
            assert(contains_key(s, candidate_key(base, i + 1)));
            let j = choose|j: int| 0 <= j < s.len() && s[j].key == candidate_key(base, i + 1);
            assert(keys[j] == k);
            assert(keys.contains(k));
        }
        vstd::set_lib::lemma_len_subset(cands.to_set(), keys.to_set());
        assert(false);
    }
}

proof fn lemma_first_free_below(s: Seq<RecordView>, base: Seq<char>, f: int)
    requires
        1 <= f,
        !contains_key(s, candidate_key(base, f)),
    ensures
        exists|n: int| is_first_free_suffix(s, base, n),
    decreases f,
{
    if forall|m: int| 1 <= m < f ==> contains_key(s, candidate_key(base, m)) {
        assert(is_first_free_suffix(s, base, f));
    } else {
        let m = choose|m: int| 1 <= m < f && !contains_key(s, candidate_key(base, m));
        lemma_first_free_below(s, base, m);
    }
}

/// There always is a first free probe counter, and only one.
pub proof fn lemma_first_free_exists(s: Seq<RecordView>, base: Seq<char>)
    ensures
        exists|n: int| is_first_free_suffix(s, base, n),
{
    lemma_free_candidate_exists(s, base, s.len() as int + 1);
    let f = choose|n: int| 1 <= n <= s.len() + 1 && !contains_key(s, candidate_key(base, n));
    lemma_first_free_below(s, base, f);
}

pub proof fn lemma_first_free_unique(s: Seq<RecordView>, base: Seq<char>, n1: int, n2: int)
    requires
        is_first_free_suffix(s, base, n1),
        is_first_free_suffix(s, base, n2),
    ensures
        n1 == n2,
{
}

/// The key that the allocator hands a record whose preferred key collides:
/// the candidate of the first free probe counter.
pub open spec fn first_free_key(s: Seq<RecordView>, base: Seq<char>) -> Seq<char> {
    candidate_key(base, choose|n: int| is_first_free_suffix(s, base, n))
}

/// The key under which a record preferring `preferred` enters the collection
/// `s`: `preferred` itself when free, else the first free probe candidate.
pub open spec fn alloc_key(s: Seq<RecordView>, preferred: Seq<char>) -> Seq<char> {
    if !contains_key(s, preferred) {
        preferred
    } else {
        first_free_key(s, preferred)
    }
}

/// What the allocator returns is never a key already present.
pub proof fn lemma_alloc_key_fresh(s: Seq<RecordView>, preferred: Seq<char>)
    ensures
        !contains_key(s, alloc_key(s, preferred)),
{
    if contains_key(s, preferred) {
        lemma_first_free_exists(s, preferred);
        let n = choose|n: int| is_first_free_suffix(s, preferred, n);
        assert(is_first_free_suffix(s, preferred, n));
    }
}

fn digit_str(d: u64) -> (r: &'static str)
    requires
        d < 10,
    ensures
        r@ == seq![digit_char(d as int)],
{
    let r: &'static str = if d == 0 {
        "0"
    } else if d == 1 {
        "1"
    } else if d == 2 {
        "2"
    } else if d == 3 {
        "3"
    } else if d == 4 {
        "4"
    } else if d == 5 {
        "5"
    } else if d == 6 {
        "6"
    } else if d == 7 {
        "7"
    } else if d == 8 {
        "8"
    } else {
        "9"
    };
    proof {
        reveal_strlit("0");
        reveal_strlit("1");
        reveal_strlit("2");
        reveal_strlit("3");
        reveal_strlit("4");
        reveal_strlit("5");
        reveal_strlit("6");
        reveal_strlit("7");
        reveal_strlit("8");
        reveal_strlit("9");
        assert(r@ =~= seq![digit_char(d as int)]);
    }
    r
}

/// The decimal digit string of `n`.
pub fn decimal_string(n: u64) -> (s: String)
    ensures
        s@ == decimal(n as int),
    decreases n,
{
    if n < 10 {
        String::from_str(digit_str(n))
    } else {
        let mut s = decimal_string(n / 10);
        s.append(digit_str(n % 10));
        proof {
            assert(s@ =~= decimal(n as int));
        }
        s
    }
}

fn make_candidate(base: &str, n: u64) -> (s: String)
    ensures
        s@ == candidate_key(base@, n as int),
{
    let mut s = String::from_str(base);
    s.append("_");
    let digits = decimal_string(n);
    s.append(digits.as_str());
    proof {
        reveal_strlit("_");
        assert(s@ =~= candidate_key(base@, n as int));
    }
    s
}

/// Gets a new, non-repeated citation key: the first of `old_key` followed by
/// an underscore and 1, 2, 3, … that no record of the bibliography carries.
pub fn get_new_citation_key(old_key: &str, bibliography: &Bibliography) -> (r: String)
    requires
        bibliography@.len() < u64::MAX,
    ensures
        r@ == first_free_key(bibliography@, old_key@),
        is_first_free_suffix(bibliography@, old_key@, choose|n: int|
            is_first_free_suffix(bibliography@, old_key@, n)),
{
    let ghost s = bibliography@;
    let mut try_num: u64 = 1;
    loop
        invariant
            1 <= try_num <= s.len() + 1,
            s == bibliography@,
            s.len() < u64::MAX,
            forall|m: int| 1 <= m < try_num ==> contains_key(s, candidate_key(old_key@, m)),
        decreases s.len() + 1 - try_num,
    {
        let new_key = make_candidate(old_key, try_num);
        if bibliography.has_key(&new_key) {
            proof {
                if try_num == s.len() + 1 {
                    lemma_free_candidate_exists(s, old_key@, s.len() as int + 1);
                    assert(false);
                }
            }
            try_num = try_num + 1;
        } else {
            proof {
                assert(is_first_free_suffix(s, old_key@, try_num as int));
                let picked = choose|n: int| is_first_free_suffix(s, old_key@, n);
                lemma_first_free_exists(s, old_key@);
                lemma_first_free_unique(s, old_key@, try_num as int, picked);
            }
            return new_key;
        }
    }
}

/// Adds an entry to a bibliography, checking that the key is not repeated:
/// an entry whose citation key is already present enters under the key that
/// [`alloc_key`] describes, every other entry under its own.
pub fn add_entry_to_bibliography(entry: Record, bibliography: &mut Bibliography)
    requires
        unique_keys(old(bibliography)@),
        old(bibliography)@.len() < u64::MAX,
    ensures
        final(bibliography)@ == old(bibliography)@.push(
            with_key(entry@, alloc_key(old(bibliography)@, entry@.key)),
        ),
        unique_keys(final(bibliography)@),
{
    let ghost s = old(bibliography)@;
    proof {
        lemma_alloc_key_fresh(s, entry@.key);
    }
    if bibliography.get(&entry.key).is_some() {
        let new_key = get_new_citation_key(entry.key.as_str(), bibliography);
        let entry2 = Record {
            key: new_key,
            title: entry.title,
            doi: entry.doi,
            extra: entry.extra,
        };
        assert(entry2@ == with_key(entry@, alloc_key(s, entry@.key)));
        bibliography.push(entry2);
    } else {
        assert(with_key(entry@, alloc_key(s, entry@.key)) == entry@);
        bibliography.push(entry);
    }
    proof {
        let t = bibliography@;
        let k = alloc_key(s, entry@.key);
        assert forall|i: int, j: int| 0 <= i < j < t.len() implies t[i].key != t[j].key by {
            if j == t.len() - 1 {
                assert(t[j].key == k);
                if t[i].key == k {
                    assert(contains_key(s, k));
                }
            }
        }
    }
}

} // verus!
