//! Building, shuffling and validating the password pool.

use vstd::prelude::*;

use rand::seq::SliceRandom;
use rand::thread_rng;

use crate::charset::{capital_char, number_char, simple_char, special_char};
use crate::charset::{capital_at, capital_pool, number_at, number_pool, simple_at, simple_pool,
    special_pool, special_symbol};
use crate::charset::{is_capital, is_number, is_simple, is_special};
use crate::config::{Config, ConfigError};

verus! {

/// How many shuffle-and-truncate rounds `generate` tries before giving
/// up. A round fails only when truncation drops an entire enabled
/// category, which is vanishingly rare for pools this large.
pub const MAX_ATTEMPTS: usize = 10000;

/// The character may appear in a password for this configuration: it
/// belongs to one of the enabled categories.
pub open spec fn char_enabled(cfg: Config, c: char) -> bool {
    ||| cfg.use_capital && is_capital(c)
    ||| cfg.use_simple && is_simple(c)
    ||| cfg.use_special && is_special(c)
    ||| cfg.use_number && is_number(c)
}

/// The exact pool the generator hands to the shuffle: the concatenation,
/// in a fixed order, of each enabled category's repeated alphabet.
pub open spec fn pool_spec(cfg: Config) -> Seq<char> {
    (if cfg.use_capital {
        capital_pool()
    } else {
        Seq::empty()
    }) + (if cfg.use_simple {
        simple_pool()
    } else {
        Seq::empty()
    }) + (if cfg.use_special {
        special_pool()
    } else {
        Seq::empty()
    }) + (if cfg.use_number {
        number_pool()
    } else {
        Seq::empty()
    })
}

/// The string is a valid password for the configuration: it has exactly
/// the requested length, draws only on enabled categories, and contains
/// at least one character from every enabled category.
pub open spec fn satisfies(cfg: Config, s: Seq<char>) -> bool {
    &&& s.len() == cfg.length
    &&& forall|i: int| 0 <= i < s.len() ==> char_enabled(cfg, #[trigger] s[i])
    &&& cfg.use_capital ==> exists|i: int| 0 <= i < s.len() && is_capital(#[trigger] s[i])
    &&& cfg.use_simple ==> exists|i: int| 0 <= i < s.len() && is_simple(#[trigger] s[i])
    &&& cfg.use_special ==> exists|i: int| 0 <= i < s.len() && is_special(#[trigger] s[i])
    &&& cfg.use_number ==> exists|i: int| 0 <= i < s.len() && is_number(#[trigger] s[i])
}

/// Every enabled category is represented among the characters: the check
/// the original performed with a regular expression, as a direct
/// character-class membership scan.
pub fn all_enabled_present(cfg: &Config, chars: &Vec<char>) -> (r: bool)
    ensures
        r == {
            &&& cfg.use_capital ==> exists|i: int|
                0 <= i < chars@.len() && is_capital(#[trigger] chars@[i])
            &&& cfg.use_simple ==> exists|i: int|
                0 <= i < chars@.len() && is_simple(#[trigger] chars@[i])
            &&& cfg.use_special ==> exists|i: int|
                0 <= i < chars@.len() && is_special(#[trigger] chars@[i])
            &&& cfg.use_number ==> exists|i: int|
                0 <= i < chars@.len() && is_number(#[trigger] chars@[i])
        },
{
    let mut has_capital: bool = false;
    let mut has_simple: bool = false;
    let mut has_special: bool = false;
    let mut has_number: bool = false;
    let mut k: usize = 0;
    while k < chars.len()
        invariant
            k <= chars@.len(),
            has_capital == exists|i: int| 0 <= i < k && is_capital(#[trigger] chars@[i]),
            has_simple == exists|i: int| 0 <= i < k && is_simple(#[trigger] chars@[i]),
            has_special == exists|i: int| 0 <= i < k && is_special(#[trigger] chars@[i]),
            has_number == exists|i: int| 0 <= i < k && is_number(#[trigger] chars@[i]),
        decreases chars@.len() - k,
    {
        let c = chars[k];
        if c >= 'A' && c <= 'Z' {
            has_capital = true;
        }
        if c >= 'a' && c <= 'z' {
            has_simple = true;
        }
        if c == '!' || c == '@' || c == '#' || c == '$' || c == '%' || c == '^' || c == '&'
            || c == '*' {
            has_special = true;
        }
        if c >= '0' && c <= '9' {
            has_number = true;
        }
        k = k + 1;
    }
    (!cfg.use_capital || has_capital) && (!cfg.use_simple || has_simple) && (!cfg.use_special
        || has_special) && (!cfg.use_number || has_number)
}

/// A valid password contains no character from a disabled category: its
/// characters all belong to enabled categories, and the four categories
/// are pairwise disjoint.
pub proof fn lemma_disabled_categories_absent(cfg: Config, s: Seq<char>)
    requires
        satisfies(cfg, s),
    ensures
        !cfg.use_capital ==> forall|i: int| 0 <= i < s.len() ==> !is_capital(#[trigger] s[i]),
        !cfg.use_simple ==> forall|i: int| 0 <= i < s.len() ==> !is_simple(#[trigger] s[i]),
        !cfg.use_special ==> forall|i: int| 0 <= i < s.len() ==> !is_special(#[trigger] s[i]),
        !cfg.use_number ==> forall|i: int| 0 <= i < s.len() ==> !is_number(#[trigger] s[i]),
{
    assert forall|i: int| 0 <= i < s.len() implies {
        &&& !cfg.use_capital ==> !is_capital(#[trigger] s[i])
        &&& !cfg.use_simple ==> !is_simple(s[i])
        &&& !cfg.use_special ==> !is_special(s[i])
        &&& !cfg.use_number ==> !is_number(s[i])
    } by {
        crate::charset::lemma_categories_disjoint(s[i]);
    }
}

/// The pool misses nothing it owes: every character of every enabled
/// category occurs somewhere in `pool_spec`, so generation never starts
/// from a pool that starves an enabled category.
pub proof fn lemma_pool_covers_categories(cfg: Config, c: char)
    requires
        char_enabled(cfg, c),
    ensures
        pool_spec(cfg).contains(c),
{
    crate::charset::lemma_categories_disjoint(c);
    let len_capital: int = if cfg.use_capital {
        130
    } else {
        0
    };
    let len_simple: int = if cfg.use_simple {
        130
    } else {
        0
    };
    let len_special: int = if cfg.use_special {
        128
    } else {
        0
    };
    if is_capital(c) {
        let i: int = c as int - 'A' as int;
        assert(capital_pool()[i] == c);
        assert(pool_spec(cfg)[i] == c);
        assert(pool_spec(cfg).contains(c));
    } else if is_simple(c) {
        let i: int = len_capital + (c as int - 'a' as int);
        assert(simple_pool()[c as int - 'a' as int] == c);
        assert(pool_spec(cfg)[i] == c);
        assert(pool_spec(cfg).contains(c));
    } else if is_special(c) {
        let k: int = if c == '!' {
            0
        } else if c == '@' {
            1
        } else if c == '#' {
            2
        } else if c == '$' {
            3
        } else if c == '%' {
            4
        } else if c == '^' {
            5
        } else if c == '&' {
            6
        } else {
            7
        };
        let i: int = len_capital + len_simple + k;
        assert(special_pool()[k] == c);
        assert(pool_spec(cfg)[i] == c);
        assert(pool_spec(cfg).contains(c));
    } else {
        let i: int = len_capital + len_simple + len_special + (c as int - '0' as int);
        assert(number_pool()[c as int - '0' as int] == c);
        assert(pool_spec(cfg)[i] == c);
        assert(pool_spec(cfg).contains(c));
    }
}

/// The pool the password is drawn from: exactly `pool_spec` — each
/// enabled category's alphabet, repeated until it holds at least 128
/// characters, so that a single-category pool still covers the largest
/// allowed length (127).
pub fn build_pool(cfg: &Config) -> (pool: Vec<char>)
    ensures
        pool@ == pool_spec(*cfg),
        forall|i: int| 0 <= i < pool@.len() ==> char_enabled(*cfg, #[trigger] pool@[i]),
        cfg.some_category_enabled() ==> pool@.len() >= 128,
{
    let mut pool: Vec<char> = Vec::new();
    let ghost seg_capital: Seq<char> = if cfg.use_capital {
        capital_pool()
    } else {
        Seq::empty()
    };
    let ghost seg_simple: Seq<char> = if cfg.use_simple {
        simple_pool()
    } else {
        Seq::empty()
    };
    let ghost seg_special: Seq<char> = if cfg.use_special {
        special_pool()
    } else {
        Seq::empty()
    };
    let ghost seg_number: Seq<char> = if cfg.use_number {
        number_pool()
    } else {
        Seq::empty()
    };
    if cfg.use_capital {
        let ghost prefix = pool@;
        let mut i: usize = 0;
        while i < 130
            invariant
                cfg.use_capital,
                i <= 130,
                pool@ == prefix + Seq::new(i as nat, |k: int| capital_at(k)),
                forall|j: int| 0 <= j < pool@.len() ==> char_enabled(*cfg, #[trigger] pool@[j]),
            decreases 130 - i,
        {
            pool.push(capital_char(i));
            proof {
                assert(pool@ =~= prefix + Seq::new((i + 1) as nat, |k: int| capital_at(k)));
            }
            i = i + 1;
        }
        proof {
            assert(pool@ =~= prefix + capital_pool());
        }
    }
    proof {
        assert(pool@ =~= seg_capital);
    }
    if cfg.use_simple {
        let ghost prefix = pool@;
        let mut i: usize = 0;
        while i < 130
            invariant
                cfg.use_simple,
                i <= 130,
                pool@ == prefix + Seq::new(i as nat, |k: int| simple_at(k)),
                forall|j: int| 0 <= j < pool@.len() ==> char_enabled(*cfg, #[trigger] pool@[j]),
            decreases 130 - i,
        {
            pool.push(simple_char(i));
            proof {
                assert(pool@ =~= prefix + Seq::new((i + 1) as nat, |k: int| simple_at(k)));
            }
            i = i + 1;
        }
        proof {
            assert(pool@ =~= prefix + simple_pool());
        }
    }
    proof {
        assert(pool@ =~= seg_capital + seg_simple);
    }
    if cfg.use_special {
        let ghost prefix = pool@;
        let mut i: usize = 0;
        while i < 128
            invariant
                cfg.use_special,
                i <= 128,
                pool@ == prefix + Seq::new(i as nat, |k: int| special_symbol(k)),
                forall|j: int| 0 <= j < pool@.len() ==> char_enabled(*cfg, #[trigger] pool@[j]),
            decreases 128 - i,
        {
            pool.push(special_char(i));
            proof {
                assert(pool@ =~= prefix + Seq::new((i + 1) as nat, |k: int| special_symbol(k)));
            }
            i = i + 1;
        }
        proof {
            assert(pool@ =~= prefix + special_pool());
        }
    }
    proof {
        assert(pool@ =~= seg_capital + seg_simple + seg_special);
    }
    if cfg.use_number {
        let ghost prefix = pool@;
        let mut i: usize = 0;
        while i < 130
            invariant
                cfg.use_number,
                i <= 130,
                pool@ == prefix + Seq::new(i as nat, |k: int| number_at(k)),
                forall|j: int| 0 <= j < pool@.len() ==> char_enabled(*cfg, #[trigger] pool@[j]),
            decreases 130 - i,
        {
            pool.push(number_char(i));
            proof {
                assert(pool@ =~= prefix + Seq::new((i + 1) as nat, |k: int| number_at(k)));
            }
            i = i + 1;
        }
        proof {
            assert(pool@ =~= prefix + number_pool());
        }
    }
    proof {
        assert(pool@ =~= seg_capital + seg_simple + seg_special + seg_number);
        assert(pool@ =~= pool_spec(*cfg));
    }
    pool
}

/// A permutation keeps the pool's length and keeps every character inside
/// the enabled categories.
proof fn lemma_permutation_preserves_enabled(cfg: Config, a: Seq<char>, b: Seq<char>)
    requires
        a.to_multiset() == b.to_multiset(),
        forall|i: int| 0 <= i < a.len() ==> char_enabled(cfg, #[trigger] a[i]),
    ensures
        b.len() == a.len(),
        forall|i: int| 0 <= i < b.len() ==> char_enabled(cfg, #[trigger] b[i]),
{
    broadcast use vstd::seq_lib::group_to_multiset_ensures;

    assert(a.len() == a.to_multiset().len());
    assert(b.len() == b.to_multiset().len());
    assert forall|i: int| 0 <= i < b.len() implies char_enabled(cfg, #[trigger] b[i]) by {
        assert(b.contains(b[i]));
        assert(b.to_multiset().count(b[i]) > 0);
        assert(a.to_multiset().count(b[i]) > 0);
        assert(a.contains(b[i]));
        let j = choose|j: int| 0 <= j < a.len() && a[j] == b[i];
        assert(char_enabled(cfg, a[j]));
    }
}

/// Truncating a sequence to a prefix can only lower each character's
/// count: the prefix's multiset is contained in the whole one.
proof fn lemma_prefix_submultiset(s: Seq<char>, n: int)
    requires
        0 <= n <= s.len(),
    ensures
        s.subrange(0, n).to_multiset().subset_of(s.to_multiset()),
{
    broadcast use vstd::multiset::group_multiset_axioms;

    let pre = s.subrange(0, n);
    let rest = s.subrange(n, s.len() as int);
    assert(s =~= pre + rest);
    vstd::seq_lib::lemma_multiset_commutative(pre, rest);
}

/// A sequence of pairwise-distinct characters holds any character at
/// most once.
proof fn lemma_count_distinct(s: Seq<char>, c: char)
    requires
        forall|i: int, j: int| 0 <= i < j < s.len() ==> s[i] != s[j],
    ensures
        s.to_multiset().count(c) == if s.contains(c) {
            1nat
        } else {
            0nat
        },
    decreases s.len(),
{
    broadcast use vstd::seq_lib::group_to_multiset_ensures;
    broadcast use vstd::multiset::group_multiset_axioms;

    if s.len() == 0 {
        assert(!s.contains(c));
    } else {
        let s0 = s.drop_last();
        let a = s.last();
        assert(s =~= s0.push(a));
        assert(s0.push(a).to_multiset() =~= s0.to_multiset().insert(a));
        lemma_count_distinct(s0, c);
        if a == c {
            assert(!s0.contains(c)) by {
                if s0.contains(c) {
                    let i = choose|i: int| 0 <= i < s0.len() && s0[i] == c;
                    assert(s[i] == s[s.len() - 1]);
                    assert(false);
                }
            }
            assert(s.contains(c));
        } else {
            if s0.contains(c) {
                let i = choose|i: int| 0 <= i < s0.len() && s0[i] == c;
                assert(s[i] == c);
                assert(s.contains(c));
            } else if s.contains(c) {
                let i = choose|i: int| 0 <= i < s.len() && s[i] == c;
                assert(s0[i] == c);
                assert(false);
            }
        }
    }
}

/// In any whole number of turns through the capital alphabet, each
/// capital letter occurs once per turn and nothing else occurs.
proof fn lemma_capital_prefix_count(n: nat, c: char)
    requires
        n % 26 == 0,
    ensures
        Seq::new(n, |i: int| capital_at(i)).to_multiset().count(c) == if is_capital(c) {
            n / 26
        } else {
            0nat
        },
    decreases n,
{
    broadcast use vstd::seq_lib::group_to_multiset_ensures;
    broadcast use vstd::multiset::group_multiset_axioms;

    let s = Seq::new(n, |i: int| capital_at(i));
    if n == 0 {
        assert(!s.contains(c));
    } else {
        let prev = Seq::new((n - 26) as nat, |i: int| capital_at(i));
        let block = Seq::new(26nat, |i: int| capital_at(i));
        assert(s =~= prev + block);
        vstd::seq_lib::lemma_multiset_commutative(prev, block);
        lemma_capital_prefix_count((n - 26) as nat, c);
        assert(forall|i: int| 0 <= i < 26 ==> block[i] == ('A' as int + i) as char);
        lemma_count_distinct(block, c);
        if is_capital(c) {
            assert(block[c as int - 'A' as int] == c);
            assert(block.contains(c));
        } else {
            assert(!block.contains(c)) by {
                if block.contains(c) {
                    let i = choose|i: int| 0 <= i < block.len() && block[i] == c;
                    assert(is_capital(block[i]));
                    assert(false);
                }
            }
        }
    }
}

/// In any whole number of turns through the simple alphabet, each simple
/// letter occurs once per turn and nothing else occurs.
proof fn lemma_simple_prefix_count(n: nat, c: char)
    requires
        n % 26 == 0,
    ensures
        Seq::new(n, |i: int| simple_at(i)).to_multiset().count(c) == if is_simple(c) {
            n / 26
        } else {
            0nat
        },
    decreases n,
{
    broadcast use vstd::seq_lib::group_to_multiset_ensures;
    broadcast use vstd::multiset::group_multiset_axioms;

    let s = Seq::new(n, |i: int| simple_at(i));
    if n == 0 {
        assert(!s.contains(c));
    } else {
        let prev = Seq::new((n - 26) as nat, |i: int| simple_at(i));
        let block = Seq::new(26nat, |i: int| simple_at(i));
        assert(s =~= prev + block);
        vstd::seq_lib::lemma_multiset_commutative(prev, block);
        lemma_simple_prefix_count((n - 26) as nat, c);
        assert(forall|i: int| 0 <= i < 26 ==> block[i] == ('a' as int + i) as char);
        lemma_count_distinct(block, c);
        if is_simple(c) {
            assert(block[c as int - 'a' as int] == c);
            assert(block.contains(c));
        } else {
            assert(!block.contains(c)) by {
                if block.contains(c) {
                    let i = choose|i: int| 0 <= i < block.len() && block[i] == c;
                    assert(is_simple(block[i]));
                    assert(false);
                }
            }
        }
    }
}

/// In any whole number of turns through the special alphabet, each
/// special symbol occurs once per turn and nothing else occurs.
proof fn lemma_special_prefix_count(n: nat, c: char)
    requires
        n % 8 == 0,
    ensures
        Seq::new(n, |i: int| special_symbol(i)).to_multiset().count(c) == if is_special(c) {
            n / 8
        } else {
            0nat
        },
    decreases n,
{
    broadcast use vstd::seq_lib::group_to_multiset_ensures;
    broadcast use vstd::multiset::group_multiset_axioms;

    let s = Seq::new(n, |i: int| special_symbol(i));
    if n == 0 {
        assert(!s.contains(c));
    } else {
        let prev = Seq::new((n - 8) as nat, |i: int| special_symbol(i));
        let block = Seq::new(8nat, |i: int| special_symbol(i));
        assert(s =~= prev + block);
        vstd::seq_lib::lemma_multiset_commutative(prev, block);
        lemma_special_prefix_count((n - 8) as nat, c);
        lemma_count_distinct(block, c);
        if is_special(c) {
            let k: int = if c == '!' {
                0
            } else if c == '@' {
                1
            } else if c == '#' {
                2
            } else if c == '$' {
                3
            } else if c == '%' {
                4
            } else if c == '^' {
                5
            } else if c == '&' {
                6
            } else {
                7
            };
            assert(block[k] == c);
            assert(block.contains(c));
        } else {
            assert(!block.contains(c)) by {
                if block.contains(c) {
                    let i = choose|i: int| 0 <= i < block.len() && block[i] == c;
                    assert(is_special(block[i]));
                    assert(false);
                }
            }
        }
    }
}

/// In any whole number of turns through the digit alphabet, each digit
/// occurs once per turn and nothing else occurs.
proof fn lemma_number_prefix_count(n: nat, c: char)
    requires
        n % 10 == 0,
    ensures
        Seq::new(n, |i: int| number_at(i)).to_multiset().count(c) == if is_number(c) {
            n / 10
        } else {
            0nat
        },
    decreases n,
{
    broadcast use vstd::seq_lib::group_to_multiset_ensures;
    broadcast use vstd::multiset::group_multiset_axioms;

    let s = Seq::new(n, |i: int| number_at(i));
    if n == 0 {
        assert(!s.contains(c));
    } else {
        let prev = Seq::new((n - 10) as nat, |i: int| number_at(i));
        let block = Seq::new(10nat, |i: int| number_at(i));
        assert(s =~= prev + block);
        vstd::seq_lib::lemma_multiset_commutative(prev, block);
        lemma_number_prefix_count((n - 10) as nat, c);
        assert(forall|i: int| 0 <= i < 10 ==> block[i] == ('0' as int + i) as char);
        lemma_count_distinct(block, c);
        if is_number(c) {
            assert(block[c as int - '0' as int] == c);
            assert(block.contains(c));
        } else {
            assert(!block.contains(c)) by {
                if block.contains(c) {
                    let i = choose|i: int| 0 <= i < block.len() && block[i] == c;
                    assert(is_number(block[i]));
                    assert(false);
                }
            }
        }
    }
}

/// Each character's exact multiplicity in the pool: five for a letter of
/// an enabled alphabet, sixteen for an enabled special symbol, thirteen
/// for an enabled digit, and zero whenever its category is disabled.
/// Together with `generate`'s sub-multiset clause this bounds how often
/// any character can repeat in a password.
pub proof fn lemma_pool_char_counts(cfg: Config, c: char)
    ensures
        is_capital(c) ==> pool_spec(cfg).to_multiset().count(c) == if cfg.use_capital {
            5nat
        } else {
            0nat
        },
        is_simple(c) ==> pool_spec(cfg).to_multiset().count(c) == if cfg.use_simple {
            5nat
        } else {
            0nat
        },
        is_special(c) ==> pool_spec(cfg).to_multiset().count(c) == if cfg.use_special {
            16nat
        } else {
            0nat
        },
        is_number(c) ==> pool_spec(cfg).to_multiset().count(c) == if cfg.use_number {
            13nat
        } else {
            0nat
        },
        !is_capital(c) && !is_simple(c) && !is_special(c) && !is_number(c)
            ==> pool_spec(cfg).to_multiset().count(c) == 0,
{
    broadcast use vstd::seq_lib::group_to_multiset_ensures;
    broadcast use vstd::multiset::group_multiset_axioms;

    let seg_capital: Seq<char> = if cfg.use_capital {
        capital_pool()
    } else {
        Seq::empty()
    };
    let seg_simple: Seq<char> = if cfg.use_simple {
        simple_pool()
    } else {
        Seq::empty()
    };
    let seg_special: Seq<char> = if cfg.use_special {
        special_pool()
    } else {
        Seq::empty()
    };
    let seg_number: Seq<char> = if cfg.use_number {
        number_pool()
    } else {
        Seq::empty()
    };
    vstd::seq_lib::lemma_multiset_commutative(seg_capital, seg_simple);
    vstd::seq_lib::lemma_multiset_commutative(seg_capital + seg_simple, seg_special);
    vstd::seq_lib::lemma_multiset_commutative(
        seg_capital + seg_simple + seg_special,
        seg_number,
    );
    assert(!Seq::<char>::empty().contains(c));
    assert(capital_pool() =~= Seq::new(130nat, |i: int| capital_at(i)));
    assert(simple_pool() =~= Seq::new(130nat, |i: int| simple_at(i)));
    assert(special_pool() =~= Seq::new(128nat, |i: int| special_symbol(i)));
    assert(number_pool() =~= Seq::new(130nat, |i: int| number_at(i)));
    lemma_capital_prefix_count(130, c);
    lemma_simple_prefix_count(130, c);
    lemma_special_prefix_count(128, c);
    lemma_number_prefix_count(130, c);
    crate::charset::lemma_categories_disjoint(c);
}

/// Relies on rand's `SliceRandom::shuffle` with `thread_rng`: a
/// Fisher-Yates shuffle that permutes the slice in place by swaps, so the
/// multiset of characters is unchanged. Nothing is assumed about which
/// permutation comes back.
#[verifier::external_body]
fn shuffle_chars(v: &mut Vec<char>)
    ensures
        final(v)@.to_multiset() == old(v)@.to_multiset(),
{
    v.shuffle(&mut thread_rng());
}

/// Relies on `String`'s `FromIterator` impl: collecting characters yields
/// the string of exactly those characters, in order.
#[verifier::external_body]
fn chars_to_string(v: &Vec<char>) -> (r: String)
    ensures
        r@ == v@,
{
    v.iter().collect()
}

/// Generate a password for the configuration: the enabled alphabets are
/// pooled, shuffled uniformly, and truncated to the requested length,
/// retrying until every enabled category survives the truncation.
///
/// A configuration with no enabled category is rejected with
/// `ConfigError::NoCategorySelected`; it is never silently accepted.
pub fn generate(cfg: &Config) -> (r: Result<String, ConfigError>)
    requires
        cfg.length_in_range(),
    ensures
        !cfg.some_category_enabled() <==> r == Err::<String, ConfigError>(
            ConfigError::NoCategorySelected,
        ),
        r matches Ok(s) ==> satisfies(*cfg, s@),
        r matches Ok(s) ==> s@.to_multiset().subset_of(pool_spec(*cfg).to_multiset()),
        cfg.exactly_one_category() ==> r is Ok,
{
    if !(cfg.use_capital || cfg.use_simple || cfg.use_special || cfg.use_number) {
        return Err(ConfigError::NoCategorySelected);
    }
    let length = cfg.length as usize;
    let mut attempts: usize = 0;
    while attempts < MAX_ATTEMPTS
        invariant
            cfg.some_category_enabled(),
            cfg.length_in_range(),
            length == cfg.length,
            cfg.exactly_one_category() ==> attempts == 0,
        decreases MAX_ATTEMPTS - attempts,
    {
        let mut pool = build_pool(cfg);
        let ghost unshuffled = pool@;
        shuffle_chars(&mut pool);
        let ghost shuffled = pool@;
        proof {
            lemma_permutation_preserves_enabled(*cfg, unshuffled, pool@);
        }
        pool.truncate(length);
        if all_enabled_present(cfg, &pool) {
            proof {
                lemma_prefix_submultiset(shuffled, length as int);
            }
            return Ok(chars_to_string(&pool));
        }
        proof {
            // With a single enabled category the truncation cannot miss
            // it: every pool character belongs to it, so this branch is
            // unreachable.
            if cfg.exactly_one_category() {
                assert(char_enabled(*cfg, pool@[0]));
                assert(false);
            }
        }
        attempts = attempts + 1;
    }
    Err(ConfigError::RetriesExhausted)
}

} // verus!
