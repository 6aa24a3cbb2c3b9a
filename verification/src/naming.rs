//! Fresh numbered names: for a stem and a closing text, the first
//! number whose combination collides with nothing in a given list.
//! Slug deduplication and import title renaming both resolve conflicts
//! this way.

use vstd::prelude::*;
use vstd::set_lib::lemma_len_subset;
use crate::strutil::{concat_str, dec_digit, dec_str, u64_to_string, vec_contains_str};

verus! {

broadcast use vstd::set::group_set_axioms;

/// The value of a decimal digit character; anything else counts zero.
pub open spec fn digit_val(c: char) -> int {
    if c == '0' { 0 }
    else if c == '1' { 1 }
    else if c == '2' { 2 }
    else if c == '3' { 3 }
    else if c == '4' { 4 }
    else if c == '5' { 5 }
    else if c == '6' { 6 }
    else if c == '7' { 7 }
    else if c == '8' { 8 }
    else { 9 }
}

/// The number a digit sequence denotes, most significant digit first.
pub open spec fn dec_val(s: Seq<char>) -> int
    decreases s.len(),
{
    if s.len() == 0 {
        0
    } else {
        dec_val(s.drop_last()) * 10 + digit_val(s.last())
    }
}

/// Reading back the decimal rendering of a number gives the number.
pub proof fn lemma_dec_val_of_dec_str(n: int)
    requires
        n >= 0,
    ensures
        dec_val(dec_str(n)) == n,
    decreases n,
{
    if n < 10 {
        assert(dec_str(n) == seq![dec_digit(n)]);
        assert(dec_str(n).drop_last() =~= Seq::<char>::empty());
        assert(dec_val(Seq::<char>::empty()) == 0);
        assert(dec_str(n).last() == dec_digit(n));
        assert(dec_val(dec_str(n)) == digit_val(dec_digit(n)));
    } else {
        lemma_dec_val_of_dec_str(n / 10);
        assert(dec_str(n) == dec_str(n / 10).push(dec_digit(n % 10)));
        assert(dec_str(n).drop_last() =~= dec_str(n / 10));
        assert(dec_str(n).last() == dec_digit(n % 10));
        assert(digit_val(dec_digit(n % 10)) == n % 10);
        assert(dec_val(dec_str(n)) == (n / 10) * 10 + n % 10);
        assert((n / 10) * 10 + n % 10 == n) by {
            vstd::arithmetic::div_mod::lemma_fundamental_div_mod(n, 10);
        }
    }
}

/// Two distinct numbers render to distinct digit sequences.
pub proof fn lemma_dec_str_injective(n: int, m: int)
    requires
        n >= 0,
        m >= 0,
        dec_str(n) == dec_str(m),
    ensures
        n == m,
{
    lemma_dec_val_of_dec_str(n);
    lemma_dec_val_of_dec_str(m);
}

/// A numbered candidate name: the stem, the number, the closing text.
pub open spec fn spec_numbered(stem: Seq<char>, n: int, tail: Seq<char>) -> Seq<char> {
    stem + dec_str(n) + tail
}

/// Two distinct numbers give distinct candidates around the same stem
/// and closing text.
pub proof fn lemma_numbered_injective(stem: Seq<char>, tail: Seq<char>, n: int, m: int)
    requires
        n >= 0,
        m >= 0,
        spec_numbered(stem, n, tail) == spec_numbered(stem, m, tail),
    ensures
        n == m,
{
    let a = spec_numbered(stem, n, tail);
    let b = spec_numbered(stem, m, tail);
    assert(a.len() == stem.len() + dec_str(n).len() + tail.len());
    assert(b.len() == stem.len() + dec_str(m).len() + tail.len());
    let ln = dec_str(n).len() as int;
    assert(dec_str(n).len() == dec_str(m).len());
    assert(a.subrange(stem.len() as int, stem.len() + ln) =~= dec_str(n));
    assert(b.subrange(stem.len() as int, stem.len() + ln) =~= dec_str(m));
    lemma_dec_str_injective(n, m);
}

/// The list holds the numbered candidate built from this stem, number
/// and closing text.
pub open spec fn spec_numbered_taken(
    existing: Seq<String>,
    stem: Seq<char>,
    m: int,
    tail: Seq<char>,
) -> bool {
    exists|j: int|
        0 <= j < existing.len() && (#[trigger] existing[j])@ == spec_numbered(stem, m, tail)
}

/// The first number, counting up from `start`, whose candidate name
/// collides with nothing in the list; the candidate and its number.
/// Every smaller number's candidate is taken.
pub fn fresh_numbered(stem: &str, tail: &str, start: u64, existing: &Vec<String>) -> (r: (
    String,
    u64,
))
    requires
        start + existing@.len() + 1 <= u64::MAX,
    ensures
        forall|j: int| 0 <= j < existing@.len() ==> (#[trigger] existing@[j])@ != r.0@,
        r.0@ == spec_numbered(stem@, r.1 as int, tail@),
        r.1 >= start,
        forall|m: int|
            start <= m < r.1 ==> #[trigger] spec_numbered_taken(existing@, stem@, m, tail@),
{
    let ghost evs = existing@.map_values(|s: String| s@);
    let mut n: u64 = start;
    let ghost mut tried: Seq<Seq<char>> = Seq::empty();
    loop
        invariant
            start <= n,
            n - start == tried.len(),
            start + existing@.len() + 1 <= u64::MAX,
            evs == existing@.map_values(|s: String| s@),
            evs.len() == existing@.len(),
            n - start <= existing@.len(),
            tried.no_duplicates(),
            forall|j: int|
                0 <= j < tried.len() ==> #[trigger] tried[j] == spec_numbered(
                    stem@,
                    start + j,
                    tail@,
                ),
            forall|j: int| 0 <= j < tried.len() ==> evs.contains(#[trigger] tried[j]),
        decreases existing@.len() - (n - start),
    {
        let num = u64_to_string(n);
        let with_num = concat_str(stem, num.as_str());
        let cand = concat_str(with_num.as_str(), tail);
        proof {
            assert(cand@ =~= spec_numbered(stem@, n as int, tail@));
        }
        if !vec_contains_str(existing, cand.as_str()) {
            proof {
                assert forall|m: int| start <= m < n implies #[trigger] spec_numbered_taken(
                    existing@,
                    stem@,
                    m,
                    tail@,
                ) by {
                    let t = tried[m - start];
                    assert(t == spec_numbered(stem@, m, tail@));
                    assert(evs.contains(t));
                    let j = choose|j: int| 0 <= j < evs.len() && evs[j] == t;
                    assert(existing@[j]@ == t);
                }
            }
            return (cand, n);
        }
        proof {
            let w = choose|w: int| 0 <= w < existing@.len() && (#[trigger] existing@[w])@ == cand@;
            assert(evs[w] == cand@);
            assert(evs.contains(cand@));
            assert forall|j: int| 0 <= j < tried.len() implies #[trigger] tried[j]
                != cand@ by {
                if tried[j] == cand@ {
                    lemma_numbered_injective(stem@, tail@, start + j, n as int);
                }
            }
            let new_tried = tried.push(cand@);
            assert(new_tried.no_duplicates()) by {
                assert forall|a: int, b: int|
                    0 <= a < new_tried.len() && 0 <= b < new_tried.len() && a != b implies
                    new_tried[a] != new_tried[b] by {
                    if a < tried.len() && b < tried.len() {
                        assert(new_tried[a] == tried[a]);
                        assert(new_tried[b] == tried[b]);
                    } else if a < tried.len() {
                        assert(new_tried[a] == tried[a]);
                        assert(new_tried[b] == cand@);
                    } else {
                        assert(new_tried[a] == cand@);
                        assert(new_tried[b] == tried[b]);
                    }
                }
            }
            tried = new_tried;
            assert(tried.to_set().len() == tried.len()) by {
                tried.unique_seq_to_set();
            }
            assert(tried.to_set().subset_of(evs.to_set())) by {
                assert forall|x: Seq<char>| tried.to_set().contains(x) implies
                    evs.to_set().contains(x) by {
                    let j = choose|j: int| 0 <= j < tried.len() && tried[j] == x;
                    assert(evs.contains(x));
                }
            }
            assert(evs.to_set().len() <= evs.len()) by {
                evs.lemma_cardinality_of_set();
            }
            assert(tried.len() <= evs.to_set().len()) by {
                vstd::seq_lib::seq_to_set_is_finite::<Seq<char>>(evs);
                lemma_len_subset(tried.to_set(), evs.to_set());
            }
        }
        n = n + 1;
    }
}

} // verus!
