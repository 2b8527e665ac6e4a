//! The pure computations of the benchmark suite: the integer and text
//! functions of the Rust workload programs it compiles beside their Mog and
//! Go twins (vectors, sorting, number theory, string transforms), and the
//! driver's helpers for counting lines and writing the C host program.

use vstd::prelude::*;

use crate::text::{chars_of, push_char, push_str};
use crate::type_names::{decimal, digit_char};

verus! {

broadcast use vstd::seq_lib::group_seq_properties, vstd::seq_lib::group_to_multiset_ensures,
    vstd::multiset::group_multiset_axioms;

// ---------------------------------------------------------------------------
// Vectors
// ---------------------------------------------------------------------------

/// The numbers `0, 1, .., n - 1`.
pub fn build_vec(n: usize) -> (v: Vec<i64>)
    ensures
        v@.len() == n,
        forall|i: int| 0 <= i < n ==> #[trigger] v@[i] == i as i64,
{
    let mut v: Vec<i64> = Vec::new();
    let mut i: usize = 0;
    while i < n
        invariant
            i <= n,
            v@.len() == i,
            forall|k: int| 0 <= k < i ==> #[trigger] v@[k] == k as i64,
        decreases n - i,
    {
        v.push(i as i64);
        i += 1;
    }
    v
}

pub open spec fn is_even(x: i64) -> bool {
    x % 2 == 0
}

/// The even elements of `v`, in order.
pub fn filter_even(v: &[i64]) -> (r: Vec<i64>)
    ensures
        r@ == v@.filter(|x: i64| is_even(x)),
{
    let mut r: Vec<i64> = Vec::new();
    let mut i: usize = 0;
    while i < v.len()
        invariant
            i <= v.len(),
            r@ == v@.take(i as int).filter(|x: i64| is_even(x)),
        decreases v.len() - i,
    {
        let x = v[i];
        proof {
            assert(v@.take(i + 1) =~= v@.take(i as int).push(x));
            v@.take(i as int).lemma_filter_push(x, |x: i64| is_even(x));
        }
        if x % 2 == 0 {
            r.push(x);
        }
        i += 1;
    }
    assert(v@.take(v.len() as int) =~= v@);
    r
}

/// The sum of the elements of `s`.
pub open spec fn seq_sum(s: Seq<i64>) -> int
    decreases s.len(),
{
    if s.len() == 0 {
        0
    } else {
        seq_sum(s.drop_last()) + s.last()
    }
}

/// Every running total of `s`, from the left, fits in an `i64`.
pub open spec fn partial_sums_fit(s: Seq<i64>) -> bool {
    forall|k: int| 0 <= k <= s.len() ==> i64::MIN <= #[trigger] seq_sum(s.take(k)) <= i64::MAX
}

/// The sum of the elements of `v`, added from the left; every running total
/// must fit in an `i64`.
pub fn sum(v: &[i64]) -> (total: i64)
    requires
        partial_sums_fit(v@),
    ensures
        total == seq_sum(v@),
{
    let mut total: i64 = 0;
    let mut i: usize = 0;
    assert(v@.take(0) =~= Seq::<i64>::empty());
    while i < v.len()
        invariant
            i <= v.len(),
            partial_sums_fit(v@),
            total == seq_sum(v@.take(i as int)),
        decreases v.len() - i,
    {
        proof {
            assert(v@.take(i + 1).drop_last() =~= v@.take(i as int));
            assert(i64::MIN <= seq_sum(v@.take(i + 1)) <= i64::MAX);
        }
        total = total + v[i];
        i += 1;
    }
    assert(v@.take(v.len() as int) =~= v@);
    total
}

/// `s` is in ascending order.
pub open spec fn sorted(s: Seq<i64>) -> bool {
    forall|i: int, j: int| 0 <= i <= j < s.len() ==> s[i] <= s[j]
}

/// Sorts `v` in ascending order by repeatedly swapping neighbours that are
/// out of order.
pub fn bubble_sort(v: &mut Vec<i64>)
    ensures
        sorted(final(v)@),
        final(v)@.to_multiset() == old(v)@.to_multiset(),
{
    let n = v.len();
    let mut i: usize = 0;
    while i < n
        invariant
            n == v.len(),
            i <= n,
            v@.to_multiset() == old(v)@.to_multiset(),
            // The last `i` elements are the largest, in order.
            forall|a: int, b: int| n - i <= a <= b < n ==> v@[a] <= v@[b],
            forall|a: int, b: int| 0 <= a < n - i <= b < n ==> v@[a] <= v@[b],
        decreases n - i,
    {
        let mut j: usize = 0;
        while j < n - 1 - i
            invariant
                n == v.len(),
                i < n,
                j <= n - 1 - i,
                v@.to_multiset() == old(v)@.to_multiset(),
                forall|a: int, b: int| n - i <= a <= b < n ==> v@[a] <= v@[b],
                forall|a: int, b: int| 0 <= a < n - i <= b < n ==> v@[a] <= v@[b],
                // `v[j]` is the largest of `v[0..=j]`.
                forall|a: int| 0 <= a <= j ==> v@[a] <= v@[j as int],
            decreases n - 1 - i - j,
        {
            if v[j] > v[j + 1] {
                let a = v[j];
                let b = v[j + 1];
                let ghost s0 = v@;
                v.set(j, b);
                v.set(j + 1, a);
                proof {
                    assert(v@ == s0.update(j as int, b).update(j + 1, a));
                    assert(s0.update(j as int, b)[j + 1] == b);
                }
            }
            j += 1;
        }
        i += 1;
    }
}

/// `n`'s remainder on division by 4 as Rust computes it (negative for a
/// negative `n` that 4 does not divide), put in words.
pub open spec fn describe(n: i64) -> Seq<char> {
    if n % 4 == 0 {
        "divisible by 4"@
    } else if n < 0 {
        "unknown"@
    } else if n % 4 == 1 {
        "remainder 1"@
    } else if n % 4 == 2 {
        "remainder 2"@
    } else {
        "remainder 3"@
    }
}

/// Describes `n`'s remainder on division by 4.
pub fn describe_number(n: i64) -> (r: &'static str)
    ensures
        r@ == describe(n),
{
    let m = n % 4;
    if m == 0 {
        "divisible by 4"
    } else if n < 0 {
        "unknown"
    } else if m == 1 {
        "remainder 1"
    } else if m == 2 {
        "remainder 2"
    } else {
        "remainder 3"
    }
}

/// The squares of the numbers in `start..end` that 3 does not divide.
pub open spec fn squares_in(start: int, end: int) -> Seq<i64>
    decreases end - start,
{
    if end <= start {
        Seq::empty()
    } else if (end - 1) % 3 != 0 {
        squares_in(start, end - 1).push(((end - 1) * (end - 1)) as i64)
    } else {
        squares_in(start, end - 1)
    }
}

/// Every square that `process_range` computes fits in an `i64`.
pub open spec fn squares_fit(start: int, end: int) -> bool {
    forall|i: int| start <= i < end && i % 3 != 0 ==> #[trigger] (i * i) <= i64::MAX
}

/// The squares of the numbers from `start` up to, not including, `end`
/// that 3 does not divide, in order.
pub fn process_range(start: i64, end: i64) -> (r: Vec<i64>)
    requires
        squares_fit(start as int, end as int),
    ensures
        r@ == squares_in(start as int, end as int),
{
    let mut result: Vec<i64> = Vec::new();
    let mut i = start;
    if i >= end {
        return result;
    }
    while i < end
        invariant
            start <= i <= end,
            squares_fit(start as int, end as int),
            result@ == squares_in(start as int, i as int),
        decreases end - i,
    {
        if i % 3 != 0 {
            assert(i * i <= i64::MAX);
            assert(i * i >= 0) by (nonlinear_arith);
            result.push(i * i);
        }
        i += 1;
    }
    result
}

// ---------------------------------------------------------------------------
// Text
// ---------------------------------------------------------------------------

/// `s` written `n` times.
pub open spec fn repeated(s: Seq<char>, n: nat) -> Seq<char>
    decreases n,
{
    if n == 0 {
        Seq::empty()
    } else {
        repeated(s, (n - 1) as nat) + s
    }
}

/// `s` written `n` times over.
pub fn repeat_string(s: &str, n: usize) -> (r: String)
    ensures
        r@ == repeated(s@, n as nat),
{
    let mut result = String::new();
    let mut i: usize = 0;
    while i < n
        invariant
            i <= n,
            result@ == repeated(s@, i as nat),
        decreases n - i,
    {
        push_str(&mut result, s);
        i += 1;
    }
    result
}

/// The characters of `s` in reverse order.
pub fn reverse_string(s: &str) -> (r: String)
    ensures
        r@ == s@.reverse(),
{
    let cs = chars_of(s);
    let mut r = String::new();
    let mut k: usize = 0;
    while k < cs.len()
        invariant
            k <= cs.len(),
            cs@ == s@,
            r@.len() == k,
            forall|m: int| 0 <= m < k ==> #[trigger] r@[m] == cs@[cs.len() - 1 - m],
        decreases cs.len() - k,
    {
        push_char(&mut r, cs[cs.len() - 1 - k]);
        k += 1;
    }
    assert(r@ =~= s@.reverse());
    r
}

/// The distinct characters of `s`, each where it first appears.
pub open spec fn first_appearances(s: Seq<char>) -> Seq<char>
    decreases s.len(),
{
    if s.len() == 0 {
        Seq::empty()
    } else {
        let d = first_appearances(s.drop_last());
        if d.contains(s.last()) {
            d
        } else {
            d.push(s.last())
        }
    }
}

/// The distinct characters of `s` in the order they first appear, each
/// with the number of times it occurs in `s`.
pub fn count_chars(s: &str) -> (counts: Vec<(char, usize)>)
    ensures
        counts@.map_values(|p: (char, usize)| p.0) == first_appearances(s@),
        forall|i: int|
            0 <= i < counts@.len() ==> #[trigger] counts@[i].1 == s@.to_multiset().count(
                counts@[i].0,
            ),
{
    let cs = chars_of(s);
    let mut counts: Vec<(char, usize)> = Vec::new();
    let mut k: usize = 0;
    while k < cs.len()
        invariant
            k <= cs.len(),
            cs@ == s@,
            counts@.map_values(|p: (char, usize)| p.0) == first_appearances(cs@.take(k as int)),
            forall|i: int|
                0 <= i < counts@.len() ==> #[trigger] counts@[i].1 == cs@.take(
                    k as int,
                ).to_multiset().count(counts@[i].0) && counts@[i].1 <= k,
        decreases cs.len() - k,
    {
        let c = cs[k];
        let ghost pre = cs@.take(k as int);
        let ghost keys = counts@.map_values(|p: (char, usize)| p.0);
        assert(cs@.take(k + 1) =~= pre.push(c));
        assert(cs@.take(k + 1).drop_last() =~= pre);
        let mut found: Option<usize> = None;
        let mut e: usize = 0;
        while e < counts.len()
            invariant
                e <= counts.len(),
                keys == counts@.map_values(|p: (char, usize)| p.0),
                found matches Some(x) ==> x < counts.len() && counts@[x as int].0 == c,
                found is None ==> forall|q: int| 0 <= q < e ==> (#[trigger] counts@[q]).0 != c,
            decreases counts.len() - e,
        {
            if found.is_none() && counts[e].0 == c {
                found = Some(e);
            }
            e += 1;
        }
        let ghost before = counts@;
        match found {
            Some(x) => {
                let n = counts[x].1;
                counts.set(x, (c, n + 1));
                proof {
                    assert(keys[x as int] == c);
                    assert(counts@.map_values(|p: (char, usize)| p.0) =~= keys);
                    assert forall|i: int| 0 <= i < counts@.len() implies #[trigger] counts@[i].1
                        == cs@.take(k + 1).to_multiset().count(counts@[i].0) && counts@[i].1 <= k
                        + 1 by {
                        if i != x {
                            assert(counts@[i] == before[i]);
                            assert(before[i].0 != c) by {
                                if before[i].0 == c {
                                    // keys are distinct
                                    lemma_first_appearances_distinct(pre);
                                    assert(keys[i] == keys[x as int]);
                                }
                            }
                        }
                    }
                }
            },
            None => {
                counts.push((c, 1));
                proof {
                    assert(!keys.contains(c)) by {
                        if keys.contains(c) {
                            let q = choose|q: int| 0 <= q < keys.len() && keys[q] == c;
                            assert(before[q].0 == c);
                        }
                    }
                    assert(counts@.map_values(|p: (char, usize)| p.0) =~= keys.push(c));
                    assert forall|i: int| 0 <= i < counts@.len() implies #[trigger] counts@[i].1
                        == cs@.take(k + 1).to_multiset().count(counts@[i].0) && counts@[i].1 <= k
                        + 1 by {
                        if i < before.len() {
                            assert(counts@[i] == before[i]);
                            assert(before[i].0 != c);
                        } else {
                            assert(pre.to_multiset().count(c) == 0) by {
                                lemma_first_appearances_contains(pre, c);
                            }
                        }
                    }
                }
            },
        }
        k += 1;
    }
    assert(cs@.take(cs.len() as int) =~= s@);
    counts
}

proof fn lemma_first_appearances_distinct(s: Seq<char>)
    ensures
        forall|i: int, j: int|
            0 <= i < j < first_appearances(s).len() ==> first_appearances(s)[i]
                != first_appearances(s)[j],
    decreases s.len(),
{
    if s.len() > 0 {
        lemma_first_appearances_distinct(s.drop_last());
        let d = first_appearances(s.drop_last());
        if !d.contains(s.last()) {
            assert forall|i: int| 0 <= i < d.len() implies d[i] != s.last() by {
                if d[i] == s.last() {
                    assert(d.contains(s.last()));
                }
            }
        }
    }
}

proof fn lemma_first_appearances_contains(s: Seq<char>, c: char)
    ensures
        first_appearances(s).contains(c) <==> s.contains(c),
        s.contains(c) <==> s.to_multiset().count(c) > 0,
    decreases s.len(),
{
    if s.len() > 0 {
        lemma_first_appearances_contains(s.drop_last(), c);
        assert(s =~= s.drop_last().push(s.last()));
        if s.drop_last().contains(c) {
            let q = choose|q: int| 0 <= q < s.drop_last().len() && s.drop_last()[q] == c;
            assert(s[q] == c);
        }
        if s.contains(c) && s.last() != c {
            let q = choose|q: int| 0 <= q < s.len() && s[q] == c;
            assert(s.drop_last()[q] == c);
        }
    }
}

/// A letter with code `n` moved `shift` places on in the alphabet whose
/// first letter has code `base`.
pub open spec fn shifted(n: int, base: int, shift: u8) -> char {
    (((n - base + shift) % 26) + base) as char
}

/// A character under the Caesar cipher with key `shift`: ASCII letters
/// (codes 97 to 122 and 65 to 90) are rotated within their case, anything
/// else kept.
pub open spec fn caesar(c: char, shift: u8) -> char {
    let n = (c as u32) as int;
    if 97 <= n <= 122 {
        shifted(n, 97, shift)
    } else if 65 <= n <= 90 {
        shifted(n, 65, shift)
    } else {
        c
    }
}

/// A letter's place in its alphabet plus `shift` fits in a byte, as the
/// byte arithmetic of `caesar_cipher` needs.
pub open spec fn shift_fits(c: char, shift: u8) -> bool {
    let n = (c as u32) as int;
    &&& 97 <= n <= 122 ==> n - 97 + shift <= 255
    &&& 65 <= n <= 90 ==> n - 65 + shift <= 255
}

/// `s` under the Caesar cipher with key `shift`.
pub fn caesar_cipher(s: &str, shift: u8) -> (r: String)
    requires
        forall|i: int| 0 <= i < s@.len() ==> shift_fits(#[trigger] s@[i], shift),
    ensures
        r@ == s@.map_values(|c: char| caesar(c, shift)),
{
    let cs = chars_of(s);
    let mut result = String::new();
    let mut k: usize = 0;
    while k < cs.len()
        invariant
            k <= cs.len(),
            cs@ == s@,
            forall|i: int| 0 <= i < s@.len() ==> shift_fits(#[trigger] s@[i], shift),
            result@ == cs@.take(k as int).map_values(|c: char| caesar(c, shift)),
        decreases cs.len() - k,
    {
        let c = cs[k];
        assert(shift_fits(s@[k as int], shift));
        let code = c as u32;
        if code >= 97 && code <= 122 {
            let off = (code - 97) as u8;
            let v: u8 = (off + shift) % 26 + 97;
            push_char(&mut result, v as char);
        } else if code >= 65 && code <= 90 {
            let off = (code - 65) as u8;
            let v: u8 = (off + shift) % 26 + 65;
            push_char(&mut result, v as char);
        } else {
            push_char(&mut result, c);
        }
        assert(cs@.take(k + 1).map_values(|c: char| caesar(c, shift)) =~= cs@.take(
            k as int,
        ).map_values(|c: char| caesar(c, shift)).push(caesar(c, shift)));
        k += 1;
    }
    assert(cs@.take(cs.len() as int) =~= cs@);
    result
}

/// The maximal runs of equal characters in `s`, in order, each as the
/// character and its length.
pub open spec fn runs(s: Seq<char>) -> Seq<(char, nat)>
    decreases s.len(),
{
    if s.len() == 0 {
        Seq::empty()
    } else {
        let r = runs(s.drop_last());
        if r.len() > 0 && r.last().0 == s.last() {
            r.update(r.len() - 1, (s.last(), r.last().1 + 1))
        } else {
            r.push((s.last(), 1))
        }
    }
}

/// How a run is written: its length in decimal, when more than one, then
/// its character.
pub open spec fn run_text(run: (char, nat)) -> Seq<char> {
    if run.1 > 1 {
        decimal(run.1) + seq![run.0]
    } else {
        seq![run.0]
    }
}

/// The runs `rs` written one after another.
pub open spec fn runs_text(rs: Seq<(char, nat)>) -> Seq<char>
    decreases rs.len(),
{
    if rs.len() == 0 {
        Seq::empty()
    } else {
        runs_text(rs.drop_last()) + run_text(rs.last())
    }
}

/// Appends the decimal digits of `n` to `s`.
pub(crate) fn push_count(s: &mut String, n: usize)
    ensures
        final(s)@ == old(s)@ + decimal(n as nat),
    decreases n,
{
    if n >= 10 {
        push_count(s, n / 10);
    }
    let d = (n % 10) as u32;
    let c = (d + '0' as u32) as u8 as char;
    push_char(s, c);
    proof {
        assert(old(s)@ + decimal(n as nat) =~= final(s)@) by {
            if n >= 10 {
                assert(decimal(n as nat) == decimal((n / 10) as nat).push(
                    digit_char((n % 10) as nat),
                ));
            }
        }
    }
}

/// Appends how the run of `count` copies of `c` is written.
fn push_run(s: &mut String, count: usize, c: char)
    ensures
        final(s)@ == old(s)@ + run_text((c, count as nat)),
{
    if count > 1 {
        push_count(s, count);
    }
    push_char(s, c);
    assert(final(s)@ =~= old(s)@ + run_text((c, count as nat)));
}

/// The run-length encoding of `s`: each maximal run of equal characters
/// written as its length (when more than one) followed by the character.
pub fn run_length_encode(s: &str) -> (r: String)
    ensures
        r@ == runs_text(runs(s@)),
{
    let chars = chars_of(s);
    if chars.len() == 0 {
        return String::new();
    }
    let mut result = String::new();
    let mut count: usize = 1;
    let ghost mut done: Seq<(char, nat)> = Seq::empty();
    assert(chars@.take(1).drop_last() =~= Seq::<char>::empty());
    assert(runs(chars@.take(1)) =~= seq![(chars@[0], 1nat)]) by {
        reveal_with_fuel(runs, 2);
    }
    let mut i: usize = 1;
    while i < chars.len()
        invariant
            1 <= i <= chars.len(),
            chars@ == s@,
            1 <= count <= i,
            runs(chars@.take(i as int)) == done.push((chars@[i - 1], count as nat)),
            result@ == runs_text(done),
        decreases chars.len() - i,
    {
        assert(chars@.take(i + 1).drop_last() =~= chars@.take(i as int));
        if chars[i] == chars[i - 1] {
            count += 1;
        } else {
            push_run(&mut result, count, chars[i - 1]);
            proof {
                let old_done = done;
                done = done.push((chars@[i - 1], count as nat));
                assert(done.drop_last() =~= old_done);
            }
            count = 1;
        }
        i += 1;
    }
    push_run(&mut result, count, chars[chars.len() - 1]);
    proof {
        let all = done.push((chars@[chars.len() - 1], count as nat));
        assert(all.drop_last() =~= done);
        assert(chars@.take(chars.len() as int) =~= chars@);
    }
    result
}

// ---------------------------------------------------------------------------
// Numbers
// ---------------------------------------------------------------------------

/// The Fibonacci numbers, from `fib(0) == 0`.
pub open spec fn fib(n: nat) -> nat
    decreases n,
{
    if n == 0 {
        0
    } else if n == 1 {
        1
    } else {
        fib((n - 2) as nat) + fib((n - 1) as nat)
    }
}

proof fn lemma_fib_mono(i: nat, j: nat)
    requires
        i <= j,
    ensures
        fib(i) <= fib(j),
    decreases j - i,
{
    if i < j {
        lemma_fib_mono(i, (j - 1) as nat);
    }
}

/// The first `n` Fibonacci numbers; the last of them must fit in an `i64`.
pub fn fibonacci_iterative(n: usize) -> (fibs: Vec<i64>)
    requires
        n == 0 || fib((n - 1) as nat) <= i64::MAX,
    ensures
        fibs@.len() == n,
        forall|i: int| 0 <= i < n ==> #[trigger] fibs@[i] == fib(i as nat),
{
    let mut fibs: Vec<i64> = Vec::new();
    if n == 0 {
        return fibs;
    }
    fibs.push(0);
    if n == 1 {
        return fibs;
    }
    fibs.push(1);
    let mut i: usize = 2;
    while i < n
        invariant
            2 <= i <= n,
            fib((n - 1) as nat) <= i64::MAX,
            fibs@.len() == i,
            forall|k: int| 0 <= k < i ==> #[trigger] fibs@[k] == fib(k as nat),
        decreases n - i,
    {
        proof {
            lemma_fib_mono(i as nat, (n - 1) as nat);
            assert(fib(i as nat) == fib((i - 2) as nat) + fib((i - 1) as nat));
        }
        let next = fibs[i - 1] + fibs[i - 2];
        fibs.push(next);
        i += 1;
    }
    fibs
}

/// `n` is prime: at least 2, and no number from 2 up to `n` divides it.
pub open spec fn prime(n: int) -> bool {
    n >= 2 && forall|d: int| 2 <= d < n ==> #[trigger] (n % d) != 0
}

/// The largest odd number whose square fits in an `i64`.
pub open spec fn root_bound() -> int {
    3037000499
}

/// `is_prime` computes the square of each trial divisor; for a prime at
/// least `root_bound()` squared the next square overflows.
pub open spec fn trial_fits(n: int) -> bool {
    !(prime(n) && n >= root_bound() * root_bound())
}

proof fn lemma_divides_trans(n: int, d: int, k: int)
    requires
        n > 0,
        d > 0,
        k > 0,
        n % d == 0,
        d % k == 0,
    ensures
        n % k == 0,
{
    vstd::arithmetic::div_mod::lemma_fundamental_div_mod(n, d);
    vstd::arithmetic::div_mod::lemma_fundamental_div_mod(d, k);
    let q = n / d;
    let m = d / k;
    assert(n == k * (m * q)) by (nonlinear_arith)
        requires
            n == d * q,
            d == k * m,
    ;
    vstd::arithmetic::div_mod::lemma_mod_multiples_basic(m * q, k);
    assert((m * q) * k == k * (m * q)) by (nonlinear_arith);
}

/// A number with no divisor below `i`, where `i * i` exceeds it, is prime.
proof fn lemma_prime_below_square(n: int, i: int)
    requires
        n >= 2,
        i >= 2,
        n < i * i,
        forall|d: int| 2 <= d < i ==> #[trigger] (n % d) != 0,
    ensures
        prime(n),
{
    assert forall|d: int| 2 <= d < n implies #[trigger] (n % d) != 0 by {
        if n % d == 0 {
            vstd::arithmetic::div_mod::lemma_fundamental_div_mod(n, d);
            let e = n / d;
            assert(n == d * e);
            assert(e >= 1) by (nonlinear_arith)
                requires
                    n == d * e,
                    n >= 2,
                    d >= 2,
            ;
            assert(e != 1) by (nonlinear_arith)
                requires
                    n == d * e,
                    d < n,
            ;
            assert(n % e == 0) by {
                vstd::arithmetic::div_mod::lemma_mod_multiples_basic(d, e);
                assert(d * e == e * d) by (nonlinear_arith);
            }
            let m = if d <= e { d } else { e };
            assert(m * m <= n) by (nonlinear_arith)
                requires
                    n == d * e,
                    m == d || m == e,
                    m <= d,
                    m <= e,
                    m >= 2,
            ;
            assert(m < i) by (nonlinear_arith)
                requires
                    m * m <= n,
                    n < i * i,
                    m >= 2,
                    i >= 2,
            ;
            assert(n % m == 0);
        }
    }
}

/// Whether `n` is prime, by trial division by 2, 3 and the numbers
/// `6k - 1` and `6k + 1` up to its square root.
#[verifier::spinoff_prover]
pub fn is_prime(n: i64) -> (r: bool)
    requires
        trial_fits(n as int),
    ensures
        r == prime(n as int),
{
    if n < 2 {
        return false;
    }
    if n < 4 {
        assert(prime(n as int)) by {
            assert forall|d: int| 2 <= d < n implies #[trigger] ((n as int) % d) != 0 by {
                assert(d == 2);
            }
        }
        return true;
    }
    if n % 2 == 0 || n % 3 == 0 {
        return false;
    }
    let mut i: i64 = 5;
    proof {
        if n % 4 == 0 {
            lemma_divides_trans(n as int, 4, 2);
        }
        assert forall|d: int| 2 <= d < 5 implies #[trigger] ((n as int) % d) != 0 by {
            assert(d == 2 || d == 3 || d == 4);
        }
    }
    while i * i <= n
        invariant
            i * i <= i64::MAX,
            n >= 5,
            n % 2 != 0,
            n % 3 != 0,
            trial_fits(n as int),
            5 <= i <= root_bound(),
            i % 6 == 5,
            forall|d: int| 2 <= d < i ==> #[trigger] ((n as int) % d) != 0,
        decreases n - i,
    {
        assert(i < n && i + 2 < n) by (nonlinear_arith)
            requires
                i * i <= n,
                i >= 5,
        ;
        if n % i == 0 || n % (i + 2) == 0 {
            return false;
        }
        proof {
            assert forall|d: int| 2 <= d < i + 6 implies #[trigger] ((n as int) % d) != 0 by {
                if d >= i && (n as int) % d == 0 {
                    if d == i + 1 || d == i + 3 || d == i + 5 {
                        assert(d % 2 == 0);
                        lemma_divides_trans(n as int, d, 2);
                    } else if d == i + 4 {
                        assert(d % 3 == 0);
                        lemma_divides_trans(n as int, d, 3);
                    }
                }
            }
            if i + 6 > root_bound() {
                // Then `i` is `root_bound()`, and `n` would be a prime whose
                // next trial square overflows.
                assert(i == root_bound());
                assert(n < (i + 6) * (i + 6)) by (nonlinear_arith)
                    requires
                        i == 3037000499,
                        n <= 9223372036854775807,
                ;
                lemma_prime_below_square(n as int, i + 6);
                assert(n >= root_bound() * root_bound());
            }
        }
        i += 6;
        assert(i * i <= i64::MAX) by (nonlinear_arith)
            requires
                0 <= i <= 3037000499,
        ;
    }
    proof {
        lemma_prime_below_square(n as int, i as int);
    }
    true
}

/// The primes from 2 up to `limit`, in order.
pub open spec fn primes_through(limit: int) -> Seq<i64>
    decreases limit,
{
    if limit < 2 {
        Seq::empty()
    } else if prime(limit) {
        primes_through(limit - 1).push(limit as i64)
    } else {
        primes_through(limit - 1)
    }
}

/// The primes from 2 up to `limit`, in order.
pub fn primes_up_to(limit: i64) -> (r: Vec<i64>)
    requires
        forall|n: int| 2 <= n <= limit ==> trial_fits(n),
    ensures
        r@ == primes_through(limit as int),
{
    let mut result: Vec<i64> = Vec::new();
    let mut n: i128 = 2;
    while n <= limit as i128
        invariant
            2 <= n,
            n <= limit + 1 || limit < 2,
            limit < 2 ==> n == 2,
            forall|m: int| 2 <= m <= limit ==> trial_fits(m),
            result@ == primes_through(n - 1),
        decreases limit - n + 1,
    {
        let m = n as i64;
        if is_prime(m) {
            result.push(m);
        }
        n += 1;
    }
    assert(limit < 2 || n == limit + 1);
    result
}


/// `d` divides `x`.
pub open spec fn divides(d: int, x: int) -> bool {
    exists|k: int| x == #[trigger] (d * k)
}

/// `g` is the greatest common divisor of `a` and `b`: it is not negative,
/// it divides both, and every common divisor of the two divides it. (Only
/// one number is the greatest common divisor of two given numbers.)
pub open spec fn is_gcd(g: int, a: int, b: int) -> bool {
    &&& g >= 0
    &&& divides(g, a)
    &&& divides(g, b)
    &&& forall|d: int| divides(d, a) && divides(d, b) ==> #[trigger] divides(d, g)
}

pub open spec fn abs(x: int) -> int {
    if x < 0 {
        -x
    } else {
        x
    }
}

/// The inputs on which `gcd` computes `i64::MIN % -1` or the absolute
/// value of `i64::MIN`, both of which overflow.
pub open spec fn gcd_overflows(a: i64, b: i64) -> bool {
    ||| a == i64::MIN && (b == 0 || b == -1 || b == i64::MIN)
    ||| b == i64::MIN && (a == 0 || a == -1)
}

/// The remainder of `a` on division by `b`, truncated toward zero as Rust
/// computes it, is `a - b * q` for some `q`, and smaller than `b` in size.
proof fn lemma_truncated_rem(a: int, b: int, r: int) -> (q: int)
    requires
        b != 0,
        r == (if a >= 0 {
            a % b
        } else {
            -((-a) % b)
        }),
    ensures
        r == a - b * q,
        abs(r) < abs(b),
        a >= 0 ==> r >= 0,
        a < 0 ==> r <= 0,
{
    if a >= 0 {
        vstd::arithmetic::div_mod::lemma_fundamental_div_mod(a, b);
        assert(0 <= a % b < abs(b)) by (nonlinear_arith)
            requires
                b != 0,
        ;
        a / b
    } else {
        vstd::arithmetic::div_mod::lemma_fundamental_div_mod(-a, b);
        assert(0 <= (-a) % b < abs(b)) by (nonlinear_arith)
            requires
                b != 0,
        ;
        assert(r == a - b * (-((-a) / b))) by (nonlinear_arith)
            requires
                -a == b * ((-a) / b) + (-a) % b,
                r == -((-a) % b),
        ;
        -((-a) / b)
    }
}

/// Replacing `a` by its remainder on division by `b`, and `b` by `a`,
/// keeps the common divisors.
proof fn lemma_common_divisors(a: int, b: int, r: int, q: int)
    requires
        r == a - b * q,
    ensures
        forall|d: int|
            (divides(d, a) && divides(d, b)) <==> (#[trigger] divides(d, b) && divides(d, r)),
{
    assert forall|d: int| (divides(d, a) && divides(d, b)) <==> (#[trigger] divides(d, b) && divides(d, r)) by {
        if divides(d, a) && divides(d, b) {
            let k1 = choose|k: int| a == #[trigger] (d * k);
            let k2 = choose|k: int| b == #[trigger] (d * k);
            assert(r == d * (k1 - k2 * q)) by (nonlinear_arith)
                requires
                    r == a - b * q,
                    a == d * k1,
                    b == d * k2,
            ;
        }
        if divides(d, b) && divides(d, r) {
            let k2 = choose|k: int| b == #[trigger] (d * k);
            let k3 = choose|k: int| r == #[trigger] (d * k);
            assert(a == d * (k3 + k2 * q)) by (nonlinear_arith)
                requires
                    r == a - b * q,
                    r == d * k3,
                    b == d * k2,
            ;
        }
    }
}

/// The greatest common divisor of `a` and `b`.
pub open spec fn gcd_of(a: int, b: int) -> int {
    choose|g: int| is_gcd(g, a, b)
}

/// Two numbers have one greatest common divisor.
proof fn lemma_gcd_unique(g1: int, g2: int, a: int, b: int)
    requires
        is_gcd(g1, a, b),
        is_gcd(g2, a, b),
    ensures
        g1 == g2,
{
    assert(divides(g1, g2));
    assert(divides(g2, g1));
    let k1 = choose|k: int| g2 == #[trigger] (g1 * k);
    let k2 = choose|k: int| g1 == #[trigger] (g2 * k);
    if g1 != 0 && g2 != 0 {
        assert(g1 <= g2 && g2 <= g1) by (nonlinear_arith)
            requires
                g2 == g1 * k1,
                g1 == g2 * k2,
                g1 > 0,
                g2 > 0,
        ;
    } else {
        assert(g1 == 0 && g2 == 0) by (nonlinear_arith)
            requires
                g2 == g1 * k1,
                g1 == g2 * k2,
                g1 == 0 || g2 == 0,
        ;
    }
}

/// The greatest common divisor of `a` and `b`, by Euclid's algorithm with
/// Rust's remainder.
pub fn gcd(a: i64, b: i64) -> (g: i64)
    requires
        !gcd_overflows(a, b),
    ensures
        is_gcd(g as int, a as int, b as int),
        g == gcd_of(a as int, b as int),
{
    let ghost a0 = a as int;
    let ghost b0 = b as int;
    let mut a = a;
    let mut b = b;
    while b != 0
        invariant
            !gcd_overflows(a, b),
            forall|d: int| (divides(d, a0) && divides(d, b0)) <==> (#[trigger] divides(d, a as int) && divides(d, b as int)),
        decreases abs(b as int),
    {
        let t = b;
        let r = a % b;
        proof {
            let q = lemma_truncated_rem(a as int, b as int, r as int);
            lemma_common_divisors(a as int, b as int, r as int, q);
            if b == i64::MIN {
                assert(r == a);
            }
        }
        let ghost (pa, pb) = (a as int, b as int);
        b = r;
        a = t;
        proof {
            assert forall|d: int| (divides(d, a0) && divides(d, b0)) <==> (#[trigger] divides(
                d,
                a as int,
            ) && divides(d, b as int)) by {
                assert((divides(d, a0) && divides(d, b0)) <==> (divides(d, pa) && divides(d, pb)));
                assert((divides(d, pa) && divides(d, pb)) <==> (divides(d, pb) && divides(d, r as int)));
            }
        }
    }
    let g = if a < 0 { -a } else { a };
    proof {
        assert(divides(g as int, a as int)) by {
            if a < 0 {
                assert(a == g * -1);
            } else {
                assert(a == g * 1);
            }
        }
        assert(divides(g as int, 0)) by {
            assert(0 == g * 0);
        }
        assert forall|d: int| divides(d, a0) && divides(d, b0) implies #[trigger] divides(d, g as int) by {
            assert(divides(d, a as int));
            let k = choose|k: int| a == #[trigger] (d * k);
            if a < 0 {
                assert(g == d * -k) by (nonlinear_arith)
                    requires
                        a == d * k,
                        g == -a,
                ;
            }
        }
        assert(divides(g as int, a0) && divides(g as int, b0)) by {
            assert(divides(g as int, a as int) && divides(g as int, 0));
        }
        assert(is_gcd(g as int, a0, b0));
        lemma_gcd_unique(g as int, gcd_of(a0, b0), a0, b0);
    }
    g
}

/// The least common multiple of `a` and `b`: `|a * b| / gcd(a, b)`, and 0
/// when either is 0.
pub open spec fn lcm_of(a: int, b: int) -> int {
    if a == 0 || b == 0 {
        0
    } else {
        abs(a / gcd_of(a, b) * b)
    }
}

/// `lcm` computes `a / gcd(a, b) * b` and then its absolute value; both
/// must fit in an `i64`, and so must the `gcd` call.
pub open spec fn lcm_fits(a: i64, b: i64) -> bool {
    a == 0 || b == 0 || (!gcd_overflows(a, b) && i64::MIN < (a as int) / gcd_of(a as int, b as int) * b
        <= i64::MAX)
}

/// The least common multiple of `a` and `b`.
pub fn lcm(a: i64, b: i64) -> (r: i64)
    requires
        lcm_fits(a, b),
    ensures
        r == lcm_of(a as int, b as int),
{
    if a == 0 || b == 0 {
        return 0;
    }
    let g = gcd(a, b);
    proof {
        let k = choose|k: int| a == #[trigger] ((g as int) * k);
        assert(g > 0) by (nonlinear_arith)
            requires
                a == g * k,
                a != 0,
                g >= 0,
        ;
        vstd::arithmetic::div_mod::lemma_fundamental_div_mod_converse_div(a as int, g as int, k, 0);
        assert(a == k * g) by (nonlinear_arith)
            requires
                a == g * k,
        ;
        if a < 0 {
            assert(-a == (-k) * g) by (nonlinear_arith)
                requires
                    a == g * k,
            ;
            vstd::arithmetic::div_mod::lemma_fundamental_div_mod_converse_div(-a, g as int, -k, 0);
        }
    }
    let q = a / g;
    let p = q * b;
    if p < 0 {
        -p
    } else {
        p
    }
}

// ---------------------------------------------------------------------------
// Driver helpers
// ---------------------------------------------------------------------------

/// The number of newline characters in `text`.
pub fn count_lines(text: &str) -> (n: usize)
    ensures
        n == text@.filter(|c: char| c == '\n').len(),
{
    let cs = chars_of(text);
    let mut n: usize = 0;
    let mut i: usize = 0;
    while i < cs.len()
        invariant
            i <= cs.len(),
            cs@ == text@,
            n == cs@.take(i as int).filter(|c: char| c == '\n').len(),
            n <= i,
        decreases cs.len() - i,
    {
        proof {
            assert(cs@.take(i + 1) =~= cs@.take(i as int).push(cs@[i as int]));
            cs@.take(i as int).lemma_filter_push(cs@[i as int], |c: char| c == '\n');
        }
        if cs[i] == '\n' {
            n += 1;
        }
        i += 1;
    }
    assert(cs@.take(cs.len() as int) =~= cs@);
    n
}

/// The resource limits the benchmark's C host program gives the Mog VM.
#[derive(Clone, Copy)]
pub struct HostLimits {
    pub max_memory: usize,
    pub max_cpu_ms: i32,
    pub initial_memory: usize,
}

/// The C host program, with a placeholder for each limit.
pub const HOST_C_TEMPLATE: &'static str = r#"
#include <stddef.h>
#include <stdint.h>
#include <stdio.h>
#include <stdlib.h>

typedef struct MogVM MogVM;

typedef struct {
    int32_t tag;
    int32_t pad;
    union {
        int64_t i;
        double f;
        int64_t b;
        const char* s;
        const void* handle;
        const char* error;
    } data;
} MogValue;

typedef struct {
    size_t max_memory;
    int max_cpu_ms;
    int max_stack_depth;
    size_t initial_memory;
} MogLimits;

extern MogVM* mog_vm_new(void);
extern void mog_vm_set_global(MogVM* vm);
extern void mog_vm_set_limits(MogVM* vm, const MogLimits* limits);

static void setup_mog_limits(MogVM* vm) {
    const MogLimits limits = {
        (size_t){{MAX_MEMORY}},
        {{MAX_CPU_MS}},
        1024,
        (size_t){{INITIAL_MEMORY}},
    };
    mog_vm_set_limits(vm, &limits);
}

__attribute__((constructor))
static void setup_mog_vm(void) {
    MogVM* vm = mog_vm_new();
    if (!vm) {
        fprintf(stderr, "bench-host: mog_vm_new failed\n");
        exit(1);
    }
    setup_mog_limits(vm);
    mog_vm_set_global(vm);
}
"#;

/// `s` with each occurrence of `pat`, found from the left and not
/// overlapping, replaced by `with` (for a non-empty `pat`).
pub open spec fn replaced(s: Seq<char>, pat: Seq<char>, with: Seq<char>) -> Seq<char>
    decreases s.len(),
{
    if s.len() == 0 {
        Seq::empty()
    } else if 0 < pat.len() <= s.len() && s.take(pat.len() as int) == pat {
        with + replaced(s.skip(pat.len() as int), pat, with)
    } else {
        seq![s[0]] + replaced(s.skip(1), pat, with)
    }
}

/// `s` with each occurrence of `pat` replaced by `with`.
fn replace_all(s: &str, pat: &str, with: &str) -> (r: String)
    requires
        pat@.len() > 0,
    ensures
        r@ == replaced(s@, pat@, with@),
{
    let cs = chars_of(s);
    let ps = chars_of(pat);
    let n = cs.len();
    let m = ps.len();
    let mut result = String::new();
    let mut i: usize = 0;
    assert(cs@.skip(0) =~= cs@);
    while i < n
        invariant
            i <= n,
            n == cs@.len(),
            m == ps@.len(),
            m > 0,
            cs@ == s@,
            ps@ == pat@,
            result@ + replaced(cs@.skip(i as int), pat@, with@) == replaced(s@, pat@, with@),
        decreases n - i,
    {
        let ghost rest = cs@.skip(i as int);
        let fits = m <= n - i;
        let mut k: usize = 0;
        if fits {
            while k < m && cs[i + k] == ps[k]
                invariant
                    k <= m,
                    m <= n - i,
                    m == ps@.len(),
                    n == cs@.len(),
                    forall|j: int| 0 <= j < k ==> cs@[i + j] == ps@[j],
                decreases m - k,
            {
                k += 1;
            }
        }
        let matched = fits && k == m;
        proof {
            if matched {
                assert(rest.take(m as int) =~= pat@);
            } else if fits {
                assert(rest.take(m as int)[k as int] == cs@[i + k]);
                assert(rest.take(m as int) != pat@);
            }
        }
        if matched {
            push_str(&mut result, with);
            proof {
                assert(rest.skip(m as int) =~= cs@.skip(i + m));
            }
            i += m;
        } else {
            push_char(&mut result, cs[i]);
            proof {
                assert(rest.skip(1) =~= cs@.skip(i + 1));
                assert(rest[0] == cs@[i as int]);
            }
            i += 1;
        }
    }
    result
}

/// How Rust writes the integer `n`: a minus sign when negative, then the
/// decimal digits of its magnitude.
pub open spec fn int_text(n: int) -> Seq<char> {
    if n < 0 {
        seq!['-'] + decimal((-n) as nat)
    } else {
        decimal(n as nat)
    }
}

fn usize_text(n: usize) -> (r: String)
    ensures
        r@ == decimal(n as nat),
{
    let mut r = String::new();
    push_count(&mut r, n);
    r
}

fn i32_text(n: i32) -> (r: String)
    ensures
        r@ == int_text(n as int),
{
    let mut r = String::new();
    if n < 0 {
        push_char(&mut r, '-');
        let m = (-(n as i64)) as usize;
        push_count(&mut r, m);
    } else {
        push_count(&mut r, n as usize);
    }
    r
}

/// The C host program with the placeholders filled in with `limits`.
pub fn host_source_for(limits: HostLimits) -> (r: String)
    ensures
        r@ == replaced(
            replaced(
                replaced(HOST_C_TEMPLATE@, "{{MAX_MEMORY}}"@, decimal(limits.max_memory as nat)),
                "{{MAX_CPU_MS}}"@,
                int_text(limits.max_cpu_ms as int),
            ),
            "{{INITIAL_MEMORY}}"@,
            decimal(limits.initial_memory as nat),
        ),
{
    proof {
        reveal_strlit("{{MAX_MEMORY}}");
        reveal_strlit("{{MAX_CPU_MS}}");
        reveal_strlit("{{INITIAL_MEMORY}}");
    }
    let a = replace_all(HOST_C_TEMPLATE, "{{MAX_MEMORY}}", usize_text(limits.max_memory).as_str());
    let b = replace_all(a.as_str(), "{{MAX_CPU_MS}}", i32_text(limits.max_cpu_ms).as_str());
    replace_all(b.as_str(), "{{INITIAL_MEMORY}}", usize_text(limits.initial_memory).as_str())
}

} // verus!
