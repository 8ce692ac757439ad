//! Ordering of session folder names: by the text before a trailing number, then by
//! that number, so that `session-2` sorts before `session-10`.

use vstd::prelude::*;
use vstd::multiset::Multiset;
use crate::text::{chars_of, push_str, push_zero_padded, zero_padded};
use crate::order::{Order, lex_order, lex_order_prefix, nat_order, lemma_lex_flip, lemma_lex_equal, lemma_lex_trans};

verus! {

/// An ASCII decimal digit.
pub open spec fn is_digit(c: char) -> bool {
    '0' <= c && c <= '9'
}

/// Length of the longest run of digits at the end of `s`.
pub open spec fn trailing_digit_len(s: Seq<char>) -> nat
    decreases s.len(),
{
    if s.len() == 0 {
        0
    } else if is_digit(s.last()) {
        trailing_digit_len(s.drop_last()) + 1
    } else {
        0
    }
}

/// `s` without its trailing digits.
pub open spec fn name_prefix(s: Seq<char>) -> Seq<char> {
    s.take(s.len() - trailing_digit_len(s))
}

/// The trailing digits of `s`.
pub open spec fn name_digits(s: Seq<char>) -> Seq<char> {
    s.skip(s.len() - trailing_digit_len(s))
}

/// The value of a sequence of decimal digits.
pub open spec fn digits_value(d: Seq<char>) -> nat
    decreases d.len(),
{
    if d.len() == 0 {
        0
    } else {
        digits_value(d.drop_last()) * 10 + ((d.last() as nat) - ('0' as nat)) as nat
    }
}

/// The trailing number of a name, as `u64` parsing reads it: absent when there are
/// no trailing digits or when their value does not fit in a `u64`.
pub open spec fn trailing_number(s: Seq<char>) -> Option<nat> {
    let d = name_digits(s);
    if d.len() == 0 || digits_value(d) > u64::MAX {
        None
    } else {
        Some(digits_value(d))
    }
}

/// Order of two session names: by prefix; on equal prefixes by trailing number when both
/// have one, otherwise by the whole names.
#[verifier::opaque]
pub open spec fn session_order(a: Seq<char>, b: Seq<char>) -> Order {
    let p = lex_order(name_prefix(a), name_prefix(b));
    if p != Order::Equal {
        p
    } else {
        match (trailing_number(a), trailing_number(b)) {
            (Some(x), Some(y)) => nat_order(x, y),
            _ => lex_order(a, b),
        }
    }
}

/// The names of `v`, in order.
pub open spec fn names(v: Seq<String>) -> Seq<Seq<char>> {
    v.map_values(|s: String| s@)
}

/// The names at `i` and `i + 1` are in session order.
pub open spec fn adjacent_in_order(v: Seq<String>, i: int) -> bool {
    session_order(v[i]@, v[i + 1]@) != Order::Greater
}

/// Consecutive names are in session order.
pub open spec fn session_sorted(v: Seq<String>) -> bool {
    forall|i: int| 0 <= i < v.len() - 1 ==> #[trigger] adjacent_in_order(v, i)
}

proof fn lemma_trailing_bound(s: Seq<char>)
    ensures
        trailing_digit_len(s) <= s.len(),
    decreases s.len(),
{
    if s.len() > 0 && is_digit(s.last()) {
        lemma_trailing_bound(s.drop_last());
    }
}

/// Number of trailing digits of `v`.
fn trailing_digit_count(v: &Vec<char>) -> (n: usize)
    ensures
        n == trailing_digit_len(v@),
{
    let mut n: usize = 0;
    let len = v.len();
    proof {
        assert(v@.take(len as int) =~= v@);
    }
    while n < len && '0' <= v[len - 1 - n] && v[len - 1 - n] <= '9'
        invariant
            len == v@.len(),
            n <= len,
            trailing_digit_len(v@) == trailing_digit_len(v@.take(len - n)) + n,
        decreases len - n,
    {
        proof {
            let t = v@.take(len - n);
            assert(t.drop_last() =~= v@.take(len - n - 1));
            assert(t.last() == v@[len - 1 - n]);
        }
        n = n + 1;
    }
    proof {
        assert(v@.take(len as int) =~= v@);
        let t = v@.take(len - n);
        if n < len {
            assert(t.last() == v@[len - 1 - n]);
        } else {
            assert(t.len() == 0);
        }
    }
    n
}

/// The value of `v[start..]` (all digits), or `None` when it is empty or exceeds `u64`.
fn parse_tail(v: &Vec<char>, start: usize) -> (res: Option<u64>)
    requires
        start <= v@.len(),
        forall|i: int| start <= i < v@.len() ==> is_digit(#[trigger] v@[i]),
    ensures
        res == (if start == v@.len() || digits_value(v@.skip(start as int)) > u64::MAX {
            None::<u64>
        } else {
            Some(digits_value(v@.skip(start as int)) as u64)
        }),
{
    let len = v.len();
    if start == len {
        return None;
    }
    let mut acc: u64 = 0;
    let mut i: usize = start;
    let mut overflow = false;
    while i < len
        invariant
            start <= i <= len,
            len == v@.len(),
            forall|k: int| start <= k < v@.len() ==> is_digit(#[trigger] v@[k]),
            !overflow ==> acc == digits_value(v@.subrange(start as int, i as int)),
            overflow ==> digits_value(v@.subrange(start as int, i as int)) > u64::MAX,
        decreases len - i,
    {
        let c = v[i];
        let d: u64 = (c as u32 - '0' as u32) as u64;
        proof {
            let sub = v@.subrange(start as int, i + 1);
            assert(sub.drop_last() =~= v@.subrange(start as int, i as int));
            assert(sub.last() == c);
            assert(digits_value(sub) == digits_value(sub.drop_last()) * 10 + d);
        }
        if !overflow {
            match acc.checked_mul(10) {
                Some(m) => match m.checked_add(d) {
                    Some(n) => {
                        acc = n;
                    },
                    None => {
                        overflow = true;
                    },
                },
                None => {
                    overflow = true;
                    proof {
                        assert(acc * 10 + d > u64::MAX);
                    }
                },
            }
        } else {
            proof {
                let sub = v@.subrange(start as int, i + 1);
                assert(digits_value(sub.drop_last()) * 10 >= digits_value(sub.drop_last())) by (nonlinear_arith);
            }
        }
        i = i + 1;
    }
    proof {
        assert(v@.subrange(start as int, len as int) =~= v@.skip(start as int));
    }
    if overflow { None } else { Some(acc) }
}

/// Session order of two names, given their characters.
fn session_order_exec(a: &Vec<char>, b: &Vec<char>) -> (res: Order)
    ensures
        res == session_order(a@, b@),
{
    reveal(session_order);
    let ta = trailing_digit_count(a);
    let tb = trailing_digit_count(b);
    proof {
        lemma_trailing_bound(a@);
        lemma_trailing_bound(b@);
    }
    let pa = a.len() - ta;
    let pb = b.len() - tb;
    let p = lex_order_prefix(a, pa, b, pb);
    if p != Order::Equal {
        return p;
    }
    proof {
        lemma_trailing_digits_are_digits(a@);
        lemma_trailing_digits_are_digits(b@);
    }
    let na = parse_tail(a, pa);
    let nb = parse_tail(b, pb);
    match (na, nb) {
        (Some(x), Some(y)) => {
            if x < y { Order::Less } else if x == y { Order::Equal } else { Order::Greater }
        },
        _ => {
            proof {
                assert(a@.take(a@.len() as int) =~= a@);
                assert(b@.take(b@.len() as int) =~= b@);
            }
            lex_order_prefix(a, a.len(), b, b.len())
        },
    }
}

proof fn lemma_trailing_digits_are_digits(s: Seq<char>)
    ensures
        trailing_digit_len(s) <= s.len(),
        forall|i: int| s.len() - trailing_digit_len(s) <= i < s.len() ==> is_digit(#[trigger] s[i]),
    decreases s.len(),
{
    if s.len() > 0 && is_digit(s.last()) {
        lemma_trailing_digits_are_digits(s.drop_last());
        assert forall|i: int| s.len() - trailing_digit_len(s) <= i < s.len() implies is_digit(#[trigger] s[i]) by {
            if i < s.len() - 1 {
                assert(s.drop_last()[i] == s[i]);
            }
        }
    }
}

/// `p` lists `n` distinct positions of `0..n`.
#[verifier::opaque]
pub open spec fn is_permutation(p: Seq<int>, n: int) -> bool {
    &&& p.len() == n
    &&& forall|a: int| 0 <= a < p.len() ==> 0 <= #[trigger] p[a] < n
    &&& forall|a: int, b: int| 0 <= a < b < p.len() ==> #[trigger] p[a] != #[trigger] p[b]
}

/// `out[a]` is `input[p[a]]` for every position of `out`.
#[verifier::opaque]
pub open spec fn rearranged(input: Seq<String>, out: Seq<String>, p: Seq<int>) -> bool {
    &&& out.len() == p.len()
    &&& forall|a: int| 0 <= a < out.len() ==> #[trigger] out[a] == input[p[a]]
}

/// Neighbours of `out` that compare equal in session order come from increasing
/// positions of `p`.
#[verifier::opaque]
pub open spec fn equal_neighbours_in_order(out: Seq<String>, p: Seq<int>) -> bool {
    forall|a: int| 0 <= a < out.len() - 1 ==>
        (session_order((#[trigger] out[a])@, out[a + 1]@) == Order::Equal ==> p[a] < p[a + 1])
}

/// `out` is `input` rearranged by the permutation `p` (`out[a]` is `input[p[a]]`), and
/// neighbours of `out` that compare equal in session order come in their input order.
pub open spec fn stable_arrangement(input: Seq<String>, out: Seq<String>, p: Seq<int>) -> bool {
    &&& is_permutation(p, input.len() as int)
    &&& rearranged(input, out, p)
    &&& equal_neighbours_in_order(out, p)
}

/// Sorts session folder names in place: by the text before the trailing number, then by
/// that number when both names have one (otherwise by the whole names). The sort is
/// stable: names that compare equal keep their input order, and names already in
/// session order are left as they are.
pub fn numeric_session_sort(dirs: &mut Vec<String>)
    ensures
        final(dirs)@.to_multiset() == old(dirs)@.to_multiset(),
        session_sorted(final(dirs)@),
        exists|p: Seq<int>| stable_arrangement(old(dirs)@, final(dirs)@, p),
        session_sorted(old(dirs)@) ==> final(dirs)@ == old(dirs)@,
{
    let n = dirs.len();
    let mut out: Vec<String> = Vec::new();
    let mut keys: Vec<Vec<char>> = Vec::new();
    let ghost mut perm: Seq<int> = Seq::empty();
    let mut i: usize = 0;
    proof {
        assert(dirs@.take(0) =~= Seq::<String>::empty());
        reveal(is_permutation);
        reveal(rearranged);
        reveal(equal_neighbours_in_order);
    }
    while i < n
        invariant
            n == dirs@.len(),
            dirs@ == old(dirs)@,
            i <= n,
            out@.len() == keys@.len(),
            forall|k: int| 0 <= k < keys@.len() ==> #[trigger] keys@[k]@ == out@[k]@,
            out@.to_multiset() == dirs@.take(i as int).to_multiset(),
            session_sorted(out@),
            stable_arrangement(dirs@.take(i as int), out@, perm),
            session_sorted(dirs@) ==> out@ == dirs@.take(i as int),
        decreases n - i,
    {
        let key = chars_of(dirs[i].as_str());
        let mut j: usize = out.len();
        proof {
            if session_sorted(dirs@) && i > 0 {
                assert(adjacent_in_order(dirs@, i - 1));
                assert(out@[i - 1] == dirs@[i - 1]);
            }
        }
        while j > 0 && session_order_exec(&keys[j - 1], &key) == Order::Greater
            invariant
                j <= out@.len(),
                out@.len() == keys@.len(),
                forall|k: int| 0 <= k < keys@.len() ==> #[trigger] keys@[k]@ == out@[k]@,
                forall|k: int| j <= k < out@.len() ==> session_order(#[trigger] out@[k]@, key@) == Order::Greater,
                (session_sorted(dirs@) && out@.len() > 0) ==> session_order(out@[out@.len() - 1]@, key@) != Order::Greater,
            decreases j,
        {
            j = j - 1;
        }
        let ghost before = out@;
        let ghost before_perm = perm;
        let item = dirs[i].clone();
        proof {
            assert(item@ == key@);
        }
        out.insert(j, item);
        keys.insert(j, key);
        proof {
            assert(dirs@.take(i + 1) =~= dirs@.take(i as int).push(dirs@[i as int]));
            lemma_insert_keeps_multiset(before, j as int, item);
            dirs@.take(i as int).to_multiset_ensures();
            assert(item == dirs@[i as int]);
            lemma_insert_keeps_sorted(before, j as int, item);
            assert(out@ =~= before.take(j as int).push(item) + before.skip(j as int));
            assert(out@ =~= before.insert(j as int, item));
            perm = before_perm.insert(j as int, i as int);
            lemma_insert_keeps_stable(dirs@.take(i as int), before, before_perm, j as int, item);
            assert(dirs@.take(i as int).push(item) =~= dirs@.take(i + 1));
            if session_sorted(dirs@) {
                assert(j == before.len());
                assert(out@ =~= dirs@.take(i + 1));
            }
        }
        i = i + 1;
    }
    proof {
        assert(dirs@.take(n as int) =~= dirs@);
    }
    *dirs = out;
}

proof fn lemma_insert_perm_range(n: int, p: Seq<int>, j: int)
    requires
        0 <= n,
        0 <= j <= p.len(),
        is_permutation(p, n),
    ensures
        is_permutation(p.insert(j, n), n + 1),
{
    reveal(is_permutation);
    let q = p.insert(j, n);
    p.insert_ensures(j, n);
    assert forall|a: int| 0 <= a < q.len() implies 0 <= #[trigger] q[a] < n + 1 by {
        if a < j {
            assert(q[a] == p[a]);
        } else if a > j {
            assert(q[(a - 1) + 1] == p[a - 1]);
        }
    }
    assert forall|a: int, b: int| 0 <= a < b < q.len() implies #[trigger] q[a] != #[trigger] q[b] by {
        if b < j {
            assert(q[a] == p[a] && q[b] == p[b]);
        } else if b == j {
            assert(q[a] == p[a]);
        } else if a < j {
            assert(q[a] == p[a] && q[(b - 1) + 1] == p[b - 1]);
        } else if a == j {
            assert(q[(b - 1) + 1] == p[b - 1]);
        } else {
            assert(q[(a - 1) + 1] == p[a - 1] && q[(b - 1) + 1] == p[b - 1]);
        }
    }
}

proof fn lemma_insert_items(input: Seq<String>, before: Seq<String>, p: Seq<int>, j: int, item: String)
    requires
        0 <= j <= before.len(),
        is_permutation(p, input.len() as int),
        rearranged(input, before, p),
    ensures
        rearranged(input.push(item), before.insert(j, item), p.insert(j, input.len() as int)),
{
    reveal(is_permutation);
    reveal(rearranged);
    let out = before.insert(j, item);
    let q = p.insert(j, input.len() as int);
    let inp = input.push(item);
    before.insert_ensures(j, item);
    p.insert_ensures(j, input.len() as int);
    assert forall|a: int| 0 <= a < out.len() implies #[trigger] out[a] == inp[q[a]] by {
        if a < j {
            assert(out[a] == before[a] && q[a] == p[a]);
            assert(inp[p[a]] == input[p[a]]);
        } else if a == j {
            assert(out[a] == item);
        } else {
            let b = a - 1;
            assert(out[b + 1] == before[b] && q[b + 1] == p[b]);
            assert(inp[p[b]] == input[p[b]]);
        }
    }
}

proof fn lemma_neighbour_after_insert(n: int, before: Seq<String>, p: Seq<int>, j: int, item: String, a: int)
    requires
        0 <= j <= before.len(),
        p.len() == before.len(),
        0 <= a < before.len(),
        forall|m: int| 0 <= m < p.len() ==> #[trigger] p[m] < n,
        a + 1 < j ==> (session_order(before[a]@, before[a + 1]@) == Order::Equal ==> p[a] < p[a + 1]),
        a > j ==> (session_order(before[a - 1]@, before[a]@) == Order::Equal ==> p[a - 1] < p[a]),
        a == j ==> session_order(before[a]@, item@) == Order::Greater,
        session_order(before.insert(j, item)[a]@, before.insert(j, item)[a + 1]@) == Order::Equal,
    ensures
        p.insert(j, n)[a] < p.insert(j, n)[a + 1],
{
    let out = before.insert(j, item);
    let q = p.insert(j, n);
    before.insert_ensures(j, item);
    p.insert_ensures(j, n);
    if a + 1 < j {
        assert(out[a] == before[a] && out[a + 1] == before[a + 1]);
        assert(q[a] == p[a] && q[a + 1] == p[a + 1]);
    } else if a + 1 == j {
        assert(q[a] == p[a] && q[a + 1] == n);
    } else if a == j {
        assert(out[a] == item && out[a + 1] == before[a]);
        lemma_session_flip(before[a]@, item@);
    } else {
        let b = a - 1;
        assert(out[b + 1] == before[b] && out[b + 2] == before[b + 1]);
        assert(q[b + 1] == p[b] && q[b + 2] == p[b + 1]);
    }
}

proof fn lemma_insert_equal_neighbours(n: int, before: Seq<String>, p: Seq<int>, j: int, item: String)
    requires
        0 <= j <= before.len(),
        p.len() == before.len(),
        forall|a: int| 0 <= a < p.len() ==> #[trigger] p[a] < n,
        equal_neighbours_in_order(before, p),
        forall|k: int| j <= k < before.len() ==> session_order(#[trigger] before[k]@, item@) == Order::Greater,
    ensures
        equal_neighbours_in_order(before.insert(j, item), p.insert(j, n)),
{
    let out = before.insert(j, item);
    let q = p.insert(j, n);
    assert(out.len() == before.len() + 1);
    assert forall|a: int| 0 <= a < out.len() - 1 && session_order((#[trigger] out[a])@, out[a + 1]@) == Order::Equal
        implies q[a] < q[a + 1] by {
        assert(a + 1 < j ==> (session_order(before[a]@, before[a + 1]@) == Order::Equal ==> p[a] < p[a + 1])) by {
            reveal(equal_neighbours_in_order);
        }
        assert(a > j ==> (session_order(before[a - 1]@, before[a]@) == Order::Equal ==> p[a - 1] < p[a])) by {
            reveal(equal_neighbours_in_order);
        }
        if a == j {
            assert(session_order(before[a]@, item@) == Order::Greater);
        }
        lemma_neighbour_after_insert(n, before, p, j, item, a);
    }
    reveal(equal_neighbours_in_order);
}

proof fn lemma_insert_keeps_stable(input: Seq<String>, before: Seq<String>, p: Seq<int>, j: int, item: String)
    requires
        0 <= j <= before.len(),
        stable_arrangement(input, before, p),
        forall|k: int| j <= k < before.len() ==> session_order(#[trigger] before[k]@, item@) == Order::Greater,
    ensures
        stable_arrangement(input.push(item), before.insert(j, item), p.insert(j, input.len() as int)),
{
    assert(p.len() == before.len() && forall|a: int| 0 <= a < p.len() ==> #[trigger] p[a] < input.len()) by {
        reveal(is_permutation);
        reveal(rearranged);
    }
    lemma_insert_perm_range(input.len() as int, p, j);
    lemma_insert_items(input, before, p, j, item);
    lemma_insert_equal_neighbours(input.len() as int, before, p, j, item);
}

proof fn lemma_insert_keeps_multiset(before: Seq<String>, j: int, item: String)
    requires
        0 <= j <= before.len(),
    ensures
        (before.take(j).push(item) + before.skip(j)).to_multiset() == before.to_multiset().insert(item),
{
    vstd::seq_lib::lemma_multiset_commutative(before.take(j), before.skip(j));
    assert(before =~= before.take(j) + before.skip(j));
    vstd::seq_lib::lemma_multiset_commutative(before.take(j).push(item), before.skip(j));
    before.take(j).to_multiset_ensures();
}

proof fn lemma_insert_keeps_sorted(before: Seq<String>, j: int, item: String)
    requires
        0 <= j <= before.len(),
        session_sorted(before),
        j > 0 ==> session_order(before[j - 1]@, item@) != Order::Greater,
        forall|k: int| j <= k < before.len() ==> session_order(#[trigger] before[k]@, item@) == Order::Greater,
    ensures
        session_sorted(before.take(j).push(item) + before.skip(j)),
{
    let out = before.take(j).push(item) + before.skip(j);
    assert forall|k: int| 0 <= k < out.len() - 1 implies #[trigger] adjacent_in_order(out, k) by {
        if k + 1 < j {
            assert(out[k] == before[k] && out[k + 1] == before[k + 1]);
            assert(adjacent_in_order(before, k));
        } else if k + 1 == j {
            assert(out[k + 1] == item);
            assert(out[k] == before[k]);
        } else if k == j {
            assert(out[k] == item);
            assert(out[k + 1] == before[k]);
            lemma_session_flip(before[k]@, item@);
        } else {
            assert(out[k] == before[k - 1] && out[k + 1] == before[k]);
            assert(adjacent_in_order(before, k - 1));
        }
    }
}

/// Session order is antisymmetric.
pub proof fn lemma_session_flip(a: Seq<char>, b: Seq<char>)
    ensures
        session_order(b, a) == session_order(a, b).flip(),
{
    reveal(session_order);
    lemma_lex_flip(name_prefix(a), name_prefix(b));
    lemma_lex_flip(a, b);
}

/// The trailing number of `s`, if any, fits in a `u64`.
pub open spec fn number_fits(s: Seq<char>) -> bool {
    digits_value(name_digits(s)) <= u64::MAX
}

/// Rank of a name among names with the same prefix: -1 without trailing digits,
/// otherwise the trailing number.
spec fn same_prefix_rank(s: Seq<char>) -> int {
    if name_digits(s).len() == 0 { -1 } else { digits_value(name_digits(s)) as int }
}

proof fn lemma_proper_prefix_less(p: Seq<char>, d: Seq<char>)
    requires
        d.len() > 0,
    ensures
        lex_order(p, p + d) == Order::Less,
    decreases p.len(),
{
    if p.len() > 0 {
        assert((p + d).drop_first() =~= p.drop_first() + d);
        lemma_proper_prefix_less(p.drop_first(), d);
    }
}

proof fn lemma_same_prefix_order(a: Seq<char>, b: Seq<char>)
    requires
        name_prefix(a) == name_prefix(b),
        number_fits(a),
        number_fits(b),
    ensures
        session_order(a, b) == (if same_prefix_rank(a) < same_prefix_rank(b) {
            Order::Less
        } else if same_prefix_rank(a) == same_prefix_rank(b) {
            Order::Equal
        } else {
            Order::Greater
        }),
{
    reveal(session_order);
    lemma_trailing_bound(a);
    lemma_trailing_bound(b);
    lemma_lex_equal(name_prefix(a), name_prefix(b));
    let p = name_prefix(a);
    assert(a =~= p + name_digits(a));
    assert(b =~= p + name_digits(b));
    if name_digits(a).len() == 0 && name_digits(b).len() > 0 {
        lemma_proper_prefix_less(p, name_digits(b));
    } else if name_digits(a).len() > 0 && name_digits(b).len() == 0 {
        lemma_proper_prefix_less(p, name_digits(a));
        lemma_lex_flip(b, a);
    } else if name_digits(a).len() == 0 && name_digits(b).len() == 0 {
        lemma_lex_equal(a, b);
    }
}

/// Session order is transitive on names whose trailing numbers fit in a `u64`.
pub proof fn lemma_session_trans(a: Seq<char>, b: Seq<char>, c: Seq<char>)
    requires
        number_fits(a),
        number_fits(b),
        number_fits(c),
        session_order(a, b) != Order::Greater,
        session_order(b, c) != Order::Greater,
    ensures
        session_order(a, c) != Order::Greater,
{
    let pa = name_prefix(a);
    let pb = name_prefix(b);
    let pc = name_prefix(c);
    reveal(session_order);
    lemma_lex_equal(pa, pb);
    lemma_lex_equal(pb, pc);
    lemma_lex_equal(pa, pc);
    lemma_lex_trans(pa, pb, pc);
    if pa == pb && pb == pc {
        lemma_same_prefix_order(a, b);
        lemma_same_prefix_order(b, c);
        lemma_same_prefix_order(a, c);
    }
}

proof fn lemma_session_trans_strict(a: Seq<char>, b: Seq<char>, c: Seq<char>)
    requires
        number_fits(a),
        number_fits(b),
        number_fits(c),
        session_order(a, b) != Order::Greater,
        session_order(b, c) != Order::Greater,
        session_order(a, b) == Order::Less || session_order(b, c) == Order::Less,
    ensures
        session_order(a, c) == Order::Less,
{
    let pa = name_prefix(a);
    let pb = name_prefix(b);
    let pc = name_prefix(c);
    reveal(session_order);
    lemma_lex_equal(pa, pb);
    lemma_lex_equal(pb, pc);
    lemma_lex_equal(pa, pc);
    lemma_lex_trans(pa, pb, pc);
    if pa == pb && pb == pc {
        lemma_same_prefix_order(a, b);
        lemma_same_prefix_order(b, c);
        lemma_same_prefix_order(a, c);
    } else if pa == pb {
        lemma_same_prefix_order(a, b);
    } else if pb == pc {
        lemma_same_prefix_order(b, c);
    }
}

proof fn lemma_stable_step(x: Seq<char>, y: Seq<char>, z: Seq<char>, pi: int, py: int, pz: int)
    requires
        number_fits(x),
        number_fits(y),
        number_fits(z),
        session_order(x, y) != Order::Greater,
        session_order(y, z) != Order::Greater,
        session_order(x, z) == Order::Equal,
        session_order(x, y) == Order::Equal ==> pi < py,
        session_order(y, z) == Order::Equal ==> py < pz,
    ensures
        pi < pz,
{
    if session_order(x, y) == Order::Less || session_order(y, z) == Order::Less {
        lemma_session_trans_strict(x, y, z);
    }
}

proof fn lemma_stable_pair(out: Seq<String>, p: Seq<int>, i: int, j: int)
    requires
        0 <= i < j < out.len(),
        p.len() == out.len(),
        session_sorted(out),
        equal_neighbours_in_order(out, p),
        forall|k: int| 0 <= k < out.len() ==> number_fits(#[trigger] out[k]@),
        session_order(out[i]@, out[j]@) == Order::Equal,
    ensures
        p[i] < p[j],
    decreases j - i,
{
    let k = j - 1;
    assert(adjacent_in_order(out, k));
    assert(session_order(out[k]@, out[j]@) == Order::Equal ==> p[k] < p[j]) by {
        reveal(equal_neighbours_in_order);
    }
    if k > i {
        assert(session_order(out[i]@, out[k]@) != Order::Greater) by {
            lemma_session_sorted_total(out);
        }
        if session_order(out[i]@, out[k]@) == Order::Equal {
            lemma_stable_pair(out, p, i, k);
        }
        lemma_stable_step(out[i]@, out[k]@, out[j]@, p[i], p[k], p[j]);
    }
}

/// Stability law: once names whose trailing numbers fit in a `u64` are sorted, any two
/// names that compare equal stand in their input order, however far apart they are.
pub proof fn lemma_sort_stable(input: Seq<String>, out: Seq<String>, p: Seq<int>)
    requires
        stable_arrangement(input, out, p),
        session_sorted(out),
        forall|k: int| 0 <= k < out.len() ==> number_fits(#[trigger] out[k]@),
    ensures
        forall|i: int, j: int| 0 <= i < j < out.len() ==>
            (session_order((#[trigger] out[i])@, (#[trigger] out[j])@) == Order::Equal ==> p[i] < p[j]),
{
    assert(p.len() == out.len()) by {
        reveal(is_permutation);
        reveal(rearranged);
    }
    assert forall|i: int, j: int| 0 <= i < j < out.len() && session_order((#[trigger] out[i])@, (#[trigger] out[j])@) == Order::Equal
        implies p[i] < p[j] by {
        lemma_stable_pair(out, p, i, j);
    }
}

/// Sorting law: a sequence whose neighbours are in session order, with every trailing
/// number fitting in a `u64`, is in session order between any two positions.
pub proof fn lemma_session_sorted_total(v: Seq<String>)
    requires
        session_sorted(v),
        forall|k: int| 0 <= k < v.len() ==> number_fits(#[trigger] v[k]@),
    ensures
        forall|i: int, j: int| 0 <= i < j < v.len() ==> session_order(#[trigger] v[i]@, #[trigger] v[j]@) != Order::Greater,
    decreases v.len(),
{
    if v.len() > 1 {
        let w = v.drop_last();
        assert forall|i: int| 0 <= i < w.len() - 1 implies #[trigger] adjacent_in_order(w, i) by {
            assert(adjacent_in_order(v, i));
        }
        lemma_session_sorted_total(w);
        assert forall|i: int, j: int| 0 <= i < j < v.len() implies session_order(#[trigger] v[i]@, #[trigger] v[j]@) != Order::Greater by {
            if j < v.len() - 1 {
                assert(w[i] == v[i] && w[j] == v[j]);
            } else if i == j - 1 {
                assert(adjacent_in_order(v, i));
            } else {
                assert(w[i] == v[i] && w[j - 1] == v[j - 1]);
                assert(adjacent_in_order(v, j - 1));
                lemma_session_trans(v[i]@, v[j - 1]@, v[j]@);
            }
        }
    }
}

/// Name of the record of an epoch: `epoch-` and the epoch number, zero-padded to three digits.
pub fn epoch_name(epoch: usize) -> (res: String)
    ensures
        res@ == "epoch-"@ + zero_padded(epoch as nat, 3),
{
    let mut out = String::new();
    push_str(&mut out, "epoch-");
    push_zero_padded(&mut out, epoch as u64, 3);
    proof {
        assert(out@ =~= "epoch-"@ + zero_padded(epoch as nat, 3));
    }
    out
}

/// std's owned file-system path, carried through without looking inside.
#[verifier::external_type_specification]
#[verifier::external_body]
pub struct ExPathBuf(std::path::PathBuf);

/// std's borrowed file-system path, carried through without looking inside.
#[verifier::external_type_specification]
#[verifier::external_body]
pub struct ExPath(std::path::Path);

/// The path that std's `PathBuf::as_path` borrows from `buf`: the path the buffer holds.
pub uninterp spec fn borrowed_path(buf: &std::path::PathBuf) -> &std::path::Path;

/// Borrows the path held by a `PathBuf` (std's `PathBuf::as_path`). The contract claims
/// only that the result is determined by the buffer (named by [`borrowed_path`]);
/// paths are opaque to the proofs here, so nothing more is stated of it.
#[verifier::external_body]
fn path_of(p: &std::path::PathBuf) -> (res: &std::path::Path)
    ensures
        res == borrowed_path(p),
{
    p.as_path()
}

/// The path that std's `Path::join` makes of `base` followed by `segment`.
pub uninterp spec fn joined_path(base: &std::path::Path, segment: Seq<char>) -> std::path::PathBuf;

/// Appends a segment to a path (std's `Path::join`). The contract claims only that the
/// result is determined by the base path and the segment's text (named by
/// [`joined_path`]); paths are opaque to the proofs here, so nothing more is stated of it.
#[verifier::external_body]
fn join_path(base: &std::path::Path, segment: &str) -> (res: std::path::PathBuf)
    ensures
        res == joined_path(base, segment@),
{
    base.join(segment)
}

/// The folder of session `session_name` under `policies_dir`:
/// `policies_dir/sessions/session_name`.
pub open spec fn session_folder(policies_dir: &std::path::Path, session_name: Seq<char>) -> std::path::PathBuf {
    joined_path(borrowed_path(&joined_path(policies_dir, "sessions"@)), session_name)
}

/// Where a training session writes its records, and the session's name.
pub struct SessionWriter {
    session_dir: std::path::PathBuf,
    session_name: String,
}

impl SessionWriter {
    /// The name of the session.
    pub closed spec fn name(&self) -> Seq<char> {
        self.session_name@
    }

    /// The folder the session writes to.
    pub closed spec fn dir(&self) -> std::path::PathBuf {
        self.session_dir
    }

    /// A writer for the session `session_name` of the policies under `policies_dir`: its
    /// folder is `policies_dir/sessions/session_name` (the folder itself is created by
    /// the caller).
    pub fn new(policies_dir: &std::path::Path, session_name: &str) -> (res: SessionWriter)
        ensures
            res.name() == session_name@,
            res.dir() == session_folder(policies_dir, session_name@),
    {
        let sessions = join_path(policies_dir, "sessions");
        let dir = join_path(path_of(&sessions), session_name);
        proof {
            reveal_strlit("sessions");
        }
        Self::from_parts(dir, session_name)
    }

    /// A writer for the session `session_name` whose folder is `session_dir` (the folder
    /// itself is created by the caller).
    pub fn from_parts(session_dir: std::path::PathBuf, session_name: &str) -> (res: SessionWriter)
        ensures
            res.name() == session_name@,
            res.dir() == session_dir,
    {
        let mut name = String::new();
        push_str(&mut name, session_name);
        proof {
            assert(name@ =~= session_name@);
        }
        SessionWriter { session_dir, session_name: name }
    }

    /// The session's folder, borrowed as a path.
    pub fn session_dir(&self) -> (res: &std::path::Path)
        ensures
            res == borrowed_path(&self.dir()),
    {
        path_of(&self.session_dir)
    }

    /// The session's name.
    pub fn session_name(&self) -> (res: &str)
        ensures
            res@ == self.name(),
    {
        self.session_name.as_str()
    }
}

/// Whether entry `x` of `names` is listed before entry `y` when sorting by name:
/// the smaller name first, equal names in their input order.
pub open spec fn name_before(names: Seq<Seq<char>>, x: int, y: int) -> bool {
    ||| lex_order(names[x], names[y]) == Order::Less
    ||| (lex_order(names[x], names[y]) == Order::Equal && x < y)
}

proof fn lemma_name_before_trans(names: Seq<Seq<char>>, x: int, y: int, z: int)
    requires
        name_before(names, x, y),
        name_before(names, y, z),
    ensures
        name_before(names, x, z),
{
    lemma_lex_trans(names[x], names[y], names[z]);
    lemma_lex_equal(names[x], names[y]);
    lemma_lex_equal(names[y], names[z]);
}

/// The views of a list of names.
pub open spec fn name_views(names: Seq<String>) -> Seq<Seq<char>> {
    Seq::new(names.len(), |i: int| names[i]@)
}

fn compare_keys(a: &Vec<char>, b: &Vec<char>) -> (res: Order)
    ensures
        res == lex_order(a@, b@),
{
    let res = lex_order_prefix(a, a.len(), b, b.len());
    proof {
        assert(a@.take(a@.len() as int) =~= a@);
        assert(b@.take(b@.len() as int) =~= b@);
    }
    res
}

/// The order in which a listing sorted by name shows the entries `names`: the indices
/// `0..n`, by name, entries of equal name in their input order.
pub fn order_by_name(names: &Vec<String>) -> (res: Vec<usize>)
    ensures
        res.len() == names.len(),
        forall|a: int| 0 <= a < res.len() ==> #[trigger] res@[a] < names.len(),
        forall|x: usize| x < names.len() ==> #[trigger] res@.contains(x),
        forall|a: int, b: int| 0 <= a < b < res.len() ==>
            name_before(name_views(names@), #[trigger] res@[a] as int, #[trigger] res@[b] as int),
{
    let n = names.len();
    let ghost views = name_views(names@);
    let mut keys: Vec<Vec<char>> = Vec::new();
    let mut k: usize = 0;
    while k < n
        invariant
            n == names.len(),
            views == name_views(names@),
            k <= n,
            keys.len() == k,
            forall|i: int| 0 <= i < k ==> #[trigger] keys@[i]@ == views[i],
        decreases n - k,
    {
        let key = chars_of(names[k].as_str());
        keys.push(key);
        k = k + 1;
    }
    let mut res: Vec<usize> = Vec::new();
    k = 0;
    while k < n
        invariant
            n == names.len() == keys.len(),
            views == name_views(names@),
            views.len() == n,
            forall|i: int| 0 <= i < n ==> #[trigger] keys@[i]@ == views[i],
            k <= n,
            res.len() == k,
            forall|a: int| 0 <= a < res.len() ==> #[trigger] res@[a] < k,
            forall|x: usize| x < k ==> #[trigger] res@.contains(x),
            forall|a: int, b: int| 0 <= a < b < res.len() ==>
                name_before(views, #[trigger] res@[a] as int, #[trigger] res@[b] as int),
        decreases n - k,
    {
        let mut pos: usize = 0;
        while pos < res.len() && compare_keys(&keys[k], &keys[res[pos]]) != Order::Less
            invariant
                n == names.len() == keys.len(),
                views.len() == n,
                forall|i: int| 0 <= i < n ==> #[trigger] keys@[i]@ == views[i],
                k < n,
                res.len() == k,
                pos <= res.len(),
                forall|a: int| 0 <= a < res.len() ==> #[trigger] res@[a] < k,
                forall|a: int| 0 <= a < pos ==> name_before(views, #[trigger] res@[a] as int, k as int),
            decreases res.len() - pos,
        {
            proof {
                let other = res@[pos as int] as int;
                assert(keys@[other]@ == views[other]);
                lemma_lex_flip(views[k as int], views[other]);
                lemma_lex_equal(views[k as int], views[other]);
            }
            pos = pos + 1;
        }
        proof {
            if pos < res.len() {
                let other = res@[pos as int] as int;
                assert(keys@[other]@ == views[other]);
            }
        }
        let ghost old_res = res@;
        proof {
            assert forall|a: int| pos <= a < old_res.len() implies name_before(views, k as int, #[trigger] old_res[a] as int) by {
                if a > pos {
                    assert(name_before(views, old_res[pos as int] as int, old_res[a] as int));
                    lemma_name_before_trans(views, k as int, old_res[pos as int] as int, old_res[a] as int);
                }
            }
        }
        res.insert(pos, k);
        proof {
            assert(res@ == old_res.insert(pos as int, k));
            assert forall|a: int, b: int| 0 <= a < b < res.len() implies
                name_before(views, #[trigger] res@[a] as int, #[trigger] res@[b] as int) by {
                if b < pos {
                    assert(res@[a] == old_res[a] && res@[b] == old_res[b]);
                } else if b == pos {
                    assert(res@[a] == old_res[a]);
                } else if a == pos {
                    assert(res@[b] == old_res[b - 1]);
                } else if a < pos {
                    assert(res@[a] == old_res[a] && res@[b] == old_res[b - 1]);
                } else {
                    assert(res@[a] == old_res[a - 1] && res@[b] == old_res[b - 1]);
                }
            }
            assert forall|x: usize| x < k + 1 implies #[trigger] res@.contains(x) by {
                if x == k {
                    assert(res@[pos as int] == k);
                } else {
                    assert(old_res.contains(x));
                    let i = choose|i: int| 0 <= i < old_res.len() && old_res[i] == x;
                    if i < pos {
                        assert(res@[i] == x);
                    } else {
                        assert(res@[i + 1] == x);
                    }
                }
            }
        }
        k = k + 1;
    }
    res
}

} // verus!
