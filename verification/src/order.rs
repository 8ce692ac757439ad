//! Three-way comparison results and lexicographic order on character sequences.

use vstd::prelude::*;

verus! {

/// Result of a three-way comparison.
#[derive(Clone, Copy, Debug, PartialEq, Eq, Structural)]
pub enum Order {
    Less,
    Equal,
    Greater,
}

impl Order {
    /// The comparison seen from the other side.
    pub open spec fn flip(self) -> Order {
        match self {
            Order::Less => Order::Greater,
            Order::Equal => Order::Equal,
            Order::Greater => Order::Less,
        }
    }
}

/// Three-way comparison of two naturals.
pub open spec fn nat_order(a: nat, b: nat) -> Order {
    if a < b { Order::Less } else if a == b { Order::Equal } else { Order::Greater }
}

/// Lexicographic order of character sequences by code point (a proper prefix is smaller).
pub open spec fn lex_order(a: Seq<char>, b: Seq<char>) -> Order
    decreases a.len(),
{
    if a.len() == 0 && b.len() == 0 {
        Order::Equal
    } else if a.len() == 0 {
        Order::Less
    } else if b.len() == 0 {
        Order::Greater
    } else if a[0] < b[0] {
        Order::Less
    } else if a[0] > b[0] {
        Order::Greater
    } else {
        lex_order(a.drop_first(), b.drop_first())
    }
}

/// Lexicographic order is antisymmetric.
pub proof fn lemma_lex_flip(a: Seq<char>, b: Seq<char>)
    ensures
        lex_order(b, a) == lex_order(a, b).flip(),
    decreases a.len(),
{
    if a.len() > 0 && b.len() > 0 && a[0] == b[0] {
        lemma_lex_flip(a.drop_first(), b.drop_first());
    }
}

/// Lexicographic order only calls equal sequences equal.
pub proof fn lemma_lex_equal(a: Seq<char>, b: Seq<char>)
    ensures
        lex_order(a, b) == Order::Equal <==> a == b,
    decreases a.len(),
{
    if a.len() > 0 && b.len() > 0 && a[0] == b[0] {
        lemma_lex_equal(a.drop_first(), b.drop_first());
        if a.drop_first() == b.drop_first() {
            assert(a =~= seq![a[0]] + a.drop_first());
            assert(b =~= seq![b[0]] + b.drop_first());
        }
    }
    if a == b && a.len() > 0 {
        assert(a.drop_first() == b.drop_first());
    }
    if a.len() == 0 && b.len() == 0 {
        assert(a =~= b);
    }
}

/// Lexicographic order is transitive.
pub proof fn lemma_lex_trans(a: Seq<char>, b: Seq<char>, c: Seq<char>)
    requires
        lex_order(a, b) != Order::Greater,
        lex_order(b, c) != Order::Greater,
    ensures
        lex_order(a, c) != Order::Greater,
        lex_order(a, b) == Order::Less || lex_order(b, c) == Order::Less ==> lex_order(a, c) == Order::Less,
    decreases a.len(),
{
    if a.len() > 0 && b.len() > 0 && c.len() > 0 && a[0] == b[0] && b[0] == c[0] {
        lemma_lex_trans(a.drop_first(), b.drop_first(), c.drop_first());
    }
}

/// Compares `a[..a_end]` with `b[..b_end]` lexicographically.
pub fn lex_order_prefix(a: &Vec<char>, a_end: usize, b: &Vec<char>, b_end: usize) -> (res: Order)
    requires
        a_end <= a@.len(),
        b_end <= b@.len(),
    ensures
        res == lex_order(a@.take(a_end as int), b@.take(b_end as int)),
{
    let ghost sa = a@.take(a_end as int);
    let ghost sb = b@.take(b_end as int);
    let mut i: usize = 0;
    proof {
        assert(sa.skip(0) =~= sa);
        assert(sb.skip(0) =~= sb);
    }
    while i < a_end && i < b_end
        invariant
            a_end <= a@.len(),
            b_end <= b@.len(),
            sa == a@.take(a_end as int),
            sb == b@.take(b_end as int),
            i <= a_end,
            i <= b_end,
            lex_order(sa, sb) == lex_order(sa.skip(i as int), sb.skip(i as int)),
        decreases a_end - i,
    {
        let x = a[i];
        let y = b[i];
        proof {
            assert(sa.skip(i as int)[0] == x);
            assert(sb.skip(i as int)[0] == y);
        }
        if x < y {
            return Order::Less;
        } else if x > y {
            return Order::Greater;
        }
        proof {
            assert(sa.skip(i as int).drop_first() =~= sa.skip(i + 1));
            assert(sb.skip(i as int).drop_first() =~= sb.skip(i + 1));
        }
        i = i + 1;
    }
    if i < a_end {
        Order::Greater
    } else if i < b_end {
        Order::Less
    } else {
        Order::Equal
    }
}

} // verus!
