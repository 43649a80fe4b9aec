//! The order of strings.

use vstd::prelude::*;
use vstd::std_specs::iter::IteratorSpec;

verus! {

/// How two values stand to each other.
#[derive(Clone, Copy, Debug, PartialEq, Eq, Structural)]
pub enum Order {
    Less,
    Equal,
    Greater,
}

/// Whether `a` comes before `b`: character by character, in the order of their
/// code points, with the shorter string first where one is the start of the other.
pub open spec fn precedes(a: Seq<char>, b: Seq<char>) -> bool
    decreases a.len(),
{
    if b.len() == 0 {
        false
    } else if a.len() == 0 {
        true
    } else if a[0] == b[0] {
        precedes(a.drop_first(), b.drop_first())
    } else {
        a[0] < b[0]
    }
}

/// Compares two strings.
pub fn compare_texts(a: &str, b: &str) -> (order: Order)
    ensures
        match order {
            Order::Less => precedes(a@, b@),
            Order::Equal => a@ == b@,
            Order::Greater => precedes(b@, a@),
        },
{
    let mut a_left = a.chars();
    let mut b_left = b.chars();
    let ghost mut n: int = 0;
    assert(a@.skip(0) =~= a@);
    assert(b@.skip(0) =~= b@);
    loop
        invariant
            0 <= n <= a@.len(),
            n <= b@.len(),
            a_left.obeys_prophetic_iter_laws(),
            b_left.obeys_prophetic_iter_laws(),
            a_left.remaining() == a@.skip(n),
            b_left.remaining() == b@.skip(n),
            precedes(a@, b@) == precedes(a@.skip(n), b@.skip(n)),
            precedes(b@, a@) == precedes(b@.skip(n), a@.skip(n)),
            a@.take(n) == b@.take(n),
        decreases a@.len() - n,
    {
        match (a_left.next(), b_left.next()) {
            (None, None) => {
                assert(a@ =~= a@.take(n));
                assert(b@ =~= b@.take(n));
                return Order::Equal;
            },
            (None, Some(_)) => {
                return Order::Less;
            },
            (Some(_), None) => {
                return Order::Greater;
            },
            (Some(c), Some(d)) => {
                if c < d {
                    return Order::Less;
                }
                if d < c {
                    return Order::Greater;
                }
                assert(a@.skip(n).drop_first() =~= a@.skip(n + 1));
                assert(b@.skip(n).drop_first() =~= b@.skip(n + 1));
                assert(a@.take(n + 1) =~= a@.take(n).push(c));
                assert(b@.take(n + 1) =~= b@.take(n).push(d));
                proof {
                    n = n + 1;
                }
            },
        }
    }
}

/// Whether two strings are the same.
pub fn same_text(a: &str, b: &str) -> (same: bool)
    ensures
        same == (a@ == b@),
{
    let order = compare_texts(a, b);
    proof {
        law_text_order_is_total(a@, b@);
        law_text_order_is_total(b@, a@);
    }
    match order {
        Order::Equal => true,
        _ => false,
    }
}

/// The order of strings is strict and total.
pub proof fn law_text_order_is_total(a: Seq<char>, b: Seq<char>)
    ensures
        precedes(a, b) ==> a != b && !precedes(b, a),
        a != b ==> precedes(a, b) || precedes(b, a),
    decreases a.len(),
{
    if a.len() > 0 && b.len() > 0 && a[0] == b[0] {
        law_text_order_is_total(a.drop_first(), b.drop_first());
        if a.drop_first() == b.drop_first() {
            assert(a =~= seq![a[0]] + a.drop_first());
            assert(b =~= seq![b[0]] + b.drop_first());
        }
    } else if a.len() == 0 && b.len() == 0 {
        assert(a =~= b);
    }
}

/// The order of strings is transitive.
pub proof fn law_text_order_is_transitive(a: Seq<char>, b: Seq<char>, c: Seq<char>)
    requires
        precedes(a, b),
        precedes(b, c),
    ensures
        precedes(a, c),
    decreases a.len(),
{
    if a.len() > 0 && a[0] == b[0] && b[0] == c[0] {
        law_text_order_is_transitive(a.drop_first(), b.drop_first(), c.drop_first());
    }
}

/// The first character that differs decides: the string with the smaller one comes
/// first, whatever follows.
pub proof fn law_first_difference_decides_order(
    shared: Seq<char>,
    c: char,
    d: char,
    a_rest: Seq<char>,
    b_rest: Seq<char>,
)
    requires
        c < d,
    ensures
        precedes(shared + seq![c] + a_rest, shared + seq![d] + b_rest),
        !precedes(shared + seq![d] + b_rest, shared + seq![c] + a_rest),
    decreases shared.len(),
{
    let a = shared + seq![c] + a_rest;
    let b = shared + seq![d] + b_rest;
    if shared.len() > 0 {
        let rest = shared.drop_first();
        law_first_difference_decides_order(rest, c, d, a_rest, b_rest);
        assert(a.drop_first() =~= rest + seq![c] + a_rest);
        assert(b.drop_first() =~= rest + seq![d] + b_rest);
    }
}

/// A string comes before every longer one that begins with it.
pub proof fn law_start_of_a_string_comes_first(a: Seq<char>, rest: Seq<char>)
    requires
        rest.len() > 0,
    ensures
        precedes(a, a + rest),
        !precedes(a + rest, a),
    decreases a.len(),
{
    if a.len() > 0 {
        law_start_of_a_string_comes_first(a.drop_first(), rest);
        assert((a + rest).drop_first() =~= a.drop_first() + rest);
    }
}

} // verus!
