//! Sort orders inside one scope.
//!
//! A scope is a set of rows of a table that are ordered among themselves: the
//! categories below one parent, or the sites of one category. This module
//! sees a table as two columns of equal length: `member[i]` tells whether row
//! `i` belongs to the scope, `orders[i]` is its sort order. It says what it
//! means for the orders of a scope to be contiguous, and which changes keep
//! them so.

use crate::ordering::{first_at, lemma_position_of, position, position_of};
use vstd::prelude::*;

verus! {

/// The number of members among the first `n` rows.
pub open spec fn count(member: Seq<bool>, n: int) -> nat
    decreases n,
{
    if n <= 0 {
        0
    } else {
        count(member, n - 1) + if member[n - 1] {
            1nat
        } else {
            0nat
        }
    }
}

/// The number of rows in the scope.
pub open spec fn size(member: Seq<bool>) -> nat {
    count(member, member.len() as int)
}

/// Row `i` exists and belongs to the scope.
pub open spec fn is_member(member: Seq<bool>, i: int) -> bool {
    0 <= i < member.len() && member[i]
}

/// Some row of the scope has the sort order `k`.
pub open spec fn is_taken(member: Seq<bool>, orders: Seq<i64>, k: int) -> bool {
    exists|i: int| #[trigger] is_member(member, i) && orders[i] == k
}

/// The sort orders of the scope are `0, 1, .., n - 1` for its `n` rows, each
/// taken exactly once: none is out of range, none is taken twice, none is
/// left out.
pub open spec fn contiguous(member: Seq<bool>, orders: Seq<i64>) -> bool {
    &&& member.len() == orders.len()
    &&& forall|i: int| #[trigger] is_member(member, i) ==> 0 <= orders[i] < size(member)
    &&& forall|i: int, j: int|
        #[trigger] is_member(member, i) && #[trigger] is_member(member, j) && i != j ==> orders[i]
            != orders[j]
    &&& forall|k: int| 0 <= k < size(member) ==> #[trigger] is_taken(member, orders, k)
}

/// `top` is the largest sort order in the scope, `None` for an empty scope.
pub open spec fn is_highest(member: Seq<bool>, orders: Seq<i64>, top: Option<i64>) -> bool {
    match top {
        None => forall|i: int| !#[trigger] is_member(member, i),
        Some(x) => {
            &&& exists|i: int| #[trigger] is_member(member, i) && orders[i] == x
            &&& forall|i: int| #[trigger] is_member(member, i) ==> orders[i] <= x
        },
    }
}

/// The sort order of a row that joins the scope at its end: one above the
/// largest, or zero in an empty scope.
pub open spec fn next_after(top: Option<i64>) -> int {
    match top {
        None => 0,
        Some(x) => x + 1,
    }
}

/// `order` is the sort order of a row that joins the scope at its end.
pub open spec fn is_next(member: Seq<bool>, orders: Seq<i64>, order: int) -> bool {
    ||| order == 0 && is_highest(member, orders, None)
    ||| i64::MIN < order <= i64::MAX + 1 && is_highest(member, orders, Some((order - 1) as i64))
}

/// Row `a` comes before row `b` in a listing by sort order; rows with the
/// same sort order keep the order of the table.
pub open spec fn before(orders: Seq<i64>, a: int, b: int) -> bool {
    orders[a] < orders[b] || (orders[a] == orders[b] && a < b)
}

/// `list` holds the rows of the scope, each once, by ascending sort order.
pub open spec fn is_listing(list: Seq<int>, member: Seq<bool>, orders: Seq<i64>) -> bool {
    &&& member.len() == orders.len()
    &&& forall|k: int| 0 <= k < list.len() ==> #[trigger] is_member(member, list[k])
    &&& forall|a: int, b: int|
        0 <= a < b < list.len() ==> before(orders, #[trigger] list[a], #[trigger] list[b])
    &&& forall|i: int| #[trigger] is_member(member, i) ==> list.contains(i)
}

/// The listing of the scope by sort order.
pub open spec fn listing_of(member: Seq<bool>, orders: Seq<i64>) -> Seq<int> {
    choose|list: Seq<int>| is_listing(list, member, orders)
}

/// The ids of the rows at the positions of `list`, in the order of `list`.
pub open spec fn ids_at(ids: Seq<i64>, list: Seq<int>) -> Seq<i64> {
    Seq::new(list.len(), |k: int| ids[list[k]])
}

/// The ids of the rows of the scope, by ascending sort order.
pub open spec fn ids_listed(ids: Seq<i64>, member: Seq<bool>, orders: Seq<i64>) -> Seq<i64> {
    ids_at(ids, listing_of(member, orders))
}

/// The sort orders after the rows whose id stands in `order` have been
/// numbered by the place of their id in `order`; the other rows keep theirs.
pub open spec fn numbered_by(ids: Seq<i64>, orders: Seq<i64>, order: Seq<i64>) -> Seq<i64> {
    Seq::new(
        ids.len(),
        |i: int|
            match position_of(order, ids[i]) {
                Some(k) => k as i64,
                None => orders[i],
            },
    )
}

/// `list` holds the rows of the scope, each once, in some order.
pub open spec fn enumerates(list: Seq<int>, member: Seq<bool>) -> bool {
    &&& list.no_duplicates()
    &&& forall|k: int| 0 <= k < list.len() ==> #[trigger] is_member(member, list[k])
    &&& forall|i: int| #[trigger] is_member(member, i) ==> list.contains(i)
}

/// The members among the first `n` rows are the members of the table cut
/// after `n` rows.
pub proof fn lemma_count_of_prefix(member: Seq<bool>, other: Seq<bool>, n: int)
    requires
        0 <= n <= member.len(),
        n <= other.len(),
        forall|i: int| 0 <= i < n ==> member[i] == other[i],
    ensures
        count(member, n) == count(other, n),
    decreases n,
{
    if n > 0 {
        lemma_count_of_prefix(member, other, n - 1);
    }
}

/// A scope has a row exactly when its size is not zero, and never more rows
/// than the table.
pub proof fn lemma_count_bounds(member: Seq<bool>, n: int)
    requires
        0 <= n <= member.len(),
    ensures
        count(member, n) <= n,
        count(member, n) > 0 <==> exists|i: int| 0 <= i < n && member[i],
    decreases n,
{
    if n > 0 {
        lemma_count_bounds(member, n - 1);
        if member[n - 1] {
            assert(0 <= n - 1 < n && member[n - 1]);
        }
    }
}

/// Changing one row changes the count by that row alone.
pub proof fn lemma_count_update(member: Seq<bool>, i: int, b: bool, n: int)
    requires
        0 <= i < member.len(),
        0 <= n <= member.len(),
    ensures
        count(member.update(i, b), n) == count(member, n) + (if i < n && b {
            1int
        } else {
            0
        }) - (if i < n && member[i] {
            1int
        } else {
            0
        }),
    decreases n,
{
    if n > 0 {
        lemma_count_update(member, i, b, n - 1);
    }
}

/// Taking one row out of the table changes the count by that row alone.
pub proof fn lemma_count_remove(member: Seq<bool>, i: int, n: int)
    requires
        0 <= i < member.len(),
        0 <= n <= member.len() - 1,
    ensures
        count(member.remove(i), n) == if n <= i {
            count(member, n) as int
        } else {
            count(member, n + 1) - (if member[i] {
                1int
            } else {
                0
            })
        },
    decreases n,
{
    if n > 0 {
        lemma_count_remove(member, i, n - 1);
        member.remove_ensures(i);
        assert(count(member, n + 1) == count(member, n) + if member[n] {
            1nat
        } else {
            0nat
        });
        assert(count(member, n) == count(member, n - 1) + if member[n - 1] {
            1nat
        } else {
            0nat
        });
    }
}

/// A list that holds each row of the scope once is as long as the scope is
/// large.
pub proof fn lemma_enumeration_length(list: Seq<int>, member: Seq<bool>)
    requires
        enumerates(list, member),
    ensures
        list.len() == size(member),
    decreases member.len(),
{
    let n = member.len() as int;
    if n == 0 {
        if list.len() > 0 {
            assert(is_member(member, list[0]));
        }
    } else {
        let front = member.take(n - 1);
        lemma_count_of_prefix(member, front, n - 1);
        if member[n - 1] {
            assert(is_member(member, n - 1));
            let p = choose|p: int| 0 <= p < list.len() && list[p] == n - 1;
            let rest = list.remove(p);
            assert forall|k: int| 0 <= k < rest.len() implies #[trigger] is_member(
                front,
                rest[k],
            ) by {
                let src = if k < p {
                    k
                } else {
                    k + 1
                };
                assert(rest[k] == list[src]);
                assert(is_member(member, list[src]));
                assert(list[src] != list[p]);
            }
            assert forall|i: int| #[trigger] is_member(front, i) implies rest.contains(i) by {
                assert(is_member(member, i));
                let q = choose|q: int| 0 <= q < list.len() && list[q] == i;
                if q < p {
                    assert(rest[q] == i);
                } else {
                    assert(rest[q - 1] == i);
                }
            }
            assert(rest.no_duplicates()) by {
                assert forall|a: int, b: int|
                    0 <= a < rest.len() && 0 <= b < rest.len() && a != b implies rest[a]
                    != rest[b] by {
                    let sa = if a < p {
                        a
                    } else {
                        a + 1
                    };
                    let sb = if b < p {
                        b
                    } else {
                        b + 1
                    };
                    assert(rest[a] == list[sa] && rest[b] == list[sb]);
                }
            }
            lemma_enumeration_length(rest, front);
        } else {
            assert forall|k: int| 0 <= k < list.len() implies #[trigger] is_member(
                front,
                list[k],
            ) by {
                assert(is_member(member, list[k]));
            }
            assert forall|i: int| #[trigger] is_member(front, i) implies list.contains(i) by {
                assert(is_member(member, i));
            }
            lemma_enumeration_length(list, front);
        }
    }
}

/// A listing by sort order holds each row of the scope once.
pub proof fn lemma_listing_enumerates(list: Seq<int>, member: Seq<bool>, orders: Seq<i64>)
    requires
        is_listing(list, member, orders),
    ensures
        enumerates(list, member),
        list.len() == size(member),
{
    assert forall|a: int, b: int| 0 <= a < list.len() && 0 <= b < list.len() && a != b implies list[a]
        != list[b] by {
        if a < b {
            assert(before(orders, list[a], list[b]));
        } else {
            assert(before(orders, list[b], list[a]));
        }
    }
    lemma_enumeration_length(list, member);
}

/// There is one listing of a scope by sort order and no other.
pub proof fn lemma_listing_is_unique(
    first: Seq<int>,
    second: Seq<int>,
    member: Seq<bool>,
    orders: Seq<i64>,
)
    requires
        is_listing(first, member, orders),
        is_listing(second, member, orders),
    ensures
        first == second,
    decreases first.len(),
{
    lemma_listing_enumerates(first, member, orders);
    lemma_listing_enumerates(second, member, orders);
    let n = first.len() as int;
    if n > 0 {
        // Both lists end with the row that comes after every other row.
        let x = first[n - 1];
        let y = second[n - 1];
        assert(is_member(member, x) && is_member(member, y));
        let px = choose|p: int| 0 <= p < second.len() && second[p] == x;
        let py = choose|p: int| 0 <= p < first.len() && first[p] == y;
        if px < n - 1 {
            assert(before(orders, second[px], second[n - 1]));
            if py < n - 1 {
                assert(before(orders, first[py], first[n - 1]));
            }
        }
        assert(x == y);
        let member2 = member.update(x, false);
        let f = first.drop_last();
        let s = second.drop_last();
        assert forall|k: int| 0 <= k < f.len() implies #[trigger] is_member(member2, f[k]) by {
            assert(is_member(member, first[k]));
            assert(before(orders, first[k], first[n - 1]));
        }
        assert forall|k: int| 0 <= k < s.len() implies #[trigger] is_member(member2, s[k]) by {
            assert(is_member(member, second[k]));
            assert(before(orders, second[k], second[n - 1]));
        }
        assert forall|i: int| #[trigger] is_member(member2, i) implies f.contains(i) && s.contains(
            i,
        ) by {
            assert(is_member(member, i));
            let q = choose|q: int| 0 <= q < first.len() && first[q] == i;
            assert(f[q] == i);
            let r = choose|r: int| 0 <= r < second.len() && second[r] == i;
            assert(s[r] == i);
        }
        assert forall|a: int, b: int| 0 <= a < b < f.len() implies before(
            orders,
            #[trigger] f[a],
            #[trigger] f[b],
        ) by {
            assert(before(orders, first[a], first[b]));
        }
        assert forall|a: int, b: int| 0 <= a < b < s.len() implies before(
            orders,
            #[trigger] s[a],
            #[trigger] s[b],
        ) by {
            assert(before(orders, second[a], second[b]));
        }
        lemma_listing_is_unique(f, s, member2, orders);
        assert(first =~= f.push(x));
        assert(second =~= s.push(y));
    } else {
        assert(first =~= second);
    }
}

/// Numbering the rows of a scope by their place in a list that holds each of
/// them once makes the sort orders of the scope contiguous.
pub proof fn lemma_numbering_is_contiguous(list: Seq<int>, member: Seq<bool>, orders: Seq<i64>)
    requires
        member.len() == orders.len(),
        enumerates(list, member),
        forall|k: int| 0 <= k < list.len() ==> orders[#[trigger] list[k]] == k,
    ensures
        contiguous(member, orders),
{
    lemma_enumeration_length(list, member);
    assert forall|i: int| #[trigger] is_member(member, i) implies 0 <= orders[i] < size(member) by {
        let k = choose|k: int| 0 <= k < list.len() && list[k] == i;
    }
    assert forall|i: int, j: int|
        #[trigger] is_member(member, i) && #[trigger] is_member(member, j) && i != j implies orders[i]
        != orders[j] by {
        let k = choose|k: int| 0 <= k < list.len() && list[k] == i;
        let l = choose|l: int| 0 <= l < list.len() && list[l] == j;
    }
    assert forall|k: int| 0 <= k < size(member) implies #[trigger] is_taken(
        member,
        orders,
        k,
    ) by {
        assert(is_member(member, list[k]));
    }
}

/// In a scope with contiguous sort orders the next free sort order is the
/// size of the scope.
pub proof fn lemma_next_is_size(member: Seq<bool>, orders: Seq<i64>, top: Option<i64>)
    requires
        contiguous(member, orders),
        is_highest(member, orders, top),
    ensures
        next_after(top) == size(member),
{
    lemma_count_bounds(member, member.len() as int);
    match top {
        None => {
            if size(member) > 0 {
                let i = choose|i: int| 0 <= i < member.len() && member[i];
                assert(is_member(member, i));
            }
        },
        Some(x) => {
            let i = choose|i: int| #[trigger] is_member(member, i) && orders[i] == x;
            let k = size(member) - 1;
            assert(is_taken(member, orders, k));
            let j = choose|j: int| #[trigger] is_member(member, j) && orders[j] == k;
        },
    }
}

/// A row that joins the table keeps the scope contiguous: as a member when
/// its sort order is the size of the scope, and whatever its sort order when
/// it is no member.
pub proof fn lemma_push_keeps_contiguous(
    member: Seq<bool>,
    orders: Seq<i64>,
    joins: bool,
    order: i64,
)
    requires
        contiguous(member, orders),
        joins ==> order == size(member),
    ensures
        contiguous(member.push(joins), orders.push(order)),
{
    let m2 = member.push(joins);
    let o2 = orders.push(order);
    let n = member.len() as int;
    lemma_count_of_prefix(m2, member, n);
    assert(size(m2) == size(member) + if joins {
        1nat
    } else {
        0nat
    });
    assert forall|i: int| #[trigger] is_member(m2, i) implies 0 <= o2[i] < size(m2) by {
        if i < n {
            assert(is_member(member, i));
        }
    }
    assert forall|i: int, j: int|
        #[trigger] is_member(m2, i) && #[trigger] is_member(m2, j) && i != j implies o2[i]
        != o2[j] by {
        if i < n {
            assert(is_member(member, i));
        }
        if j < n {
            assert(is_member(member, j));
        }
    }
    assert forall|k: int| 0 <= k < size(m2) implies #[trigger] is_taken(m2, o2, k) by {
        if k < size(member) {
            assert(is_taken(member, orders, k));
            let i = choose|i: int| #[trigger] is_member(member, i) && orders[i] == k;
            assert(is_member(m2, i) && o2[i] == k);
        } else {
            assert(is_member(m2, n) && o2[n] == k);
        }
    }
}

/// A row of the table that joins the scope with the size of the scope as its
/// sort order keeps the scope contiguous.
pub proof fn lemma_join_keeps_contiguous(member: Seq<bool>, orders: Seq<i64>, row: int, order: i64)
    requires
        contiguous(member, orders),
        0 <= row < member.len(),
        !member[row],
        order == size(member),
    ensures
        contiguous(member.update(row, true), orders.update(row, order)),
{
    let m2 = member.update(row, true);
    let o2 = orders.update(row, order);
    lemma_count_update(member, row, true, member.len() as int);
    assert forall|i: int| #[trigger] is_member(m2, i) implies 0 <= o2[i] < size(m2) by {
        if i != row {
            assert(is_member(member, i));
        }
    }
    assert forall|i: int, j: int|
        #[trigger] is_member(m2, i) && #[trigger] is_member(m2, j) && i != j implies o2[i]
        != o2[j] by {
        if i != row {
            assert(is_member(member, i));
        }
        if j != row {
            assert(is_member(member, j));
        }
    }
    assert forall|k: int| 0 <= k < size(m2) implies #[trigger] is_taken(m2, o2, k) by {
        if k < size(member) {
            assert(is_taken(member, orders, k));
            let i = choose|i: int| #[trigger] is_member(member, i) && orders[i] == k;
            assert(is_member(m2, i) && o2[i] == k);
        } else {
            assert(is_member(m2, row) && o2[row] == k);
        }
    }
}

/// A row that leaves the table keeps the scope contiguous when it is no
/// member, and when it is the member with the largest sort order.
pub proof fn lemma_remove_keeps_contiguous(member: Seq<bool>, orders: Seq<i64>, row: int)
    requires
        contiguous(member, orders),
        0 <= row < member.len(),
        member[row] ==> orders[row] == size(member) - 1,
    ensures
        contiguous(member.remove(row), orders.remove(row)),
{
    let m2 = member.remove(row);
    let o2 = orders.remove(row);
    lemma_count_remove(member, row, member.len() - 1);
    assert(size(m2) == size(member) - if member[row] {
        1int
    } else {
        0
    });
    assert(is_member(member, row) == member[row]);
    assert forall|i: int| #[trigger] is_member(m2, i) implies 0 <= o2[i] < size(m2) by {
        let src = if i < row {
            i
        } else {
            i + 1
        };
        assert(is_member(member, src));
    }
    assert forall|i: int, j: int|
        #[trigger] is_member(m2, i) && #[trigger] is_member(m2, j) && i != j implies o2[i]
        != o2[j] by {
        let si = if i < row {
            i
        } else {
            i + 1
        };
        let sj = if j < row {
            j
        } else {
            j + 1
        };
        assert(is_member(member, si) && is_member(member, sj));
    }
    assert forall|k: int| 0 <= k < size(m2) implies #[trigger] is_taken(m2, o2, k) by {
        assert(is_taken(member, orders, k));
        let s = choose|s: int| #[trigger] is_member(member, s) && orders[s] == k;
        assert(s != row);
        let i = if s < row {
            s
        } else {
            s - 1
        };
        assert(is_member(m2, i) && o2[i] == k);
    }
}

/// What happens outside a scope does not touch it: a table with the same
/// members and the same sort orders for them is contiguous when the other is.
pub proof fn lemma_same_scope(member: Seq<bool>, orders: Seq<i64>, other: Seq<i64>)
    requires
        contiguous(member, orders),
        other.len() == orders.len(),
        forall|i: int| #[trigger] is_member(member, i) ==> other[i] == orders[i],
    ensures
        contiguous(member, other),
{
    assert forall|k: int| 0 <= k < size(member) implies #[trigger] is_taken(
        member,
        other,
        k,
    ) by {
        assert(is_taken(member, orders, k));
        let i = choose|i: int| #[trigger] is_member(member, i) && orders[i] == k;
        assert(is_member(member, i) && other[i] == k);
    }
}

/// The positions held in `list`, as mathematical integers.
pub open spec fn positions(list: Seq<usize>) -> Seq<int> {
    Seq::new(list.len(), |k: int| list[k] as int)
}

/// Finds the largest sort order in the scope.
pub fn highest(member: &Vec<bool>, orders: &Vec<i64>) -> (top: Option<i64>)
    requires
        member@.len() == orders@.len(),
    ensures
        is_highest(member@, orders@, top),
{
    let mut top: Option<i64> = None;
    let mut i: usize = 0;
    while i < member.len()
        invariant
            i <= member@.len(),
            member@.len() == orders@.len(),
            match top {
                None => forall|j: int| 0 <= j < i ==> !member@[j],
                Some(x) => {
                    &&& exists|j: int| 0 <= j < i && #[trigger] is_member(member@, j) && orders@[j] == x
                    &&& forall|j: int| 0 <= j < i && member@[j] ==> orders@[j] <= x
                },
            },
        decreases member@.len() - i,
    {
        if member[i] {
            let better = match top {
                None => true,
                Some(x) => orders[i] > x,
            };
            if better {
                top = Some(orders[i]);
                assert(is_member(member@, i as int) && orders@[i as int] == orders@[i as int]);
            }
        }
        i += 1;
    }
    top
}

/// Lists the rows of the scope by ascending sort order; rows with the same
/// sort order keep the order of the table.
pub fn listing(member: &Vec<bool>, orders: &Vec<i64>) -> (list: Vec<usize>)
    requires
        member@.len() == orders@.len(),
    ensures
        is_listing(positions(list@), member@, orders@),
        positions(list@) == listing_of(member@, orders@),
        forall|k: int| 0 <= k < list@.len() ==> list@[k] < member@.len(),
{
    let mut list: Vec<usize> = Vec::new();
    let mut i: usize = 0;
    while i < member.len()
        invariant
            i <= member@.len(),
            member@.len() == orders@.len(),
            forall|k: int| 0 <= k < list@.len() ==> #[trigger] list@[k] < i && member@[list@[k] as int],
            forall|a: int, b: int|
                0 <= a < b < list@.len() ==> before(
                    orders@,
                    #[trigger] list@[a] as int,
                    #[trigger] list@[b] as int,
                ),
            forall|j: int| 0 <= j < i && member@[j] ==> positions(list@).contains(j),
        decreases member@.len() - i,
    {
        if member[i] {
            let mut p: usize = list.len();
            while p > 0 && orders[list[p - 1]] > orders[i]
                invariant
                    p <= list@.len(),
                    i < member@.len(),
                    member@.len() == orders@.len(),
                    forall|k: int| 0 <= k < list@.len() ==> #[trigger] list@[k] < i,
                    forall|k: int| p <= k < list@.len() ==> orders@[#[trigger] list@[k] as int] > orders@[i as int],
                decreases p,
            {
                p -= 1;
            }
            let ghost before_insert = list@;
            list.insert(p, i);
            proof {
                before_insert.insert_ensures(p as int, i);
                assert forall|a: int, b: int| 0 <= a < b < list@.len() implies before(
                    orders@,
                    #[trigger] list@[a] as int,
                    #[trigger] list@[b] as int,
                ) by {
                    let sa = if a < p { a } else { a - 1 };
                    let sb = if b < p { b } else { b - 1 };
                    if a == p {
                        assert(list@[b] == before_insert[sb]);
                    } else if b == p {
                        assert(list@[a] == before_insert[sa]);
                        if p > 0 {
                            if a < p - 1 {
                                assert(before(orders@, before_insert[a] as int, before_insert[p - 1] as int));
                            }
                        }
                    } else {
                        assert(list@[a] == before_insert[sa] && list@[b] == before_insert[sb]);
                        assert(before(orders@, before_insert[sa] as int, before_insert[sb] as int));
                    }
                }
                assert forall|j: int| 0 <= j < i + 1 && member@[j] implies positions(list@).contains(
                    j,
                ) by {
                    if j == i {
                        assert(positions(list@)[p as int] == j);
                    } else {
                        assert(positions(before_insert).contains(j));
                        let q = choose|q: int|
                            0 <= q < positions(before_insert).len() && positions(before_insert)[q]
                                == j;
                        if q < p {
                            assert(positions(list@)[q] == j);
                        } else {
                            assert(positions(list@)[q + 1] == j);
                        }
                    }
                }
                assert forall|k: int| 0 <= k < list@.len() implies #[trigger] list@[k] < i + 1
                    && member@[list@[k] as int] by {
                    if k < p {
                        assert(list@[k] == before_insert[k]);
                    } else if k > p {
                        assert(list@[k] == before_insert[k - 1]);
                    }
                }
            }
        }
        i += 1;
    }
    proof {
        let l = positions(list@);
        assert forall|k: int| 0 <= k < l.len() implies #[trigger] is_member(member@, l[k]) by {
            assert(list@[k] < i);
        }
        assert forall|a: int, b: int| 0 <= a < b < l.len() implies before(
            orders@,
            #[trigger] l[a],
            #[trigger] l[b],
        ) by {
            assert(before(orders@, list@[a] as int, list@[b] as int));
        }
        lemma_listing_of(l, member@, orders@);
    }
    list
}

/// The listing that the scope has is the one that was found.
pub proof fn lemma_listing_of(list: Seq<int>, member: Seq<bool>, orders: Seq<i64>)
    requires
        is_listing(list, member, orders),
    ensures
        listing_of(member, orders) == list,
{
    lemma_listing_is_unique(listing_of(member, orders), list, member, orders);
}

/// The ids of a scope, read off a table in which ids identify rows, do not
/// repeat, and they are the ids of the rows of the scope.
pub proof fn lemma_ids_listed(ids: Seq<i64>, member: Seq<bool>, orders: Seq<i64>, list: Seq<int>)
    requires
        ids.len() == member.len(),
        ids.no_duplicates(),
        is_listing(list, member, orders),
    ensures
        ids_at(ids, list).no_duplicates(),
        ids_at(ids, list).len() == size(member),
        forall|i: int| 0 <= i < ids.len() ==> (member[i] <==> ids_at(ids, list).contains(ids[i])),
        forall|x: i64| ids_at(ids, list).contains(x) ==> ids.contains(x),
{
    lemma_listing_enumerates(list, member, orders);
    let l = ids_at(ids, list);
    assert forall|a: int, b: int| 0 <= a < l.len() && 0 <= b < l.len() && a != b implies l[a]
        != l[b] by {
        assert(is_member(member, list[a]) && is_member(member, list[b]));
    }
    assert forall|i: int| 0 <= i < ids.len() implies (member[i] <==> l.contains(ids[i])) by {
        if member[i] {
            assert(is_member(member, i));
            let k = choose|k: int| 0 <= k < list.len() && list[k] == i;
            assert(l[k] == ids[i]);
        }
        if l.contains(ids[i]) {
            let k = choose|k: int| 0 <= k < l.len() && l[k] == ids[i];
            assert(is_member(member, list[k]));
        }
    }
    assert forall|x: i64| l.contains(x) implies ids.contains(x) by {
        let k = choose|k: int| 0 <= k < l.len() && l[k] == x;
        assert(is_member(member, list[k]));
    }
}

/// Numbering the rows of a scope by the place of their id in a list that
/// holds the id of each of them once makes the sort orders of the scope
/// contiguous, and makes that list the listing of the scope.
pub proof fn lemma_numbered_by_is_contiguous(
    ids: Seq<i64>,
    member: Seq<bool>,
    orders: Seq<i64>,
    order: Seq<i64>,
)
    requires
        ids.len() == member.len(),
        ids.len() == orders.len(),
        ids.no_duplicates(),
        order.no_duplicates(),
        order.len() <= i64::MAX,
        forall|i: int| 0 <= i < ids.len() ==> (member[i] <==> order.contains(ids[i])),
        forall|x: i64| order.contains(x) ==> ids.contains(x),
    ensures
        contiguous(member, numbered_by(ids, orders, order)),
        ids_listed(ids, member, numbered_by(ids, orders, order)) == order,
{
    let renumbered = numbered_by(ids, orders, order);
    let list = Seq::new(order.len(), |k: int| ids.index_of(order[k]));
    assert forall|k: int| 0 <= k < list.len() implies 0 <= list[k] < ids.len() && ids[list[k]]
        == order[k] by {
        assert(order.contains(order[k]));
        assert(ids.contains(order[k]));
    }
    assert forall|k: int| 0 <= k < list.len() implies #[trigger] is_member(member, list[k]) by {
        assert(order.contains(ids[list[k]]));
    }
    assert forall|i: int| #[trigger] is_member(member, i) implies list.contains(i) by {
        let k = choose|k: int| 0 <= k < order.len() && order[k] == ids[i];
        assert(ids[list[k]] == ids[i]);
        assert(list[k] == i);
    }
    assert(list.no_duplicates()) by {
        assert forall|a: int, b: int|
            0 <= a < list.len() && 0 <= b < list.len() && a != b implies list[a] != list[b] by {
            assert(ids[list[a]] == order[a] && ids[list[b]] == order[b]);
        }
    }
    assert forall|k: int| 0 <= k < list.len() implies renumbered[#[trigger] list[k]] == k by {
        assert(first_at(order, order[k], k));
        lemma_position_of(order, order[k]);
    }
    lemma_numbering_is_contiguous(list, member, renumbered);
    // By the new sort orders the rows are listed in the order of `order`.
    assert(is_listing(list, member, renumbered)) by {
        assert forall|a: int, b: int| 0 <= a < b < list.len() implies before(
            renumbered,
            #[trigger] list[a],
            #[trigger] list[b],
        ) by {
            assert(renumbered[list[a]] == a);
            assert(renumbered[list[b]] == b);
        }
    }
    lemma_listing_of(list, member, renumbered);
    assert(ids_at(ids, list) =~= order);
}

/// Rows whose id does not stand in the new order keep their sort order.
pub proof fn lemma_numbered_by_keeps_others(ids: Seq<i64>, orders: Seq<i64>, order: Seq<i64>)
    requires
        ids.len() == orders.len(),
    ensures
        numbered_by(ids, orders, order).len() == orders.len(),
        forall|i: int|
            0 <= i < ids.len() && !order.contains(ids[i]) ==> #[trigger] numbered_by(
                ids,
                orders,
                order,
            )[i] == orders[i],
{
    assert forall|i: int| 0 <= i < ids.len() && !order.contains(ids[i]) implies #[trigger] numbered_by(
        ids,
        orders,
        order,
    )[i] == orders[i] by {
        lemma_position_of(order, ids[i]);
    }
}

/// Writes the place of each id of `order` into the sort order of its row.
pub fn renumber(ids: &Vec<i64>, orders: &Vec<i64>, order: &Vec<i64>) -> (renumbered: Vec<i64>)
    requires
        ids@.len() == orders@.len(),
        order@.len() <= i64::MAX,
    ensures
        renumbered@ == numbered_by(ids@, orders@, order@),
{
    let mut renumbered: Vec<i64> = Vec::new();
    let mut i: usize = 0;
    while i < ids.len()
        invariant
            i <= ids@.len(),
            ids@.len() == orders@.len(),
            order@.len() <= i64::MAX,
            renumbered@.len() == i,
            forall|j: int| 0 <= j < i ==> renumbered@[j] == numbered_by(ids@, orders@, order@)[j],
        decreases ids@.len() - i,
    {
        proof {
            lemma_position_of(order@, ids@[i as int]);
        }
        let place = match position(order, ids[i]) {
            Some(k) => k as i64,
            None => orders[i],
        };
        renumbered.push(place);
        i += 1;
    }
    assert(renumbered@ =~= numbered_by(ids@, orders@, order@));
    renumbered
}

/// The ids of the rows at the positions of `list`.
pub fn ids_of_listing(ids: &Vec<i64>, list: &Vec<usize>) -> (listed: Vec<i64>)
    requires
        forall|k: int| 0 <= k < list@.len() ==> list@[k] < ids@.len(),
    ensures
        listed@ == ids_at(ids@, positions(list@)),
{
    let mut listed: Vec<i64> = Vec::new();
    let mut k: usize = 0;
    while k < list.len()
        invariant
            k <= list@.len(),
            forall|j: int| 0 <= j < list@.len() ==> list@[j] < ids@.len(),
            listed@.len() == k,
            forall|j: int| 0 <= j < k ==> listed@[j] == ids@[list@[j] as int],
        decreases list@.len() - k,
    {
        listed.push(ids[list[k]]);
        k += 1;
    }
    assert(listed@ =~= ids_at(ids@, positions(list@)));
    listed
}

} // verus!
