//! The reorder engine: a single-element move inside an ordered list of ids,
//! and the renumbering that follows it.
//!
//! The engine knows nothing of categories or sites. The caller hands it the
//! ids of one scope in their current order and persists the positions that
//! come back.

use crate::errors::{ErrorView, ServiceError};
use vstd::prelude::*;

verus! {

/// The position of the first occurrence of `id` in `ids`, if there is one.
pub open spec fn position_of(ids: Seq<i64>, id: i64) -> Option<int> {
    if exists|i: int| 0 <= i < ids.len() && ids[i] == id {
        Some(choose|i: int| first_at(ids, id, i))
    } else {
        None
    }
}

/// `i` is the position of the first occurrence of `id` in `ids`.
pub open spec fn first_at(ids: Seq<i64>, id: i64, i: int) -> bool {
    &&& 0 <= i < ids.len()
    &&& ids[i] == id
    &&& forall|j: int| 0 <= j < i ==> ids[j] != id
}

/// Where the moved element lands: the position of `over` in the list before
/// the move, or the front when no target is given or the target is not there.
pub open spec fn target_of(ids: Seq<i64>, over: Option<i64>) -> int {
    match over {
        Some(o) => match position_of(ids, o) {
            Some(j) => j,
            None => 0,
        },
        None => 0,
    }
}

/// The list after `active` has been taken out of its place and put back in at
/// the target position. Meaningful when `active` occurs in `ids`.
pub open spec fn moved(ids: Seq<i64>, active: i64, over: Option<i64>) -> Seq<i64> {
    ids.remove(position_of(ids, active).unwrap()).insert(target_of(ids, over), active)
}

/// Each id of `ids` paired with its position.
pub open spec fn numbered(ids: Seq<i64>) -> Seq<(i64, i64)> {
    Seq::new(ids.len(), |k: int| (ids[k], k as i64))
}

/// Whatever `first_at` holds of is the value of `position_of`.
pub proof fn lemma_position_of(ids: Seq<i64>, id: i64)
    ensures
        match position_of(ids, id) {
            Some(i) => first_at(ids, id, i),
            None => !ids.contains(id),
        },
        forall|i: int| first_at(ids, id, i) ==> position_of(ids, id) == Some(i),
{
    if exists|i: int| 0 <= i < ids.len() && ids[i] == id {
        let w = choose|i: int| 0 <= i < ids.len() && ids[i] == id;
        lemma_first_exists(ids, id, w);
        let f = choose|i: int| first_at(ids, id, i);
        assert forall|i: int| first_at(ids, id, i) implies i == f by {
            if i < f {
                assert(ids[i] != id);
            } else if f < i {
                assert(ids[f] != id);
            }
        }
    } else {
        assert forall|i: int| !first_at(ids, id, i) by {}
    }
}

proof fn lemma_first_exists(ids: Seq<i64>, id: i64, w: int)
    requires
        0 <= w < ids.len(),
        ids[w] == id,
    ensures
        exists|i: int| first_at(ids, id, i),
    decreases w,
{
    if exists|j: int| 0 <= j < w && ids[j] == id {
        let j = choose|j: int| 0 <= j < w && ids[j] == id;
        lemma_first_exists(ids, id, j);
    } else {
        assert(first_at(ids, id, w));
    }
}

/// Finds the first occurrence of `id`.
pub fn position(ids: &Vec<i64>, id: i64) -> (r: Option<usize>)
    ensures
        match r {
            Some(i) => position_of(ids@, id) == Some(i as int),
            None => position_of(ids@, id).is_none(),
        },
{
    let mut i: usize = 0;
    while i < ids.len()
        invariant
            i <= ids@.len(),
            forall|j: int| 0 <= j < i ==> ids@[j] != id,
        decreases ids@.len() - i,
    {
        if ids[i] == id {
            proof {
                assert(first_at(ids@, id, i as int));
                lemma_position_of(ids@, id);
            }
            return Some(i);
        }
        i += 1;
    }
    proof {
        lemma_position_of(ids@, id);
    }
    None
}

/// Moves `active_id` to the place of `over_id` (to the front when `over_id`
/// is absent or not in the list) and returns every id of the scope with its
/// new position, in the new order.
///
/// Fails with `BadRequest` when `active_id` is not one of `ids`.
pub fn reorder(ids: &Vec<i64>, active_id: i64, over_id: Option<i64>) -> (r: Result<
    Vec<(i64, i64)>,
    ServiceError,
>)
    requires
        ids@.len() <= i64::MAX,
    ensures
        match r {
            Ok(pairs) => ids@.contains(active_id) && pairs@ == numbered(
                moved(ids@, active_id, over_id),
            ),
            Err(e) => !ids@.contains(active_id) && e@ == ErrorView::BadRequest(
                "active id not in scope"@,
            ),
        },
{
    proof {
        lemma_position_of(ids@, active_id);
    }
    let old_index = match position(ids, active_id) {
        Some(i) => i,
        None => {
            return Err(ServiceError::BadRequest("active id not in scope".to_owned()));
        },
    };
    let new_index = match over_id {
        Some(over) => {
            proof {
                lemma_position_of(ids@, over);
            }
            match position(ids, over) {
                Some(j) => j,
                None => 0,
            }
        },
        None => 0,
    };
    let mut order: Vec<i64> = ids.clone();
    order.remove(old_index);
    order.insert(new_index, active_id);
    assert(order@ == moved(ids@, active_id, over_id));
    let mut pairs: Vec<(i64, i64)> = Vec::new();
    let mut k: usize = 0;
    while k < order.len()
        invariant
            k <= order@.len(),
            order@.len() <= i64::MAX,
            pairs@.len() == k,
            forall|j: int| 0 <= j < k ==> pairs@[j] == (order@[j], j as i64),
        decreases order@.len() - k,
    {
        pairs.push((order[k], k as i64));
        k += 1;
    }
    assert(pairs@ =~= numbered(order@));
    Ok(pairs)
}

/// The positions handed out by a renumbering are `0, 1, .., n - 1`, each once
/// and in this order, and the ids are those of the list that was numbered.
pub proof fn lemma_numbered_is_contiguous(ids: Seq<i64>)
    requires
        ids.len() <= i64::MAX,
    ensures
        numbered(ids).len() == ids.len(),
        forall|k: int| 0 <= k < ids.len() ==> (#[trigger] numbered(ids)[k]).1 == k,
        forall|k: int| 0 <= k < ids.len() ==> (#[trigger] numbered(ids)[k]).0 == ids[k],
{
}

/// The ids of a renumbering, in its order.
pub open spec fn ids_of(pairs: Seq<(i64, i64)>) -> Seq<i64> {
    Seq::new(pairs.len(), |k: int| pairs[k].0)
}

/// Reads the ids off a renumbering.
pub fn ids_in_order(pairs: &Vec<(i64, i64)>) -> (ids: Vec<i64>)
    ensures
        ids@ == ids_of(pairs@),
{
    let mut ids: Vec<i64> = Vec::new();
    let mut k: usize = 0;
    while k < pairs.len()
        invariant
            k <= pairs@.len(),
            ids@.len() == k,
            forall|j: int| 0 <= j < k ==> ids@[j] == pairs@[j].0,
        decreases pairs@.len() - k,
    {
        ids.push(pairs[k].0);
        k += 1;
    }
    assert(ids@ =~= ids_of(pairs@));
    ids
}

/// A move neither loses nor invents an id: the list after the move holds the
/// same ids as before, as often as before.
pub proof fn lemma_moved_keeps_ids(ids: Seq<i64>, active: i64, over: Option<i64>)
    requires
        ids.contains(active),
    ensures
        moved(ids, active, over).len() == ids.len(),
        moved(ids, active, over).to_multiset() == ids.to_multiset(),
        moved(ids, active, over)[target_of(ids, over)] == active,
{
    lemma_position_of(ids, active);
    if over is Some {
        lemma_position_of(ids, over->0);
    }
    let a = position_of(ids, active).unwrap();
    let o = target_of(ids, over);
    let cut = ids.remove(a);
    assert(0 <= o <= cut.len());
    ids.remove_ensures(a);
    cut.insert_ensures(o, active);
    assert(ids =~= cut.insert(a, active));
    vstd::seq_lib::to_multiset_insert(cut, a, active);
    vstd::seq_lib::to_multiset_insert(cut, o, active);
}

/// A move keeps a list without repeated ids free of repetitions and holds
/// exactly the ids that the list held.
pub proof fn lemma_moved_no_duplicates(ids: Seq<i64>, active: i64, over: Option<i64>)
    requires
        ids.no_duplicates(),
        ids.contains(active),
    ensures
        moved(ids, active, over).no_duplicates(),
        moved(ids, active, over).len() == ids.len(),
        forall|x: i64| moved(ids, active, over).contains(x) <==> ids.contains(x),
{
    lemma_position_of(ids, active);
    if over is Some {
        lemma_position_of(ids, over->0);
    }
    let a = position_of(ids, active).unwrap();
    let o = target_of(ids, over);
    let once = moved(ids, active, over);
    let src = |k: int|
        if k == o {
            a
        } else if k < o {
            if k < a {
                k
            } else {
                k + 1
            }
        } else {
            if k - 1 < a {
                k - 1
            } else {
                k
            }
        };
    let dst = |j: int|
        if j == a {
            o
        } else {
            let c = if j < a {
                j
            } else {
                j - 1
            };
            if c < o {
                c
            } else {
                c + 1
            }
        };
    assert forall|k: int| 0 <= k < once.len() implies once[k] == ids[src(k)] && 0 <= src(k)
        < ids.len() by {}
    assert forall|i: int, j: int| 0 <= i < once.len() && 0 <= j < once.len() && i != j implies once[i]
        != once[j] by {
        assert(once[i] == ids[src(i)]);
        assert(once[j] == ids[src(j)]);
        assert(src(i) != src(j));
    }
    assert forall|x: i64| once.contains(x) <==> ids.contains(x) by {
        if once.contains(x) {
            let k = choose|k: int| 0 <= k < once.len() && once[k] == x;
            assert(ids[src(k)] == x);
        }
        if ids.contains(x) {
            let j = choose|j: int| 0 <= j < ids.len() && ids[j] == x;
            assert(once[dst(j)] == ids[src(dst(j))]);
            assert(src(dst(j)) == j);
            assert(once[dst(j)] == x);
        }
    }
}

/// The element that sits, after the move of `active` onto `over`, where
/// `active` sat before: the neighbour that `active` left behind on the side
/// it moved towards (or `active` itself when it did not move).
pub open spec fn neighbour_left_behind(ids: Seq<i64>, active: i64, over: i64) -> i64 {
    moved(ids, active, Some(over))[position_of(ids, active).unwrap()]
}

/// Round trip: in a list without repeated ids, moving `active` onto `over`
/// and then moving it back onto the neighbour it left behind restores the
/// original order. That neighbour is the element that followed `active`
/// when it moved towards the back, and the one that preceded it when it
/// moved towards the front.
pub proof fn lemma_reorder_round_trip(ids: Seq<i64>, active: i64, over: i64)
    requires
        ids.no_duplicates(),
        ids.contains(active),
        ids.contains(over),
    ensures
        ({
            let a = position_of(ids, active).unwrap();
            let o = position_of(ids, over).unwrap();
            let back = neighbour_left_behind(ids, active, over);
            &&& back == if a < o {
                ids[a + 1]
            } else if o < a {
                ids[a - 1]
            } else {
                active
            }
            &&& moved(moved(ids, active, Some(over)), active, Some(back)) == ids
        }),
{
    lemma_position_of(ids, active);
    lemma_position_of(ids, over);
    let a = position_of(ids, active).unwrap();
    let o = position_of(ids, over).unwrap();
    let cut = ids.remove(a);
    let once = cut.insert(o, active);
    assert(once == moved(ids, active, Some(over)));
    let back = once[a];
    assert forall|i: int, j: int| 0 <= i < once.len() && 0 <= j < once.len() && i != j implies once[i]
        != once[j] by {
        let src = |k: int| if k == o { a } else if k < o { if k < a { k } else { k + 1 } } else { if k - 1 < a { k - 1 } else { k } };
        assert(once[i] == ids[src(i)]);
        assert(once[j] == ids[src(j)]);
        assert(src(i) != src(j));
    }
    assert(first_at(once, active, o));
    lemma_position_of(once, active);
    assert(first_at(once, back, a));
    lemma_position_of(once, back);
    assert(once.remove(o) =~= cut);
    assert(cut.insert(a, active) =~= ids);
}

} // verus!
