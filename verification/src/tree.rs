//! What the tree of categories is, stated over the flat rows it is built
//! from, and what holds of it.

use crate::models::category::Category;
use crate::lists::lemma_filter_keeps;
use crate::response::category::Node;
use crate::store::distinct_category_ids;
use crate::utils::served_at;
use vstd::prelude::*;

verus! {

/// The rows filed directly under `parent`.
pub open spec fn under(parent: i64) -> spec_fn(Category) -> bool {
    |row: Category| row.parent_id == Some(parent)
}

/// Some row with this id is filed under a parent.
pub open spec fn is_nested(rows: Seq<Category>, id: i64) -> bool {
    exists|j: int| 0 <= j < rows.len() && #[trigger] rows[j].id == id && rows[j].parent_id is Some
}

/// The rows that open the tree: those without a parent whose id no row
/// carries below a parent.
pub open spec fn opens_tree(rows: Seq<Category>) -> spec_fn(Category) -> bool {
    |row: Category| row.parent_id is None && !is_nested(rows, row.id)
}

/// The rows filed directly under `parent`, in the order of `rows`.
pub open spec fn child_rows(rows: Seq<Category>, parent: i64) -> Seq<Category> {
    rows.filter(under(parent))
}

/// The node that stands for `row`, with everything below it down to `depth`
/// further levels. A node without children, or at the last level, has none
/// attached.
pub open spec fn node_of(rows: Seq<Category>, upload_url: Seq<char>, row: Category, depth: nat) -> Node
    decreases depth, 0nat,
{
    Node {
        id: row.id,
        name: row.name@,
        description: row.description@,
        icon: served_at(row.icon@, upload_url),
        parent_id: row.parent_id,
        children: if depth == 0 || child_rows(rows, row.id).len() == 0 {
            None
        } else {
            Some(nodes_of(rows, upload_url, child_rows(rows, row.id), (depth - 1) as nat))
        },
    }
}

/// The nodes that stand for the rows of `list`, in the same order.
pub open spec fn nodes_of(
    rows: Seq<Category>,
    upload_url: Seq<char>,
    list: Seq<Category>,
    depth: nat,
) -> Seq<Node>
    decreases depth, 1nat,
{
    Seq::new(list.len(), |k: int| node_of(rows, upload_url, list[k], depth))
}

/// The tree of `rows`: one node for each row that opens the tree, in the order
/// of `rows`, each with its descendants. Nesting ends after as many levels as
/// there are rows; where ids identify rows that cuts nothing off, see
/// [`lemma_tree_is_complete`].
pub open spec fn forest_of(rows: Seq<Category>, upload_url: Seq<char>) -> Seq<Node> {
    nodes_of(rows, upload_url, rows.filter(opens_tree(rows)), rows.len())
}

/// The flat listing of `rows`: one node without children for each row, in the
/// order of `rows`.
pub open spec fn flat_of(rows: Seq<Category>, upload_url: Seq<char>) -> Seq<Node> {
    nodes_of(rows, upload_url, rows, 0)
}

/// `id` is the id of a node somewhere below `node`.
pub open spec fn occurs_below(node: Node, id: i64) -> bool
    decreases node,
{
    match node.children {
        None => false,
        Some(kids) => exists|k: int|
            0 <= k < kids.len() && (#[trigger] kids[k].id == id || occurs_below(kids[k], id)),
    }
}

/// An id occurs below a node when it is the id of a child or occurs below one.
proof fn lemma_occurs_below_unfolds(node: Node, id: i64)
    requires
        occurs_below(node, id),
    ensures
        node.children is Some,
        ({
            let kids = node.children->0;
            exists|k: int|
                0 <= k < kids.len() && (#[trigger] kids[k].id == id || occurs_below(kids[k], id))
        }),
{
}

/// Whatever is nested below the node of a row is a row filed under a parent.
pub proof fn lemma_nested_nodes_have_parents(
    rows: Seq<Category>,
    upload_url: Seq<char>,
    row: Category,
    depth: nat,
    id: i64,
)
    requires
        occurs_below(node_of(rows, upload_url, row, depth), id),
    ensures
        is_nested(rows, id),
    decreases depth,
{
    let node = node_of(rows, upload_url, row, depth);
    assert(node.children is Some);
    let kids = node.children->0;
    let list = child_rows(rows, row.id);
    assert(kids == nodes_of(rows, upload_url, list, (depth - 1) as nat));
    lemma_occurs_below_unfolds(node, id);
    let k = choose|k: int|
        0 <= k < kids.len() && (#[trigger] kids[k].id == id || occurs_below(kids[k], id));
    assert(kids[k] == node_of(rows, upload_url, list[k], (depth - 1) as nat));
    lemma_filter_keeps(rows, under(row.id));
    assert(under(row.id)(list[k]));
    assert(rows.contains(list[k]));
    let j = choose|j: int| 0 <= j < rows.len() && rows[j] == list[k];
    if kids[k].id == id {
        assert(rows[j].id == id && rows[j].parent_id is Some);
    } else {
        lemma_nested_nodes_have_parents(rows, upload_url, list[k], (depth - 1) as nat, id);
    }
}

/// No node stands both at the top of the tree and below another node: the id
/// of a top-level entry occurs nowhere underneath any top-level entry.
pub proof fn lemma_top_level_not_nested(rows: Seq<Category>, upload_url: Seq<char>)
    ensures
        forall|t: int, u: int|
            0 <= t < forest_of(rows, upload_url).len() && 0 <= u < forest_of(rows, upload_url).len()
                ==> !occurs_below(
                #[trigger] forest_of(rows, upload_url)[u],
                #[trigger] forest_of(rows, upload_url)[t].id,
            ),
{
    let forest = forest_of(rows, upload_url);
    let tops = rows.filter(opens_tree(rows));
    lemma_filter_keeps(rows, opens_tree(rows));
    assert forall|t: int, u: int| 0 <= t < forest.len() && 0 <= u < forest.len() implies !occurs_below(
        #[trigger] forest[u],
        #[trigger] forest[t].id,
    ) by {
        assert(opens_tree(rows)(tops[t]));
        assert(forest[t].id == tops[t].id);
        if occurs_below(forest[u], forest[t].id) {
            lemma_nested_nodes_have_parents(rows, upload_url, tops[u], rows.len(), forest[t].id);
        }
    }
}

/// The tree is a function of the rows and the upload base: two trees built
/// from the same input are the same tree.
pub proof fn lemma_same_input_same_tree(
    rows: Seq<Category>,
    upload_url: Seq<char>,
    first: Seq<Node>,
    second: Seq<Node>,
)
    requires
        first == forest_of(rows, upload_url),
        second == forest_of(rows, upload_url),
    ensures
        first == second,
{
}

/// The top of the tree holds only rows without a parent, in the order in
/// which the flat rows list them.
pub proof fn lemma_tops_are_roots(rows: Seq<Category>, upload_url: Seq<char>)
    ensures
        forest_of(rows, upload_url).len() <= rows.len(),
        forall|t: int|
            0 <= t < forest_of(rows, upload_url).len() ==> (#[trigger] forest_of(
                rows,
                upload_url,
            )[t]).parent_id is None,
{
    let tops = rows.filter(opens_tree(rows));
    lemma_filter_keeps(rows, opens_tree(rows));
    assert forall|t: int| 0 <= t < forest_of(rows, upload_url).len() implies (#[trigger] forest_of(
        rows,
        upload_url,
    )[t]).parent_id is None by {
        assert(opens_tree(rows)(tops[t]));
    }
}

/// `chain` leads from a row without a parent down to a row, each row filed
/// under the one before it. The rows are given by their positions.
pub open spec fn is_descent(rows: Seq<Category>, chain: Seq<int>) -> bool {
    &&& chain.len() >= 1
    &&& forall|j: int| 0 <= j < chain.len() ==> 0 <= #[trigger] chain[j] < rows.len()
    &&& rows[chain[0]].parent_id is None
    &&& forall|j: int|
        1 <= j < chain.len() ==> (#[trigger] rows[chain[j]]).parent_id == Some(
            rows[chain[j - 1]].id,
        )
}

/// Where ids identify rows, no row occurs twice on the way down from a root.
proof fn lemma_descent_distinct(rows: Seq<Category>, chain: Seq<int>, a: int, b: int)
    requires
        distinct_category_ids(rows),
        is_descent(rows, chain),
        0 <= a < b < chain.len(),
    ensures
        chain[a] != chain[b],
    decreases a,
{
    if chain[a] == chain[b] {
        assert(rows[chain[b]].parent_id is Some);
        if a > 0 {
            assert(rows[chain[a]].parent_id == Some(rows[chain[a - 1]].id));
            assert(rows[chain[a - 1]].id == rows[chain[b - 1]].id);
            lemma_descent_distinct(rows, chain, a - 1, b - 1);
        }
    }
}

/// Where ids identify rows, the way down from a root passes no more rows
/// than there are.
proof fn lemma_descent_length(rows: Seq<Category>, chain: Seq<int>)
    requires
        distinct_category_ids(rows),
        is_descent(rows, chain),
    ensures
        chain.len() <= rows.len(),
{
    assert(chain.no_duplicates()) by {
        assert forall|a: int, b: int|
            0 <= a < chain.len() && 0 <= b < chain.len() && a != b implies chain[a] != chain[b] by {
            if a < b {
                lemma_descent_distinct(rows, chain, a, b);
            } else {
                lemma_descent_distinct(rows, chain, b, a);
            }
        }
    }
    chain.unique_seq_to_set();
    let all = vstd::set_lib::set_int_range(0, rows.len() as int);
    vstd::set_lib::lemma_int_range(0, rows.len() as int);
    assert(chain.to_set().subset_of(all)) by {
        assert forall|x: int| chain.to_set().contains(x) implies all.contains(x) by {
            let j = choose|j: int| 0 <= j < chain.len() && chain[j] == x;
            assert(0 <= chain[j] < rows.len());
        }
    }
    vstd::set_lib::lemma_len_subset(chain.to_set(), all);
}

/// A node that stands at the end of a way down from a root, with as many
/// levels left as there are rows it has not passed, looks the same with one
/// level more.
proof fn lemma_node_is_complete(
    rows: Seq<Category>,
    upload_url: Seq<char>,
    chain: Seq<int>,
    depth: nat,
)
    requires
        distinct_category_ids(rows),
        is_descent(rows, chain),
        depth + chain.len() >= rows.len() + 1,
    ensures
        node_of(rows, upload_url, rows[chain.last()], depth) == node_of(
            rows,
            upload_url,
            rows[chain.last()],
            depth + 1,
        ),
    decreases rows.len() - chain.len(),
{
    lemma_descent_length(rows, chain);
    let row = rows[chain.last()];
    let kids = child_rows(rows, row.id);
    lemma_filter_keeps(rows, under(row.id));
    if kids.len() > 0 {
        assert forall|k: int| 0 <= k < kids.len() implies node_of(
            rows,
            upload_url,
            kids[k],
            (depth - 1) as nat,
        ) == node_of(rows, upload_url, kids[k], depth) by {
            assert(under(row.id)(kids[k]));
            assert(rows.contains(kids[k]));
            let j = choose|j: int| 0 <= j < rows.len() && rows[j] == kids[k];
            let longer = chain.push(j);
            assert(is_descent(rows, longer)) by {
                assert forall|i: int| 1 <= i < longer.len() implies (
                #[trigger] rows[longer[i]]).parent_id == Some(rows[longer[i - 1]].id) by {
                    if i < chain.len() {
                        assert(longer[i] == chain[i] && longer[i - 1] == chain[i - 1]);
                    }
                }
            }
            lemma_descent_length(rows, longer);
            lemma_node_is_complete(rows, upload_url, longer, (depth - 1) as nat);
        }
        assert(nodes_of(rows, upload_url, kids, (depth - 1) as nat) =~= nodes_of(
            rows,
            upload_url,
            kids,
            depth,
        ));
    }
}

/// Where ids identify rows, the limit on nesting cuts nothing off: the tree
/// is the same however many levels more are allowed.
pub proof fn lemma_tree_is_complete(rows: Seq<Category>, upload_url: Seq<char>, more: nat)
    requires
        distinct_category_ids(rows),
    ensures
        forest_of(rows, upload_url) == nodes_of(
            rows,
            upload_url,
            rows.filter(opens_tree(rows)),
            rows.len() + more,
        ),
    decreases more,
{
    let tops = rows.filter(opens_tree(rows));
    if more > 0 {
        lemma_tree_is_complete(rows, upload_url, (more - 1) as nat);
        lemma_filter_keeps(rows, opens_tree(rows));
        let depth = (rows.len() + more - 1) as nat;
        assert forall|t: int| 0 <= t < tops.len() implies node_of(rows, upload_url, tops[t], depth)
            == node_of(rows, upload_url, tops[t], depth + 1) by {
            assert(opens_tree(rows)(tops[t]));
            assert(rows.contains(tops[t]));
            let j = choose|j: int| 0 <= j < rows.len() && rows[j] == tops[t];
            let chain = seq![j];
            assert(is_descent(rows, chain));
            lemma_node_is_complete(rows, upload_url, chain, depth);
        }
        assert(nodes_of(rows, upload_url, tops, depth) =~= nodes_of(
            rows,
            upload_url,
            tops,
            depth + 1,
        ));
    }
}

} // verus!
