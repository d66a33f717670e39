//! Leaderboards: users with their values, the highest value first.

use vstd::prelude::*;

verus! {

/// The order of a leaderboard: the higher value comes first, and of two equal
/// values the one of the smaller user id.
pub open spec fn ranks_before(a: (i32, u64), b: (i32, u64)) -> bool {
    a.1 > b.1 || (a.1 == b.1 && a.0 < b.0)
}

/// Every entry of `board` ranks before all that follow it.
pub open spec fn is_ranked(board: Seq<(i32, u64)>) -> bool {
    forall|i: int, j: int| 0 <= i < j < board.len() ==> ranks_before(board[i], board[j])
}

/// `board` lists exactly the users that `values` gives a value above zero,
/// each with its value, in leaderboard order.
pub open spec fn is_ranking(board: Seq<(i32, u64)>, values: Map<i32, u64>) -> bool {
    &&& is_ranked(board)
    &&& forall|i: int|
        0 <= i < board.len() ==> {
            &&& values.contains_key((#[trigger] board[i]).0)
            &&& values[board[i].0] == board[i].1
            &&& board[i].1 > 0
        }
    &&& forall|user: i32| #[trigger]
        values.contains_key(user) && values[user] > 0 ==> board.contains((user, values[user]))
}

/// The leaderboard of `values`, where there is one.
pub open spec fn ranking_of(values: Map<i32, u64>) -> Seq<(i32, u64)> {
    choose|board: Seq<(i32, u64)>| is_ranking(board, values)
}

/// Two ranked sequences with the same entries are the same sequence.
pub proof fn lemma_ranked_unique(a: Seq<(i32, u64)>, b: Seq<(i32, u64)>)
    requires
        is_ranked(a),
        is_ranked(b),
        forall|e: (i32, u64)| a.contains(e) <==> b.contains(e),
    ensures
        a == b,
    decreases a.len(),
{
    if a.len() == 0 {
        if b.len() > 0 {
            assert(b.contains(b[0]));
            assert(a.contains(b[0]));
        }
        assert(a =~= b);
    } else {
        assert(a.contains(a[0]));
        assert(b.contains(a[0]));
        let j = choose|j: int| 0 <= j < b.len() && b[j] == a[0];
        assert(b.contains(b[0]));
        assert(a.contains(b[0]));
        let i = choose|i: int| 0 <= i < a.len() && a[i] == b[0];
        if j > 0 {
            assert(ranks_before(b[0], b[j]));
            if i > 0 {
                assert(ranks_before(a[0], a[i]));
            }
            assert(false);
        }
        let a1 = a.drop_first();
        let b1 = b.drop_first();
        assert(is_ranked(a1)) by {
            assert forall|x: int, y: int| 0 <= x < y < a1.len() implies ranks_before(
                a1[x],
                a1[y],
            ) by {
                assert(ranks_before(a[x + 1], a[y + 1]));
            }
        }
        assert(is_ranked(b1)) by {
            assert forall|x: int, y: int| 0 <= x < y < b1.len() implies ranks_before(
                b1[x],
                b1[y],
            ) by {
                assert(ranks_before(b[x + 1], b[y + 1]));
            }
        }
        assert forall|e: (i32, u64)| a1.contains(e) <==> b1.contains(e) by {
            if a1.contains(e) {
                let k = choose|k: int| 0 <= k < a1.len() && a1[k] == e;
                assert(a[k + 1] == e);
                assert(ranks_before(a[0], a[k + 1]));
                assert(a.contains(e));
                assert(b.contains(e));
                let m = choose|m: int| 0 <= m < b.len() && b[m] == e;
                assert(m > 0);
                assert(b1[m - 1] == e);
            }
            if b1.contains(e) {
                let k = choose|k: int| 0 <= k < b1.len() && b1[k] == e;
                assert(b[k + 1] == e);
                assert(ranks_before(b[0], b[k + 1]));
                assert(b.contains(e));
                assert(a.contains(e));
                let m = choose|m: int| 0 <= m < a.len() && a[m] == e;
                assert(m > 0);
                assert(a1[m - 1] == e);
            }
        }
        lemma_ranked_unique(a1, b1);
        assert(a =~= seq![a[0]] + a1);
        assert(b =~= seq![b[0]] + b1);
    }
}

/// A map has at most one leaderboard.
pub proof fn lemma_ranking_unique(a: Seq<(i32, u64)>, b: Seq<(i32, u64)>, values: Map<i32, u64>)
    requires
        is_ranking(a, values),
        is_ranking(b, values),
    ensures
        a == b,
{
    assert forall|e: (i32, u64)| a.contains(e) <==> b.contains(e) by {
        if a.contains(e) {
            let i = choose|i: int| 0 <= i < a.len() && a[i] == e;
            assert(values.contains_key(a[i].0));
            assert(b.contains((e.0, values[e.0])));
        }
        if b.contains(e) {
            let i = choose|i: int| 0 <= i < b.len() && b[i] == e;
            assert(values.contains_key(b[i].0));
            assert(a.contains((e.0, values[e.0])));
        }
    }
    lemma_ranked_unique(a, b);
}

/// A leaderboard of `values` is the one that `ranking_of` names.
pub proof fn lemma_ranking_of(board: Seq<(i32, u64)>, values: Map<i32, u64>)
    requires
        is_ranking(board, values),
    ensures
        ranking_of(values) == board,
{
    lemma_ranking_unique(ranking_of(values), board, values);
}

/// No entry of a leaderboard has the value zero, and the values never rise
/// from one entry to the next.
pub proof fn lemma_ranking_descends(board: Seq<(i32, u64)>, values: Map<i32, u64>)
    requires
        is_ranking(board, values),
    ensures
        forall|i: int| 0 <= i < board.len() ==> (#[trigger] board[i]).1 > 0,
        forall|i: int, j: int| 0 <= i < j < board.len() ==> board[i].1 >= board[j].1,
        forall|i: int, j: int| 0 <= i < j < board.len() ==> board[i].0 != board[j].0,
{
    assert forall|i: int, j: int| 0 <= i < j < board.len() implies board[i].1 >= board[j].1
        && board[i].0 != board[j].0 by {
        assert(ranks_before(board[i], board[j]));
        assert(values[board[i].0] == board[i].1);
        assert(values[board[j].0] == board[j].1);
    }
}

/// Where all the listed values differ, each entry's value is strictly above the next one's.
pub proof fn lemma_ranking_strict(board: Seq<(i32, u64)>, values: Map<i32, u64>)
    requires
        is_ranking(board, values),
        forall|i: int, j: int| 0 <= i < j < board.len() ==> board[i].1 != board[j].1,
    ensures
        forall|i: int, j: int| 0 <= i < j < board.len() ==> board[i].1 > board[j].1,
{
    assert forall|i: int, j: int| 0 <= i < j < board.len() implies board[i].1 > board[j].1 by {
        assert(ranks_before(board[i], board[j]));
    }
}

/// The sum of the values of a leaderboard.
pub open spec fn board_total(board: Seq<(i32, u64)>) -> nat
    decreases board.len(),
{
    if board.len() == 0 {
        0
    } else {
        board_total(board.drop_last()) + board.last().1 as nat
    }
}

/// Whether `a` ranks before `b`.
pub fn precedes(a: (i32, u64), b: (i32, u64)) -> (before: bool)
    ensures
        before == ranks_before(a, b),
{
    a.1 > b.1 || (a.1 == b.1 && a.0 < b.0)
}

/// Puts `entry` into the ranked `board` at its place in the order.
pub fn insert_ranked(board: &mut Vec<(i32, u64)>, entry: (i32, u64))
    requires
        is_ranked(old(board)@),
        forall|i: int| 0 <= i < old(board)@.len() ==> (#[trigger] old(board)@[i]).0 != entry.0,
    ensures
        is_ranked(final(board)@),
        exists|k: int|
            0 <= k <= old(board)@.len() && final(board)@ == #[trigger] old(board)@.insert(k, entry),
        forall|e: (i32, u64)|
            final(board)@.contains(e) <==> (old(board)@.contains(e) || e == entry),
{
    let mut k: usize = 0;
    while k < board.len() && precedes(board[k], entry)
        invariant
            k <= board.len(),
            board@ == old(board)@,
            forall|i: int| 0 <= i < k ==> ranks_before(#[trigger] board@[i], entry),
        decreases board.len() - k,
    {
        k = k + 1;
    }
    let ghost before = board@;
    board.insert(k, entry);
    proof {
        let after = board@;
        assert(after == before.insert(k as int, entry));
        assert forall|i: int, j: int| 0 <= i < j < after.len() implies ranks_before(
            after[i],
            after[j],
        ) by {
            if j < k {
                assert(ranks_before(before[i], before[j]));
            } else if j == k {
                assert(ranks_before(before[i], entry));
            } else if i < k {
                assert(ranks_before(before[i], before[j - 1]));
            } else if i == k {
                assert(!ranks_before(before[k as int], entry));
                assert(before[k as int].0 != entry.0);
                if j - 1 > k {
                    assert(ranks_before(before[k as int], before[j - 1]));
                }
            } else {
                assert(ranks_before(before[i - 1], before[j - 1]));
            }
        }
        assert forall|e: (i32, u64)| after.contains(e) <==> (before.contains(e) || e
            == entry) by {
            if after.contains(e) {
                let i = choose|i: int| 0 <= i < after.len() && after[i] == e;
                if i < k {
                    assert(before[i] == e);
                } else if i > k {
                    assert(before[i - 1] == e);
                }
            }
            if before.contains(e) {
                let i = choose|i: int| 0 <= i < before.len() && before[i] == e;
                if i < k {
                    assert(after[i] == e);
                } else {
                    assert(after[i + 1] == e);
                }
            }
            if e == entry {
                assert(after[k as int] == e);
            }
        }
    }
}

} // verus!
