//! Lists of pixel positions that hold every position once, in a fixed order.

use vstd::prelude::*;

verus! {

/// The rank of a position in one of two orders: by rows (`y` first, then
/// `x`) or by columns (`x` first, then `y`).
pub open spec fn position_key(p: (u32, u32), by_rows: bool) -> int {
    if by_rows {
        p.1 * 0x1_0000_0000 + p.0
    } else {
        p.0 * 0x1_0000_0000 + p.1
    }
}

/// Whether a list holds its positions in strictly ascending order; such a
/// list holds no position twice.
pub open spec fn ascending(s: Seq<(u32, u32)>, by_rows: bool) -> bool {
    forall|i: int, j: int|
        0 <= i < j < s.len() ==> position_key(#[trigger] s[i], by_rows) < position_key(
            #[trigger] s[j],
            by_rows,
        )
}

/// Whether a list holds exactly the positions of a set.
pub open spec fn lists(s: Seq<(u32, u32)>, positions: Set<(u32, u32)>) -> bool {
    forall|p: (u32, u32)|
        #![trigger s.contains(p)]
        #![trigger positions.contains(p)]
        s.contains(p) <==> positions.contains(p)
}

/// The ascending list of the positions of a finite set.
pub open spec fn sorted_positions(positions: Set<(u32, u32)>, by_rows: bool) -> Seq<(u32, u32)> {
    choose|s: Seq<(u32, u32)>| ascending(s, by_rows) && lists(s, positions)
}

/// Two ascending lists that hold the same positions are the same list.
pub proof fn lemma_ascending_unique(a: Seq<(u32, u32)>, b: Seq<(u32, u32)>, by_rows: bool)
    requires
        ascending(a, by_rows),
        ascending(b, by_rows),
        forall|p: (u32, u32)| a.contains(p) <==> b.contains(p),
    ensures
        a == b,
    decreases a.len(),
{
    if a.len() == 0 {
        if b.len() > 0 {
            assert(b.contains(b[0]));
            assert(a.contains(b[0]));
        }
        assert(a =~= b);
    } else {
        assert(a.contains(a.last()));
        assert(b.contains(a.last()));
        let x = a.last();
        let y = b.last();
        assert(b.contains(y));
        assert(a.contains(y));
        let i = choose|i: int| 0 <= i < a.len() && a[i] == y;
        let j = choose|j: int| 0 <= j < b.len() && b[j] == x;
        assert(position_key(y, by_rows) <= position_key(x, by_rows));
        assert(position_key(x, by_rows) <= position_key(y, by_rows));
        assert(x == y);
        let a0 = a.drop_last();
        let b0 = b.drop_last();
        assert forall|p: (u32, u32)| a0.contains(p) <==> b0.contains(p) by {
            if a0.contains(p) {
                let k = choose|k: int| 0 <= k < a0.len() && a0[k] == p;
                assert(a[k] == p);
                assert(a.contains(p));
                assert(b.contains(p));
                let m = choose|m: int| 0 <= m < b.len() && b[m] == p;
                assert(position_key(p, by_rows) < position_key(x, by_rows));
                assert(m != b.len() - 1);
                assert(b0[m] == p);
            }
            if b0.contains(p) {
                let k = choose|k: int| 0 <= k < b0.len() && b0[k] == p;
                assert(b[k] == p);
                assert(b.contains(p));
                assert(a.contains(p));
                let m = choose|m: int| 0 <= m < a.len() && a[m] == p;
                assert(position_key(p, by_rows) < position_key(y, by_rows));
                assert(m != a.len() - 1);
                assert(a0[m] == p);
            }
        }
        assert(ascending(a0, by_rows)) by {
            assert forall|i: int, j: int| 0 <= i < j < a0.len() implies position_key(
                #[trigger] a0[i],
                by_rows,
            ) < position_key(#[trigger] a0[j], by_rows) by {
                assert(a0[i] == a[i] && a0[j] == a[j]);
            }
        }
        assert(ascending(b0, by_rows)) by {
            assert forall|i: int, j: int| 0 <= i < j < b0.len() implies position_key(
                #[trigger] b0[i],
                by_rows,
            ) < position_key(#[trigger] b0[j], by_rows) by {
                assert(b0[i] == b[i] && b0[j] == b[j]);
            }
        }
        lemma_ascending_unique(a0, b0, by_rows);
        assert(a =~= a0.push(x));
        assert(b =~= b0.push(y));
    }
}

/// An ascending list that holds exactly the positions of a set is the
/// sorted list of that set.
pub proof fn lemma_sorted_positions(s: Seq<(u32, u32)>, positions: Set<(u32, u32)>, by_rows: bool)
    requires
        ascending(s, by_rows),
        lists(s, positions),
    ensures
        sorted_positions(positions, by_rows) == s,
        ascending(sorted_positions(positions, by_rows), by_rows),
        lists(sorted_positions(positions, by_rows), positions),
{
    let chosen = sorted_positions(positions, by_rows);
    assert(ascending(chosen, by_rows) && lists(chosen, positions));
    lemma_ascending_unique(chosen, s, by_rows);
}

/// No position stands twice in an ascending list.
pub proof fn lemma_ascending_distinct(s: Seq<(u32, u32)>, by_rows: bool)
    requires
        ascending(s, by_rows),
    ensures
        s.no_duplicates(),
{
    assert forall|i: int, j: int| 0 <= i < s.len() && 0 <= j < s.len() && i != j implies s[i]
        != s[j] by {
        if i < j {
            assert(position_key(s[i], by_rows) < position_key(s[j], by_rows));
        } else {
            assert(position_key(s[j], by_rows) < position_key(s[i], by_rows));
        }
    }
}

/// The position of a given rank.
pub open spec fn position_of_key(key: int, by_rows: bool) -> (u32, u32) {
    if by_rows {
        ((key % 0x1_0000_0000) as u32, (key / 0x1_0000_0000) as u32)
    } else {
        ((key / 0x1_0000_0000) as u32, (key % 0x1_0000_0000) as u32)
    }
}

/// The positions of a set whose rank is below a bound, in ascending order.
pub open spec fn listed_below(positions: Set<(u32, u32)>, bound: nat, by_rows: bool) -> Seq<
    (u32, u32),
>
    decreases bound,
{
    if bound == 0 {
        Seq::empty()
    } else {
        let rest = listed_below(positions, (bound - 1) as nat, by_rows);
        let p = position_of_key(bound - 1, by_rows);
        if positions.contains(p) {
            rest.push(p)
        } else {
            rest
        }
    }
}

/// The positions listed below a bound are in ascending order and are
/// exactly those of the set whose rank is below the bound.
pub proof fn lemma_listed_below(positions: Set<(u32, u32)>, bound: nat, by_rows: bool)
    requires
        bound <= 0x1_0000_0000_0000_0000,
    ensures
        ascending(listed_below(positions, bound, by_rows), by_rows),
        forall|p: (u32, u32)|
            #![trigger listed_below(positions, bound, by_rows).contains(p)]
            listed_below(positions, bound, by_rows).contains(p) <==> (positions.contains(p)
                && position_key(p, by_rows) < bound),
    decreases bound,
{
    let list = listed_below(positions, bound, by_rows);
    if bound > 0 {
        let rest = listed_below(positions, (bound - 1) as nat, by_rows);
        let last = position_of_key(bound - 1, by_rows);
        lemma_listed_below(positions, (bound - 1) as nat, by_rows);
        assert(position_key(last, by_rows) == bound - 1);
        assert forall|p: (u32, u32)|
            #![trigger list.contains(p)]
            list.contains(p) <==> (positions.contains(p) && position_key(p, by_rows)
                < bound) by {
            assert(rest.contains(p) <==> (positions.contains(p) && position_key(p, by_rows) < bound
                - 1));
            if list.contains(p) {
                let k = choose|k: int| 0 <= k < list.len() && list[k] == p;
                if k < rest.len() {
                    assert(rest[k] == p);
                    assert(rest.contains(p));
                }
            }
            if rest.contains(p) {
                let k = choose|k: int| 0 <= k < rest.len() && rest[k] == p;
                assert(list[k] == p);
            }
            if positions.contains(p) && position_key(p, by_rows) == bound - 1 {
                assert(p == last);
                assert(list[rest.len() as int] == p);
            }
        }
        assert forall|i: int, j: int| 0 <= i < j < list.len() implies position_key(
            #[trigger] list[i],
            by_rows,
        ) < position_key(#[trigger] list[j], by_rows) by {
            if j < rest.len() {
                assert(list[i] == rest[i] && list[j] == rest[j]);
            } else {
                assert(list[i] == rest[i]);
                assert(rest.contains(rest[i]));
            }
        }
    }
}

/// Every set of positions has its sorted list: ascending, and holding
/// exactly the positions of the set.
pub proof fn lemma_sorted_positions_exist(positions: Set<(u32, u32)>, by_rows: bool)
    ensures
        ascending(sorted_positions(positions, by_rows), by_rows),
        lists(sorted_positions(positions, by_rows), positions),
        sorted_positions(positions, by_rows).no_duplicates(),
{
    let all = listed_below(positions, 0x1_0000_0000_0000_0000, by_rows);
    lemma_listed_below(positions, 0x1_0000_0000_0000_0000, by_rows);
    assert(lists(all, positions)) by {
        assert forall|p: (u32, u32)|
            #![trigger all.contains(p)]
            #![trigger positions.contains(p)]
            all.contains(p) <==> positions.contains(p) by {
            assert(position_key(p, by_rows) < 0x1_0000_0000_0000_0000);
            assert(all.contains(p) <==> (positions.contains(p) && position_key(p, by_rows)
                < 0x1_0000_0000_0000_0000));
        }
    }
    lemma_sorted_positions(all, positions, by_rows);
    lemma_ascending_distinct(all, by_rows);
}

/// Whether `a` comes before `b` by columns.
fn comes_before(a: (u32, u32), b: (u32, u32)) -> (before: bool)
    ensures
        before == (position_key(a, false) < position_key(b, false)),
{
    a.0 < b.0 || (a.0 == b.0 && a.1 < b.1)
}

/// Puts a position into a list that is ascending by columns, at its place,
/// unless the list holds it already.
pub fn insert_position(positions: &mut Vec<(u32, u32)>, p: (u32, u32))
    requires
        ascending(old(positions)@, false),
    ensures
        ascending(final(positions)@, false),
        forall|q: (u32, u32)|
            #![trigger final(positions)@.contains(q)]
            #![trigger old(positions)@.contains(q)]
            final(positions)@.contains(q) <==> (old(positions)@.contains(q) || q == p),
{
    let mut i: usize = 0;
    while i < positions.len() && comes_before(positions[i], p)
        invariant
            i <= positions.len(),
            *positions == *old(positions),
            forall|k: int|
                0 <= k < i ==> position_key(#[trigger] positions@[k], false) < position_key(
                    p,
                    false,
                ),
        decreases positions.len() - i,
    {
        i += 1;
    }
    if i < positions.len() && positions[i].0 == p.0 && positions[i].1 == p.1 {
        proof {
            assert(positions@[i as int] == p);
            assert(positions@.contains(p));
        }
        return ;
    }
    let ghost before = positions@;
    positions.insert(i, p);
    proof {
        let after = positions@;
        assert(after == before.insert(i as int, p));
        assert(i < before.len() ==> position_key(p, false) < position_key(
            before[i as int],
            false,
        ));
        assert forall|a: int, b: int| 0 <= a < b < after.len() implies position_key(
            #[trigger] after[a],
            false,
        ) < position_key(#[trigger] after[b], false) by {
            let sa = if a < i {
                a
            } else {
                a - 1
            };
            let sb = if b < i {
                b
            } else {
                b - 1
            };
            if a != i && b != i {
                assert(after[a] == before[sa]);
                assert(after[b] == before[sb]);
                assert(sa < sb);
            } else if a == i {
                assert(after[b] == before[sb]);
                if sb > i {
                    assert(position_key(before[i as int], false) < position_key(
                        before[sb],
                        false,
                    ));
                }
            } else {
                assert(after[a] == before[sa]);
            }
        }
        assert forall|q: (u32, u32)| after.contains(q) <==> (before.contains(q) || q == p) by {
            if after.contains(q) {
                let k = choose|k: int| 0 <= k < after.len() && after[k] == q;
                if k < i {
                    assert(before[k] == q);
                } else if k > i {
                    assert(before[k - 1] == q);
                }
            }
            if before.contains(q) {
                let k = choose|k: int| 0 <= k < before.len() && before[k] == q;
                if k < i {
                    assert(after[k] == q);
                } else {
                    assert(after[k + 1] == q);
                }
            }
            if q == p {
                assert(after[i as int] == q);
            }
        }
    }
}

} // verus!
