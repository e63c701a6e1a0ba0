//! Run-length clues for one line of the board.
//!
//! A clue sequence lists the lengths of the maximal blocks of filled cells
//! along a row or column, in scan order. [`line_runs`] is the mathematical
//! definition; [`compute_line_runs`] is the executable scan proved against
//! it.

use vstd::prelude::*;

verus! {

/// Run lengths of the maximal blocks of `true` in `line`, in scan order.
///
/// An all-`false` line has no runs; an all-`true` line has the single run
/// `[line.len()]`.
pub open spec fn line_runs(line: Seq<bool>) -> Seq<int>
    decreases line.len(),
{
    if line.len() == 0 {
        Seq::empty()
    } else {
        let rest = line_runs(line.drop_last());
        if !line.last() {
            rest
        } else if line.len() == 1 || !line[line.len() - 2] {
            rest.push(1)
        } else {
            rest.update(rest.len() - 1, rest.last() + 1)
        }
    }
}

/// Number of `true` entries in `line`.
pub open spec fn count_true(line: Seq<bool>) -> int
    decreases line.len(),
{
    if line.len() == 0 {
        0
    } else {
        count_true(line.drop_last()) + if line.last() {
            1int
        } else {
            0int
        }
    }
}

/// Sum of the entries of `s`.
pub open spec fn seq_sum(s: Seq<int>) -> int
    decreases s.len(),
{
    if s.len() == 0 {
        0
    } else {
        seq_sum(s.drop_last()) + s.last()
    }
}

/// The run lengths of a `Vec<usize>` clue entry, as mathematical integers.
pub open spec fn clue_view(v: Seq<usize>) -> Seq<int> {
    v.map_values(|u: usize| u as int)
}

/// A line that ends in a filled cell ends inside some run, so its clue
/// sequence is non-empty and closes with that run.
pub proof fn lemma_line_runs_last_pos(line: Seq<bool>)
    requires
        line.len() > 0,
        line.last(),
    ensures
        line_runs(line).len() > 0,
        line_runs(line).last() >= 1,
    decreases line.len(),
{
    let rest = line_runs(line.drop_last());
    if line.len() == 1 || !line[line.len() - 2] {
        assert(line_runs(line) == rest.push(1));
    } else {
        lemma_line_runs_last_pos(line.drop_last());
    }
}

/// Every clue entry is at least 1: an empty run is never emitted.
pub proof fn lemma_line_runs_positive(line: Seq<bool>)
    ensures
        forall|i: int| 0 <= i < line_runs(line).len() ==> #[trigger] line_runs(line)[i] >= 1,
    decreases line.len(),
{
    if line.len() > 0 {
        lemma_line_runs_positive(line.drop_last());
        let rest = line_runs(line.drop_last());
        if !line.last() {
        } else if line.len() == 1 || !line[line.len() - 2] {
            assert(line_runs(line) == rest.push(1));
        } else {
            lemma_line_runs_last_pos(line.drop_last());
            assert(line_runs(line) == rest.update(rest.len() - 1, rest.last() + 1));
        }
    }
}

/// Replacing the last entry of a non-empty sequence changes its sum by the
/// difference of the entries.
proof fn lemma_seq_sum_update_last(s: Seq<int>, v: int)
    requires
        s.len() > 0,
    ensures
        seq_sum(s.update(s.len() - 1, v)) == seq_sum(s) - s.last() + v,
{
    let t = s.update(s.len() - 1, v);
    assert(t.drop_last() =~= s.drop_last());
    assert(t.last() == v);
}

/// The clue entries of a line add up to the number of its filled cells.
pub proof fn lemma_line_runs_sum(line: Seq<bool>)
    ensures
        seq_sum(line_runs(line)) == count_true(line),
    decreases line.len(),
{
    if line.len() > 0 {
        lemma_line_runs_sum(line.drop_last());
        let rest = line_runs(line.drop_last());
        if !line.last() {
        } else if line.len() == 1 || !line[line.len() - 2] {
            let r = rest.push(1);
            assert(r.drop_last() =~= rest);
            assert(seq_sum(r) == seq_sum(rest) + 1);
        } else {
            lemma_line_runs_last_pos(line.drop_last());
            lemma_seq_sum_update_last(rest, rest.last() + 1);
        }
    }
}

/// Start position of each maximal block of `true` in `line`, in scan
/// order: the companion of [`line_runs`].
pub open spec fn line_run_starts(line: Seq<bool>) -> Seq<int>
    decreases line.len(),
{
    if line.len() == 0 {
        Seq::empty()
    } else {
        let rest = line_run_starts(line.drop_last());
        if !line.last() {
            rest
        } else if line.len() == 1 || !line[line.len() - 2] {
            rest.push(line.len() - 1)
        } else {
            rest
        }
    }
}

/// Run `i` of the layout `(runs, starts)` covers position `j`.
pub open spec fn covers(runs: Seq<int>, starts: Seq<int>, i: int, j: int) -> bool {
    starts[i] <= j < starts[i] + runs[i]
}

/// `runs` laid out at `starts` reproduces `line`: the runs sit in scan
/// order within the line, each at least one cell long, consecutive runs
/// separated by at least one empty cell, and a cell is `true` exactly when
/// some run covers it.
pub open spec fn runs_cover(line: Seq<bool>, runs: Seq<int>, starts: Seq<int>) -> bool {
    &&& starts.len() == runs.len()
    &&& (forall|i: int| 0 <= i < runs.len() ==> 1 <= #[trigger] runs[i])
    &&& (forall|i: int|
        0 <= i < runs.len() ==> 0 <= #[trigger] starts[i] && starts[i] + runs[i] <= line.len())
    &&& (forall|i: int| 0 <= i < runs.len() - 1 ==> #[trigger] starts[i] + runs[i] < starts[i + 1])
    &&& (forall|j: int|
        0 <= j < line.len() ==> (line[j] <==> exists|i: int|
            0 <= i < runs.len() && #[trigger] covers(runs, starts, i, j)))
}

/// The clue entries, concatenated in order with at least one empty cell
/// between consecutive entries and padded with empty cells elsewhere,
/// reproduce the line's filled pattern: [`line_runs`] laid out at
/// [`line_run_starts`] covers exactly the `true` cells of the line.
pub proof fn lemma_runs_describe_line(line: Seq<bool>)
    ensures
        runs_cover(line, line_runs(line), line_run_starts(line)),
    decreases line.len(),
{
    if line.len() == 0 {
    } else {
        let d = line.drop_last();
        lemma_runs_describe_line(d);
        let r = line_runs(d);
        let s = line_run_starts(d);
        let n = d.len() as int;
        if !line.last() {
            assert(line_runs(line) == r);
            assert(line_run_starts(line) == s);
            assert forall|j: int| 0 <= j < line.len() implies (line[j] <==> exists|i: int|
                0 <= i < r.len() && #[trigger] covers(r, s, i, j)) by {
                if j < n {
                    assert(line[j] == d[j]);
                } else {
                    assert(!line[j]);
                    if exists|i: int| 0 <= i < r.len() && #[trigger] covers(r, s, i, j) {
                        let i = choose|i: int| 0 <= i < r.len() && #[trigger] covers(r, s, i, j);
                        assert(s[i] + r[i] <= n);
                        assert(false);
                    }
                }
            }
        } else if line.len() == 1 || !line[line.len() - 2] {
            let r1 = r.push(1);
            let s1 = s.push(n);
            assert(line_runs(line) == r1);
            assert(line_run_starts(line) == s1);
            // The previous run, if any, ends strictly before the new cell:
            // the cell before it is empty.
            if r.len() > 0 {
                let k = r.len() - 1;
                assert(!d[n - 1]);
                if s[k] + r[k] == n {
                    assert(covers(r, s, k, n - 1));
                    assert(d[n - 1]);
                    assert(false);
                }
                assert(s1[k] + r1[k] < s1[k + 1]);
            }
            assert forall|j: int| 0 <= j < line.len() implies (line[j] <==> exists|i: int|
                0 <= i < r1.len() && #[trigger] covers(r1, s1, i, j)) by {
                if j == n {
                    assert(line[j]);
                    assert(covers(r1, s1, r.len() as int, j));
                } else {
                    assert(line[j] == d[j]);
                    if exists|i: int| 0 <= i < r1.len() && #[trigger] covers(r1, s1, i, j) {
                        let i = choose|i: int| 0 <= i < r1.len() && #[trigger] covers(r1, s1, i, j);
                        assert(i < r.len());
                        assert(covers(r, s, i, j));
                    }
                    if exists|i: int| 0 <= i < r.len() && #[trigger] covers(r, s, i, j) {
                        let i = choose|i: int| 0 <= i < r.len() && #[trigger] covers(r, s, i, j);
                        assert(covers(r1, s1, i, j));
                    }
                }
            }
        } else {
            lemma_line_runs_last_pos(d);
            lemma_line_runs_positive(d);
            let k = r.len() - 1;
            let r1 = r.update(k, r[k] + 1);
            assert(line_runs(line) == r1);
            assert(line_run_starts(line) == s);
            // The last cell of the shorter line is covered, and only its
            // last run can cover it, ending exactly at the line's end.
            assert(d[n - 1]);
            let i0 = choose|i: int| 0 <= i < r.len() && #[trigger] covers(r, s, i, n - 1);
            assert(covers(r, s, i0, n - 1));
            if i0 < k {
                assert(s[i0] + r[i0] < s[i0 + 1]);
                assert(s[i0 + 1] + r[i0 + 1] <= n);
                assert(1 <= r[i0 + 1]);
                assert(false);
            }
            assert(s[k] + r[k] == n);
            assert forall|i: int| 0 <= i < r1.len() implies 1 <= #[trigger] r1[i] by {
                assert(1 <= r[i]);
            }
            assert forall|i: int| 0 <= i < r1.len() implies 0 <= #[trigger] s[i] && s[i] + r1[i]
                <= line.len() by {
                assert(0 <= s[i] && s[i] + r[i] <= n);
            }
            assert forall|i: int| 0 <= i < r1.len() - 1 implies #[trigger] s[i] + r1[i] < s[i
                + 1] by {
                assert(s[i] + r[i] < s[i + 1]);
            }
            assert forall|j: int| 0 <= j < line.len() implies (line[j] <==> exists|i: int|
                0 <= i < r1.len() && #[trigger] covers(r1, s, i, j)) by {
                if j == n {
                    assert(line[j]);
                    assert(covers(r1, s, k, j));
                } else {
                    assert(line[j] == d[j]);
                    if exists|i: int| 0 <= i < r1.len() && #[trigger] covers(r1, s, i, j) {
                        let i = choose|i: int| 0 <= i < r1.len() && #[trigger] covers(r1, s, i, j);
                        if i < k {
                            assert(covers(r, s, i, j));
                        } else {
                            assert(s[k] <= j < s[k] + r[k] + 1);
                            assert(j < n);
                            assert(covers(r, s, k, j));
                        }
                    }
                    if exists|i: int| 0 <= i < r.len() && #[trigger] covers(r, s, i, j) {
                        let i = choose|i: int| 0 <= i < r.len() && #[trigger] covers(r, s, i, j);
                        if i < k {
                            assert(covers(r1, s, i, j));
                        } else {
                            assert(covers(r1, s, k, j));
                        }
                    }
                }
            }
        }
    }
}

/// Clue entries for one line: the lengths of the maximal runs of `true`,
/// in scan order.
pub fn compute_line_runs(line: &Vec<bool>) -> (runs: Vec<usize>)
    ensures
        clue_view(runs@) == line_runs(line@),
{
    let n = line.len();
    let mut runs: Vec<usize> = Vec::new();
    let mut current: usize = 0;
    let mut i: usize = 0;
    while i < n
        invariant
            i <= n,
            n == line@.len(),
            current <= i,
            (current > 0) <==> (i > 0 && line@[i - 1]),
            current > 0 ==> clue_view(runs@).push(current as int) == line_runs(line@.take(i as int)),
            current == 0 ==> clue_view(runs@) == line_runs(line@.take(i as int)),
        decreases n - i,
    {
        let ghost prefix = line@.take(i as int);
        let ghost prefix1 = line@.take(i + 1);
        proof {
            assert(prefix1.drop_last() =~= prefix);
            assert(prefix1.last() == line@[i as int]);
        }
        if line[i] {
            proof {
                if current > 0 {
                    assert(prefix1[prefix1.len() - 2] == line@[i - 1]);
                    let rest = line_runs(prefix);
                    assert(line_runs(prefix1) == rest.update(rest.len() - 1, rest.last() + 1));
                    assert(rest == clue_view(runs@).push(current as int));
                    assert(rest.len() == runs@.len() + 1);
                    assert(rest.last() == current as int);
                    assert(rest.update(rest.len() - 1, current + 1) =~= clue_view(runs@).push(
                        (current + 1) as int,
                    ));
                } else {
                    if i > 0 {
                        assert(prefix1[prefix1.len() - 2] == line@[i - 1]);
                    }
                    assert(line_runs(prefix1) == line_runs(prefix).push(1));
                }
            }
            current = current + 1;
        } else {
            proof {
                assert(line_runs(prefix1) == line_runs(prefix));
            }
            if current > 0 {
                let ghost old_runs = runs@;
                runs.push(current);
                proof {
                    assert(clue_view(runs@) =~= clue_view(old_runs).push(current as int));
                }
                current = 0;
            }
        }
        i = i + 1;
    }
    proof {
        assert(line@.take(n as int) =~= line@);
    }
    if current > 0 {
        let ghost old_runs = runs@;
        runs.push(current);
        proof {
            assert(clue_view(runs@) =~= clue_view(old_runs).push(current as int));
        }
    }
    runs
}

} // verus!
