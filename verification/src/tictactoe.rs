//! The rules of tic-tac-toe on a 3 by 3 board.
//!
//! A player's marks are the (row, column) pairs of the squares the player
//! has played. There are eight lines on the board: three rows (lines 0 to
//! 2), three columns (lines 3 to 5), the diagonal (line 6) and the
//! anti-diagonal (line 7). A player wins when one line counts three of the
//! player's marks.
use vstd::prelude::*;

verus! {

/// A square of the board: (row, column).
pub type Square = (i32, i32);

/// Every mark lies on the board.
pub open spec fn on_board(marks: Seq<Square>) -> bool {
    forall|i: int| 0 <= i < marks.len() ==> 0 <= #[trigger] marks[i].0 <= 2 && 0 <= marks[i].1 <= 2
}

/// Whether square `m` lies on line `k`.
pub open spec fn on_line(k: int, m: Square) -> bool {
    if k < 3 {
        m.0 == k
    } else if k < 6 {
        m.1 == k - 3
    } else if k == 6 {
        m.0 == m.1
    } else {
        m.0 + m.1 == 2
    }
}

/// Line `k` as a predicate on squares.
pub open spec fn line(k: int) -> spec_fn(Square) -> bool {
    |m: Square| on_line(k, m)
}

/// How many of the marks lie on line `k`.
pub open spec fn line_count(marks: Seq<Square>, k: int) -> nat {
    marks.filter(line(k)).len()
}

/// Some line counts exactly three of the marks.
pub open spec fn has_line_of_three(marks: Seq<Square>) -> bool {
    exists|k: int| 0 <= k < 8 && #[trigger] line_count(marks, k) == 3
}

/// The three squares of line `k`, for `0 <= k < 8`.
pub open spec fn line_square(k: int, j: int) -> Square {
    if k < 3 {
        (k as i32, j as i32)
    } else if k < 6 {
        (j as i32, (k - 3) as i32)
    } else if k == 6 {
        (j as i32, j as i32)
    } else {
        (j as i32, (2 - j) as i32)
    }
}

/// The marks cover all three squares of line `k`.
pub open spec fn covers_line(marks: Seq<Square>, k: int) -> bool {
    forall|j: int| 0 <= j < 3 ==> marks.contains(#[trigger] line_square(k, j))
}

/// Whether every mark lies on the board.
pub fn marks_on_board(marks: &Vec<Square>) -> (r: bool)
    ensures
        r == on_board(marks@),
{
    let mut i: usize = 0;
    while i < marks.len()
        invariant
            i <= marks@.len(),
            forall|j: int| 0 <= j < i ==> 0 <= #[trigger] marks@[j].0 <= 2 && 0 <= marks@[j].1 <= 2,
        decreases marks@.len() - i,
    {
        let (row, col) = marks[i];
        if row < 0 || row > 2 || col < 0 || col > 2 {
            return false;
        }
        i = i + 1;
    }
    true
}

/// Whether the marks have three on one line: one pass over the marks that
/// counts, for each row, each column and each diagonal, the marks on it.
pub fn has_winning_line(marks: &Vec<Square>) -> (r: bool)
    requires
        on_board(marks@),
    ensures
        r == has_line_of_three(marks@),
{
    let mut rows: Vec<usize> = vec![0, 0, 0];
    let mut columns: Vec<usize> = vec![0, 0, 0];
    let mut diagonal: usize = 0;
    let mut anti_diagonal: usize = 0;
    let mut i: usize = 0;
    while i < marks.len()
        invariant
            i <= marks.len(),
            on_board(marks@),
            rows@.len() == 3,
            columns@.len() == 3,
            forall|k: int| 0 <= k < 3 ==> #[trigger] rows@[k] == line_count(marks@.take(i as int), k),
            forall|k: int| 0 <= k < 3 ==> #[trigger] columns@[k] == line_count(marks@.take(i as int), k + 3),
            diagonal == line_count(marks@.take(i as int), 6),
            anti_diagonal == line_count(marks@.take(i as int), 7),
        decreases marks.len() - i,
    {
        let (row, col) = marks[i];
        let ghost before = marks@.take(i as int);
        proof {
            assert(marks@.take(i + 1) =~= before.push(marks@[i as int]));
            assert forall|k: int| 0 <= k < 8 implies #[trigger] line_count(marks@.take(i + 1), k)
                == line_count(before, k) + if on_line(k, marks@[i as int]) { 1int } else { 0int } by {
                before.lemma_filter_push(marks@[i as int], line(k));
            }
            assert forall|k: int| 0 <= k < 8 implies #[trigger] line_count(before, k) <= i by {
                before.lemma_filter_len(line(k));
            }
            assert(line_count(before, 0) <= i && line_count(before, 3) <= i);
            assert(line_count(before, 6) <= i && line_count(before, 7) <= i);
        }
        let ru = row as usize;
        let cu = col as usize;
        assert(line_count(before, ru as int) <= i);
        assert(line_count(before, cu + 3) <= i);
        let rv = rows[ru];
        rows.set(ru, rv + 1);
        let cv = columns[cu];
        columns.set(cu, cv + 1);
        if col == row {
            diagonal = diagonal + 1;
        }
        if col + row == 2 {
            anti_diagonal = anti_diagonal + 1;
        }
        i = i + 1;
        proof {
            assert forall|k: int| 0 <= k < 3 implies #[trigger] rows@[k] == line_count(marks@.take(i as int), k) by {
                assert(line_count(marks@.take(i as int), k) == line_count(before, k) + if on_line(k, marks@[i - 1]) { 1int } else { 0int });
            }
            assert forall|k: int| 0 <= k < 3 implies #[trigger] columns@[k] == line_count(marks@.take(i as int), k + 3) by {
                assert(line_count(marks@.take(i as int), k + 3) == line_count(before, k + 3) + if on_line(k + 3, marks@[i - 1]) { 1int } else { 0int });
            }
            assert(line_count(marks@.take(i as int), 6) == line_count(before, 6) + if on_line(6, marks@[i - 1]) { 1int } else { 0int });
            assert(line_count(marks@.take(i as int), 7) == line_count(before, 7) + if on_line(7, marks@[i - 1]) { 1int } else { 0int });
        }
    }
    assert(marks@.take(marks.len() as int) =~= marks@);
    let r = rows[0] == 3 || rows[1] == 3 || rows[2] == 3 || columns[0] == 3 || columns[1] == 3
        || columns[2] == 3 || diagonal == 3 || anti_diagonal == 3;
    proof {
        if r {
            if rows@[0] == 3 { assert(line_count(marks@, 0) == 3); }
            else if rows@[1] == 3 { assert(line_count(marks@, 1) == 3); }
            else if rows@[2] == 3 { assert(line_count(marks@, 2) == 3); }
            else if columns@[0] == 3 { assert(line_count(marks@, 3) == 3); }
            else if columns@[1] == 3 { assert(line_count(marks@, 4) == 3); }
            else if columns@[2] == 3 { assert(line_count(marks@, 5) == 3); }
            else if diagonal == 3 { assert(line_count(marks@, 6) == 3); }
            else { assert(line_count(marks@, 7) == 3); }
        } else {
            assert forall|k: int| 0 <= k < 8 implies #[trigger] line_count(marks@, k) != 3 by {
                if k < 3 { assert(rows@[k] == line_count(marks@, k)); }
                else if k < 6 { assert(columns@[k - 3] == line_count(marks@, (k - 3) + 3)); }
            }
        }
    }
    r
}

/// Filtering keeps a sequence free of duplicates.
proof fn lemma_filter_no_duplicates<A>(s: Seq<A>, p: spec_fn(A) -> bool)
    requires
        s.no_duplicates(),
    ensures
        s.filter(p).no_duplicates(),
    decreases s.len(),
{
    reveal(Seq::filter);
    if s.len() > 0 {
        let rest = s.drop_last();
        assert(rest.no_duplicates());
        lemma_filter_no_duplicates(rest, p);
        if p(s.last()) {
            assert forall|i: int| 0 <= i < rest.filter(p).len() implies rest.filter(p)[i] != s.last() by {
                rest.lemma_filter_contains_rev(p, rest.filter(p)[i]);
            }
        }
    }
}

/// The three squares of line `k`, as a set.
pub open spec fn line_squares(k: int) -> Set<Square> {
    set![line_square(k, 0), line_square(k, 1), line_square(k, 2)]
}

/// A square on the board lies on line `k` exactly when it is one of the line's squares.
proof fn lemma_on_line_squares(k: int, m: Square)
    requires
        0 <= k < 8,
        0 <= m.0 <= 2,
        0 <= m.1 <= 2,
    ensures
        on_line(k, m) <==> line_squares(k).contains(m),
{
    if k < 3 {
        if on_line(k, m) {
            assert(m == line_square(k, m.1 as int));
        }
    } else if k < 6 {
        if on_line(k, m) {
            assert(m == line_square(k, m.0 as int));
        }
    } else if k == 6 {
        if on_line(k, m) {
            assert(m == line_square(k, m.0 as int));
        }
    } else {
        if on_line(k, m) {
            assert(m == line_square(k, m.0 as int));
        }
    }
}

/// On a board where no square is marked twice, line `k` counts three marks
/// exactly when the marks cover its three squares.
proof fn lemma_line_count_three(marks: Seq<Square>, k: int)
    requires
        on_board(marks),
        marks.no_duplicates(),
        0 <= k < 8,
    ensures
        line_count(marks, k) == 3 <==> covers_line(marks, k),
{
    broadcast use vstd::set::group_set_axioms;
    let f = marks.filter(line(k));
    let ff = f.to_set();
    let t = line_squares(k);
    lemma_filter_no_duplicates(marks, line(k));
    f.unique_seq_to_set();
    assert(t.len() == 3) by {
        let a = line_square(k, 0);
        let b = line_square(k, 1);
        let c = line_square(k, 2);
        assert(a != b && a != c && b != c);
        assert(set![a].len() == 1);
        assert(!set![a].contains(b));
        assert(set![a, b].len() == 2);
        assert(!set![a, b].contains(c));
    }
    assert(ff.subset_of(t)) by {
        assert forall|m: Square| ff.contains(m) implies t.contains(m) by {
            let i = choose|i: int| 0 <= i < f.len() && f[i] == m;
            marks.lemma_filter_pred(line(k), i);
            marks.lemma_filter_contains_rev(line(k), m);
            let j = choose|j: int| 0 <= j < marks.len() && marks[j] == m;
            assert(0 <= marks[j].0 <= 2 && 0 <= marks[j].1 <= 2);
            lemma_on_line_squares(k, m);
        }
    }
    vstd::set_lib::lemma_len_subset(ff, t);
    if covers_line(marks, k) {
        assert(t.subset_of(ff)) by {
            assert forall|m: Square| t.contains(m) implies ff.contains(m) by {
                let j: int = if m == line_square(k, 0) { 0 } else if m == line_square(k, 1) { 1 } else { 2 };
                assert(marks.contains(line_square(k, j)));
                let i = choose|i: int| 0 <= i < marks.len() && marks[i] == m;
                marks.lemma_filter_contains(line(k), i);
            }
        }
        assert(ff =~= t);
    }
    if line_count(marks, k) == 3 {
        vstd::set_lib::lemma_subset_equality(ff, t);
        assert forall|j: int| 0 <= j < 3 implies marks.contains(#[trigger] line_square(k, j)) by {
            assert(t.contains(line_square(k, j)));
            assert(ff.contains(line_square(k, j)));
            marks.lemma_filter_contains_rev(line(k), line_square(k, j));
        }
    }
}

/// The winning rule: when no square is marked twice, a player's marks
/// count three on some line exactly when they cover some whole line
/// (a row, a column or a diagonal).
pub proof fn lemma_win_is_a_full_line(marks: Seq<Square>)
    requires
        on_board(marks),
        marks.no_duplicates(),
    ensures
        has_line_of_three(marks) <==> exists|k: int| 0 <= k < 8 && #[trigger] covers_line(marks, k),
{
    if has_line_of_three(marks) {
        let k = choose|k: int| 0 <= k < 8 && #[trigger] line_count(marks, k) == 3;
        lemma_line_count_three(marks, k);
    }
    if exists|k: int| 0 <= k < 8 && #[trigger] covers_line(marks, k) {
        let k = choose|k: int| 0 <= k < 8 && #[trigger] covers_line(marks, k);
        lemma_line_count_three(marks, k);
    }
}

} // verus!
