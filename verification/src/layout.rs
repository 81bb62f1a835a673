use vstd::prelude::*;

use crate::puyo_chara::PuyoType;

verus! {

/// The characters with Unicode's `White_Space` property, which `char::is_whitespace`
/// and `str::trim` go by.
pub open spec fn spec_is_whitespace(c: char) -> bool {
    let u = c as u32;
    ||| 0x09 <= u <= 0x0d
    ||| u == 0x20
    ||| u == 0x85
    ||| u == 0xa0
    ||| u == 0x1680
    ||| 0x2000 <= u <= 0x200a
    ||| u == 0x2028
    ||| u == 0x2029
    ||| u == 0x202f
    ||| u == 0x205f
    ||| u == 0x3000
}

/// Whether `c` has Unicode's `White_Space` property.
pub fn is_whitespace(c: char) -> (r: bool)
    ensures
        r == spec_is_whitespace(c),
{
    let u = c as u32;
    (0x09 <= u && u <= 0x0d) || u == 0x20 || u == 0x85 || u == 0xa0 || u == 0x1680 || (0x2000 <= u
        && u <= 0x200a) || u == 0x2028 || u == 0x2029 || u == 0x202f || u == 0x205f || u == 0x3000
}

/// The lines of `s`: the pieces between its `'\n'` characters.
pub open spec fn split_lines(s: Seq<char>) -> Seq<Seq<char>>
    decreases s.len(),
{
    if s.len() == 0 {
        seq![Seq::empty()]
    } else {
        let prev = split_lines(s.drop_last());
        if s.last() == '\n' {
            prev.push(Seq::empty())
        } else {
            prev.update(prev.len() - 1, prev.last().push(s.last()))
        }
    }
}

/// `l` without its leading white space.
pub open spec fn trim_start(l: Seq<char>) -> Seq<char>
    decreases l.len(),
{
    if l.len() > 0 && spec_is_whitespace(l[0]) {
        trim_start(l.drop_first())
    } else {
        l
    }
}

/// `l` without its trailing white space.
pub open spec fn trim_end(l: Seq<char>) -> Seq<char>
    decreases l.len(),
{
    if l.len() > 0 && spec_is_whitespace(l.last()) {
        trim_end(l.drop_last())
    } else {
        l
    }
}

/// `l` without leading and trailing white space, as `str::trim` gives it.
pub open spec fn trim(l: Seq<char>) -> Seq<char> {
    trim_end(trim_start(l))
}

/// The trimmed lines of `lines` that are not blank, in order.
pub open spec fn board_rows(lines: Seq<Seq<char>>) -> Seq<Seq<char>>
    decreases lines.len(),
{
    if lines.len() == 0 {
        Seq::empty()
    } else {
        let prev = board_rows(lines.drop_last());
        let t = trim(lines.last());
        if t.len() == 0 {
            prev
        } else {
            prev.push(t)
        }
    }
}

/// The rows of a written board: its first twelve lines that are not blank,
/// trimmed, the top row first.
pub open spec fn layout_rows(s: Seq<char>) -> Seq<Seq<char>> {
    let r = board_rows(split_lines(s));
    if r.len() > 12 {
        r.take(12)
    } else {
        r
    }
}

/// The kind a character of a written board stands for; other characters,
/// among them `' '` and `'_'`, leave the cell empty.
pub open spec fn spec_kind_of_char(c: char) -> Option<PuyoType> {
    if c == 'O' || c == 'o' || c == '0' {
        Some(PuyoType::Nuisance)
    } else if c == 'R' || c == 'r' {
        Some(PuyoType::Red)
    } else if c == 'G' || c == 'g' {
        Some(PuyoType::Green)
    } else if c == 'B' || c == 'b' {
        Some(PuyoType::Blue)
    } else if c == 'Y' || c == 'y' {
        Some(PuyoType::Yellow)
    } else if c == 'P' || c == 'p' {
        Some(PuyoType::Purple)
    } else {
        None
    }
}

/// The puyos that the first `n` characters of `row` place on row `y`.
pub open spec fn row_cells(row: Seq<char>, y: int, n: nat) -> Seq<(PuyoType, (usize, usize))>
    decreases n,
{
    if n == 0 {
        Seq::empty()
    } else {
        row_cells(row, y, (n - 1) as nat) + match spec_kind_of_char(row[n - 1]) {
            Some(k) => seq![(k, ((n - 1) as usize, y as usize))],
            None => Seq::empty(),
        }
    }
}

/// How many characters of a row count: at most six.
pub open spec fn row_width(row: Seq<char>) -> nat {
    if row.len() < 6 {
        row.len()
    } else {
        6
    }
}

/// The puyos of the first `m` rows of `rows`, the top row first; the last row
/// is row `0`.
pub open spec fn layout_upto(rows: Seq<Seq<char>>, m: nat) -> Seq<(PuyoType, (usize, usize))>
    decreases m,
{
    if m == 0 {
        Seq::empty()
    } else {
        layout_upto(rows, (m - 1) as nat) + row_cells(
            rows[m - 1],
            rows.len() - m,
            row_width(rows[m - 1]),
        )
    }
}

/// The puyos a written board places, with their cells (column, row).
pub open spec fn spec_layout(s: Seq<char>) -> Seq<(PuyoType, (usize, usize))> {
    layout_upto(layout_rows(s), layout_rows(s).len())
}

proof fn lemma_row_cells_bounds(row: Seq<char>, y: int, n: nat)
    requires
        n <= 6,
        0 <= y < 12,
    ensures
        forall|i: int|
            0 <= i < row_cells(row, y, n).len() ==> {
                let e = #[trigger] row_cells(row, y, n)[i];
                &&& e.1.0 < n
                &&& e.1.1 == y
                &&& !crate::puyo_chara::spec_is_nuisance(e.0) || e.0 == PuyoType::Nuisance
            },
    decreases n,
{
    if n > 0 {
        lemma_row_cells_bounds(row, y, (n - 1) as nat);
        let prev = row_cells(row, y, (n - 1) as nat);
        let tail = match spec_kind_of_char(row[n - 1]) {
            Some(k) => seq![(k, ((n - 1) as usize, y as usize))],
            None => Seq::<(PuyoType, (usize, usize))>::empty(),
        };
        assert forall|i: int| 0 <= i < (prev + tail).len() implies {
            let e = #[trigger] (prev + tail)[i];
            &&& e.1.0 < n
            &&& e.1.1 == y
            &&& !crate::puyo_chara::spec_is_nuisance(e.0) || e.0 == PuyoType::Nuisance
        } by {
            if i < prev.len() {
                assert((prev + tail)[i] == prev[i]);
            } else {
                assert((prev + tail)[i] == tail[i - prev.len()]);
            }
        }
        assert(row_cells(row, y, n) == prev + tail);
    }
}

proof fn lemma_layout_upto_bounds(rows: Seq<Seq<char>>, m: nat)
    requires
        m <= rows.len() <= 12,
    ensures
        forall|i: int|
            0 <= i < layout_upto(rows, m).len() ==> {
                let e = #[trigger] layout_upto(rows, m)[i];
                &&& e.1.0 < 6
                &&& e.1.1 < 12
                &&& !crate::puyo_chara::spec_is_nuisance(e.0) || e.0 == PuyoType::Nuisance
            },
    decreases m,
{
    if m > 0 {
        lemma_layout_upto_bounds(rows, (m - 1) as nat);
        let prev = layout_upto(rows, (m - 1) as nat);
        let cells = row_cells(rows[m - 1], rows.len() - m, row_width(rows[m - 1]));
        lemma_row_cells_bounds(rows[m - 1], rows.len() - m, row_width(rows[m - 1]));
        assert forall|i: int| 0 <= i < (prev + cells).len() implies {
            let e = #[trigger] (prev + cells)[i];
            &&& e.1.0 < 6
            &&& e.1.1 < 12
            &&& !crate::puyo_chara::spec_is_nuisance(e.0) || e.0 == PuyoType::Nuisance
        } by {
            if i < prev.len() {
                assert((prev + cells)[i] == prev[i]);
            } else {
                assert((prev + cells)[i] == cells[i - prev.len()]);
            }
        }
        assert(layout_upto(rows, m) == prev + cells);
    }
}

/// A written board places its puyos on a board six columns wide and twelve
/// rows high, and never places a quarter of a big nuisance puyo.
pub proof fn lemma_layout_fits_board(s: Seq<char>)
    ensures
        forall|i: int|
            0 <= i < spec_layout(s).len() ==> {
                let e = #[trigger] spec_layout(s)[i];
                &&& e.1.0 < 6
                &&& e.1.1 < 12
                &&& !crate::puyo_chara::spec_is_nuisance(e.0) || e.0 == PuyoType::Nuisance
            },
{
    lemma_layout_upto_bounds(layout_rows(s), layout_rows(s).len());
}

proof fn lemma_row_cells_increasing(row: Seq<char>, y: int, n: nat)
    requires
        n <= 6,
        0 <= y < 12,
    ensures
        forall|i: int, j: int|
            0 <= i < j < row_cells(row, y, n).len() ==> (#[trigger] row_cells(row, y, n)[i]).1.0
                < (#[trigger] row_cells(row, y, n)[j]).1.0,
    decreases n,
{
    if n > 0 {
        lemma_row_cells_increasing(row, y, (n - 1) as nat);
        lemma_row_cells_bounds(row, y, (n - 1) as nat);
        let prev = row_cells(row, y, (n - 1) as nat);
        let tail = match spec_kind_of_char(row[n - 1]) {
            Some(k) => seq![(k, ((n - 1) as usize, y as usize))],
            None => Seq::<(PuyoType, (usize, usize))>::empty(),
        };
        let all = prev + tail;
        assert(row_cells(row, y, n) == all);
        assert forall|i: int, j: int| 0 <= i < j < all.len() implies (#[trigger] all[i]).1.0 < (
        #[trigger] all[j]).1.0 by {
            assert(all[i] == prev[i]);
            if j < prev.len() {
                assert(all[j] == prev[j]);
            } else {
                assert(all[j] == tail[j - prev.len()]);
                assert(prev[i].1.0 < n - 1);
            }
        }
    }
}

proof fn lemma_layout_upto_distinct(rows: Seq<Seq<char>>, m: nat)
    requires
        m <= rows.len() <= 12,
    ensures
        forall|i: int, j: int|
            0 <= i < j < layout_upto(rows, m).len() ==> (#[trigger] layout_upto(rows, m)[i]).1 != (
            #[trigger] layout_upto(rows, m)[j]).1,
        forall|i: int|
            0 <= i < layout_upto(rows, m).len() ==> (#[trigger] layout_upto(rows, m)[i]).1.1
                >= rows.len() - m,
    decreases m,
{
    if m > 0 {
        lemma_layout_upto_distinct(rows, (m - 1) as nat);
        let prev = layout_upto(rows, (m - 1) as nat);
        let y = rows.len() - m;
        let cells = row_cells(rows[m - 1], y, row_width(rows[m - 1]));
        lemma_row_cells_bounds(rows[m - 1], y, row_width(rows[m - 1]));
        lemma_row_cells_increasing(rows[m - 1], y, row_width(rows[m - 1]));
        let all = prev + cells;
        assert(layout_upto(rows, m) == all);
        assert forall|i: int| 0 <= i < all.len() implies (#[trigger] all[i]).1.1 >= rows.len() - m by {
            if i < prev.len() {
                assert(all[i] == prev[i]);
            } else {
                assert(all[i] == cells[i - prev.len()]);
            }
        }
        assert forall|i: int, j: int| 0 <= i < j < all.len() implies (#[trigger] all[i]).1 != (
        #[trigger] all[j]).1 by {
            if j < prev.len() {
                assert(all[i] == prev[i] && all[j] == prev[j]);
            } else if i >= prev.len() {
                assert(all[i] == cells[i - prev.len()] && all[j] == cells[j - prev.len()]);
            } else {
                assert(all[i] == prev[i] && all[j] == cells[j - prev.len()]);
                assert(prev[i].1.1 >= rows.len() - m + 1);
            }
        }
    }
}

/// A written board never places two puyos on one cell.
pub proof fn lemma_layout_cells_distinct(s: Seq<char>)
    ensures
        forall|i: int, j: int|
            0 <= i < j < spec_layout(s).len() ==> (#[trigger] spec_layout(s)[i]).1 != (
            #[trigger] spec_layout(s)[j]).1,
{
    lemma_layout_upto_distinct(layout_rows(s), layout_rows(s).len());
}

/// The characters of a written board: `O`, `o` and `0` stand for a nuisance
/// puyo; `R`, `G`, `B`, `Y` and `P`, in either case, for a red, green, blue,
/// yellow and purple puyo; every other character for an empty cell.
pub proof fn lemma_char_table(c: char)
    ensures
        spec_kind_of_char(c) == Some(PuyoType::Nuisance) <==> (c == 'O' || c == 'o' || c == '0'),
        spec_kind_of_char(c) == Some(PuyoType::Red) <==> (c == 'R' || c == 'r'),
        spec_kind_of_char(c) == Some(PuyoType::Green) <==> (c == 'G' || c == 'g'),
        spec_kind_of_char(c) == Some(PuyoType::Blue) <==> (c == 'B' || c == 'b'),
        spec_kind_of_char(c) == Some(PuyoType::Yellow) <==> (c == 'Y' || c == 'y'),
        spec_kind_of_char(c) == Some(PuyoType::Purple) <==> (c == 'P' || c == 'p'),
        spec_kind_of_char(c) is None <==> !(c == 'O' || c == 'o' || c == '0' || c == 'R' || c == 'r'
            || c == 'G' || c == 'g' || c == 'B' || c == 'b' || c == 'Y' || c == 'y' || c == 'P'
            || c == 'p'),
{
}

/// The kind letters read the same in either case.
pub proof fn lemma_kind_letters_ignore_case()
    ensures
        spec_kind_of_char('O') == spec_kind_of_char('o'),
        spec_kind_of_char('R') == spec_kind_of_char('r'),
        spec_kind_of_char('G') == spec_kind_of_char('g'),
        spec_kind_of_char('B') == spec_kind_of_char('b'),
        spec_kind_of_char('Y') == spec_kind_of_char('y'),
        spec_kind_of_char('P') == spec_kind_of_char('p'),
        spec_kind_of_char('G') is Some,
        spec_kind_of_char('g') is Some,
{
}

proof fn lemma_row_cells_complete(row: Seq<char>, y: int, n: nat)
    requires
        n <= row.len(),
        n <= 6,
        0 <= y < 12,
    ensures
        forall|x: int|
            0 <= x < n && (#[trigger] spec_kind_of_char(row[x])) is Some ==> row_cells(
                row,
                y,
                n,
            ).contains((spec_kind_of_char(row[x])->0, (x as usize, y as usize))),
        forall|i: int|
            0 <= i < row_cells(row, y, n).len() ==> {
                let e = #[trigger] row_cells(row, y, n)[i];
                &&& e.1.0 < n
                &&& e.1.1 == y
                &&& spec_kind_of_char(row[e.1.0 as int]) == Some(e.0)
            },
    decreases n,
{
    if n > 0 {
        lemma_row_cells_complete(row, y, (n - 1) as nat);
        let prev = row_cells(row, y, (n - 1) as nat);
        let cur = row_cells(row, y, n);
        let x0 = n - 1;
        if let Some(k) = spec_kind_of_char(row[x0]) {
            assert(cur =~= prev.push((k, (x0 as usize, y as usize))));
        } else {
            assert(cur =~= prev);
        }
        assert forall|x: int| 0 <= x < n && (#[trigger] spec_kind_of_char(row[x])) is Some implies cur.contains(
            (spec_kind_of_char(row[x])->0, (x as usize, y as usize)),
        ) by {
            let e = (spec_kind_of_char(row[x])->0, (x as usize, y as usize));
            if x < x0 {
                assert(prev.contains(e));
                let i = choose|i: int| 0 <= i < prev.len() && prev[i] == e;
                assert(cur[i] == e);
            } else {
                assert(cur[prev.len() as int] == e);
            }
        }
        assert forall|i: int| 0 <= i < cur.len() implies {
            let e = #[trigger] cur[i];
            &&& e.1.0 < n
            &&& e.1.1 == y
            &&& spec_kind_of_char(row[e.1.0 as int]) == Some(e.0)
        } by {
            if i < prev.len() {
                assert(cur[i] == prev[i]);
            }
        }
    }
}

proof fn lemma_layout_upto_complete(rows: Seq<Seq<char>>, m: nat)
    requires
        m <= rows.len() <= 12,
    ensures
        forall|r: int, x: int|
            0 <= r < m && 0 <= x < row_width(rows[r]) && (#[trigger] spec_kind_of_char(rows[r][x])) is Some
                ==> layout_upto(rows, m).contains(
                (spec_kind_of_char(rows[r][x])->0, (x as usize, (rows.len() - 1 - r) as usize)),
            ),
        forall|i: int|
            0 <= i < layout_upto(rows, m).len() ==> {
                let e = #[trigger] layout_upto(rows, m)[i];
                let r = rows.len() - 1 - e.1.1;
                &&& rows.len() - m <= e.1.1 < rows.len()
                &&& e.1.0 < row_width(rows[r])
                &&& spec_kind_of_char(rows[r][e.1.0 as int]) == Some(e.0)
            },
    decreases m,
{
    if m > 0 {
        lemma_layout_upto_complete(rows, (m - 1) as nat);
        let r0 = m - 1;
        let y = rows.len() - m;
        lemma_row_cells_complete(rows[r0], y, row_width(rows[r0]));
        let prev = layout_upto(rows, (m - 1) as nat);
        let cells = row_cells(rows[r0], y, row_width(rows[r0]));
        let cur = layout_upto(rows, m);
        assert(cur == prev + cells);
        assert forall|r: int, x: int|
            0 <= r < m && 0 <= x < row_width(rows[r]) && (#[trigger] spec_kind_of_char(rows[r][x])) is Some implies cur.contains(
            (spec_kind_of_char(rows[r][x])->0, (x as usize, (rows.len() - 1 - r) as usize)),
        ) by {
            let e = (spec_kind_of_char(rows[r][x])->0, (x as usize, (rows.len() - 1 - r) as usize));
            if r < r0 {
                assert(prev.contains(e));
                let i = choose|i: int| 0 <= i < prev.len() && prev[i] == e;
                assert(cur[i] == e);
            } else {
                assert(cells.contains(e));
                let i = choose|i: int| 0 <= i < cells.len() && cells[i] == e;
                assert(cur[prev.len() + i] == e);
            }
        }
        assert forall|i: int| 0 <= i < cur.len() implies {
            let e = #[trigger] cur[i];
            let r = rows.len() - 1 - e.1.1;
            &&& rows.len() - m <= e.1.1 < rows.len()
            &&& e.1.0 < row_width(rows[r])
            &&& spec_kind_of_char(rows[r][e.1.0 as int]) == Some(e.0)
        } by {
            if i < prev.len() {
                assert(cur[i] == prev[i]);
            } else {
                assert(cur[i] == cells[i - prev.len()]);
            }
        }
    }
}

/// Reading a written board places, on each cell of its first six columns and
/// twelve rows, exactly the puyo its character stands for: every character
/// that stands for a kind places that kind on its cell (row `0` the last row),
/// and every puyo placed comes from such a character.
pub proof fn lemma_layout_places_every_kind(s: Seq<char>)
    ensures
        forall|r: int, x: int|
            0 <= r < layout_rows(s).len() && 0 <= x < row_width(layout_rows(s)[r]) && (
            #[trigger] spec_kind_of_char(layout_rows(s)[r][x])) is Some ==> spec_layout(s).contains(
                (
                    spec_kind_of_char(layout_rows(s)[r][x])->0,
                    (x as usize, (layout_rows(s).len() - 1 - r) as usize),
                ),
            ),
        forall|i: int|
            0 <= i < spec_layout(s).len() ==> {
                let e = #[trigger] spec_layout(s)[i];
                let r = layout_rows(s).len() - 1 - e.1.1;
                &&& e.1.1 < layout_rows(s).len()
                &&& e.1.0 < row_width(layout_rows(s)[r])
                &&& spec_kind_of_char(layout_rows(s)[r][e.1.0 as int]) == Some(e.0)
            },
{
    lemma_layout_upto_complete(layout_rows(s), layout_rows(s).len());
}

/// The kind a character of a written board stands for.
pub fn kind_of_char(c: char) -> (r: Option<PuyoType>)
    ensures
        r == spec_kind_of_char(c),
{
    match c {
        'O' | 'o' | '0' => Some(PuyoType::Nuisance),
        'R' | 'r' => Some(PuyoType::Red),
        'G' | 'g' => Some(PuyoType::Green),
        'B' | 'b' => Some(PuyoType::Blue),
        'Y' | 'y' => Some(PuyoType::Yellow),
        'P' | 'p' => Some(PuyoType::Purple),
        _ => None,
    }
}

proof fn lemma_trim_start(l: Seq<char>, a: int)
    requires
        0 <= a <= l.len(),
        forall|k: int| 0 <= k < a ==> spec_is_whitespace(#[trigger] l[k]),
        a == l.len() || !spec_is_whitespace(l[a]),
    ensures
        trim_start(l) == l.skip(a),
    decreases a,
{
    if a == 0 {
        assert(l.skip(0) =~= l);
    } else {
        assert(spec_is_whitespace(l[0]));
        let d = l.drop_first();
        assert forall|k: int| 0 <= k < a - 1 implies spec_is_whitespace(#[trigger] d[k]) by {
            assert(d[k] == l[k + 1]);
        }
        if a < l.len() {
            assert(d[a - 1] == l[a]);
        }
        lemma_trim_start(d, a - 1);
        assert(d.skip(a - 1) =~= l.skip(a));
    }
}

proof fn lemma_trim_end(m: Seq<char>, b: int)
    requires
        0 <= b <= m.len(),
        forall|k: int| b <= k < m.len() ==> spec_is_whitespace(#[trigger] m[k]),
        b == 0 || !spec_is_whitespace(m[b - 1]),
    ensures
        trim_end(m) == m.take(b),
    decreases m.len() - b,
{
    if b == m.len() {
        assert(m.take(b) =~= m);
    } else {
        assert(spec_is_whitespace(m.last()));
        let d = m.drop_last();
        assert forall|k: int| b <= k < d.len() implies spec_is_whitespace(#[trigger] d[k]) by {
            assert(d[k] == m[k]);
        }
        if b > 0 {
            assert(d[b - 1] == m[b - 1]);
        }
        lemma_trim_end(d, b);
        assert(d.take(b) =~= m.take(b));
    }
}

/// The trimmed text of `line`.
fn trimmed(line: &Vec<char>) -> (r: Vec<char>)
    ensures
        r@ == trim(line@),
{
    let n = line.len();
    let mut a: usize = 0;
    while a < n && is_whitespace(line[a])
        invariant
            n == line@.len(),
            a <= n,
            forall|k: int| 0 <= k < a ==> spec_is_whitespace(#[trigger] line@[k]),
        decreases n - a,
    {
        a = a + 1;
    }
    let mut b: usize = n;
    while b > a && is_whitespace(line[b - 1])
        invariant
            n == line@.len(),
            a <= b <= n,
            forall|k: int| b <= k < n ==> spec_is_whitespace(#[trigger] line@[k]),
        decreases b,
    {
        b = b - 1;
    }
    proof {
        lemma_trim_start(line@, a as int);
        let m = line@.skip(a as int);
        assert forall|k: int| (b - a) <= k < m.len() implies spec_is_whitespace(#[trigger] m[k]) by {
            assert(m[k] == line@[k + a]);
        }
        if b > a {
            assert(m[b - a - 1] == line@[b - 1]);
        }
        lemma_trim_end(m, (b - a) as int);
    }
    let mut r: Vec<char> = Vec::new();
    let mut k: usize = a;
    while k < b
        invariant
            n == line@.len(),
            a <= k <= b <= n,
            r@ == line@.subrange(a as int, k as int),
        decreases b - k,
    {
        r.push(line[k]);
        k = k + 1;
        assert(r@ =~= line@.subrange(a as int, k as int));
    }
    assert(line@.skip(a as int).take(b - a) =~= line@.subrange(a as int, b as int));
    r
}

/// The rows of the written board `contents`, one per line that is not blank,
/// trimmed, top row first (all of them, before keeping twelve).
fn board_rows_of(contents: &Vec<char>) -> (r: Vec<Vec<char>>)
    ensures
        r@.map_values(|v: Vec<char>| v@) == board_rows(split_lines(contents@)),
{
    let mut rows: Vec<Vec<char>> = Vec::new();
    let mut cur: Vec<char> = Vec::new();
    let ghost mut done: Seq<Seq<char>> = Seq::empty();
    let mut i: usize = 0;
    assert(contents@.take(0) =~= Seq::<char>::empty());
    assert(split_lines(Seq::<char>::empty()) =~= seq![Seq::<char>::empty()]);
    assert(cur@ =~= Seq::<char>::empty());
    while i < contents.len()
        invariant
            i <= contents@.len(),
            split_lines(contents@.take(i as int)) == done.push(cur@),
            rows@.map_values(|v: Vec<char>| v@) == board_rows(done),
        decreases contents@.len() - i,
    {
        let c = contents[i];
        proof {
            assert(contents@.take(i + 1).drop_last() =~= contents@.take(i as int));
            assert(contents@.take(i + 1).last() == c);
        }
        if c == '\n' {
            let t = trimmed(&cur);
            let ghost before = rows@.map_values(|v: Vec<char>| v@);
            if t.len() > 0 {
                rows.push(t);
                assert(rows@.map_values(|v: Vec<char>| v@) =~= before.push(t@));
            }
            proof {
                assert(done.push(cur@).drop_last() =~= done);
                done = done.push(cur@);
            }
            cur = Vec::new();
            proof {
                assert(split_lines(contents@.take(i + 1)) =~= done.push(cur@));
            }
        } else {
            let ghost old_cur = cur@;
            cur.push(c);
            proof {
                assert(split_lines(contents@.take(i + 1)) =~= done.push(cur@));
            }
        }
        i = i + 1;
    }
    assert(contents@.take(contents@.len() as int) =~= contents@);
    let t = trimmed(&cur);
    let ghost before = rows@.map_values(|v: Vec<char>| v@);
    proof {
        assert(done.push(cur@).drop_last() =~= done);
    }
    if t.len() > 0 {
        rows.push(t);
        assert(rows@.map_values(|v: Vec<char>| v@) =~= before.push(t@));
    }
    rows
}

/// Reads a written board: its first twelve lines that are not blank, trimmed,
/// the top one first, the last one row `0`; of each, the first six characters,
/// column `0` first. Every character that stands for a kind places a puyo of
/// that kind; other characters leave their cell empty. Returns the puyos with
/// their cells (column, row), row by row from the top.
pub fn cartes_board_layout(contents: &Vec<char>) -> (r: Vec<(PuyoType, (usize, usize))>)
    requires
        layout_rows(contents@).len() > 0,
    ensures
        r@ == spec_layout(contents@),
{
    let all = board_rows_of(contents);
    let ghost rows = layout_rows(contents@);
    let n = if all.len() > 12 {
        12
    } else {
        all.len()
    };
    proof {
        assert(rows.len() == n);
        assert forall|m: int| 0 <= m < n implies #[trigger] rows[m] == all@[m]@ by {
            assert(all@.map_values(|v: Vec<char>| v@)[m] == all@[m]@);
        }
    }
    let mut out: Vec<(PuyoType, (usize, usize))> = Vec::new();
    let mut m: usize = 0;
    while m < n
        invariant
            m <= n,
            n <= all@.len(),
            rows.len() == n,
            forall|k: int| 0 <= k < n ==> #[trigger] rows[k] == all@[k]@,
            out@ == layout_upto(rows, m as nat),
        decreases n - m,
    {
        let row = &all[m];
        let y = n - 1 - m;
        let width = if row.len() < 6 {
            row.len()
        } else {
            6
        };
        let ghost before = out@;
        let mut x: usize = 0;
        while x < width
            invariant
                m < n,
                n <= all@.len(),
                row@ == rows[m as int],
                width == row_width(rows[m as int]),
                y == n - 1 - m,
                x <= width,
                out@ == before + row_cells(rows[m as int], y as int, x as nat),
            decreases width - x,
        {
            match kind_of_char(row[x]) {
                Some(k) => {
                    out.push((k, (x, y)));
                },
                None => {},
            }
            x = x + 1;
            assert(out@ =~= before + row_cells(rows[m as int], y as int, x as nat));
        }
        m = m + 1;
        assert(out@ =~= layout_upto(rows, m as nat));
    }
    out
}

} // verus!
