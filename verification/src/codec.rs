//! The persistence format for grid snapshots: a textual row-major nested
//! sequence of booleans, one outer element per row, such as
//! `[[true,false],[false,true]]`, encoded in ASCII bytes.

use vstd::prelude::*;

use crate::grid::CellGrid;
use crate::grid::GridDimensions;
use crate::grid::grid_fits;
use crate::grid::rows_view;

verus! {

/// The opening bracket.
pub open spec fn open_byte() -> u8 {
    91
}

/// The closing bracket.
pub open spec fn close_byte() -> u8 {
    93
}

/// The element separator.
pub open spec fn comma_byte() -> u8 {
    44
}

/// The text of one cell state: `true` or `false`.
pub open spec fn bool_text(b: bool) -> Seq<u8> {
    if b {
        seq![116u8, 114u8, 117u8, 101u8]
    } else {
        seq![102u8, 97u8, 108u8, 115u8, 101u8]
    }
}

/// The comma-separated cell states of one row, without brackets.
pub open spec fn row_body(row: Seq<bool>) -> Seq<u8>
    decreases row.len(),
{
    if row.len() == 0 {
        Seq::empty()
    } else if row.len() == 1 {
        bool_text(row[0])
    } else {
        bool_text(row[0]) + seq![comma_byte()] + row_body(row.skip(1))
    }
}

/// The text of one row: its cell states in brackets.
pub open spec fn row_text(row: Seq<bool>) -> Seq<u8> {
    seq![open_byte()] + row_body(row) + seq![close_byte()]
}

/// The comma-separated row texts of a grid, without the outer brackets.
pub open spec fn grid_body(g: Seq<Seq<bool>>) -> Seq<u8>
    decreases g.len(),
{
    if g.len() == 0 {
        Seq::empty()
    } else if g.len() == 1 {
        row_text(g[0])
    } else {
        row_text(g[0]) + seq![comma_byte()] + grid_body(g.skip(1))
    }
}

/// The full serialized text of a grid: its rows in brackets.
pub open spec fn grid_text(g: Seq<Seq<bool>>) -> Seq<u8> {
    seq![open_byte()] + grid_body(g) + seq![close_byte()]
}

/// A grid abstraction that the format can restore: at least one row, all rows
/// of one equal positive length.
pub open spec fn rectangular(g: Seq<Seq<bool>>) -> bool {
    &&& g.len() >= 1
    &&& g[0].len() >= 1
    &&& forall|r: int| 0 <= r < g.len() ==> (#[trigger] g[r]).len() == g[0].len()
}

/// Appending a cell extends the row body by a separator (when the row was not
/// empty) and the cell's text.
proof fn lemma_row_body_push(row: Seq<bool>, b: bool)
    ensures
        row_body(row.push(b)) == if row.len() == 0 {
            bool_text(b)
        } else {
            row_body(row) + seq![comma_byte()] + bool_text(b)
        },
    decreases row.len(),
{
    let pushed = row.push(b);
    if row.len() == 0 {
        assert(pushed.len() == 1);
        assert(pushed[0] == b);
        assert(row_body(pushed) == bool_text(b));
    } else {
        assert(pushed.len() >= 2);
        assert(pushed[0] == row[0]);
        assert(pushed.skip(1) =~= row.skip(1).push(b));
        lemma_row_body_push(row.skip(1), b);
        assert(row_body(pushed) =~= row_body(row) + seq![comma_byte()] + bool_text(b));
    }
}

/// Appending a row extends the grid body by a separator (when the grid was
/// not empty) and the row's text.
proof fn lemma_grid_body_push(g: Seq<Seq<bool>>, row: Seq<bool>)
    ensures
        grid_body(g.push(row)) == if g.len() == 0 {
            row_text(row)
        } else {
            grid_body(g) + seq![comma_byte()] + row_text(row)
        },
    decreases g.len(),
{
    let pushed = g.push(row);
    if g.len() == 0 {
        assert(pushed.len() == 1);
        assert(pushed[0] == row);
        assert(grid_body(pushed) == row_text(row));
    } else {
        assert(pushed.len() >= 2);
        assert(pushed[0] == g[0]);
        assert(pushed.skip(1) =~~= g.skip(1).push(row));
        lemma_grid_body_push(g.skip(1), row);
        assert(grid_body(pushed) =~= grid_body(g) + seq![comma_byte()] + row_text(row));
    }
}

/// Serializes one row as its bracketed cell-state list.
fn serialize_row(row: &Vec<bool>) -> (out: Vec<u8>)
    ensures
        out@ == row_text(row@),
{
    let mut out: Vec<u8> = Vec::new();
    out.push(91);
    let mut c: usize = 0;
    while c < row.len()
        invariant
            c <= row@.len(),
            out@ == seq![open_byte()] + row_body(row@.take(c as int)),
        decreases row@.len() - c,
    {
        if c > 0 {
            out.push(44);
        }
        if row[c] {
            out.push(116);
            out.push(114);
            out.push(117);
            out.push(101);
        } else {
            out.push(102);
            out.push(97);
            out.push(108);
            out.push(115);
            out.push(101);
        }
        proof {
            lemma_row_body_push(row@.take(c as int), row@[c as int]);
            assert(row@.take(c as int).push(row@[c as int]) =~= row@.take(c as int + 1));
            assert(out@ =~= seq![open_byte()] + row_body(row@.take(c as int + 1)));
        }
        c = c + 1;
    }
    out.push(93);
    proof {
        assert(row@.take(row@.len() as int) =~= row@);
        assert(out@ =~= row_text(row@));
    }
    out
}

/// Serializes a grid as the row-major boolean text, for example
/// `[[true,false],[false,true]]`. Works for any grid shape; a grid that the
/// format can restore is a `rectangular` one.
pub fn serialize_grid(grid: &CellGrid) -> (out: Vec<u8>)
    ensures
        out@ == grid_text(grid@),
{
    let rows = grid.rows_ref();
    let mut out: Vec<u8> = Vec::new();
    out.push(91);
    let mut r: usize = 0;
    while r < rows.len()
        invariant
            r <= rows@.len(),
            out@ == seq![open_byte()] + grid_body(rows_view(rows@).take(r as int)),
        decreases rows@.len() - r,
    {
        if r > 0 {
            out.push(44);
        }
        let mut row_bytes = serialize_row(&rows[r]);
        out.append(&mut row_bytes);
        proof {
            lemma_grid_body_push(rows_view(rows@).take(r as int), rows@[r as int]@);
            assert(rows_view(rows@).take(r as int).push(rows@[r as int]@) =~~= rows_view(
                rows@,
            ).take(r as int + 1));
            assert(out@ =~= seq![open_byte()] + grid_body(rows_view(rows@).take(r as int + 1)));
        }
        r = r + 1;
    }
    out.push(93);
    proof {
        assert(rows_view(rows@).take(rows@.len() as int) =~~= rows_view(rows@));
        assert(out@ =~= grid_text(grid@));
    }
    out
}

/// A cell text determines the cell and the bytes that follow it: `true` and
/// `false` start with different bytes, so no text continues both.
#[verifier::rlimit(50)]
proof fn lemma_bool_text_unambiguous(a: bool, b: bool, x: Seq<u8>, y: Seq<u8>)
    requires
        bool_text(a) + x == bool_text(b) + y,
    ensures
        a == b,
        x == y,
{
    if a != b {
        assert(bool_text(true)[0] == 116);
        assert(bool_text(false)[0] == 102);
        assert((bool_text(a) + x)[0] == bool_text(a)[0]);
        assert((bool_text(b) + y)[0] == bool_text(b)[0]);
        assert(false);
    }
    let l = bool_text(a).len() as int;
    assert(bool_text(a).len() + x.len() == bool_text(b).len() + y.len()) by {
        assert((bool_text(a) + x).len() == bool_text(a).len() + x.len());
        assert((bool_text(b) + y).len() == bool_text(b).len() + y.len());
    }
    assert(bool_text(a) == bool_text(b));
    assert(x.len() == y.len());
    assert forall|d: int| 0 <= d < x.len() implies x[d] == y[d] by {
        assert((bool_text(a) + x)[l + d] == x[d]);
        assert((bool_text(b) + y)[l + d] == y[d]);
    }
    assert(x =~= y);
}

/// A row body followed by a closing bracket determines the row and the bytes
/// that follow: cell texts never contain a bracket, and a separator byte
/// tells whether the row continues.
proof fn lemma_row_body_unambiguous(r1: Seq<bool>, r2: Seq<bool>, x: Seq<u8>, y: Seq<u8>)
    requires
        r1.len() >= 1,
        r2.len() >= 1,
        row_body(r1) + seq![close_byte()] + x == row_body(r2) + seq![close_byte()] + y,
    ensures
        r1 == r2,
        x == y,
    decreases r1.len(),
{
    let rest1: Seq<u8> = if r1.len() > 1 {
        seq![comma_byte()] + row_body(r1.skip(1))
    } else {
        Seq::empty()
    };
    let rest2: Seq<u8> = if r2.len() > 1 {
        seq![comma_byte()] + row_body(r2.skip(1))
    } else {
        Seq::empty()
    };
    assert(row_body(r1) =~= bool_text(r1[0]) + rest1);
    assert(row_body(r2) =~= bool_text(r2[0]) + rest2);
    assert(bool_text(r1[0]) + (rest1 + seq![close_byte()] + x) =~= row_body(r1) + seq![
        close_byte(),
    ] + x);
    assert(bool_text(r2[0]) + (rest2 + seq![close_byte()] + y) =~= row_body(r2) + seq![
        close_byte(),
    ] + y);
    lemma_bool_text_unambiguous(
        r1[0],
        r2[0],
        rest1 + seq![close_byte()] + x,
        rest2 + seq![close_byte()] + y,
    );
    if r1.len() == 1 && r2.len() == 1 {
        assert(r1 =~= r2);
        assert forall|d: int| 0 <= d < x.len() implies x[d] == y[d] by {
            assert((rest1 + seq![close_byte()] + x)[1 + d] == x[d]);
            assert((rest2 + seq![close_byte()] + y)[1 + d] == y[d]);
        }
        assert(x =~= y);
    } else if r1.len() > 1 && r2.len() > 1 {
        assert(row_body(r1.skip(1)) + seq![close_byte()] + x =~= row_body(r2.skip(1)) + seq![
            close_byte(),
        ] + y) by {
            let lhs = rest1 + seq![close_byte()] + x;
            let rhs = rest2 + seq![close_byte()] + y;
            assert forall|d: int| 0 <= d < lhs.len() - 1 implies (row_body(r1.skip(1)) + seq![
                close_byte(),
            ] + x)[d] == (row_body(r2.skip(1)) + seq![close_byte()] + y)[d] by {
                assert(lhs[1 + d] == (row_body(r1.skip(1)) + seq![close_byte()] + x)[d]);
                assert(rhs[1 + d] == (row_body(r2.skip(1)) + seq![close_byte()] + y)[d]);
            }
        }
        lemma_row_body_unambiguous(r1.skip(1), r2.skip(1), x, y);
        assert(r1 =~= r2) by {
            assert(r1.skip(1) =~= r2.skip(1));
            assert forall|d: int| 0 <= d < r1.len() implies r1[d] == r2[d] by {
                if d > 0 {
                    assert(r1.skip(1)[d - 1] == r1[d]);
                    assert(r2.skip(1)[d - 1] == r2[d]);
                }
            }
        }
    } else {
        assert((rest1 + seq![close_byte()] + x)[0] == (rest2 + seq![close_byte()] + y)[0]);
        if r1.len() == 1 {
            assert((rest1 + seq![close_byte()] + x)[0] == close_byte());
            assert((rest2 + seq![close_byte()] + y)[0] == comma_byte());
        } else {
            assert((rest1 + seq![close_byte()] + x)[0] == comma_byte());
            assert((rest2 + seq![close_byte()] + y)[0] == close_byte());
        }
    }
}

/// A grid body followed by a closing bracket determines the rows and the
/// bytes that follow, for grids whose rows all hold at least one cell.
proof fn lemma_grid_body_unambiguous(g1: Seq<Seq<bool>>, g2: Seq<Seq<bool>>, x: Seq<u8>, y: Seq<u8>)
    requires
        g1.len() >= 1,
        g2.len() >= 1,
        forall|r: int| 0 <= r < g1.len() ==> (#[trigger] g1[r]).len() >= 1,
        forall|r: int| 0 <= r < g2.len() ==> (#[trigger] g2[r]).len() >= 1,
        grid_body(g1) + seq![close_byte()] + x == grid_body(g2) + seq![close_byte()] + y,
    ensures
        g1 == g2,
        x == y,
    decreases g1.len(),
{
    let rest1: Seq<u8> = if g1.len() > 1 {
        seq![comma_byte()] + grid_body(g1.skip(1))
    } else {
        Seq::empty()
    };
    let rest2: Seq<u8> = if g2.len() > 1 {
        seq![comma_byte()] + grid_body(g2.skip(1))
    } else {
        Seq::empty()
    };
    assert(grid_body(g1) =~= row_text(g1[0]) + rest1);
    assert(grid_body(g2) =~= row_text(g2[0]) + rest2);
    // Peel the opening bracket of the first row text on both sides, exposing
    // a row body followed by a closing bracket.
    let t1 = row_body(g1[0]) + seq![close_byte()] + (rest1 + seq![close_byte()] + x);
    let t2 = row_body(g2[0]) + seq![close_byte()] + (rest2 + seq![close_byte()] + y);
    assert(seq![open_byte()] + t1 =~= grid_body(g1) + seq![close_byte()] + x);
    assert(seq![open_byte()] + t2 =~= grid_body(g2) + seq![close_byte()] + y);
    assert(t1 =~= t2) by {
        assert forall|d: int| 0 <= d < t1.len() implies t1[d] == t2[d] by {
            assert((seq![open_byte()] + t1)[1 + d] == t1[d]);
            assert((seq![open_byte()] + t2)[1 + d] == t2[d]);
        }
    }
    lemma_row_body_unambiguous(
        g1[0],
        g2[0],
        rest1 + seq![close_byte()] + x,
        rest2 + seq![close_byte()] + y,
    );
    if g1.len() == 1 && g2.len() == 1 {
        assert(g1 =~~= g2);
        assert forall|d: int| 0 <= d < x.len() implies x[d] == y[d] by {
            assert((rest1 + seq![close_byte()] + x)[1 + d] == x[d]);
            assert((rest2 + seq![close_byte()] + y)[1 + d] == y[d]);
        }
        assert(x =~= y);
    } else if g1.len() > 1 && g2.len() > 1 {
        assert(grid_body(g1.skip(1)) + seq![close_byte()] + x =~= grid_body(g2.skip(1)) + seq![
            close_byte(),
        ] + y) by {
            let lhs = rest1 + seq![close_byte()] + x;
            let rhs = rest2 + seq![close_byte()] + y;
            assert forall|d: int| 0 <= d < lhs.len() - 1 implies (grid_body(g1.skip(1)) + seq![
                close_byte(),
            ] + x)[d] == (grid_body(g2.skip(1)) + seq![close_byte()] + y)[d] by {
                assert(lhs[1 + d] == (grid_body(g1.skip(1)) + seq![close_byte()] + x)[d]);
                assert(rhs[1 + d] == (grid_body(g2.skip(1)) + seq![close_byte()] + y)[d]);
            }
        }
        assert forall|r: int| 0 <= r < g1.skip(1).len() implies (#[trigger] g1.skip(1)[r]).len()
            >= 1 by {
            assert(g1.skip(1)[r] == g1[r + 1]);
        }
        assert forall|r: int| 0 <= r < g2.skip(1).len() implies (#[trigger] g2.skip(1)[r]).len()
            >= 1 by {
            assert(g2.skip(1)[r] == g2[r + 1]);
        }
        lemma_grid_body_unambiguous(g1.skip(1), g2.skip(1), x, y);
        assert(g1 =~~= g2) by {
            assert(g1.skip(1) =~~= g2.skip(1));
            assert forall|d: int| 0 <= d < g1.len() implies g1[d] == g2[d] by {
                if d > 0 {
                    assert(g1.skip(1)[d - 1] == g1[d]);
                    assert(g2.skip(1)[d - 1] == g2[d]);
                }
            }
        }
    } else {
        assert((rest1 + seq![close_byte()] + x)[0] == (rest2 + seq![close_byte()] + y)[0]);
        if g1.len() == 1 {
            assert((rest1 + seq![close_byte()] + x)[0] == close_byte());
            assert((rest2 + seq![close_byte()] + y)[0] == comma_byte());
        } else {
            assert((rest1 + seq![close_byte()] + x)[0] == comma_byte());
            assert((rest2 + seq![close_byte()] + y)[0] == close_byte());
        }
    }
}

/// The round-trip law of the format: two rectangular grids with the same
/// serialized text are the same grid, so whatever `parse_grid` restores from
/// a serialized rectangular grid is that grid, dimensions and all cells.
pub proof fn lemma_grid_text_injective(g1: Seq<Seq<bool>>, g2: Seq<Seq<bool>>)
    requires
        rectangular(g1),
        rectangular(g2),
        grid_text(g1) == grid_text(g2),
    ensures
        g1 == g2,
{
    let t1 = grid_body(g1) + seq![close_byte()] + Seq::<u8>::empty();
    let t2 = grid_body(g2) + seq![close_byte()] + Seq::<u8>::empty();
    assert(seq![open_byte()] + t1 =~= grid_text(g1));
    assert(seq![open_byte()] + t2 =~= grid_text(g2));
    assert(t1 =~= t2) by {
        assert forall|d: int| 0 <= d < t1.len() implies t1[d] == t2[d] by {
            assert((seq![open_byte()] + t1)[1 + d] == t1[d]);
            assert((seq![open_byte()] + t2)[1 + d] == t2[d]);
        }
    }
    lemma_grid_body_unambiguous(g1, g2, Seq::empty(), Seq::empty());
}

/// Reads one bracketed row starting at `start`. When the caller knows the
/// input is well formed — `expect` then carries the row that stands there and
/// the bytes that follow its text — the parse is guaranteed to succeed and to
/// return exactly that row; on any other input the result is unconstrained
/// except that a successful parse always advances.
fn parse_row(bytes: &Vec<u8>, start: usize, expect: Ghost<Option<(Seq<bool>, Seq<u8>)>>) -> (r:
    Option<(Vec<bool>, usize)>)
    requires
        start <= bytes@.len(),
        expect@ matches Some(e) ==> bytes@.skip(start as int) == row_text(e.0) + e.1 && e.0.len()
            >= 1,
    ensures
        r matches Some(p) ==> start < p.1 <= bytes@.len(),
        expect@ matches Some(e) ==> r matches Some(p) && p.0@ == e.0 && bytes@.skip(p.1 as int)
            == e.1,
{
    let ghost ok = expect@ is Some;
    let ghost row: Seq<bool> = if ok {
        expect@->Some_0.0
    } else {
        arbitrary()
    };
    let ghost tail: Seq<u8> = if ok {
        expect@->Some_0.1
    } else {
        arbitrary()
    };
    let n = bytes.len();
    if start >= n {
        proof {
            if ok {
                assert(bytes@.skip(start as int).len() == 0);
            }
        }
        return None;
    }
    if bytes[start] != 91 {
        proof {
            if ok {
                assert(bytes@.skip(start as int)[0] == bytes@[start as int]);
                assert((row_text(row) + tail)[0] == open_byte());
            }
        }
        return None;
    }
    let mut cells: Vec<bool> = Vec::new();
    let mut i: usize = start + 1;
    proof {
        if ok {
            assert(row.skip(0) =~= row);
            assert(bytes@.skip(start as int).skip(1) =~= bytes@.skip(start as int + 1));
            assert((seq![open_byte()] + row_body(row) + seq![close_byte()] + tail).skip(1)
                =~= row_body(row) + seq![close_byte()] + tail);
            assert(bytes@.skip(i as int) == row_body(row.skip(0)) + seq![close_byte()] + tail);
        }
    }
    loop
        invariant
            n == bytes@.len(),
            start < i <= n,
            ok == (expect@ is Some),
            ok ==> expect@->Some_0.0 == row && expect@->Some_0.1 == tail,
            ok ==> {
                &&& cells@.len() < row.len()
                &&& cells@ == row.take(cells@.len() as int)
                &&& bytes@.skip(i as int) == row_body(row.skip(cells@.len() as int)) + seq![
                    close_byte(),
                ] + tail
            },
        decreases n - i,
    {
        let ghost k = cells@.len() as int;
        let ghost after: Seq<u8> = (if k + 1 < row.len() {
            seq![comma_byte()] + row_body(row.skip(k + 1))
        } else {
            Seq::<u8>::empty()
        }) + seq![close_byte()] + tail;
        proof {
            if ok {
                let rs = row.skip(k);
                assert(rs[0] == row[k]);
                assert(rs.skip(1) =~= row.skip(k + 1));
                if rs.len() == 1 {
                    assert(row_body(rs) == bool_text(rs[0]));
                } else {
                    assert(row_body(rs) == bool_text(rs[0]) + seq![comma_byte()] + row_body(
                        rs.skip(1),
                    ));
                }
                assert(bytes@.skip(i as int) =~= bool_text(row[k]) + after);
                assert forall|d: int| 0 <= d < bool_text(row[k]).len() implies bytes@[i + d]
                    == bool_text(row[k])[d] by {
                    assert(bytes@.skip(i as int)[d] == bytes@[i + d]);
                }
                assert(n - i == bool_text(row[k]).len() + after.len());
                assert(after.len() >= 1);
            }
        }
        let b: bool;
        let remaining = n - i;
        if remaining > 4 && bytes[i] == 116 && bytes[i + 1] == 114 && bytes[i + 2] == 117
            && bytes[i + 3] == 101 {
            b = true;
            proof {
                if ok {
                    assert(row[k]) by {
                        if !row[k] {
                            assert(bytes@[i as int] == bool_text(row[k])[0]);
                        }
                    }
                    assert forall|d: int| 0 <= d < after.len() implies bytes@[i + 4 + d]
                        == after[d] by {
                        assert(bytes@.skip(i as int)[4 + d] == bytes@[i + (4 + d)]);
                        assert((bool_text(row[k]) + after)[4 + d] == after[d]);
                    }
                    assert(bytes@.skip(i as int + 4) =~= after);
                }
            }
            i = i + 4;
        } else if remaining > 5 && bytes[i] == 102 && bytes[i + 1] == 97 && bytes[i + 2] == 108
            && bytes[i + 3] == 115 && bytes[i + 4] == 101 {
            b = false;
            proof {
                if ok {
                    assert(!row[k]) by {
                        if row[k] {
                            assert(bytes@[i as int] == bool_text(row[k])[0]);
                        }
                    }
                    assert forall|d: int| 0 <= d < after.len() implies bytes@[i + 5 + d]
                        == after[d] by {
                        assert(bytes@.skip(i as int)[5 + d] == bytes@[i + (5 + d)]);
                        assert((bool_text(row[k]) + after)[5 + d] == after[d]);
                    }
                    assert(bytes@.skip(i as int + 5) =~= after);
                }
            }
            i = i + 5;
        } else {
            proof {
                if ok {
                    if row[k] {
                        assert(bytes@[i as int] == 116 && bytes@[i as int + 1] == 114 && bytes@[i
                            as int + 2] == 117 && bytes@[i as int + 3] == 101);
                        assert(n - i > 4);
                    } else {
                        assert(bytes@[i as int] == 102 && bytes@[i as int + 1] == 97 && bytes@[i
                            as int + 2] == 108 && bytes@[i as int + 3] == 115 && bytes@[i as int
                            + 4] == 101);
                        assert(n - i > 5);
                    }
                }
            }
            return None;
        }
        proof {
            if ok {
                assert(b == row[k]);
                assert(row.take(k).push(row[k]) =~= row.take(k + 1));
                assert(bytes@.skip(i as int) == after);
            }
        }
        cells.push(b);
        if i >= n {
            proof {
                if ok {
                    assert(bytes@.skip(i as int).len() >= 1);
                }
            }
            return None;
        }
        let sep = bytes[i];
        if sep == 44 {
            proof {
                if ok {
                    assert(bytes@.skip(i as int)[0] == 44);
                    assert(k + 1 < row.len());
                    assert(bytes@.skip(i as int).skip(1) =~= bytes@.skip(i as int + 1));
                    assert(bytes@.skip(i as int + 1) =~= row_body(row.skip(k + 1)) + seq![
                        close_byte(),
                    ] + tail);
                }
            }
            i = i + 1;
        } else if sep == 93 {
            proof {
                if ok {
                    assert(bytes@.skip(i as int)[0] == 93);
                    if k + 1 < row.len() {
                        assert(bytes@.skip(i as int)[0] == 44);
                    }
                    assert(k + 1 == row.len());
                    assert(cells@ =~= row);
                    assert(bytes@.skip(i as int) =~= seq![close_byte()] + tail);
                    assert(bytes@.skip(i as int).skip(1) =~= bytes@.skip(i as int + 1));
                    assert(bytes@.skip(i as int + 1) =~= tail);
                }
            }
            return Some((cells, i + 1));
        } else {
            proof {
                if ok {
                    assert(bytes@.skip(i as int)[0] == 44 || bytes@.skip(i as int)[0] == 93);
                }
            }
            return None;
        }
    }
}

/// Reads the bracketed row list of a serialized grid. Whenever some
/// rectangular grid serializes to exactly `bytes`, the extraction succeeds
/// and returns a buffer that serializes back to `bytes`; on any other input
/// the result carries no guarantee.
fn extract_grid(bytes: &Vec<u8>) -> (r: Option<Vec<Vec<bool>>>)
    ensures
        (exists|s: Seq<Seq<bool>>| rectangular(s) && grid_text(s) == bytes@) ==> (r matches Some(v)
            && rectangular(rows_view(v@)) && grid_text(rows_view(v@)) == bytes@),
{
    let ghost ok = exists|s: Seq<Seq<bool>>| rectangular(s) && grid_text(s) == bytes@;
    let ghost s: Seq<Seq<bool>> = if ok {
        choose|s: Seq<Seq<bool>>| rectangular(s) && grid_text(s) == bytes@
    } else {
        arbitrary()
    };
    let n = bytes.len();
    if n == 0 {
        proof {
            if ok {
                assert(bytes@.len() >= 2);
            }
        }
        return None;
    }
    if bytes[0] != 91 {
        proof {
            if ok {
                assert(bytes@[0] == (seq![open_byte()] + grid_body(s) + seq![close_byte()])[0]);
            }
        }
        return None;
    }
    let mut rows: Vec<Vec<bool>> = Vec::new();
    let mut i: usize = 1;
    proof {
        if ok {
            assert(s.skip(0) =~~= s);
            assert(rows_view(rows@) =~~= s.take(0));
            assert(bytes@.skip(1) =~= grid_body(s) + seq![close_byte()]);
        }
    }
    loop
        invariant
            n == bytes@.len(),
            0 < i <= n,
            ok == exists|t: Seq<Seq<bool>>| rectangular(t) && grid_text(t) == bytes@,
            ok ==> rectangular(s) && grid_text(s) == bytes@,
            ok ==> {
                &&& rows@.len() < s.len()
                &&& rows_view(rows@) == s.take(rows@.len() as int)
                &&& bytes@.skip(i as int) == grid_body(s.skip(rows@.len() as int)) + seq![
                    close_byte(),
                ]
            },
        decreases n - i,
    {
        let ghost k = rows@.len() as int;
        let ghost tail: Seq<u8> = (if k + 1 < s.len() {
            seq![comma_byte()] + grid_body(s.skip(k + 1))
        } else {
            Seq::<u8>::empty()
        }) + seq![close_byte()];
        let ghost expect: Option<(Seq<bool>, Seq<u8>)> = if ok {
            Some((s[k], tail))
        } else {
            None
        };
        proof {
            if ok {
                let sk = s.skip(k);
                assert(sk[0] == s[k]);
                assert(sk.skip(1) =~~= s.skip(k + 1));
                if sk.len() == 1 {
                    assert(grid_body(sk) == row_text(s[k]));
                } else {
                    assert(grid_body(sk) == row_text(s[k]) + seq![comma_byte()] + grid_body(
                        sk.skip(1),
                    ));
                }
                assert(bytes@.skip(i as int) =~= row_text(s[k]) + tail);
                assert(s[k].len() == s[0].len());
            }
        }
        match parse_row(bytes, i, Ghost(expect)) {
            None => {
                return None;
            },
            Some(parsed) => {
                let (row_vec, j) = parsed;
                proof {
                    if ok {
                        assert(rows_view(rows@.push(row_vec)) =~~= rows_view(rows@).push(
                            row_vec@,
                        ));
                        assert(s.take(k).push(s[k]) =~~= s.take(k + 1));
                    }
                }
                rows.push(row_vec);
                if j >= n {
                    proof {
                        if ok {
                            assert(bytes@.skip(j as int).len() >= 1);
                        }
                    }
                    return None;
                }
                let sep = bytes[j];
                if sep == 44 {
                    proof {
                        if ok {
                            assert(bytes@.skip(j as int)[0] == 44);
                            assert(k + 1 < s.len());
                            assert(bytes@.skip(j as int).skip(1) =~= bytes@.skip(j as int + 1));
                            assert(bytes@.skip(j as int + 1) =~= grid_body(s.skip(k + 1)) + seq![
                                close_byte(),
                            ]);
                        }
                    }
                    i = j + 1;
                } else if sep == 93 {
                    if j + 1 == n {
                        proof {
                            if ok {
                                assert(bytes@.skip(j as int)[0] == 93);
                                if k + 1 < s.len() {
                                    assert(bytes@.skip(j as int)[0] == 44);
                                }
                                assert(k + 1 == s.len());
                                assert(rows_view(rows@) =~~= s);
                            }
                        }
                        return Some(rows);
                    } else {
                        proof {
                            if ok {
                                assert(bytes@.skip(j as int)[0] == 93);
                                if k + 1 < s.len() {
                                    assert(bytes@.skip(j as int)[0] == 44);
                                }
                                assert(k + 1 == s.len());
                                assert(bytes@.skip(j as int) =~= seq![close_byte()]);
                                assert(n - j == 1);
                            }
                        }
                        return None;
                    }
                } else {
                    proof {
                        if ok {
                            assert(bytes@.skip(j as int)[0] == 44 || bytes@.skip(j as int)[0]
                                == 93);
                        }
                    }
                    return None;
                }
            },
        }
    }
}

/// Compares two byte buffers for equality of contents.
fn bytes_equal(a: &Vec<u8>, b: &Vec<u8>) -> (eq: bool)
    ensures
        eq <==> a@ == b@,
{
    if a.len() != b.len() {
        return false;
    }
    let mut i: usize = 0;
    while i < a.len()
        invariant
            i <= a@.len(),
            a@.len() == b@.len(),
            forall|k: int| 0 <= k < i ==> a@[k] == b@[k],
        decreases a@.len() - i,
    {
        if a[i] != b[i] {
            return false;
        }
        i = i + 1;
    }
    proof {
        assert(a@ =~= b@);
    }
    true
}

/// Restores a grid from its serialized text. The parse succeeds exactly on
/// the texts that `serialize_grid` produces for rectangular grids: on success
/// the returned grid serializes back to `bytes` byte for byte and the
/// dimensions are derived from it (rows from the outer length, columns from
/// the rows), and on failure no rectangular grid at all has `bytes` as its
/// text. In particular an empty grid, an empty row, or rows of unequal
/// length are rejected; malformed input never yields a partial grid.
pub fn parse_grid(bytes: &Vec<u8>) -> (r: Option<(GridDimensions, CellGrid)>)
    ensures
        match r {
            Some(p) => {
                &&& grid_fits(p.1@, p.0)
                &&& grid_text(p.1@) == bytes@
                &&& p.0.rows == p.1@.len()
            },
            None => forall|s: Seq<Seq<bool>>| rectangular(s) ==> grid_text(s) != bytes@,
        },
{
    let ghost ok = exists|s: Seq<Seq<bool>>| rectangular(s) && grid_text(s) == bytes@;
    let extracted = extract_grid(bytes);
    let rows = match extracted {
        None => {
            proof {
                assert forall|s: Seq<Seq<bool>>| rectangular(s) implies grid_text(s) != bytes@ by {
                    if grid_text(s) == bytes@ {
                        assert(ok);
                    }
                }
            }
            return None;
        },
        Some(rows) => rows,
    };
    proof {
        if ok {
            assert(rectangular(rows_view(rows@)) && grid_text(rows_view(rows@)) == bytes@);
        }
    }
    if rows.len() == 0 {
        proof {
            assert forall|s: Seq<Seq<bool>>| rectangular(s) implies grid_text(s) != bytes@ by {
                if grid_text(s) == bytes@ {
                    assert(ok);
                    assert(rows_view(rows@).len() >= 1);
                }
            }
        }
        return None;
    }
    let cols = rows[0].len();
    if cols == 0 {
        proof {
            assert forall|s: Seq<Seq<bool>>| rectangular(s) implies grid_text(s) != bytes@ by {
                if grid_text(s) == bytes@ {
                    assert(ok);
                    assert(rows_view(rows@)[0].len() >= 1);
                }
            }
        }
        return None;
    }
    let mut r: usize = 1;
    while r < rows.len()
        invariant
            1 <= r <= rows@.len(),
            cols == rows@[0]@.len(),
            ok == exists|t: Seq<Seq<bool>>| rectangular(t) && grid_text(t) == bytes@,
            ok ==> rectangular(rows_view(rows@)) && grid_text(rows_view(rows@)) == bytes@,
            forall|q: int| 0 <= q < r ==> (#[trigger] rows@[q])@.len() == cols,
        decreases rows@.len() - r,
    {
        if rows[r].len() != cols {
            proof {
                assert forall|s: Seq<Seq<bool>>| rectangular(s) implies grid_text(s) != bytes@ by {
                    if grid_text(s) == bytes@ {
                        assert(rectangular(rows_view(rows@)));
                        assert(rows_view(rows@)[r as int].len() == rows_view(rows@)[0].len());
                    }
                }
            }
            return None;
        }
        r = r + 1;
    }
    let dims = GridDimensions { rows: rows.len(), cols };
    let grid = CellGrid::from_rows(rows);
    let text = serialize_grid(&grid);
    if bytes_equal(&text, bytes) {
        Some((dims, grid))
    } else {
        proof {
            assert forall|s: Seq<Seq<bool>>| rectangular(s) implies grid_text(s) != bytes@ by {
                if grid_text(s) == bytes@ {
                    assert(ok);
                    assert(text@ == grid_text(grid@));
                }
            }
        }
        None
    }
}

} // verus!
