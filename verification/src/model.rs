//! The ocean as a mathematical grid: a sequence of rows of fields.
use crate::field::{Field, FieldType, Position};
use vstd::prelude::*;

verus! {

/// The grid that a vector of rows stands for.
pub open spec fn ocean_of(fields: Seq<Vec<Field>>) -> Seq<Seq<Field>> {
    Seq::new(fields.len(), |r: int| fields[r]@)
}

/// The grid has the given number of rows, each of the given length.
pub open spec fn is_grid(g: Seq<Seq<Field>>, rows: nat, columns: nat) -> bool {
    &&& g.len() == rows
    &&& forall|r: int| 0 <= r < g.len() ==> (#[trigger] g[r]).len() == columns
}

/// Every field of the grid knows its place and is well formed.
pub open spec fn charted(g: Seq<Seq<Field>>) -> bool {
    forall|r: int, c: int|
        0 <= r < g.len() && 0 <= c < g[r].len() ==> {
            let f = #[trigger] g[r][c];
            f.x == c && f.y == r && f.wf()
        }
}

/// A grid of the given size whose fields know their places and are well
/// formed.
pub open spec fn is_ocean(g: Seq<Seq<Field>>, rows: nat, columns: nat) -> bool {
    is_grid(g, rows, columns) && charted(g)
}

/// The place lies on the grid.
pub open spec fn on_grid(g: Seq<Seq<Field>>, p: Position) -> bool {
    p.1 < g.len() && p.0 < g[p.1 as int].len()
}

/// The field at a place.
pub open spec fn cell(g: Seq<Seq<Field>>, p: Position) -> Field {
    g[p.1 as int][p.0 as int]
}

/// The grid with one field replaced, at the place that the new field names.
pub open spec fn put(g: Seq<Seq<Field>>, f: Field) -> Seq<Seq<Field>> {
    g.update(f.y as int, g[f.y as int].update(f.x as int, f))
}

/// A grid that can be walked on: it has a field, and its sides fit into 32
/// bits.
pub open spec fn is_torus(g: Seq<Seq<Field>>) -> bool {
    &&& 0 < g.len() <= u32::MAX
    &&& 0 < g[0].len() <= u32::MAX
    &&& is_grid(g, g.len(), g[0].len())
}

/// The four places next to a place: above, below, to the left and to the
/// right. The grid has no edge: above the first row lies the last, and right
/// of the last column the first.
pub open spec fn neighbours(g: Seq<Seq<Field>>, p: Position) -> Seq<Position> {
    let rows = g.len() as int;
    let columns = g[0].len() as int;
    seq![
        (p.0, ((p.1 + rows - 1) % rows) as u32),
        (p.0, ((p.1 + 1) % rows) as u32),
        (((p.0 + columns - 1) % columns) as u32, p.1),
        (((p.0 + 1) % columns) as u32, p.1),
    ]
}

/// The neighbours of a place that hold the given kind, in the order above,
/// below, left, right. A place that is a neighbour twice is listed twice.
pub open spec fn around(g: Seq<Seq<Field>>, p: Position, kind: FieldType) -> Seq<Position> {
    neighbours(g, p).filter(|q: Position| cell(g, q).kind == kind)
}

/// The fields of one kind in reading order: row by row, each from its first
/// column to its last.
pub open spec fn fields_of(g: Seq<Seq<Field>>, kind: FieldType) -> Seq<Field> {
    g.flatten().filter(|f: Field| f.kind == kind)
}

/// The number of fields of one kind.
pub open spec fn population(g: Seq<Seq<Field>>, kind: FieldType) -> nat {
    fields_of(g, kind).len()
}

/// The fields that come before row `r`, column `c` in reading order.
pub open spec fn before(g: Seq<Seq<Field>>, r: int, c: int) -> Seq<Field> {
    g.take(r).flatten() + g[r].take(c)
}

/// A grid of open water.
pub open spec fn blank(rows: nat, columns: nat) -> Seq<Seq<Field>> {
    Seq::new(rows, |r: int| Seq::new(columns, |c: int| Field::water(c as u32, r as u32)))
}

/// The grid wraps around: the neighbours of a place lie on the grid, and at
/// each border the neighbour beyond it is the field on the opposite border.
pub proof fn lemma_wraps_around(g: Seq<Seq<Field>>, p: Position)
    requires
        is_torus(g),
        on_grid(g, p),
    ensures
        neighbours(g, p).len() == 4,
        forall|i: int| 0 <= i < 4 ==> on_grid(g, #[trigger] neighbours(g, p)[i]),
        neighbours(g, p)[0] == (p.0, (if p.1 == 0 { g.len() - 1 } else { p.1 - 1 }) as u32),
        neighbours(g, p)[1] == (p.0, (if p.1 == g.len() - 1 { 0 } else { p.1 + 1 }) as u32),
        neighbours(g, p)[2] == ((if p.0 == 0 { g[0].len() - 1 } else { p.0 - 1 }) as u32, p.1),
        neighbours(g, p)[3] == ((if p.0 == g[0].len() - 1 { 0 } else { p.0 + 1 }) as u32, p.1),
{
    let rows = g.len() as int;
    let columns = g[0].len() as int;
    let x = p.0 as int;
    let y = p.1 as int;
    assert(g[y].len() == columns);
    lemma_step_back(y, rows);
    lemma_step_on(y, rows);
    lemma_step_back(x, columns);
    lemma_step_on(x, columns);
    let around = neighbours(g, p);
    assert forall|i: int| 0 <= i < 4 implies on_grid(g, #[trigger] around[i]) by {
        let q = around[i];
        assert(g[q.1 as int].len() == columns);
    }
}

/// One step back on a ring of `n` places.
pub proof fn lemma_step_back(i: int, n: int)
    requires
        0 <= i < n,
    ensures
        (i + n - 1) % n == (if i == 0 { n - 1 } else { i - 1 }),
{
    if i == 0 {
        vstd::arithmetic::div_mod::lemma_small_mod((n - 1) as nat, n as nat);
    } else {
        vstd::arithmetic::div_mod::lemma_mod_add_multiples_vanish(i - 1, n);
        vstd::arithmetic::div_mod::lemma_small_mod((i - 1) as nat, n as nat);
    }
}

/// One step on on a ring of `n` places.
pub proof fn lemma_step_on(i: int, n: int)
    requires
        0 <= i < n,
    ensures
        (i + 1) % n == (if i == n - 1 { 0 } else { i + 1 }),
{
    if i == n - 1 {
        vstd::arithmetic::div_mod::lemma_mod_self_0(n);
    } else {
        vstd::arithmetic::div_mod::lemma_small_mod((i + 1) as nat, n as nat);
    }
}

/// One field further in a row.
pub proof fn lemma_before_step(g: Seq<Seq<Field>>, r: int, c: int)
    requires
        0 <= r < g.len(),
        0 <= c < g[r].len(),
    ensures
        before(g, r, c + 1) == before(g, r, c).push(g[r][c]),
{
    assert(g[r].take(c + 1) =~= g[r].take(c).push(g[r][c]));
    assert(before(g, r, c + 1) =~= before(g, r, c).push(g[r][c]));
}

/// The end of a row is the start of the next.
pub proof fn lemma_before_row(g: Seq<Seq<Field>>, r: int)
    requires
        0 <= r < g.len(),
    ensures
        g.take(r + 1).flatten() == before(g, r, g[r].len() as int),
        r + 1 < g.len() ==> before(g, r + 1, 0) == before(g, r, g[r].len() as int),
        r + 1 == g.len() ==> g.flatten() == before(g, r, g[r].len() as int),
{
    assert(g.take(r + 1) =~= g.take(r).push(g[r]));
    g.take(r).lemma_flatten_push(g[r]);
    assert(g[r].take(g[r].len() as int) =~= g[r]);
    if r + 1 < g.len() {
        assert(g[r + 1].take(0) =~= Seq::<Field>::empty());
        assert(before(g, r + 1, 0) =~= g.take(r + 1).flatten());
    }
    if r + 1 == g.len() {
        assert(g.take(r + 1) =~= g);
    }
}

/// A grid falls into the rows above a row, the row, and the rows below it.
pub proof fn lemma_flatten_split(g: Seq<Seq<Field>>, r: int)
    requires
        0 <= r < g.len(),
    ensures
        g.flatten() == g.take(r).flatten() + g[r] + g.skip(r + 1).flatten(),
{
    assert(g =~= g.take(r + 1) + g.skip(r + 1));
    vstd::seq_lib::lemma_flatten_concat(g.take(r + 1), g.skip(r + 1));
    assert(g.take(r + 1) =~= g.take(r).push(g[r]));
    g.take(r).lemma_flatten_push(g[r]);
}

/// Replacing one field changes the number of fields of a kind by what the
/// old field and the new one count for.
pub proof fn lemma_row_count(row: Seq<Field>, c: int, f: Field, kind: FieldType)
    requires
        0 <= c < row.len(),
    ensures
        row.update(c, f).filter(|h: Field| h.kind == kind).len() + (if row[c].kind == kind {
            1int
        } else {
            0int
        }) == row.filter(|h: Field| h.kind == kind).len() + (if f.kind == kind {
            1int
        } else {
            0int
        }),
{
    let p = |h: Field| h.kind == kind;
    let a = row.take(c);
    let b = row.skip(c + 1);
    assert(row =~= a.push(row[c]) + b);
    assert(row.update(c, f) =~= a.push(f) + b);
    Seq::filter_distributes_over_add(a.push(row[c]), b, p);
    Seq::filter_distributes_over_add(a.push(f), b, p);
    a.lemma_filter_push(row[c], p);
    a.lemma_filter_push(f, p);
}

/// Replacing one field of a grid changes the population of a kind by what the
/// old field and the new one count for.
pub proof fn lemma_population_put(g: Seq<Seq<Field>>, f: Field, kind: FieldType)
    requires
        on_grid(g, f.at()),
    ensures
        population(put(g, f), kind) + (if cell(g, f.at()).kind == kind {
            1int
        } else {
            0int
        }) == population(g, kind) + (if f.kind == kind {
            1int
        } else {
            0int
        }),
{
    let p = |h: Field| h.kind == kind;
    let r = f.y as int;
    let c = f.x as int;
    let h = put(g, f);
    lemma_flatten_split(g, r);
    lemma_flatten_split(h, r);
    assert(h.take(r) =~= g.take(r));
    assert(h.skip(r + 1) =~= g.skip(r + 1));
    let above = g.take(r).flatten();
    let below = g.skip(r + 1).flatten();
    Seq::filter_distributes_over_add(above + g[r], below, p);
    Seq::filter_distributes_over_add(above, g[r], p);
    Seq::filter_distributes_over_add(above + h[r], below, p);
    Seq::filter_distributes_over_add(above, h[r], p);
    lemma_row_count(g[r], c, f, kind);
}

/// Every field of the flattened grid is the field of some row and column.
pub proof fn lemma_flatten_member(g: Seq<Seq<Field>>, f: Field)
    requires
        g.flatten().contains(f),
    ensures
        exists|r: int, c: int| 0 <= r < g.len() && 0 <= c < g[r].len() && #[trigger] g[r][c] == f,
    decreases g.len(),
{
    if g.len() > 0 {
        let init = g.drop_last();
        assert(g =~= init.push(g.last()));
        init.lemma_flatten_push(g.last());
        let i = choose|i: int| 0 <= i < g.flatten().len() && g.flatten()[i] == f;
        if i < init.flatten().len() {
            assert(init.flatten()[i] == f);
            lemma_flatten_member(init, f);
            let (r, c) = choose|r: int, c: int|
                0 <= r < init.len() && 0 <= c < init[r].len() && #[trigger] init[r][c] == f;
            assert(g[r][c] == f);
        } else {
            let c = i - init.flatten().len();
            assert(g[g.len() - 1][c] == f);
        }
    }
}

/// A field that is listed for a kind is of that kind and stands on the grid,
/// at the place that it names.
pub proof fn lemma_fields_of_member(g: Seq<Seq<Field>>, kind: FieldType, i: int)
    requires
        charted(g),
        0 <= i < fields_of(g, kind).len(),
    ensures
        fields_of(g, kind)[i].kind == kind,
        fields_of(g, kind)[i].wf(),
        on_grid(g, fields_of(g, kind)[i].at()),
        cell(g, fields_of(g, kind)[i].at()) == fields_of(g, kind)[i],
{
    let wanted = |f: Field| f.kind == kind;
    let f = fields_of(g, kind)[i];
    g.flatten().lemma_filter_pred(wanted, i);
    assert(g.flatten().filter(wanted).contains(f));
    g.flatten().lemma_filter_contains_rev(wanted, f);
    lemma_flatten_member(g, f);
    let (r, c) = choose|r: int, c: int|
        0 <= r < g.len() && 0 <= c < g[r].len() && #[trigger] g[r][c] == f;
    assert(g[r][c].x == c && g[r][c].y == r);
}

/// A grid has as many fields as its sides multiply to.
pub proof fn lemma_flatten_len(g: Seq<Seq<Field>>, rows: nat, columns: nat)
    requires
        is_grid(g, rows, columns),
    ensures
        g.flatten().len() == rows * columns,
    decreases rows,
{
    if rows == 0 {
        assert(g.flatten() =~= Seq::<Field>::empty());
        assert(rows * columns == 0) by (nonlinear_arith)
            requires
                rows == 0,
        ;
    } else {
        let init = g.drop_last();
        assert(g =~= init.push(g.last()));
        init.lemma_flatten_push(g.last());
        assert(is_grid(init, (rows - 1) as nat, columns)) by {
            assert forall|r: int| 0 <= r < init.len() implies (#[trigger] init[r]).len()
                == columns by {
                assert(init[r] == g[r]);
            }
        }
        lemma_flatten_len(init, (rows - 1) as nat, columns);
        assert(rows * columns == (rows - 1) * columns + columns) by (nonlinear_arith);
    }
}

/// Every field of a sequence is of exactly one kind.
pub proof fn lemma_kinds_part(s: Seq<Field>)
    ensures
        s.filter(|f: Field| f.kind == FieldType::Fish).len() + s.filter(
            |f: Field| f.kind == FieldType::Shark,
        ).len() + s.filter(|f: Field| f.kind == FieldType::Plankton).len() == s.len(),
    decreases s.len(),
{
    let fish = |f: Field| f.kind == FieldType::Fish;
    let shark = |f: Field| f.kind == FieldType::Shark;
    let water = |f: Field| f.kind == FieldType::Plankton;
    if s.len() == 0 {
        reveal(Seq::filter);
    } else {
        let init = s.drop_last();
        assert(s =~= init.push(s.last()));
        lemma_kinds_part(init);
        init.lemma_filter_len_push(fish, s.last());
        init.lemma_filter_len_push(shark, s.last());
        init.lemma_filter_len_push(water, s.last());
    }
}

/// The fish, the sharks and the free fields of a grid are all its fields.
pub proof fn lemma_census(g: Seq<Seq<Field>>, rows: nat, columns: nat)
    requires
        is_grid(g, rows, columns),
    ensures
        population(g, FieldType::Fish) + population(g, FieldType::Shark) + population(
            g,
            FieldType::Plankton,
        ) == rows * columns,
{
    lemma_flatten_len(g, rows, columns);
    lemma_kinds_part(g.flatten());
}

/// No part of the grid holds more fields of a kind than the whole grid.
pub proof fn lemma_before_count(g: Seq<Seq<Field>>, r: int, c: int, kind: FieldType)
    requires
        0 <= r < g.len(),
        0 <= c <= g[r].len(),
    ensures
        before(g, r, c).filter(|f: Field| f.kind == kind).len() <= population(g, kind),
{
    let wanted = |f: Field| f.kind == kind;
    lemma_flatten_split(g, r);
    assert(g[r] =~= g[r].take(c) + g[r].skip(c));
    let rest = g[r].skip(c) + g.skip(r + 1).flatten();
    assert(g.flatten() =~= before(g, r, c) + rest);
    Seq::filter_distributes_over_add(before(g, r, c), rest, wanted);
}

/// Replacing a field of an ocean by a well-formed one gives an ocean.
pub proof fn lemma_put_keeps(g: Seq<Seq<Field>>, f: Field, rows: nat, columns: nat)
    requires
        is_ocean(g, rows, columns),
        on_grid(g, f.at()),
        f.wf(),
    ensures
        is_ocean(put(g, f), rows, columns),
        forall|p: Position| on_grid(g, p) <==> on_grid(put(g, f), p),
        forall|p: Position| on_grid(g, p) && p != f.at() ==> cell(put(g, f), p) == cell(g, p),
        cell(put(g, f), f.at()) == f,
{
    let h = put(g, f);
    assert forall|r: int, c: int| 0 <= r < h.len() && 0 <= c < h[r].len() implies {
        let e = #[trigger] h[r][c];
        e.x == c && e.y == r && e.wf()
    } by {
        if r == f.y && c == f.x {
        } else {
            assert(h[r][c] == g[r][c]);
        }
    }
}

/// Open water is an ocean without animals.
pub proof fn lemma_blank(rows: nat, columns: nat)
    requires
        rows <= u32::MAX,
        columns <= u32::MAX,
    ensures
        is_ocean(blank(rows, columns), rows, columns),
        population(blank(rows, columns), FieldType::Fish) == 0,
        population(blank(rows, columns), FieldType::Shark) == 0,
        population(blank(rows, columns), FieldType::Plankton) == rows * columns,
{
    let g = blank(rows, columns);
    let fish = |f: Field| f.kind == FieldType::Fish;
    let shark = |f: Field| f.kind == FieldType::Shark;
    assert forall|i: int| 0 <= i < g.flatten().len() implies g.flatten()[i].kind
        == FieldType::Plankton by {
        let f = g.flatten()[i];
        assert(g.flatten().contains(f));
        lemma_flatten_member(g, f);
    }
    assert(g.flatten().all(|f: Field| !fish(f)));
    assert(g.flatten().all(|f: Field| !shark(f)));
    g.flatten().lemma_all_neg_filter_empty(fish);
    g.flatten().lemma_all_neg_filter_empty(shark);
    lemma_census(g, rows, columns);
}

/// Replacing a field changes the grid at the place of the new field and
/// nowhere else.
pub proof fn lemma_put_cell(g: Seq<Seq<Field>>, f: Field, p: Position)
    requires
        on_grid(g, f.at()),
    ensures
        on_grid(put(g, f), p) <==> on_grid(g, p),
        on_grid(g, p) ==> cell(put(g, f), p) == (if p == f.at() {
            f
        } else {
            cell(g, p)
        }),
{
}

/// Filtering a sequence without repetitions leaves none.
pub proof fn lemma_filter_no_duplicates(s: Seq<Field>, kind: FieldType)
    requires
        s.no_duplicates(),
    ensures
        s.filter(|f: Field| f.kind == kind).no_duplicates(),
    decreases s.len(),
{
    let wanted = |f: Field| f.kind == kind;
    if s.len() == 0 {
        reveal(Seq::filter);
    } else {
        let init = s.drop_last();
        let last = s.last();
        assert(s =~= init.push(last));
        init.lemma_filter_push(last, wanted);
        lemma_filter_no_duplicates(init, kind);
        if wanted(last) {
            let kept = init.filter(wanted);
            if kept.contains(last) {
                init.lemma_filter_contains_rev(wanted, last);
                let i = choose|i: int| 0 <= i < init.len() && init[i] == last;
                assert(s[i] == s[s.len() - 1]);
            }
            assert forall|i: int, j: int|
                0 <= i < kept.push(last).len() && 0 <= j < kept.push(last).len() && i
                    != j implies kept.push(last)[i] != kept.push(last)[j] by {
                if i < kept.len() {
                    assert(kept.contains(kept[i]));
                }
                if j < kept.len() {
                    assert(kept.contains(kept[j]));
                }
            }
        }
    }
}

/// No field stands twice on a grid whose fields know their places.
pub proof fn lemma_flatten_no_duplicates(g: Seq<Seq<Field>>)
    requires
        charted(g),
    ensures
        g.flatten().no_duplicates(),
    decreases g.len(),
{
    if g.len() == 0 {
        assert(g.flatten() =~= Seq::<Field>::empty());
    } else {
        let init = g.drop_last();
        let last = g.last();
        assert(g =~= init.push(last));
        init.lemma_flatten_push(last);
        assert(charted(init)) by {
            assert forall|r: int, c: int| 0 <= r < init.len() && 0 <= c < init[r].len() implies {
                let f = #[trigger] init[r][c];
                f.x == c && f.y == r && f.wf()
            } by {
                assert(init[r][c] == g[r][c]);
            }
        }
        lemma_flatten_no_duplicates(init);
        let flat = init.flatten();
        let whole = g.flatten();
        assert forall|i: int| 0 <= i < flat.len() implies (#[trigger] flat[i]).y < init.len() by {
            assert(flat.contains(flat[i]));
            lemma_flatten_member(init, flat[i]);
            let (r, c) = choose|r: int, c: int|
                0 <= r < init.len() && 0 <= c < init[r].len() && #[trigger] init[r][c] == flat[i];
            assert(init[r][c] == g[r][c]);
        }
        assert forall|i: int, j: int|
            0 <= i < whole.len() && 0 <= j < whole.len() && i != j implies whole[i]
            != whole[j] by {
            if i < flat.len() && j < flat.len() {
                assert(flat[i] != flat[j]);
            } else if i >= flat.len() && j >= flat.len() {
                assert(whole[i] == g[g.len() - 1][i - flat.len()]);
                assert(whole[j] == g[g.len() - 1][j - flat.len()]);
            } else if i < flat.len() {
                assert(whole[i] == flat[i]);
                assert(whole[j] == g[g.len() - 1][j - flat.len()]);
            } else {
                assert(whole[j] == flat[j]);
                assert(whole[i] == g[g.len() - 1][i - flat.len()]);
            }
        }
    }
}

/// The fields that are listed for a kind stand at different places.
pub proof fn lemma_fields_of_apart(g: Seq<Seq<Field>>, kind: FieldType, i: int, j: int)
    requires
        charted(g),
        0 <= i < fields_of(g, kind).len(),
        0 <= j < fields_of(g, kind).len(),
        i != j,
    ensures
        fields_of(g, kind)[i].at() != fields_of(g, kind)[j].at(),
{
    lemma_flatten_no_duplicates(g);
    lemma_filter_no_duplicates(g.flatten(), kind);
    lemma_fields_of_member(g, kind, i);
    lemma_fields_of_member(g, kind, j);
}

} // verus!
