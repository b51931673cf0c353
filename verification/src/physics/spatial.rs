//! The cells of a uniform spatial grid for broad-phase collision
//! detection. Positions are mapped to integer cell coordinates by the
//! embedding application; the grid keeps, for each occupied cell, the
//! entities inserted there, and answers neighbourhood queries and the
//! candidate pairs of the broad phase.

use vstd::prelude::*;

use crate::entity::Entity;

verus! {

/// Integer coordinates of a grid cell.
pub type CellKey = (i32, i32, i32);

/// No two cells share a key.
pub open spec fn distinct_keys(cells: Seq<(CellKey, Seq<Entity>)>) -> bool {
    forall|i: int, j: int| 0 <= i < j < cells.len() ==> #[trigger] cells[i].0 != #[trigger] cells[j].0
}

/// Some cell has key `key`.
pub open spec fn has_cell(cells: Seq<(CellKey, Seq<Entity>)>, key: CellKey) -> bool {
    exists|i: int| 0 <= i < cells.len() && #[trigger] cells[i].0 == key
}

/// The entities of the cell with key `key`, in insertion order; none when
/// no cell has that key.
pub open spec fn occupants(cells: Seq<(CellKey, Seq<Entity>)>, key: CellKey) -> Seq<Entity> {
    if has_cell(cells, key) {
        cells[choose|i: int| 0 <= i < cells.len() && #[trigger] cells[i].0 == key].1
    } else {
        Seq::empty()
    }
}

/// The cells after `entity` is inserted into the cell with key `key`: it
/// joins the end of that cell, or a new cell is added at the end.
pub open spec fn with_entity(cells: Seq<(CellKey, Seq<Entity>)>, key: CellKey, entity: Entity) -> Seq<
    (CellKey, Seq<Entity>),
> {
    if has_cell(cells, key) {
        let i = choose|i: int| 0 <= i < cells.len() && #[trigger] cells[i].0 == key;
        cells.update(i, (key, cells[i].1.push(entity)))
    } else {
        cells.push((key, seq![entity]))
    }
}

/// The number of entities over all cells.
pub open spec fn total(cells: Seq<(CellKey, Seq<Entity>)>) -> nat
    decreases cells.len(),
{
    if cells.len() == 0 {
        0
    } else {
        total(cells.drop_last()) + cells.last().1.len()
    }
}

/// With distinct keys, the cell found at position `i` is the cell of its
/// key.
pub proof fn lemma_occupants_at(cells: Seq<(CellKey, Seq<Entity>)>, i: int)
    requires
        distinct_keys(cells),
        0 <= i < cells.len(),
    ensures
        has_cell(cells, cells[i].0),
        occupants(cells, cells[i].0) == cells[i].1,
{
    let key = cells[i].0;
    assert(has_cell(cells, key));
    let j = choose|j: int| 0 <= j < cells.len() && #[trigger] cells[j].0 == key;
    if j != i {
        if j < i {
            assert(cells[j].0 != cells[i].0);
        } else {
            assert(cells[i].0 != cells[j].0);
        }
    }
}

/// The total over cells whose entity lists differ only at position `i`
/// changes by the difference of the lengths there.
pub proof fn lemma_total_update(cells: Seq<(CellKey, Seq<Entity>)>, i: int, cell: (CellKey, Seq<Entity>))
    requires
        0 <= i < cells.len(),
    ensures
        total(cells.update(i, cell)) == total(cells) - cells[i].1.len() + cell.1.len(),
    decreases cells.len(),
{
    if i < cells.len() - 1 {
        lemma_total_update(cells.drop_last(), i, cell);
        assert(cells.update(i, cell).drop_last() == cells.drop_last().update(i, cell));
    } else {
        assert(cells.update(i, cell).drop_last() == cells.drop_last());
    }
}

/// Inserting an entity adds one to the number of entities.
pub proof fn lemma_total_with_entity(cells: Seq<(CellKey, Seq<Entity>)>, key: CellKey, entity: Entity)
    requires
        distinct_keys(cells),
    ensures
        total(with_entity(cells, key, entity)) == total(cells) + 1,
{
    if has_cell(cells, key) {
        let i = choose|i: int| 0 <= i < cells.len() && #[trigger] cells[i].0 == key;
        lemma_occupants_at(cells, i);
        lemma_total_update(cells, i, (key, cells[i].1.push(entity)));
    } else {
        assert(with_entity(cells, key, entity).drop_last() == cells);
    }
}

/// Inserting an entity appends it to the entities of its cell, leaves
/// every other cell as it was, keeps the keys distinct, and adds one to
/// the number of entities in the grid.
pub proof fn law_insert_appends_to_its_cell(
    cells: Seq<(CellKey, Seq<Entity>)>,
    key: CellKey,
    entity: Entity,
    other: CellKey,
)
    requires
        distinct_keys(cells),
        other != key,
    ensures
        distinct_keys(with_entity(cells, key, entity)),
        occupants(with_entity(cells, key, entity), key) == occupants(cells, key).push(entity),
        occupants(with_entity(cells, key, entity), other) == occupants(cells, other),
        total(with_entity(cells, key, entity)) == total(cells) + 1,
{
    let after = with_entity(cells, key, entity);
    lemma_total_with_entity(cells, key, entity);
    if has_cell(cells, key) {
        let i = choose|i: int| 0 <= i < cells.len() && #[trigger] cells[i].0 == key;
        assert(distinct_keys(after)) by {
            assert forall|a: int, b: int| 0 <= a < b < after.len() implies #[trigger] after[a].0 != #[trigger] after[b].0 by {
                assert(cells[a].0 != cells[b].0);
            }
        }
        lemma_occupants_at(after, i);
        if has_cell(cells, other) {
            let j = choose|j: int| 0 <= j < cells.len() && #[trigger] cells[j].0 == other;
            lemma_occupants_at(cells, j);
            lemma_occupants_at(after, j);
        } else {
            assert(!has_cell(after, other)) by {
                if has_cell(after, other) {
                    let j = choose|j: int| 0 <= j < after.len() && #[trigger] after[j].0 == other;
                    assert(cells[j].0 == other);
                }
            }
        }
    } else {
        assert(after.drop_last() == cells);
        assert(distinct_keys(after)) by {
            assert forall|a: int, b: int| 0 <= a < b < after.len() implies #[trigger] after[a].0 != #[trigger] after[b].0 by {
                if b == cells.len() {
                    assert(!(cells[a].0 == key));
                } else {
                    assert(cells[a].0 != cells[b].0);
                }
            }
        }
        lemma_occupants_at(after, cells.len() as int);
        if has_cell(cells, other) {
            let j = choose|j: int| 0 <= j < cells.len() && #[trigger] cells[j].0 == other;
            lemma_occupants_at(cells, j);
            lemma_occupants_at(after, j);
        } else {
            assert(!has_cell(after, other)) by {
                if has_cell(after, other) {
                    let j = choose|j: int| 0 <= j < after.len() && #[trigger] after[j].0 == other;
                    if j < cells.len() {
                        assert(cells[j].0 == other);
                    }
                }
            }
        }
    }
}

/// `key` lies within `reach` cells of `center` along every axis.
pub open spec fn in_cube(key: CellKey, center: CellKey, reach: int) -> bool {
    &&& center.0 - reach <= key.0 <= center.0 + reach
    &&& center.1 - reach <= key.1 <= center.1 + reach
    &&& center.2 - reach <= key.2 <= center.2 + reach
}

/// `key` lies in the cube and its offset from `center` comes before
/// `(dx, dy, dz)` in lexicographic order: the cube scan has passed it.
pub open spec fn scanned(key: CellKey, center: CellKey, reach: int, dx: int, dy: int, dz: int) -> bool {
    let a = key.0 - center.0;
    let b = key.1 - center.1;
    let c = key.2 - center.2;
    &&& in_cube(key, center, reach)
    &&& (a < dx || (a == dx && (b < dy || (b == dy && c < dz))))
}

/// `found` holds exactly the entities of the cells that the scan has
/// passed.
pub open spec fn holds_scanned(
    found: Seq<Entity>,
    cells: Seq<(CellKey, Seq<Entity>)>,
    center: CellKey,
    reach: int,
    dx: int,
    dy: int,
    dz: int,
) -> bool {
    &&& forall|e: Entity| #[trigger] found.contains(e) ==> exists|i: int|
        0 <= i < cells.len() && scanned(cells[i].0, center, reach, dx, dy, dz) && #[trigger] cells[i].1.contains(e)
    &&& forall|i: int, e: Entity|
        0 <= i < cells.len() && scanned(cells[i].0, center, reach, dx, dy, dz) && #[trigger] cells[i].1.contains(e)
            ==> found.contains(e)
}

/// The key of the cell at offset `(dx, dy, dz)` from `center`.
pub open spec fn offset_key(center: CellKey, dx: int, dy: int, dz: int) -> CellKey {
    ((center.0 + dx) as i32, (center.1 + dy) as i32, (center.2 + dz) as i32)
}

/// The entities of the cells `center + (dx, dy, dz)` for `dz` from
/// `-reach` up to, not including, `z`, cell after cell.
pub open spec fn line_scan(
    cells: Seq<(CellKey, Seq<Entity>)>,
    center: CellKey,
    reach: int,
    dx: int,
    dy: int,
    z: int,
) -> Seq<Entity>
    decreases z + reach,
{
    if z <= -reach {
        Seq::empty()
    } else {
        line_scan(cells, center, reach, dx, dy, z - 1) + occupants(cells, offset_key(center, dx, dy, z - 1))
    }
}

/// The entities of the lines `dy` from `-reach` up to, not including, `y`
/// of the plane `dx`, line after line.
pub open spec fn plane_scan(cells: Seq<(CellKey, Seq<Entity>)>, center: CellKey, reach: int, dx: int, y: int) -> Seq<
    Entity,
>
    decreases y + reach,
{
    if y <= -reach {
        Seq::empty()
    } else {
        plane_scan(cells, center, reach, dx, y - 1) + line_scan(cells, center, reach, dx, y - 1, reach + 1)
    }
}

/// The entities of the planes `dx` from `-reach` up to, not including,
/// `x`, plane after plane.
pub open spec fn cube_scan(cells: Seq<(CellKey, Seq<Entity>)>, center: CellKey, reach: int, x: int) -> Seq<Entity>
    decreases x + reach,
{
    if x <= -reach {
        Seq::empty()
    } else {
        cube_scan(cells, center, reach, x - 1) + plane_scan(cells, center, reach, x - 1, reach + 1)
    }
}

/// Appends all of `items` to `found`.
fn append_all(found: &mut Vec<Entity>, items: &Vec<Entity>)
    ensures
        final(found)@ == old(found)@ + items@,
{
    let mut k: usize = 0;
    while k < items.len()
        invariant
            k <= items@.len(),
            found@ == old(found)@ + items@.subrange(0, k as int),
        decreases items@.len() - k,
    {
        found.push(items[k]);
        k = k + 1;
        assert(found@ =~= old(found)@ + items@.subrange(0, k as int));
    }
    assert(items@.subrange(0, k as int) =~= items@);
}

/// A sequence followed by another holds exactly what either holds.
pub proof fn lemma_concat_contains<T>(a: Seq<T>, b: Seq<T>, e: T)
    ensures
        (a + b).contains(e) <==> (a.contains(e) || b.contains(e)),
{
    if (a + b).contains(e) {
        let k = choose|k: int| 0 <= k < (a + b).len() && (a + b)[k] == e;
        if k >= a.len() {
            assert(b[k - a.len()] == e);
        }
    }
    if a.contains(e) {
        let k = choose|k: int| 0 <= k < a.len() && a[k] == e;
        assert((a + b)[k] == e);
    }
    if b.contains(e) {
        let k = choose|k: int| 0 <= k < b.len() && b[k] == e;
        assert((a + b)[a.len() + k] == e);
    }
}

/// The offset of the `k`-th forward neighbour of a cell (`0 <= k < 7`):
/// the cells one step further along at least one axis and along none
/// backwards.
pub open spec fn forward_offset(k: int) -> (int, int, int) {
    if k == 0 {
        (1, 0, 0)
    } else if k == 1 {
        (0, 1, 0)
    } else if k == 2 {
        (0, 0, 1)
    } else if k == 3 {
        (1, 1, 0)
    } else if k == 4 {
        (1, 0, 1)
    } else if k == 5 {
        (0, 1, 1)
    } else {
        (1, 1, 1)
    }
}

/// The key of the cell at offset `offset` from `key`.
pub open spec fn shifted(key: CellKey, offset: (int, int, int)) -> CellKey {
    ((key.0 + offset.0) as i32, (key.1 + offset.1) as i32, (key.2 + offset.2) as i32)
}

/// The first `n` rows of the pairs within `s`: row `r` pairs `s[r]` with
/// each later entity, in order.
pub open spec fn rows_within(s: Seq<Entity>, n: int) -> Seq<(Entity, Entity)>
    decreases n,
{
    if n <= 0 {
        Seq::empty()
    } else {
        rows_within(s, n - 1) + s.subrange(n, s.len() as int).map_values(|b: Entity| (s[n - 1], b))
    }
}

/// The first `n` rows of the pairs across `a` and `b`: row `r` pairs
/// `a[r]` with each entity of `b`, in order.
pub open spec fn rows_across(a: Seq<Entity>, b: Seq<Entity>, n: int) -> Seq<(Entity, Entity)>
    decreases n,
{
    if n <= 0 {
        Seq::empty()
    } else {
        rows_across(a, b, n - 1) + b.map_values(|y: Entity| (a[n - 1], y))
    }
}

/// The pairs of the cell at position `i` with its first `k` forward
/// neighbours.
pub open spec fn neighbour_pairs(cells: Seq<(CellKey, Seq<Entity>)>, i: int, k: int) -> Seq<(Entity, Entity)>
    decreases k,
{
    if k <= 0 {
        Seq::empty()
    } else {
        let a = cells[i].1;
        neighbour_pairs(cells, i, k - 1) + rows_across(
            a,
            occupants(cells, shifted(cells[i].0, forward_offset(k - 1))),
            a.len() as int,
        )
    }
}

/// The candidate pairs contributed by the cell at position `i`: its own
/// entities pairwise, then with each forward neighbour in turn.
pub open spec fn cell_pairs(cells: Seq<(CellKey, Seq<Entity>)>, i: int) -> Seq<(Entity, Entity)> {
    rows_within(cells[i].1, cells[i].1.len() as int) + neighbour_pairs(cells, i, 7)
}

/// The candidate pairs contributed by the first `n` cells.
pub open spec fn grid_pairs(cells: Seq<(CellKey, Seq<Entity>)>, n: int) -> Seq<(Entity, Entity)>
    decreases n,
{
    if n <= 0 {
        Seq::empty()
    } else {
        grid_pairs(cells, n - 1) + cell_pairs(cells, n - 1)
    }
}

/// No coordinate of an occupied cell is the largest `i32`, so every
/// forward neighbour has a key.
pub open spec fn neighbours_representable(cells: Seq<(CellKey, Seq<Entity>)>) -> bool {
    forall|i: int|
        0 <= i < cells.len() ==> {
            let k = #[trigger] cells[i].0;
            k.0 < i32::MAX && k.1 < i32::MAX && k.2 < i32::MAX
        }
}

/// Pairing any entities with none gives no pair.
pub proof fn lemma_rows_across_none(a: Seq<Entity>, n: int)
    ensures
        rows_across(a, Seq::empty(), n) == Seq::<(Entity, Entity)>::empty(),
    decreases n,
{
    if n > 0 {
        lemma_rows_across_none(a, n - 1);
        assert(rows_across(a, Seq::empty(), n) =~= Seq::<(Entity, Entity)>::empty());
    }
}

/// The offset of the `k`-th forward neighbour.
fn neighbour_offset(k: usize) -> (r: (i32, i32, i32))
    requires
        k < 7,
    ensures
        r.0 == forward_offset(k as int).0,
        r.1 == forward_offset(k as int).1,
        r.2 == forward_offset(k as int).2,
{
    if k == 0 {
        (1, 0, 0)
    } else if k == 1 {
        (0, 1, 0)
    } else if k == 2 {
        (0, 0, 1)
    } else if k == 3 {
        (1, 1, 0)
    } else if k == 4 {
        (1, 0, 1)
    } else if k == 5 {
        (0, 1, 1)
    } else {
        (1, 1, 1)
    }
}

/// Appends the pairs within `s`.
fn push_within(out: &mut Vec<(Entity, Entity)>, s: &Vec<Entity>)
    ensures
        final(out)@ == old(out)@ + rows_within(s@, s@.len() as int),
{
    let mut r: usize = 0;
    while r < s.len()
        invariant
            r <= s@.len(),
            out@ == old(out)@ + rows_within(s@, r as int),
        decreases s@.len() - r,
    {
        let ghost row_start = out@;
        let mut j: usize = r + 1;
        while j < s.len()
            invariant
                r < s@.len(),
                r + 1 <= j <= s@.len(),
                out@ == row_start + s@.subrange(r + 1, j as int).map_values(|b: Entity| (s@[r as int], b)),
            decreases s@.len() - j,
        {
            out.push((s[r], s[j]));
            assert(s@.subrange(r + 1, j + 1).map_values(|b: Entity| (s@[r as int], b)) =~= s@.subrange(
                r + 1,
                j as int,
            ).map_values(|b: Entity| (s@[r as int], b)).push((s@[r as int], s@[j as int])));
            j = j + 1;
        }
        assert(s@.subrange(r + 1, j as int) == s@.subrange(r + 1, s@.len() as int));
        assert(out@ =~= old(out)@ + rows_within(s@, r + 1));
        r = r + 1;
    }
}

/// Appends the pairs across `a` and `b`.
fn push_across(out: &mut Vec<(Entity, Entity)>, a: &Vec<Entity>, b: &Vec<Entity>)
    ensures
        final(out)@ == old(out)@ + rows_across(a@, b@, a@.len() as int),
{
    let mut r: usize = 0;
    while r < a.len()
        invariant
            r <= a@.len(),
            out@ == old(out)@ + rows_across(a@, b@, r as int),
        decreases a@.len() - r,
    {
        let ghost row_start = out@;
        let mut j: usize = 0;
        while j < b.len()
            invariant
                r < a@.len(),
                j <= b@.len(),
                out@ == row_start + b@.subrange(0, j as int).map_values(|y: Entity| (a@[r as int], y)),
            decreases b@.len() - j,
        {
            out.push((a[r], b[j]));
            assert(b@.subrange(0, j + 1).map_values(|y: Entity| (a@[r as int], y)) =~= b@.subrange(
                0,
                j as int,
            ).map_values(|y: Entity| (a@[r as int], y)).push((a@[r as int], b@[j as int])));
            j = j + 1;
        }
        assert(b@.subrange(0, j as int) == b@);
        assert(out@ =~= old(out)@ + rows_across(a@, b@, r + 1));
        r = r + 1;
    }
}

/// Row `r` of the pairs within `s` holds `s[r]` with each later entity.
proof fn lemma_rows_within_contains(s: Seq<Entity>, n: int, r: int, b: int)
    requires
        0 <= r < n <= s.len(),
        r < b < s.len(),
    ensures
        rows_within(s, n).contains((s[r], s[b])),
    decreases n,
{
    let row = s.subrange(n, s.len() as int).map_values(|y: Entity| (s[n - 1], y));
    if r == n - 1 {
        assert(row[b - n] == (s[r], s[b]));
        lemma_concat_contains(rows_within(s, n - 1), row, (s[r], s[b]));
    } else {
        lemma_rows_within_contains(s, n - 1, r, b);
        lemma_concat_contains(rows_within(s, n - 1), row, (s[r], s[b]));
    }
}

/// Row `r` of the pairs across `a` and `b` holds `a[r]` with each entity
/// of `b`.
proof fn lemma_rows_across_contains(a: Seq<Entity>, b: Seq<Entity>, n: int, r: int, c: int)
    requires
        0 <= r < n <= a.len(),
        0 <= c < b.len(),
    ensures
        rows_across(a, b, n).contains((a[r], b[c])),
    decreases n,
{
    let row = b.map_values(|y: Entity| (a[n - 1], y));
    if r == n - 1 {
        assert(row[c] == (a[r], b[c]));
    } else {
        lemma_rows_across_contains(a, b, n - 1, r, c);
    }
    lemma_concat_contains(rows_across(a, b, n - 1), row, (a[r], b[c]));
}

/// The pairs with the first `k` neighbours include those with neighbour
/// `m` for every `m < k`.
proof fn lemma_neighbour_pairs_contains(cells: Seq<(CellKey, Seq<Entity>)>, i: int, k: int, m: int, p: (Entity, Entity))
    requires
        0 <= m < k,
        rows_across(
            cells[i].1,
            occupants(cells, shifted(cells[i].0, forward_offset(m))),
            cells[i].1.len() as int,
        ).contains(p),
    ensures
        neighbour_pairs(cells, i, k).contains(p),
    decreases k,
{
    let last = rows_across(
        cells[i].1,
        occupants(cells, shifted(cells[i].0, forward_offset(k - 1))),
        cells[i].1.len() as int,
    );
    if m < k - 1 {
        lemma_neighbour_pairs_contains(cells, i, k - 1, m, p);
    }
    lemma_concat_contains(neighbour_pairs(cells, i, k - 1), last, p);
}

/// The pairs of the first `n` cells include those of every cell before
/// position `n`.
proof fn lemma_grid_pairs_contains(cells: Seq<(CellKey, Seq<Entity>)>, n: int, i: int, p: (Entity, Entity))
    requires
        0 <= i < n,
        cell_pairs(cells, i).contains(p),
    ensures
        grid_pairs(cells, n).contains(p),
    decreases n,
{
    if i < n - 1 {
        lemma_grid_pairs_contains(cells, n - 1, i, p);
    }
    lemma_concat_contains(grid_pairs(cells, n - 1), cell_pairs(cells, n - 1), p);
}

/// The broad phase lists every two entities that share a cell, the
/// earlier inserted first.
pub proof fn law_broad_phase_pairs_cell_mates(cells: Seq<(CellKey, Seq<Entity>)>, i: int, a: int, b: int)
    requires
        0 <= i < cells.len(),
        0 <= a < b < cells[i].1.len(),
    ensures
        grid_pairs(cells, cells.len() as int).contains((cells[i].1[a], cells[i].1[b])),
{
    let s = cells[i].1;
    lemma_rows_within_contains(s, s.len() as int, a, b);
    lemma_concat_contains(rows_within(s, s.len() as int), neighbour_pairs(cells, i, 7), (s[a], s[b]));
    lemma_grid_pairs_contains(cells, cells.len() as int, i, (s[a], s[b]));
}

/// The broad phase lists every entity of a cell with every entity of
/// each of its forward neighbours (the cells one step further along at
/// least one axis and along none backwards).
pub proof fn law_broad_phase_pairs_forward_neighbours(
    cells: Seq<(CellKey, Seq<Entity>)>,
    i: int,
    j: int,
    k: int,
    a: int,
    b: int,
)
    requires
        distinct_keys(cells),
        0 <= i < cells.len(),
        0 <= j < cells.len(),
        0 <= k < 7,
        cells[j].0 == shifted(cells[i].0, forward_offset(k)),
        0 <= a < cells[i].1.len(),
        0 <= b < cells[j].1.len(),
    ensures
        grid_pairs(cells, cells.len() as int).contains((cells[i].1[a], cells[j].1[b])),
{
    let p = (cells[i].1[a], cells[j].1[b]);
    lemma_occupants_at(cells, j);
    lemma_rows_across_contains(cells[i].1, cells[j].1, cells[i].1.len() as int, a, b);
    lemma_neighbour_pairs_contains(cells, i, 7, k, p);
    lemma_concat_contains(rows_within(cells[i].1, cells[i].1.len() as int), neighbour_pairs(cells, i, 7), p);
    lemma_grid_pairs_contains(cells, cells.len() as int, i, p);
}

/// The forward neighbours of a cell are the seven cells one step further
/// along at least one axis and along none backwards, each visited once:
/// every offset of the scan has components 0 or 1 and is not zero, no two
/// of the seven offsets are the same, and every such offset is one of
/// them.
pub proof fn law_forward_offsets_are_the_positive_unit_steps(dx: int, dy: int, dz: int)
    ensures
        forall|k: int|
            0 <= k < 7 ==> {
                let o = #[trigger] forward_offset(k);
                &&& 0 <= o.0 <= 1
                &&& 0 <= o.1 <= 1
                &&& 0 <= o.2 <= 1
                &&& o != (0int, 0int, 0int)
            },
        forall|k: int, m: int| 0 <= k < m < 7 ==> #[trigger] forward_offset(k) != #[trigger] forward_offset(m),
        0 <= dx <= 1 && 0 <= dy <= 1 && 0 <= dz <= 1 && (dx, dy, dz) != (0int, 0int, 0int) ==> exists|k: int|
            0 <= k < 7 && #[trigger] forward_offset(k) == (dx, dy, dz),
{
    if 0 <= dx <= 1 && 0 <= dy <= 1 && 0 <= dz <= 1 && (dx, dy, dz) != (0int, 0int, 0int) {
        let k: int = if (dx, dy, dz) == (1int, 0int, 0int) {
            0
        } else if (dx, dy, dz) == (0int, 1int, 0int) {
            1
        } else if (dx, dy, dz) == (0int, 0int, 1int) {
            2
        } else if (dx, dy, dz) == (1int, 1int, 0int) {
            3
        } else if (dx, dy, dz) == (1int, 0int, 1int) {
            4
        } else if (dx, dy, dz) == (0int, 1int, 1int) {
            5
        } else {
            6
        };
        assert(forward_offset(k) == (dx, dy, dz));
    }
}

/// Two occupied cells whose keys differ by a nonzero step of 0 or 1 along
/// each axis are neighbours in the broad phase: every entity of the first
/// is listed with every entity of the second.
pub proof fn law_broad_phase_pairs_cells_one_step_apart(
    cells: Seq<(CellKey, Seq<Entity>)>,
    i: int,
    j: int,
    dx: int,
    dy: int,
    dz: int,
    a: int,
    b: int,
)
    requires
        distinct_keys(cells),
        0 <= i < cells.len(),
        0 <= j < cells.len(),
        0 <= dx <= 1 && 0 <= dy <= 1 && 0 <= dz <= 1,
        (dx, dy, dz) != (0int, 0int, 0int),
        cells[j].0.0 == cells[i].0.0 + dx,
        cells[j].0.1 == cells[i].0.1 + dy,
        cells[j].0.2 == cells[i].0.2 + dz,
        0 <= a < cells[i].1.len(),
        0 <= b < cells[j].1.len(),
    ensures
        grid_pairs(cells, cells.len() as int).contains((cells[i].1[a], cells[j].1[b])),
{
    law_forward_offsets_are_the_positive_unit_steps(dx, dy, dz);
    let k = choose|k: int| 0 <= k < 7 && #[trigger] forward_offset(k) == (dx, dy, dz);
    assert(cells[j].0 == shifted(cells[i].0, forward_offset(k)));
    law_broad_phase_pairs_forward_neighbours(cells, i, j, k, a, b);
}

/// Every entity of the grid is in one cell, once.
pub open spec fn placed_once(cells: Seq<(CellKey, Seq<Entity>)>) -> bool {
    &&& forall|j: int| 0 <= j < cells.len() ==> (#[trigger] cells[j].1).no_duplicates()
    &&& forall|j1: int, j2: int, e: Entity|
        0 <= j1 < cells.len() && 0 <= j2 < cells.len() && #[trigger] cells[j1].1.contains(e)
            && #[trigger] cells[j2].1.contains(e) ==> j1 == j2
}

/// A pair among the first `m` rows within `s` is `s[r]` with a later `s[c]`.
proof fn lemma_rows_within_members(s: Seq<Entity>, m: int, p: (Entity, Entity))
    requires
        0 <= m <= s.len(),
        rows_within(s, m).contains(p),
    ensures
        exists|r: int, c: int| 0 <= r < m && r < c < s.len() && p == (#[trigger] s[r], #[trigger] s[c]),
    decreases m,
{
    if m > 0 {
        let prev = rows_within(s, m - 1);
        let row = s.subrange(m, s.len() as int).map_values(|y: Entity| (s[m - 1], y));
        lemma_concat_contains(prev, row, p);
        if prev.contains(p) {
            lemma_rows_within_members(s, m - 1, p);
        } else {
            let k = choose|k: int| 0 <= k < row.len() && row[k] == p;
            assert(p == (s[m - 1], s[m + k]));
        }
    }
}

/// A pair among the first `m` rows across `a` and `b` is `a[r]` with some
/// `b[c]`.
proof fn lemma_rows_across_members(a: Seq<Entity>, b: Seq<Entity>, m: int, p: (Entity, Entity))
    requires
        0 <= m <= a.len(),
        rows_across(a, b, m).contains(p),
    ensures
        exists|r: int, c: int| 0 <= r < m && 0 <= c < b.len() && p == (#[trigger] a[r], #[trigger] b[c]),
    decreases m,
{
    if m > 0 {
        let prev = rows_across(a, b, m - 1);
        let row = b.map_values(|y: Entity| (a[m - 1], y));
        lemma_concat_contains(prev, row, p);
        if prev.contains(p) {
            lemma_rows_across_members(a, b, m - 1, p);
        } else {
            let k = choose|k: int| 0 <= k < row.len() && row[k] == p;
            assert(p == (a[m - 1], b[k]));
        }
    }
}

/// The pairs within a duplicate-free `s` are listed once each.
proof fn lemma_rows_within_unique(s: Seq<Entity>, m: int)
    requires
        0 <= m <= s.len(),
        s.no_duplicates(),
    ensures
        rows_within(s, m).no_duplicates(),
    decreases m,
{
    if m > 0 {
        lemma_rows_within_unique(s, m - 1);
        let prev = rows_within(s, m - 1);
        let row = s.subrange(m, s.len() as int).map_values(|y: Entity| (s[m - 1], y));
        assert forall|i: int, j: int| 0 <= i < row.len() && 0 <= j < row.len() && i != j implies row[i] != row[j] by {
            assert(s[m + i] != s[m + j]);
        }
        assert forall|i: int, j: int| 0 <= i < prev.len() && 0 <= j < row.len() implies prev[i] != row[j] by {
            assert(prev.contains(prev[i]));
            lemma_rows_within_members(s, m - 1, prev[i]);
            let (r, c) = choose|r: int, c: int| 0 <= r < m - 1 && r < c < s.len() && prev[i] == (#[trigger] s[r], #[trigger] s[c]);
            assert(s[r] != s[m - 1]);
        }
        vstd::seq_lib::lemma_no_dup_in_concat(prev, row);
    }
}

/// The pairs across duplicate-free `a` and `b` are listed once each.
proof fn lemma_rows_across_unique(a: Seq<Entity>, b: Seq<Entity>, m: int)
    requires
        0 <= m <= a.len(),
        a.no_duplicates(),
        b.no_duplicates(),
    ensures
        rows_across(a, b, m).no_duplicates(),
    decreases m,
{
    if m > 0 {
        lemma_rows_across_unique(a, b, m - 1);
        let prev = rows_across(a, b, m - 1);
        let row = b.map_values(|y: Entity| (a[m - 1], y));
        assert forall|i: int, j: int| 0 <= i < row.len() && 0 <= j < row.len() && i != j implies row[i] != row[j] by {
            assert(b[i] != b[j]);
        }
        assert forall|i: int, j: int| 0 <= i < prev.len() && 0 <= j < row.len() implies prev[i] != row[j] by {
            assert(prev.contains(prev[i]));
            lemma_rows_across_members(a, b, m - 1, prev[i]);
            let (r, c) = choose|r: int, c: int| 0 <= r < m - 1 && 0 <= c < b.len() && prev[i] == (#[trigger] a[r], #[trigger] b[c]);
            assert(a[r] != a[m - 1]);
        }
        vstd::seq_lib::lemma_no_dup_in_concat(prev, row);
    }
}

/// An entity among the occupants of `key` lies in the cell with that key.
proof fn lemma_occupant_cell(cells: Seq<(CellKey, Seq<Entity>)>, key: CellKey, e: Entity)
    requires
        distinct_keys(cells),
        occupants(cells, key).contains(e),
    ensures
        exists|j: int| 0 <= j < cells.len() && #[trigger] cells[j].0 == key && cells[j].1.contains(e),
{
    if !has_cell(cells, key) {
        assert(!Seq::<Entity>::empty().contains(e));
    } else {
        let j = choose|j: int| 0 <= j < cells.len() && #[trigger] cells[j].0 == key;
        lemma_occupants_at(cells, j);
        assert(cells[j].1.contains(e));
    }
}

/// The occupants of a key are listed once each.
proof fn lemma_occupants_unique(cells: Seq<(CellKey, Seq<Entity>)>, key: CellKey)
    requires
        placed_once(cells),
    ensures
        occupants(cells, key).no_duplicates(),
{
    if has_cell(cells, key) {
        let j = choose|j: int| 0 <= j < cells.len() && #[trigger] cells[j].0 == key;
        assert(cells[j].1.no_duplicates());
    }
}

/// The forward neighbours of a cell whose coordinates are below the
/// largest `i32` have keys other than its own and than each other's.
proof fn lemma_forward_keys_differ(key: CellKey, k1: int, k2: int)
    requires
        key.0 < i32::MAX && key.1 < i32::MAX && key.2 < i32::MAX,
        0 <= k1 < 7,
        0 <= k2 < 7,
    ensures
        shifted(key, forward_offset(k1)) != key,
        k1 != k2 ==> shifted(key, forward_offset(k1)) != shifted(key, forward_offset(k2)),
{
    law_forward_offsets_are_the_positive_unit_steps(0, 0, 0);
    let o1 = forward_offset(k1);
    let o2 = forward_offset(k2);
    assert(shifted(key, o1).0 == key.0 + o1.0);
    assert(shifted(key, o1).1 == key.1 + o1.1);
    assert(shifted(key, o1).2 == key.2 + o1.2);
    assert(shifted(key, o2).0 == key.0 + o2.0);
    assert(shifted(key, o2).1 == key.1 + o2.1);
    assert(shifted(key, o2).2 == key.2 + o2.2);
    if k1 != k2 {
        if k1 < k2 {
            assert(forward_offset(k1) != forward_offset(k2));
        } else {
            assert(forward_offset(k2) != forward_offset(k1));
        }
    }
}

/// A pair with the first `k` neighbours of cell `i` is one with some
/// neighbour `m < k`.
proof fn lemma_neighbour_members(cells: Seq<(CellKey, Seq<Entity>)>, i: int, k: int, p: (Entity, Entity))
    requires
        neighbour_pairs(cells, i, k).contains(p),
    ensures
        exists|m: int|
            0 <= m < k && (#[trigger] rows_across(
                cells[i].1,
                occupants(cells, shifted(cells[i].0, forward_offset(m))),
                cells[i].1.len() as int,
            )).contains(p),
    decreases k,
{
    if k <= 0 {
        assert(!Seq::<(Entity, Entity)>::empty().contains(p));
    } else {
        let last = rows_across(
            cells[i].1,
            occupants(cells, shifted(cells[i].0, forward_offset(k - 1))),
            cells[i].1.len() as int,
        );
        lemma_concat_contains(neighbour_pairs(cells, i, k - 1), last, p);
        if neighbour_pairs(cells, i, k - 1).contains(p) {
            lemma_neighbour_members(cells, i, k - 1, p);
        }
    }
}

/// A pair with a neighbour of cell `i` has an entity of cell `i` first
/// and, second, an entity of another cell, whose key is that neighbour's.
proof fn lemma_neighbour_pair_cells(cells: Seq<(CellKey, Seq<Entity>)>, i: int, m: int, p: (Entity, Entity))
    requires
        distinct_keys(cells),
        0 <= i < cells.len(),
        rows_across(
            cells[i].1,
            occupants(cells, shifted(cells[i].0, forward_offset(m))),
            cells[i].1.len() as int,
        ).contains(p),
    ensures
        cells[i].1.contains(p.0),
        exists|j: int|
            0 <= j < cells.len() && #[trigger] cells[j].0 == shifted(cells[i].0, forward_offset(m))
                && cells[j].1.contains(p.1),
{
    let a = cells[i].1;
    let b = occupants(cells, shifted(cells[i].0, forward_offset(m)));
    lemma_rows_across_members(a, b, a.len() as int, p);
    let (r, c) = choose|r: int, c: int| 0 <= r < a.len() && 0 <= c < b.len() && p == (#[trigger] a[r], #[trigger] b[c]);
    assert(a.contains(a[r]));
    assert(b.contains(b[c]));
    lemma_occupant_cell(cells, shifted(cells[i].0, forward_offset(m)), p.1);
}

/// The pairs of cell `i` with its first `k` neighbours are listed once each.
proof fn lemma_neighbour_pairs_unique(cells: Seq<(CellKey, Seq<Entity>)>, i: int, k: int)
    requires
        distinct_keys(cells),
        placed_once(cells),
        neighbours_representable(cells),
        0 <= i < cells.len(),
        0 <= k <= 7,
    ensures
        neighbour_pairs(cells, i, k).no_duplicates(),
    decreases k,
{
    if k > 0 {
        lemma_neighbour_pairs_unique(cells, i, k - 1);
        let a = cells[i].1;
        let prev = neighbour_pairs(cells, i, k - 1);
        let key = shifted(cells[i].0, forward_offset(k - 1));
        let last = rows_across(a, occupants(cells, key), a.len() as int);
        assert(a.no_duplicates());
        lemma_occupants_unique(cells, key);
        lemma_rows_across_unique(a, occupants(cells, key), a.len() as int);
        assert forall|x: int, y: int| 0 <= x < prev.len() && 0 <= y < last.len() implies prev[x] != last[y] by {
            if prev[x] == last[y] {
                let p = prev[x];
                assert(prev.contains(p));
                assert(last.contains(p));
                lemma_neighbour_members(cells, i, k - 1, p);
                let m = choose|m: int|
                    0 <= m < k - 1 && (#[trigger] rows_across(
                        cells[i].1,
                        occupants(cells, shifted(cells[i].0, forward_offset(m))),
                        cells[i].1.len() as int,
                    )).contains(p);
                lemma_neighbour_pair_cells(cells, i, m, p);
                lemma_neighbour_pair_cells(cells, i, k - 1, p);
                let j1 = choose|j: int|
                    0 <= j < cells.len() && #[trigger] cells[j].0 == shifted(cells[i].0, forward_offset(m))
                        && cells[j].1.contains(p.1);
                let j2 = choose|j: int|
                    0 <= j < cells.len() && #[trigger] cells[j].0 == shifted(cells[i].0, forward_offset(k - 1))
                        && cells[j].1.contains(p.1);
                assert(j1 == j2);
                assert(cells[i].0 == cells[i].0);
                lemma_forward_keys_differ(cells[i].0, m, k - 1);
            }
        }
        vstd::seq_lib::lemma_no_dup_in_concat(prev, last);
    }
}

/// The first entity of a pair of cell `i` is an entity of that cell.
proof fn lemma_cell_pair_first(cells: Seq<(CellKey, Seq<Entity>)>, i: int, p: (Entity, Entity))
    requires
        distinct_keys(cells),
        0 <= i < cells.len(),
        cell_pairs(cells, i).contains(p),
    ensures
        cells[i].1.contains(p.0),
{
    let a = cells[i].1;
    lemma_concat_contains(rows_within(a, a.len() as int), neighbour_pairs(cells, i, 7), p);
    if rows_within(a, a.len() as int).contains(p) {
        lemma_rows_within_members(a, a.len() as int, p);
        let (r, c) = choose|r: int, c: int| 0 <= r < a.len() && r < c < a.len() && p == (#[trigger] a[r], #[trigger] a[c]);
        assert(a.contains(a[r]));
    } else {
        lemma_neighbour_members(cells, i, 7, p);
        let m = choose|m: int|
            0 <= m < 7 && (#[trigger] rows_across(
                cells[i].1,
                occupants(cells, shifted(cells[i].0, forward_offset(m))),
                cells[i].1.len() as int,
            )).contains(p);
        lemma_neighbour_pair_cells(cells, i, m, p);
    }
}

/// The pairs of cell `i` are listed once each.
proof fn lemma_cell_pairs_unique(cells: Seq<(CellKey, Seq<Entity>)>, i: int)
    requires
        distinct_keys(cells),
        placed_once(cells),
        neighbours_representable(cells),
        0 <= i < cells.len(),
    ensures
        cell_pairs(cells, i).no_duplicates(),
{
    let a = cells[i].1;
    let within = rows_within(a, a.len() as int);
    let across = neighbour_pairs(cells, i, 7);
    assert(a.no_duplicates());
    lemma_rows_within_unique(a, a.len() as int);
    lemma_neighbour_pairs_unique(cells, i, 7);
    assert forall|x: int, y: int| 0 <= x < within.len() && 0 <= y < across.len() implies within[x] != across[y] by {
        if within[x] == across[y] {
            let p = within[x];
            assert(within.contains(p));
            assert(across.contains(p));
            lemma_rows_within_members(a, a.len() as int, p);
            let (r, c) = choose|r: int, c: int| 0 <= r < a.len() && r < c < a.len() && p == (#[trigger] a[r], #[trigger] a[c]);
            assert(a.contains(a[c]));
            lemma_neighbour_members(cells, i, 7, p);
            let m = choose|m: int|
                0 <= m < 7 && (#[trigger] rows_across(
                    cells[i].1,
                    occupants(cells, shifted(cells[i].0, forward_offset(m))),
                    cells[i].1.len() as int,
                )).contains(p);
            lemma_neighbour_pair_cells(cells, i, m, p);
            let j = choose|j: int|
                0 <= j < cells.len() && #[trigger] cells[j].0 == shifted(cells[i].0, forward_offset(m))
                    && cells[j].1.contains(p.1);
            assert(j == i);
            assert(cells[i].0 == cells[i].0);
            lemma_forward_keys_differ(cells[i].0, m, m);
        }
    }
    vstd::seq_lib::lemma_no_dup_in_concat(within, across);
}

/// A pair of the first `n` cells is a pair of one of them.
proof fn lemma_grid_members(cells: Seq<(CellKey, Seq<Entity>)>, n: int, p: (Entity, Entity))
    requires
        grid_pairs(cells, n).contains(p),
    ensures
        exists|i: int| 0 <= i < n && #[trigger] cell_pairs(cells, i).contains(p),
    decreases n,
{
    if n <= 0 {
        assert(!Seq::<(Entity, Entity)>::empty().contains(p));
    } else {
        lemma_concat_contains(grid_pairs(cells, n - 1), cell_pairs(cells, n - 1), p);
        if grid_pairs(cells, n - 1).contains(p) {
            lemma_grid_members(cells, n - 1, p);
        }
    }
}

/// The pairs of the first `n` cells are listed once each.
proof fn lemma_grid_pairs_unique(cells: Seq<(CellKey, Seq<Entity>)>, n: int)
    requires
        distinct_keys(cells),
        placed_once(cells),
        neighbours_representable(cells),
        0 <= n <= cells.len(),
    ensures
        grid_pairs(cells, n).no_duplicates(),
    decreases n,
{
    if n > 0 {
        lemma_grid_pairs_unique(cells, n - 1);
        lemma_cell_pairs_unique(cells, n - 1);
        let prev = grid_pairs(cells, n - 1);
        let last = cell_pairs(cells, n - 1);
        assert forall|x: int, y: int| 0 <= x < prev.len() && 0 <= y < last.len() implies prev[x] != last[y] by {
            if prev[x] == last[y] {
                let p = prev[x];
                assert(prev.contains(p));
                assert(last.contains(p));
                lemma_grid_members(cells, n - 1, p);
                let i = choose|i: int| 0 <= i < n - 1 && #[trigger] cell_pairs(cells, i).contains(p);
                lemma_cell_pair_first(cells, i, p);
                lemma_cell_pair_first(cells, n - 1, p);
            }
        }
        vstd::seq_lib::lemma_no_dup_in_concat(prev, last);
    }
}

/// When every entity is in one cell, once, the broad phase lists no pair
/// twice: each cell is paired with itself and with each of its forward
/// neighbours only once.
pub proof fn law_broad_phase_lists_each_pair_once(cells: Seq<(CellKey, Seq<Entity>)>)
    requires
        distinct_keys(cells),
        placed_once(cells),
        neighbours_representable(cells),
    ensures
        grid_pairs(cells, cells.len() as int).no_duplicates(),
{
    lemma_grid_pairs_unique(cells, cells.len() as int);
}

/// The occupied cells of a uniform grid and the entities in each.
pub struct CellGrid {
    cells: Vec<(CellKey, Vec<Entity>)>,
    count: usize,
}

impl CellGrid {
    /// The occupied cells in the order they were first occupied, each with
    /// its entities in insertion order.
    pub closed spec fn cells(&self) -> Seq<(CellKey, Seq<Entity>)> {
        self.cells@.map_values(|c: (CellKey, Vec<Entity>)| (c.0, c.1@))
    }

    /// Every cell key occurs once, and the entities are counted.
    pub closed spec fn wf(&self) -> bool {
        &&& distinct_keys(self.cells())
        &&& self.count == total(self.cells())
    }

    /// An empty grid.
    pub fn new() -> (r: Self)
        ensures
            r.wf(),
            r.cells() == Seq::<(CellKey, Seq<Entity>)>::empty(),
    {
        let r = CellGrid { cells: Vec::new(), count: 0 };
        assert(r.cells() =~= Seq::<(CellKey, Seq<Entity>)>::empty());
        r
    }

    /// Removes every entity.
    pub fn clear(&mut self)
        ensures
            final(self).wf(),
            final(self).cells() == Seq::<(CellKey, Seq<Entity>)>::empty(),
    {
        self.cells.clear();
        self.count = 0;
        assert(self.cells() =~= Seq::<(CellKey, Seq<Entity>)>::empty());
    }

    /// The position of the cell with key `key`, if it is occupied.
    fn position(&self, key: CellKey) -> (r: Option<usize>)
        ensures
            match r {
                Some(i) => i < self.cells().len() && self.cells()[i as int].0 == key,
                None => !has_cell(self.cells(), key),
            },
    {
        let mut i: usize = 0;
        while i < self.cells.len()
            invariant
                i <= self.cells@.len(),
                forall|j: int| 0 <= j < i ==> #[trigger] self.cells()[j].0 != key,
            decreases self.cells@.len() - i,
        {
            let k = self.cells[i].0;
            if k.0 == key.0 && k.1 == key.1 && k.2 == key.2 {
                return Some(i);
            }
            i = i + 1;
        }
        None
    }

    /// Puts `entity` into the cell with key `key`.
    pub fn insert(&mut self, entity: Entity, key: CellKey)
        requires
            old(self).wf(),
            total(old(self).cells()) < usize::MAX,
        ensures
            final(self).wf(),
            final(self).cells() == with_entity(old(self).cells(), key, entity),
    {
        proof {
            lemma_total_with_entity(self.cells(), key, entity);
        }
        self.count = self.count + 1;
        match self.position(key) {
            Some(i) => {
                proof {
                    lemma_occupants_at(self.cells(), i as int);
                }
                let ghost j = choose|j: int| 0 <= j < self.cells().len() && #[trigger] self.cells()[j].0 == key;
                assert(j == i) by {
                    if j < i {
                        assert(self.cells()[j].0 != self.cells()[i as int].0);
                    } else if j > i {
                        assert(self.cells()[i as int].0 != self.cells()[j].0);
                    }
                }
                let entry = &mut self.cells[i];
                entry.1.push(entity);
                assert(self.cells() =~= with_entity(old(self).cells(), key, entity));
            },
            None => {
                let mut members: Vec<Entity> = Vec::new();
                members.push(entity);
                self.cells.push((key, members));
                assert(self.cells() =~= with_entity(old(self).cells(), key, entity));
            },
        }
    }

    /// Scans the cells `center + (dx, dy, dz)` for `dz` from `-reach` to
    /// `reach`, appending their entities to `found`.
    fn scan_line(&self, found: &mut Vec<Entity>, center: CellKey, reach: i32, dx: i32, dy: i32)
        requires
            self.wf(),
            0 <= reach,
            -reach <= dx <= reach,
            -reach <= dy <= reach,
            center.0 - reach >= i32::MIN && center.0 + reach <= i32::MAX,
            center.1 - reach >= i32::MIN && center.1 + reach <= i32::MAX,
            center.2 - reach >= i32::MIN && center.2 + reach <= i32::MAX,
            holds_scanned(old(found)@, self.cells(), center, reach as int, dx as int, dy as int, -reach),
        ensures
            holds_scanned(final(found)@, self.cells(), center, reach as int, dx as int, dy as int, reach + 1),
            final(found)@ == old(found)@ + line_scan(self.cells(), center, reach as int, dx as int, dy as int, reach + 1),
    {
        let ghost cells = self.cells();
        let ghost start = found@;
        let mut dz: i32 = -reach;
        assert(start + line_scan(cells, center, reach as int, dx as int, dy as int, dz as int) =~= start);
        loop
            invariant_except_break
                holds_scanned(found@, cells, center, reach as int, dx as int, dy as int, dz as int),
                found@ == start + line_scan(cells, center, reach as int, dx as int, dy as int, dz as int),
            invariant
                start == old(found)@,
                self.wf(),
                cells == self.cells(),
                0 <= reach,
                -reach <= dx <= reach,
                -reach <= dy <= reach,
                -reach <= dz <= reach,
                center.0 - reach >= i32::MIN && center.0 + reach <= i32::MAX,
                center.1 - reach >= i32::MIN && center.1 + reach <= i32::MAX,
                center.2 - reach >= i32::MIN && center.2 + reach <= i32::MAX,
            ensures
                holds_scanned(found@, cells, center, reach as int, dx as int, dy as int, reach + 1),
                found@ == start + line_scan(cells, center, reach as int, dx as int, dy as int, reach + 1),
            decreases reach - dz,
        {
            let key: CellKey = (center.0 + dx, center.1 + dy, center.2 + dz);
            let ghost before = found@;
            assert(key == offset_key(center, dx as int, dy as int, dz as int));
            match self.position(key) {
                Some(i) => {
                    append_all(found, &self.cells[i].1);
                    assert(self.cells[i as int].1@ == cells[i as int].1);
                    proof {
                        lemma_occupants_at(cells, i as int);
                    }
                    assert forall|e: Entity| #[trigger] found@.contains(e) implies exists|j: int|
                        0 <= j < cells.len() && scanned(cells[j].0, center, reach as int, dx as int, dy as int, dz + 1)
                            && #[trigger] cells[j].1.contains(e) by {
                        lemma_concat_contains(before, cells[i as int].1, e);
                        if before.contains(e) {
                            let j = choose|j: int|
                                0 <= j < cells.len() && scanned(cells[j].0, center, reach as int, dx as int, dy as int, dz as int)
                                    && #[trigger] cells[j].1.contains(e);
                            assert(scanned(cells[j].0, center, reach as int, dx as int, dy as int, dz + 1));
                        } else {
                            assert(scanned(cells[i as int].0, center, reach as int, dx as int, dy as int, dz + 1));
                        }
                    }
                    assert forall|j: int, e: Entity|
                        0 <= j < cells.len() && scanned(cells[j].0, center, reach as int, dx as int, dy as int, dz + 1)
                            && #[trigger] cells[j].1.contains(e) implies found@.contains(e) by {
                        lemma_concat_contains(before, cells[i as int].1, e);
                        if cells[j].0 == key {
                            if j < i {
                                assert(cells[j].0 != cells[i as int].0);
                            } else if j > i {
                                assert(cells[i as int].0 != cells[j].0);
                            }
                        } else {
                            assert(scanned(cells[j].0, center, reach as int, dx as int, dy as int, dz as int));
                        }
                    }
                },
                None => {
                    assert forall|j: int| 0 <= j < cells.len() implies
                        scanned(cells[j].0, center, reach as int, dx as int, dy as int, dz + 1)
                            == scanned(#[trigger] cells[j].0, center, reach as int, dx as int, dy as int, dz as int) by {
                        if cells[j].0 == key {
                            assert(has_cell(cells, key));
                        }
                    }
                },
            }
            assert(found@ =~= start + line_scan(cells, center, reach as int, dx as int, dy as int, dz + 1));
            if dz == reach {
                break;
            }
            dz = dz + 1;
        }
    }

    /// Scans the cells `center + (dx, dy, dz)` for `dy` and `dz` from
    /// `-reach` to `reach`, `dy` major, appending their entities to
    /// `found`.
    fn scan_plane(&self, found: &mut Vec<Entity>, center: CellKey, reach: i32, dx: i32)
        requires
            self.wf(),
            0 <= reach,
            -reach <= dx <= reach,
            center.0 - reach >= i32::MIN && center.0 + reach <= i32::MAX,
            center.1 - reach >= i32::MIN && center.1 + reach <= i32::MAX,
            center.2 - reach >= i32::MIN && center.2 + reach <= i32::MAX,
            holds_scanned(old(found)@, self.cells(), center, reach as int, dx as int, -reach, -reach),
        ensures
            holds_scanned(final(found)@, self.cells(), center, reach as int, dx + 1, -reach, -reach),
            final(found)@ == old(found)@ + plane_scan(self.cells(), center, reach as int, dx as int, reach + 1),
    {
        let ghost cells = self.cells();
        let ghost start = found@;
        let mut dy: i32 = -reach;
        assert(start + plane_scan(cells, center, reach as int, dx as int, dy as int) =~= start);
        loop
            invariant_except_break
                holds_scanned(found@, cells, center, reach as int, dx as int, dy as int, -reach),
                found@ == start + plane_scan(cells, center, reach as int, dx as int, dy as int),
            invariant
                start == old(found)@,
                self.wf(),
                cells == self.cells(),
                0 <= reach,
                -reach <= dx <= reach,
                -reach <= dy <= reach,
                center.0 - reach >= i32::MIN && center.0 + reach <= i32::MAX,
                center.1 - reach >= i32::MIN && center.1 + reach <= i32::MAX,
                center.2 - reach >= i32::MIN && center.2 + reach <= i32::MAX,
            ensures
                holds_scanned(found@, cells, center, reach as int, dx + 1, -reach, -reach),
                found@ == start + plane_scan(cells, center, reach as int, dx as int, reach + 1),
            decreases reach - dy,
        {
            self.scan_line(found, center, reach, dx, dy);
            assert(found@ =~= start + plane_scan(cells, center, reach as int, dx as int, dy + 1));
            assert forall|j: int| 0 <= j < cells.len() implies
                scanned(cells[j].0, center, reach as int, dx as int, dy as int, reach + 1)
                    == scanned(#[trigger] cells[j].0, center, reach as int, dx as int, dy + 1, -reach) by {}
            if dy == reach {
                assert forall|j: int| 0 <= j < cells.len() implies
                    scanned(cells[j].0, center, reach as int, dx as int, dy + 1, -reach)
                        == scanned(#[trigger] cells[j].0, center, reach as int, dx + 1, -reach, -reach) by {}
                break;
            }
            dy = dy + 1;
        }
    }

    /// The entities of all cells within `reach` cells of `center` along
    /// every axis, cell by cell and, within a cell, in insertion order. The
    /// cube is scanned with the first axis outermost and the last
    /// innermost; a negative `reach` covers no cell.
    pub fn query_cells(&self, center: CellKey, reach: i32) -> (r: Vec<Entity>)
        requires
            self.wf(),
            reach > i32::MIN,
            reach >= 0 ==> center.0 - reach >= i32::MIN && center.0 + reach <= i32::MAX,
            reach >= 0 ==> center.1 - reach >= i32::MIN && center.1 + reach <= i32::MAX,
            reach >= 0 ==> center.2 - reach >= i32::MIN && center.2 + reach <= i32::MAX,
        ensures
            forall|e: Entity| #[trigger] r@.contains(e) ==> exists|i: int|
                0 <= i < self.cells().len() && in_cube(self.cells()[i].0, center, reach as int)
                    && #[trigger] self.cells()[i].1.contains(e),
            forall|i: int, e: Entity|
                0 <= i < self.cells().len() && in_cube(self.cells()[i].0, center, reach as int)
                    && #[trigger] self.cells()[i].1.contains(e) ==> r@.contains(e),
            r@ == cube_scan(self.cells(), center, reach as int, reach + 1),
    {
        let ghost cells = self.cells();
        let mut found: Vec<Entity> = Vec::new();
        if reach < 0 {
            return found;
        }
        let mut dx: i32 = -reach;
        loop
            invariant_except_break
                holds_scanned(found@, cells, center, reach as int, dx as int, -reach, -reach),
                found@ == cube_scan(cells, center, reach as int, dx as int),
            invariant
                self.wf(),
                cells == self.cells(),
                0 <= reach,
                -reach <= dx <= reach,
                center.0 - reach >= i32::MIN && center.0 + reach <= i32::MAX,
                center.1 - reach >= i32::MIN && center.1 + reach <= i32::MAX,
                center.2 - reach >= i32::MIN && center.2 + reach <= i32::MAX,
            ensures
                holds_scanned(found@, cells, center, reach as int, reach + 1, -reach, -reach),
                found@ == cube_scan(cells, center, reach as int, reach + 1),
            decreases reach - dx,
        {
            self.scan_plane(&mut found, center, reach, dx);
            assert(found@ =~= cube_scan(cells, center, reach as int, dx + 1));
            if dx == reach {
                break;
            }
            dx = dx + 1;
        }
        assert forall|j: int| 0 <= j < cells.len() implies
            scanned(cells[j].0, center, reach as int, reach + 1, -reach, -reach)
                == in_cube(#[trigger] cells[j].0, center, reach as int) by {}
        found
    }

    /// Whether every forward neighbour of an occupied cell has a key (no
    /// coordinate of an occupied cell is the largest `i32`).
    pub fn neighbours_have_keys(&self) -> (r: bool)
        ensures
            r == neighbours_representable(self.cells()),
    {
        let mut i: usize = 0;
        while i < self.cells.len()
            invariant
                i <= self.cells@.len(),
                forall|j: int|
                    0 <= j < i ==> {
                        let k = #[trigger] self.cells()[j].0;
                        k.0 < i32::MAX && k.1 < i32::MAX && k.2 < i32::MAX
                    },
            decreases self.cells@.len() - i,
        {
            let k = self.cells[i].0;
            if k.0 == i32::MAX || k.1 == i32::MAX || k.2 == i32::MAX {
                assert(self.cells()[i as int].0 == k);
                return false;
            }
            i = i + 1;
        }
        true
    }

    /// The candidate pairs of the broad phase: for each occupied cell, in
    /// order, its entities pairwise (each with every later one), then each
    /// of its entities with each entity of every forward neighbour that is
    /// occupied. Each pair of neighbouring cells is thus visited once.
    pub fn broad_phase_pairs(&self) -> (r: Vec<(Entity, Entity)>)
        requires
            self.wf(),
            neighbours_representable(self.cells()),
        ensures
            r@ == grid_pairs(self.cells(), self.cells().len() as int),
    {
        let ghost cells = self.cells();
        let mut out: Vec<(Entity, Entity)> = Vec::new();
        let mut i: usize = 0;
        while i < self.cells.len()
            invariant
                self.wf(),
                cells == self.cells(),
                neighbours_representable(cells),
                i <= cells.len(),
                out@ == grid_pairs(cells, i as int),
            decreases cells.len() - i,
        {
            let ghost cell_start = out@;
            let key = self.cells[i].0;
            assert(self.cells[i as int].1@ == cells[i as int].1);
            assert(key == cells[i as int].0);
            push_within(&mut out, &self.cells[i].1);
            let mut k: usize = 0;
            while k < 7
                invariant
                    self.wf(),
                    cells == self.cells(),
                    neighbours_representable(cells),
                    i < cells.len(),
                    key == cells[i as int].0,
                    k <= 7,
                    out@ == cell_start + rows_within(cells[i as int].1, cells[i as int].1.len() as int)
                        + neighbour_pairs(cells, i as int, k as int),
                decreases 7 - k,
            {
                let off = neighbour_offset(k);
                assert(key.0 < i32::MAX && key.1 < i32::MAX && key.2 < i32::MAX);
                let adjacent: CellKey = (key.0 + off.0, key.1 + off.1, key.2 + off.2);
                assert(adjacent == shifted(cells[i as int].0, forward_offset(k as int)));
                let ghost before = out@;
                match self.position(adjacent) {
                    Some(j) => {
                        proof {
                            lemma_occupants_at(cells, j as int);
                        }
                        assert(self.cells[j as int].1@ == cells[j as int].1);
                        push_across(&mut out, &self.cells[i].1, &self.cells[j].1);
                    },
                    None => {
                        proof {
                            lemma_rows_across_none(cells[i as int].1, cells[i as int].1.len() as int);
                        }
                        assert(out@ =~= before + rows_across(
                            cells[i as int].1,
                            occupants(cells, adjacent),
                            cells[i as int].1.len() as int,
                        ));
                    },
                }
                assert(out@ =~= cell_start + rows_within(cells[i as int].1, cells[i as int].1.len() as int)
                    + neighbour_pairs(cells, i as int, k + 1));
                k = k + 1;
            }
            assert(out@ =~= grid_pairs(cells, i + 1));
            i = i + 1;
        }
        out
    }

    /// The number of entities in the grid.
    pub fn entity_count(&self) -> (r: usize)
        requires
            self.wf(),
        ensures
            r == total(self.cells()),
    {
        self.count
    }
}

} // verus!
