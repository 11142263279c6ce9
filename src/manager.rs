use vstd::prelude::*;
use crate::coords::ChunkCoordinate;
use crate::pipeline::{Phase, PipelineTable, TrackedChunk, busy, coords_unique, lemma_phase_at, phase_in};

verus! {

pub open spec fn abs(a: int) -> int {
    if a < 0 {
        -a
    } else {
        a
    }
}

/// Whether `c` is in the box that should be resident around `reference`:
/// within `h` chunks on `x` and on `z` (Chebyshev distance) and within `v`
/// chunks on `y`.
pub open spec fn in_desired(reference: ChunkCoordinate, h: int, v: int, c: ChunkCoordinate) -> bool {
    abs(c.x - reference.x) <= h && abs(c.z - reference.z) <= h && abs(c.y - reference.y) <= v
}

/// Whether a load of `c` is due: it is untracked, or its last task failed.
pub open spec fn needs_load(table: Seq<TrackedChunk>, c: ChunkCoordinate) -> bool {
    phase_in(table, c) is None || phase_in(table, c) == Some(Phase::Failed)
}

/// Whether an unload of `c` is due: it is tracked, no task of it is in
/// flight, and it lies outside the desired box.
pub open spec fn needs_unload(
    table: Seq<TrackedChunk>,
    reference: ChunkCoordinate,
    h: int,
    v: int,
    c: ChunkCoordinate,
) -> bool {
    match phase_in(table, c) {
        Some(p) => !busy(p) && !in_desired(reference, h, v, c),
        None => false,
    }
}

/// Whether every coordinate of the desired box fits in `i32`.
pub open spec fn box_fits(reference: ChunkCoordinate, h: int, v: int) -> bool {
    &&& i32::MIN <= reference.x - h && reference.x + h <= i32::MAX
    &&& i32::MIN <= reference.z - h && reference.z + h <= i32::MAX
    &&& i32::MIN <= reference.y - v && reference.y + v <= i32::MAX
}

/// Whether the offset `(ox, oz, oy)` comes before `(dx, dz, dy)` in the
/// order in which the box is walked: `x` outermost, then `z`, then `y`.
pub open spec fn walked_before(ox: int, oz: int, oy: int, dx: int, dz: int, dy: int) -> bool {
    ox < dx || (ox == dx && oz < dz) || (ox == dx && oz == dz && oy < dy)
}

/// The requests of one pass of the load manager.
pub struct TickPlan {
    pub loads: Vec<ChunkCoordinate>,
    pub unloads: Vec<ChunkCoordinate>,
}

fn unloads_of(reference: ChunkCoordinate, horizontal: u8, vertical: u8, table: &PipelineTable) -> (r: Vec<
    ChunkCoordinate,
>)
    requires
        table.wf(),
    ensures
        forall|c: ChunkCoordinate| r@.contains(c) <==> needs_unload(
            table@,
            reference,
            horizontal as int,
            vertical as int,
            c,
        ),
        r@.no_duplicates(),
{
    let entries = table.entries();
    let h = horizontal as i64;
    let v = vertical as i64;
    let mut out: Vec<ChunkCoordinate> = Vec::new();
    let mut i: usize = 0;
    while i < entries.len()
        invariant
            entries@ == table@,
            coords_unique(table@),
            h == horizontal,
            v == vertical,
            i <= table@.len(),
            out@.no_duplicates(),
            forall|c: ChunkCoordinate| out@.contains(c) <==> exists|j: int|
                0 <= j < i && (#[trigger] table@[j]).coord == c && needs_unload(
                    table@,
                    reference,
                    horizontal as int,
                    vertical as int,
                    c,
                ),
        decreases table@.len() - i,
    {
        let e = entries[i];
        proof {
            lemma_phase_at(table@, i as int);
        }
        let c = e.coord;
        let dx = c.x as i64 - reference.x as i64;
        let dz = c.z as i64 - reference.z as i64;
        let dy = c.y as i64 - reference.y as i64;
        let inside = -h <= dx && dx <= h && -h <= dz && dz <= h && -v <= dy && dy <= v;
        let idle = match e.phase {
            Phase::Generating | Phase::Remeshing => false,
            _ => true,
        };
        let ghost before = out@;
        if idle && !inside {
            assert(!before.contains(c)) by {
                if before.contains(c) {
                    let j = choose|j: int|
                        0 <= j < i && (#[trigger] table@[j]).coord == c && needs_unload(
                            table@,
                            reference,
                            horizontal as int,
                            vertical as int,
                            c,
                        );
                    assert(table@[j].coord == table@[i as int].coord);
                }
            }
            out.push(c);
        }
        assert forall|d: ChunkCoordinate| out@.contains(d) <==> exists|j: int|
            0 <= j < i + 1 && (#[trigger] table@[j]).coord == d && needs_unload(
                table@,
                reference,
                horizontal as int,
                vertical as int,
                d,
            ) by {
            if out@.contains(d) && !before.contains(d) {
                assert(d == c);
                assert(table@[i as int].coord == d);
            }
            if d == c && needs_unload(table@, reference, horizontal as int, vertical as int, d) {
                assert(out@.last() == c);
            }
            if before.contains(d) {
                let k = choose|k: int| 0 <= k < before.len() && before[k] == d;
                assert(out@[k] == d);
            }
        }
        i += 1;
    }
    assert forall|c: ChunkCoordinate| needs_unload(
        table@,
        reference,
        horizontal as int,
        vertical as int,
        c,
    ) implies out@.contains(c) by {
        let j = choose|j: int| 0 <= j < table@.len() && (#[trigger] table@[j]).coord == c;
        assert(table@[j].coord == c);
    }
    out
}

/// One pass of the load manager around `reference`: an unload for every
/// tracked coordinate outside the desired box with no task in flight, and a
/// load for every coordinate of the box that is untracked or failed. With
/// nothing tracked, every coordinate of the box is loaded once:
/// `(2h + 1)² · (2v + 1)` loads.
pub fn plan_tick(reference: ChunkCoordinate, horizontal: u8, vertical: u8, table: &PipelineTable) -> (r:
    TickPlan)
    requires
        table.wf(),
        box_fits(reference, horizontal as int, vertical as int),
    ensures
        forall|c: ChunkCoordinate| r.loads@.contains(c) <==> in_desired(
            reference,
            horizontal as int,
            vertical as int,
            c,
        ) && needs_load(table@, c),
        r.loads@.no_duplicates(),
        forall|c: ChunkCoordinate| r.unloads@.contains(c) <==> needs_unload(
            table@,
            reference,
            horizontal as int,
            vertical as int,
            c,
        ),
        r.unloads@.no_duplicates(),
        table@.len() == 0 ==> r.loads@.len() == (2 * horizontal + 1) * (2 * horizontal + 1) * (2
            * vertical + 1),
{
    let unloads = unloads_of(reference, horizontal, vertical, table);
    let loads = loads_of(reference, horizontal, vertical, table);
    TickPlan { loads, unloads }
}

fn loads_of(reference: ChunkCoordinate, horizontal: u8, vertical: u8, table: &PipelineTable) -> (r: Vec<
    ChunkCoordinate,
>)
    requires
        table.wf(),
        box_fits(reference, horizontal as int, vertical as int),
    ensures
        forall|c: ChunkCoordinate| r@.contains(c) <==> in_desired(
            reference,
            horizontal as int,
            vertical as int,
            c,
        ) && needs_load(table@, c),
        r@.no_duplicates(),
        table@.len() == 0 ==> r@.len() == (2 * horizontal + 1) * (2 * horizontal + 1) * (2 * vertical
            + 1),
{
    let h = horizontal as i64;
    let v = vertical as i64;
    let ghost hi = horizontal as int;
    let ghost vi = vertical as int;
    let ghost rx = reference.x as int;
    let ghost ry = reference.y as int;
    let ghost rz = reference.z as int;
    let mut out: Vec<ChunkCoordinate> = Vec::new();
    let mut dx: i64 = -h;
    assert((dx + hi) * (2 * hi + 1) * (2 * vi + 1) == 0) by (nonlinear_arith)
        requires
            dx + hi == 0,
    ;
    while dx <= h
        invariant
            h == hi,
            v == vi,
            hi == horizontal,
            vi == vertical,
            rx == reference.x,
            ry == reference.y,
            rz == reference.z,
            table.wf(),
            box_fits(reference, hi, vi),
            -hi <= dx <= hi + 1,
            out@.no_duplicates(),
            forall|c: ChunkCoordinate| out@.contains(c) <==> in_desired(reference, hi, vi, c)
                && needs_load(table@, c) && walked_before(c.x - rx, c.z - rz, c.y - ry, dx as int, -hi, -vi),
            table@.len() == 0 ==> out@.len() == (dx + hi) * (2 * hi + 1) * (2 * vi + 1),
        decreases hi + 1 - dx,
    {
        let mut dz: i64 = -h;
        assert((dz + hi) * (2 * vi + 1) == 0) by (nonlinear_arith)
            requires
                dz + hi == 0,
        ;
        while dz <= h
            invariant
                h == hi,
                v == vi,
                hi == horizontal,
                vi == vertical,
                rx == reference.x,
                ry == reference.y,
                rz == reference.z,
                table.wf(),
                box_fits(reference, hi, vi),
                -hi <= dx <= hi,
                -hi <= dz <= hi + 1,
                out@.no_duplicates(),
                forall|c: ChunkCoordinate| out@.contains(c) <==> in_desired(reference, hi, vi, c)
                    && needs_load(table@, c) && walked_before(
                    c.x - rx,
                    c.z - rz,
                    c.y - ry,
                    dx as int,
                    dz as int,
                    -vi,
                ),
                table@.len() == 0 ==> out@.len() == (dx + hi) * (2 * hi + 1) * (2 * vi + 1) + (dz + hi)
                    * (2 * vi + 1),
            decreases hi + 1 - dz,
        {
            let mut dy: i64 = -v;
            while dy <= v
                invariant
                    h == hi,
                    v == vi,
                    hi == horizontal,
                    vi == vertical,
                    rx == reference.x,
                    ry == reference.y,
                    rz == reference.z,
                    table.wf(),
                    box_fits(reference, hi, vi),
                    -hi <= dx <= hi,
                    -hi <= dz <= hi,
                    -vi <= dy <= vi + 1,
                    out@.no_duplicates(),
                    forall|c: ChunkCoordinate| out@.contains(c) <==> in_desired(reference, hi, vi, c)
                        && needs_load(table@, c) && walked_before(
                        c.x - rx,
                        c.z - rz,
                        c.y - ry,
                        dx as int,
                        dz as int,
                        dy as int,
                    ),
                    table@.len() == 0 ==> out@.len() == (dx + hi) * (2 * hi + 1) * (2 * vi + 1) + (dz
                        + hi) * (2 * vi + 1) + (dy + vi),
                decreases vi + 1 - dy,
            {
                let c = ChunkCoordinate {
                    x: (reference.x as i64 + dx) as i32,
                    y: (reference.y as i64 + dy) as i32,
                    z: (reference.z as i64 + dz) as i32,
                };
                let due = match table.phase_of(&c) {
                    None => true,
                    Some(Phase::Failed) => true,
                    Some(_) => false,
                };
                let ghost before = out@;
                if due {
                    assert(!before.contains(c));
                    out.push(c);
                }
                assert forall|d: ChunkCoordinate| out@.contains(d) <==> in_desired(reference, hi, vi, d)
                    && needs_load(table@, d) && walked_before(
                    d.x - rx,
                    d.z - rz,
                    d.y - ry,
                    dx as int,
                    dz as int,
                    dy + 1,
                ) by {
                    if before.contains(d) {
                        let k = choose|k: int| 0 <= k < before.len() && before[k] == d;
                        assert(out@[k] == d);
                    }
                    if out@.contains(d) && !before.contains(d) {
                        assert(d == c);
                    }
                    if d == c && due {
                        assert(out@.last() == c);
                    }
                }
                proof {
                    if table@.len() == 0 {
                        assert(phase_in(table@, c) is None);
                    }
                }
                dy += 1;
            }
            assert forall|d: ChunkCoordinate| in_desired(reference, hi, vi, d) implies (walked_before(
                d.x - rx,
                d.z - rz,
                d.y - ry,
                dx as int,
                dz as int,
                vi + 1,
            ) <==> walked_before(d.x - rx, d.z - rz, d.y - ry, dx as int, dz + 1, -vi)) by {}
            assert((dx + hi) * (2 * hi + 1) * (2 * vi + 1) + (dz + hi) * (2 * vi + 1) + (vi + 1 + vi)
                == (dx + hi) * (2 * hi + 1) * (2 * vi + 1) + (dz + 1 + hi) * (2 * vi + 1))
                by (nonlinear_arith);
            dz += 1;
        }
        assert forall|d: ChunkCoordinate| in_desired(reference, hi, vi, d) implies (walked_before(
            d.x - rx,
            d.z - rz,
            d.y - ry,
            dx as int,
            hi + 1,
            -vi,
        ) <==> walked_before(d.x - rx, d.z - rz, d.y - ry, dx + 1, -hi, -vi)) by {}
        assert((dx + hi) * (2 * hi + 1) * (2 * vi + 1) + (hi + 1 + hi) * (2 * vi + 1) == (dx + 1 + hi)
            * (2 * hi + 1) * (2 * vi + 1)) by (nonlinear_arith);
        dx += 1;
    }
    out
}

} // verus!
