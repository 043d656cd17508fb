use vstd::prelude::*;

use crate::block::Block;
use crate::chunky::{build_chunk_mesh, in_bounds, mesh_faces, Chunk, ChunkPos, Mesh, CHUNK_SIZE, CHUNK_VOLUME};
use crate::registry::BlockRegistry;

verus! {

/// Position of `pos` in `coords`, or -1 when absent (the last one when repeated).
pub open spec fn index_in(coords: Seq<ChunkPos>, pos: ChunkPos) -> int
    decreases coords.len(),
{
    if coords.len() == 0 {
        -1
    } else if coords.last() == pos {
        coords.len() - 1
    } else {
        index_in(coords.drop_last(), pos)
    }
}

/// The requested coordinates after asking for `new` on top of `requested`: each
/// coordinate not yet requested is appended once, in order.
pub open spec fn spawn_model(requested: Seq<ChunkPos>, new: Seq<ChunkPos>) -> Seq<ChunkPos>
    decreases new.len(),
{
    if new.len() == 0 {
        requested
    } else {
        let r = spawn_model(requested, new.drop_last());
        if r.contains(new.last()) {
            r
        } else {
            r.push(new.last())
        }
    }
}

/// The completion flags after a finished chunk at `pos` comes in: it is taken
/// only when `pos` was requested and is not complete yet.
pub open spec fn integrate_model(requested: Seq<ChunkPos>, done: Seq<bool>, pos: ChunkPos) -> Seq<bool> {
    let i = index_in(requested, pos);
    if i >= 0 && !done[i] {
        done.update(i, true)
    } else {
        done
    }
}

/// The completion flags after the finished chunks at `completions` come in, in order.
pub open spec fn drain_model(requested: Seq<ChunkPos>, done: Seq<bool>, completions: Seq<ChunkPos>) -> Seq<bool>
    decreases completions.len(),
{
    if completions.len() == 0 {
        done
    } else {
        integrate_model(requested, drain_model(requested, done, completions.drop_last()), completions.last())
    }
}

/// Tracks which chunk coordinates have been handed out for generation and holds
/// each finished chunk, on the owning thread. Entry `i` is coordinate
/// `coords[i]`, still in flight while `chunks[i]` is `None`.
pub struct ChunkScheduler {
    coords: Vec<ChunkPos>,
    chunks: Vec<Option<Chunk>>,
}

impl ChunkScheduler {
    /// Every coordinate requested so far, in order of request.
    pub closed spec fn requested(&self) -> Seq<ChunkPos> {
        self.coords@
    }

    /// For each requested coordinate, whether its chunk has been integrated.
    pub closed spec fn done(&self) -> Seq<bool> {
        self.chunks@.map_values(|c: Option<Chunk>| c is Some)
    }

    /// The chunk integrated for entry `i`.
    pub closed spec fn chunk(&self, i: int) -> Chunk {
        self.chunks@[i]->Some_0
    }

    /// Coordinates are requested once each, and each integrated chunk is
    /// well formed and sits at its entry's coordinate.
    pub open spec fn wf(&self) -> bool {
        &&& self.requested().no_duplicates()
        &&& self.done().len() == self.requested().len()
        &&& forall|i: int|
            0 <= i < self.requested().len() && #[trigger] self.done()[i] ==> {
                &&& self.chunk(i).wf()
                &&& self.chunk(i).spec_pos() == self.requested()[i]
            }
    }

    /// A scheduler with nothing requested.
    pub fn new() -> (r: ChunkScheduler)
        ensures
            r.wf(),
            r.requested() == Seq::<ChunkPos>::empty(),
            r.done() == Seq::<bool>::empty(),
    {
        let r = ChunkScheduler { coords: Vec::new(), chunks: Vec::new() };
        assert(r.done() =~= Seq::<bool>::empty());
        r
    }

    /// Requests the coordinates of `new`. Returns those the caller must start a
    /// generation task for: the ones not requested before, once each, in order.
    pub fn spawn(&mut self, new: &Vec<ChunkPos>) -> (r: Vec<ChunkPos>)
        requires
            old(self).wf(),
        ensures
            final(self).wf(),
            final(self).requested() == spawn_model(old(self).requested(), new@),
            r@ == final(self).requested().skip(old(self).requested().len() as int),
            final(self).done() == old(self).done() + Seq::new(r@.len(), |i: int| false),
            forall|i: int|
                0 <= i < old(self).requested().len() && #[trigger] old(self).done()[i]
                    ==> final(self).chunk(i) == old(self).chunk(i),
    {
        let ghost start = self.coords@.len();
        let ghost before = *self;
        let mut started: Vec<ChunkPos> = Vec::new();
        let mut k: usize = 0;
        while k < new.len()
            invariant
                k <= new@.len(),
                self.coords@ == spawn_model(before.requested(), new@.take(k as int)),
                self.coords@.no_duplicates(),
                self.chunks@.len() == self.coords@.len(),
                start == before.coords@.len(),
                start <= self.coords@.len(),
                started@ == self.coords@.skip(start as int),
                forall|i: int| 0 <= i < start ==> #[trigger] self.chunks@[i] == before.chunks@[i],
                forall|i: int| start <= i < self.chunks@.len() ==> #[trigger] self.chunks@[i] is None,
                before.wf(),
                self.coords@.take(start as int) == before.coords@,
            decreases new@.len() - k,
        {
            let c = new[k];
            assert(new@.take(k + 1).drop_last() =~= new@.take(k as int));
            let mut present = false;
            let mut j: usize = 0;
            while j < self.coords.len() && !present
                invariant
                    j <= self.coords@.len(),
                    present ==> self.coords@.contains(c),
                    !present ==> forall|i: int| 0 <= i < j ==> self.coords@[i] != c,
                decreases self.coords@.len() - j + if present { 0int } else { 1int },
            {
                if self.coords[j] == c {
                    assert(self.coords@[j as int] == c);
                    present = true;
                } else {
                    j += 1;
                }
            }
            if !present {
                let ghost prev = self.coords@;
                self.coords.push(c);
                self.chunks.push(None);
                started.push(c);
                assert(self.coords@.skip(start as int) =~= prev.skip(start as int).push(c));
                assert(self.coords@.take(start as int) =~= prev.take(start as int));
            }
            k += 1;
        }
        assert(new@.take(new@.len() as int) =~= new@);
        assert(self.done() =~= before.done() + Seq::new(started@.len(), |i: int| false));
        assert forall|i: int|
            0 <= i < self.requested().len() && #[trigger] self.done()[i] implies {
            &&& self.chunk(i).wf()
            &&& self.chunk(i).spec_pos() == self.requested()[i]
        } by {
            assert(i < start);
            assert(before.done()[i]);
            assert(self.coords@[i] == self.coords@.take(start as int)[i]);
        }
        started
    }

    /// Integrates a finished chunk. It is taken, and `true` returned, only when
    /// its coordinate was requested and has no chunk yet; otherwise nothing changes.
    pub fn integrate(&mut self, chunk: Chunk) -> (r: bool)
        requires
            old(self).wf(),
            chunk.wf(),
        ensures
            final(self).wf(),
            final(self).requested() == old(self).requested(),
            final(self).done() == integrate_model(old(self).requested(), old(self).done(), chunk.spec_pos()),
            r == (final(self).done() != old(self).done()),
            r ==> final(self).chunk(index_in(old(self).requested(), chunk.spec_pos())) == chunk,
            forall|i: int|
                0 <= i < old(self).requested().len() && #[trigger] old(self).done()[i]
                    ==> final(self).chunk(i) == old(self).chunk(i),
    {
        let pos = chunk.get_chunk_pos();
        let ghost before = *self;
        let mut j: usize = 0;
        let mut found = false;
        while j < self.coords.len() && !found
            invariant
                j <= self.coords@.len(),
                found ==> j < self.coords@.len() && self.coords@[j as int] == pos,
                !found ==> forall|i: int| 0 <= i < j ==> self.coords@[i] != pos,
            decreases self.coords@.len() - j + if found { 0int } else { 1int },
        {
            if self.coords[j] == pos {
                found = true;
            } else {
                j += 1;
            }
        }
        proof {
            lemma_index_in(self.coords@, pos);
        }
        if found && self.chunks[j].is_none() {
            self.chunks.set(j, Some(chunk));
            assert(self.done() =~= before.done().update(j as int, true));
            assert(self.done()[j as int] != before.done()[j as int]);
            true
        } else {
            false
        }
    }

    /// Number of requested coordinates whose chunk has not come in yet.
    pub fn pending_count(&self) -> (r: usize)
        requires
            self.wf(),
        ensures
            r == count_false(self.done()),
    {
        let mut n: usize = 0;
        let mut i: usize = 0;
        while i < self.chunks.len()
            invariant
                i <= self.chunks@.len(),
                n == count_false(self.done().take(i as int)),
                n <= i,
            decreases self.chunks@.len() - i,
        {
            assert(self.done().take(i + 1).drop_last() =~= self.done().take(i as int));
            if self.chunks[i].is_none() {
                n += 1;
            }
            i += 1;
        }
        assert(self.done().take(self.chunks@.len() as int) =~= self.done());
        n
    }

    /// The integrated chunk at `pos`, if it has come in.
    pub fn get_chunk(&self, pos: ChunkPos) -> (r: Option<&Chunk>)
        requires
            self.wf(),
        ensures
            r is Some <==> (index_in(self.requested(), pos) >= 0 && self.done()[index_in(
                self.requested(),
                pos,
            )]),
            r is Some ==> *r->Some_0 == self.chunk(index_in(self.requested(), pos)),
    {
        let mut j: usize = 0;
        while j < self.coords.len()
            invariant
                self.wf(),
                self.chunks@.len() == self.coords@.len(),
                j <= self.coords@.len(),
                forall|i: int| 0 <= i < j ==> self.coords@[i] != pos,
            decreases self.coords@.len() - j,
        {
            if self.coords[j] == pos {
                proof {
                    lemma_index_in(self.coords@, pos);
                }
                return match &self.chunks[j] {
                    Some(c) => Some(c),
                    None => None,
                };
            }
            j += 1;
        }
        proof {
            lemma_index_in(self.coords@, pos);
        }
        None
    }
}

/// Number of `false` entries in `s`.
pub open spec fn count_false(s: Seq<bool>) -> nat
    decreases s.len(),
{
    if s.len() == 0 {
        0
    } else if s.last() {
        count_false(s.drop_last())
    } else {
        count_false(s.drop_last()) + 1
    }
}

proof fn lemma_index_in(coords: Seq<ChunkPos>, pos: ChunkPos)
    requires
        coords.no_duplicates(),
    ensures
        index_in(coords, pos) >= 0 <==> coords.contains(pos),
        index_in(coords, pos) >= 0 ==> index_in(coords, pos) < coords.len() && coords[index_in(
            coords,
            pos,
        )] == pos,
        forall|i: int| 0 <= i < coords.len() && coords[i] == pos ==> index_in(coords, pos) == i,
    decreases coords.len(),
{
    if coords.len() > 0 {
        let rest = coords.drop_last();
        assert(rest.no_duplicates());
        lemma_index_in(rest, pos);
        if coords.last() != pos {
            if coords.contains(pos) {
                let i = choose|i: int| 0 <= i < coords.len() && coords[i] == pos;
                assert(rest[i] == pos);
            }
        }
    }
}

proof fn lemma_spawn_fresh(coords: Seq<ChunkPos>)
    requires
        coords.no_duplicates(),
    ensures
        spawn_model(Seq::empty(), coords) == coords,
    decreases coords.len(),
{
    if coords.len() > 0 {
        let rest = coords.drop_last();
        assert(rest.no_duplicates());
        lemma_spawn_fresh(rest);
        assert(!rest.contains(coords.last()));
        assert(rest.push(coords.last()) =~= coords);
    }
}

proof fn lemma_drain_flags(requested: Seq<ChunkPos>, completions: Seq<ChunkPos>)
    requires
        requested.no_duplicates(),
    ensures
        ({
            let done = drain_model(requested, Seq::new(requested.len(), |i: int| false), completions);
            &&& done.len() == requested.len()
            &&& forall|i: int|
                0 <= i < requested.len() ==> (#[trigger] done[i] <==> completions.contains(
                    requested[i],
                ))
        }),
    decreases completions.len(),
{
    let init = Seq::new(requested.len(), |i: int| false);
    if completions.len() > 0 {
        let rest = completions.drop_last();
        let last = completions.last();
        lemma_drain_flags(requested, rest);
        lemma_index_in(requested, last);
        let prev = drain_model(requested, init, rest);
        let done = drain_model(requested, init, completions);
        assert forall|i: int| 0 <= i < requested.len() implies (#[trigger] done[i]
            <==> completions.contains(requested[i])) by {
            if completions.contains(requested[i]) {
                let j = choose|j: int| 0 <= j < completions.len() && completions[j] == requested[i];
                if j < completions.len() - 1 {
                    assert(rest[j] == requested[i]);
                }
            }
            if rest.contains(requested[i]) {
                let j = choose|j: int| 0 <= j < rest.len() && rest[j] == requested[i];
                assert(completions[j] == requested[i]);
            }
            assert(completions[completions.len() - 1] == last);
        }
    }
}

/// Requesting `n` distinct coordinates from a fresh scheduler hands out exactly
/// those `n` coordinates; once a finished chunk for each has come in, in any
/// order and with any repeats, every one of the `n` entries is complete. Each
/// entry takes one chunk, so no coordinate is missing or doubled.
pub proof fn law_spawn_then_drain(coords: Seq<ChunkPos>, completions: Seq<ChunkPos>)
    requires
        coords.no_duplicates(),
        forall|i: int| 0 <= i < coords.len() ==> completions.contains(#[trigger] coords[i]),
    ensures
        spawn_model(Seq::empty(), coords) == coords,
        ({
            let done = drain_model(coords, Seq::new(coords.len(), |i: int| false), completions);
            &&& done.len() == coords.len()
            &&& forall|i: int| 0 <= i < coords.len() ==> #[trigger] done[i]
        }),
{
    lemma_spawn_fresh(coords);
    lemma_drain_flags(coords, completions);
}

/// Builds the chunk at `pos` from a height map and meshes it. `heights[16 * z + x]`
/// is the height of column `(x, z)`: the voxel at that height gets `block`, every
/// other voxel stays air, and a height outside the chunk leaves its column empty.
pub fn generate_chunk(pos: ChunkPos, heights: &Vec<usize>, block: &Block, registry: &BlockRegistry) -> (r: (
    Chunk,
    Mesh,
))
    requires
        heights@.len() == 256,
        registry.wf(),
    ensures
        r.0.wf(),
        r.0.spec_pos() == pos,
        forall|x: int, y: int, z: int|
            in_bounds(x, y, z) ==> #[trigger] r.0.block_view(x, y, z) == if y == heights@[16 * z
                + x] {
                Some(block.id@)
            } else {
                None
            },
        r.1.holds(r.0, *registry, mesh_faces(r.0, *registry, CHUNK_VOLUME as int)),
{
    let mut chunk = Chunk::new(pos);
    let mut col: usize = 0;
    while col < 256
        invariant
            col <= 256,
            heights@.len() == 256,
            chunk.wf(),
            chunk.spec_pos() == pos,
            forall|x: int, y: int, z: int|
                in_bounds(x, y, z) ==> #[trigger] chunk.block_view(x, y, z) == if 16 * z + x < col
                    && y == heights@[16 * z + x] {
                    Some(block.id@)
                } else {
                    None
                },
        decreases 256 - col,
    {
        let z = col / CHUNK_SIZE;
        let x = col % CHUNK_SIZE;
        assert(col == 16 * z + x);
        let ghost before = chunk;
        chunk.set_block(x, heights[col], z, Some(block.get_identifier()));
        assert forall|a: int, b: int, c: int| in_bounds(a, b, c) implies #[trigger] chunk.block_view(
            a,
            b,
            c,
        ) == if 16 * c + a < col + 1 && b == heights@[16 * c + a] {
            Some(block.id@)
        } else {
            None
        } by {
            assert(before.block_view(a, b, c) == if 16 * c + a < col && b == heights@[16 * c + a] {
                Some(block.id@)
            } else {
                None
            });
            if 16 * c + a == col {
                assert(a == x && c == z) by (nonlinear_arith)
                    requires
                        16 * c + a == 16 * z + x,
                        0 <= a < 16,
                        0 <= x < 16,
                ;
            }
        }
        col += 1;
    }
    let mesh = build_chunk_mesh(&chunk, registry);
    (chunk, mesh)
}

/// The chunk coordinates of the square `[min, max)` x `[min, max)` at height 0,
/// `z` outermost: entry `i` is `(min + i % w, 0, min + i / w)` with `w = max - min`.
/// An empty range gives no coordinate.
pub fn chunk_grid(min: i32, max: i32) -> (r: Vec<ChunkPos>)
    requires
        min < max ==> (max - min) * (max - min) <= usize::MAX,
    ensures
        min >= max ==> r@.len() == 0,
        min < max ==> r@.len() == (max - min) * (max - min),
        forall|i: int|
            0 <= i < r@.len() ==> #[trigger] r@[i] == (ChunkPos {
                x: (min + i % (max - min)) as i32,
                y: 0,
                z: (min + i / (max - min)) as i32,
            }),
{
    if min >= max {
        return Vec::new();
    }
    let w: usize = (max as i64 - min as i64) as usize;
    let n: usize = w * w;
    let mut r: Vec<ChunkPos> = Vec::new();
    let mut i: usize = 0;
    while i < n
        invariant
            w == max - min,
            n == w * w,
            i <= n,
            r@.len() == i,
            forall|k: int|
                0 <= k < i ==> #[trigger] r@[k] == (ChunkPos {
                    x: (min + k % (max - min)) as i32,
                    y: 0,
                    z: (min + k / (max - min)) as i32,
                }),
        decreases n - i,
    {
        assert(0 <= i % w < w && i / w < w) by (nonlinear_arith)
            requires
                i < w * w,
                w > 0,
        ;
        let x = (min as i64 + (i % w) as i64) as i32;
        let z = (min as i64 + (i / w) as i64) as i32;
        r.push(ChunkPos { x, y: 0, z });
        i += 1;
    }
    r
}

/// A spawn, at any point of a run, keeps every coordinate requested so far in
/// place, requests each coordinate of `new` exactly once overall, and adds nothing
/// else.
pub proof fn law_spawn_extends(requested: Seq<ChunkPos>, new: Seq<ChunkPos>)
    requires
        requested.no_duplicates(),
    ensures
        ({
            let r = spawn_model(requested, new);
            &&& r.no_duplicates()
            &&& r.len() >= requested.len()
            &&& r.take(requested.len() as int) == requested
            &&& forall|i: int| 0 <= i < new.len() ==> r.contains(#[trigger] new[i])
            &&& forall|c: ChunkPos| #[trigger] r.contains(c) ==> requested.contains(c) || new.contains(c)
        }),
    decreases new.len(),
{
    if new.len() > 0 {
        let rest = new.drop_last();
        let last = new.last();
        law_spawn_extends(requested, rest);
        let p = spawn_model(requested, rest);
        let r = spawn_model(requested, new);
        if !p.contains(last) {
            assert(r == p.push(last));
            assert(r.take(requested.len() as int) =~= p.take(requested.len() as int));
            assert(r[r.len() - 1] == last);
        }
        assert forall|i: int| 0 <= i < new.len() implies r.contains(#[trigger] new[i]) by {
            if i < new.len() - 1 {
                assert(rest[i] == new[i]);
                let j = choose|j: int| 0 <= j < p.len() && p[j] == rest[i];
                assert(r[j] == new[i]);
            } else if !p.contains(last) {
                assert(r[r.len() - 1] == new[i]);
            }
        }
        assert forall|c: ChunkPos| #[trigger] r.contains(c) implies requested.contains(c) || new.contains(
            c,
        ) by {
            let j = choose|j: int| 0 <= j < r.len() && r[j] == c;
            if j < p.len() {
                if !p.contains(last) {
                    assert(r[j] == p[j]);
                }
                assert(p[j] == c);
                assert(p.contains(c));
                if rest.contains(c) {
                    let k = choose|k: int| 0 <= k < rest.len() && rest[k] == c;
                    assert(new[k] == c);
                }
            } else {
                assert(new[new.len() - 1] == c);
            }
        }
    }
}

/// A finished chunk coming in at any point of a run marks the entry of its
/// coordinate done, if requested, and changes no other entry; an entry once done
/// stays done.
pub proof fn law_integrate_step(requested: Seq<ChunkPos>, done: Seq<bool>, pos: ChunkPos)
    requires
        requested.no_duplicates(),
        done.len() == requested.len(),
    ensures
        ({
            let d = integrate_model(requested, done, pos);
            &&& d.len() == done.len()
            &&& forall|i: int|
                0 <= i < done.len() ==> #[trigger] d[i] == (done[i] || requested[i] == pos)
        }),
{
    lemma_index_in(requested, pos);
}

/// The requested coordinates and completion flags after a run of `steps` from a
/// fresh scheduler. A step `(true, b)` requests the coordinates of `b`, as
/// `ChunkScheduler::spawn` does; a step `(false, b)` brings in a finished chunk for
/// each coordinate of `b`, in order, as `ChunkScheduler::integrate` does.
pub open spec fn run_model(steps: Seq<(bool, Seq<ChunkPos>)>) -> (Seq<ChunkPos>, Seq<bool>)
    decreases steps.len(),
{
    if steps.len() == 0 {
        (Seq::empty(), Seq::empty())
    } else {
        let prev = run_model(steps.drop_last());
        let s = steps.last();
        if s.0 {
            let r = spawn_model(prev.0, s.1);
            (r, prev.1 + Seq::new((r.len() - prev.0.len()) as nat, |i: int| false))
        } else {
            (prev.0, drain_model(prev.0, prev.1, s.1))
        }
    }
}

proof fn lemma_drain(requested: Seq<ChunkPos>, done: Seq<bool>, completions: Seq<ChunkPos>)
    requires
        requested.no_duplicates(),
        done.len() == requested.len(),
    ensures
        ({
            let d = drain_model(requested, done, completions);
            &&& d.len() == done.len()
            &&& forall|i: int|
                0 <= i < done.len() ==> #[trigger] d[i] == (done[i] || completions.contains(
                    requested[i],
                ))
        }),
    decreases completions.len(),
{
    if completions.len() > 0 {
        let rest = completions.drop_last();
        lemma_drain(requested, done, rest);
        let prev = drain_model(requested, done, rest);
        law_integrate_step(requested, prev, completions.last());
        let d = drain_model(requested, done, completions);
        assert forall|i: int| 0 <= i < done.len() implies #[trigger] d[i] == (done[i]
            || completions.contains(requested[i])) by {
            if rest.contains(requested[i]) {
                let j = choose|j: int| 0 <= j < rest.len() && rest[j] == requested[i];
                assert(completions[j] == requested[i]);
            }
            if completions.contains(requested[i]) {
                let j = choose|j: int| 0 <= j < completions.len() && completions[j] == requested[i];
                if j < rest.len() {
                    assert(rest[j] == requested[i]);
                }
            }
        }
    }
}

proof fn lemma_run(steps: Seq<(bool, Seq<ChunkPos>)>)
    ensures
        ({
            let (req, done) = run_model(steps);
            &&& req.no_duplicates()
            &&& done.len() == req.len()
            &&& forall|k: int, j: int|
                0 <= k < steps.len() && steps[k].0 && 0 <= j < steps[k].1.len() ==> req.contains(
                    #[trigger] steps[k].1[j],
                )
            &&& forall|c: ChunkPos|
                #[trigger] req.contains(c) ==> exists|k: int, j: int|
                    0 <= k < steps.len() && steps[k].0 && 0 <= j < steps[k].1.len()
                        && #[trigger] steps[k].1[j] == c
            &&& forall|i: int, k1: int, k2: int|
                0 <= i < req.len() && 0 <= k1 < k2 < steps.len() && steps[k1].0 && !steps[k2].0
                    && #[trigger] steps[k1].1.contains(req[i]) && #[trigger] steps[k2].1.contains(
                    req[i],
                ) ==> done[i]
        }),
    decreases steps.len(),
{
    if steps.len() > 0 {
        let p = steps.drop_last();
        lemma_run(p);
        let (req0, done0) = run_model(p);
        let (req, done) = run_model(steps);
        let n = steps.len() - 1;
        let b = steps[n].1;
        assert forall|k: int| 0 <= k < n implies steps[k] == p[k] by {}
        if steps[n].0 {
            law_spawn_extends(req0, b);
            assert forall|k: int, j: int|
                0 <= k < steps.len() && steps[k].0 && 0 <= j < steps[k].1.len() implies req.contains(
                #[trigger] steps[k].1[j],
            ) by {
                if k < n {
                    assert(p[k] == steps[k]);
                    assert(req0.contains(p[k].1[j]));
                    let t = choose|t: int| 0 <= t < req0.len() && req0[t] == p[k].1[j];
                    assert(req.take(req0.len() as int)[t] == req[t]);
                }
            }
            assert forall|c: ChunkPos| #[trigger] req.contains(c) implies exists|k: int, j: int|
                0 <= k < steps.len() && steps[k].0 && 0 <= j < steps[k].1.len()
                    && #[trigger] steps[k].1[j] == c by {
                if req0.contains(c) {
                    let (k, j) = choose|k: int, j: int|
                        0 <= k < p.len() && p[k].0 && 0 <= j < p[k].1.len() && #[trigger] p[k].1[j]
                            == c;
                    assert(steps[k] == p[k]);
                } else {
                    let j = choose|j: int| 0 <= j < b.len() && b[j] == c;
                    assert(steps[n].1[j] == c);
                }
            }
            assert forall|i: int, k1: int, k2: int|
                0 <= i < req.len() && 0 <= k1 < k2 < steps.len() && steps[k1].0 && !steps[k2].0
                    && #[trigger] steps[k1].1.contains(req[i]) && #[trigger] steps[k2].1.contains(
                    req[i],
                ) implies done[i] by {
                assert(k2 < n);
                assert(steps[k1] == p[k1] && steps[k2] == p[k2]);
                if i < req0.len() {
                    assert(req.take(req0.len() as int)[i] == req[i]);
                    assert(req0[i] == req[i]);
                } else {
                    let j = choose|j: int| 0 <= j < p[k1].1.len() && p[k1].1[j] == req[i];
                    assert(req0.contains(p[k1].1[j]));
                    let t = choose|t: int| 0 <= t < req0.len() && req0[t] == req[i];
                    assert(req.take(req0.len() as int)[t] == req[t]);
                    assert(req[t] == req[i]);
                }
            }
        } else {
            lemma_drain(req0, done0, b);
            assert forall|k: int, j: int|
                0 <= k < steps.len() && steps[k].0 && 0 <= j < steps[k].1.len() implies req.contains(
                #[trigger] steps[k].1[j],
            ) by {
                assert(k < n);
                assert(p[k] == steps[k]);
                assert(req0.contains(p[k].1[j]));
            }
            assert forall|c: ChunkPos| #[trigger] req.contains(c) implies exists|k: int, j: int|
                0 <= k < steps.len() && steps[k].0 && 0 <= j < steps[k].1.len()
                    && #[trigger] steps[k].1[j] == c by {
                assert(req0.contains(c));
                let (k, j) = choose|k: int, j: int|
                    0 <= k < p.len() && p[k].0 && 0 <= j < p[k].1.len() && #[trigger] p[k].1[j] == c;
                assert(steps[k] == p[k]);
            }
            assert forall|i: int, k1: int, k2: int|
                0 <= i < req.len() && 0 <= k1 < k2 < steps.len() && steps[k1].0 && !steps[k2].0
                    && #[trigger] steps[k1].1.contains(req[i]) && #[trigger] steps[k2].1.contains(
                    req[i],
                ) implies done[i] by {
                if k2 < n {
                    assert(steps[k1] == p[k1] && steps[k2] == p[k2]);
                    assert(done0[i]);
                }
            }
        }
    }
}

/// In any run of spawn batches and completion batches, interleaved in any order:
/// every coordinate requested is listed exactly once, nothing else is listed, and
/// when each requested coordinate gets a finished chunk in a completion batch
/// after a spawn batch that requested it, every entry ends complete. Each entry
/// takes one chunk, so the results are exactly the distinct requested
/// coordinates, none missing and none doubled.
pub proof fn law_run_completes(steps: Seq<(bool, Seq<ChunkPos>)>)
    requires
        forall|k1: int, j: int|
            0 <= k1 < steps.len() && steps[k1].0 && 0 <= j < steps[k1].1.len() ==> exists|k2: int|
                k1 < k2 < steps.len() && !steps[k2].0 && #[trigger] steps[k2].1.contains(
                    #[trigger] steps[k1].1[j],
                ),
    ensures
        ({
            let (req, done) = run_model(steps);
            &&& req.no_duplicates()
            &&& done.len() == req.len()
            &&& forall|i: int| 0 <= i < done.len() ==> #[trigger] done[i]
            &&& forall|k: int, j: int|
                0 <= k < steps.len() && steps[k].0 && 0 <= j < steps[k].1.len() ==> req.contains(
                    #[trigger] steps[k].1[j],
                )
            &&& forall|c: ChunkPos|
                #[trigger] req.contains(c) ==> exists|k: int, j: int|
                    0 <= k < steps.len() && steps[k].0 && 0 <= j < steps[k].1.len()
                        && #[trigger] steps[k].1[j] == c
        }),
{
    lemma_run(steps);
    let (req, done) = run_model(steps);
    assert forall|i: int| 0 <= i < done.len() implies #[trigger] done[i] by {
        assert(req.contains(req[i]));
        let (k1, j) = choose|k1: int, j: int|
            0 <= k1 < steps.len() && steps[k1].0 && 0 <= j < steps[k1].1.len() && #[trigger] steps[k1].1[j]
                == req[i];
        let k2 = choose|k2: int|
            k1 < k2 < steps.len() && !steps[k2].0 && #[trigger] steps[k2].1.contains(steps[k1].1[j]);
        assert(steps[k1].1.contains(req[i]));
    }
}

} // verus!
