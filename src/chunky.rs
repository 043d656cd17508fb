use vstd::prelude::*;
use vstd::set_lib::*;

use crate::block::{
    cull_neighbors, face_corners, face_corners_of, face_exposed, face_normal, face_normal_of,
    face_uvs, has_face, lemma_exposure_bits, Block, VoxelCullCode,
};
use crate::identifier::{id_text, Identifier};
use crate::registry::BlockRegistry;

verus! {

/// Side length of a chunk, in voxels.
pub const CHUNK_SIZE: usize = 16;

/// Number of voxels in a chunk.
pub const CHUNK_VOLUME: usize = 4096;

/// Shift of the `y` coordinate in a packed voxel index.
pub const BLOCK_Y_SHIFT: usize = 4;

/// Shift of the `z` coordinate in a packed voxel index.
pub const BLOCK_Z_SHIFT: usize = 8;

/// Whether `(x, y, z)` lies inside a chunk.
pub open spec fn in_bounds(x: int, y: int, z: int) -> bool {
    0 <= x < 16 && 0 <= y < 16 && 0 <= z < 16
}

/// The packed index of the local position `(x, y, z)`.
pub open spec fn index_of(x: int, y: int, z: int) -> int {
    x + 16 * y + 256 * z
}

/// A block type as seen by a chunk: its `(namespace, name)`.
pub type IdView = (Seq<char>, Seq<char>);

/// The view of an optional identifier.
pub open spec fn opt_id_view(o: Option<Identifier>) -> Option<IdView> {
    match o {
        Some(id) => Some(id@),
        None => None,
    }
}

/// Whether some voxel of `blocks` holds local id `v`.
pub open spec fn holds_local_id(blocks: Seq<u16>, v: int) -> bool {
    exists|i: int| 0 <= i < CHUNK_VOLUME && #[trigger] blocks[i] == v
}

/// Number of air (zero) entries in `s`.
pub open spec fn count_air(s: Seq<u16>) -> nat
    decreases s.len(),
{
    if s.len() == 0 {
        0
    } else if s.last() == 0 {
        count_air(s.drop_last()) + 1
    } else {
        count_air(s.drop_last())
    }
}

proof fn lemma_count_air_bound(s: Seq<u16>)
    ensures
        count_air(s) <= s.len(),
    decreases s.len(),
{
    if s.len() > 0 {
        lemma_count_air_bound(s.drop_last());
    }
}

proof fn lemma_count_air_update(s: Seq<u16>, i: int, v: u16)
    requires
        0 <= i < s.len(),
    ensures
        count_air(s.update(i, v)) + (if s[i] == 0 { 1int } else { 0 }) == count_air(s) + (if v == 0 {
            1int
        } else {
            0
        }),
    decreases s.len(),
{
    let t = s.update(i, v);
    if i == s.len() - 1 {
        assert(t.drop_last() =~= s.drop_last());
    } else {
        assert(t.drop_last() =~= s.drop_last().update(i, v));
        lemma_count_air_update(s.drop_last(), i, v);
    }
}

/// Packs a local position into a voxel index: `x | y << 4 | z << 8`.
pub fn pos_as_index(local_x: usize, local_y: usize, local_z: usize) -> (r: usize)
    requires
        in_bounds(local_x as int, local_y as int, local_z as int),
    ensures
        r == index_of(local_x as int, local_y as int, local_z as int),
        r < CHUNK_VOLUME,
{
    let r = local_x | local_y << BLOCK_Y_SHIFT | local_z << BLOCK_Z_SHIFT;
    assert(local_x | local_y << 4usize | local_z << 8usize == local_x + 16 * local_y + 256 * local_z)
        by (bit_vector)
        requires
            local_x < 16 && local_y < 16 && local_z < 16,
    ;
    r
}

/// Unpacks a voxel index into its local position `[x, y, z]`, keeping four bits
/// of each coordinate.
pub fn index_as_pos(index: usize) -> (r: [usize; 3])
    ensures
        r[0] == index % 16,
        r[1] == (index / 16) % 16,
        r[2] == (index / 256) % 16,
        in_bounds(r[0] as int, r[1] as int, r[2] as int),
        index < CHUNK_VOLUME ==> index_of(r[0] as int, r[1] as int, r[2] as int) == index,
{
    let block_x = index & 0xF;
    let block_y = (index >> BLOCK_Y_SHIFT) & 0xF;
    let block_z = (index >> BLOCK_Z_SHIFT) & 0xF;
    assert(index & 0xF == index % 16 && (index >> 4usize) & 0xF == (index / 16) % 16 && (index
        >> 8usize) & 0xF == (index / 256) % 16) by (bit_vector);
    proof {
        if index < CHUNK_VOLUME {
            lemma_index_round_trip(index as int);
            assert((index / 256) % 16 == index / 256);
        }
    }
    [block_x, block_y, block_z]
}

/// Position of a chunk in chunk space.
#[derive(Clone, Copy, Debug, PartialEq, Eq, Hash, Structural)]
pub struct ChunkPos {
    pub x: i32,
    pub y: i32,
    pub z: i32,
}

/// A cube of 16 x 16 x 16 voxels. Each voxel holds a local id: 0 is air, and
/// `k > 0` names the block type in palette slot `k - 1`. A freed slot is `None`.
pub struct Chunk {
    air_count: usize,
    chunk_pos: ChunkPos,
    ids: Vec<Option<Identifier>>,
    blocks: Vec<u16>,
}

impl Chunk {
    /// The chunk's position in chunk space.
    pub closed spec fn spec_pos(&self) -> ChunkPos {
        self.chunk_pos
    }

    /// The local id of every voxel, by packed index.
    pub closed spec fn local_ids(&self) -> Seq<u16> {
        self.blocks@
    }

    /// The palette: slot `k` holds the block type of local id `k + 1`.
    pub closed spec fn palette(&self) -> Seq<Option<IdView>> {
        self.ids@.map_values(|o: Option<Identifier>| opt_id_view(o))
    }

    /// The running count of air voxels.
    pub closed spec fn spec_air_count(&self) -> nat {
        self.air_count as nat
    }

    /// Whether some voxel holds local id `v`.
    pub open spec fn references(&self, v: int) -> bool {
        holds_local_id(self.local_ids(), v)
    }

    /// The chunk's invariant: every voxel resolves through the palette, a slot is
    /// in use exactly when some voxel refers to it, slots in use are distinct, the
    /// palette has at most one slot more than there are voxels, and the air count
    /// is exact.
    pub open spec fn wf(&self) -> bool {
        &&& self.local_ids().len() == CHUNK_VOLUME
        &&& self.palette().len() <= CHUNK_VOLUME + 1
        &&& forall|i: int|
            0 <= i < CHUNK_VOLUME && #[trigger] self.local_ids()[i] != 0 ==> {
                &&& self.local_ids()[i] <= self.palette().len()
                &&& self.palette()[self.local_ids()[i] - 1] is Some
            }
        &&& forall|k: int|
            0 <= k < self.palette().len() && #[trigger] self.palette()[k] is Some ==> self.references(
                k + 1,
            )
        &&& forall|k1: int, k2: int|
            0 <= k1 < self.palette().len() && 0 <= k2 < self.palette().len() && k1 != k2
                && #[trigger] self.palette()[k1] is Some && #[trigger] self.palette()[k2] is Some
                ==> self.palette()[k1] != self.palette()[k2]
        &&& self.spec_air_count() == count_air(self.local_ids())
    }

    /// The local id at `(x, y, z)`, 0 outside the chunk.
    pub open spec fn local_id_at(&self, x: int, y: int, z: int) -> u16 {
        if in_bounds(x, y, z) {
            self.local_ids()[index_of(x, y, z)]
        } else {
            0
        }
    }

    /// The block type at `(x, y, z)`: `None` for air or outside the chunk.
    pub open spec fn block_view(&self, x: int, y: int, z: int) -> Option<IdView> {
        let v = self.local_id_at(x, y, z);
        if v == 0 {
            None
        } else {
            self.palette()[v - 1]
        }
    }

    /// Whether `(x, y, z)` is inside the chunk and not air.
    pub open spec fn solid(&self, x: int, y: int, z: int) -> bool {
        self.local_id_at(x, y, z) != 0
    }

    /// What `set_block(x, y, z, block)` does, taking `self` to `next` and returning `r`.
    pub open spec fn set_block_post(
        &self,
        next: Chunk,
        x: int,
        y: int,
        z: int,
        block: Option<IdView>,
        r: bool,
    ) -> bool {
        &&& next.wf()
        &&& r == in_bounds(x, y, z)
        &&& next.spec_pos() == self.spec_pos()
        &&& !r ==> next == *self
        &&& forall|a: int, b: int, c: int|
            in_bounds(a, b, c) ==> #[trigger] next.block_view(a, b, c) == if r && a == x && b == y
                && c == z {
                block
            } else {
                self.block_view(a, b, c)
            }
        &&& next.palette().len() <= self.palette().len() + 1
        &&& next.palette().len() > self.palette().len() ==> forall|k: int|
            0 <= k < self.palette().len() ==> #[trigger] self.palette()[k] is Some
        &&& r && block is None ==> next.palette().len() == self.palette().len()
        &&& r ==> {
            let i = index_of(x, y, z);
            let v = self.local_ids()[i];
            match block {
                None => {
                    &&& next.local_ids() == self.local_ids().update(i, 0)
                    &&& next.palette() == release(self.palette(), next.local_ids(), v as int)
                },
                Some(b) => if v != 0 && self.palette()[v - 1] == Some(b) {
                    next == *self
                } else {
                    let k = slot_for(self.palette(), b);
                    &&& next.local_ids() == self.local_ids().update(i, (k + 1) as u16)
                    &&& next.palette() == release(
                        fill_slot(self.palette(), k, b),
                        next.local_ids(),
                        v as int,
                    )
                },
            }
        }
    }
}

/// The first slot of `p` equal to `x`, or `p.len()` when there is none.
pub open spec fn first_slot(p: Seq<Option<IdView>>, x: Option<IdView>) -> int
    decreases p.len(),
{
    if p.len() == 0 {
        0
    } else {
        let r = first_slot(p.drop_last(), x);
        if r < p.len() - 1 {
            r
        } else if p.last() == x {
            p.len() - 1
        } else {
            p.len() as int
        }
    }
}

/// The slot that block type `b` takes in palette `p`: the slot already holding
/// `b`, else the first free slot, else a new slot at the end.
pub open spec fn slot_for(p: Seq<Option<IdView>>, b: IdView) -> int {
    if first_slot(p, Some(b)) < p.len() {
        first_slot(p, Some(b))
    } else {
        first_slot(p, None)
    }
}

/// Palette `p` with block type `b` in slot `k`, appended when `k` is past the end.
pub open spec fn fill_slot(p: Seq<Option<IdView>>, k: int, b: IdView) -> Seq<Option<IdView>> {
    if k == p.len() {
        p.push(Some(b))
    } else {
        p.update(k, Some(b))
    }
}

/// Palette `p` once no voxel of `ids` may refer to local id `v` any more: slot
/// `v - 1` is freed when that is so.
pub open spec fn release(p: Seq<Option<IdView>>, ids: Seq<u16>, v: int) -> Seq<Option<IdView>> {
    if v != 0 && !holds_local_id(ids, v) {
        p.update(v - 1, None)
    } else {
        p
    }
}

proof fn lemma_first_slot(p: Seq<Option<IdView>>, x: Option<IdView>)
    ensures
        0 <= first_slot(p, x) <= p.len(),
        first_slot(p, x) < p.len() ==> p[first_slot(p, x)] == x,
        forall|j: int| 0 <= j < first_slot(p, x) ==> p[j] != x,
    decreases p.len(),
{
    if p.len() > 0 {
        let q = p.drop_last();
        lemma_first_slot(q, x);
        assert forall|j: int| 0 <= j < first_slot(p, x) implies p[j] != x by {
            if j < p.len() - 1 {
                assert(p[j] == q[j]);
            }
        }
    }
}

/// `k` is the first slot of `p` equal to `x`, or `p.len()` with no such slot.
proof fn lemma_first_slot_is(p: Seq<Option<IdView>>, x: Option<IdView>, k: int)
    requires
        0 <= k <= p.len(),
        k < p.len() ==> p[k] == x,
        forall|j: int| 0 <= j < k ==> p[j] != x,
    ensures
        first_slot(p, x) == k,
{
    lemma_first_slot(p, x);
}

/// When local ids `1..=n` all occur among the voxels, `n` is at most the number of voxels.
proof fn lemma_palette_bound(blocks: Seq<u16>, n: int)
    requires
        blocks.len() == CHUNK_VOLUME,
        0 <= n,
        forall|v: int| 1 <= v <= n ==> #[trigger] holds_local_id(blocks, v),
    ensures
        n <= CHUNK_VOLUME,
{
    let s = blocks.map_values(|b: u16| b as int);
    s.lemma_cardinality_of_set();
    lemma_int_range(1, n + 1);
    assert forall|v: int| #[trigger] set_int_range(1, n + 1).contains(v) implies s.to_set().contains(
        v,
    ) by {
        assert(holds_local_id(blocks, v));
        let i = choose|i: int| 0 <= i < CHUNK_VOLUME && #[trigger] blocks[i] == v;
        assert(s[i] == v);
    }
    lemma_len_subset(set_int_range(1, n + 1), s.to_set());
}

impl Chunk {
    /// An empty chunk at `pos`: all air, empty palette.
    pub fn new(pos: ChunkPos) -> (r: Chunk)
        ensures
            r.wf(),
            r.spec_pos() == pos,
            r.palette().len() == 0,
            r.spec_air_count() == CHUNK_VOLUME,
            forall|x: int, y: int, z: int| #[trigger] r.block_view(x, y, z) is None,
    {
        let mut blocks: Vec<u16> = Vec::new();
        let mut i: usize = 0;
        while i < CHUNK_VOLUME
            invariant
                i <= CHUNK_VOLUME,
                blocks@.len() == i,
                forall|k: int| 0 <= k < i ==> blocks@[k] == 0,
                count_air(blocks@) == i,
            decreases CHUNK_VOLUME - i,
        {
            let ghost prev = blocks@;
            blocks.push(0);
            assert(blocks@.drop_last() =~= prev);
            i += 1;
        }
        let r = Chunk { air_count: CHUNK_VOLUME, chunk_pos: pos, ids: Vec::new(), blocks };
        assert(r.palette() =~= Seq::empty());
        r
    }

    /// The chunk's position in chunk space.
    pub fn get_chunk_pos(&self) -> (r: ChunkPos)
        ensures
            r == self.spec_pos(),
    {
        self.chunk_pos
    }

    /// Number of air voxels.
    pub fn air_count(&self) -> (r: usize)
        ensures
            r == self.spec_air_count(),
    {
        self.air_count
    }

    /// Number of palette slots, free ones included.
    pub fn palette_len(&self) -> (r: usize)
        ensures
            r == self.palette().len(),
    {
        self.ids.len()
    }

    /// Whether every voxel is air.
    pub fn is_empty(&self) -> (r: bool)
        ensures
            r == (self.spec_air_count() == CHUNK_VOLUME),
    {
        self.air_count == CHUNK_VOLUME
    }

    /// The invariant, except that palette slot `v - 1` may be in use with no voxel
    /// referring to it.
    spec fn wf_but(&self, v: int) -> bool {
        &&& self.local_ids().len() == CHUNK_VOLUME
        &&& self.palette().len() <= CHUNK_VOLUME + 1
        &&& forall|i: int|
            0 <= i < CHUNK_VOLUME && #[trigger] self.local_ids()[i] != 0 ==> {
                &&& self.local_ids()[i] <= self.palette().len()
                &&& self.palette()[self.local_ids()[i] - 1] is Some
            }
        &&& forall|k: int|
            0 <= k < self.palette().len() && #[trigger] self.palette()[k] is Some && k + 1 != v
                ==> self.references(k + 1)
        &&& forall|k1: int, k2: int|
            0 <= k1 < self.palette().len() && 0 <= k2 < self.palette().len() && k1 != k2
                && #[trigger] self.palette()[k1] is Some && #[trigger] self.palette()[k2] is Some
                ==> self.palette()[k1] != self.palette()[k2]
        &&& self.spec_air_count() == count_air(self.local_ids())
    }

    /// Frees palette slot `v - 1` when no voxel refers to local id `v` any more.
    fn release_slot(&mut self, v: u16)
        requires
            old(self).wf_but(v as int),
            v != 0 ==> v - 1 < old(self).palette().len(),
        ensures
            final(self).wf(),
            final(self).spec_pos() == old(self).spec_pos(),
            final(self).local_ids() == old(self).local_ids(),
            final(self).palette() == release(old(self).palette(), old(self).local_ids(), v as int),
    {
        if v == 0 {
            return;
        }
        let mut found = false;
        let mut i: usize = 0;
        while i < CHUNK_VOLUME && !found
            invariant
                self.blocks@.len() == CHUNK_VOLUME,
                i <= CHUNK_VOLUME,
                !found ==> forall|k: int| 0 <= k < i ==> self.blocks@[k] != v,
                found ==> exists|k: int| 0 <= k < CHUNK_VOLUME && self.blocks@[k] == v,
            decreases CHUNK_VOLUME - i + if found { 0int } else { 1int },
        {
            if self.blocks[i] == v {
                found = true;
            } else {
                i += 1;
            }
        }
        let ghost before = *self;
        if !found {
            self.ids.set((v - 1) as usize, None);
            assert(self.palette() =~= before.palette().update(v - 1, None));
            assert forall|i: int|
                0 <= i < CHUNK_VOLUME && #[trigger] self.local_ids()[i] != 0 implies {
                &&& self.local_ids()[i] <= self.palette().len()
                &&& self.palette()[self.local_ids()[i] - 1] is Some
            } by {
                assert(before.local_ids()[i] != v);
            }
        } else {
            assert(holds_local_id(self.blocks@, v as int));
        }
    }

    /// The slot that block type `id` takes: see [`slot_for`].
    fn find_slot(&self, id: &Identifier) -> (k: usize)
        requires
            self.wf(),
        ensures
            k == slot_for(self.palette(), id@),
            k <= self.palette().len(),
    {
        let n = self.ids.len();
        let mut found: Option<usize> = None;
        let mut free: Option<usize> = None;
        let mut j: usize = 0;
        while j < n && found.is_none()
            invariant
                n == self.ids@.len(),
                n == self.palette().len(),
                j <= n,
                found is Some ==> {
                    let k = found->Some_0;
                    k == j && k < n && self.palette()[k as int] == Some(id@)
                },
                forall|t: int| 0 <= t < j ==> #[trigger] self.palette()[t] != Some(id@),
                free is Some ==> {
                    let f = free->Some_0;
                    &&& f < j
                    &&& self.palette()[f as int] is None
                    &&& forall|t: int| 0 <= t < f ==> #[trigger] self.palette()[t] is Some
                },
                free is None ==> forall|t: int| 0 <= t < j ==> #[trigger] self.palette()[t] is Some,
            decreases n - j + if found is None { 1int } else { 0int },
        {
            match &self.ids[j] {
                Some(e) => {
                    if *e == *id {
                        found = Some(j);
                    } else {
                        j += 1;
                    }
                },
                None => {
                    if free.is_none() {
                        free = Some(j);
                    }
                    j += 1;
                },
            }
        }
        match found {
            Some(k) => {
                proof {
                    lemma_first_slot_is(self.palette(), Some(id@), k as int);
                }
                k
            },
            None => {
                proof {
                    lemma_first_slot_is(self.palette(), Some(id@), n as int);
                }
                match free {
                    Some(f) => {
                        proof {
                            lemma_first_slot_is(self.palette(), None, f as int);
                        }
                        f
                    },
                    None => {
                        proof {
                            lemma_first_slot_is(self.palette(), None, n as int);
                        }
                        n
                    },
                }
            },
        }
    }

    /// Writes block type `block` (`Some`) or air (`None`) at local `(x, y, z)`.
    /// Returns `false`, changing nothing, when the position lies outside the chunk.
    /// A type already in the palette keeps its slot; a new one takes the first free
    /// slot, else a slot appended at the end. The slot of the type overwritten is
    /// freed when no voxel refers to it any more. Writing the type a voxel already
    /// holds changes nothing.
    #[verifier::rlimit(60)]
    pub fn set_block(&mut self, x: usize, y: usize, z: usize, block: Option<Identifier>) -> (r: bool)
        requires
            old(self).wf(),
        ensures
            old(self).set_block_post(*final(self), x as int, y as int, z as int, opt_id_view(block), r),
    {
        if !(x < CHUNK_SIZE && y < CHUNK_SIZE && z < CHUNK_SIZE) {
            return false;
        }
        let ghost before = *self;
        let idx = pos_as_index(x, y, z);
        let v = self.blocks[idx];
        proof {
            lemma_count_air_bound(self.blocks@);
        }
        match block {
            None => {
                if v != 0 {
                    proof {
                        lemma_count_air_update(self.blocks@, idx as int, 0);
                    }
                    self.blocks.set(idx, 0);
                    self.air_count = self.air_count + 1;
                    proof {
                        assert forall|k: int|
                            0 <= k < self.palette().len() && #[trigger] self.palette()[k] is Some && k
                                + 1 != v implies self.references(k + 1) by {
                            assert(before.palette()[k] is Some);
                            let i = choose|i: int|
                                0 <= i < CHUNK_VOLUME && #[trigger] before.local_ids()[i] == k + 1;
                            assert(self.blocks@[i] == k + 1);
                        }
                        assert forall|i: int|
                            0 <= i < CHUNK_VOLUME && #[trigger] self.local_ids()[i] != 0 implies {
                            &&& self.local_ids()[i] <= self.palette().len()
                            &&& self.palette()[self.local_ids()[i] - 1] is Some
                        } by {
                            assert(before.local_ids()[i] == self.local_ids()[i]);
                        }
                    }
                } else {
                    assert(self.blocks@.update(idx as int, 0) =~= self.blocks@);
                }
                let ghost cleared = *self;
                self.release_slot(v);
                proof {
                    self.lemma_block_views_kept(before, idx as int, v as int, cleared.palette());
                }
            },
            Some(id) => {
                if v != 0 {
                    let same = match &self.ids[(v - 1) as usize] {
                        Some(e) => *e == id,
                        None => false,
                    };
                    if same {
                        return true;
                    }
                }
                let ghost b = id@;
                let k = self.find_slot(&id);
                let n = self.ids.len();
                proof {
                    lemma_first_slot(before.palette(), Some(b));
                    lemma_first_slot(before.palette(), None);
                }
                if k == n {
                    proof {
                        assert forall|u: int| 1 <= u <= n implies #[trigger] holds_local_id(
                            before.local_ids(),
                            u,
                        ) by {
                            assert(before.palette()[u - 1] is Some);
                        }
                        lemma_palette_bound(before.local_ids(), n as int);
                    }
                    self.ids.push(Some(id));
                } else if self.ids[k].is_none() {
                    self.ids.set(k, Some(id));
                }
                assert(self.palette() =~= fill_slot(before.palette(), k as int, b));
                proof {
                    lemma_count_air_update(self.blocks@, idx as int, (k + 1) as u16);
                }
                self.blocks.set(idx, (k + 1) as u16);
                if v == 0 {
                    self.air_count = self.air_count - 1;
                }
                proof {
                    assert(self.palette()[k as int] == Some(b));
                    assert forall|j: int|
                        0 <= j < self.palette().len() && #[trigger] self.palette()[j] is Some && j + 1
                            != v implies self.references(j + 1) by {
                        if j == k {
                            assert(self.blocks@[idx as int] == j + 1);
                        } else {
                            assert(before.palette()[j] is Some);
                            let i = choose|i: int|
                                0 <= i < CHUNK_VOLUME && #[trigger] before.local_ids()[i] == j + 1;
                            assert(self.blocks@[i] == j + 1);
                        }
                    }
                    assert forall|i: int|
                        0 <= i < CHUNK_VOLUME && #[trigger] self.local_ids()[i] != 0 implies {
                        &&& self.local_ids()[i] <= self.palette().len()
                        &&& self.palette()[self.local_ids()[i] - 1] is Some
                    } by {
                        if i != idx {
                            let w = before.local_ids()[i];
                            assert(before.palette()[w - 1] is Some);
                        }
                    }
                    assert forall|k1: int, k2: int|
                        0 <= k1 < self.palette().len() && 0 <= k2 < self.palette().len() && k1 != k2
                            && #[trigger] self.palette()[k1] is Some && #[trigger] self.palette()[k2]
                            is Some implies self.palette()[k1] != self.palette()[k2] by {
                        if k1 != k && k2 != k {
                            assert(before.palette()[k1] is Some);
                            assert(before.palette()[k2] is Some);
                        } else if k1 == k {
                            assert(before.palette()[k2] is Some);
                        } else {
                            assert(before.palette()[k1] is Some);
                        }
                    }
                    if v != 0 {
                        assert(before.palette()[v - 1] is Some);
                    }
                }
                let ghost written = *self;
                self.release_slot(v);
                proof {
                    self.lemma_block_views_kept(before, idx as int, v as int, written.palette());
                }
            },
        }
        true
    }

    /// After voxel `idx` changed and slot `v - 1` was possibly freed, every other
    /// position shows the block type it showed in `before`.
    proof fn lemma_block_views_kept(
        &self,
        before: Chunk,
        idx: int,
        v: int,
        mid: Seq<Option<IdView>>,
    )
        requires
            before.wf(),
            self.wf(),
            0 <= idx < CHUNK_VOLUME,
            v == before.local_ids()[idx],
            forall|i: int| 0 <= i < CHUNK_VOLUME && i != idx ==> #[trigger] self.local_ids()[i]
                == before.local_ids()[i],
            self.palette() == release(mid, self.local_ids(), v),
            mid.len() >= before.palette().len(),
            forall|j: int|
                0 <= j < before.palette().len() && #[trigger] before.palette()[j] is Some ==> mid[j]
                    == before.palette()[j],
        ensures
            forall|a: int, b: int, c: int|
                in_bounds(a, b, c) && index_of(a, b, c) != idx ==> #[trigger] self.block_view(a, b, c)
                    == before.block_view(a, b, c),
    {
        assert forall|a: int, b: int, c: int|
            in_bounds(a, b, c) && index_of(a, b, c) != idx implies #[trigger] self.block_view(a, b, c)
            == before.block_view(a, b, c) by {
            let i = index_of(a, b, c);
            let w = before.local_ids()[i];
            if w != 0 {
                assert(before.palette()[w - 1] is Some);
                assert(self.local_ids()[i] == w);
                assert(holds_local_id(self.local_ids(), w as int));
            }
        }
    }
}

impl Chunk {
    /// Clears the voxel at local `(x, y, z)`; `false` when it lies outside the chunk.
    pub fn remove_block(&mut self, x: usize, y: usize, z: usize) -> (r: bool)
        requires
            old(self).wf(),
        ensures
            old(self).set_block_post(*final(self), x as int, y as int, z as int, None, r),
    {
        self.set_block(x, y, z, None)
    }

    /// The local id at `(x, y, z)`: 0 for air or outside the chunk.
    pub fn get_local_block_id(&self, x: usize, y: usize, z: usize) -> (r: u16)
        requires
            self.wf(),
        ensures
            r == self.local_id_at(x as int, y as int, z as int),
    {
        if x < CHUNK_SIZE && y < CHUNK_SIZE && z < CHUNK_SIZE {
            self.blocks[pos_as_index(x, y, z)]
        } else {
            0
        }
    }

    /// Whether the voxel at `(x, y, z)` is inside the chunk and not air.
    pub fn has_block_at(&self, x: usize, y: usize, z: usize) -> (r: bool)
        requires
            self.wf(),
        ensures
            r == self.solid(x as int, y as int, z as int),
    {
        self.get_local_block_id(x, y, z) > 0
    }

    /// Whether the voxel at `(x, y, z)` is inside the chunk and not air.
    pub fn is_solid(&self, x: usize, y: usize, z: usize) -> (r: bool)
        requires
            self.wf(),
        ensures
            r == self.solid(x as int, y as int, z as int),
    {
        self.has_block_at(x, y, z)
    }

    /// The block type at `(x, y, z)`: `None` for air or outside the chunk.
    pub fn block_at(&self, x: usize, y: usize, z: usize) -> (r: Option<Identifier>)
        requires
            self.wf(),
        ensures
            opt_id_view(r) == self.block_view(x as int, y as int, z as int),
    {
        let v = self.get_local_block_id(x, y, z);
        if v == 0 {
            None
        } else {
            match &self.ids[(v - 1) as usize] {
                Some(id) => Some(id.clone()),
                None => None,
            }
        }
    }

    /// The world position of local `(x, y, z)`: `chunk_pos * 16 + (x, y, z)`.
    pub fn local_to_world_pos(&self, x: usize, y: usize, z: usize) -> (r: [i64; 3])
        requires
            x < 0x4000_0000_0000_0000,
            y < 0x4000_0000_0000_0000,
            z < 0x4000_0000_0000_0000,
        ensures
            r[0] == self.spec_pos().x * 16 + x,
            r[1] == self.spec_pos().y * 16 + y,
            r[2] == self.spec_pos().z * 16 + z,
    {
        [
            self.chunk_pos.x as i64 * 16 + x as i64,
            self.chunk_pos.y as i64 * 16 + y as i64,
            self.chunk_pos.z as i64 * 16 + z as i64,
        ]
    }
}

/// Number of non-solid positions among the first `n` packed indices, each index
/// `i` standing for the position `(i % 16, i / 16 % 16, i / 256)`.
pub open spec fn non_solid_upto(c: Chunk, n: int) -> nat
    decreases n,
{
    if n <= 0 {
        0
    } else if c.solid((n - 1) % 16, ((n - 1) / 16) % 16, (n - 1) / 256) {
        non_solid_upto(c, n - 1)
    } else {
        non_solid_upto(c, n - 1) + 1
    }
}

proof fn lemma_index_round_trip(i: int)
    requires
        0 <= i < CHUNK_VOLUME,
    ensures
        in_bounds(i % 16, (i / 16) % 16, i / 256),
        index_of(i % 16, (i / 16) % 16, i / 256) == i,
{
    assert(index_of(i % 16, (i / 16) % 16, i / 256) == i) by (nonlinear_arith)
        requires
            0 <= i < 4096,
    ;
    assert(in_bounds(i % 16, (i / 16) % 16, i / 256)) by (nonlinear_arith)
        requires
            0 <= i < 4096,
    ;
}

proof fn lemma_air_prefix(c: Chunk, n: int)
    requires
        c.wf(),
        0 <= n <= CHUNK_VOLUME,
    ensures
        count_air(c.local_ids().take(n)) == non_solid_upto(c, n),
    decreases n,
{
    if n > 0 {
        lemma_air_prefix(c, n - 1);
        lemma_index_round_trip(n - 1);
        assert(c.local_ids().take(n).drop_last() =~= c.local_ids().take(n - 1));
    }
}

/// In a well-formed chunk a position is solid exactly when it holds a block type.
pub proof fn lemma_solid_iff_occupied(c: Chunk)
    requires
        c.wf(),
    ensures
        forall|x: int, y: int, z: int|
            in_bounds(x, y, z) ==> #[trigger] c.solid(x, y, z) == (c.block_view(x, y, z) is Some),
{
    assert forall|x: int, y: int, z: int| in_bounds(x, y, z) implies #[trigger] c.solid(x, y, z) == (
    c.block_view(x, y, z) is Some) by {
        let i = index_of(x, y, z);
        if c.local_ids()[i] != 0 {
            assert(c.palette()[c.local_ids()[i] - 1] is Some);
        }
    }
}

/// After writing block `id` at an in-bounds position, that position reads back
/// as `id` and is solid.
pub proof fn law_set_then_read(c0: Chunk, c1: Chunk, x: int, y: int, z: int, id: IdView, r: bool)
    requires
        c0.wf(),
        c0.set_block_post(c1, x, y, z, Some(id), r),
        in_bounds(x, y, z),
    ensures
        c1.block_view(x, y, z) == Some(id),
        c1.solid(x, y, z),
{
    assert(c1.block_view(x, y, z) == Some(id));
}

/// After clearing an in-bounds position, whatever it held, it reads back as air
/// and is not solid.
pub proof fn law_clear_then_read(c0: Chunk, c1: Chunk, x: int, y: int, z: int, r: bool)
    requires
        c0.wf(),
        c0.set_block_post(c1, x, y, z, None, r),
        in_bounds(x, y, z),
    ensures
        c1.block_view(x, y, z) is None,
        !c1.solid(x, y, z),
{
    assert(c1.local_ids()[index_of(x, y, z)] == 0);
}

/// In every well-formed chunk, and so after any sequence of writes starting from
/// `Chunk::new`, the air count is the number of non-solid positions, and the
/// chunk is empty exactly when no position is solid.
pub proof fn law_air_count(c: Chunk)
    requires
        c.wf(),
    ensures
        c.spec_air_count() == non_solid_upto(c, CHUNK_VOLUME as int),
        (c.spec_air_count() == CHUNK_VOLUME) <==> forall|x: int, y: int, z: int|
            in_bounds(x, y, z) ==> !#[trigger] c.solid(x, y, z),
{
    lemma_air_prefix(c, CHUNK_VOLUME as int);
    assert(c.local_ids().take(CHUNK_VOLUME as int) =~= c.local_ids());
    lemma_all_air(c.local_ids());
    if c.spec_air_count() == CHUNK_VOLUME {
        assert forall|x: int, y: int, z: int| in_bounds(x, y, z) implies !#[trigger] c.solid(x, y, z) by {
            assert(c.local_ids()[index_of(x, y, z)] == 0);
        }
    }
    if forall|x: int, y: int, z: int| in_bounds(x, y, z) ==> !#[trigger] c.solid(x, y, z) {
        assert forall|i: int| 0 <= i < CHUNK_VOLUME implies #[trigger] c.local_ids()[i] == 0 by {
            lemma_index_round_trip(i);
            assert(!c.solid(i % 16, (i / 16) % 16, i / 256));
        }
    }
}

proof fn lemma_all_air(s: Seq<u16>)
    ensures
        count_air(s) == s.len() <==> forall|i: int| 0 <= i < s.len() ==> #[trigger] s[i] == 0,
    decreases s.len(),
{
    if s.len() > 0 {
        lemma_all_air(s.drop_last());
        lemma_count_air_bound(s.drop_last());
        if forall|i: int| 0 <= i < s.len() ==> #[trigger] s[i] == 0 {
            assert forall|i: int| 0 <= i < s.len() - 1 implies #[trigger] s.drop_last()[i] == 0 by {
                assert(s[i] == 0);
            }
        }
        if count_air(s) == s.len() {
            assert forall|i: int| 0 <= i < s.len() implies #[trigger] s[i] == 0 by {
                if i < s.len() - 1 {
                    assert(s.drop_last()[i] == 0);
                }
            }
        }
    }
}

/// Placing a block type `a` absent from the chunk, removing it again, then
/// placing any block type `b` anywhere leaves the palette no longer than it was
/// right after `a` was placed: the slot `a` freed is reused before the palette grows.
pub proof fn law_palette_reuse(
    c0: Chunk,
    c1: Chunk,
    c2: Chunk,
    c3: Chunk,
    p: (int, int, int),
    q: (int, int, int),
    a: IdView,
    b: IdView,
    r1: bool,
    r2: bool,
    r3: bool,
)
    requires
        c0.wf(),
        in_bounds(p.0, p.1, p.2),
        forall|x: int, y: int, z: int| #[trigger] c0.block_view(x, y, z) != Some(a),
        c0.set_block_post(c1, p.0, p.1, p.2, Some(a), r1),
        c1.set_block_post(c2, p.0, p.1, p.2, None, r2),
        c2.set_block_post(c3, q.0, q.1, q.2, Some(b), r3),
    ensures
        c3.palette().len() <= c1.palette().len(),
{
    let ip = index_of(p.0, p.1, p.2);
    let v = c1.local_ids()[ip];
    assert(c1.block_view(p.0, p.1, p.2) == Some(a));
    assert(v != 0);
    assert forall|i: int| 0 <= i < CHUNK_VOLUME implies #[trigger] c2.local_ids()[i] != v by {
        if i != ip {
            lemma_index_round_trip(i);
            let (x, y, z) = (i % 16, (i / 16) % 16, i / 256);
            assert(c1.block_view(x, y, z) == c0.block_view(x, y, z));
            assert(c2.local_ids()[i] == c1.local_ids()[i]);
        }
    }
    assert(c2.palette()[v - 1] is None);
    if c3.palette().len() > c2.palette().len() {
        assert(c2.palette()[v - 1] is Some);
    }
}

/// Renderable geometry of a chunk: parallel per-vertex arrays and a triangle list.
/// Positions are voxel-corner coordinates in world space: the voxel at world
/// position `p` spans `p` to `p + 1` on each axis.
pub struct Mesh {
    pub positions: Vec<[i64; 3]>,
    pub normals: Vec<[i8; 3]>,
    pub uvs: Vec<[u32; 2]>,
    pub indices: Vec<u32>,
}

/// A face of a mesh: the local position of its voxel and its direction.
pub type FaceRef = ((int, int, int), VoxelCullCode);

/// The order in which a voxel's faces are emitted.
pub open spec fn face_order() -> Seq<VoxelCullCode> {
    seq![
        VoxelCullCode::U,
        VoxelCullCode::D,
        VoxelCullCode::R,
        VoxelCullCode::L,
        VoxelCullCode::F,
        VoxelCullCode::B,
    ]
}

/// The local position visited at step `t` of a mesh build: `z` outermost, then `x`, then `y`.
pub open spec fn visit_pos(t: int) -> (int, int, int) {
    ((t / 16) % 16, t % 16, t / 256)
}

/// The block type drawn at local `(x, y, z)`: the registered type of the voxel's
/// palette entry. `None` for air and for a type missing from the registry.
pub open spec fn drawn_block(c: Chunk, reg: BlockRegistry, x: int, y: int, z: int) -> Option<Block> {
    match c.block_view(x, y, z) {
        Some(id) => reg.lookup(id),
        None => None,
    }
}

/// The exposed faces among the first `k` directions of `face_order()` at `p`.
pub open spec fn exposed_upto(c: Chunk, p: (int, int, int), k: int) -> Seq<VoxelCullCode>
    decreases k,
{
    if k <= 0 {
        Seq::empty()
    } else if face_exposed(c, p.0, p.1, p.2, face_order()[k - 1]) {
        exposed_upto(c, p, k - 1).push(face_order()[k - 1])
    } else {
        exposed_upto(c, p, k - 1)
    }
}

/// The faces voxel `p` contributes to the mesh: its exposed faces when it is
/// drawn, none otherwise.
pub open spec fn voxel_faces(c: Chunk, reg: BlockRegistry, p: (int, int, int)) -> Seq<VoxelCullCode> {
    if drawn_block(c, reg, p.0, p.1, p.2) is Some {
        exposed_upto(c, p, 6)
    } else {
        Seq::empty()
    }
}

/// The directions `ds` as faces of voxel `p`.
pub open spec fn tag_faces(p: (int, int, int), ds: Seq<VoxelCullCode>) -> Seq<FaceRef> {
    ds.map_values(|d: VoxelCullCode| (p, d))
}

/// The faces of the first `n` visited voxels, in emission order.
pub open spec fn mesh_faces(c: Chunk, reg: BlockRegistry, n: int) -> Seq<FaceRef>
    decreases n,
{
    if n <= 0 {
        Seq::empty()
    } else {
        let p = visit_pos(n - 1);
        mesh_faces(c, reg, n - 1) + tag_faces(p, voxel_faces(c, reg, p))
    }
}

/// The index pattern of one quad: triangles `0, 1, 2` and `2, 3, 0`.
pub open spec fn quad_index(s: int) -> int {
    if s == 0 || s == 5 {
        0
    } else if s == 1 {
        1
    } else if s == 2 || s == 3 {
        2
    } else {
        3
    }
}

/// Corner `j` of face `f` of chunk `c`, in world coordinates.
pub open spec fn vertex_pos(c: Chunk, f: FaceRef, j: int) -> [i64; 3] {
    let o = face_corners(f.1)[j];
    [
        (c.spec_pos().x * 16 + f.0.0 + o[0]) as i64,
        (c.spec_pos().y * 16 + f.0.1 + o[1]) as i64,
        (c.spec_pos().z * 16 + f.0.2 + o[2]) as i64,
    ]
}

impl Mesh {
    /// The mesh holds exactly the quads of `faces`: four vertices and six indices
    /// each, in order, with the positions, normals and texture coordinates of
    /// each face of chunk `c` drawn with the block types of `reg`.
    pub open spec fn holds(&self, c: Chunk, reg: BlockRegistry, faces: Seq<FaceRef>) -> bool {
        &&& self.positions@.len() == 4 * faces.len()
        &&& self.normals@.len() == 4 * faces.len()
        &&& self.uvs@.len() == 4 * faces.len()
        &&& self.indices@.len() == 6 * faces.len()
        &&& forall|i: int|
            0 <= i < self.positions@.len() ==> #[trigger] self.positions@[i] == vertex_pos(
                c,
                faces[i / 4],
                i % 4,
            )
        &&& forall|i: int|
            0 <= i < self.normals@.len() ==> #[trigger] self.normals@[i] == face_normal(
                faces[i / 4].1,
            )
        &&& forall|i: int|
            0 <= i < self.uvs@.len() ==> #[trigger] self.uvs@[i] == face_uvs(
                drawn_block(c, reg, faces[i / 4].0.0, faces[i / 4].0.1, faces[i / 4].0.2)->Some_0,
                faces[i / 4].1,
            )[i % 4]
        &&& forall|i: int|
            0 <= i < self.indices@.len() ==> #[trigger] self.indices@[i] == 4 * (i / 6) + quad_index(
                i % 6,
            )
    }
}

/// The four corners of face `d` of the voxel whose low corner is `world`, in vertex order.
pub open spec fn quad_positions(world: [i64; 3], d: VoxelCullCode) -> Seq<[i64; 3]> {
    face_corners(d).map_values(
        |o: [i64; 3]|
            [(world[0] + o[0]) as i64, (world[1] + o[1]) as i64, (world[2] + o[2]) as i64],
    )
}

/// The six indices of a quad whose first vertex is `n`: triangles `n, n+1, n+2`
/// and `n+2, n+3, n`.
pub open spec fn quad_indices(n: int) -> Seq<u32> {
    seq![n as u32, (n + 1) as u32, (n + 2) as u32, (n + 2) as u32, (n + 3) as u32, n as u32]
}

/// Appends one quad for face `d` of the voxel whose low corner is `world`: four
/// positions, four copies of the face normal, the face's four texture
/// coordinates, and six indices over the four new vertices.
fn build_face(mesh: &mut Mesh, world: [i64; 3], d: VoxelCullCode, block: &Block)
    requires
        old(mesh).normals@.len() == old(mesh).positions@.len(),
        old(mesh).uvs@.len() == old(mesh).positions@.len(),
        old(mesh).positions@.len() + 3 <= u32::MAX,
        world[0] < i64::MAX,
        world[1] < i64::MAX,
        world[2] < i64::MAX,
    ensures
        final(mesh).positions@ == old(mesh).positions@ + quad_positions(world, d),
        final(mesh).normals@ == old(mesh).normals@ + Seq::new(4, |j: int| face_normal(d)),
        final(mesh).uvs@ == old(mesh).uvs@ + face_uvs(*block, d),
        final(mesh).indices@ == old(mesh).indices@ + quad_indices(old(mesh).positions@.len() as int),
{
    let n = mesh.positions.len();
    let ghost old_pos = mesh.positions@;
    let ghost old_nrm = mesh.normals@;
    let ghost old_uv = mesh.uvs@;
    let ghost old_idx = mesh.indices@;
    let corners = face_corners_of(d);
    let normal = face_normal_of(d);
    let uvs = block.get_uvs(d);
    let mut j: usize = 0;
    while j < 4
        invariant
            j <= 4,
            corners@ == face_corners(d),
            uvs@ == face_uvs(*block, d),
            normal == face_normal(d),
            world[0] < i64::MAX,
            world[1] < i64::MAX,
            world[2] < i64::MAX,
            mesh.positions@ == old_pos + quad_positions(world, d).take(j as int),
            mesh.normals@ == old_nrm + Seq::new(j as nat, |t: int| face_normal(d)),
            mesh.uvs@ == old_uv + uvs@.take(j as int),
            mesh.indices@ == old_idx,
        decreases 4 - j,
    {
        let o = corners[j];
        assert(0 <= o[0] <= 1 && 0 <= o[1] <= 1 && 0 <= o[2] <= 1);
        mesh.positions.push([world[0] + o[0], world[1] + o[1], world[2] + o[2]]);
        mesh.normals.push(normal);
        mesh.uvs.push(uvs[j]);
        assert(mesh.positions@ =~= old_pos + quad_positions(world, d).take(j + 1));
        assert(mesh.normals@ =~= old_nrm + Seq::new((j + 1) as nat, |t: int| face_normal(d)));
        assert(mesh.uvs@ =~= old_uv + uvs@.take(j + 1));
        j += 1;
    }
    assert(quad_positions(world, d).take(4) =~= quad_positions(world, d));
    assert(uvs@.take(4) =~= uvs@);
    let base = n as u32;
    mesh.indices.push(base);
    mesh.indices.push(base + 1);
    mesh.indices.push(base + 2);
    mesh.indices.push(base + 2);
    mesh.indices.push(base + 3);
    mesh.indices.push(base);
    assert(mesh.indices@ =~= old_idx + quad_indices(n as int));
}

/// Appending the quad of face `f` to a mesh that holds `faces` gives a mesh that
/// holds `faces.push(f)`.
proof fn lemma_holds_push(
    before: Mesh,
    after: Mesh,
    c: Chunk,
    reg: BlockRegistry,
    faces: Seq<FaceRef>,
    f: FaceRef,
    world: [i64; 3],
    block: Block,
)
    requires
        before.holds(c, reg, faces),
        faces.len() < 6 * CHUNK_VOLUME,
        in_bounds(f.0.0, f.0.1, f.0.2),
        drawn_block(c, reg, f.0.0, f.0.1, f.0.2) == Some(block),
        world[0] == c.spec_pos().x * 16 + f.0.0,
        world[1] == c.spec_pos().y * 16 + f.0.1,
        world[2] == c.spec_pos().z * 16 + f.0.2,
        after.positions@ == before.positions@ + quad_positions(world, f.1),
        after.normals@ == before.normals@ + Seq::new(4, |j: int| face_normal(f.1)),
        after.uvs@ == before.uvs@ + face_uvs(block, f.1),
        after.indices@ == before.indices@ + quad_indices(before.positions@.len() as int),
    ensures
        after.holds(c, reg, faces.push(f)),
{
    let n = before.positions@.len() as int;
    let nf = faces.push(f);
    assert forall|i: int| 0 <= i < after.positions@.len() implies #[trigger] after.positions@[i]
        == vertex_pos(c, nf[i / 4], i % 4) by {
        if i >= n {
            assert(i / 4 == faces.len());
            let o = face_corners(f.1)[i % 4];
            assert(0 <= o[0] <= 1 && 0 <= o[1] <= 1 && 0 <= o[2] <= 1);
        } else {
            assert(nf[i / 4] == faces[i / 4]);
            assert(after.positions@[i] == before.positions@[i]);
        }
    }
    assert forall|i: int| 0 <= i < after.normals@.len() implies #[trigger] after.normals@[i]
        == face_normal(nf[i / 4].1) by {
        if i >= n {
            assert(i / 4 == faces.len());
        } else {
            assert(nf[i / 4] == faces[i / 4]);
            assert(after.normals@[i] == before.normals@[i]);
        }
    }
    assert forall|i: int| 0 <= i < after.uvs@.len() implies #[trigger] after.uvs@[i] == face_uvs(
        drawn_block(c, reg, nf[i / 4].0.0, nf[i / 4].0.1, nf[i / 4].0.2)->Some_0,
        nf[i / 4].1,
    )[i % 4] by {
        if i >= n {
            assert(i / 4 == faces.len());
        } else {
            assert(nf[i / 4] == faces[i / 4]);
            assert(after.uvs@[i] == before.uvs@[i]);
        }
    }
    assert forall|i: int| 0 <= i < after.indices@.len() implies #[trigger] after.indices@[i] == 4 * (
    i / 6) + quad_index(i % 6) by {
        if i >= 6 * faces.len() {
            assert(i / 6 == faces.len());
        } else {
            assert(after.indices@[i] == before.indices@[i]);
        }
    }
}

proof fn lemma_visit_bounds(t: int)
    requires
        0 <= t < CHUNK_VOLUME,
    ensures
        in_bounds(visit_pos(t).0, visit_pos(t).1, visit_pos(t).2),
{
    assert(0 <= (t / 16) % 16 < 16 && 0 <= t % 16 < 16 && 0 <= t / 256 < 16) by (nonlinear_arith)
        requires
            0 <= t < 4096,
    ;
}

proof fn lemma_exposed_upto_len(c: Chunk, p: (int, int, int), k: int)
    requires
        0 <= k,
    ensures
        exposed_upto(c, p, k).len() <= k,
    decreases k,
{
    if k > 0 {
        lemma_exposed_upto_len(c, p, k - 1);
    }
}

/// Builds the mesh of `chunk`: visits every voxel (`z` outermost, then `x`, then
/// `y`), and for each solid voxel whose block type is registered emits one quad
/// per exposed face, in the order up, down, right, left, front, back. A voxel
/// whose type is missing from the registry contributes nothing.
pub fn build_chunk_mesh(chunk: &Chunk, registry: &BlockRegistry) -> (r: Mesh)
    requires
        chunk.wf(),
        registry.wf(),
    ensures
        r.holds(*chunk, *registry, mesh_faces(*chunk, *registry, CHUNK_VOLUME as int)),
{
    let mut mesh = Mesh {
        positions: Vec::new(),
        normals: Vec::new(),
        uvs: Vec::new(),
        indices: Vec::new(),
    };
    let order: [VoxelCullCode; 6] = [
        VoxelCullCode::U,
        VoxelCullCode::D,
        VoxelCullCode::R,
        VoxelCullCode::L,
        VoxelCullCode::F,
        VoxelCullCode::B,
    ];
    assert(order@ =~= face_order());
    let ghost c = *chunk;
    let ghost reg = *registry;
    let mut t: usize = 0;
    while t < CHUNK_VOLUME
        invariant
            t <= CHUNK_VOLUME,
            c == *chunk,
            reg == *registry,
            chunk.wf(),
            registry.wf(),
            order@ == face_order(),
            mesh.holds(c, reg, mesh_faces(c, reg, t as int)),
            mesh_faces(c, reg, t as int).len() <= 6 * t,
        decreases CHUNK_VOLUME - t,
    {
        let z = t / 256;
        let x = (t / 16) % 16;
        let y = t % 16;
        let ghost p = visit_pos(t as int);
        proof {
            lemma_visit_bounds(t as int);
        }
        let ghost before = mesh_faces(c, reg, t as int);
        let ghost mut faces: Seq<FaceRef> = before;
        let v = chunk.get_local_block_id(x, y, z);
        if v > 0 {
            if let Some(id) = &chunk.ids[(v - 1) as usize] {
                if let Some(block) = registry.get(id) {
                    assert(drawn_block(c, reg, x as int, y as int, z as int) == Some(*block));
                    let code = cull_neighbors(chunk, x, y, z);
                    let world = chunk.local_to_world_pos(x, y, z);
                    proof {
                        lemma_exposure_bits(c, x as int, y as int, z as int);
                        assert(exposed_upto(c, p, 0) =~= Seq::<VoxelCullCode>::empty());
                        assert(faces =~= before + tag_faces(p, exposed_upto(c, p, 0)));
                    }
                    let mut k: usize = 0;
                    while k < 6
                        invariant
                            k <= 6,
                            t < CHUNK_VOLUME,
                            in_bounds(x as int, y as int, z as int),
                            p == (x as int, y as int, z as int),
                            order@ == face_order(),
                            code == crate::block::exposure_code(c, x as int, y as int, z as int),
                            forall|d: VoxelCullCode|
                                #[trigger] has_face(code, d) == face_exposed(
                                    c,
                                    x as int,
                                    y as int,
                                    z as int,
                                    d,
                                ),
                            drawn_block(c, reg, x as int, y as int, z as int) == Some(*block),
                            world[0] == c.spec_pos().x * 16 + x,
                            world[1] == c.spec_pos().y * 16 + y,
                            world[2] == c.spec_pos().z * 16 + z,
                            before.len() <= 6 * t,
                            faces == before + tag_faces(p, exposed_upto(c, p, k as int)),
                            mesh.holds(c, reg, faces),
                        decreases 6 - k,
                    {
                        let d = order[k];
                        proof {
                            lemma_exposed_upto_len(c, p, k as int);
                        }
                        if code & d.mask() == d.mask() {
                            assert(has_face(code, d));
                            let ghost before_face = mesh;
                            build_face(&mut mesh, world, d, block);
                            proof {
                                lemma_holds_push(
                                    before_face,
                                    mesh,
                                    c,
                                    reg,
                                    faces,
                                    (p, d),
                                    world,
                                    *block,
                                );
                                faces = faces.push((p, d));
                                assert(exposed_upto(c, p, k + 1) == exposed_upto(c, p, k as int).push(d));
                                assert(faces =~= before + tag_faces(p, exposed_upto(c, p, k + 1)));
                            }
                        } else {
                            assert(!has_face(code, d));
                            assert(exposed_upto(c, p, k + 1) == exposed_upto(c, p, k as int));
                        }
                        k += 1;
                    }
                }
            }
        }
        proof {
            lemma_exposed_upto_len(c, p, 6);
            assert(mesh_faces(c, reg, t + 1) == before + tag_faces(p, voxel_faces(c, reg, p)));
            if drawn_block(c, reg, p.0, p.1, p.2) is None {
                assert(faces =~= before + tag_faces(p, voxel_faces(c, reg, p)));
            }
        }
        t += 1;
    }
    mesh
}

/// A mesh built from a chunk with `k` exposed faces of drawn voxels has `4k`
/// positions, normals and texture coordinates and `6k` indices; the six indices
/// of face `q` are `4q + [0, 1, 2, 2, 3, 0]`, two triangles over that face's own
/// four vertices.
pub proof fn law_mesh_counts(c: Chunk, reg: BlockRegistry, m: Mesh)
    requires
        c.wf(),
        m.holds(c, reg, mesh_faces(c, reg, CHUNK_VOLUME as int)),
    ensures
        ({
            let k = mesh_faces(c, reg, CHUNK_VOLUME as int).len();
            &&& m.positions@.len() == 4 * k
            &&& m.normals@.len() == 4 * k
            &&& m.uvs@.len() == 4 * k
            &&& m.indices@.len() == 6 * k
            &&& forall|q: int, s: int|
                0 <= q < k && 0 <= s < 6 ==> 4 * q <= #[trigger] m.indices@[6 * q + s] < 4 * q + 4
            &&& forall|q: int|
                0 <= q < k ==> {
                    &&& #[trigger] m.indices@[6 * q] == 4 * q
                    &&& m.indices@[6 * q + 1] == 4 * q + 1
                    &&& m.indices@[6 * q + 2] == 4 * q + 2
                    &&& m.indices@[6 * q + 3] == 4 * q + 2
                    &&& m.indices@[6 * q + 4] == 4 * q + 3
                    &&& m.indices@[6 * q + 5] == 4 * q
                }
        }),
{
    let k = mesh_faces(c, reg, CHUNK_VOLUME as int).len();
    assert forall|q: int, s: int| 0 <= q < k && 0 <= s < 6 implies 4 * q <= #[trigger] m.indices@[6
        * q + s] < 4 * q + 4 by {
        assert((6 * q + s) / 6 == q && (6 * q + s) % 6 == s) by (nonlinear_arith)
            requires
                0 <= s < 6,
        ;
    }
    assert forall|q: int| 0 <= q < k implies {
        &&& #[trigger] m.indices@[6 * q] == 4 * q
        &&& m.indices@[6 * q + 1] == 4 * q + 1
        &&& m.indices@[6 * q + 2] == 4 * q + 2
        &&& m.indices@[6 * q + 3] == 4 * q + 2
        &&& m.indices@[6 * q + 4] == 4 * q + 3
        &&& m.indices@[6 * q + 5] == 4 * q
    } by {
        assert forall|s: int| 0 <= s < 6 implies #[trigger] m.indices@[6 * q + s] == 4 * q
            + quad_index(s) by {
            assert((6 * q + s) / 6 == q && (6 * q + s) % 6 == s) by (nonlinear_arith)
                requires
                    0 <= s < 6,
            ;
        }
        assert(m.indices@[6 * q + 0] == 4 * q + quad_index(0));
        assert(m.indices@[6 * q + 1] == 4 * q + quad_index(1));
        assert(m.indices@[6 * q + 2] == 4 * q + quad_index(2));
        assert(m.indices@[6 * q + 3] == 4 * q + quad_index(3));
        assert(m.indices@[6 * q + 4] == 4 * q + quad_index(4));
        assert(m.indices@[6 * q + 5] == 4 * q + quad_index(5));
    }
}

impl Chunk {
    /// Writes the block type of `block` (`Some`) or air (`None`) at local `(x, y, z)`;
    /// `false`, changing nothing, outside the chunk.
    pub fn add_block(&mut self, x: usize, y: usize, z: usize, block: Option<Block>) -> (r: bool)
        requires
            old(self).wf(),
        ensures
            old(self).set_block_post(
                *final(self),
                x as int,
                y as int,
                z as int,
                match block {
                    Some(b) => Some(b.id@),
                    None => None,
                },
                r,
            ),
    {
        match block {
            Some(b) => self.set_block(x, y, z, Some(b.id)),
            None => self.set_block(x, y, z, None),
        }
    }

    /// The registered block type at `(x, y, z)`: `None` for air, outside the
    /// chunk, or when the type is missing from `registry`.
    pub fn get_block(&self, x: usize, y: usize, z: usize, registry: &BlockRegistry) -> (r: Option<Block>)
        requires
            self.wf(),
            registry.wf(),
        ensures
            r == drawn_block(*self, *registry, x as int, y as int, z as int),
            r is Some ==> id_text(r->Some_0.id@.0, r->Some_0.id@.1) == id_text(
                self.block_view(x as int, y as int, z as int)->Some_0.0,
                self.block_view(x as int, y as int, z as int)->Some_0.1,
            ),
    {
        let v = self.get_local_block_id(x, y, z);
        if v == 0 {
            return None;
        }
        match &self.ids[(v - 1) as usize] {
            Some(id) => match registry.get(id) {
                Some(b) => Some(b.clone()),
                None => None,
            },
            None => None,
        }
    }
}

} // verus!
