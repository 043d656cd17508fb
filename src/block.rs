use vstd::prelude::*;

use crate::chunky::{in_bounds, Chunk, CHUNK_SIZE};
use crate::identifier::{parses_to, Identifier};

verus! {

/// The six faces of a block, for picking its textures.
#[derive(Clone, Copy, Debug, PartialEq, Eq, Structural)]
pub enum BlockFace {
    Top,
    Bottom,
    Left,
    Right,
    Front,
    Back,
}

/// A block type as declared in a definition file: its identifier text and texture
/// names. `texture`, when not empty, covers every face; an empty face texture
/// falls back to the identifier's name.
#[derive(Debug)]
pub struct BlockDefinition {
    pub id: String,
    pub texture: String,
    pub top_texture: String,
    pub bottom_texture: String,
    pub left_texture: String,
    pub right_texture: String,
    pub front_texture: String,
    pub back_texture: String,
}

/// The texture name a definition gives face `face` when its identifier's name is `name`.
pub open spec fn texture_name(def: BlockDefinition, face: BlockFace, name: Seq<char>) -> Seq<char> {
    let face_texture = match face {
        BlockFace::Top => def.top_texture@,
        BlockFace::Bottom => def.bottom_texture@,
        BlockFace::Left => def.left_texture@,
        BlockFace::Right => def.right_texture@,
        BlockFace::Front => def.front_texture@,
        BlockFace::Back => def.back_texture@,
    };
    if def.texture@.len() > 0 {
        def.texture@
    } else if face_texture.len() > 0 {
        face_texture
    } else {
        name
    }
}

/// The asset path of the texture named `texture`.
pub open spec fn texture_path(texture: Seq<char>) -> Seq<char> {
    "textures/block\\"@ + texture + ".png"@
}

impl BlockDefinition {
    /// The asset path of the texture for `block_face`, or `None` when the
    /// definition's identifier does not parse.
    pub fn get_texture_for_face(&self, block_face: BlockFace) -> (r: Option<String>)
        ensures
            r is Some <==> exists|id: Identifier| parses_to(self.id@, Ok(id)),
            forall|id: Identifier|
                parses_to(self.id@, Ok(id)) ==> r is Some && r->Some_0@ == texture_path(
                    texture_name(*self, block_face, id@.1),
                ),
    {
        match Identifier::from_str(self.id.as_str()) {
            Ok(id) => {
                let texture_face = match block_face {
                    BlockFace::Top => &self.top_texture,
                    BlockFace::Bottom => &self.bottom_texture,
                    BlockFace::Left => &self.left_texture,
                    BlockFace::Right => &self.right_texture,
                    BlockFace::Front => &self.front_texture,
                    BlockFace::Back => &self.back_texture,
                };
                let texture = if self.texture.unicode_len() > 0 {
                    self.texture.clone()
                } else if texture_face.unicode_len() > 0 {
                    texture_face.clone()
                } else {
                    id.get_name()
                };
                let mut path = String::from_str("textures/block\\");
                path.append(texture.as_str());
                path.append(".png");
                Some(path)
            },
            Err(_) => {
                proof {
                    assert forall|id: Identifier| !parses_to(self.id@, Ok(id)) by {}
                }
                None
            },
        }
    }
}

/// A rectangle of the block texture atlas, in atlas pixels.
#[derive(Clone, Copy, Debug, PartialEq, Eq, Structural)]
pub struct TextureCoords {
    pub bottom_left_x: u32,
    pub bottom_left_y: u32,
    pub top_right_x: u32,
    pub top_right_y: u32,
}

/// A registered block type: its identifier and the atlas rectangle of each face.
#[derive(Debug)]
pub struct Block {
    pub id: Identifier,
    pub texture_front: TextureCoords,
    pub texture_back: TextureCoords,
    pub texture_top: TextureCoords,
    pub texture_btm: TextureCoords,
    pub texture_left: TextureCoords,
    pub texture_right: TextureCoords,
}

impl Clone for Block {
    fn clone(&self) -> (r: Self)
        ensures
            r == *self,
    {
        Block {
            id: self.id.clone(),
            texture_front: self.texture_front,
            texture_back: self.texture_back,
            texture_top: self.texture_top,
            texture_btm: self.texture_btm,
            texture_left: self.texture_left,
            texture_right: self.texture_right,
        }
    }
}

/// The direction of one face of a voxel, with its bit in an exposure code.
/// `U` is +Y, `D` is -Y, `R` is -X, `L` is +X, `F` is -Z and `B` is +Z.
#[derive(Clone, Copy, Debug, PartialEq, Eq, Structural)]
pub enum VoxelCullCode {
    U,
    D,
    R,
    L,
    B,
    F,
}

/// The bit of direction `d` in an exposure code.
pub open spec fn face_mask(d: VoxelCullCode) -> u8 {
    match d {
        VoxelCullCode::U => 1,
        VoxelCullCode::D => 2,
        VoxelCullCode::R => 4,
        VoxelCullCode::L => 8,
        VoxelCullCode::B => 16,
        VoxelCullCode::F => 32,
    }
}

/// The unit step of direction `d`.
pub open spec fn face_step(d: VoxelCullCode) -> (int, int, int) {
    match d {
        VoxelCullCode::U => (0, 1, 0),
        VoxelCullCode::D => (0, -1, 0),
        VoxelCullCode::R => (-1, 0, 0),
        VoxelCullCode::L => (1, 0, 0),
        VoxelCullCode::B => (0, 0, 1),
        VoxelCullCode::F => (0, 0, -1),
    }
}

impl VoxelCullCode {
    /// The bit of this direction in an exposure code.
    pub fn mask(&self) -> (r: u8)
        ensures
            r == face_mask(*self),
    {
        match self {
            VoxelCullCode::U => 1,
            VoxelCullCode::D => 2,
            VoxelCullCode::R => 4,
            VoxelCullCode::L => 8,
            VoxelCullCode::B => 16,
            VoxelCullCode::F => 32,
        }
    }
}

/// Whether the face of voxel `(x, y, z)` in direction `d` must be drawn: its
/// neighbor lies outside the chunk, or is inside and not solid.
pub open spec fn face_exposed(c: Chunk, x: int, y: int, z: int, d: VoxelCullCode) -> bool {
    let s = face_step(d);
    let (nx, ny, nz) = (x + s.0, y + s.1, z + s.2);
    !in_bounds(nx, ny, nz) || !c.solid(nx, ny, nz)
}

/// `m` when `e` holds, else 0.
pub open spec fn bit_if(e: bool, m: u8) -> u8 {
    if e {
        m
    } else {
        0
    }
}

/// The exposure code of voxel `(x, y, z)`: the sum of the bits of its exposed faces.
pub open spec fn exposure_code(c: Chunk, x: int, y: int, z: int) -> u8 {
    (bit_if(face_exposed(c, x, y, z, VoxelCullCode::U), 1) + bit_if(
        face_exposed(c, x, y, z, VoxelCullCode::D),
        2,
    ) + bit_if(face_exposed(c, x, y, z, VoxelCullCode::R), 4) + bit_if(
        face_exposed(c, x, y, z, VoxelCullCode::L),
        8,
    ) + bit_if(face_exposed(c, x, y, z, VoxelCullCode::B), 16) + bit_if(
        face_exposed(c, x, y, z, VoxelCullCode::F),
        32,
    )) as u8
}

/// Whether `code` has the bit of direction `d` set.
pub open spec fn has_face(code: u8, d: VoxelCullCode) -> bool {
    code & face_mask(d) == face_mask(d)
}

/// Each bit of an exposure code is set exactly when its face is exposed.
pub proof fn lemma_exposure_bits(c: Chunk, x: int, y: int, z: int)
    ensures
        exposure_code(c, x, y, z) < 64,
        forall|d: VoxelCullCode|
            #[trigger] has_face(exposure_code(c, x, y, z), d) == face_exposed(c, x, y, z, d),
{
    let u = bit_if(face_exposed(c, x, y, z, VoxelCullCode::U), 1);
    let dn = bit_if(face_exposed(c, x, y, z, VoxelCullCode::D), 2);
    let r = bit_if(face_exposed(c, x, y, z, VoxelCullCode::R), 4);
    let l = bit_if(face_exposed(c, x, y, z, VoxelCullCode::L), 8);
    let b = bit_if(face_exposed(c, x, y, z, VoxelCullCode::B), 16);
    let f = bit_if(face_exposed(c, x, y, z, VoxelCullCode::F), 32);
    let code = exposure_code(c, x, y, z);
    assert(code == (u + dn + r + l + b + f) as u8);
    assert({
        &&& (code & 1 == 1) == (u == 1)
        &&& (code & 2 == 2) == (dn == 2)
        &&& (code & 4 == 4) == (r == 4)
        &&& (code & 8 == 8) == (l == 8)
        &&& (code & 16 == 16) == (b == 16)
        &&& (code & 32 == 32) == (f == 32)
        &&& code < 64
    }) by (bit_vector)
        requires
            u == 0 || u == 1,
            dn == 0 || dn == 2,
            r == 0 || r == 4,
            l == 0 || l == 8,
            b == 0 || b == 16,
            f == 0 || f == 32,
            code == (u + dn + r + l + b + f) as u8,
    ;
}

/// The exposure code of the solid voxel at `(x, y, z)`: one bit per face that is
/// not hidden by a solid neighbor in the same chunk. Faces on the chunk's border
/// are always exposed.
pub fn cull_neighbors(chunk: &Chunk, x: usize, y: usize, z: usize) -> (r: u8)
    requires
        chunk.wf(),
        in_bounds(x as int, y as int, z as int),
    ensures
        r == exposure_code(*chunk, x as int, y as int, z as int),
{
    let u: u8 = if y < CHUNK_SIZE - 1 && chunk.has_block_at(x, y + 1, z) {
        0
    } else {
        1
    };
    let d: u8 = if y > 0 && chunk.has_block_at(x, y - 1, z) {
        0
    } else {
        2
    };
    let r: u8 = if x > 0 && chunk.has_block_at(x - 1, y, z) {
        0
    } else {
        4
    };
    let l: u8 = if x < CHUNK_SIZE - 1 && chunk.has_block_at(x + 1, y, z) {
        0
    } else {
        8
    };
    let b: u8 = if z < CHUNK_SIZE - 1 && chunk.has_block_at(x, y, z + 1) {
        0
    } else {
        16
    };
    let f: u8 = if z > 0 && chunk.has_block_at(x, y, z - 1) {
        0
    } else {
        32
    };
    let code = u | d | r | l | b | f;
    assert(u | d | r | l | b | f == u + d + r + l + b + f) by (bit_vector)
        requires
            u == 0 || u == 1,
            d == 0 || d == 2,
            r == 0 || r == 4,
            l == 0 || l == 8,
            b == 0 || b == 16,
            f == 0 || f == 32,
    ;
    code
}

/// The atlas rectangle of face `d` of block type `b`.
pub open spec fn face_texture(b: Block, d: VoxelCullCode) -> TextureCoords {
    match d {
        VoxelCullCode::U => b.texture_top,
        VoxelCullCode::D => b.texture_btm,
        VoxelCullCode::R => b.texture_right,
        VoxelCullCode::L => b.texture_left,
        VoxelCullCode::B => b.texture_back,
        VoxelCullCode::F => b.texture_front,
    }
}

/// A corner of rectangle `t`: its right edge when `max_x`, its top edge when `max_y`.
pub open spec fn uv_corner(t: TextureCoords, max_x: bool, max_y: bool) -> [u32; 2] {
    [
        if max_x {
            t.top_right_x
        } else {
            t.bottom_left_x
        },
        if max_y {
            t.top_right_y
        } else {
            t.bottom_left_y
        },
    ]
}

/// The texture coordinates of the four vertices of face `d`, in vertex order.
/// Each face walks the corners of its rectangle in its own order, matching the
/// winding of its vertices.
pub open spec fn face_uvs(b: Block, d: VoxelCullCode) -> Seq<[u32; 2]> {
    let t = face_texture(b, d);
    match d {
        VoxelCullCode::U | VoxelCullCode::R => seq![
            uv_corner(t, false, false),
            uv_corner(t, true, false),
            uv_corner(t, true, true),
            uv_corner(t, false, true),
        ],
        VoxelCullCode::B => seq![
            uv_corner(t, true, true),
            uv_corner(t, false, true),
            uv_corner(t, false, false),
            uv_corner(t, true, false),
        ],
        _ => seq![
            uv_corner(t, true, false),
            uv_corner(t, false, false),
            uv_corner(t, false, true),
            uv_corner(t, true, true),
        ],
    }
}

/// The four corners of face `d` of the unit voxel whose low corner is the origin,
/// in vertex order.
pub open spec fn face_corners(d: VoxelCullCode) -> Seq<[i64; 3]> {
    match d {
        VoxelCullCode::U => seq![[1, 1, 0], [0, 1, 0], [0, 1, 1], [1, 1, 1]],
        VoxelCullCode::D => seq![[1, 0, 1], [0, 0, 1], [0, 0, 0], [1, 0, 0]],
        VoxelCullCode::R => seq![[0, 1, 1], [0, 1, 0], [0, 0, 0], [0, 0, 1]],
        VoxelCullCode::L => seq![[1, 1, 0], [1, 1, 1], [1, 0, 1], [1, 0, 0]],
        VoxelCullCode::F => seq![[0, 1, 0], [1, 1, 0], [1, 0, 0], [0, 0, 0]],
        VoxelCullCode::B => seq![[0, 0, 1], [1, 0, 1], [1, 1, 1], [0, 1, 1]],
    }
}

/// The unit normal of face `d`.
pub open spec fn face_normal(d: VoxelCullCode) -> [i8; 3] {
    match d {
        VoxelCullCode::U => [0, 1, 0],
        VoxelCullCode::D => [0, -1i8, 0],
        VoxelCullCode::R => [-1i8, 0, 0],
        VoxelCullCode::L => [1, 0, 0],
        VoxelCullCode::B => [0, 0, 1],
        VoxelCullCode::F => [0, 0, -1i8],
    }
}

fn uv_corner_of(t: &TextureCoords, max_x: bool, max_y: bool) -> (r: [u32; 2])
    ensures
        r == uv_corner(*t, max_x, max_y),
{
    [
        if max_x {
            t.top_right_x
        } else {
            t.bottom_left_x
        },
        if max_y {
            t.top_right_y
        } else {
            t.bottom_left_y
        },
    ]
}

impl Block {
    /// The identifier of this block type.
    pub fn get_identifier(&self) -> (r: Identifier)
        ensures
            r == self.id,
    {
        self.id.clone()
    }

    /// The texture coordinates of the four vertices of face `d`.
    pub fn get_uvs(&self, d: VoxelCullCode) -> (r: Vec<[u32; 2]>)
        ensures
            r@ == face_uvs(*self, d),
    {
        let t = match d {
            VoxelCullCode::U => &self.texture_top,
            VoxelCullCode::D => &self.texture_btm,
            VoxelCullCode::R => &self.texture_right,
            VoxelCullCode::L => &self.texture_left,
            VoxelCullCode::B => &self.texture_back,
            VoxelCullCode::F => &self.texture_front,
        };
        let (a, b, c, e) = match d {
            VoxelCullCode::U | VoxelCullCode::R => (
                uv_corner_of(t, false, false),
                uv_corner_of(t, true, false),
                uv_corner_of(t, true, true),
                uv_corner_of(t, false, true),
            ),
            VoxelCullCode::B => (
                uv_corner_of(t, true, true),
                uv_corner_of(t, false, true),
                uv_corner_of(t, false, false),
                uv_corner_of(t, true, false),
            ),
            _ => (
                uv_corner_of(t, true, false),
                uv_corner_of(t, false, false),
                uv_corner_of(t, false, true),
                uv_corner_of(t, true, true),
            ),
        };
        let mut uvs: Vec<[u32; 2]> = Vec::new();
        uvs.push(a);
        uvs.push(b);
        uvs.push(c);
        uvs.push(e);
        assert(uvs@ =~= face_uvs(*self, d));
        uvs
    }

    /// Texture coordinates of the top face.
    pub fn get_uvs_top(&self) -> (r: Vec<[u32; 2]>)
        ensures
            r@ == face_uvs(*self, VoxelCullCode::U),
    {
        self.get_uvs(VoxelCullCode::U)
    }

    /// Texture coordinates of the bottom face.
    pub fn get_uvs_bottom(&self) -> (r: Vec<[u32; 2]>)
        ensures
            r@ == face_uvs(*self, VoxelCullCode::D),
    {
        self.get_uvs(VoxelCullCode::D)
    }

    /// Texture coordinates of the left (+X) face.
    pub fn get_uvs_left(&self) -> (r: Vec<[u32; 2]>)
        ensures
            r@ == face_uvs(*self, VoxelCullCode::L),
    {
        self.get_uvs(VoxelCullCode::L)
    }

    /// Texture coordinates of the right (-X) face.
    pub fn get_uvs_right(&self) -> (r: Vec<[u32; 2]>)
        ensures
            r@ == face_uvs(*self, VoxelCullCode::R),
    {
        self.get_uvs(VoxelCullCode::R)
    }

    /// Texture coordinates of the front (-Z) face.
    pub fn get_uvs_front(&self) -> (r: Vec<[u32; 2]>)
        ensures
            r@ == face_uvs(*self, VoxelCullCode::F),
    {
        self.get_uvs(VoxelCullCode::F)
    }

    /// Texture coordinates of the back (+Z) face.
    pub fn get_uvs_back(&self) -> (r: Vec<[u32; 2]>)
        ensures
            r@ == face_uvs(*self, VoxelCullCode::B),
    {
        self.get_uvs(VoxelCullCode::B)
    }
}

/// The corners of face `d`, in vertex order.
pub fn face_corners_of(d: VoxelCullCode) -> (r: [[i64; 3]; 4])
    ensures
        r@ == face_corners(d),
{
    let r: [[i64; 3]; 4] = match d {
        VoxelCullCode::U => [[1, 1, 0], [0, 1, 0], [0, 1, 1], [1, 1, 1]],
        VoxelCullCode::D => [[1, 0, 1], [0, 0, 1], [0, 0, 0], [1, 0, 0]],
        VoxelCullCode::R => [[0, 1, 1], [0, 1, 0], [0, 0, 0], [0, 0, 1]],
        VoxelCullCode::L => [[1, 1, 0], [1, 1, 1], [1, 0, 1], [1, 0, 0]],
        VoxelCullCode::F => [[0, 1, 0], [1, 1, 0], [1, 0, 0], [0, 0, 0]],
        VoxelCullCode::B => [[0, 0, 1], [1, 0, 1], [1, 1, 1], [0, 1, 1]],
    };
    assert(r@ =~= face_corners(d));
    r
}

/// The unit normal of face `d`.
pub fn face_normal_of(d: VoxelCullCode) -> (r: [i8; 3])
    ensures
        r == face_normal(d),
{
    match d {
        VoxelCullCode::U => [0, 1, 0],
        VoxelCullCode::D => [0, -1, 0],
        VoxelCullCode::R => [-1, 0, 0],
        VoxelCullCode::L => [1, 0, 0],
        VoxelCullCode::B => [0, 0, 1],
        VoxelCullCode::F => [0, 0, -1],
    }
}

/// A solid voxel with no other solid voxel in its chunk has all six faces exposed.
pub proof fn law_lone_voxel_fully_exposed(c: Chunk, x: int, y: int, z: int)
    requires
        c.wf(),
        in_bounds(x, y, z),
        c.solid(x, y, z),
        forall|a: int, b: int, e: int| #[trigger] c.solid(a, b, e) ==> a == x && b == y && e == z,
    ensures
        exposure_code(c, x, y, z) == 63,
{
}

/// Two solid voxels stacked at `(x, 0, z)` and `(x, 1, z)`, alone in their chunk,
/// hide each other's shared face: the lower one lacks only its up bit, the upper
/// one only its down bit.
pub proof fn law_stacked_pair_culled(c: Chunk, x: int, z: int)
    requires
        c.wf(),
        in_bounds(x, 0, z),
        c.solid(x, 0, z),
        c.solid(x, 1, z),
        forall|a: int, b: int, e: int|
            #[trigger] c.solid(a, b, e) ==> a == x && e == z && (b == 0 || b == 1),
    ensures
        exposure_code(c, x, 0, z) == 62,
        exposure_code(c, x, 1, z) == 61,
        !has_face(exposure_code(c, x, 0, z), VoxelCullCode::U),
        !has_face(exposure_code(c, x, 1, z), VoxelCullCode::D),
{
    lemma_exposure_bits(c, x, 0, z);
    lemma_exposure_bits(c, x, 1, z);
}

/// A face whose neighbor position lies outside the chunk is always exposed,
/// whatever the neighboring chunk holds.
pub proof fn law_border_face_exposed(c: Chunk, x: int, y: int, z: int, d: VoxelCullCode)
    requires
        c.wf(),
        in_bounds(x, y, z),
        !in_bounds(x + face_step(d).0, y + face_step(d).1, z + face_step(d).2),
    ensures
        has_face(exposure_code(c, x, y, z), d),
{
    lemma_exposure_bits(c, x, y, z);
}

} // verus!
