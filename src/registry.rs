use vstd::prelude::*;

use crate::block::{texture_name, texture_path, Block, BlockDefinition, BlockFace, TextureCoords};
use crate::identifier::{id_text, parses_to, IdValidationError, Identifier};

verus! {

/// What an [`IdIndex`] holds: each key text with the slot stored under it.
pub uninterp spec fn index_entries(index: IdIndex) -> Map<Seq<char>, usize>;

/// A hash map from key text to a slot number, kept in a `hashbrown::HashMap`.
#[verifier::external_body]
pub struct IdIndex {
    map: hashbrown::HashMap<String, usize>,
}

impl IdIndex {
    /// Relies on `hashbrown::HashMap::new`: the new map holds no entry.
    #[verifier::external_body]
    fn new() -> (r: IdIndex)
        ensures
            index_entries(r).dom().is_empty(),
    {
        IdIndex { map: hashbrown::HashMap::new() }
    }

    /// Relies on `hashbrown::HashMap::insert`: afterwards `key` maps to `slot`,
    /// replacing any earlier slot, and every other key keeps its slot.
    #[verifier::external_body]
    fn insert(&mut self, key: String, slot: usize)
        ensures
            index_entries(*final(self)) == index_entries(*old(self)).insert(key@, slot),
    {
        self.map.insert(key, slot);
    }

    /// Relies on `hashbrown::HashMap::get`: the slot stored under `key`, if any.
    #[verifier::external_body]
    fn get(&self, key: &str) -> (r: Option<usize>)
        ensures
            r is Some <==> index_entries(*self).contains_key(key@),
            r is Some ==> r->Some_0 == index_entries(*self)[key@],
    {
        self.map.get(key).copied()
    }
}

/// The block types known to the game, keyed by identifier text. Filled once
/// before chunk generation starts, then only read.
pub struct BlockRegistry {
    index: IdIndex,
    blocks: Vec<Block>,
}

impl BlockRegistry {
    /// The registered block types, by identifier text.
    pub closed spec fn entries(&self) -> Map<Seq<char>, Block> {
        Map::new(
            |k: Seq<char>| index_entries(self.index).contains_key(k),
            |k: Seq<char>| self.blocks@[index_entries(self.index)[k] as int],
        )
    }

    /// Every key leads to a stored block type whose identifier text is that key.
    pub closed spec fn wf(&self) -> bool {
        forall|k: Seq<char>|
            #[trigger] index_entries(self.index).contains_key(k) ==> {
                &&& index_entries(self.index)[k] < self.blocks@.len()
                &&& id_text(self.blocks@[index_entries(self.index)[k] as int].id@.0,
                    self.blocks@[index_entries(self.index)[k] as int].id@.1) == k
            }
    }

    /// The block type registered under identifier `id`.
    pub open spec fn lookup(&self, id: (Seq<char>, Seq<char>)) -> Option<Block> {
        let k = id_text(id.0, id.1);
        if self.entries().contains_key(k) {
            Some(self.entries()[k])
        } else {
            None
        }
    }

    /// An empty registry.
    pub fn new() -> (r: BlockRegistry)
        ensures
            r.wf(),
            r.entries() == Map::<Seq<char>, Block>::empty(),
    {
        let r = BlockRegistry { index: IdIndex::new(), blocks: Vec::new() };
        assert(index_entries(r.index).dom() =~= Set::empty());
        assert(r.entries() =~= Map::<Seq<char>, Block>::empty());
        r
    }

    /// Registers `block` under its identifier text, replacing an earlier block
    /// type with the same text.
    pub fn register(&mut self, block: Block)
        requires
            old(self).wf(),
        ensures
            final(self).wf(),
            final(self).entries() == old(self).entries().insert(id_text(block.id@.0, block.id@.1), block),
    {
        let key = block.id.as_string();
        let ghost k = key@;
        match self.index.get(key.as_str()) {
            Some(slot) => {
                self.blocks.set(slot, block);
            },
            None => {
                let slot = self.blocks.len();
                self.blocks.push(block);
                self.index.insert(key, slot);
            },
        }
        assert(self.entries() =~= old(self).entries().insert(k, block));
    }

    /// The block type registered under `block_id`'s text, if any.
    pub fn get_by_string(&self, block_id: &str) -> (r: Option<&Block>)
        requires
            self.wf(),
        ensures
            r is Some <==> self.entries().contains_key(block_id@),
            r is Some ==> *r->Some_0 == self.entries()[block_id@],
            r is Some ==> id_text(r->Some_0.id@.0, r->Some_0.id@.1) == block_id@,
    {
        match self.index.get(block_id) {
            Some(slot) => Some(&self.blocks[slot]),
            None => None,
        }
    }

    /// The block type registered under identifier `block_id`, if any.
    pub fn get(&self, block_id: &Identifier) -> (r: Option<&Block>)
        requires
            self.wf(),
        ensures
            r is Some <==> self.lookup(block_id@) is Some,
            r is Some ==> Some(*r->Some_0) == self.lookup(block_id@),
            r is Some ==> id_text(r->Some_0.id@.0, r->Some_0.id@.1) == id_text(block_id@.0, block_id@.1),
    {
        let key = block_id.as_string();
        self.get_by_string(key.as_str())
    }
}

/// A copy of the block type registered under identifier `block_id`, if any.
pub fn get_block_from_registry(registry: &BlockRegistry, block_id: &Identifier) -> (r: Option<Block>)
    requires
        registry.wf(),
    ensures
        r == registry.lookup(block_id@),
        r is Some ==> id_text(r->Some_0.id@.0, r->Some_0.id@.1) == id_text(block_id@.0, block_id@.1),
{
    match registry.get(block_id) {
        Some(b) => Some(b.clone()),
        None => None,
    }
}

/// A copy of the block type registered under the identifier text `block_id`, if any.
pub fn get_block_from_registry_by_string(registry: &BlockRegistry, block_id: &str) -> (r: Option<
    Block,
>)
    requires
        registry.wf(),
    ensures
        r is Some <==> registry.entries().contains_key(block_id@),
        r is Some ==> r->Some_0 == registry.entries()[block_id@],
        r is Some ==> id_text(r->Some_0.id@.0, r->Some_0.id@.1) == block_id@,
{
    match registry.get_by_string(block_id) {
        Some(b) => Some(b.clone()),
        None => None,
    }
}

/// Atlas rectangles of block textures, keyed by texture asset path.
pub struct TextureRegistry {
    index: IdIndex,
    coords: Vec<TextureCoords>,
}

impl TextureRegistry {
    /// The registered rectangles, by texture path.
    pub closed spec fn entries(&self) -> Map<Seq<char>, TextureCoords> {
        Map::new(
            |k: Seq<char>| index_entries(self.index).contains_key(k),
            |k: Seq<char>| self.coords@[index_entries(self.index)[k] as int],
        )
    }

    /// Every key leads to a stored rectangle of its own.
    pub closed spec fn wf(&self) -> bool {
        &&& forall|k: Seq<char>|
            #[trigger] index_entries(self.index).contains_key(k) ==> index_entries(self.index)[k]
                < self.coords@.len()
        &&& forall|k1: Seq<char>, k2: Seq<char>|
            #[trigger] index_entries(self.index).contains_key(k1) && #[trigger] index_entries(
                self.index,
            ).contains_key(k2) && k1 != k2 ==> index_entries(self.index)[k1] != index_entries(
                self.index,
            )[k2]
    }

    /// An empty texture registry.
    pub fn new() -> (r: TextureRegistry)
        ensures
            r.wf(),
            r.entries() == Map::<Seq<char>, TextureCoords>::empty(),
    {
        let r = TextureRegistry { index: IdIndex::new(), coords: Vec::new() };
        assert(index_entries(r.index).dom() =~= Set::empty());
        assert(r.entries() =~= Map::<Seq<char>, TextureCoords>::empty());
        r
    }
}

/// Stores the atlas rectangle of the texture at `texture_path`, replacing an
/// earlier one.
pub fn register_block_texture_coords(
    registry: &mut TextureRegistry,
    texture_path: String,
    coords: TextureCoords,
)
    requires
        old(registry).wf(),
    ensures
        final(registry).wf(),
        final(registry).entries() == old(registry).entries().insert(texture_path@, coords),
{
    let ghost k = texture_path@;
    match registry.index.get(texture_path.as_str()) {
        Some(slot) => {
            registry.coords.set(slot, coords);
        },
        None => {
            let slot = registry.coords.len();
            registry.coords.push(coords);
            registry.index.insert(texture_path, slot);
        },
    }
    assert(registry.entries() =~= old(registry).entries().insert(k, coords));
}

/// The atlas rectangle stored for `texture_path`, if any.
pub fn get_block_texture_coords(registry: &TextureRegistry, texture_path: &str) -> (r: Option<
    TextureCoords,
>)
    requires
        registry.wf(),
    ensures
        r is Some <==> registry.entries().contains_key(texture_path@),
        r is Some ==> r->Some_0 == registry.entries()[texture_path@],
{
    match registry.index.get(texture_path) {
        Some(slot) => Some(registry.coords[slot]),
        None => None,
    }
}

/// Why a block definition could not be registered.
#[derive(Debug, Clone)]
pub enum RegisterError {
    /// The definition's identifier does not parse.
    InvalidId(IdValidationError),
    /// No atlas rectangle is registered for this texture path.
    MissingTexture(String),
}

/// The texture path a definition gives `face`, its identifier's name being `name`.
pub open spec fn face_path(def: BlockDefinition, face: BlockFace, name: Seq<char>) -> Seq<char> {
    texture_path(texture_name(def, face, name))
}

/// The faces in the order their textures are looked up.
pub open spec fn lookup_order() -> Seq<BlockFace> {
    seq![
        BlockFace::Top,
        BlockFace::Bottom,
        BlockFace::Left,
        BlockFace::Right,
        BlockFace::Front,
        BlockFace::Back,
    ]
}

proof fn lemma_lookup_order()
    ensures
        lookup_order()[0] == BlockFace::Top,
        lookup_order()[1] == BlockFace::Bottom,
        lookup_order()[2] == BlockFace::Left,
        lookup_order()[3] == BlockFace::Right,
        lookup_order()[4] == BlockFace::Front,
        lookup_order()[5] == BlockFace::Back,
{
}

/// Whether every face texture of `def` has a registered rectangle.
pub open spec fn all_textures_known(textures: TextureRegistry, def: BlockDefinition, name: Seq<char>) -> bool {
    forall|k: int|
        0 <= k < 6 ==> textures.entries().contains_key(
            face_path(def, #[trigger] lookup_order()[k], name),
        )
}

/// Whether `b` is the block type a definition yields once its identifier parsed
/// to `id`: that identifier, and the registered rectangle of each face texture.
pub open spec fn is_defined_block(
    b: Block,
    textures: TextureRegistry,
    def: BlockDefinition,
    id: (Seq<char>, Seq<char>),
) -> bool {
    let name = id.1;
    &&& b.id@ == id
    &&& b.texture_top == textures.entries()[face_path(def, BlockFace::Top, name)]
    &&& b.texture_btm == textures.entries()[face_path(def, BlockFace::Bottom, name)]
    &&& b.texture_left == textures.entries()[face_path(def, BlockFace::Left, name)]
    &&& b.texture_right == textures.entries()[face_path(def, BlockFace::Right, name)]
    &&& b.texture_front == textures.entries()[face_path(def, BlockFace::Front, name)]
    &&& b.texture_back == textures.entries()[face_path(def, BlockFace::Back, name)]
}

/// The atlas rectangle of `face` of `def`, whose identifier parsed to `id`.
fn face_coords(textures: &TextureRegistry, def: &BlockDefinition, face: BlockFace, Ghost(id): Ghost<
    Identifier,
>) -> (r: Result<TextureCoords, RegisterError>)
    requires
        textures.wf(),
        parses_to(def.id@, Ok(id)),
    ensures
        r is Ok <==> textures.entries().contains_key(face_path(*def, face, id@.1)),
        r is Ok ==> r->Ok_0 == textures.entries()[face_path(*def, face, id@.1)],
        r is Err ==> r->Err_0 is MissingTexture && r->Err_0->MissingTexture_0@ == face_path(
            *def,
            face,
            id@.1,
        ),
{
    match def.get_texture_for_face(face) {
        Some(path) => match get_block_texture_coords(textures, path.as_str()) {
            Some(t) => Ok(t),
            None => Err(RegisterError::MissingTexture(path)),
        },
        None => {
            // The identifier parsed, so every face has a path.
            assert(false);
            Err(RegisterError::MissingTexture(String::new()))
        },
    }
}

/// Registers the block type that `block_def` describes, its face rectangles
/// taken from `textures`. Fails, leaving `registry` unchanged, when the
/// identifier does not parse or a face texture has no rectangle (the first
/// missing one in the order top, bottom, left, right, front, back).
pub fn register_block(
    registry: &mut BlockRegistry,
    textures: &TextureRegistry,
    block_def: &BlockDefinition,
) -> (r: Result<(), RegisterError>)
    requires
        old(registry).wf(),
        textures.wf(),
    ensures
        final(registry).wf(),
        forall|e: IdValidationError|
            #[trigger] parses_to(block_def.id@, Err(e)) ==> r is Err && r->Err_0 is InvalidId
                && parses_to(block_def.id@, Err(r->Err_0->InvalidId_0)),
        forall|id: Identifier|
            #[trigger] parses_to(block_def.id@, Ok(id)) ==> {
                &&& (r is Ok <==> all_textures_known(*textures, *block_def, id@.1))
                &&& r is Ok ==> final(registry).entries() == old(registry).entries().insert(
                    id_text(id@.0, id@.1),
                    final(registry).entries()[id_text(id@.0, id@.1)],
                )
                &&& r is Ok ==> is_defined_block(
                    final(registry).entries()[id_text(id@.0, id@.1)],
                    *textures,
                    *block_def,
                    id@,
                )
                &&& r is Err ==> {
                    &&& r->Err_0 is MissingTexture
                    &&& exists|k: int|
                        0 <= k < 6 && !textures.entries().contains_key(
                            #[trigger] face_path(*block_def, lookup_order()[k], id@.1),
                        ) && r->Err_0->MissingTexture_0@ == face_path(
                            *block_def,
                            lookup_order()[k],
                            id@.1,
                        ) && forall|j: int|
                            0 <= j < k ==> textures.entries().contains_key(
                                face_path(*block_def, #[trigger] lookup_order()[j], id@.1),
                            )
                }
            },
        r is Err ==> *final(registry) == *old(registry),
{
    let id = match Identifier::from_str(block_def.id.as_str()) {
        Ok(id) => id,
        Err(e) => {
            proof {
                assert forall|id: Identifier| !parses_to(block_def.id@, Ok(id)) by {}
            }
            return Err(RegisterError::InvalidId(e));
        },
    };
    let ghost gid = id;
    proof {
        lemma_lookup_order();
        assert forall|e: IdValidationError| !parses_to(block_def.id@, Err(e)) by {}
        assert forall|other: Identifier| parses_to(block_def.id@, Ok(other)) implies other@ == id@ by {}
    }
    let texture_top = match face_coords(textures, block_def, BlockFace::Top, Ghost(gid)) {
        Ok(t) => t,
        Err(e) => return Err(e),
    };
    let texture_btm = match face_coords(textures, block_def, BlockFace::Bottom, Ghost(gid)) {
        Ok(t) => t,
        Err(e) => return Err(e),
    };
    let texture_left = match face_coords(textures, block_def, BlockFace::Left, Ghost(gid)) {
        Ok(t) => t,
        Err(e) => return Err(e),
    };
    let texture_right = match face_coords(textures, block_def, BlockFace::Right, Ghost(gid)) {
        Ok(t) => t,
        Err(e) => return Err(e),
    };
    let texture_front = match face_coords(textures, block_def, BlockFace::Front, Ghost(gid)) {
        Ok(t) => t,
        Err(e) => return Err(e),
    };
    let texture_back = match face_coords(textures, block_def, BlockFace::Back, Ghost(gid)) {
        Ok(t) => t,
        Err(e) => return Err(e),
    };
    let block = Block {
        id,
        texture_front,
        texture_back,
        texture_top,
        texture_btm,
        texture_left,
        texture_right,
    };
    proof {
        assert(is_defined_block(block, *textures, *block_def, gid@));
    }
    registry.register(block);
    Ok(())
}

} // verus!
