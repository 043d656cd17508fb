use blocky::block::{Block, BlockDefinition, BlockFace, TextureCoords};
use blocky::identifier::{IdValidationError, Identifier};
use blocky::registry::{
    get_block_from_registry, get_block_from_registry_by_string, get_block_texture_coords, register_block,
    register_block_texture_coords, BlockRegistry, RegisterError, TextureRegistry,
};
use blocky::version::GameVersion;

fn rect(x: u32) -> TextureCoords {
    TextureCoords { bottom_left_x: x, bottom_left_y: 0, top_right_x: x + 16, top_right_y: 16 }
}

fn block(name: &str, x: u32) -> Block {
    Block {
        id: Identifier::new("blocky", name),
        texture_front: rect(x),
        texture_back: rect(x),
        texture_top: rect(x),
        texture_btm: rect(x),
        texture_left: rect(x),
        texture_right: rect(x),
    }
}

fn definition(id: &str) -> BlockDefinition {
    BlockDefinition {
        id: String::from(id),
        texture: String::new(),
        top_texture: String::new(),
        bottom_texture: String::new(),
        left_texture: String::new(),
        right_texture: String::new(),
        front_texture: String::new(),
        back_texture: String::new(),
    }
}

#[test]
fn registry_lookup_and_overwrite() {
    let mut r = BlockRegistry::new();
    r.register(block("stone", 0));
    r.register(block("dirt", 16));
    let found = get_block_from_registry(&r, &Identifier::new("blocky", "dirt")).unwrap();
    assert_eq!(found.texture_top, rect(16));
    assert!(get_block_from_registry_by_string(&r, "blocky:stone").is_some());
    assert!(get_block_from_registry_by_string(&r, "blocky:sand").is_none());
    r.register(block("stone", 32));
    assert_eq!(get_block_from_registry_by_string(&r, "blocky:stone").unwrap().texture_top, rect(32));
    assert!(r.get(&Identifier::new("other", "stone")).is_none());
}

#[test]
fn texture_paths_per_face() {
    let mut d = definition("blocky:grass_block");
    assert_eq!(d.get_texture_for_face(BlockFace::Top).unwrap(), "textures/block\\grass_block.png");
    d.top_texture = String::from("grass_top");
    assert_eq!(d.get_texture_for_face(BlockFace::Top).unwrap(), "textures/block\\grass_top.png");
    assert_eq!(d.get_texture_for_face(BlockFace::Left).unwrap(), "textures/block\\grass_block.png");
    d.texture = String::from("all");
    assert_eq!(d.get_texture_for_face(BlockFace::Top).unwrap(), "textures/block\\all.png");
    assert!(definition("no colon").get_texture_for_face(BlockFace::Back).is_none());
}

#[test]
fn texture_registry_round_trip() {
    let mut t = TextureRegistry::new();
    register_block_texture_coords(&mut t, String::from("textures/block\\a.png"), rect(0));
    register_block_texture_coords(&mut t, String::from("textures/block\\a.png"), rect(48));
    assert_eq!(get_block_texture_coords(&t, "textures/block\\a.png"), Some(rect(48)));
    assert_eq!(get_block_texture_coords(&t, "textures/block\\b.png"), None);
}

#[test]
fn register_block_from_definition() {
    let mut t = TextureRegistry::new();
    register_block_texture_coords(&mut t, String::from("textures/block\\stone.png"), rect(64));
    let mut r = BlockRegistry::new();
    assert!(register_block(&mut r, &t, &definition("blocky:stone")).is_ok());
    let b = get_block_from_registry_by_string(&r, "blocky:stone").unwrap();
    assert_eq!(b.texture_back, rect(64));
    assert!(b.id == Identifier::new("blocky", "stone"));
}

#[test]
fn register_block_reports_missing_texture() {
    let t = TextureRegistry::new();
    let mut r = BlockRegistry::new();
    match register_block(&mut r, &t, &definition("blocky:dirt")) {
        Err(RegisterError::MissingTexture(p)) => assert_eq!(p, "textures/block\\dirt.png"),
        other => panic!("unexpected {:?}", other),
    }
    assert!(get_block_from_registry_by_string(&r, "blocky:dirt").is_none());
}

#[test]
fn register_block_reports_bad_identifier() {
    let t = TextureRegistry::new();
    let mut r = BlockRegistry::new();
    match register_block(&mut r, &t, &definition("dirt")) {
        Err(RegisterError::InvalidId(IdValidationError::MissingColon(s))) => assert_eq!(s, "dirt"),
        other => panic!("unexpected {:?}", other),
    }
}

#[test]
fn default_game_version() {
    let v = GameVersion::default();
    assert_eq!(v.state, "Pre-Alpha");
    assert_eq!((v.major, v.minor, v.patch), (0, 0, 0));
}
