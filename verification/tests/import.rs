use qbsp::bsp::Ray;
use qbsp::math::Vec3;
use qbsp::qbsp_import::{import_collision, import_graphics_model, BspError};

fn fx(v: f32) -> i64 {
    (v * 65536.0) as i64
}

fn v3(x: f32, y: f32, z: f32) -> Vec3 {
    Vec3 { x: fx(x), y: fx(y), z: fx(z) }
}

fn push_i32(buf: &mut Vec<u8>, v: i32) {
    buf.extend_from_slice(&v.to_le_bytes());
}

fn push_f32(buf: &mut Vec<u8>, v: f32) {
    buf.extend_from_slice(&v.to_le_bytes());
}

/// Lays out a map file: a 120-byte header whose directory entries sit
/// at bytes 16 (textures), 24 (planes), 32 (nodes), 40 (leaves),
/// 88 (vertices), 96 (mesh-vertex indices) and 112 (faces), followed
/// by the lumps.
fn assemble(
    textures: &[u8],
    planes: &[u8],
    nodes: &[u8],
    leaves: &[u8],
    vertices: &[u8],
    meshverts: &[u8],
    faces: &[u8],
) -> Vec<u8> {
    let mut buf = vec![0u8; 120];
    let lumps: [(usize, &[u8]); 7] = [
        (16, textures),
        (24, planes),
        (32, nodes),
        (40, leaves),
        (88, vertices),
        (96, meshverts),
        (112, faces),
    ];
    for (hdr, bytes) in lumps {
        let off = buf.len() as u32;
        let len = bytes.len() as u32;
        buf[hdr..hdr + 4].copy_from_slice(&off.to_le_bytes());
        buf[hdr + 4..hdr + 8].copy_from_slice(&len.to_le_bytes());
        buf.extend_from_slice(bytes);
    }
    buf
}

/// One 16-byte plane record (normal in file axes, then distance).
fn plane_record(nx: f32, ny: f32, nz: f32, dist: f32) -> Vec<u8> {
    let mut b = Vec::new();
    push_f32(&mut b, nx);
    push_f32(&mut b, ny);
    push_f32(&mut b, nz);
    push_f32(&mut b, dist);
    b
}

/// One 36-byte node record (plane, front child, back child, zeroed
/// bounding box).
fn node_record(plane: i32, front: i32, back: i32) -> Vec<u8> {
    let mut b = Vec::new();
    push_i32(&mut b, plane);
    push_i32(&mut b, front);
    push_i32(&mut b, back);
    b.resize(36, 0);
    b
}

/// One 48-byte leaf record; only the brush start/count at byte 40
/// matter to the importer.
fn leaf_record(leafbrush: i32, n_leafbrushes: i32) -> Vec<u8> {
    let mut b = vec![0u8; 40];
    push_i32(&mut b, leafbrush);
    push_i32(&mut b, n_leafbrushes);
    b
}

/// One 72-byte texture record: 64 name bytes then two flag words.
fn texture_record(name: &[u8], flags: i32, contents: i32) -> Vec<u8> {
    let mut b = vec![0u8; 64];
    b[..name.len()].copy_from_slice(name);
    push_i32(&mut b, flags);
    push_i32(&mut b, contents);
    b
}

/// One 44-byte vertex record: position, texture coordinates, lightmap
/// coordinates (skipped), normal, color (skipped).
fn vertex_record(px: f32, py: f32, pz: f32, tu: f32, tv: f32) -> Vec<u8> {
    let mut b = Vec::new();
    push_f32(&mut b, px);
    push_f32(&mut b, py);
    push_f32(&mut b, pz);
    push_f32(&mut b, tu);
    push_f32(&mut b, tv);
    b.resize(28, 0);
    push_f32(&mut b, 0.0);
    push_f32(&mut b, 0.0);
    push_f32(&mut b, 1.0);
    b.resize(44, 0);
    b
}

/// One 104-byte face record.
fn face_record(texture: i32, vertex: i32, n_vertexes: i32, meshvert: i32, n_meshverts: i32) -> Vec<u8> {
    let mut b = Vec::new();
    push_i32(&mut b, texture);
    push_i32(&mut b, 0);
    push_i32(&mut b, 0);
    push_i32(&mut b, vertex);
    push_i32(&mut b, n_vertexes);
    push_i32(&mut b, meshvert);
    push_i32(&mut b, n_meshverts);
    b.resize(104, 0);
    b
}

/// A small well-formed map: the two-plane corridor (solid for
/// 0 < x <= 1) and one triangle face textured with the second
/// texture.
fn well_formed_map() -> Vec<u8> {
    let mut textures = Vec::new();
    textures.extend_from_slice(&texture_record(b"wall", 0, 0));
    textures.extend_from_slice(&texture_record(b"floor", 7, 1));

    let mut planes = Vec::new();
    planes.extend_from_slice(&plane_record(1.0, 0.0, 0.0, 0.0));
    planes.extend_from_slice(&plane_record(1.0, 0.0, 0.0, 1.0));

    // Node 0: plane x=0, front -> node 1, back -> leaf 0 (open).
    // Node 1: plane x=1, front -> leaf 1 (open), back -> leaf 2 (solid).
    let mut nodes = Vec::new();
    nodes.extend_from_slice(&node_record(0, 1, -1));
    nodes.extend_from_slice(&node_record(1, -2, -3));

    let mut leaves = Vec::new();
    leaves.extend_from_slice(&leaf_record(0, 0));
    leaves.extend_from_slice(&leaf_record(0, 0));
    leaves.extend_from_slice(&leaf_record(3, 1));

    let mut vertices = Vec::new();
    vertices.extend_from_slice(&vertex_record(0.0, 0.0, 0.0, 0.0, 0.0));
    vertices.extend_from_slice(&vertex_record(1.0, 0.0, 0.0, 1.0, 0.0));
    vertices.extend_from_slice(&vertex_record(0.0, 1.0, 0.0, 0.0, 1.0));

    let mut meshverts = Vec::new();
    push_i32(&mut meshverts, 0);
    push_i32(&mut meshverts, 1);
    push_i32(&mut meshverts, 2);

    let faces = face_record(1, 0, 3, 0, 3);

    assemble(&textures, &planes, &nodes, &leaves, &vertices, &meshverts, &faces)
}

#[test]
fn import_collision_round_trip() {
    let map = well_formed_map();
    let tree = import_collision(&map).expect("well-formed map imports");

    assert!(tree.contains_point(&v3(0.5, 0.0, 0.0)));
    assert!(!tree.contains_point(&v3(1.5, 0.0, 0.0)));
    assert!(!tree.contains_point(&v3(-0.5, 0.0, 0.0)));

    let ray = Ray { orig: v3(-0.5, 0.0, 0.0), dir: v3(1.0, 0.0, 0.0) };
    let hit = tree.cast_ray(&ray).expect("ray into the solid slab hits");
    assert_eq!(hit.toi, fx(1.5));
    assert_eq!(hit.norm, v3(1.0, 0.0, 0.0));

    let away = Ray { orig: v3(-0.5, 0.0, 0.0), dir: v3(-1.0, 0.0, 0.0) };
    assert!(tree.cast_ray(&away).is_none());

    let from_solid = Ray { orig: v3(0.5, 0.0, 0.0), dir: v3(1.0, 0.0, 0.0) };
    assert!(tree.cast_ray(&from_solid).is_none());
}

#[test]
fn import_truncated_yields_decode_error() {
    let map = well_formed_map();
    // Cutting the file anywhere leaves either a short header or a lump
    // range outside the file.
    assert_eq!(import_collision(&map[..100]).err(), Some(BspError::Decode));
    assert_eq!(import_collision(&map[..map.len() - 1]).err(), Some(BspError::Decode));
    assert_eq!(import_graphics_model(&map[..60]).err(), Some(BspError::Decode));
    assert_eq!(import_collision(&[]).err(), Some(BspError::Decode));
}

#[test]
fn import_rejects_misaligned_plane_lump() {
    let mut planes = Vec::new();
    planes.extend_from_slice(&plane_record(1.0, 0.0, 0.0, 0.0));
    planes.pop();
    let textures = texture_record(b"wall", 0, 0);
    let nodes = node_record(0, -1, -2);
    let mut leaves = leaf_record(0, 0);
    leaves.extend_from_slice(&leaf_record(0, 1));
    let broken = assemble(&textures, &planes, &nodes, &leaves, &[], &[], &[]);
    assert_eq!(import_collision(&broken).err(), Some(BspError::Decode));
}

#[test]
fn import_rejects_wild_normal() {
    // A plane whose "unit" normal decodes beyond the documented bound
    // is a malformed record.
    let textures = texture_record(b"wall", 0, 0);
    let planes = plane_record(40.0, 0.0, 0.0, 0.0);
    let nodes = node_record(0, -1, -2);
    let mut leaves = leaf_record(0, 0);
    leaves.extend_from_slice(&leaf_record(0, 1));
    let map = assemble(&textures, &planes, &nodes, &leaves, &[], &[], &[]);
    assert_eq!(import_collision(&map).err(), Some(BspError::Decode));
}

#[test]
fn import_rejects_backward_node_child() {
    // A node child that does not point strictly forward would make the
    // arena cyclic.
    let textures = texture_record(b"wall", 0, 0);
    let planes = plane_record(1.0, 0.0, 0.0, 0.0);
    let mut nodes = node_record(0, 1, -1);
    nodes.extend_from_slice(&node_record(0, 0, -2));
    let mut leaves = leaf_record(0, 0);
    leaves.extend_from_slice(&leaf_record(0, 1));
    let map = assemble(&textures, &planes, &nodes, &leaves, &[], &[], &[]);
    assert_eq!(import_collision(&map).err(), Some(BspError::Decode));
}

#[test]
fn import_rejects_leaf_index_out_of_range() {
    let textures = texture_record(b"wall", 0, 0);
    let planes = plane_record(1.0, 0.0, 0.0, 0.0);
    let nodes = node_record(0, -5, -1);
    let leaves = leaf_record(0, 0);
    let map = assemble(&textures, &planes, &nodes, &leaves, &[], &[], &[]);
    assert_eq!(import_collision(&map).err(), Some(BspError::Decode));
}

#[test]
fn import_rejects_map_without_nodes() {
    let textures = texture_record(b"wall", 0, 0);
    let planes = plane_record(1.0, 0.0, 0.0, 0.0);
    let leaves = leaf_record(0, 0);
    let map = assemble(&textures, &planes, &[], &leaves, &[], &[], &[]);
    assert_eq!(import_collision(&map).err(), Some(BspError::Decode));
}

#[test]
fn graphics_model_counts_match_declarations() {
    let map = well_formed_map();
    let models = import_graphics_model(&map).expect("well-formed map imports");

    // One face, using the second texture only: one mesh.
    assert_eq!(models.len(), 1);
    let model = &models[0];
    assert_eq!(model.texture, "floor");
    // Three mesh-vertex references declared by the face record.
    assert_eq!(model.vertices.len(), 3);
    assert_eq!(model.indices, vec![0u32, 1, 2]);
}

#[test]
fn graphics_model_remaps_axes_and_flips_v() {
    let map = well_formed_map();
    let models = import_graphics_model(&map).unwrap();
    let verts = &models[0].vertices;

    // File position (0, 1, 0) comes out with Y and Z swapped.
    assert_eq!(verts[2].position, v3(0.0, 0.0, 1.0));
    assert_eq!(verts[1].position, v3(1.0, 0.0, 0.0));
    // The texture V coordinate is flipped: v' = 1 - v.
    assert_eq!(verts[0].tex_u, fx(0.0));
    assert_eq!(verts[0].tex_v, fx(1.0));
    assert_eq!(verts[2].tex_v, fx(0.0));
}

#[test]
fn graphics_rejects_vertex_index_out_of_range() {
    let mut map_parts_meshverts = Vec::new();
    push_i32(&mut map_parts_meshverts, 9);
    let textures = texture_record(b"wall", 0, 0);
    let planes = plane_record(1.0, 0.0, 0.0, 0.0);
    let nodes = node_record(0, -1, -2);
    let mut leaves = leaf_record(0, 0);
    leaves.extend_from_slice(&leaf_record(0, 1));
    let vertices = vertex_record(0.0, 0.0, 0.0, 0.0, 0.0);
    let faces = face_record(0, 0, 1, 0, 1);
    let map = assemble(
        &textures,
        &planes,
        &nodes,
        &leaves,
        &vertices,
        &map_parts_meshverts,
        &faces,
    );
    assert_eq!(import_graphics_model(&map).err(), Some(BspError::Decode));
}

#[test]
fn graphics_rejects_texture_index_out_of_range() {
    let textures = texture_record(b"wall", 0, 0);
    let planes = plane_record(1.0, 0.0, 0.0, 0.0);
    let nodes = node_record(0, -1, -2);
    let mut leaves = leaf_record(0, 0);
    leaves.extend_from_slice(&leaf_record(0, 1));
    let faces = face_record(3, 0, 0, 0, 0);
    let map = assemble(&textures, &planes, &nodes, &leaves, &[], &[], &faces);
    assert_eq!(import_graphics_model(&map).err(), Some(BspError::Decode));
}

#[test]
fn texture_name_decodes_lossily() {
    // An invalid UTF-8 byte in the name becomes a replacement
    // character rather than failing the import.
    let mut name = Vec::new();
    name.push(0xFFu8);
    name.extend_from_slice(b"abc");
    let textures = texture_record(&name, 0, 0);
    let planes = plane_record(1.0, 0.0, 0.0, 0.0);
    let nodes = node_record(0, -1, -2);
    let mut leaves = leaf_record(0, 0);
    leaves.extend_from_slice(&leaf_record(0, 1));
    let vertices = vertex_record(0.0, 0.0, 0.0, 0.0, 0.0);
    let mut meshverts = Vec::new();
    push_i32(&mut meshverts, 0);
    let faces = face_record(0, 0, 1, 0, 1);
    let map = assemble(&textures, &planes, &nodes, &leaves, &vertices, &meshverts, &faces);
    let models = import_graphics_model(&map).unwrap();
    assert_eq!(models.len(), 1);
    assert_eq!(models[0].texture, "\u{FFFD}abc");
}
