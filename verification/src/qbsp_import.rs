//! Importer for the lump-directory binary map format.
//!
//! A map file starts with a header holding a directory of
//! `(offset, length)` pairs, one per lump, at fixed byte positions.
//! Each lump is an array of fixed-size records.  [`import_collision`]
//! decodes the plane, node and leaf lumps and assembles a collision
//! [`Tree`]; [`import_graphics_model`] decodes the texture, vertex,
//! mesh-vertex and face lumps and assembles per-texture render meshes.
//!
//! Any decode failure — truncated data, a lump length that is not a
//! whole number of records, an index out of its declared bounds —
//! aborts the whole import with a single [`BspError::Decode`]; no
//! partial result is ever returned.

use crate::bsp::{node_wf, tree_wf, Node, Plane, Tree};
use crate::graphics::{Model, Vertex};
use crate::math::{fixed_of_bits, Vec3, MAX_COORD, NORM_MAX, SCALE};
use vstd::prelude::*;
use vstd::slice::slice_subrange;

verus! {

/// The one error of the importer: the input bytes are not a
/// well-formed map.
#[derive(Clone, Copy, Debug, PartialEq, Eq, Structural)]
pub enum BspError {
    Decode,
}

/// The little-endian 32-bit unsigned value at byte offset `i`.
#[verifier::opaque]
pub open spec fn le_u32(s: Seq<u8>, i: int) -> int {
    s[i] + 0x100 * s[i + 1] + 0x1_0000 * s[i + 2] + 0x100_0000 * s[i + 3]
}

/// The little-endian 32-bit two's-complement value at byte offset `i`.
pub open spec fn le_i32(s: Seq<u8>, i: int) -> int {
    if le_u32(s, i) < 0x8000_0000 {
        le_u32(s, i)
    } else {
        le_u32(s, i) - 0x1_0000_0000
    }
}

/// The fixed-point value of the 4-byte float field at byte offset `i`.
pub open spec fn le_fixed(s: Seq<u8>, i: int) -> int {
    fixed_of_bits(le_u32(s, i))
}

fn read_u32_at(data: &[u8], pos: usize) -> (r: u32)
    requires
        pos + 4 <= data@.len(),
    ensures
        r as int == le_u32(data@, pos as int),
{
    proof {
        reveal(le_u32);
    }
    let b0: u32 = data[pos] as u32;
    let b1: u32 = data[pos + 1] as u32;
    let b2: u32 = data[pos + 2] as u32;
    let b3: u32 = data[pos + 3] as u32;
    b0 + 0x100 * b1 + 0x1_0000 * b2 + 0x100_0000 * b3
}

fn read_i32_at(data: &[u8], pos: usize) -> (r: i32)
    requires
        pos + 4 <= data@.len(),
    ensures
        r as int == le_i32(data@, pos as int),
{
    let u: u32 = read_u32_at(data, pos);
    if u < 0x8000_0000 {
        u as i32
    } else {
        ((u as i64) - 0x1_0000_0000) as i32
    }
}

fn read_fixed_at(data: &[u8], pos: usize) -> (r: i64)
    requires
        pos + 4 <= data@.len(),
    ensures
        r as int == le_fixed(data@, pos as int),
        -MAX_COORD <= r <= MAX_COORD,
{
    let u: u32 = read_u32_at(data, pos);
    crate::math::fixed_from_bits(u)
}

/// One directory entry: where a lump's bytes sit in the file.
#[derive(Clone, Copy, Debug, PartialEq, Eq, Structural)]
pub struct Lump {
    pub off: usize,
    pub len: usize,
}

/// The directory entries this importer reads, by their header
/// positions: textures at byte 16, planes at 24, nodes at 32, leaves
/// at 40, vertices at 88, mesh-vertex indices at 96, faces at 112.
#[derive(Clone, Copy, Debug, PartialEq, Eq, Structural)]
pub struct Directory {
    pub textures: Lump,
    pub planes: Lump,
    pub nodes: Lump,
    pub leaves: Lump,
    pub vertices: Lump,
    pub meshverts: Lump,
    pub faces: Lump,
}

/// The directory entry at header offset `off` describes a byte range
/// that lies within the file.
pub open spec fn lump_ok(s: Seq<u8>, off: int) -> bool {
    le_u32(s, off) + le_u32(s, off + 4) <= s.len()
}

/// The bytes of the lump whose directory entry sits at header offset
/// `off`.
pub open spec fn lump_bytes(s: Seq<u8>, off: int) -> Seq<u8> {
    s.subrange(le_u32(s, off), le_u32(s, off) + le_u32(s, off + 4))
}

/// The header is present and all seven lump ranges lie within the
/// file.
pub open spec fn dir_ok(s: Seq<u8>) -> bool {
    &&& s.len() >= 120
    &&& lump_ok(s, 16)
    &&& lump_ok(s, 24)
    &&& lump_ok(s, 32)
    &&& lump_ok(s, 40)
    &&& lump_ok(s, 88)
    &&& lump_ok(s, 96)
    &&& lump_ok(s, 112)
}

/// One directory entry matches its header bytes.
pub open spec fn lump_matches(l: Lump, s: Seq<u8>, off: int) -> bool {
    l.off == le_u32(s, off) && l.len == le_u32(s, off + 4)
}

/// All seven entries match their header bytes.
pub open spec fn dir_matches(d: Directory, s: Seq<u8>) -> bool {
    &&& lump_matches(d.textures, s, 16)
    &&& lump_matches(d.planes, s, 24)
    &&& lump_matches(d.nodes, s, 32)
    &&& lump_matches(d.leaves, s, 40)
    &&& lump_matches(d.vertices, s, 88)
    &&& lump_matches(d.meshverts, s, 96)
    &&& lump_matches(d.faces, s, 112)
}

fn read_lump_at(data: &[u8], pos: usize) -> (r: Option<Lump>)
    requires
        pos + 8 <= data@.len(),
    ensures
        r is Some <==> lump_ok(data@, pos as int),
        r matches Some(l) ==> lump_matches(l, data@, pos as int),
{
    let dlen: usize = data.len();
    let off: u32 = read_u32_at(data, pos);
    let len: u32 = read_u32_at(data, pos + 4);
    if (off as u64) + (len as u64) <= (dlen as u64) {
        Some(Lump { off: off as usize, len: len as usize })
    } else {
        None
    }
}

/// Reads the lump directory from the file header.  Fails when the file
/// is shorter than the header or any lump range runs outside the file.
pub fn read_directory(data: &[u8]) -> (r: Result<Directory, BspError>)
    ensures
        r is Ok <==> dir_ok(data@),
        r matches Ok(d) ==> dir_matches(d, data@),
{
    if data.len() < 120 {
        return Err(BspError::Decode);
    }
    let textures = match read_lump_at(data, 16) {
        Some(l) => l,
        None => { return Err(BspError::Decode); },
    };
    let planes = match read_lump_at(data, 24) {
        Some(l) => l,
        None => { return Err(BspError::Decode); },
    };
    let nodes = match read_lump_at(data, 32) {
        Some(l) => l,
        None => { return Err(BspError::Decode); },
    };
    let leaves = match read_lump_at(data, 40) {
        Some(l) => l,
        None => { return Err(BspError::Decode); },
    };
    let vertices = match read_lump_at(data, 88) {
        Some(l) => l,
        None => { return Err(BspError::Decode); },
    };
    let meshverts = match read_lump_at(data, 96) {
        Some(l) => l,
        None => { return Err(BspError::Decode); },
    };
    let faces = match read_lump_at(data, 112) {
        Some(l) => l,
        None => { return Err(BspError::Decode); },
    };
    Ok(Directory { textures, planes, nodes, leaves, vertices, meshverts, faces })
}

/// Borrows a lump's bytes out of the file.
fn lump_slice<'a>(data: &'a [u8], l: Lump) -> (r: &'a [u8])
    requires
        l.off + l.len <= data@.len(),
    ensures
        r@ == data@.subrange(l.off as int, l.off + l.len),
{
    let dlen: usize = data.len();
    slice_subrange(data, l.off, l.off + l.len)
}

/// The plane record at index `k` of the planes lump: 16 bytes, three
/// float normal components and a float distance.  The file stores the
/// normal with Z up; the decode swaps the Y and Z components to the
/// collision convention.
pub open spec fn plane_at(s: Seq<u8>, k: int) -> Plane {
    Plane {
        norm: Vec3 {
            x: le_fixed(s, 16 * k) as i64,
            y: le_fixed(s, 16 * k + 8) as i64,
            z: le_fixed(s, 16 * k + 4) as i64,
        },
        dist: le_fixed(s, 16 * k + 12) as i64,
    }
}

/// The planes lump decodes: a whole number of records, each with its
/// normal components within the loose unit bound.
pub open spec fn planes_ok(s: Seq<u8>) -> bool {
    &&& s.len() % 16 == 0
    &&& forall|k: int| 0 <= k < s.len() / 16 ==> (#[trigger] plane_at(s, k)).wf()
}

/// Decodes the planes lump.  Fails when the lump length is not a
/// multiple of 16 or a normal component exceeds the documented unit
/// bound.
pub fn read_planes(data: &[u8]) -> (r: Result<Vec<Plane>, BspError>)
    ensures
        r is Ok <==> planes_ok(data@),
        r matches Ok(v) ==> v@.len() == data@.len() / 16 && (forall|k: int|
            0 <= k < v@.len() ==> v@[k] == plane_at(data@, k)),
{
    if data.len() % 16 != 0 {
        return Err(BspError::Decode);
    }
    let n: usize = data.len() / 16;
    let mut v: Vec<Plane> = Vec::new();
    let mut k: usize = 0;
    while k < n
        invariant
            data@.len() <= usize::MAX,
            data@.len() % 16 == 0,
            n == data@.len() / 16,
            k <= n,
            v@.len() == k,
            forall|j: int| 0 <= j < k ==> v@[j] == plane_at(data@, j) && (#[trigger] plane_at(
                data@,
                j,
            )).wf(),
        decreases n - k,
    {
        proof {
            vstd::arithmetic::div_mod::lemma_fundamental_div_mod(data@.len() as int, 16);
        }
        let base: usize = 16 * k;
        let nx: i64 = read_fixed_at(data, base);
        let file_ny: i64 = read_fixed_at(data, base + 4);
        let file_nz: i64 = read_fixed_at(data, base + 8);
        let dist: i64 = read_fixed_at(data, base + 12);
        let p = Plane { norm: Vec3 { x: nx, y: file_nz, z: file_ny }, dist };
        let norm_ok: bool = -NORM_MAX <= p.norm.x && p.norm.x <= NORM_MAX && -NORM_MAX <= p.norm.y
            && p.norm.y <= NORM_MAX && -NORM_MAX <= p.norm.z && p.norm.z <= NORM_MAX;
        if !norm_ok {
            assert(!(plane_at(data@, k as int).wf()));
            return Err(BspError::Decode);
        }
        v.push(p);
        k = k + 1;
    }
    Ok(v)
}

/// The inner-node record at index `k` of the nodes lump: 36 bytes, a
/// plane index and two child indices (a negative child `c` names leaf
/// `-c - 1`).
#[derive(Clone, Copy, Debug, PartialEq, Eq, Structural)]
pub struct NodeRec {
    pub plane: i32,
    pub front: i32,
    pub back: i32,
}

/// The node record at index `k` of the nodes lump.
pub open spec fn node_at(s: Seq<u8>, k: int) -> NodeRec {
    NodeRec {
        plane: le_i32(s, 36 * k) as i32,
        front: le_i32(s, 36 * k + 4) as i32,
        back: le_i32(s, 36 * k + 8) as i32,
    }
}

/// Decodes the nodes lump.  Fails when the lump length is not a
/// multiple of 36.
pub fn read_nodes(data: &[u8]) -> (r: Result<Vec<NodeRec>, BspError>)
    ensures
        r is Ok <==> data@.len() % 36 == 0,
        r matches Ok(v) ==> v@.len() == data@.len() / 36 && (forall|k: int|
            0 <= k < v@.len() ==> v@[k] == node_at(data@, k)),
{
    if data.len() % 36 != 0 {
        return Err(BspError::Decode);
    }
    let n: usize = data.len() / 36;
    let mut v: Vec<NodeRec> = Vec::new();
    let mut k: usize = 0;
    while k < n
        invariant
            data@.len() <= usize::MAX,
            data@.len() % 36 == 0,
            n == data@.len() / 36,
            k <= n,
            v@.len() == k,
            forall|j: int| 0 <= j < k ==> v@[j] == node_at(data@, j),
        decreases n - k,
    {
        proof {
            vstd::arithmetic::div_mod::lemma_fundamental_div_mod(data@.len() as int, 36);
        }
        let base: usize = 36 * k;
        let plane: i32 = read_i32_at(data, base);
        let front: i32 = read_i32_at(data, base + 4);
        let back: i32 = read_i32_at(data, base + 8);
        v.push(NodeRec { plane, front, back });
        k = k + 1;
    }
    Ok(v)
}

/// The leaf record at index `k` of the leaves lump: 48 bytes; only the
/// leaf-brush start index and count at byte offset 40 concern this
/// subsystem.
#[derive(Clone, Copy, Debug, PartialEq, Eq, Structural)]
pub struct LeafRec {
    pub leafbrush: i32,
    pub n_leafbrushes: i32,
}

/// The leaf record at index `k` of the leaves lump.
pub open spec fn leaf_at(s: Seq<u8>, k: int) -> LeafRec {
    LeafRec { leafbrush: le_i32(s, 48 * k + 40) as i32, n_leafbrushes: le_i32(s, 48 * k + 44) as i32 }
}

/// Decodes the leaves lump.  Fails when the lump length is not a
/// multiple of 48.
pub fn read_leaves(data: &[u8]) -> (r: Result<Vec<LeafRec>, BspError>)
    ensures
        r is Ok <==> data@.len() % 48 == 0,
        r matches Ok(v) ==> v@.len() == data@.len() / 48 && (forall|k: int|
            0 <= k < v@.len() ==> v@[k] == leaf_at(data@, k)),
{
    if data.len() % 48 != 0 {
        return Err(BspError::Decode);
    }
    let n: usize = data.len() / 48;
    let mut v: Vec<LeafRec> = Vec::new();
    let mut k: usize = 0;
    while k < n
        invariant
            data@.len() <= usize::MAX,
            data@.len() % 48 == 0,
            n == data@.len() / 48,
            k <= n,
            v@.len() == k,
            forall|j: int| 0 <= j < k ==> v@[j] == leaf_at(data@, j),
        decreases n - k,
    {
        proof {
            vstd::arithmetic::div_mod::lemma_fundamental_div_mod(data@.len() as int, 48);
        }
        let base: usize = 48 * k;
        let leafbrush: i32 = read_i32_at(data, base + 40);
        let n_leafbrushes: i32 = read_i32_at(data, base + 44);
        v.push(LeafRec { leafbrush, n_leafbrushes });
        k = k + 1;
    }
    Ok(v)
}

/// The planes lump of the file.
pub open spec fn planes_lump(s: Seq<u8>) -> Seq<u8> {
    lump_bytes(s, 24)
}

/// The nodes lump of the file.
pub open spec fn nodes_lump(s: Seq<u8>) -> Seq<u8> {
    lump_bytes(s, 32)
}

/// The leaves lump of the file.
pub open spec fn leaves_lump(s: Seq<u8>) -> Seq<u8> {
    lump_bytes(s, 40)
}

/// Number of plane records the file declares.
pub open spec fn n_planes(s: Seq<u8>) -> int {
    planes_lump(s).len() as int / 16
}

/// Number of inner-node records the file declares.
pub open spec fn n_nodes(s: Seq<u8>) -> int {
    nodes_lump(s).len() as int / 36
}

/// Number of leaf records the file declares.
pub open spec fn n_leaves(s: Seq<u8>) -> int {
    leaves_lump(s).len() as int / 48
}

/// A child field is valid: a non-negative child names a node record
/// strictly after its parent (keeping the arena acyclic, as compilers
/// emit nodes in descent order), a negative child `c` names leaf
/// `-c - 1`.
pub open spec fn child_ok(c: int, i: int, n: int, m: int) -> bool {
    if c >= 0 {
        i < c < n
    } else {
        -c - 1 < m
    }
}

/// Where a child field points within the assembled arena: node records
/// first, then leaves.
pub open spec fn child_index(c: int, n: int) -> int {
    if c >= 0 {
        c
    } else {
        n + (-c - 1)
    }
}

/// Node record `i` is internally valid.
pub open spec fn node_rec_ok(s: Seq<u8>, i: int) -> bool {
    let r = node_at(nodes_lump(s), i);
    &&& 0 <= r.plane < n_planes(s)
    &&& child_ok(r.front as int, i, n_nodes(s), n_leaves(s))
    &&& child_ok(r.back as int, i, n_nodes(s), n_leaves(s))
}

/// Node record `r` references leaf `j` as one of its children.
pub open spec fn node_refs_leaf(r: NodeRec, j: int) -> bool {
    r.front == -j - 1 || r.back == -j - 1
}

/// The parent recorded for leaf `j` after scanning the first `k` node
/// records: the last record that references the leaf, or node 0 for a
/// leaf no record references.
pub open spec fn leaf_parent_upto(s: Seq<u8>, j: int, k: int) -> int
    decreases k,
{
    if k <= 0 {
        0
    } else if node_refs_leaf(node_at(nodes_lump(s), k - 1), j) {
        k - 1
    } else {
        leaf_parent_upto(s, j, k - 1)
    }
}

/// The input decodes into a collision tree: directory and lumps are
/// well formed, there is at least one inner node to act as the root,
/// and every node record's plane and child indices are in bounds.
pub open spec fn collision_ok(s: Seq<u8>) -> bool {
    &&& dir_ok(s)
    &&& planes_ok(planes_lump(s))
    &&& nodes_lump(s).len() % 36 == 0
    &&& leaves_lump(s).len() % 48 == 0
    &&& n_nodes(s) >= 1
    &&& forall|i: int| 0 <= i < n_nodes(s) ==> node_rec_ok(s, i)
}

/// Arena slot `i` of the assembled collision tree: the inner nodes in
/// record order, then one leaf per leaf record.  A leaf is classified
/// solid when its record references at least one brush.
pub open spec fn collision_node(s: Seq<u8>, i: int) -> Node {
    if i < n_nodes(s) {
        let r = node_at(nodes_lump(s), i);
        Node::Inner {
            plane: plane_at(planes_lump(s), r.plane as int),
            pos: child_index(r.front as int, n_nodes(s)) as usize,
            neg: child_index(r.back as int, n_nodes(s)) as usize,
        }
    } else {
        let j = i - n_nodes(s);
        Node::Leaf {
            parent: leaf_parent_upto(s, j, n_nodes(s)) as usize,
            solid: leaf_at(leaves_lump(s), j).n_leafbrushes > 0,
        }
    }
}

/// The whole assembled arena.
pub open spec fn collision_nodes(s: Seq<u8>) -> Seq<Node> {
    Seq::new((n_nodes(s) + n_leaves(s)) as nat, |i: int| collision_node(s, i))
}

/// Every parent the scan can record is node 0 or an earlier node
/// record.
proof fn lemma_leaf_parent_range(s: Seq<u8>, j: int, k: int)
    requires
        k >= 1,
    ensures
        0 <= leaf_parent_upto(s, j, k) < k,
    decreases k,
{
    if !node_refs_leaf(node_at(nodes_lump(s), k - 1), j) {
        if k == 1 {
            assert(leaf_parent_upto(s, j, 0) == 0);
        } else {
            lemma_leaf_parent_range(s, j, k - 1);
        }
    }
}

/// The arena a valid input assembles to is a well-formed tree rooted
/// at node 0.
proof fn lemma_collision_tree_wf(s: Seq<u8>)
    requires
        planes_ok(planes_lump(s)),
        n_nodes(s) >= 1,
        n_nodes(s) + n_leaves(s) <= usize::MAX,
        forall|i: int| 0 <= i < n_nodes(s) ==> node_rec_ok(s, i),
    ensures
        tree_wf(collision_nodes(s), 0),
{
    let arena = collision_nodes(s);
    let n = n_nodes(s);
    assert forall|idx: int| 0 <= idx < arena.len() implies node_wf(arena, idx) by {
        assert(arena[idx] == collision_node(s, idx));
        if idx < n {
            assert(node_rec_ok(s, idx));
            let r = node_at(nodes_lump(s), idx);
            assert(plane_at(planes_lump(s), r.plane as int).wf());
        } else {
            lemma_leaf_parent_range(s, idx - n, n);
            let p: int = leaf_parent_upto(s, idx - n, n);
            assert(arena[p] == collision_node(s, p));
        }
    }
}

/// Validates every node record and lays down the inner part of the
/// arena, children already translated to arena indices.
#[verifier::rlimit(50)]
fn build_inner_nodes(
    planes: &Vec<Plane>,
    noderecs: &Vec<NodeRec>,
    m: usize,
    Ghost(s): Ghost<Seq<u8>>,
) -> (r: Result<Vec<Node>, BspError>)
    requires
        planes@.len() == n_planes(s),
        forall|k: int| 0 <= k < planes@.len() ==> planes@[k] == plane_at(planes_lump(s), k),
        noderecs@.len() == n_nodes(s),
        forall|k: int| 0 <= k < noderecs@.len() ==> noderecs@[k] == node_at(nodes_lump(s), k),
        m == n_leaves(s),
        noderecs@.len() >= 1,
        noderecs@.len() + m <= usize::MAX,
        36 * noderecs@.len() <= usize::MAX,
        48 * m <= usize::MAX,
    ensures
        r is Ok <==> (forall|i: int| 0 <= i < n_nodes(s) ==> node_rec_ok(s, i)),
        r matches Ok(v) ==> v@.len() == n_nodes(s) && (forall|k: int|
            0 <= k < v@.len() ==> v@[k] == collision_node(s, k)),
{
    let n: usize = noderecs.len();
    let mut arena: Vec<Node> = Vec::new();
    let mut i: usize = 0;
    while i < n
        invariant
            planes@.len() == n_planes(s),
            forall|k: int| 0 <= k < planes@.len() ==> planes@[k] == plane_at(planes_lump(s), k),
            n == noderecs@.len(),
            n == n_nodes(s),
            forall|k: int| 0 <= k < n ==> noderecs@[k] == node_at(nodes_lump(s), k),
            m == n_leaves(s),
            n + m <= usize::MAX,
            36 * n <= usize::MAX,
            48 * m <= usize::MAX,
            i <= n,
            arena@.len() == i,
            forall|k: int| 0 <= k < i ==> #[trigger] node_rec_ok(s, k),
            forall|k: int| 0 <= k < i ==> arena@[k] == collision_node(s, k),
        decreases n - i,
    {
        let rec: NodeRec = noderecs[i];
        let f: i64 = rec.front as i64;
        let b: i64 = rec.back as i64;
        let plane_ok: bool = 0 <= rec.plane && (rec.plane as usize) < planes.len();
        let front_ok: bool = if f >= 0 {
            (i as i64) < f && f < (n as i64)
        } else {
            -f - 1 < (m as i64)
        };
        let back_ok: bool = if b >= 0 {
            (i as i64) < b && b < (n as i64)
        } else {
            -b - 1 < (m as i64)
        };
        if !(plane_ok && front_ok && back_ok) {
            assert(!node_rec_ok(s, i as int));
            return Err(BspError::Decode);
        }
        assert(node_rec_ok(s, i as int));
        let pos: usize = if f >= 0 {
            f as usize
        } else {
            n + ((-f - 1) as usize)
        };
        let neg: usize = if b >= 0 {
            b as usize
        } else {
            n + ((-b - 1) as usize)
        };
        arena.push(Node::Inner { plane: planes[rec.plane as usize], pos, neg });
        i = i + 1;
    }
    Ok(arena)
}

/// Records each leaf's parent: the last node record that references
/// it, or node 0 when none does.
fn leaf_parents(noderecs: &Vec<NodeRec>, m: usize, Ghost(s): Ghost<Seq<u8>>) -> (r: Vec<usize>)
    requires
        noderecs@.len() == n_nodes(s),
        forall|k: int| 0 <= k < noderecs@.len() ==> noderecs@[k] == node_at(nodes_lump(s), k),
        forall|i: int| 0 <= i < n_nodes(s) ==> node_rec_ok(s, i),
        noderecs@.len() >= 1,
        m == n_leaves(s),
    ensures
        r@.len() == m,
        forall|p: int| 0 <= p < m ==> r@[p] == leaf_parent_upto(s, p, n_nodes(s)),
{
    let n: usize = noderecs.len();
    let mut parents: Vec<usize> = Vec::new();
    let mut j: usize = 0;
    while j < m
        invariant
            j <= m,
            parents@.len() == j,
            forall|p: int| 0 <= p < j ==> parents@[p] == 0,
        decreases m - j,
    {
        parents.push(0);
        j = j + 1;
    }
    let mut i: usize = 0;
    while i < n
        invariant
            n == noderecs@.len(),
            n == n_nodes(s),
            m == n_leaves(s),
            n >= 1,
            forall|k: int| 0 <= k < n ==> noderecs@[k] == node_at(nodes_lump(s), k),
            forall|k: int| 0 <= k < n ==> #[trigger] node_rec_ok(s, k),
            i <= n,
            parents@.len() == m,
            forall|p: int| 0 <= p < m ==> parents@[p] == leaf_parent_upto(s, p, i as int),
        decreases n - i,
    {
        let rec: NodeRec = noderecs[i];
        let f: i64 = rec.front as i64;
        let b: i64 = rec.back as i64;
        proof {
            assert(node_rec_ok(s, i as int));
        }
        if f < 0 {
            let jf: usize = (-f - 1) as usize;
            parents[jf] = i;
        }
        if b < 0 {
            let jb: usize = (-b - 1) as usize;
            parents[jb] = i;
        }
        i = i + 1;
    }
    parents
}

/// Appends one leaf node per leaf record to the arena.
fn append_leaves(
    arena: Vec<Node>,
    parents: &Vec<usize>,
    leafrecs: &Vec<LeafRec>,
    Ghost(s): Ghost<Seq<u8>>,
) -> (r: Vec<Node>)
    requires
        arena@.len() == n_nodes(s),
        forall|k: int| 0 <= k < arena@.len() ==> arena@[k] == collision_node(s, k),
        parents@.len() == n_leaves(s),
        leafrecs@.len() == n_leaves(s),
        forall|p: int| 0 <= p < parents@.len() ==> parents@[p] == leaf_parent_upto(
            s,
            p,
            n_nodes(s),
        ),
        forall|p: int| 0 <= p < leafrecs@.len() ==> leafrecs@[p] == leaf_at(leaves_lump(s), p),
        n_nodes(s) + n_leaves(s) <= usize::MAX,
    ensures
        r@.len() == n_nodes(s) + n_leaves(s),
        forall|k: int| 0 <= k < r@.len() ==> r@[k] == collision_node(s, k),
{
    let n: usize = arena.len();
    let m: usize = leafrecs.len();
    let mut out: Vec<Node> = arena;
    let mut j: usize = 0;
    while j < m
        invariant
            n == n_nodes(s),
            m == n_leaves(s),
            n + m <= usize::MAX,
            parents@.len() == m,
            leafrecs@.len() == m,
            forall|p: int| 0 <= p < m ==> parents@[p] == leaf_parent_upto(s, p, n_nodes(s)),
            forall|p: int| 0 <= p < m ==> leafrecs@[p] == leaf_at(leaves_lump(s), p),
            j <= m,
            out@.len() == n + j,
            forall|k: int| 0 <= k < n + j ==> out@[k] == collision_node(s, k),
        decreases m - j,
    {
        out.push(Node::Leaf { parent: parents[j], solid: leafrecs[j].n_leafbrushes > 0 });
        j = j + 1;
    }
    out
}

/// Decodes the plane, node and leaf lumps and assembles the collision
/// tree, rooted at node record 0.  Returns `Ok` exactly when
/// [`collision_ok`] holds of the input; the resulting tree is well
/// formed and is exactly [`collision_nodes`].
pub fn import_collision(data: &[u8]) -> (r: Result<Tree, BspError>)
    ensures
        r is Ok <==> collision_ok(data@),
        r matches Ok(t) ==> t.wf() && t.nodes_spec() == collision_nodes(data@) && t.root_spec()
            == 0,
{
    let dlen: usize = data.len();
    let directory = match read_directory(data) {
        Ok(d) => d,
        Err(e) => { return Err(e); },
    };
    let planes = match read_planes(lump_slice(data, directory.planes)) {
        Ok(v) => v,
        Err(e) => { return Err(e); },
    };
    let noderecs = match read_nodes(lump_slice(data, directory.nodes)) {
        Ok(v) => v,
        Err(e) => { return Err(e); },
    };
    let leafrecs = match read_leaves(lump_slice(data, directory.leaves)) {
        Ok(v) => v,
        Err(e) => { return Err(e); },
    };
    let n: usize = noderecs.len();
    let m: usize = leafrecs.len();
    proof {
        vstd::arithmetic::div_mod::lemma_fundamental_div_mod(nodes_lump(data@).len() as int, 36);
        vstd::arithmetic::div_mod::lemma_fundamental_div_mod(leaves_lump(data@).len() as int, 48);
    }
    if n == 0 {
        return Err(BspError::Decode);
    }
    let arena_inner = match build_inner_nodes(&planes, &noderecs, m, Ghost(data@)) {
        Ok(v) => v,
        Err(e) => { return Err(e); },
    };
    let parents = leaf_parents(&noderecs, m, Ghost(data@));
    let arena = append_leaves(arena_inner, &parents, &leafrecs, Ghost(data@));
    proof {
        assert(arena@ =~= collision_nodes(data@));
        lemma_collision_tree_wf(data@);
        assert(collision_ok(data@));
    }
    match Tree::new(arena, 0) {
        Some(t) => Ok(t),
        None => {
            assert(false);
            Err(BspError::Decode)
        },
    }
}


/// The texture lump of the file.
pub open spec fn textures_lump(s: Seq<u8>) -> Seq<u8> {
    lump_bytes(s, 16)
}

/// The vertex lump of the file.
pub open spec fn vertices_lump(s: Seq<u8>) -> Seq<u8> {
    lump_bytes(s, 88)
}

/// The mesh-vertex index lump of the file.
pub open spec fn meshverts_lump(s: Seq<u8>) -> Seq<u8> {
    lump_bytes(s, 96)
}

/// The face lump of the file.
pub open spec fn faces_lump(s: Seq<u8>) -> Seq<u8> {
    lump_bytes(s, 112)
}

/// Number of texture records the file declares.
pub open spec fn n_textures(s: Seq<u8>) -> int {
    textures_lump(s).len() as int / 72
}

/// Number of vertex records the file declares.
pub open spec fn n_vertices(s: Seq<u8>) -> int {
    vertices_lump(s).len() as int / 44
}

/// Number of mesh-vertex indices the file declares.
pub open spec fn n_meshverts(s: Seq<u8>) -> int {
    meshverts_lump(s).len() as int / 4
}

/// Number of face records the file declares.
pub open spec fn n_faces(s: Seq<u8>) -> int {
    faces_lump(s).len() as int / 104
}

/// The vertex record at index `k` of the vertex lump: 44 bytes, float
/// position, float texture coordinates, 8 bytes skipped (lightmap
/// coordinates), float normal.  Fields are kept in file order here;
/// [`render_vertex_of`] does the axis and texture remapping.
#[derive(Clone, Copy, Debug, PartialEq, Eq, Structural)]
pub struct VertexRec {
    pub position: Vec3,
    pub tex_u: i64,
    pub tex_v: i64,
    pub normal: Vec3,
}

/// The vertex record at index `k` of the vertex lump.
pub open spec fn vertex_at(s: Seq<u8>, k: int) -> VertexRec {
    VertexRec {
        position: Vec3 {
            x: le_fixed(s, 44 * k) as i64,
            y: le_fixed(s, 44 * k + 4) as i64,
            z: le_fixed(s, 44 * k + 8) as i64,
        },
        tex_u: le_fixed(s, 44 * k + 12) as i64,
        tex_v: le_fixed(s, 44 * k + 16) as i64,
        normal: Vec3 {
            x: le_fixed(s, 44 * k + 28) as i64,
            y: le_fixed(s, 44 * k + 32) as i64,
            z: le_fixed(s, 44 * k + 36) as i64,
        },
    }
}

/// Every scalar of the record is within the decoder's saturation bound.
pub open spec fn vertex_rec_bounded(r: VertexRec) -> bool {
    &&& crate::math::vec3_bounded(r.position, MAX_COORD as int)
    &&& -MAX_COORD <= r.tex_u <= MAX_COORD
    &&& -MAX_COORD <= r.tex_v <= MAX_COORD
    &&& crate::math::vec3_bounded(r.normal, MAX_COORD as int)
}

/// Decodes the vertex lump.  Fails when the lump length is not a
/// multiple of 44.
pub fn read_vertices(data: &[u8]) -> (r: Result<Vec<VertexRec>, BspError>)
    ensures
        r is Ok <==> data@.len() % 44 == 0,
        r matches Ok(v) ==> v@.len() == data@.len() / 44 && (forall|k: int|
            0 <= k < v@.len() ==> v@[k] == vertex_at(data@, k) && vertex_rec_bounded(
                #[trigger] v@[k],
            )),
{
    if data.len() % 44 != 0 {
        return Err(BspError::Decode);
    }
    let n: usize = data.len() / 44;
    let mut v: Vec<VertexRec> = Vec::new();
    let mut k: usize = 0;
    while k < n
        invariant
            data@.len() <= usize::MAX,
            data@.len() % 44 == 0,
            n == data@.len() / 44,
            k <= n,
            v@.len() == k,
            forall|j: int| 0 <= j < k ==> v@[j] == vertex_at(data@, j) && vertex_rec_bounded(
                #[trigger] v@[j],
            ),
        decreases n - k,
    {
        proof {
            vstd::arithmetic::div_mod::lemma_fundamental_div_mod(data@.len() as int, 44);
        }
        let base: usize = 44 * k;
        let px: i64 = read_fixed_at(data, base);
        let py: i64 = read_fixed_at(data, base + 4);
        let pz: i64 = read_fixed_at(data, base + 8);
        let tu: i64 = read_fixed_at(data, base + 12);
        let tv: i64 = read_fixed_at(data, base + 16);
        let nx: i64 = read_fixed_at(data, base + 28);
        let ny: i64 = read_fixed_at(data, base + 32);
        let nz: i64 = read_fixed_at(data, base + 36);
        v.push(
            VertexRec {
                position: Vec3 { x: px, y: py, z: pz },
                tex_u: tu,
                tex_v: tv,
                normal: Vec3 { x: nx, y: ny, z: nz },
            },
        );
        k = k + 1;
    }
    Ok(v)
}

/// The face record at index `k` of the face lump: 104 bytes; texture
/// index, 8 bytes skipped, vertex start, vertex count, mesh-vertex
/// start, mesh-vertex count.
#[derive(Clone, Copy, Debug, PartialEq, Eq, Structural)]
pub struct Face {
    pub texture: i32,
    pub vertex: i32,
    pub n_vertexes: i32,
    pub meshvert: i32,
    pub n_meshverts: i32,
}

/// The face record at index `k` of the face lump.
pub open spec fn face_at(s: Seq<u8>, k: int) -> Face {
    Face {
        texture: le_i32(s, 104 * k) as i32,
        vertex: le_i32(s, 104 * k + 12) as i32,
        n_vertexes: le_i32(s, 104 * k + 16) as i32,
        meshvert: le_i32(s, 104 * k + 20) as i32,
        n_meshverts: le_i32(s, 104 * k + 24) as i32,
    }
}

/// Decodes the face lump.  Fails when the lump length is not a
/// multiple of 104.
pub fn read_faces(data: &[u8]) -> (r: Result<Vec<Face>, BspError>)
    ensures
        r is Ok <==> data@.len() % 104 == 0,
        r matches Ok(v) ==> v@.len() == data@.len() / 104 && (forall|k: int|
            0 <= k < v@.len() ==> v@[k] == face_at(data@, k)),
{
    if data.len() % 104 != 0 {
        return Err(BspError::Decode);
    }
    let n: usize = data.len() / 104;
    let mut v: Vec<Face> = Vec::new();
    let mut k: usize = 0;
    while k < n
        invariant
            data@.len() <= usize::MAX,
            data@.len() % 104 == 0,
            n == data@.len() / 104,
            k <= n,
            v@.len() == k,
            forall|j: int| 0 <= j < k ==> v@[j] == face_at(data@, j),
        decreases n - k,
    {
        proof {
            vstd::arithmetic::div_mod::lemma_fundamental_div_mod(data@.len() as int, 104);
        }
        let base: usize = 104 * k;
        let texture: i32 = read_i32_at(data, base);
        let vertex: i32 = read_i32_at(data, base + 12);
        let n_vertexes: i32 = read_i32_at(data, base + 16);
        let meshvert: i32 = read_i32_at(data, base + 20);
        let n_meshverts: i32 = read_i32_at(data, base + 24);
        v.push(Face { texture, vertex, n_vertexes, meshvert, n_meshverts });
        k = k + 1;
    }
    Ok(v)
}

/// The mesh-vertex index at position `k` of its lump.
pub open spec fn meshvert_at(s: Seq<u8>, k: int) -> i32 {
    le_i32(s, 4 * k) as i32
}

/// Decodes the mesh-vertex index lump.  Fails when the lump length is
/// not a multiple of 4.
pub fn read_meshverts(data: &[u8]) -> (r: Result<Vec<i32>, BspError>)
    ensures
        r is Ok <==> data@.len() % 4 == 0,
        r matches Ok(v) ==> v@.len() == data@.len() / 4 && (forall|k: int|
            0 <= k < v@.len() ==> v@[k] == meshvert_at(data@, k)),
{
    if data.len() % 4 != 0 {
        return Err(BspError::Decode);
    }
    let n: usize = data.len() / 4;
    let mut v: Vec<i32> = Vec::new();
    let mut k: usize = 0;
    while k < n
        invariant
            data@.len() <= usize::MAX,
            data@.len() % 4 == 0,
            n == data@.len() / 4,
            k <= n,
            v@.len() == k,
            forall|j: int| 0 <= j < k ==> v@[j] == meshvert_at(data@, j),
        decreases n - k,
    {
        proof {
            vstd::arithmetic::div_mod::lemma_fundamental_div_mod(data@.len() as int, 4);
        }
        let mv: i32 = read_i32_at(data, 4 * k);
        v.push(mv);
        k = k + 1;
    }
    Ok(v)
}

/// Index of the first zero byte of `s`, or `s.len()` when there is
/// none.
pub open spec fn first_zero(s: Seq<u8>) -> int
    decreases s.len(),
{
    if s.len() == 0 {
        0
    } else if s[0] == 0 {
        0
    } else {
        1 + first_zero(s.subrange(1, s.len() as int))
    }
}

proof fn lemma_first_zero(s: Seq<u8>, i: int)
    requires
        0 <= i <= s.len(),
        forall|k: int| 0 <= k < i ==> s[k] != 0,
        i == s.len() || s[i] == 0,
    ensures
        first_zero(s) == i,
    decreases s.len(),
{
    if s.len() == 0 {
    } else if s[0] == 0 {
        assert(i == 0);
    } else {
        let tail = s.subrange(1, s.len() as int);
        assert(forall|k: int| 0 <= k < i - 1 ==> tail[k] == s[k + 1]);
        lemma_first_zero(tail, i - 1);
    }
}

/// The name field of texture record `k`: the 64 name bytes, cut at the
/// first zero.
pub open spec fn tex_name_bytes(s: Seq<u8>, k: int) -> Seq<u8> {
    let field = s.subrange(72 * k, 72 * k + 64);
    field.take(first_zero(field))
}

/// What `String::from_utf8_lossy` makes of a byte sequence.
pub uninterp spec fn utf8_lossy_of(bytes: Seq<u8>) -> Seq<char>;

/// Relies on String::from_utf8_lossy: the result is a function of the
/// bytes alone (invalid sequences become replacement characters), and
/// no bytes means no characters.
#[verifier::external_body]
fn utf8_lossy(bytes: &[u8]) -> (r: String)
    ensures
        r@ == utf8_lossy_of(bytes@),
        bytes@.len() == 0 ==> r@.len() == 0,
{
    String::from_utf8_lossy(bytes).into_owned()
}

/// The texture record at index `k` of the texture lump: 72 bytes, a
/// 64-byte zero-terminated name (decoded as UTF-8, lossily) and two
/// 32-bit flag words.
#[derive(Debug)]
pub struct Texture {
    pub name: String,
    pub flags: i32,
    pub contents: i32,
}

/// The record's fields match the lump bytes.
pub open spec fn texture_matches(t: Texture, s: Seq<u8>, k: int) -> bool {
    &&& t.name@ == utf8_lossy_of(tex_name_bytes(s, k))
    &&& t.flags == le_i32(s, 72 * k + 64)
    &&& t.contents == le_i32(s, 72 * k + 68)
}

/// Decodes the texture lump.  Fails when the lump length is not a
/// multiple of 72.
pub fn read_textures(data: &[u8]) -> (r: Result<Vec<Texture>, BspError>)
    ensures
        r is Ok <==> data@.len() % 72 == 0,
        r matches Ok(v) ==> v@.len() == data@.len() / 72 && (forall|k: int|
            0 <= k < v@.len() ==> texture_matches(#[trigger] v@[k], data@, k)),
{
    if data.len() % 72 != 0 {
        return Err(BspError::Decode);
    }
    let n: usize = data.len() / 72;
    let mut v: Vec<Texture> = Vec::new();
    let mut k: usize = 0;
    while k < n
        invariant
            data@.len() <= usize::MAX,
            data@.len() % 72 == 0,
            n == data@.len() / 72,
            k <= n,
            v@.len() == k,
            forall|j: int| 0 <= j < k ==> texture_matches(#[trigger] v@[j], data@, j),
        decreases n - k,
    {
        proof {
            vstd::arithmetic::div_mod::lemma_fundamental_div_mod(data@.len() as int, 72);
        }
        let base: usize = 72 * k;
        let field: &[u8] = slice_subrange(data, base, base + 64);
        let mut z: usize = 0;
        while z < 64 && field[z] != 0
            invariant
                field@.len() == 64,
                z <= 64,
                forall|q: int| 0 <= q < z ==> field@[q] != 0,
            decreases 64 - z,
        {
            z = z + 1;
        }
        proof {
            lemma_first_zero(field@, z as int);
        }
        let name_slice: &[u8] = slice_subrange(field, 0, z);
        proof {
            assert(name_slice@ =~= tex_name_bytes(data@, k as int));
        }
        let name: String = utf8_lossy(name_slice);
        let flags: i32 = read_i32_at(data, base + 64);
        let contents: i32 = read_i32_at(data, base + 68);
        v.push(Texture { name, flags, contents });
        k = k + 1;
    }
    Ok(v)
}

/// A render vertex from a raw record: position swapped to the
/// collision convention (Y and Z exchanged) and the texture V
/// coordinate flipped (`v' = 1 - v`).
pub open spec fn render_vertex_of(r: VertexRec) -> Vertex {
    Vertex {
        position: Vec3 { x: r.position.x, y: r.position.z, z: r.position.y },
        tex_u: r.tex_u,
        tex_v: (SCALE - r.tex_v) as i64,
    }
}

/// Mesh-vertex reference `k` of face `j` names a vertex record within
/// bounds.
pub open spec fn vertex_ref_ok(s: Seq<u8>, j: int, k: int) -> bool {
    let f = face_at(faces_lump(s), j);
    let mv = meshvert_at(meshverts_lump(s), f.meshvert + k);
    0 <= f.vertex + mv < n_vertices(s)
}

/// Face record `j` is internally valid: its texture index and its
/// whole mesh-vertex run are in bounds.
pub open spec fn face_ok(s: Seq<u8>, j: int) -> bool {
    let f = face_at(faces_lump(s), j);
    &&& 0 <= f.texture < n_textures(s)
    &&& 0 <= f.meshvert
    &&& 0 <= f.n_meshverts
    &&& f.meshvert + f.n_meshverts <= n_meshverts(s)
    &&& forall|k: int| 0 <= k < f.n_meshverts ==> vertex_ref_ok(s, j, k)
}

/// The render vertex produced by mesh-vertex reference `k` of face
/// `j`.
pub open spec fn expanded_vertex(s: Seq<u8>, j: int, k: int) -> Vertex {
    let f = face_at(faces_lump(s), j);
    let mv = meshvert_at(meshverts_lump(s), f.meshvert + k);
    render_vertex_of(vertex_at(vertices_lump(s), f.vertex + mv))
}

/// All render vertices of face `j`, in run order.
pub open spec fn face_verts(s: Seq<u8>, j: int) -> Seq<Vertex> {
    let f = face_at(faces_lump(s), j);
    Seq::new(
        (if f.n_meshverts >= 0 {
            f.n_meshverts as int
        } else {
            0
        }) as nat,
        |k: int| expanded_vertex(s, j, k),
    )
}

/// The flat vertex buffer for texture `t` after the first `upto`
/// faces: the expansions of its faces, concatenated in face order.
pub open spec fn verts_for_tex(s: Seq<u8>, t: int, upto: int) -> Seq<Vertex>
    decreases upto,
{
    if upto <= 0 {
        Seq::empty()
    } else if face_at(faces_lump(s), upto - 1).texture == t {
        verts_for_tex(s, t, upto - 1) + face_verts(s, upto - 1)
    } else {
        verts_for_tex(s, t, upto - 1)
    }
}

/// Some of the first `upto` faces use texture `t`.
pub open spec fn tex_used_upto(s: Seq<u8>, t: int, upto: int) -> bool {
    exists|j: int| 0 <= j < upto && (#[trigger] face_at(faces_lump(s), j)).texture == t
}

/// Some face of the file uses texture `t`.
pub open spec fn tex_used(s: Seq<u8>, t: int) -> bool {
    tex_used_upto(s, t, n_faces(s))
}

/// The texture indices that get a mesh, in ascending order: every
/// texture below `upto_t` that some face uses.
pub open spec fn used_textures(s: Seq<u8>, upto_t: int) -> Seq<int>
    decreases upto_t,
{
    if upto_t <= 0 {
        Seq::empty()
    } else if tex_used(s, upto_t - 1) {
        used_textures(s, upto_t - 1).push(upto_t - 1)
    } else {
        used_textures(s, upto_t - 1)
    }
}

/// The input decodes into render meshes: directory and lumps are well
/// formed, every face's references are in bounds, and no texture's
/// flat buffer outgrows a 32-bit index.
pub open spec fn graphics_ok(s: Seq<u8>) -> bool {
    &&& dir_ok(s)
    &&& textures_lump(s).len() % 72 == 0
    &&& vertices_lump(s).len() % 44 == 0
    &&& meshverts_lump(s).len() % 4 == 0
    &&& faces_lump(s).len() % 104 == 0
    &&& forall|j: int| 0 <= j < n_faces(s) ==> face_ok(s, j)
    &&& forall|t: int| 0 <= t < n_textures(s) ==> (#[trigger] verts_for_tex(
        s,
        t,
        n_faces(s),
    )).len() <= 0xFFFF_FFFF
}

/// One produced mesh matches texture `t` of the file.
pub open spec fn model_matches(m: Model, s: Seq<u8>, t: int) -> bool {
    &&& m.vertices@ == verts_for_tex(s, t, n_faces(s))
    &&& m.indices@.len() == m.vertices@.len()
    &&& forall|i: int| 0 <= i < m.indices@.len() ==> m.indices@[i] == i
    &&& m.texture@ == utf8_lossy_of(tex_name_bytes(textures_lump(s), t))
}

/// The produced meshes are exactly the used textures, ascending, each
/// matching.
pub open spec fn models_match(ms: Seq<Model>, s: Seq<u8>) -> bool {
    &&& ms.len() == used_textures(s, n_textures(s)).len()
    &&& forall|k: int| 0 <= k < ms.len() ==> model_matches(
        #[trigger] ms[k],
        s,
        used_textures(s, n_textures(s))[k],
    )
}

/// A texture's flat buffer only grows as more faces are scanned.
proof fn lemma_verts_for_tex_mono(s: Seq<u8>, t: int, a: int, b: int)
    requires
        0 <= a <= b,
    ensures
        verts_for_tex(s, t, a).len() <= verts_for_tex(s, t, b).len(),
    decreases b,
{
    if a < b {
        lemma_verts_for_tex_mono(s, t, a, b - 1);
    }
}


/// Validates every face record: texture index, mesh-vertex run and
/// every referenced vertex index in bounds.
fn check_faces(
    faces: &Vec<Face>,
    meshverts: &Vec<i32>,
    ntex: usize,
    nv: usize,
    Ghost(s): Ghost<Seq<u8>>,
) -> (ok: bool)
    requires
        faces@.len() == n_faces(s),
        forall|k: int| 0 <= k < faces@.len() ==> faces@[k] == face_at(faces_lump(s), k),
        meshverts@.len() == n_meshverts(s),
        forall|k: int| 0 <= k < meshverts@.len() ==> meshverts@[k] == meshvert_at(
            meshverts_lump(s),
            k,
        ),
        ntex == n_textures(s),
        nv == n_vertices(s),
        104 * faces@.len() <= usize::MAX,
        4 * meshverts@.len() <= usize::MAX,
        72 * ntex <= usize::MAX,
        44 * nv <= usize::MAX,
    ensures
        ok <==> (forall|j: int| 0 <= j < n_faces(s) ==> face_ok(s, j)),
{
    let nf: usize = faces.len();
    let nmv: usize = meshverts.len();
    let mut j: usize = 0;
    while j < nf
        invariant
            nf == faces@.len(),
            nmv == meshverts@.len(),
            nf == n_faces(s),
            nmv == n_meshverts(s),
            forall|k: int| 0 <= k < faces@.len() ==> faces@[k] == face_at(faces_lump(s), k),
            forall|k: int| 0 <= k < meshverts@.len() ==> meshverts@[k] == meshvert_at(
                meshverts_lump(s),
                k,
            ),
            ntex == n_textures(s),
            nv == n_vertices(s),
            104 * nf <= usize::MAX,
            4 * nmv <= usize::MAX,
            72 * ntex <= usize::MAX,
            44 * nv <= usize::MAX,
            j <= nf,
            forall|q: int| 0 <= q < j ==> #[trigger] face_ok(s, q),
        decreases nf - j,
    {
        let f: Face = faces[j];
        if !(0 <= f.texture && (f.texture as i64) < (ntex as i64)) {
            assert(!face_ok(s, j as int));
            assert(exists|q: int| 0 <= q < n_faces(s) && !(#[trigger] face_ok(s, q)));
            return false;
        }
        if !(0 <= f.meshvert && 0 <= f.n_meshverts && (f.meshvert as i64) + (f.n_meshverts as i64)
            <= (nmv as i64)) {
            assert(!face_ok(s, j as int));
            assert(exists|q: int| 0 <= q < n_faces(s) && !(#[trigger] face_ok(s, q)));
            return false;
        }
        let run: usize = f.n_meshverts as usize;
        let start: usize = f.meshvert as usize;
        let mut k: usize = 0;
        while k < run
            invariant
                nmv == meshverts@.len(),
                nmv == n_meshverts(s),
                forall|q: int| 0 <= q < faces@.len() ==> faces@[q] == face_at(faces_lump(s), q),
                forall|q: int| 0 <= q < meshverts@.len() ==> meshverts@[q] == meshvert_at(
                    meshverts_lump(s),
                    q,
                ),
                nv == n_vertices(s),
                44 * nv <= usize::MAX,
                faces@.len() == n_faces(s),
                j < faces@.len(),
                f == face_at(faces_lump(s), j as int),
                run == f.n_meshverts,
                start == f.meshvert,
                start + run <= nmv,
                k <= run,
                forall|q: int| 0 <= q < k ==> #[trigger] vertex_ref_ok(s, j as int, q),
            decreases run - k,
        {
            let mv: i32 = meshverts[start + k];
            let vt: i64 = (f.vertex as i64) + (mv as i64);
            if !(0 <= vt && vt < (nv as i64)) {
                assert(!vertex_ref_ok(s, j as int, k as int));
                assert(!face_ok(s, j as int));
                assert(exists|q: int| 0 <= q < n_faces(s) && !(#[trigger] face_ok(s, q)));
                return false;
            }
            k = k + 1;
        }
        assert(face_ok(s, j as int));
        j = j + 1;
    }
    true
}

/// Builds the flat vertex buffer for texture `t` by scanning every
/// face, and reports whether any face used the texture at all.  Fails
/// only when the buffer outgrows a 32-bit index.
fn build_tex_verts(
    t: usize,
    faces: &Vec<Face>,
    meshverts: &Vec<i32>,
    vertices: &Vec<VertexRec>,
    Ghost(s): Ghost<Seq<u8>>,
) -> (r: Result<(Vec<Vertex>, bool), BspError>)
    requires
        faces@.len() == n_faces(s),
        forall|k: int| 0 <= k < faces@.len() ==> faces@[k] == face_at(faces_lump(s), k),
        meshverts@.len() == n_meshverts(s),
        forall|k: int| 0 <= k < meshverts@.len() ==> meshverts@[k] == meshvert_at(
            meshverts_lump(s),
            k,
        ),
        vertices@.len() == n_vertices(s),
        forall|k: int| 0 <= k < vertices@.len() ==> vertices@[k] == vertex_at(vertices_lump(s), k)
            && vertex_rec_bounded(#[trigger] vertices@[k]),
        forall|q: int| 0 <= q < n_faces(s) ==> #[trigger] face_ok(s, q),
        t < n_textures(s),
    ensures
        r matches Ok(p) ==> p.0@ == verts_for_tex(s, t as int, n_faces(s)) && p.0@.len()
            <= 0xFFFF_FFFF && p.1 == tex_used(s, t as int),
        r is Err ==> verts_for_tex(s, t as int, n_faces(s)).len() > 0xFFFF_FFFF,
{
    let nf: usize = faces.len();
    let nmv: usize = meshverts.len();
    let nv: usize = vertices.len();
    let mut verts: Vec<Vertex> = Vec::new();
    let mut used: bool = false;
    let mut j: usize = 0;
    while j < nf
        invariant
            nf == faces@.len(),
            nmv == meshverts@.len(),
            nv == vertices@.len(),
            nf == n_faces(s),
            nmv == n_meshverts(s),
            nv == n_vertices(s),
            forall|k: int| 0 <= k < faces@.len() ==> faces@[k] == face_at(faces_lump(s), k),
            forall|k: int| 0 <= k < meshverts@.len() ==> meshverts@[k] == meshvert_at(
                meshverts_lump(s),
                k,
            ),
            forall|k: int| 0 <= k < vertices@.len() ==> vertices@[k] == vertex_at(
                vertices_lump(s),
                k,
            ) && vertex_rec_bounded(#[trigger] vertices@[k]),
            forall|q: int| 0 <= q < n_faces(s) ==> #[trigger] face_ok(s, q),
            j <= nf,
            verts@ == verts_for_tex(s, t as int, j as int),
            verts@.len() <= 0xFFFF_FFFF,
            used == tex_used_upto(s, t as int, j as int),
        decreases nf - j,
    {
        let f: Face = faces[j];
        if f.texture >= 0 && f.texture as usize == t {
            used = true;
            proof {
                assert(face_ok(s, j as int));
            }
            let run: usize = f.n_meshverts as usize;
            let start: usize = f.meshvert as usize;
            if (verts.len() as u64) + (run as u64) > 0xFFFF_FFFF {
                proof {
                    assert(verts_for_tex(s, t as int, j + 1).len() > 0xFFFF_FFFF);
                    lemma_verts_for_tex_mono(s, t as int, j + 1, n_faces(s));
                }
                return Err(BspError::Decode);
            }
            let mut k: usize = 0;
            while k < run
                invariant
                    nmv == meshverts@.len(),
                    nv == vertices@.len(),
                    nmv == n_meshverts(s),
                    nv == n_vertices(s),
                    forall|q: int| 0 <= q < faces@.len() ==> faces@[q] == face_at(faces_lump(s), q),
                    forall|q: int| 0 <= q < meshverts@.len() ==> meshverts@[q] == meshvert_at(
                        meshverts_lump(s),
                        q,
                    ),
                    forall|q: int| 0 <= q < vertices@.len() ==> vertices@[q] == vertex_at(
                        vertices_lump(s),
                        q,
                    ) && vertex_rec_bounded(#[trigger] vertices@[q]),
                    j < faces@.len(),
                    f == face_at(faces_lump(s), j as int),
                    face_ok(s, j as int),
                    run == f.n_meshverts,
                    start == f.meshvert,
                    start + run <= nmv,
                    k <= run,
                    verts@ == verts_for_tex(s, t as int, j as int) + face_verts(s, j as int).take(
                        k as int,
                    ),
                    verts@.len() + (run - k) <= 0xFFFF_FFFF,
                decreases run - k,
            {
                proof {
                    assert(vertex_ref_ok(s, j as int, k as int));
                }
                let mv: i32 = meshverts[start + k];
                let vidx: usize = ((f.vertex as i64) + (mv as i64)) as usize;
                let rec: VertexRec = vertices[vidx];
                let vert = Vertex {
                    position: Vec3 { x: rec.position.x, y: rec.position.z, z: rec.position.y },
                    tex_u: rec.tex_u,
                    tex_v: SCALE - rec.tex_v,
                };
                verts.push(vert);
                proof {
                    assert(vert == expanded_vertex(s, j as int, k as int));
                    assert(verts@ =~= verts_for_tex(s, t as int, j as int) + face_verts(
                        s,
                        j as int,
                    ).take(k + 1));
                }
                k = k + 1;
            }
            proof {
                assert(face_verts(s, j as int).take(run as int) =~= face_verts(s, j as int));
                assert(verts@ =~= verts_for_tex(s, t as int, j + 1));
            }
        }
        j = j + 1;
    }
    Ok((verts, used))
}

/// Decodes the texture, vertex, mesh-vertex and face lumps and
/// assembles one render mesh per texture that some face uses, in
/// ascending texture order.  Returns `Ok` exactly when
/// [`graphics_ok`] holds of the input; the meshes satisfy
/// [`models_match`].
pub fn import_graphics_model(data: &[u8]) -> (r: Result<Vec<Model>, BspError>)
    ensures
        r is Ok <==> graphics_ok(data@),
        r matches Ok(ms) ==> models_match(ms@, data@),
{
    let dlen: usize = data.len();
    let directory = match read_directory(data) {
        Ok(d) => d,
        Err(e) => { return Err(e); },
    };
    let faces = match read_faces(lump_slice(data, directory.faces)) {
        Ok(v) => v,
        Err(e) => { return Err(e); },
    };
    let vertices = match read_vertices(lump_slice(data, directory.vertices)) {
        Ok(v) => v,
        Err(e) => { return Err(e); },
    };
    let meshverts = match read_meshverts(lump_slice(data, directory.meshverts)) {
        Ok(v) => v,
        Err(e) => { return Err(e); },
    };
    let textures = match read_textures(lump_slice(data, directory.textures)) {
        Ok(v) => v,
        Err(e) => { return Err(e); },
    };
    proof {
        vstd::arithmetic::div_mod::lemma_fundamental_div_mod(faces_lump(data@).len() as int, 104);
        vstd::arithmetic::div_mod::lemma_fundamental_div_mod(vertices_lump(data@).len() as int, 44);
        vstd::arithmetic::div_mod::lemma_fundamental_div_mod(
            meshverts_lump(data@).len() as int,
            4,
        );
        vstd::arithmetic::div_mod::lemma_fundamental_div_mod(textures_lump(data@).len() as int, 72);
    }
    let ntex: usize = textures.len();
    let nv: usize = vertices.len();
    if !check_faces(&faces, &meshverts, ntex, nv, Ghost(data@)) {
        return Err(BspError::Decode);
    }
    let mut models: Vec<Model> = Vec::new();
    let mut t: usize = 0;
    while t < ntex
        invariant
            ntex == textures@.len(),
            nv == vertices@.len(),
            ntex == n_textures(data@),
            nv == n_vertices(data@),
            faces@.len() == n_faces(data@),
            forall|k: int| 0 <= k < faces@.len() ==> faces@[k] == face_at(faces_lump(data@), k),
            meshverts@.len() == n_meshverts(data@),
            forall|k: int| 0 <= k < meshverts@.len() ==> meshverts@[k] == meshvert_at(
                meshverts_lump(data@),
                k,
            ),
            forall|k: int| 0 <= k < vertices@.len() ==> vertices@[k] == vertex_at(
                vertices_lump(data@),
                k,
            ) && vertex_rec_bounded(#[trigger] vertices@[k]),
            forall|k: int| 0 <= k < textures@.len() ==> texture_matches(
                #[trigger] textures@[k],
                textures_lump(data@),
                k,
            ),
            forall|q: int| 0 <= q < n_faces(data@) ==> #[trigger] face_ok(data@, q),
            t <= ntex,
            forall|q: int| 0 <= q < t ==> (#[trigger] verts_for_tex(
                data@,
                q,
                n_faces(data@),
            )).len() <= 0xFFFF_FFFF,
            models@.len() == used_textures(data@, t as int).len(),
            forall|k: int| 0 <= k < models@.len() ==> model_matches(
                #[trigger] models@[k],
                data@,
                used_textures(data@, t as int)[k],
            ),
        decreases ntex - t,
    {
        let pair = match build_tex_verts(t, &faces, &meshverts, &vertices, Ghost(data@)) {
            Ok(p) => p,
            Err(_) => {
                return Err(BspError::Decode);
            },
        };
        let (verts, used) = pair;
        if used {
            let vl: usize = verts.len();
            let mut indices: Vec<u32> = Vec::new();
            let mut i: usize = 0;
            while i < vl
                invariant
                    vl <= 0xFFFF_FFFF,
                    i <= vl,
                    indices@.len() == i,
                    forall|q: int| 0 <= q < i ==> indices@[q] == q,
                decreases vl - i,
            {
                indices.push(i as u32);
                i = i + 1;
            }
            let name: String = textures[t].name.clone();
            models.push(Model { vertices: verts, indices, texture: name });
        }
        t = t + 1;
    }
    proof {
        assert(graphics_ok(data@));
    }
    Ok(models)
}


/// Total render vertices declared by the first `upto` face records:
/// the sum of their mesh-vertex counts.
pub open spec fn declared_vertex_total(s: Seq<u8>, upto: int) -> int
    decreases upto,
{
    if upto <= 0 {
        0
    } else {
        declared_vertex_total(s, upto - 1) + face_verts(s, upto - 1).len()
    }
}

/// Total vertices across the first `upto` produced meshes.
pub open spec fn models_vertex_total(ms: Seq<Model>, upto: int) -> int
    decreases upto,
{
    if upto <= 0 {
        0
    } else {
        models_vertex_total(ms, upto - 1) + ms[upto - 1].vertices@.len()
    }
}

/// Total vertices across the buffers of every texture below
/// `bound_t`, after scanning the first `upto` faces.
spec fn sum_tex(s: Seq<u8>, bound_t: int, upto: int) -> int
    decreases bound_t,
{
    if bound_t <= 0 {
        0
    } else {
        sum_tex(s, bound_t - 1, upto) + verts_for_tex(s, bound_t - 1, upto).len()
    }
}

proof fn lemma_sum_tex_zero(s: Seq<u8>, bound_t: int)
    ensures
        sum_tex(s, bound_t, 0) == 0,
    decreases bound_t,
{
    if bound_t > 0 {
        lemma_sum_tex_zero(s, bound_t - 1);
    }
}

/// Scanning one more face adds its vertex count to exactly one
/// texture's buffer (or none, when its texture is out of range).
proof fn lemma_sum_tex_step(s: Seq<u8>, bound_t: int, u: int)
    requires
        u >= 0,
    ensures
        sum_tex(s, bound_t, u + 1) == sum_tex(s, bound_t, u) + (if 0 <= face_at(
            faces_lump(s),
            u,
        ).texture < bound_t {
            face_verts(s, u).len() as int
        } else {
            0
        }),
    decreases bound_t,
{
    if bound_t > 0 {
        lemma_sum_tex_step(s, bound_t - 1, u);
    }
}

/// With every face's texture in range, the per-texture totals add up
/// to the declared total.
proof fn lemma_sum_exchange(s: Seq<u8>, bound_t: int, u: int)
    requires
        0 <= u,
        forall|j: int| 0 <= j < u ==> 0 <= (#[trigger] face_at(faces_lump(s), j)).texture
            < bound_t,
    ensures
        sum_tex(s, bound_t, u) == declared_vertex_total(s, u),
    decreases u,
{
    if u == 0 {
        lemma_sum_tex_zero(s, bound_t);
    } else {
        lemma_sum_exchange(s, bound_t, u - 1);
        lemma_sum_tex_step(s, bound_t, u - 1);
    }
}

/// A texture no face uses gets an empty buffer.
proof fn lemma_unused_tex_empty(s: Seq<u8>, t: int, u: int)
    requires
        forall|j: int| 0 <= j < u ==> (#[trigger] face_at(faces_lump(s), j)).texture != t,
    ensures
        verts_for_tex(s, t, u).len() == 0,
    decreases u,
{
    if u > 0 {
        lemma_unused_tex_empty(s, t, u - 1);
    }
}

/// The used-texture list only grows with the bound, keeping its
/// prefix.
proof fn lemma_used_textures_prefix(s: Seq<u8>, a: int, b: int)
    requires
        0 <= a <= b,
    ensures
        used_textures(s, a).len() <= used_textures(s, b).len(),
        forall|k: int| 0 <= k < used_textures(s, a).len() ==> used_textures(s, b)[k]
            == used_textures(s, a)[k],
    decreases b,
{
    if a < b {
        lemma_used_textures_prefix(s, a, b - 1);
    }
}

proof fn lemma_models_total(ms: Seq<Model>, s: Seq<u8>, bound_t: int)
    requires
        0 <= bound_t <= n_textures(s),
        models_match(ms, s),
    ensures
        models_vertex_total(ms, used_textures(s, bound_t).len() as int) == sum_tex(
            s,
            bound_t,
            n_faces(s),
        ),
    decreases bound_t,
{
    if bound_t == 0 {
    } else {
        lemma_models_total(ms, s, bound_t - 1);
        lemma_used_textures_prefix(s, bound_t, n_textures(s));
        if tex_used(s, bound_t - 1) {
            let ln: int = used_textures(s, bound_t).len() as int;
            assert(used_textures(s, bound_t)[ln - 1] == bound_t - 1);
            assert(model_matches(ms[ln - 1], s, bound_t - 1));
        } else {
            assert(forall|j: int| 0 <= j < n_faces(s) ==> (#[trigger] face_at(
                faces_lump(s),
                j,
            )).texture != bound_t - 1);
            lemma_unused_tex_empty(s, bound_t - 1, n_faces(s));
        }
    }
}

/// Counting the import round trip: the meshes a well-formed input
/// produces hold, in total, exactly as many vertices as its face
/// records declare (each mesh's index buffer matching its vertex
/// buffer one to one is part of [`models_match`]).
pub proof fn lemma_models_vertex_total(ms: Seq<Model>, s: Seq<u8>)
    requires
        graphics_ok(s),
        models_match(ms, s),
    ensures
        models_vertex_total(ms, ms.len() as int) == declared_vertex_total(s, n_faces(s)),
{
    lemma_models_total(ms, s, n_textures(s));
    assert forall|j: int| 0 <= j < n_faces(s) implies 0 <= (#[trigger] face_at(
        faces_lump(s),
        j,
    )).texture < n_textures(s) by {
        assert(face_ok(s, j));
    }
    lemma_sum_exchange(s, n_textures(s), n_faces(s));
}

} // verus!
