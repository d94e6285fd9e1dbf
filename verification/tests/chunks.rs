use std::collections::HashSet;
use voxel_game::chunks::{
    Block, Chunk, ChunkGenerator, ChunkManager, ChunkVerticesGenerator, Position, Vertex,
    CHUNK_VOLUME, CUBE_INDICES, CUBE_VERTICES,
};

fn expected_block(x: i64, y: i64, z: i64) -> Block {
    if x == 0 {
        Block::Red
    } else if y == 0 {
        Block::Green
    } else if z == 0 {
        Block::Blue
    } else {
        Block::Empty
    }
}

/// The triangle list of the chunks at `queue`, computed independently of the library.
fn expected_triangles(queue: &[(i64, i64, i64)]) -> Vec<Vertex> {
    let mut out = Vec::new();
    for &(cx, cy, cz) in queue {
        for i in 0..4096i64 {
            let (x, y, z) = (cx * 16 + i % 16, cy * 16 + (i / 16) % 16, cz * 16 + i / 256);
            let b = expected_block(x, y, z);
            if b == Block::Empty {
                continue;
            }
            for k in CUBE_INDICES.iter() {
                let c = CUBE_VERTICES[*k as usize];
                out.push(Vertex::new(
                    [(x + c[0] as i64) as i32, (y + c[1] as i64) as i32, (z + c[2] as i64) as i32],
                    b.get_color(),
                ));
            }
        }
    }
    out
}

fn surrounding(c: (i64, i64, i64)) -> Vec<(i64, i64, i64)> {
    let mut v = Vec::new();
    for x in c.0 - 2..c.0 + 2 {
        for y in c.1 - 2..c.1 + 2 {
            for z in c.2 - 2..c.2 + 2 {
                v.push((x, y, z));
            }
        }
    }
    v
}

fn check_mesh(vertices: &[Vertex], indices: &[u32], expected: &[Vertex]) {
    assert_eq!(indices.len(), expected.len());
    for (k, idx) in indices.iter().enumerate() {
        assert_eq!(vertices[*idx as usize], expected[k]);
    }
    let distinct: HashSet<Vertex> = vertices.iter().copied().collect();
    assert_eq!(distinct.len(), vertices.len());
    // first occurrences, in order
    let mut seen = HashSet::new();
    let mut firsts = Vec::new();
    for v in expected {
        if seen.insert(*v) {
            firsts.push(*v);
        }
    }
    assert_eq!(firsts, vertices.to_vec());
}

#[test]
fn block_colors() {
    assert_eq!(Block::Red.get_color(), [255, 0, 0, 255]);
    assert_eq!(Block::Green.get_color(), [0, 255, 0, 255]);
    assert_eq!(Block::Blue.get_color(), [0, 0, 255, 255]);
    assert_eq!(Block::Empty.get_color(), [255, 0, 255, 255]);
}

#[test]
fn block_default_is_empty() {
    assert_eq!(Block::default(), Block::Empty);
}

#[test]
fn chunk_default_is_all_empty() {
    let c = Chunk::default();
    assert_eq!(c.blocks().len(), CHUNK_VOLUME);
    assert!(c.blocks().iter().all(|b| *b == Block::Empty));
}

#[test]
fn position_arithmetic() {
    let p = Position::new(1, -2, 3);
    assert_eq!(p.plus(Position::new(10, 20, 30)), Position::new(11, 18, 33));
    assert_eq!(p.times(16), Position::new(16, -32, 48));
}

#[test]
fn position_from_index() {
    assert_eq!(ChunkGenerator::get_position_from_index(0), Position::new(0, 0, 0));
    assert_eq!(ChunkGenerator::get_position_from_index(17), Position::new(1, 1, 0));
    assert_eq!(ChunkGenerator::get_position_from_index(256), Position::new(0, 0, 1));
    assert_eq!(ChunkGenerator::get_position_from_index(4095), Position::new(15, 15, 15));
}

#[test]
fn generate_chunk_at_origin() {
    let g = ChunkGenerator::new();
    let c = g.generate_chunk(&Position::new(0, 0, 0));
    let b = c.blocks();
    assert_eq!(b[0], Block::Red);
    assert_eq!(b[1], Block::Green);
    assert_eq!(b[17], Block::Blue);
    assert_eq!(b[273], Block::Empty);
    for i in 0..4096i64 {
        assert_eq!(b[i as usize], expected_block(i % 16, (i / 16) % 16, i / 256));
    }
}

#[test]
fn generate_chunk_negative_and_far() {
    let g = ChunkGenerator::new();
    let c = g.generate_chunk(&Position::new(-1, 0, 5));
    for i in 0..4096i64 {
        let e = expected_block(-16 + i % 16, (i / 16) % 16, 80 + i / 256);
        assert_eq!(c.blocks()[i as usize], e);
    }
    let far = g.generate_chunk(&Position::new(3, 3, 3));
    assert!(far.blocks().iter().all(|b| *b == Block::Empty));
}

#[test]
fn get_chunk_at_returns_generated_chunk_each_time() {
    let mut g = ChunkGenerator::new();
    let first: Vec<Block> = g.get_chunk_at(Position::new(0, -1, 0)).blocks().to_vec();
    let again: Vec<Block> = g.get_chunk_at(Position::new(0, -1, 0)).blocks().to_vec();
    assert_eq!(first, again);
    let fresh = g.generate_chunk(&Position::new(0, -1, 0));
    assert_eq!(first, fresh.blocks().to_vec());
    g.maybe_generate_chunk_at(&Position::new(2, 2, 2));
    assert!(g.get_chunk_at(Position::new(2, 2, 2)).blocks().iter().all(|b| *b == Block::Empty));
}

#[test]
fn vertex_new_keeps_fields() {
    let v = Vertex::new([1, -2, 3], [4, 5, 6, 7]);
    assert_eq!(v.position, [1, -2, 3]);
    assert_eq!(v.color, [4, 5, 6, 7]);
}

#[test]
fn vertices_generator_starts_empty() {
    let g = ChunkVerticesGenerator::new();
    assert!(g.vertices.is_empty());
    assert!(g.indices.is_empty());
}

#[test]
fn mesh_far_from_planes_is_empty() {
    let mut m = ChunkManager::new();
    m.regenerate_chunks_at(Position::new(100, 100, 100));
    let (v, i) = m.get_vertices_and_indices();
    assert!(v.is_empty());
    assert!(i.is_empty());
}

#[test]
fn mesh_of_single_plane() {
    // Only the red plane x = 0 passes through the 64 chunks around (0, 100, 100).
    let mut m = ChunkManager::new();
    m.regenerate_chunks_at(Position::new(0, 100, 100));
    let (v, i) = m.get_vertices_and_indices();
    assert_eq!(i.len(), 64 * 64 * 36);
    assert_eq!(v.len(), 2 * 65 * 65);
    assert!(v.iter().all(|x| x.color == [255, 0, 0, 255]));
    let expected = expected_triangles(&surrounding((0, 100, 100)));
    check_mesh(v, i, &expected);
}

#[test]
fn mesh_around_origin_reproduces_triangle_list() {
    let mut m = ChunkManager::new();
    m.regenerate_chunks_at(Position::new(0, 0, 0));
    let (v, i) = m.get_vertices_and_indices();
    let expected = expected_triangles(&surrounding((0, 0, 0)));
    check_mesh(v, i, &expected);
}

#[test]
fn regenerating_twice_gives_same_mesh() {
    let mut m = ChunkManager::new();
    m.regenerate_chunks_at(Position::new(0, 0, 1));
    let (v1, i1) = m.get_vertices_and_indices();
    let (v1, i1) = (v1.clone(), i1.clone());
    m.regenerate_chunks_at(Position::new(0, 0, 1));
    let (v2, i2) = m.get_vertices_and_indices();
    assert_eq!(&v1, v2);
    assert_eq!(&i1, i2);
}

#[test]
fn queued_chunks_are_drawn_in_order() {
    // Two calls queue 128 chunks; the mesh follows the order of the queue.
    let mut g = ChunkGenerator::new();
    g.get_chunks_from_player_position(Position::new(0, 50, 50));
    g.get_chunks_from_player_position(Position::new(50, 0, 50));
    let mut mesh = ChunkVerticesGenerator::new();
    mesh.regenerate_vertices(&mut g);
    let mut queue = surrounding((0, 50, 50));
    queue.extend(surrounding((50, 0, 50)));
    let expected = expected_triangles(&queue);
    check_mesh(&mesh.vertices, &mesh.indices, &expected);
    // The queue is empty now: a second pass yields an empty mesh.
    mesh.regenerate_vertices(&mut g);
    assert!(mesh.vertices.is_empty());
    assert!(mesh.indices.is_empty());
}

#[test]
fn queue_given_twice_repeats_indices_only() {
    let mut once = ChunkGenerator::new();
    once.get_chunks_from_player_position(Position::new(0, 0, 1));
    let mut m1 = ChunkVerticesGenerator::new();
    m1.regenerate_vertices(&mut once);

    let mut twice = ChunkGenerator::new();
    twice.get_chunks_from_player_position(Position::new(0, 0, 1));
    twice.get_chunks_from_player_position(Position::new(0, 0, 1));
    let mut m2 = ChunkVerticesGenerator::new();
    m2.regenerate_vertices(&mut twice);

    assert!(!m1.indices.is_empty());
    assert_eq!(m2.vertices, m1.vertices);
    let mut doubled = m1.indices.clone();
    doubled.extend_from_slice(&m1.indices);
    assert_eq!(m2.indices, doubled);
}
