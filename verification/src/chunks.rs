use std::collections::HashMap;
use std::collections::VecDeque;
use vstd::prelude::*;

verus! {

broadcast use vstd::std_specs::hash::group_hash_axioms;

/// Edge length of a cubic chunk, in blocks.
pub const CHUNK_SIZE: usize = 16;

/// Number of blocks in one chunk.
pub const CHUNK_VOLUME: usize = CHUNK_SIZE * CHUNK_SIZE * CHUNK_SIZE;

/// How many chunks are queued on each side of the player's chunk.
pub const RENDERING_DISTANCE: i32 = 2;

/// The kind of a block in the voxel world.
#[derive(Clone, Copy, Debug, PartialEq, Eq, Structural)]
pub enum Block {
    Red,
    Green,
    Blue,
    Empty,
}

/// The RGBA color with which a block is drawn.
pub open spec fn block_color(b: Block) -> [u8; 4] {
    match b {
        Block::Red => [255u8, 0u8, 0u8, 255u8],
        Block::Blue => [0u8, 0u8, 255u8, 255u8],
        Block::Green => [0u8, 255u8, 0u8, 255u8],
        Block::Empty => [255u8, 0u8, 255u8, 255u8],
    }
}

impl Block {
    /// The RGBA color of this block; an empty block shows as purple.
    pub fn get_color(&self) -> (color: [u8; 4])
        ensures
            color == block_color(*self),
    {
        match *self {
            Block::Red => [255, 0, 0, 255],
            Block::Blue => [0, 0, 255, 255],
            Block::Green => [0, 255, 0, 255],
            Block::Empty => [255, 0, 255, 255],
        }
    }
}

impl Default for Block {
    fn default() -> (b: Self)
        ensures
            b == Block::Empty,
    {
        Block::Empty
    }
}

/// An integer point or offset in three dimensions: a block in the world, or a chunk in the
/// grid of chunks.
#[derive(Clone, Copy, Debug, PartialEq, Eq, Structural)]
pub struct Position {
    pub x: i32,
    pub y: i32,
    pub z: i32,
}

impl Position {
    pub fn new(x: i32, y: i32, z: i32) -> (p: Position)
        ensures
            p.x == x,
            p.y == y,
            p.z == z,
    {
        Position { x, y, z }
    }

    /// Component-wise sum; the components must not overflow.
    pub fn plus(self, other: Position) -> (p: Position)
        requires
            i32::MIN <= self.x + other.x <= i32::MAX,
            i32::MIN <= self.y + other.y <= i32::MAX,
            i32::MIN <= self.z + other.z <= i32::MAX,
        ensures
            p.x == self.x + other.x,
            p.y == self.y + other.y,
            p.z == self.z + other.z,
    {
        Position { x: self.x + other.x, y: self.y + other.y, z: self.z + other.z }
    }

    /// Every component multiplied by `k`; the products must not overflow.
    pub fn times(self, k: i32) -> (p: Position)
        requires
            i32::MIN <= self.x * k <= i32::MAX,
            i32::MIN <= self.y * k <= i32::MAX,
            i32::MIN <= self.z * k <= i32::MAX,
        ensures
            p.x == self.x * k,
            p.y == self.y * k,
            p.z == self.z * k,
    {
        Position { x: self.x * k, y: self.y * k, z: self.z * k }
    }
}

/// Offset of the `i`-th block of a chunk from the chunk's first block: x varies fastest,
/// then y, then z.
pub open spec fn local_x(i: int) -> int {
    i % 16
}

pub open spec fn local_y(i: int) -> int {
    (i / 16) % 16
}

pub open spec fn local_z(i: int) -> int {
    i / 256
}

/// The block that world generation places at the given world coordinates: the three
/// coordinate planes through the origin are red (x = 0), green (y = 0) and blue (z = 0),
/// in that order of precedence; everything else is empty.
pub open spec fn block_kind(x: int, y: int, z: int) -> Block {
    if x == 0 {
        Block::Red
    } else if y == 0 {
        Block::Green
    } else if z == 0 {
        Block::Blue
    } else {
        Block::Empty
    }
}

/// The blocks of the chunk at chunk coordinates `p`, indexed as by `local_x/y/z`.
pub open spec fn chunk_blocks(p: Position) -> Seq<Block> {
    Seq::new(
        CHUNK_VOLUME as nat,
        |i: int| block_kind(p.x * 16 + local_x(i), p.y * 16 + local_y(i), p.z * 16 + local_z(i)),
    )
}

/// Law: the block at index `i` of the chunk at `p`, whose world coordinates are
/// `p * 16` plus the offsets `i % 16`, `(i / 16) % 16` and `i / 256`, is red where the
/// world x is 0, else green where the world y is 0, else blue where the world z is 0,
/// and empty everywhere else: the three planes run through the whole world.
pub proof fn lemma_world_planes(p: Position, i: int)
    requires
        0 <= i < CHUNK_VOLUME,
    ensures
        ({
            let x = p.x * 16 + i % 16;
            let y = p.y * 16 + (i / 16) % 16;
            let z = p.z * 16 + i / 256;
            let b = chunk_blocks(p)[i];
            &&& x == 0 ==> b == Block::Red
            &&& x != 0 && y == 0 ==> b == Block::Green
            &&& x != 0 && y != 0 && z == 0 ==> b == Block::Blue
            &&& x != 0 && y != 0 && z != 0 ==> b == Block::Empty
        }),
{
}

/// A chunk coordinate whose blocks all have world coordinates that fit in `i32`.
pub open spec fn coord_generates(c: int) -> bool {
    -0x800_0000 <= c < 0x800_0000
}

/// A chunk whose block coordinates all fit in `i32`, so that it can be generated.
pub open spec fn generates(p: Position) -> bool {
    coord_generates(p.x as int) && coord_generates(p.y as int) && coord_generates(p.z as int)
}

/// Encoding of three `i32` values as one integer below 2^96, each shifted to be
/// non-negative and given 32 bits.
pub open spec fn position_code(x: i32, y: i32, z: i32) -> int {
    (x + 0x8000_0000) * 0x1_0000_0000_0000_0000 + (y + 0x8000_0000) * 0x1_0000_0000 + (z
        + 0x8000_0000)
}

/// The hash-map key under which the chunk at `p` is stored.
pub open spec fn position_key(p: Position) -> u128 {
    position_code(p.x, p.y, p.z) as u128
}

pub proof fn lemma_position_code_bounds(x: i32, y: i32, z: i32)
    ensures
        0 <= position_code(x, y, z) < 0x1_0000_0000_0000_0000_0000_0000,
{
}

/// Distinct coordinates have distinct codes.
pub proof fn lemma_position_code_injective(x1: i32, y1: i32, z1: i32, x2: i32, y2: i32, z2: i32)
    requires
        position_code(x1, y1, z1) == position_code(x2, y2, z2),
    ensures
        x1 == x2,
        y1 == y2,
        z1 == z2,
{
}

/// Distinct chunk positions have distinct keys.
pub proof fn lemma_position_key_injective(p: Position, q: Position)
    requires
        position_key(p) == position_key(q),
    ensures
        p == q,
{
    lemma_position_code_bounds(p.x, p.y, p.z);
    lemma_position_code_bounds(q.x, q.y, q.z);
    lemma_position_code_injective(p.x, p.y, p.z, q.x, q.y, q.z);
}

fn position_key_of(p: &Position) -> (k: u128)
    ensures
        k == position_key(*p),
{
    let x: u128 = (p.x as i64 + 0x8000_0000i64) as u128;
    let y: u128 = (p.y as i64 + 0x8000_0000i64) as u128;
    let z: u128 = (p.z as i64 + 0x8000_0000i64) as u128;
    (x * 0x1_0000_0000 + y) * 0x1_0000_0000 + z
}

/// A cubic piece of the world: `CHUNK_VOLUME` blocks.
pub struct Chunk {
    blocks: Vec<Block>,
}

impl View for Chunk {
    type V = Seq<Block>;

    closed spec fn view(&self) -> Seq<Block> {
        self.blocks@
    }
}

impl Default for Chunk {
    /// A chunk of empty blocks.
    fn default() -> (c: Self)
        ensures
            c@ == Seq::new(CHUNK_VOLUME as nat, |i: int| Block::Empty),
    {
        let mut blocks: Vec<Block> = Vec::new();
        let mut i: usize = 0;
        while i < CHUNK_VOLUME
            invariant
                i <= CHUNK_VOLUME,
                blocks@ == Seq::new(i as nat, |j: int| Block::Empty),
            decreases CHUNK_VOLUME - i,
        {
            blocks.push(Block::default());
            i = i + 1;
        }
        Chunk { blocks }
    }
}

impl Chunk {
    /// The blocks of this chunk, in index order.
    pub fn blocks(&self) -> (b: &[Block])
        ensures
            b@ == self@,
    {
        self.blocks.as_slice()
    }
}


/// The chunks of the world generated so far, and the chunks queued to be drawn.
pub struct ChunkGenerator {
    chunks_to_draw: VecDeque<Position>,
    generated_chunks: HashMap<u128, Chunk>,
}

/// The 4 x 4 x 4 chunk positions around the chunk `c`, from `c - RENDERING_DISTANCE` up to
/// `c + RENDERING_DISTANCE - 1` on each axis, with x varying slowest and z fastest.
pub open spec fn surrounding_chunks(c: Position) -> Seq<Position> {
    Seq::new(
        64,
        |n: int|
            Position {
                x: (c.x - 2 + n / 16) as i32,
                y: (c.y - 2 + (n / 4) % 4) as i32,
                z: (c.z - 2 + n % 4) as i32,
            },
    )
}

/// Law: the chunks queued around the player's chunk `c` are 64 distinct positions, and a
/// position is among them exactly when each of its coordinates lies in
/// `[c - RENDERING_DISTANCE, c + RENDERING_DISTANCE)` of the same coordinate of `c`; in
/// particular the player's own chunk is queued.
pub proof fn lemma_surrounding_is_box(c: Position)
    requires
        i32::MIN + 2 <= c.x <= i32::MAX - 2,
        i32::MIN + 2 <= c.y <= i32::MAX - 2,
        i32::MIN + 2 <= c.z <= i32::MAX - 2,
    ensures
        surrounding_chunks(c).len() == 64,
        surrounding_chunks(c).no_duplicates(),
        forall|q: Position|
            #[trigger] surrounding_chunks(c).contains(q) <==> (c.x - 2 <= q.x < c.x + 2 && c.y
                - 2 <= q.y < c.y + 2 && c.z - 2 <= q.z < c.z + 2),
        surrounding_chunks(c).contains(c),
{
    let g = surrounding_chunks(c);
    assert forall|n: int| 0 <= n < 64 implies {
        &&& c.x - 2 <= #[trigger] g[n].x < c.x + 2
        &&& c.y - 2 <= g[n].y < c.y + 2
        &&& c.z - 2 <= g[n].z < c.z + 2
        &&& n == (g[n].x - c.x + 2) * 16 + (g[n].y - c.y + 2) * 4 + (g[n].z - c.z + 2)
    } by {
        assert(0 <= n / 16 < 4);
        assert(0 <= (n / 4) % 4 < 4);
        assert(0 <= n % 4 < 4);
        assert(n == (n / 16) * 16 + ((n / 4) % 4) * 4 + n % 4) by (nonlinear_arith)
            requires
                0 <= n < 64,
        ;
    }
    assert forall|a: int, b: int| 0 <= a < g.len() && 0 <= b < g.len() && a != b implies g[a]
        != g[b] by {
        assert(c.x - 2 <= g[a].x);
        assert(c.x - 2 <= g[b].x);
    }
    assert forall|q: Position|
        (c.x - 2 <= q.x < c.x + 2 && c.y - 2 <= q.y < c.y + 2 && c.z - 2 <= q.z < c.z + 2)
            implies #[trigger] g.contains(q) by {
        let a = q.x - c.x + 2;
        let b = q.y - c.y + 2;
        let d = q.z - c.z + 2;
        lemma_grid_index(a, b, d);
        let n = a * 16 + b * 4 + d;
        assert(g[n] == q);
    }
    assert forall|q: Position| #[trigger] g.contains(q) implies (c.x - 2 <= q.x < c.x + 2 && c.y
        - 2 <= q.y < c.y + 2 && c.z - 2 <= q.z < c.z + 2) by {
        let n = choose|n: int| 0 <= n < g.len() && g[n] == q;
        assert(c.x - 2 <= g[n].x);
    }
    assert(g.contains(c) <==> (c.x - 2 <= c.x < c.x + 2 && c.y - 2 <= c.y < c.y + 2 && c.z - 2
        <= c.z < c.z + 2));
}

proof fn lemma_grid_index(a: int, b: int, c: int)
    requires
        0 <= a < 4,
        0 <= b < 4,
        0 <= c < 4,
    ensures
        (a * 16 + b * 4 + c) / 16 == a,
        ((a * 16 + b * 4 + c) / 4) % 4 == b,
        (a * 16 + b * 4 + c) % 4 == c,
{
    assert((a * 16 + b * 4 + c) / 16 == a) by (nonlinear_arith)
        requires
            0 <= a < 4,
            0 <= b < 4,
            0 <= c < 4,
    ;
    assert((a * 16 + b * 4 + c) / 4 == a * 4 + b) by (nonlinear_arith)
        requires
            0 <= a < 4,
            0 <= b < 4,
            0 <= c < 4,
    ;
    assert((a * 4 + b) % 4 == b) by (nonlinear_arith)
        requires
            0 <= a < 4,
            0 <= b < 4,
    ;
    assert((a * 16 + b * 4 + c) % 4 == c) by (nonlinear_arith)
        requires
            0 <= a < 4,
            0 <= b < 4,
            0 <= c < 4,
    ;
}

spec fn stored_chunks_wf(m: Map<u128, Chunk>) -> bool {
    forall|p: Position| #[trigger]
        m.contains_key(position_key(p)) ==> generates(p) && m[position_key(p)]@ == chunk_blocks(p)
}

proof fn lemma_store_chunk(m: Map<u128, Chunk>, p: Position, c: Chunk)
    requires
        stored_chunks_wf(m),
        generates(p),
        c@ == chunk_blocks(p),
    ensures
        stored_chunks_wf(m.insert(position_key(p), c)),
        forall|q: Position| #[trigger]
            m.insert(position_key(p), c).contains_key(position_key(q)) == (m.contains_key(
                position_key(q),
            ) || q == p),
{
    let m2 = m.insert(position_key(p), c);
    assert forall|q: Position| #[trigger] m2.contains_key(position_key(q)) implies generates(q)
        && m2[position_key(q)]@ == chunk_blocks(q) by {
        if position_key(q) == position_key(p) {
            lemma_position_key_injective(q, p);
        }
    }
    assert forall|q: Position| #[trigger]
        m2.contains_key(position_key(q)) == (m.contains_key(position_key(q)) || q == p) by {
        if position_key(q) == position_key(p) {
            lemma_position_key_injective(q, p);
        }
    }
}

impl ChunkGenerator {
    /// The chunk positions queued to be drawn, oldest first.
    pub closed spec fn queued(&self) -> Seq<Position> {
        self.chunks_to_draw@
    }

    /// Whether the chunk at `p` has been generated and stored.
    pub closed spec fn has_chunk(&self, p: Position) -> bool {
        self.generated_chunks@.contains_key(position_key(p))
    }

    /// Every stored chunk lies where generation is possible and holds exactly what
    /// generation produces for its position.
    pub closed spec fn wf(&self) -> bool {
        stored_chunks_wf(self.generated_chunks@)
    }

    /// A generator with no chunks and an empty queue.
    pub fn new() -> (g: Self)
        ensures
            g.wf(),
            g.queued() == Seq::<Position>::empty(),
            forall|p: Position| !g.has_chunk(p),
    {
        ChunkGenerator { chunks_to_draw: VecDeque::new(), generated_chunks: HashMap::new() }
    }

    /// Position of the `index`-th block of a chunk relative to the chunk's first block.
    pub fn get_position_from_index(index: usize) -> (p: Position)
        requires
            index / 256 <= i32::MAX,
        ensures
            p.x == local_x(index as int),
            p.y == local_y(index as int),
            p.z == local_z(index as int),
    {
        let x = index % CHUNK_SIZE;
        let y = (index / CHUNK_SIZE) % CHUNK_SIZE;
        let z = index / (CHUNK_SIZE * CHUNK_SIZE);
        Position { x: x as i32, y: y as i32, z: z as i32 }
    }

    /// Generates the chunk at chunk coordinates `position`.
    pub fn generate_chunk(&self, position: &Position) -> (result: Chunk)
        requires
            generates(*position),
        ensures
            result@ == chunk_blocks(*position),
    {
        let mut result: Chunk = Chunk::default();
        let origin = position.times(16);
        let mut i: usize = 0;
        while i < CHUNK_VOLUME
            invariant
                i <= CHUNK_VOLUME,
                generates(*position),
                origin.x == position.x * 16,
                origin.y == position.y * 16,
                origin.z == position.z * 16,
                result@.len() == CHUNK_VOLUME,
                forall|j: int| 0 <= j < i ==> result@[j] == #[trigger] chunk_blocks(*position)[j],
                forall|j: int| i <= j < CHUNK_VOLUME ==> result@[j] == Block::Empty,
            decreases CHUNK_VOLUME - i,
        {
            let block_position = Self::get_position_from_index(i).plus(origin);
            if block_position.x == 0 {
                result.blocks.set(i, Block::Red);
            } else if block_position.y == 0 {
                result.blocks.set(i, Block::Green);
            } else if block_position.z == 0 {
                result.blocks.set(i, Block::Blue);
            }
            assert(result@[i as int] == chunk_blocks(*position)[i as int]);
            i = i + 1;
        }
        assert(result@ =~= chunk_blocks(*position));
        result
    }

    /// Generates and stores the chunk at `position` unless it is already stored.
    pub fn maybe_generate_chunk_at(&mut self, position: &Position)
        requires
            old(self).wf(),
            old(self).has_chunk(*position) || generates(*position),
        ensures
            final(self).wf(),
            final(self).queued() == old(self).queued(),
            final(self).has_chunk(*position),
            forall|q: Position|
                #[trigger] final(self).has_chunk(q) == (old(self).has_chunk(q) || q == *position),
    {
        let key = position_key_of(position);
        if !self.generated_chunks.contains_key(&key) {
            let chunk = self.generate_chunk(position);
            proof {
                lemma_store_chunk(self.generated_chunks@, *position, chunk);
            }
            self.generated_chunks.insert(key, chunk);
        }
    }

    /// The chunk at `position`, generated and stored first if it was not stored yet.
    pub fn get_chunk_at(&mut self, position: Position) -> (chunk: &Chunk)
        requires
            old(self).wf(),
            old(self).has_chunk(position) || generates(position),
        ensures
            chunk@ == chunk_blocks(position),
            final(self).wf(),
            final(self).queued() == old(self).queued(),
            forall|q: Position|
                #[trigger] final(self).has_chunk(q) == (old(self).has_chunk(q) || q == position),
    {
        self.maybe_generate_chunk_at(&position);
        let key = position_key_of(&position);
        let chunk = self.generated_chunks.get(&key).unwrap();
        chunk
    }

    /// Queues the 4 x 4 x 4 chunks around the chunk `chunk_position`, where the player
    /// stands, to be drawn.
    pub fn get_chunks_from_player_position(&mut self, chunk_position: Position)
        requires
            i32::MIN + RENDERING_DISTANCE <= chunk_position.x <= i32::MAX - RENDERING_DISTANCE,
            i32::MIN + RENDERING_DISTANCE <= chunk_position.y <= i32::MAX - RENDERING_DISTANCE,
            i32::MIN + RENDERING_DISTANCE <= chunk_position.z <= i32::MAX - RENDERING_DISTANCE,
        ensures
            final(self).queued() == old(self).queued() + surrounding_chunks(chunk_position),
            final(self).wf() == old(self).wf(),
            forall|q: Position| #[trigger] final(self).has_chunk(q) == old(self).has_chunk(q),
    {
        let ghost old_queue = self.chunks_to_draw@;
        let ghost grid = surrounding_chunks(chunk_position);
        let x_start = chunk_position.x - RENDERING_DISTANCE;
        let x_end = chunk_position.x + RENDERING_DISTANCE;
        let y_start = chunk_position.y - RENDERING_DISTANCE;
        let y_end = chunk_position.y + RENDERING_DISTANCE;
        let z_start = chunk_position.z - RENDERING_DISTANCE;
        let z_end = chunk_position.z + RENDERING_DISTANCE;
        let mut x = x_start;
        while x < x_end
            invariant
                x_start <= x <= x_end,
                x_start == chunk_position.x - 2,
                x_end == chunk_position.x + 2,
                y_start == chunk_position.y - 2,
                y_end == chunk_position.y + 2,
                z_start == chunk_position.z - 2,
                z_end == chunk_position.z + 2,
                grid == surrounding_chunks(chunk_position),
                self.generated_chunks == old(self).generated_chunks,
                self.chunks_to_draw@ == old_queue + grid.take((x - x_start) * 16),
            decreases x_end - x,
        {
            let mut y = y_start;
            while y < y_end
                invariant
                    x_start <= x < x_end,
                    y_start <= y <= y_end,
                    x_start == chunk_position.x - 2,
                    x_end == chunk_position.x + 2,
                    y_start == chunk_position.y - 2,
                    y_end == chunk_position.y + 2,
                    z_start == chunk_position.z - 2,
                    z_end == chunk_position.z + 2,
                    grid == surrounding_chunks(chunk_position),
                    self.generated_chunks == old(self).generated_chunks,
                    self.chunks_to_draw@ == old_queue + grid.take(
                        (x - x_start) * 16 + (y - y_start) * 4,
                    ),
                decreases y_end - y,
            {
                let mut z = z_start;
                while z < z_end
                    invariant
                        x_start <= x < x_end,
                        y_start <= y < y_end,
                        z_start <= z <= z_end,
                        x_start == chunk_position.x - 2,
                        x_end == chunk_position.x + 2,
                        y_start == chunk_position.y - 2,
                        y_end == chunk_position.y + 2,
                        z_start == chunk_position.z - 2,
                        z_end == chunk_position.z + 2,
                        grid == surrounding_chunks(chunk_position),
                        self.generated_chunks == old(self).generated_chunks,
                        self.chunks_to_draw@ == old_queue + grid.take(
                            (x - x_start) * 16 + (y - y_start) * 4 + (z - z_start),
                        ),
                    decreases z_end - z,
                {
                    let ghost n = (x - x_start) * 16 + (y - y_start) * 4 + (z - z_start);
                    proof {
                        lemma_grid_index(x - x_start, y - y_start, z - z_start);
                    }
                    assert(grid[n] == Position { x, y, z });
                    self.chunks_to_draw.push_back(Position { x, y, z });
                    assert(grid.take(n + 1) =~= grid.take(n).push(grid[n]));
                    z = z + 1;
                }
                y = y + 1;
            }
            x = x + 1;
        }
        assert(grid.take(64) =~= grid);
    }
}


/// Corners of the unit cube, as offsets from a block's position.
pub const CUBE_VERTICES: [[i32; 3]; 8] = [
    [1, 1, 0],
    [1, 0, 0],
    [1, 1, 1],
    [1, 0, 1],
    [0, 1, 0],
    [0, 0, 0],
    [0, 1, 1],
    [0, 0, 1],
];

/// The twelve triangles of a cube's faces, three corners each, as indices into
/// `CUBE_VERTICES`.
pub const CUBE_INDICES: [u32; 36] = [
    0, 6, 2, 3, 6, 7, 7, 4, 5, 5, 3, 7, 1, 2, 3, 5, 0, 1, 0, 4, 6, 3, 2, 6, 7, 6, 4, 5, 1, 3, 1, 0,
    2, 5, 4, 0,
];

/// A vertex of the chunk mesh: a corner of a block, with the block's color.
#[derive(Clone, Copy, Debug, PartialEq, Eq, Hash)]
pub struct Vertex {
    pub position: [i32; 3],
    pub color: [u8; 4],
}

impl Vertex {
    pub fn new(position: [i32; 3], color: [u8; 4]) -> (v: Self)
        ensures
            v.position == position,
            v.color == color,
    {
        Vertex { position, color }
    }
}

/// The four color channels as one integer below 2^32.
pub open spec fn color_code(c: [u8; 4]) -> int {
    c[0] * 0x100_0000 + c[1] * 0x1_0000 + c[2] * 0x100 + c[3]
}

/// The hash-map key under which a vertex is remembered while the mesh is built: its
/// position code followed by its color code, 128 bits in all.
pub open spec fn vertex_key(v: Vertex) -> u128 {
    (position_code(v.position[0], v.position[1], v.position[2]) * 0x1_0000_0000 + color_code(
        v.color,
    )) as u128
}

proof fn lemma_low_digits(a1: int, b1: int, a2: int, b2: int)
    requires
        0 <= b1 < 0x1_0000_0000,
        0 <= b2 < 0x1_0000_0000,
        a1 * 0x1_0000_0000 + b1 == a2 * 0x1_0000_0000 + b2,
    ensures
        a1 == a2,
        b1 == b2,
{
}

proof fn lemma_color_code_injective(c: [u8; 4], d: [u8; 4])
    requires
        color_code(c) == color_code(d),
    ensures
        c == d,
{
    assert(c[0] == d[0] && c[1] == d[1] && c[2] == d[2] && c[3] == d[3]);
    assert(c =~= d);
}

/// Distinct vertices have distinct keys.
#[verifier::spinoff_prover]
pub proof fn lemma_vertex_key_injective(v: Vertex, w: Vertex)
    requires
        vertex_key(v) == vertex_key(w),
    ensures
        v == w,
{
    let pv = position_code(v.position[0], v.position[1], v.position[2]);
    let pw = position_code(w.position[0], w.position[1], w.position[2]);
    lemma_position_code_bounds(v.position[0], v.position[1], v.position[2]);
    lemma_position_code_bounds(w.position[0], w.position[1], w.position[2]);
    let cv = color_code(v.color);
    let cw = color_code(w.color);
    assert(0 <= cv < 0x1_0000_0000 && 0 <= cw < 0x1_0000_0000);
    assert(pv * 0x1_0000_0000 + cv == pw * 0x1_0000_0000 + cw);
    lemma_low_digits(pv, cv, pw, cw);
    lemma_position_code_injective(
        v.position[0],
        v.position[1],
        v.position[2],
        w.position[0],
        w.position[1],
        w.position[2],
    );
    lemma_color_code_injective(v.color, w.color);
    assert(v.position =~= w.position);
}

fn vertex_key_of(v: &Vertex) -> (k: u128)
    ensures
        k == vertex_key(*v),
{
    let x: u128 = (v.position[0] as i64 + 0x8000_0000i64) as u128;
    let y: u128 = (v.position[1] as i64 + 0x8000_0000i64) as u128;
    let z: u128 = (v.position[2] as i64 + 0x8000_0000i64) as u128;
    let c: u128 = v.color[0] as u128 * 0x100_0000 + v.color[1] as u128 * 0x1_0000
        + v.color[2] as u128 * 0x100 + v.color[3] as u128;
    ((x * 0x1_0000_0000 + y) * 0x1_0000_0000 + z) * 0x1_0000_0000 + c
}

/// The cube corner used by the `k`-th of the 36 triangle corners of a block.
pub open spec fn cube_corner(k: int) -> [i32; 3] {
    CUBE_VERTICES[CUBE_INDICES[k] as int]
}

/// The `k`-th triangle corner of the `i`-th block of the chunk at `p`.
pub open spec fn block_vertex(p: Position, i: int, k: int) -> Vertex {
    Vertex {
        position: [
            (cube_corner(k)[0] + p.x * 16 + local_x(i)) as i32,
            (cube_corner(k)[1] + p.y * 16 + local_y(i)) as i32,
            (cube_corner(k)[2] + p.z * 16 + local_z(i)) as i32,
        ],
        color: block_color(chunk_blocks(p)[i]),
    }
}

/// The triangles of the `i`-th block of the chunk at `p`: none for an empty block, else
/// the twelve triangles of the cube, three vertices each.
pub open spec fn block_triangles(p: Position, i: int) -> Seq<Vertex> {
    if chunk_blocks(p)[i] == Block::Empty {
        Seq::empty()
    } else {
        Seq::new(36, |k: int| block_vertex(p, i, k))
    }
}

/// The triangles of the first `n` blocks of the chunk at `p`, in block order.
pub open spec fn blocks_triangles(p: Position, n: nat) -> Seq<Vertex>
    decreases n,
{
    if n == 0 {
        Seq::empty()
    } else {
        blocks_triangles(p, (n - 1) as nat) + block_triangles(p, n - 1)
    }
}

/// The triangle list of the chunk at `p`.
pub open spec fn chunk_triangles(p: Position) -> Seq<Vertex> {
    blocks_triangles(p, CHUNK_VOLUME as nat)
}

/// The triangle list of the chunks at `qs`, one chunk after the other: every three
/// consecutive vertices form one triangle.
pub open spec fn triangle_list(qs: Seq<Position>) -> Seq<Vertex>
    decreases qs.len(),
{
    if qs.len() == 0 {
        Seq::empty()
    } else {
        triangle_list(qs.drop_last()) + chunk_triangles(qs.last())
    }
}

proof fn lemma_cube_corner_unit(k: int)
    requires
        0 <= k < 36,
    ensures
        0 <= cube_corner(k)[0] <= 1,
        0 <= cube_corner(k)[1] <= 1,
        0 <= cube_corner(k)[2] <= 1,
{
    assert(0 <= CUBE_INDICES[k] < 8);
    let c = CUBE_INDICES[k] as int;
    assert(0 <= CUBE_VERTICES[c][0] <= 1 && 0 <= CUBE_VERTICES[c][1] <= 1 && 0 <= CUBE_VERTICES[c][2] <= 1);
}

/// Law: every block that is not empty gives its 36 triangle corners, each one a corner
/// of the unit cube placed at the block's world position and colored as the block; an
/// empty block gives none.
pub proof fn lemma_block_cube(p: Position, i: int)
    requires
        0 <= i < CHUNK_VOLUME,
        mesh_fits(p),
    ensures
        chunk_blocks(p)[i] == Block::Empty ==> block_triangles(p, i).len() == 0,
        chunk_blocks(p)[i] != Block::Empty ==> {
            &&& block_triangles(p, i).len() == 36
            &&& forall|k: int|
                0 <= k < 36 ==> (#[trigger] block_triangles(p, i)[k]).color == block_color(
                    chunk_blocks(p)[i],
                ) && block_triangles(p, i)[k].position[0] == cube_corner(k)[0] + p.x * 16 + i
                    % 16 && block_triangles(p, i)[k].position[1] == cube_corner(k)[1] + p.y * 16
                    + (i / 16) % 16 && block_triangles(p, i)[k].position[2] == cube_corner(k)[2]
                    + p.z * 16 + i / 256
        },
{
    if chunk_blocks(p)[i] != Block::Empty {
        assert forall|k: int| 0 <= k < 36 implies (#[trigger] block_triangles(p, i)[k]).color
            == block_color(chunk_blocks(p)[i]) && block_triangles(p, i)[k].position[0]
            == cube_corner(k)[0] + p.x * 16 + i % 16 && block_triangles(p, i)[k].position[1]
            == cube_corner(k)[1] + p.y * 16 + (i / 16) % 16 && block_triangles(p, i)[k].position[2]
            == cube_corner(k)[2] + p.z * 16 + i / 256 by {
            lemma_cube_corner_unit(k);
        }
    }
}

/// The distinct elements of `s`, each where it first occurs.
pub open spec fn dedup(s: Seq<Vertex>) -> Seq<Vertex>
    decreases s.len(),
{
    if s.len() == 0 {
        Seq::empty()
    } else {
        let d = dedup(s.drop_last());
        if d.contains(s.last()) {
            d
        } else {
            d.push(s.last())
        }
    }
}

/// A chunk that can be generated, and whose non-empty blocks have cube corners with
/// coordinates that fit in `i32`.
pub open spec fn mesh_fits(p: Position) -> bool {
    &&& generates(p)
    &&& forall|i: int|
        0 <= i < CHUNK_VOLUME && #[trigger] chunk_blocks(p)[i] != Block::Empty ==> {
            &&& p.x * 16 + local_x(i) + 1 <= i32::MAX
            &&& p.y * 16 + local_y(i) + 1 <= i32::MAX
            &&& p.z * 16 + local_z(i) + 1 <= i32::MAX
        }
}

/// The vertex list of a mesh holds no vertex twice.
pub proof fn lemma_dedup_distinct(s: Seq<Vertex>)
    ensures
        dedup(s).no_duplicates(),
    decreases s.len(),
{
    if s.len() > 0 {
        lemma_dedup_distinct(s.drop_last());
        lemma_dedup_contains(s.drop_last());
    }
}

/// The vertex list of a mesh holds exactly the vertices of its triangle list.
pub proof fn lemma_dedup_contains(s: Seq<Vertex>)
    ensures
        forall|v: Vertex| #[trigger] dedup(s).contains(v) <==> s.contains(v),
    decreases s.len(),
{
    if s.len() > 0 {
        let t = s.drop_last();
        let l = s.last();
        lemma_dedup_contains(t);
        let d = dedup(t);
        assert(s =~= t.push(l));
        assert forall|v: Vertex| #[trigger] dedup(s).contains(v) <==> s.contains(v) by {
            broadcast use vstd::seq_lib::group_seq_properties;

            assert(s.contains(v) <==> t.contains(v) || v == l);
            assert(d.push(l).contains(v) <==> d.contains(v) || v == l);
        }
    }
}

/// Some entry of `idx` before position `k` is `j`.
pub open spec fn used_before(idx: Seq<u32>, k: int, j: int) -> bool {
    exists|m: int| 0 <= m < k && idx[m] == j
}

/// Law: let `idx` name, for each entry of the triangle list `s`, an equal vertex of the
/// vertex list `dedup(s)`, as the index buffer of a mesh does. Then the vertices are
/// distinct, every vertex is named by some index, and vertices are numbered in order of
/// first use: every number below an index already occurs before it.
pub proof fn lemma_mesh_structure(s: Seq<Vertex>, idx: Seq<u32>)
    requires
        idx.len() == s.len(),
        forall|k: int|
            0 <= k < s.len() ==> #[trigger] idx[k] < dedup(s).len() && dedup(s)[idx[k] as int]
                == s[k],
    ensures
        dedup(s).no_duplicates(),
        forall|j: int| 0 <= j < dedup(s).len() ==> #[trigger] used_before(idx, s.len() as int, j),
        forall|k: int, j: int|
            0 <= k < s.len() && 0 <= j < idx[k] ==> #[trigger] used_before(idx, k, j),
    decreases s.len(),
{
    lemma_dedup_distinct(s);
    if s.len() > 0 {
        let n = s.len() as int;
        let t = s.drop_last();
        let ix = idx.drop_last();
        let v = s.last();
        let d = dedup(s);
        let e = dedup(t);
        lemma_dedup_contains(t);
        assert(e.len() <= d.len() <= e.len() + 1);
        assert(forall|p: int| 0 <= p < e.len() ==> d[p] == e[p]);
        assert forall|k: int| 0 <= k < t.len() implies #[trigger] ix[k] < e.len() && e[ix[k] as int]
            == t[k] by {
            assert(t[k] == s[k]);
            assert(t.contains(t[k]));
            assert(e.contains(t[k]));
            let p = choose|p: int| 0 <= p < e.len() && e[p] == t[k];
            assert(d[p] == s[k]);
            assert(idx[k] < d.len() && d[idx[k] as int] == s[k]);
            assert(ix[k] == idx[k]);
        }
        lemma_mesh_structure(t, ix);
        assert(idx[n - 1] < d.len() && d[idx[n - 1] as int] == v);
        assert forall|j: int| 0 <= j < d.len() implies #[trigger] used_before(idx, n, j) by {
            if j < e.len() {
                assert(used_before(ix, n - 1, j));
                let m = choose|m: int| 0 <= m < n - 1 && ix[m] == j;
                assert(idx[m] == j);
            } else {
                assert(!e.contains(v));
                assert(d == e.push(v));
                assert(d[j] == v);
                assert(idx[n - 1] == j);
            }
        }
        assert forall|k: int, j: int| 0 <= k < n && 0 <= j < idx[k] implies #[trigger] used_before(
            idx,
            k,
            j,
        ) by {
            if k < n - 1 {
                assert(ix[k] == idx[k]);
                assert(used_before(ix, k, j));
                let m = choose|m: int| 0 <= m < k && ix[m] == j;
                assert(idx[m] == j);
            } else {
                if idx[n - 1] as int == e.len() {
                    assert(j < e.len());
                } else {
                    assert(d[idx[n - 1] as int] == e[idx[n - 1] as int]);
                }
                assert(j < e.len());
                assert(used_before(ix, n - 1, j));
                let m = choose|m: int| 0 <= m < n - 1 && ix[m] == j;
                assert(idx[m] == j);
            }
        }
    }
}

/// Appending to the triangle list never shortens the vertex list.
proof fn lemma_dedup_len_mono(s: Seq<Vertex>, t: Seq<Vertex>)
    ensures
        dedup(s).len() <= dedup(s + t).len(),
    decreases t.len(),
{
    if t.len() > 0 {
        lemma_dedup_len_mono(s, t.drop_last());
        assert((s + t).drop_last() =~= s + t.drop_last());
    }
}

proof fn lemma_dedup_push(s: Seq<Vertex>, v: Vertex)
    ensures
        dedup(s.push(v)) == (if dedup(s).contains(v) {
            dedup(s)
        } else {
            dedup(s).push(v)
        }),
{
    assert(s.push(v).drop_last() =~= s);
}

/// Appending more blocks of the chunk never shortens the vertex list.
proof fn lemma_blocks_bound(base: Seq<Vertex>, p: Position, i: nat, n: nat)
    requires
        i <= n,
    ensures
        dedup(base + blocks_triangles(p, i)).len() <= dedup(base + blocks_triangles(p, n)).len(),
    decreases n - i,
{
    if i < n {
        lemma_blocks_bound(base, p, i, (n - 1) as nat);
        lemma_dedup_len_mono(base + blocks_triangles(p, (n - 1) as nat), block_triangles(p, n - 1));
        assert(base + blocks_triangles(p, (n - 1) as nat) + block_triangles(p, n - 1) =~= base
            + blocks_triangles(p, n));
    }
}

/// Appending more chunks never shortens the vertex list.
proof fn lemma_chunks_bound(qs: Seq<Position>, a: int)
    requires
        0 <= a <= qs.len(),
    ensures
        dedup(triangle_list(qs.take(a))).len() <= dedup(triangle_list(qs)).len(),
    decreases qs.len() - a,
{
    if a < qs.len() {
        lemma_chunks_bound(qs, a + 1);
        assert(qs.take(a + 1).drop_last() =~= qs.take(a));
        lemma_dedup_len_mono(triangle_list(qs.take(a)), chunk_triangles(qs[a]));
    } else {
        assert(qs.take(a) =~= qs);
    }
}

/// The vertex and index buffers of the mesh of the queued chunks.
pub struct ChunkVerticesGenerator {
    pub vertices: Vec<Vertex>,
    vertices_hashmap: HashMap<u128, u32>,
    pub indices: Vec<u32>,
}

/// `map` sends the key of every vertex in `vs` to its position in `vs`, and knows no
/// other keys.
spec fn lookup_wf(map: Map<u128, u32>, vs: Seq<Vertex>) -> bool {
    &&& forall|i: int|
        0 <= i < vs.len() ==> #[trigger] map.contains_key(vertex_key(vs[i])) && map[vertex_key(
            vs[i],
        )] == i
    &&& forall|k: u128| #[trigger]
        map.contains_key(k) ==> map[k] < vs.len() && vertex_key(vs[map[k] as int]) == k
}

impl ChunkVerticesGenerator {
    /// The contents of the vertex buffer.
    pub closed spec fn vertex_list(&self) -> Seq<Vertex> {
        self.vertices@
    }

    /// The contents of the index buffer.
    pub closed spec fn index_list(&self) -> Seq<u32> {
        self.indices@
    }

    /// Empty buffers.
    pub fn new() -> (g: Self)
        ensures
            g.vertex_list() == Seq::<Vertex>::empty(),
            g.index_list() == Seq::<u32>::empty(),
    {
        ChunkVerticesGenerator {
            vertices: Vec::new(),
            vertices_hashmap: HashMap::new(),
            indices: Vec::new(),
        }
    }

    /// The buffers index the triangle list `list`: the vertex buffer holds its distinct
    /// vertices in order of first occurrence, and the index buffer names, for each entry
    /// of `list`, the vertex equal to it.
    spec fn mesh_of(&self, list: Seq<Vertex>) -> bool {
        &&& self.vertices@ == dedup(list)
        &&& self.indices@.len() == list.len()
        &&& forall|k: int|
            #![trigger self.indices@[k]]
            0 <= k < list.len() ==> self.indices@[k] < self.vertices@.len()
                && self.vertices@[self.indices@[k] as int] == list[k]
        &&& lookup_wf(self.vertices_hashmap@, self.vertices@)
    }

    /// Rebuilds the mesh from the chunks queued in `chunks`, generating the ones that are
    /// not stored yet, and empties the queue. The vertex buffer receives the distinct
    /// vertices of the triangle list of the queued chunks, in order of first occurrence;
    /// the index buffer names, for each entry of that triangle list, the vertex equal to it.
    pub fn regenerate_vertices(&mut self, chunks: &mut ChunkGenerator)
        requires
            old(chunks).wf(),
            forall|j: int|
                0 <= j < old(chunks).queued().len() ==> mesh_fits(
                    #[trigger] old(chunks).queued()[j],
                ),
            dedup(triangle_list(old(chunks).queued())).len() <= 0x1_0000_0000,
        ensures
            final(chunks).wf(),
            final(chunks).queued() == Seq::<Position>::empty(),
            forall|q: Position| #[trigger]
                final(chunks).has_chunk(q) == (old(chunks).has_chunk(q) || old(chunks).queued().contains(q)),
            final(self).vertex_list() == dedup(triangle_list(old(chunks).queued())),
            final(self).vertex_list().no_duplicates(),
            forall|j: int|
                0 <= j < final(self).vertex_list().len() ==> #[trigger] used_before(
                    final(self).index_list(),
                    final(self).index_list().len() as int,
                    j,
                ),
            forall|k: int, j: int|
                0 <= k < final(self).index_list().len() && 0 <= j < final(self).index_list()[k]
                    ==> #[trigger] used_before(final(self).index_list(), k, j),
            final(self).index_list().len() == triangle_list(old(chunks).queued()).len(),
            forall|k: int|
                #![trigger final(self).index_list()[k]]
                0 <= k < triangle_list(old(chunks).queued()).len() ==> {
                    let j = final(self).index_list()[k] as int;
                    &&& j < final(self).vertex_list().len()
                    &&& final(self).vertex_list()[j] == triangle_list(old(chunks).queued())[k]
                },
    {
        let ghost initial = *chunks;
        let ghost queue = chunks.queued();
        self.indices.clear();
        self.vertices.clear();
        self.vertices_hashmap.clear();

        let mut chunks_to_draw: Vec<Position> = Vec::new();
        while chunks.chunks_to_draw.len() > 0
            invariant
                chunks_to_draw@ + chunks.chunks_to_draw@ == queue,
                chunks.generated_chunks == initial.generated_chunks,
            decreases chunks.chunks_to_draw@.len(),
        {
            let ghost rest = chunks.chunks_to_draw@;
            match chunks.chunks_to_draw.pop_front() {
                Some(position) => {
                    chunks_to_draw.push(position);
                    assert(chunks_to_draw@ + chunks.chunks_to_draw@ =~= queue);
                },
                None => {},
            }
        }
        assert(chunks_to_draw@ =~= queue);
        assert(self.mesh_of(Seq::empty()));

        let mut q: usize = 0;
        while q < chunks_to_draw.len()
            invariant
                q <= chunks_to_draw@.len(),
                chunks_to_draw@ == queue,
                queue == initial.queued(),
                chunks.wf(),
                chunks.queued() == Seq::<Position>::empty(),
                forall|r: Position| #[trigger]
                    chunks.has_chunk(r) == (initial.has_chunk(r) || queue.take(q as int).contains(
                        r,
                    )),
                forall|j: int| 0 <= j < queue.len() ==> mesh_fits(#[trigger] queue[j]),
                dedup(triangle_list(queue)).len() <= 0x1_0000_0000,
                self.mesh_of(triangle_list(queue.take(q as int))),
            decreases chunks_to_draw@.len() - q,
        {
            let position = chunks_to_draw[q];
            assert(mesh_fits(queue[q as int]));
            let chunk = chunks.get_chunk_at(position);
            proof {
                lemma_chunks_bound(queue, q + 1);
                assert(queue.take(q + 1).drop_last() =~= queue.take(q as int));
                assert(queue.take(q + 1) =~= queue.take(q as int).push(position));
            }
            self.push_chunk(position, chunk, Ghost(triangle_list(queue.take(q as int))));
            assert forall|r: Position| #[trigger]
                chunks.has_chunk(r) == (initial.has_chunk(r) || queue.take(q + 1).contains(r)) by {
                broadcast use vstd::seq_lib::group_seq_properties;

            }
            q = q + 1;
        }
        assert(queue.take(queue.len() as int) =~= queue);
        proof {
            lemma_dedup_distinct(triangle_list(queue));
            lemma_mesh_structure(triangle_list(queue), self.indices@);
        }
    }

    /// Adds the 36 triangle corners of the non-empty block `i` of the chunk at `p`, whose
    /// world position is `global` and whose color is `color`.
    fn push_block(
        &mut self,
        global: Position,
        color: [u8; 4],
        Ghost(p): Ghost<Position>,
        Ghost(i): Ghost<int>,
        Ghost(list): Ghost<Seq<Vertex>>,
    )
        requires
            0 <= i < CHUNK_VOLUME,
            mesh_fits(p),
            chunk_blocks(p)[i] != Block::Empty,
            global.x == p.x * 16 + local_x(i),
            global.y == p.y * 16 + local_y(i),
            global.z == p.z * 16 + local_z(i),
            color == block_color(chunk_blocks(p)[i]),
            old(self).mesh_of(list),
            dedup(list + block_triangles(p, i)).len() <= 0x1_0000_0000,
        ensures
            final(self).mesh_of(list + block_triangles(p, i)),
    {
        let ghost tri = block_triangles(p, i);
        assert(p.x * 16 + local_x(i) + 1 <= i32::MAX && p.y * 16 + local_y(i) + 1 <= i32::MAX
            && p.z * 16 + local_z(i) + 1 <= i32::MAX);
        let mut k: usize = 0;
        while k < 36
            invariant
                k <= 36,
                0 <= i < CHUNK_VOLUME,
                chunk_blocks(p)[i] != Block::Empty,
                tri == block_triangles(p, i),
                global.x == p.x * 16 + local_x(i),
                global.y == p.y * 16 + local_y(i),
                global.z == p.z * 16 + local_z(i),
                global.x + 1 <= i32::MAX,
                global.y + 1 <= i32::MAX,
                global.z + 1 <= i32::MAX,
                color == block_color(chunk_blocks(p)[i]),
                self.mesh_of(list + tri.take(k as int)),
                dedup(list + tri).len() <= 0x1_0000_0000,
            decreases 36 - k,
        {
            let corner = CUBE_VERTICES[CUBE_INDICES[k] as usize];
            assert(corner == cube_corner(k as int));
            let position = Position::new(corner[0], corner[1], corner[2]).plus(global);
            let vertex = Vertex::new([position.x, position.y, position.z], color);
            assert(vertex.position =~= block_vertex(p, i, k as int).position);
            assert(vertex == block_vertex(p, i, k as int));
            proof {
                assert((list + tri.take(k as int)).push(vertex) =~= list + tri.take(k + 1));
                lemma_dedup_len_mono(list + tri.take(k + 1), tri.skip(k + 1));
                assert(list + tri.take(k + 1) + tri.skip(k + 1) =~= list + tri);
            }
            self.push_vertex(vertex, Ghost(list + tri.take(k as int)));
            k = k + 1;
        }
        assert(tri.take(36) =~= tri);
    }

    /// Adds the triangles of the chunk at `position`, whose blocks are `chunk`.
    fn push_chunk(&mut self, position: Position, chunk: &Chunk, Ghost(list): Ghost<Seq<Vertex>>)
        requires
            mesh_fits(position),
            chunk@ == chunk_blocks(position),
            old(self).mesh_of(list),
            dedup(list + chunk_triangles(position)).len() <= 0x1_0000_0000,
        ensures
            final(self).mesh_of(list + chunk_triangles(position)),
    {
        let origin = position.times(CHUNK_SIZE as i32);
        let mut block_index: usize = 0;
        while block_index < CHUNK_VOLUME
            invariant
                block_index <= CHUNK_VOLUME,
                mesh_fits(position),
                chunk@ == chunk_blocks(position),
                origin.x == position.x * 16,
                origin.y == position.y * 16,
                origin.z == position.z * 16,
                self.mesh_of(list + blocks_triangles(position, block_index as nat)),
                dedup(list + chunk_triangles(position)).len() <= 0x1_0000_0000,
            decreases CHUNK_VOLUME - block_index,
        {
            let ghost i = block_index as int;
            let block_type = chunk.blocks[block_index];
            assert(block_type == chunk_blocks(position)[i]);
            proof {
                lemma_blocks_bound(list, position, (i + 1) as nat, CHUNK_VOLUME as nat);
                assert(list + blocks_triangles(position, (i + 1) as nat) =~= list
                    + blocks_triangles(position, i as nat) + block_triangles(position, i));
            }
            if block_type != Block::Empty {
                let global = ChunkGenerator::get_position_from_index(block_index).plus(origin);
                let color = block_type.get_color();
                self.push_block(
                    global,
                    color,
                    Ghost(position),
                    Ghost(i),
                    Ghost(list + blocks_triangles(position, i as nat)),
                );
            } else {
                assert(list + blocks_triangles(position, (i + 1) as nat) =~= list
                    + blocks_triangles(position, i as nat));
            }
            block_index = block_index + 1;
        }
    }

    /// Adds one triangle corner: reuses the vertex if it is already in the buffer, else
    /// appends it.
    fn push_vertex(&mut self, vertex: Vertex, Ghost(list): Ghost<Seq<Vertex>>)
        requires
            old(self).mesh_of(list),
            dedup(list.push(vertex)).len() <= 0x1_0000_0000,
        ensures
            final(self).mesh_of(list.push(vertex)),
    {
        proof {
            lemma_dedup_push(list, vertex);
        }
        assert(old(self).mesh_of(list));
        let key = vertex_key_of(&vertex);
        match self.vertices_hashmap.get(&key) {
            Some(index) => {
                let index = *index;
                proof {
                    lemma_vertex_key_injective(self.vertices@[index as int], vertex);
                }
                assert(dedup(list).contains(vertex));
                self.indices.push(index);
            },
            None => {
                assert(!dedup(list).contains(vertex)) by {
                    if dedup(list).contains(vertex) {
                        let j = choose|j: int|
                            0 <= j < dedup(list).len() && dedup(list)[j] == vertex;
                        assert(self.vertices_hashmap@.contains_key(vertex_key(self.vertices@[j])));
                    }
                }
                let index = self.vertices.len() as u32;
                let ghost old_vs = self.vertices@;
                let ghost old_map = self.vertices_hashmap@;
                self.vertices_hashmap.insert(key, index);
                self.indices.push(index);
                self.vertices.push(vertex);
                assert forall|i: int| 0 <= i < self.vertices@.len() implies #[trigger]
                    self.vertices_hashmap@.contains_key(vertex_key(self.vertices@[i]))
                        && self.vertices_hashmap@[vertex_key(self.vertices@[i])] == i by {
                    if i < old_vs.len() {
                        assert(self.vertices@[i] == old_vs[i]);
                        if vertex_key(old_vs[i]) == key {
                            lemma_vertex_key_injective(old_vs[i], vertex);
                            assert(dedup(list).contains(vertex));
                        }
                    }
                }
                assert forall|k: u128| #[trigger] self.vertices_hashmap@.contains_key(k) implies
                    self.vertices_hashmap@[k] < self.vertices@.len() && vertex_key(
                    self.vertices@[self.vertices_hashmap@[k] as int],
                ) == k by {
                    if k != key {
                        assert(old_map.contains_key(k));
                        assert(self.vertices@[old_map[k] as int] == old_vs[old_map[k] as int]);
                    }
                }
            },
        }
        assert forall|k: int| 0 <= k < list.push(vertex).len() implies #[trigger] self.indices@[k]
            < self.vertices@.len() && self.vertices@[self.indices@[k] as int]
            == list.push(vertex)[k] by {
            if k < list.len() {
                let j = old(self).indices@[k] as int;
                assert(old(self).vertices@[j] == list[k]);
                assert(j < old(self).vertices@.len());
                assert(self.indices@[k] == j);
                assert(self.vertices@[j] == old(self).vertices@[j]);
            }
        }
    }
}


/// A mesh has at most as many vertices as its triangle list has entries.
pub proof fn lemma_dedup_len(s: Seq<Vertex>)
    ensures
        dedup(s).len() <= s.len(),
    decreases s.len(),
{
    if s.len() > 0 {
        lemma_dedup_len(s.drop_last());
    }
}

/// The triangle list of two queues one after the other is the first's, then the second's.
pub proof fn lemma_triangle_list_concat(a: Seq<Position>, b: Seq<Position>)
    ensures
        triangle_list(a + b) == triangle_list(a) + triangle_list(b),
    decreases b.len(),
{
    if b.len() == 0 {
        assert(a + b =~= a);
        assert(triangle_list(a) + triangle_list(b) =~= triangle_list(a));
    } else {
        lemma_triangle_list_concat(a, b.drop_last());
        assert((a + b).drop_last() =~= a + b.drop_last());
        assert((a + b).last() == b.last());
        assert(triangle_list(a) + triangle_list(b.drop_last()) + chunk_triangles(b.last())
            =~= triangle_list(a) + (triangle_list(b.drop_last()) + chunk_triangles(b.last())));
    }
}

/// Vertices that already occur add nothing to the vertex list.
proof fn lemma_dedup_absorbs(s: Seq<Vertex>, t: Seq<Vertex>)
    requires
        forall|i: int| 0 <= i < t.len() ==> s.contains(#[trigger] t[i]),
    ensures
        dedup(s + t) == dedup(s),
    decreases t.len(),
{
    if t.len() == 0 {
        assert(s + t =~= s);
    } else {
        lemma_dedup_absorbs(s, t.drop_last());
        assert((s + t).drop_last() =~= s + t.drop_last());
        assert((s + t).last() == t.last());
        lemma_dedup_contains(s);
        assert(s.contains(t[t.len() - 1]));
    }
}

proof fn lemma_blocks_cover(p: Position, n: nat, i: int, k: int)
    requires
        0 <= i < n,
        0 <= k < 36,
        chunk_blocks(p)[i] != Block::Empty,
    ensures
        blocks_triangles(p, n).contains(block_vertex(p, i, k)),
    decreases n,
{
    let prefix = blocks_triangles(p, (n - 1) as nat);
    let last = block_triangles(p, n - 1);
    assert(blocks_triangles(p, n) == prefix + last);
    if i == n - 1 {
        assert((prefix + last)[prefix.len() + k] == block_vertex(p, i, k));
    } else {
        lemma_blocks_cover(p, (n - 1) as nat, i, k);
        let m = choose|m: int| 0 <= m < prefix.len() && prefix[m] == block_vertex(p, i, k);
        assert((prefix + last)[m] == block_vertex(p, i, k));
    }
}

proof fn lemma_triangle_list_covers(qs: Seq<Position>, j: int, v: Vertex)
    requires
        0 <= j < qs.len(),
        chunk_triangles(qs[j]).contains(v),
    ensures
        triangle_list(qs).contains(v),
    decreases qs.len(),
{
    let front = triangle_list(qs.drop_last());
    let back = chunk_triangles(qs.last());
    if j == qs.len() - 1 {
        let m = choose|m: int| 0 <= m < back.len() && back[m] == v;
        assert((front + back)[front.len() + m] == v);
    } else {
        assert(qs.drop_last()[j] == qs[j]);
        lemma_triangle_list_covers(qs.drop_last(), j, v);
        let m = choose|m: int| 0 <= m < front.len() && front[m] == v;
        assert((front + back)[m] == v);
    }
}

/// Law: the vertex list of a mesh holds every corner of every non-empty block of every
/// queued chunk: no drawn block is left out.
pub proof fn lemma_mesh_covers_blocks(qs: Seq<Position>, j: int, i: int, k: int)
    requires
        0 <= j < qs.len(),
        0 <= i < CHUNK_VOLUME,
        0 <= k < 36,
        chunk_blocks(qs[j])[i] != Block::Empty,
    ensures
        dedup(triangle_list(qs)).contains(block_vertex(qs[j], i, k)),
{
    lemma_blocks_cover(qs[j], CHUNK_VOLUME as nat, i, k);
    lemma_triangle_list_covers(qs, j, block_vertex(qs[j], i, k));
    lemma_dedup_contains(triangle_list(qs));
}

/// Law: a queue given twice in a row gives the same vertex buffer as the queue given once,
/// and the index buffer of the queue given once, twice over. Here `once` holds the
/// buffers built from `qs`, and `twice` those built from `qs + qs`, as
/// `regenerate_vertices` describes them.
pub proof fn lemma_queue_twice(
    qs: Seq<Position>,
    once: ChunkVerticesGenerator,
    twice: ChunkVerticesGenerator,
)
    requires
        once.vertex_list() == dedup(triangle_list(qs)),
        once.index_list().len() == triangle_list(qs).len(),
        forall|k: int|
            #![trigger once.index_list()[k]]
            0 <= k < triangle_list(qs).len() ==> {
                let j = once.index_list()[k] as int;
                &&& j < once.vertex_list().len()
                &&& once.vertex_list()[j] == triangle_list(qs)[k]
            },
        twice.vertex_list() == dedup(triangle_list(qs + qs)),
        twice.index_list().len() == triangle_list(qs + qs).len(),
        forall|k: int|
            #![trigger twice.index_list()[k]]
            0 <= k < triangle_list(qs + qs).len() ==> {
                let j = twice.index_list()[k] as int;
                &&& j < twice.vertex_list().len()
                &&& twice.vertex_list()[j] == triangle_list(qs + qs)[k]
            },
    ensures
        twice.vertex_list() == once.vertex_list(),
        twice.index_list() == once.index_list() + once.index_list(),
{
    let s = triangle_list(qs);
    let n = s.len() as int;
    lemma_triangle_list_concat(qs, qs);
    assert forall|i: int| 0 <= i < s.len() implies s.contains(#[trigger] s[i]) by {}
    lemma_dedup_absorbs(s, s);
    lemma_dedup_distinct(s);
    let d = dedup(s);
    let i1 = once.index_list();
    let i2 = twice.index_list();
    assert forall|k: int| 0 <= k < i2.len() implies #[trigger] i2[k] == (i1 + i1)[k] by {
        let m = if k < n { k } else { k - n };
        assert((s + s)[k] == s[m]);
        let a = i2[k] as int;
        let b = i1[m] as int;
        assert(d[a] == s[m]);
        assert(d[b] == s[m]);
        assert((i1 + i1)[k] == i1[m]);
        if a != b {
            assert(d[a] != d[b]);
        }
    }
    assert(i2 =~= i1 + i1);
}

proof fn lemma_blocks_triangles_len(p: Position, n: nat)
    ensures
        blocks_triangles(p, n).len() <= n * 36,
    decreases n,
{
    if n > 0 {
        lemma_blocks_triangles_len(p, (n - 1) as nat);
    }
}

/// Each chunk adds at most 36 triangle corners per block to the triangle list, so the
/// mesh of `qs` has at most `qs.len() * 147456` vertices.
pub proof fn lemma_mesh_size(qs: Seq<Position>)
    ensures
        dedup(triangle_list(qs)).len() <= triangle_list(qs).len(),
        triangle_list(qs).len() <= qs.len() * 147456,
    decreases qs.len(),
{
    lemma_dedup_len(triangle_list(qs));
    if qs.len() > 0 {
        lemma_mesh_size(qs.drop_last());
        lemma_blocks_triangles_len(qs.last(), CHUNK_VOLUME as nat);
    }
}

/// A chunk whose coordinates lie between -2^27 and 2^27 - 2 can be meshed.
pub proof fn lemma_mesh_fits_inside(p: Position)
    requires
        -0x800_0000 <= p.x <= 0x800_0000 - 2,
        -0x800_0000 <= p.y <= 0x800_0000 - 2,
        -0x800_0000 <= p.z <= 0x800_0000 - 2,
    ensures
        mesh_fits(p),
{
    assert forall|i: int|
        0 <= i < CHUNK_VOLUME && #[trigger] chunk_blocks(p)[i] != Block::Empty implies {
        &&& p.x * 16 + local_x(i) + 1 <= i32::MAX
        &&& p.y * 16 + local_y(i) + 1 <= i32::MAX
        &&& p.z * 16 + local_z(i) + 1 <= i32::MAX
    } by {
        assert(local_x(i) < 16 && local_y(i) < 16 && local_z(i) < 16);
    }
}

/// The world's chunks together with the mesh of the chunks around the player.
pub struct ChunkManager {
    pub chunk_generator: ChunkGenerator,
    pub chunk_vertices_generator: ChunkVerticesGenerator,
}

impl ChunkManager {
    /// No chunks, an empty queue and an empty mesh.
    pub fn new() -> (m: Self)
        ensures
            m.chunk_generator.wf(),
            m.chunk_generator.queued() == Seq::<Position>::empty(),
            forall|p: Position| !m.chunk_generator.has_chunk(p),
            m.chunk_vertices_generator.vertex_list() == Seq::<Vertex>::empty(),
            m.chunk_vertices_generator.index_list() == Seq::<u32>::empty(),
    {
        ChunkManager {
            chunk_generator: ChunkGenerator::new(),
            chunk_vertices_generator: ChunkVerticesGenerator::new(),
        }
    }

    /// Queues the chunks around the chunk `player_chunk` and rebuilds the mesh from all
    /// queued chunks.
    pub fn regenerate_chunks_at(&mut self, player_chunk: Position)
        requires
            old(self).chunk_generator.wf(),
            i32::MIN + RENDERING_DISTANCE <= player_chunk.x <= i32::MAX - RENDERING_DISTANCE,
            i32::MIN + RENDERING_DISTANCE <= player_chunk.y <= i32::MAX - RENDERING_DISTANCE,
            i32::MIN + RENDERING_DISTANCE <= player_chunk.z <= i32::MAX - RENDERING_DISTANCE,
            forall|j: int|
                0 <= j < old(self).chunk_generator.queued().len() + 64 ==> mesh_fits(
                    #[trigger] (old(self).chunk_generator.queued() + surrounding_chunks(
                        player_chunk,
                    ))[j],
                ),
            dedup(
                triangle_list(old(self).chunk_generator.queued() + surrounding_chunks(player_chunk)),
            ).len() <= 0x1_0000_0000,
        ensures
            ({
                let drawn = old(self).chunk_generator.queued() + surrounding_chunks(player_chunk);
                let list = triangle_list(drawn);
                let mesh = final(self).chunk_vertices_generator;
                &&& final(self).chunk_generator.wf()
                &&& final(self).chunk_generator.queued() == Seq::<Position>::empty()
                &&& forall|q: Position| #[trigger]
                    final(self).chunk_generator.has_chunk(q) == (old(self).chunk_generator.has_chunk(q) || drawn.contains(q))
                &&& mesh.vertex_list() == dedup(list)
                &&& mesh.vertex_list().no_duplicates()
                &&& forall|j: int|
                    0 <= j < mesh.vertex_list().len() ==> #[trigger] used_before(
                        mesh.index_list(),
                        mesh.index_list().len() as int,
                        j,
                    )
                &&& forall|k: int, j: int|
                    0 <= k < mesh.index_list().len() && 0 <= j < mesh.index_list()[k]
                        ==> #[trigger] used_before(mesh.index_list(), k, j)
                &&& mesh.index_list().len() == list.len()
                &&& forall|k: int|
                    #![trigger mesh.index_list()[k]]
                    0 <= k < list.len() ==> {
                        let j = mesh.index_list()[k] as int;
                        &&& j < mesh.vertex_list().len()
                        &&& mesh.vertex_list()[j] == list[k]
                    }
            }),
    {
        self.chunk_generator.get_chunks_from_player_position(player_chunk);
        self.chunk_vertices_generator.regenerate_vertices(&mut self.chunk_generator);
    }

    /// The vertex and index buffers of the mesh.
    pub fn get_vertices_and_indices(&self) -> (buffers: (&Vec<Vertex>, &Vec<u32>))
        ensures
            buffers.0@ == self.chunk_vertices_generator.vertex_list(),
            buffers.1@ == self.chunk_vertices_generator.index_list(),
    {
        (&self.chunk_vertices_generator.vertices, &self.chunk_vertices_generator.indices)
    }
}

impl Default for ChunkGenerator {
    fn default() -> (g: Self)
        ensures
            g.wf(),
            g.queued() == Seq::<Position>::empty(),
            forall|p: Position| !g.has_chunk(p),
    {
        ChunkGenerator::new()
    }
}

impl Default for ChunkVerticesGenerator {
    fn default() -> (g: Self)
        ensures
            g.vertex_list() == Seq::<Vertex>::empty(),
            g.index_list() == Seq::<u32>::empty(),
    {
        ChunkVerticesGenerator::new()
    }
}

impl Default for ChunkManager {
    fn default() -> (m: Self)
        ensures
            m.chunk_generator.wf(),
            m.chunk_generator.queued() == Seq::<Position>::empty(),
            forall|p: Position| !m.chunk_generator.has_chunk(p),
            m.chunk_vertices_generator.vertex_list() == Seq::<Vertex>::empty(),
            m.chunk_vertices_generator.index_list() == Seq::<u32>::empty(),
    {
        ChunkManager::new()
    }
}

} // verus!
