//! An arena: storage that values are placed in and never move out of.
//!
//! Small values are packed into large chunks of bytes, each at an offset
//! that is a multiple of its alignment; a chunk that has no room left is
//! followed by a new one. Other values are stored one by one. A place in
//! the arena is named by the region it lies in and an offset there.

use vstd::prelude::*;

verus! {

/// The bytes a new chunk has room for, unless a value needs more.
pub const CHUNK_SIZE: usize = 1048576;

/// Where a place in the arena lies.
#[derive(Debug, Clone, Copy, PartialEq, Eq, Structural)]
pub enum Region {
    /// The chunk of packed values with this index.
    Sized(usize),
    /// The separately stored value with this index.
    Dyn(usize),
}

/// A place in the arena.
#[derive(Debug, Clone, Copy, PartialEq, Eq, Structural)]
pub struct ArenaPtr {
    pub region: Region,
    pub offset: usize,
}

/// The view of a chunk: its bytes and the room it was made with.
pub struct ChunkV {
    pub data: Seq<u8>,
    pub capacity: nat,
}

/// The view of an arena.
pub struct ArenaV {
    pub chunks: Seq<ChunkV>,
    pub dyns: Seq<Seq<u8>>,
}

struct Chunk {
    data: Vec<u8>,
    capacity: usize,
}

/// Storage for values that stay in place for as long as the arena lives.
pub struct Arena {
    sized_storage: Vec<Chunk>,
    dyn_storage: Vec<Vec<u8>>,
}

/// The padding that brings `len` up to a multiple of `align`.
pub open spec fn padding(len: nat, align: nat) -> nat {
    ((align - len % align) % align as int) as nat
}

/// The arena after placing `bytes` with alignment `align`, and the place
/// they went to: at the end of the last chunk, padded to the alignment, if
/// it has room; otherwise at the start of a new chunk with room for
/// `CHUNK_SIZE` bytes or for the value and its alignment, whichever is more.
pub open spec fn spec_sized_alloc(a: ArenaV, bytes: Seq<u8>, align: nat) -> (ArenaV, ArenaPtr) {
    let last = a.chunks.len() - 1;
    let cur = a.chunks[last];
    let pad = padding(cur.data.len(), align);
    if cur.data.len() + pad + bytes.len() > cur.capacity {
        let cap = if CHUNK_SIZE >= bytes.len() + align { CHUNK_SIZE as nat } else { bytes.len() + align };
        (
            ArenaV { chunks: a.chunks.push(ChunkV { data: bytes, capacity: cap }), ..a },
            ArenaPtr { region: Region::Sized(a.chunks.len() as usize), offset: 0 },
        )
    } else {
        let filled = if pad > 0 && cur.data.len() > 0 { cur.data + Seq::new(pad, |i: int| 0u8) } else { cur.data };
        (
            ArenaV { chunks: a.chunks.update(last, ChunkV { data: filled + bytes, capacity: cur.capacity }), ..a },
            ArenaPtr { region: Region::Sized(last as usize), offset: filled.len() as usize },
        )
    }
}

/// Whether the place `p` holds a byte of the arena.
pub open spec fn spec_contains(a: ArenaV, p: ArenaPtr) -> bool {
    match p.region {
        Region::Sized(c) => c < a.chunks.len() && p.offset < a.chunks[c as int].data.len(),
        Region::Dyn(d) => d < a.dyns.len() && p.offset < a.dyns[d as int].len(),
    }
}

/// The `len` bytes at `p`, if they lie in the arena.
pub open spec fn spec_read(a: ArenaV, p: ArenaPtr, len: nat) -> Option<Seq<u8>> {
    match p.region {
        Region::Sized(c) => if c < a.chunks.len() && p.offset + len <= a.chunks[c as int].data.len() {
            Some(a.chunks[c as int].data.subrange(p.offset as int, p.offset + len))
        } else {
            None
        },
        Region::Dyn(d) => if d < a.dyns.len() && p.offset + len <= a.dyns[d as int].len() {
            Some(a.dyns[d as int].subrange(p.offset as int, p.offset + len))
        } else {
            None
        },
    }
}

impl View for Arena {
    type V = ArenaV;

    closed spec fn view(&self) -> ArenaV {
        ArenaV {
            chunks: self.sized_storage@.map_values(|c: Chunk| ChunkV { data: c.data@, capacity: c.capacity as nat }),
            dyns: self.dyn_storage@.map_values(|v: Vec<u8>| v@),
        }
    }
}

/// The arena's invariant: there is a chunk, and no chunk holds more than
/// its room or more than a quarter of the address space.
pub open spec fn arena_wf(a: ArenaV) -> bool {
    &&& a.chunks.len() > 0
    &&& a.chunks.len() < usize::MAX
    &&& a.dyns.len() < usize::MAX
    &&& forall|i: int| 0 <= i < a.chunks.len() ==>
        (#[trigger] a.chunks[i]).data.len() <= a.chunks[i].capacity <= usize::MAX / 4
}

impl Arena {
    pub closed spec fn wf(&self) -> bool {
        arena_wf(self@)
    }

    /// An arena with one empty chunk.
    pub fn new() -> (a: Arena)
        ensures
            a.wf(),
            a@ == (ArenaV { chunks: seq![ChunkV { data: Seq::empty(), capacity: CHUNK_SIZE as nat }], dyns: Seq::empty() }),
    {
        let mut chunks: Vec<Chunk> = Vec::new();
        chunks.push(Chunk { data: Vec::new(), capacity: CHUNK_SIZE });
        let a = Arena { sized_storage: chunks, dyn_storage: Vec::new() };
        assert(a@.chunks =~= seq![ChunkV { data: Seq::empty(), capacity: CHUNK_SIZE as nat }]);
        assert(a@.dyns =~= Seq::empty());
        a
    }

    /// Places `bytes`, aligned to `align`, and gives their place.
    #[verifier::loop_isolation(false)]
    pub fn sized_alloc(&mut self, bytes: &[u8], align: usize) -> (p: ArenaPtr)
        requires
            old(self).wf(),
            old(self)@.chunks.len() + 1 < usize::MAX,
            align >= 1,
            bytes@.len() + align <= usize::MAX / 4,
        ensures
            final(self).wf(),
            (final(self)@, p) == spec_sized_alloc(old(self)@, bytes@, align as nat),
    {
        let ghost a0 = self@;
        let ghost raw0 = self.sized_storage@;
        let last = self.sized_storage.len() - 1;
        let len = self.sized_storage[last].data.len();
        let cap = self.sized_storage[last].capacity;
        assert(a0.chunks[last as int].data.len() == len);
        let pad = (align - (len % align)) % align;
        let size = bytes.len();
        if len + pad + size > cap {
            let new_cap = if CHUNK_SIZE >= size + align { CHUNK_SIZE } else { size + align };
            let mut data: Vec<u8> = Vec::new();
            let mut i: usize = 0;
            while i < size
                invariant
                    i <= size == bytes@.len(),
                    data@ == bytes@.subrange(0, i as int),
                decreases size - i,
            {
                data.push(bytes[i]);
                assert(bytes@.subrange(0, i + 1) == bytes@.subrange(0, i as int).push(bytes@[i as int]));
                i = i + 1;
            }
            assert(bytes@.subrange(0, size as int) == bytes@);
            let n = self.sized_storage.len();
            self.sized_storage.push(Chunk { data, capacity: new_cap });
            assert(self@.chunks =~= a0.chunks.push(ChunkV { data: bytes@, capacity: new_cap as nat }));
            return ArenaPtr { region: Region::Sized(n), offset: 0 };
        }
        let mut chunk = self.sized_storage.remove(last);
        assert(chunk.capacity == cap);
        if pad > 0 && chunk.data.len() > 0 {
            let mut k: usize = 0;
            while k < pad
                invariant
                    k <= pad,
                    chunk.capacity == cap,
                    chunk.data@ == a0.chunks[last as int].data + Seq::new(k as nat, |i: int| 0u8),
                decreases pad - k,
            {
                chunk.data.push(0u8);
                assert(chunk.data@ =~= a0.chunks[last as int].data + Seq::new((k + 1) as nat, |i: int| 0u8));
                k = k + 1;
            }
        }
        let start = chunk.data.len();
        let ghost filled = chunk.data@;
        let mut i: usize = 0;
        while i < size
            invariant
                i <= size == bytes@.len(),
                chunk.capacity == cap,
                chunk.data@ == filled + bytes@.subrange(0, i as int),
            decreases size - i,
        {
            chunk.data.push(bytes[i]);
            assert(bytes@.subrange(0, i + 1) == bytes@.subrange(0, i as int).push(bytes@[i as int]));
            i = i + 1;
        }
        assert(bytes@.subrange(0, size as int) == bytes@);
        let ghost before_push = self.sized_storage@;
        self.sized_storage.push(chunk);
        assert(self.sized_storage@ =~= raw0.update(last as int, chunk));
        assert(chunk.data@ == filled + bytes@);
        assert forall|j: int| 0 <= j < self@.chunks.len() implies
            #[trigger] self@.chunks[j] == a0.chunks.update(last as int, ChunkV { data: filled + bytes@, capacity: cap as nat })[j] by {
            if j != last {
                assert(self.sized_storage@[j] == raw0[j]);
            } else {
                assert(self.sized_storage@[j] == chunk);
            }
        }
        assert(self@.chunks =~= a0.chunks.update(last as int, ChunkV { data: filled + bytes@, capacity: cap as nat }));
        ArenaPtr { region: Region::Sized(last), offset: start }
    }

    /// Stores `bytes` on their own and gives their place.
    pub fn dyn_alloc(&mut self, bytes: Vec<u8>) -> (p: ArenaPtr)
        requires
            old(self).wf(),
            old(self)@.dyns.len() + 1 < usize::MAX,
        ensures
            final(self).wf(),
            final(self)@ == (ArenaV { dyns: old(self)@.dyns.push(bytes@), ..old(self)@ }),
            p == (ArenaPtr { region: Region::Dyn(old(self)@.dyns.len() as usize), offset: 0 }),
    {
        let n = self.dyn_storage.len();
        let ghost a0 = self@;
        let ghost b = bytes@;
        self.dyn_storage.push(bytes);
        assert(self@.dyns =~= a0.dyns.push(b));
        assert(self@.chunks =~= a0.chunks);
        ArenaPtr { region: Region::Dyn(n), offset: 0 }
    }

    /// Whether the place `ptr` holds a byte of the arena.
    pub fn contains_ptr(&self, ptr: ArenaPtr) -> (b: bool)
        ensures
            b == spec_contains(self@, ptr),
    {
        match ptr.region {
            Region::Sized(c) => c < self.sized_storage.len() && ptr.offset < self.sized_storage[c].data.len(),
            Region::Dyn(d) => d < self.dyn_storage.len() && ptr.offset < self.dyn_storage[d].len(),
        }
    }

    /// The `len` bytes at `ptr`, if they lie in the arena.
    pub fn read(&self, ptr: ArenaPtr, len: usize) -> (r: Option<Vec<u8>>)
        ensures
            match spec_read(self@, ptr, len as nat) {
                Some(s) => r matches Some(v) && v@ == s,
                None => r is None,
            },
    {
        let src: &Vec<u8> = match ptr.region {
            Region::Sized(c) => {
                if c >= self.sized_storage.len() {
                    return None;
                }
                &self.sized_storage[c].data
            },
            Region::Dyn(d) => {
                if d >= self.dyn_storage.len() {
                    return None;
                }
                &self.dyn_storage[d]
            },
        };
        if ptr.offset > src.len() || len > src.len() - ptr.offset {
            return None;
        }
        let slen = src.len();
        let mut out: Vec<u8> = Vec::new();
        let mut i: usize = 0;
        while i < len
            invariant
                i <= len,
                slen == src@.len(),
                ptr.offset + len <= src@.len(),
                out@ == src@.subrange(ptr.offset as int, ptr.offset + i),
            decreases len - i,
        {
            out.push(src[ptr.offset + i]);
            assert(src@.subrange(ptr.offset as int, ptr.offset + i + 1)
                == src@.subrange(ptr.offset as int, ptr.offset + i).push(src@[ptr.offset + i]));
            i = i + 1;
        }
        Some(out)
    }
}

} // verus!

verus! {

proof fn lemma_padding_aligns(len: nat, align: nat)
    requires
        align >= 1,
    ensures
        (len + padding(len, align)) % align == 0,
        padding(len, align) == 0 ==> len % align == 0,
{
    let r = len % align;
    assert(0 <= r < align) by (nonlinear_arith)
        requires align >= 1, r == len % align;
    if r == 0 {
        assert((align - r) % (align as int) == 0) by (nonlinear_arith)
            requires align >= 1, r == 0;
        assert(padding(len, align) == 0);
    } else {
        assert((align - r) % (align as int) == align - r) by (nonlinear_arith)
            requires align >= 1, 0 < r < align;
        assert((len + (align - r)) % (align as int) == 0) by (nonlinear_arith)
            requires align >= 1, 0 < r < align, r == len % align;
    }
}

/// Every value placed in a chunk starts at a multiple of its alignment.
pub proof fn lemma_sized_alloc_aligned(a: ArenaV, bytes: Seq<u8>, align: nat)
    requires
        arena_wf(a),
        align >= 1,
    ensures
        (spec_sized_alloc(a, bytes, align).1.offset as nat) % align == 0,
{
    let cur = a.chunks[a.chunks.len() - 1];
    let len = cur.data.len();
    lemma_padding_aligns(len, align);
    let pad = padding(len, align);
    if len + pad + bytes.len() > cur.capacity {
        assert(0nat % align == 0) by (nonlinear_arith) requires align >= 1;
    } else if pad > 0 && len > 0 {
        assert((cur.data + Seq::new(pad, |i: int| 0u8)).len() == len + pad);
    } else if pad == 0 {
    } else {
        assert(len == 0);
        assert(0nat % align == 0) by (nonlinear_arith) requires align >= 1;
    }
}

/// A value just placed reads back as placed, and its place is in the arena
/// unless the value is empty.
pub proof fn lemma_sized_alloc_reads_back(a: ArenaV, bytes: Seq<u8>, align: nat)
    requires
        arena_wf(a),
        align >= 1,
        bytes.len() + align <= usize::MAX / 4,
    ensures
        spec_read(spec_sized_alloc(a, bytes, align).0, spec_sized_alloc(a, bytes, align).1, bytes.len()) == Some(bytes),
        bytes.len() > 0 ==> spec_contains(spec_sized_alloc(a, bytes, align).0, spec_sized_alloc(a, bytes, align).1),
{
    let (a2, p) = spec_sized_alloc(a, bytes, align);
    let last = a.chunks.len() - 1;
    let cur = a.chunks[last];
    let pad = padding(cur.data.len(), align);
    assert(cur.data.len() <= cur.capacity <= usize::MAX / 4);
    assert(pad < align) by (nonlinear_arith)
        requires align >= 1, pad == ((align - cur.data.len() % align) % (align as int)) as nat;
    if cur.data.len() + pad + bytes.len() > cur.capacity {
        assert(a2.chunks[a.chunks.len() as int].data.subrange(0, bytes.len() as int) =~= bytes);
    } else {
        let filled = if pad > 0 && cur.data.len() > 0 { cur.data + Seq::new(pad, |i: int| 0u8) } else { cur.data };
        assert((filled + bytes).subrange(filled.len() as int, (filled.len() + bytes.len()) as int) =~= bytes);
    }
}

/// Placing a value changes no byte already in the arena.
pub proof fn lemma_sized_alloc_keeps(a: ArenaV, bytes: Seq<u8>, align: nat, p: ArenaPtr, len: nat)
    requires
        arena_wf(a),
        align >= 1,
        spec_read(a, p, len) is Some,
    ensures
        spec_read(spec_sized_alloc(a, bytes, align).0, p, len) == spec_read(a, p, len),
{
    let (a2, q) = spec_sized_alloc(a, bytes, align);
    let last = a.chunks.len() - 1;
    let cur = a.chunks[last];
    let pad = padding(cur.data.len(), align);
    if cur.data.len() + pad + bytes.len() <= cur.capacity {
        let filled = if pad > 0 && cur.data.len() > 0 { cur.data + Seq::new(pad, |i: int| 0u8) } else { cur.data };
        if let Region::Sized(c) = p.region {
            if c == last {
                assert((filled + bytes).subrange(p.offset as int, p.offset + len) =~= cur.data.subrange(p.offset as int, p.offset + len));
            }
        }
    }
}

/// Storing a value on its own changes no byte already in the arena, and
/// the value reads back as stored.
pub proof fn lemma_dyn_alloc_keeps(a: ArenaV, bytes: Seq<u8>, p: ArenaPtr, len: nat)
    requires
        spec_read(a, p, len) is Some,
    ensures
        spec_read(ArenaV { dyns: a.dyns.push(bytes), ..a }, p, len) == spec_read(a, p, len),
        spec_read(ArenaV { dyns: a.dyns.push(bytes), ..a }, ArenaPtr { region: Region::Dyn(a.dyns.len() as usize), offset: 0 }, bytes.len())
            == (if a.dyns.len() < usize::MAX { Some(bytes) } else { spec_read(ArenaV { dyns: a.dyns.push(bytes), ..a }, ArenaPtr { region: Region::Dyn(a.dyns.len() as usize), offset: 0 }, bytes.len()) }),
{
    let a2 = ArenaV { dyns: a.dyns.push(bytes), ..a };
    if a.dyns.len() < usize::MAX {
        assert(a2.dyns[a.dyns.len() as int].subrange(0, bytes.len() as int) =~= bytes);
    }
}

/// Placing a value that fits the arena's bounds keeps its invariant, adds
/// at most one chunk and leaves the separately stored values alone.
pub proof fn lemma_sized_alloc_wf(a: ArenaV, bytes: Seq<u8>, align: nat)
    requires
        arena_wf(a),
        align >= 1,
        bytes.len() + align <= usize::MAX / 4,
        a.chunks.len() + 1 < usize::MAX,
    ensures
        arena_wf(spec_sized_alloc(a, bytes, align).0),
        spec_sized_alloc(a, bytes, align).0.chunks.len() <= a.chunks.len() + 1,
        spec_sized_alloc(a, bytes, align).0.dyns == a.dyns,
{
    let (a2, p) = spec_sized_alloc(a, bytes, align);
    let last = a.chunks.len() - 1;
    let cur = a.chunks[last];
    let pad = padding(cur.data.len(), align);
    if cur.data.len() + pad + bytes.len() > cur.capacity {
        assert forall|i: int| 0 <= i < a2.chunks.len() implies
            (#[trigger] a2.chunks[i]).data.len() <= a2.chunks[i].capacity <= usize::MAX / 4 by {
            if i < a.chunks.len() {
                assert(a2.chunks[i] == a.chunks[i]);
            }
        }
    } else {
        let filled = if pad > 0 && cur.data.len() > 0 { cur.data + Seq::new(pad, |i: int| 0u8) } else { cur.data };
        assert(filled.len() <= cur.data.len() + pad);
        assert forall|i: int| 0 <= i < a2.chunks.len() implies
            (#[trigger] a2.chunks[i]).data.len() <= a2.chunks[i].capacity <= usize::MAX / 4 by {
            if i != last {
                assert(a2.chunks[i] == a.chunks[i]);
            }
        }
    }
}

/// A new value is placed after every value already in its chunk.
pub proof fn lemma_sized_alloc_after(a: ArenaV, bytes: Seq<u8>, align: nat, p: ArenaPtr, len: nat)
    requires
        arena_wf(a),
        align >= 1,
        spec_read(a, p, len) is Some,
        p.region == spec_sized_alloc(a, bytes, align).1.region,
    ensures
        p.offset + len <= spec_sized_alloc(a, bytes, align).1.offset,
{
    let last = a.chunks.len() - 1;
    let cur = a.chunks[last];
    let pad = padding(cur.data.len(), align);
    if cur.data.len() + pad + bytes.len() <= cur.capacity {
        let filled = if pad > 0 && cur.data.len() > 0 { cur.data + Seq::new(pad, |i: int| 0u8) } else { cur.data };
        assert(filled.len() >= cur.data.len());
    }
}

/// One placement: bytes packed into a chunk with an alignment, or bytes
/// stored on their own.
pub enum Placement {
    Packed(Seq<u8>, nat),
    Alone(Seq<u8>),
}

/// The bytes a placement places.
pub open spec fn placed_bytes(op: Placement) -> Seq<u8> {
    match op {
        Placement::Packed(b, _) => b,
        Placement::Alone(b) => b,
    }
}

/// The place `k` bytes after `p`.
pub open spec fn byte_at(p: ArenaPtr, k: int) -> ArenaPtr {
    ArenaPtr { region: p.region, offset: (p.offset + k) as usize }
}

/// The arena after one placement.
pub open spec fn place_one(a: ArenaV, op: Placement) -> ArenaV {
    match op {
        Placement::Packed(b, align) => spec_sized_alloc(a, b, align).0,
        Placement::Alone(b) => ArenaV { dyns: a.dyns.push(b), ..a },
    }
}

/// Where one placement puts its bytes.
pub open spec fn place_ptr(a: ArenaV, op: Placement) -> ArenaPtr {
    match op {
        Placement::Packed(b, align) => spec_sized_alloc(a, b, align).1,
        Placement::Alone(b) => ArenaPtr { region: Region::Dyn(a.dyns.len() as usize), offset: 0 },
    }
}

/// The arena after the placements `ops`, one after another.
pub open spec fn placements(a: ArenaV, ops: Seq<Placement>) -> ArenaV
    decreases ops.len(),
{
    if ops.len() == 0 {
        a
    } else {
        place_one(placements(a, ops.drop_last()), ops.last())
    }
}

/// Whether every placement of `ops` fits the arena's bounds.
pub open spec fn placeable(a: ArenaV, ops: Seq<Placement>) -> bool {
    &&& a.chunks.len() + ops.len() + 1 < usize::MAX
    &&& a.dyns.len() + ops.len() + 1 < usize::MAX
    &&& forall|i: int| 0 <= i < ops.len() ==> (#[trigger] ops[i] matches Placement::Packed(b, align)
        ==> align >= 1 && b.len() + align <= usize::MAX / 4)
    &&& forall|i: int| 0 <= i < ops.len() ==> (#[trigger] ops[i] matches Placement::Alone(b) ==> b.len() <= usize::MAX)
}

proof fn lemma_place_one(a: ArenaV, op: Placement, p: ArenaPtr, len: nat)
    requires
        arena_wf(a),
        a.chunks.len() + 1 < usize::MAX,
        a.dyns.len() + 1 < usize::MAX,
        op matches Placement::Packed(b, align) ==> align >= 1 && b.len() + align <= usize::MAX / 4,
    ensures
        arena_wf(place_one(a, op)),
        place_one(a, op).chunks.len() <= a.chunks.len() + 1,
        place_one(a, op).dyns.len() <= a.dyns.len() + 1,
        spec_read(a, p, len) is Some ==> spec_read(place_one(a, op), p, len) == spec_read(a, p, len),
{
    match op {
        Placement::Packed(b, align) => {
            lemma_sized_alloc_wf(a, b, align);
            if spec_read(a, p, len) is Some {
                lemma_sized_alloc_keeps(a, b, align, p, len);
            }
        },
        Placement::Alone(b) => {
            if spec_read(a, p, len) is Some {
                lemma_dyn_alloc_keeps(a, b, p, len);
            }
        },
    }
}

/// Part of a placeable sequence is placeable from an arena with no more
/// chunks or separate values to spare.
proof fn lemma_placeable_part(a: ArenaV, ops: Seq<Placement>, b: ArenaV, part: Seq<Placement>, off: int)
    requires
        placeable(a, ops),
        0 <= off,
        off + part.len() <= ops.len(),
        forall|i: int| 0 <= i < part.len() ==> part[i] == ops[off + i],
        b.chunks.len() + part.len() <= a.chunks.len() + ops.len(),
        b.dyns.len() + part.len() <= a.dyns.len() + ops.len(),
    ensures
        placeable(b, part),
{
    assert forall|i: int| 0 <= i < part.len() implies (#[trigger] part[i] matches Placement::Packed(x, align)
        ==> align >= 1 && x.len() + align <= usize::MAX / 4) by {
        assert(part[i] == ops[off + i]);
    }
    assert forall|i: int| 0 <= i < part.len() implies (#[trigger] part[i] matches Placement::Alone(x) ==> x.len() <= usize::MAX) by {
        assert(part[i] == ops[off + i]);
    }
}

/// Over any sequence of placements, packed or alone, every value already
/// in the arena still reads back as it was, and every byte already there
/// stays there.
pub proof fn lemma_placements_keep(a: ArenaV, ops: Seq<Placement>, p: ArenaPtr, len: nat)
    requires
        arena_wf(a),
        placeable(a, ops),
    ensures
        spec_read(a, p, len) is Some ==> spec_read(placements(a, ops), p, len) == spec_read(a, p, len),
        spec_contains(a, p) ==> spec_contains(placements(a, ops), p),
        arena_wf(placements(a, ops)),
        placements(a, ops).chunks.len() <= a.chunks.len() + ops.len(),
        placements(a, ops).dyns.len() <= a.dyns.len() + ops.len(),
    decreases ops.len(),
{
    if ops.len() > 0 {
        let init = ops.drop_last();
        lemma_placeable_part(a, ops, a, init, 0);
        lemma_placements_keep(a, init, p, len);
        lemma_placements_keep(a, init, p, 1);
        let b = placements(a, init);
        assert(ops.last() == ops[ops.len() - 1]);
        lemma_place_one(b, ops.last(), p, len);
        lemma_place_one(b, ops.last(), p, 1);
    }
}

/// A value placed in the arena reads back as placed after any later
/// placements, packed or alone, and its bytes stay in the arena.
pub proof fn lemma_placed_value_stays(a: ArenaV, op: Placement, ops: Seq<Placement>)
    requires
        arena_wf(a),
        placeable(a, seq![op] + ops),
    ensures
        spec_read(placements(place_one(a, op), ops), place_ptr(a, op), placed_bytes(op).len()) == Some(placed_bytes(op)),
        forall|k: int| 0 <= k < placed_bytes(op).len() ==> #[trigger] spec_contains(placements(place_one(a, op), ops),
            byte_at(place_ptr(a, op), k)),
{
    let all = seq![op] + ops;
    assert(all[0] == op);
    lemma_place_one(a, op, place_ptr(a, op), 0);
    let a1 = place_one(a, op);
    match op {
        Placement::Packed(b, align) => {
            lemma_sized_alloc_reads_back(a, b, align);
        },
        Placement::Alone(b) => {
            let a2 = ArenaV { dyns: a.dyns.push(b), ..a };
            assert(a2.dyns[a.dyns.len() as int].subrange(0, b.len() as int) =~= b);
        },
    }
    lemma_placeable_part(a, all, a1, ops, 1);
    lemma_placements_keep(a1, ops, place_ptr(a, op), placed_bytes(op).len());
    let q = place_ptr(a, op);
    let n = placed_bytes(op).len();
    let fin = placements(a1, ops);
    match op {
        Placement::Packed(b, align) => {
            let cur = a.chunks[a.chunks.len() - 1];
            assert(q.offset <= usize::MAX / 4) by {
                lemma_sized_alloc_wf(a, b, align);
                assert(a1.chunks[q.region->Sized_0 as int].data.len() <= usize::MAX / 4);
            }
        },
        Placement::Alone(b) => {
            assert(all[0] == op);
        },
    }
    assert forall|k: int| 0 <= k < n implies #[trigger] spec_contains(fin, byte_at(q, k)) by {
        assert(spec_read(fin, q, n) is Some);
    }
}

/// A value packed into the arena and a value packed after any later
/// placements take disjoint bytes: where they share a chunk, the later one
/// starts after the earlier one ends.
pub proof fn lemma_packed_values_disjoint(a: ArenaV, x: Seq<u8>, ax: nat, ops: Seq<Placement>, y: Seq<u8>, ay: nat)
    requires
        arena_wf(a),
        placeable(a, seq![Placement::Packed(x, ax)] + ops + seq![Placement::Packed(y, ay)]),
    ensures
        ({
            let (a1, p1) = spec_sized_alloc(a, x, ax);
            let p2 = spec_sized_alloc(placements(a1, ops), y, ay).1;
            p1.region == p2.region ==> p1.offset + x.len() <= p2.offset
        }),
{
    let all = seq![Placement::Packed(x, ax)] + ops + seq![Placement::Packed(y, ay)];
    assert(all[0] == Placement::Packed(x, ax));
    assert(all[all.len() - 1] == Placement::Packed(y, ay));
    lemma_placeable_part(a, all, a, seq![Placement::Packed(x, ax)] + ops, 0);
    lemma_placed_value_stays(a, Placement::Packed(x, ax), ops);
    let (a1, p1) = spec_sized_alloc(a, x, ax);
    lemma_place_one(a, Placement::Packed(x, ax), p1, 0);
    lemma_placeable_part(a, all, a1, ops, 1);
    lemma_placements_keep(a1, ops, p1, 0);
    let b = placements(a1, ops);
    if p1.region == spec_sized_alloc(b, y, ay).1.region {
        lemma_sized_alloc_after(b, y, ay, p1, x.len());
    }
}

} // verus!
