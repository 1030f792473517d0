//! An in-memory store of compact blocks, kept in ascending order of height with at
//! most one block per height.
use vstd::prelude::*;
use zcash_client_backend::proto::compact_formats::CompactBlock;

use crate::text::{decimal, u64_to_decimal};

verus! {

#[verifier::external_type_specification]
#[verifier::external_body]
pub struct ExCompactBlock(CompactBlock);

/// `<CompactBlock as Clone>::clone`. The type is a prost message that derives `Clone`
/// over its fields, so the copy is the same value as the original.
#[verifier::external_body]
fn clone_compact_block(block: &CompactBlock) -> (copy: CompactBlock)
    ensures
        copy == *block,
{
    block.clone()
}

/// A compact block together with its height, the key by which the cache orders and finds it.
pub struct CachedBlock {
    pub height: u64,
    pub block: CompactBlock,
}

impl CachedBlock {
    fn duplicate(&self) -> (copy: CachedBlock)
        ensures
            copy == *self,
    {
        CachedBlock { height: self.height, block: clone_compact_block(&self.block) }
    }
}

/// A half-open range `[start, end)` of 32-bit block heights, as a scan range delimits it.
#[derive(Clone, Copy, Debug, PartialEq, Eq)]
pub struct HeightRange {
    pub start: u32,
    pub end: u32,
}

impl HeightRange {
    /// Whether the range holds a stored height, read as a 32-bit block height
    /// (its low 32 bits).
    pub open spec fn holds(self, height: u64) -> bool {
        self.start <= (height as u32) && (height as u32) < self.end
    }

    pub fn contains(&self, height: u64) -> (r: bool)
        ensures
            r == self.holds(height),
    {
        let h = height as u32;
        self.start <= h && h < self.end
    }
}

/// Error of a cache read whose first block in range is not at the range's start.
#[derive(Debug)]
pub struct MemoryBlockCacheError(String);

impl View for MemoryBlockCacheError {
    type V = Seq<char>;

    closed spec fn view(&self) -> Seq<char> {
        self.0@
    }
}

impl MemoryBlockCacheError {
    /// An error with the given text.
    pub fn new(message: String) -> (e: Self)
        ensures
            e@ == message@,
    {
        MemoryBlockCacheError(message)
    }

    /// The text of the error.
    pub fn message(&self) -> (m: &String)
        ensures
            m@ == self@,
    {
        &self.0
    }
}

/// Heights strictly increase along the sequence.
pub open spec fn strictly_ascending(s: Seq<CachedBlock>) -> bool {
    forall|i: int, j: int| 0 <= i < j < s.len() ==> #[trigger] s[i].height < #[trigger] s[j].height
}

/// The compact blocks of a sequence of cached blocks, in order.
pub open spec fn blocks_of(s: Seq<CachedBlock>) -> Seq<CompactBlock> {
    s.map_values(|c: CachedBlock| c.block)
}

/// Blocks at or above `from` (every block when `from` is `None`).
pub open spec fn reaches(from: Option<u32>) -> spec_fn(CachedBlock) -> bool {
    |c: CachedBlock|
        match from {
            Some(h) => c.height >= h as u64,
            None => true,
        }
}

/// Blocks whose height the range holds.
pub open spec fn within(range: HeightRange) -> spec_fn(CachedBlock) -> bool {
    |c: CachedBlock| range.holds(c.height)
}

/// Blocks whose height the range holds (every block when there is no range).
pub open spec fn within_opt(range: Option<HeightRange>) -> spec_fn(CachedBlock) -> bool {
    |c: CachedBlock|
        match range {
            Some(r) => r.holds(c.height),
            None => true,
        }
}

/// Blocks whose height the range does not hold.
pub open spec fn outside(range: HeightRange) -> spec_fn(CachedBlock) -> bool {
    |c: CachedBlock| !range.holds(c.height)
}

/// What `with_blocks` hands out: the blocks at or above `from`, in ascending order,
/// cut to the first `limit` of them when a limit is given.
pub open spec fn with_blocks_spec(s: Seq<CachedBlock>, from: Option<u32>, limit: Option<usize>) -> Seq<
    CachedBlock,
> {
    let selected = s.filter(reaches(from));
    match limit {
        Some(n) => if n <= selected.len() {
            selected.subrange(0, n as int)
        } else {
            selected
        },
        None => selected,
    }
}

/// The greatest height in a sequence (0 for an empty one).
pub open spec fn max_height(s: Seq<CachedBlock>) -> u64
    decreases s.len(),
{
    if s.len() == 0 {
        0
    } else {
        let m = max_height(s.drop_last());
        if s.last().height > m {
            s.last().height
        } else {
            m
        }
    }
}

/// The chain tip that the cache knows of within a range: the greatest height of the
/// blocks that the range holds, as a 32-bit height; `None` when it holds none.
pub open spec fn tip_height_spec(s: Seq<CachedBlock>, range: Option<HeightRange>) -> Option<u32> {
    let selected = s.filter(within_opt(range));
    if selected.len() == 0 {
        None
    } else {
        Some(max_height(selected) as u32)
    }
}

/// The leading run of blocks whose heights are `expected`, `expected + 1`, ... in turn.
pub open spec fn run_from(s: Seq<CachedBlock>, expected: int) -> Seq<CachedBlock>
    decreases s.len(),
{
    if s.len() == 0 || s[0].height != expected {
        Seq::empty()
    } else {
        seq![s[0]] + run_from(s.drop_first(), expected + 1)
    }
}

/// A read of a range: `None` when the first block in range is not at the range's start;
/// otherwise the contiguous run of blocks from the start (possibly empty, possibly short).
pub open spec fn read_spec(s: Seq<CachedBlock>, range: HeightRange) -> Option<Seq<CachedBlock>> {
    let selected = s.filter(within(range));
    if selected.len() > 0 && selected[0].height != range.start as u64 {
        None
    } else {
        Some(run_from(selected, range.start as int))
    }
}

/// The message of a read whose first block in range is at `first` rather than `expected`.
pub open spec fn start_mismatch_message(first: u64, expected: u64) -> Seq<char> {
    "Compact-block cache starts at "@ + decimal(first as nat) + ", expected "@ + decimal(
        expected as nat,
    )
}

/// The blocks of a sequence keyed by height.
pub open spec fn height_map(s: Seq<CachedBlock>) -> Map<u64, CompactBlock> {
    Map::new(
        |h: u64| exists|i: int| 0 <= i < s.len() && s[i].height == h,
        |h: u64| s[choose|i: int| 0 <= i < s.len() && s[i].height == h].block,
    )
}

/// Stores each block of `bs` in turn under its height; a later block replaces an
/// earlier one at the same height.
pub open spec fn insert_all(m: Map<u64, CompactBlock>, bs: Seq<CachedBlock>) -> Map<
    u64,
    CompactBlock,
>
    decreases bs.len(),
{
    if bs.len() == 0 {
        m
    } else {
        insert_all(m, bs.drop_last()).insert(bs.last().height, bs.last().block)
    }
}

proof fn lemma_filter_take_step(s: Seq<CachedBlock>, p: spec_fn(CachedBlock) -> bool, i: int)
    requires
        0 <= i < s.len(),
    ensures
        s.take(i + 1).filter(p) == (if p(s[i]) {
            s.take(i).filter(p).push(s[i])
        } else {
            s.take(i).filter(p)
        }),
{
    reveal(Seq::filter);
    assert(s.take(i + 1).drop_last() =~= s.take(i));
}

/// Filtering keeps heights strictly ascending.
pub proof fn lemma_filter_keeps_order(s: Seq<CachedBlock>, p: spec_fn(CachedBlock) -> bool)
    requires
        strictly_ascending(s),
    ensures
        strictly_ascending(s.filter(p)),
        forall|i: int| 0 <= i < s.filter(p).len() ==> #[trigger] p(s.filter(p)[i]),
        forall|i: int|
            0 <= i < s.filter(p).len() ==> s.contains(#[trigger] s.filter(p)[i]),
    decreases s.len(),
{
    reveal(Seq::filter);
    broadcast use Seq::lemma_filter_pred;

    if s.len() > 0 {
        let rest = s.drop_last();
        lemma_filter_keeps_order(rest, p);
        let fr = rest.filter(p);
        assert forall|i: int| 0 <= i < fr.len() implies s.contains(#[trigger] fr[i])
            && fr[i].height < s.last().height by {
            assert(rest.contains(fr[i]));
            let k = choose|k: int| 0 <= k < rest.len() && rest[k] == fr[i];
            assert(s[k] == rest[k]);
        }
        if p(s.last()) {
            let out = fr.push(s.last());
            assert(s.filter(p) == out);
            assert forall|i: int, j: int| 0 <= i < j < out.len() implies #[trigger] out[i].height
                < #[trigger] out[j].height by {
                if j == out.len() - 1 {
                    assert(out[i] == fr[i]);
                } else {
                    assert(out[i] == fr[i]);
                    assert(out[j] == fr[j]);
                }
            }
            assert forall|i: int| 0 <= i < out.len() implies s.contains(#[trigger] out[i]) by {
                if i == out.len() - 1 {
                    assert(s[s.len() - 1] == out[i]);
                } else {
                    assert(out[i] == fr[i]);
                }
            }
        }
    }
}

/// In a strictly ascending sequence, the block stored at each position is the one
/// that the height map gives for its height.
pub proof fn lemma_height_map_at(s: Seq<CachedBlock>, i: int)
    requires
        strictly_ascending(s),
        0 <= i < s.len(),
    ensures
        height_map(s).contains_key(s[i].height),
        height_map(s)[s[i].height] == s[i].block,
{
    let h = s[i].height;
    assert(0 <= i < s.len() && s[i].height == h);
    let k = choose|k: int| 0 <= k < s.len() && s[k].height == h;
    if k < i {
        assert(s[k].height < s[i].height);
    } else if k > i {
        assert(s[i].height < s[k].height);
    }
}

/// Replacing the block at a height already stored.
proof fn lemma_height_map_replace(s: Seq<CachedBlock>, j: int, b: CachedBlock)
    requires
        strictly_ascending(s),
        0 <= j < s.len(),
        s[j].height == b.height,
    ensures
        strictly_ascending(s.update(j, b)),
        height_map(s.update(j, b)) == height_map(s).insert(b.height, b.block),
{
    let t = s.update(j, b);
    assert forall|x: int, y: int| 0 <= x < y < t.len() implies #[trigger] t[x].height
        < #[trigger] t[y].height by {
        assert(s[x].height < s[y].height);
    }
    let m = height_map(s).insert(b.height, b.block);
    assert forall|k: u64| #[trigger] height_map(t).contains_key(k) <==> m.contains_key(k) by {
        if height_map(t).contains_key(k) {
            let i = choose|i: int| 0 <= i < t.len() && t[i].height == k;
            assert(s[i].height == k);
        }
        if height_map(s).contains_key(k) {
            let i = choose|i: int| 0 <= i < s.len() && s[i].height == k;
            assert(t[i].height == k);
        }
        if k == b.height {
            assert(t[j].height == k);
        }
    }
    assert forall|k: u64| #[trigger] height_map(t).contains_key(k) implies height_map(t)[k]
        == m[k] by {
        let i = choose|i: int| 0 <= i < t.len() && t[i].height == k;
        lemma_height_map_at(t, i);
        if i != j {
            lemma_height_map_at(s, i);
        }
    }
    assert(height_map(t) =~= m);
}

/// Inserting a block at the position where its new height keeps the order.
proof fn lemma_height_map_insert(s: Seq<CachedBlock>, j: int, b: CachedBlock)
    requires
        strictly_ascending(s),
        0 <= j <= s.len(),
        forall|k: int| 0 <= k < j ==> #[trigger] s[k].height < b.height,
        j < s.len() ==> s[j].height > b.height,
    ensures
        strictly_ascending(s.insert(j, b)),
        height_map(s.insert(j, b)) == height_map(s).insert(b.height, b.block),
{
    let t = s.insert(j, b);
    assert forall|x: int, y: int| 0 <= x < y < t.len() implies #[trigger] t[x].height
        < #[trigger] t[y].height by {
        if y < j {
            assert(s[x].height < s[y].height);
        } else if y == j {
            assert(s[x].height < b.height);
        } else if x < j {
            assert(s[x].height < s[j].height);
            assert(s[j].height <= s[y - 1].height);
        } else if x == j {
            assert(s[j].height <= s[y - 1].height);
        } else {
            assert(s[x - 1].height < s[y - 1].height);
        }
    }
    let m = height_map(s).insert(b.height, b.block);
    assert forall|k: u64| #[trigger] height_map(t).contains_key(k) <==> m.contains_key(k) by {
        if height_map(t).contains_key(k) {
            let i = choose|i: int| 0 <= i < t.len() && t[i].height == k;
            if i < j {
                assert(s[i].height == k);
            } else if i > j {
                assert(s[i - 1].height == k);
            }
        }
        if height_map(s).contains_key(k) {
            let i = choose|i: int| 0 <= i < s.len() && s[i].height == k;
            if i < j {
                assert(t[i].height == k);
            } else {
                assert(t[i + 1].height == k);
            }
        }
        if k == b.height {
            assert(t[j].height == k);
        }
    }
    assert forall|k: u64| #[trigger] height_map(t).contains_key(k) implies height_map(t)[k]
        == m[k] by {
        let i = choose|i: int| 0 <= i < t.len() && t[i].height == k;
        lemma_height_map_at(t, i);
        if i < j {
            lemma_height_map_at(s, i);
        } else if i > j {
            lemma_height_map_at(s, i - 1);
        }
    }
    assert(height_map(t) =~= m);
}

/// The compact blocks that a sync has fetched, held in ascending order of height with
/// at most one block per height.
pub struct MemoryBlockCache {
    blocks: Vec<CachedBlock>,
}

impl View for MemoryBlockCache {
    type V = Seq<CachedBlock>;

    closed spec fn view(&self) -> Seq<CachedBlock> {
        self.blocks@
    }
}

impl MemoryBlockCache {
    #[verifier::type_invariant]
    spec fn ordered(self) -> bool {
        strictly_ascending(self.blocks@)
    }

    /// An empty cache.
    pub fn new() -> (cache: Self)
        ensures
            cache@ == Seq::<CachedBlock>::empty(),
    {
        MemoryBlockCache { blocks: Vec::new() }
    }

    /// The blocks at or above `from_height`, in ascending order of height, at most
    /// `limit` of them (the lowest ones) when a limit is given.
    pub fn with_blocks(&self, from_height: Option<u32>, limit: Option<usize>) -> (selected: Vec<
        CompactBlock,
    >)
        ensures
            selected@ == blocks_of(with_blocks_spec(self@, from_height, limit)),
            strictly_ascending(with_blocks_spec(self@, from_height, limit)),
    {
        proof {
            use_type_invariant(self);
        }
        let ghost s = self.blocks@;
        let ghost p = reaches(from_height);
        let n = self.blocks.len();
        let mut out: Vec<CompactBlock> = Vec::new();
        let mut i: usize = 0;
        while i < n
            invariant
                0 <= i <= n,
                n == s.len(),
                s == self.blocks@,
                p == reaches(from_height),
                out@ == blocks_of(s.take(i as int).filter(p)),
            decreases n - i,
        {
            let c = &self.blocks[i];
            let keep = match from_height {
                Some(h) => c.height >= h as u64,
                None => true,
            };
            proof {
                lemma_filter_take_step(s, p, i as int);
            }
            if keep {
                out.push(clone_compact_block(&c.block));
                assert(out@ =~= blocks_of(s.take(i + 1).filter(p)));
            }
            i = i + 1;
        }
        assert(s.take(n as int) =~= s);
        let ghost all = s.filter(p);
        proof {
            lemma_filter_keeps_order(s, p);
        }
        if let Some(limit) = limit {
            out.truncate(limit);
            proof {
                if limit <= all.len() {
                    assert(out@ =~= blocks_of(all.subrange(0, limit as int)));
                    assert forall|x: int, y: int|
                        0 <= x < y < limit implies #[trigger] all.subrange(0, limit as int)[x].height
                        < #[trigger] all.subrange(0, limit as int)[y].height by {
                        assert(all[x].height < all[y].height);
                    }
                }
            }
        }
        out
    }

    /// The greatest height among the blocks that the range holds (every block when
    /// there is no range), as a 32-bit height; `None` when there is none.
    pub fn get_tip_height(&self, range: Option<HeightRange>) -> (tip: Option<u32>)
        ensures
            tip == tip_height_spec(self@, range),
    {
        let ghost s = self.blocks@;
        let ghost p = within_opt(range);
        let n = self.blocks.len();
        let mut found = false;
        let mut best: u64 = 0;
        let mut i: usize = 0;
        while i < n
            invariant
                0 <= i <= n,
                n == s.len(),
                s == self.blocks@,
                p == within_opt(range),
                found == (s.take(i as int).filter(p).len() > 0),
                best == max_height(s.take(i as int).filter(p)),
            decreases n - i,
        {
            let c = &self.blocks[i];
            let keep = match range {
                Some(r) => r.contains(c.height),
                None => true,
            };
            proof {
                lemma_filter_take_step(s, p, i as int);
            }
            if keep {
                if c.height > best {
                    best = c.height;
                }
                found = true;
                assert(s.take(i + 1).filter(p).drop_last() =~= s.take(i as int).filter(p));
            }
            i = i + 1;
        }
        assert(s.take(n as int) =~= s);
        if found {
            Some(best as u32)
        } else {
            None
        }
    }

    /// Reads the blocks of a range: fails when the first block in range is not at the
    /// range's start; otherwise gives the contiguous run of blocks from the start, which
    /// may be shorter than the range.
    pub fn read(&self, range: HeightRange) -> (r: Result<Vec<CompactBlock>, MemoryBlockCacheError>)
        ensures
            match r {
                Ok(v) => read_spec(self@, range) matches Some(run) && v@ == blocks_of(run),
                Err(e) => read_spec(self@, range) is None && e@ == start_mismatch_message(
                    self@.filter(within(range))[0].height,
                    range.start as u64,
                ),
            },
    {
        proof {
            use_type_invariant(self);
        }
        let ghost s = self.blocks@;
        let ghost p = within(range);
        let n = self.blocks.len();
        let mut selected: Vec<CachedBlock> = Vec::new();
        let mut i: usize = 0;
        while i < n
            invariant
                0 <= i <= n,
                n == s.len(),
                s == self.blocks@,
                p == within(range),
                selected@ == s.take(i as int).filter(p),
            decreases n - i,
        {
            let c = &self.blocks[i];
            proof {
                lemma_filter_take_step(s, p, i as int);
            }
            if range.contains(c.height) {
                selected.push(c.duplicate());
            }
            i = i + 1;
        }
        assert(s.take(n as int) =~= s);
        let ghost sel = selected@;
        proof {
            lemma_filter_keeps_order(s, p);
        }
        let expected_start = range.start as u64;
        if selected.len() > 0 && selected[0].height != expected_start {
            let mut message = String::from_str("Compact-block cache starts at ");
            let first = u64_to_decimal(selected[0].height);
            message.append(first.as_str());
            message.append(", expected ");
            let expected = u64_to_decimal(expected_start);
            message.append(expected.as_str());
            return Err(MemoryBlockCacheError(message));
        }
        let m = selected.len();
        let mut contiguous: Vec<CompactBlock> = Vec::new();
        let mut expected: u64 = expected_start;
        let mut k: usize = 0;
        assert(sel.skip(0) =~= sel);
        assert(sel.take(0) + run_from(sel, range.start as int) =~= run_from(sel, range.start as int));
        while k < m
            invariant_except_break
                0 <= k <= m,
                m == sel.len(),
                sel == selected@,
                sel == s.filter(p),
                p == within(range),
                expected == range.start + k,
                run_from(sel, range.start as int) == sel.take(k as int) + run_from(
                    sel.skip(k as int),
                    expected as int,
                ),
                contiguous@ == blocks_of(sel.take(k as int)),
            ensures
                run_from(sel, range.start as int) == sel.take(k as int),
                contiguous@ == blocks_of(sel.take(k as int)),
            decreases m - k,
        {
            let h = selected[k].height;
            assert(sel.skip(k as int)[0] == sel[k as int]);
            assert(sel.skip(k as int).drop_first() =~= sel.skip(k + 1));
            if h != expected {
                assert(run_from(sel.skip(k as int), expected as int) =~= Seq::empty());
                assert(sel.take(k as int) + Seq::<CachedBlock>::empty() =~= sel.take(k as int));
                break;
            }
            assert(p(sel[k as int]));
            assert(range.holds(h));
            assert(h == 0xffff_ffff_ffff_ffffu64 ==> (h as u32) == 0xffff_ffffu32) by (bit_vector);
            let block = clone_compact_block(&selected[k].block);
            contiguous.push(block);
            expected = expected + 1;
            assert(sel.take(k + 1) =~= sel.take(k as int).push(sel[k as int]));
            assert(sel.take(k as int) + (seq![sel[k as int]] + run_from(sel.skip(k + 1), expected as int))
                =~= sel.take(k + 1) + run_from(sel.skip(k + 1), expected as int));
            assert(contiguous@ =~= blocks_of(sel.take(k + 1)));
            k = k + 1;
        }
        proof {
            if k == m {
                assert(sel.skip(m as int) =~= Seq::<CachedBlock>::empty());
                assert(sel.take(m as int) + Seq::<CachedBlock>::empty() =~= sel.take(m as int));
            }
        }
        Ok(contiguous)
    }

    /// Stores the given blocks in turn, each replacing any block already stored at its
    /// height, and keeps the store in ascending order of height.
    pub fn insert(&mut self, compact_blocks: Vec<CachedBlock>)
        ensures
            strictly_ascending(final(self)@),
            height_map(final(self)@) == insert_all(height_map(old(self)@), compact_blocks@),
    {
        proof {
            use_type_invariant(&*self);
        }
        let mut blocks: Vec<CachedBlock> = Vec::new();
        std::mem::swap(&mut blocks, &mut self.blocks);
        let ghost start = blocks@;
        let ghost incoming = compact_blocks@;
        let n = compact_blocks.len();
        let mut i: usize = 0;
        while i < n
            invariant
                0 <= i <= n,
                n == incoming.len(),
                incoming == compact_blocks@,
                strictly_ascending(blocks@),
                height_map(blocks@) == insert_all(height_map(start), incoming.take(i as int)),
            decreases n - i,
        {
            let b = compact_blocks[i].duplicate();
            let h = b.height;
            let len = blocks.len();
            let mut j: usize = 0;
            while j < len && blocks[j].height < h
                invariant
                    0 <= j <= len,
                    len == blocks@.len(),
                    forall|k: int| 0 <= k < j ==> #[trigger] blocks@[k].height < h,
                decreases len - j,
            {
                j = j + 1;
            }
            proof {
                assert(incoming.take(i + 1).drop_last() =~= incoming.take(i as int));
                assert(incoming.take(i + 1).last() == b);
            }
            if j < len && blocks[j].height == h {
                proof {
                    lemma_height_map_replace(blocks@, j as int, b);
                }
                blocks.set(j, b);
            } else {
                proof {
                    lemma_height_map_insert(blocks@, j as int, b);
                }
                blocks.insert(j, b);
            }
            i = i + 1;
        }
        assert(incoming.take(n as int) =~= incoming);
        self.blocks = blocks;
    }

    /// Removes the blocks whose height the range holds and keeps all others, in order.
    pub fn delete(&mut self, range: HeightRange)
        ensures
            final(self)@ == old(self)@.filter(outside(range)),
            strictly_ascending(final(self)@),
    {
        proof {
            use_type_invariant(&*self);
        }
        let mut blocks: Vec<CachedBlock> = Vec::new();
        std::mem::swap(&mut blocks, &mut self.blocks);
        let ghost s = blocks@;
        let ghost p = outside(range);
        let n = blocks.len();
        let mut kept: Vec<CachedBlock> = Vec::new();
        let mut i: usize = 0;
        while i < n
            invariant
                0 <= i <= n,
                n == s.len(),
                s == blocks@,
                p == outside(range),
                kept@ == s.take(i as int).filter(p),
            decreases n - i,
        {
            let c = &blocks[i];
            proof {
                lemma_filter_take_step(s, p, i as int);
            }
            if !range.contains(c.height) {
                kept.push(c.duplicate());
            }
            i = i + 1;
        }
        assert(s.take(n as int) =~= s);
        proof {
            lemma_filter_keeps_order(s, p);
        }
        self.blocks = kept;
    }
}

/// A strictly ascending sequence of blocks is determined by its height map: two such
/// sequences that store the same block under every height are equal.
pub proof fn law_store_determined_by_contents(s: Seq<CachedBlock>, t: Seq<CachedBlock>)
    requires
        strictly_ascending(s),
        strictly_ascending(t),
        height_map(s) == height_map(t),
    ensures
        s == t,
    decreases s.len(),
{
    if s.len() == 0 {
        if t.len() > 0 {
            lemma_height_map_at(t, 0);
        }
        assert(t =~= s);
    } else {
        if t.len() == 0 {
            lemma_height_map_at(s, 0);
        } else {
            let ls = s.len() - 1;
            let lt = t.len() - 1;
            lemma_height_map_at(s, ls);
            lemma_height_map_at(t, lt);
            // the last elements carry the greatest height of the same key set
            let i = choose|i: int| 0 <= i < t.len() && t[i].height == s[ls].height;
            let k = choose|k: int| 0 <= k < s.len() && s[k].height == t[lt].height;
            if i < lt {
                assert(t[i].height < t[lt].height);
                if k < ls {
                    assert(s[k].height < s[ls].height);
                }
            }
            if k < ls {
                assert(s[k].height < s[ls].height);
            }
            assert(s[ls].height == t[lt].height);
            assert(s[ls] == t[lt]);
            let s0 = s.drop_last();
            let t0 = t.drop_last();
            assert forall|x: int, y: int| 0 <= x < y < s0.len() implies #[trigger] s0[x].height
                < #[trigger] s0[y].height by {
                assert(s[x].height < s[y].height);
            }
            assert forall|x: int, y: int| 0 <= x < y < t0.len() implies #[trigger] t0[x].height
                < #[trigger] t0[y].height by {
                assert(t[x].height < t[y].height);
            }
            let top = s[ls].height;
            assert forall|h: u64| #[trigger] height_map(s0).contains_key(h) <==> height_map(
                t0,
            ).contains_key(h) by {
                if height_map(s0).contains_key(h) {
                    let a = choose|a: int| 0 <= a < s0.len() && s0[a].height == h;
                    assert(s[a].height < top);
                    lemma_height_map_at(s, a);
                    let b = choose|b: int| 0 <= b < t.len() && t[b].height == h;
                    assert(b != lt);
                    assert(t0[b].height == h);
                }
                if height_map(t0).contains_key(h) {
                    let a = choose|a: int| 0 <= a < t0.len() && t0[a].height == h;
                    assert(t[a].height < top);
                    lemma_height_map_at(t, a);
                    let b = choose|b: int| 0 <= b < s.len() && s[b].height == h;
                    assert(b != ls);
                    assert(s0[b].height == h);
                }
            }
            assert forall|h: u64| #[trigger] height_map(s0).contains_key(h) implies height_map(
                s0,
            )[h] == height_map(t0)[h] by {
                let a = choose|a: int| 0 <= a < s0.len() && s0[a].height == h;
                lemma_height_map_at(s0, a);
                lemma_height_map_at(s, a);
                let b = choose|b: int| 0 <= b < t0.len() && t0[b].height == h;
                lemma_height_map_at(t0, b);
                lemma_height_map_at(t, b);
            }
            assert(height_map(s0) =~= height_map(t0));
            law_store_determined_by_contents(s0, t0);
            assert(s =~= t0.push(t[lt]));
            assert(t =~= t0.push(t[lt]));
        }
    }
}

/// A read gives back what an insert wrote: once a block is stored at a height below
/// the largest 32-bit height, reading the one-height range at that height yields
/// exactly that block.
pub proof fn law_read_after_insert(s: Seq<CachedBlock>, t: Seq<CachedBlock>, b: CachedBlock)
    requires
        strictly_ascending(s),
        strictly_ascending(t),
        height_map(t) == insert_all(height_map(s), seq![b]),
        b.height < 0xffff_ffff,
    ensures
        read_spec(t, HeightRange { start: b.height as u32, end: (b.height + 1) as u32 }) == Some(
            seq![b],
        ),
{
    let h = b.height;
    let range = HeightRange { start: h as u32, end: (h + 1) as u32 };
    let p = within(range);
    assert(seq![b].drop_last() =~= Seq::<CachedBlock>::empty());
    assert(seq![b].last() == b);
    assert(insert_all(height_map(s), Seq::<CachedBlock>::empty()) == height_map(s));
    assert(insert_all(height_map(s), seq![b]) == insert_all(height_map(s), seq![b].drop_last()).insert(b.height, b.block));
    assert(height_map(t) == height_map(s).insert(h, b.block));
    assert(height_map(t).contains_key(h));
    let i = choose|i: int| 0 <= i < t.len() && t[i].height == h;
    lemma_height_map_at(t, i);
    assert(t[i] == b);
    assert((h as u32) == h) by (bit_vector)
        requires
            h < 0xffff_ffff,
    ;
    assert(((h + 1) as u32) == h + 1) by (bit_vector)
        requires
            h < 0xffff_ffff,
    ;
    assert(range.holds(t[i].height));
    lemma_filter_keeps_order(t, p);
    broadcast use Seq::lemma_filter_contains;

    let sel = t.filter(p);
    assert(sel.contains(t[i]));
    let a = choose|a: int| 0 <= a < sel.len() && sel[a] == t[i];
    // every selected height is h plus a multiple of 2^32, hence at least h
    assert forall|x: int| 0 <= x < sel.len() implies #[trigger] sel[x].height >= h && sel[x].height
        != h + 1 by {
        assert(p(sel[x]));
        let y = sel[x].height;
        assert(range.holds(y));
        assert((y as u32) == (h as u32) && h < 0xffff_ffff ==> y >= h && y != h + 1)
            by (bit_vector);
    }
    if a > 0 {
        assert(sel[0].height < sel[a].height);
    }
    assert(sel[0].height == h);
    assert(sel[0] == b) by {
        if a > 0 {
            assert(sel[0].height < sel[a].height);
        }
    }
    let rest = sel.drop_first();
    if rest.len() > 0 {
        assert(rest[0] == sel[1]);
        assert(rest[0].height != h + 1);
    }
    assert(run_from(rest, h + 1) =~= Seq::<CachedBlock>::empty());
    assert(run_from(sel, h as int) =~= seq![b]);
}

/// After a range is deleted, the cache holds no block in that range: its tip within
/// the range is `None` and a read of the range gives back nothing.
pub proof fn law_delete_clears_range(s: Seq<CachedBlock>, range: HeightRange)
    ensures
        tip_height_spec(s.filter(outside(range)), Some(range)) is None,
        read_spec(s.filter(outside(range)), range) == Some(Seq::<CachedBlock>::empty()),
{
    broadcast use Seq::lemma_filter_pred;

    let kept = s.filter(outside(range));
    let a = kept.filter(within_opt(Some(range)));
    let b = kept.filter(within(range));
    if a.len() > 0 {
        assert(within_opt(Some(range))(a[0]));
        kept.lemma_filter_contains_rev(within_opt(Some(range)), a[0]);
        let k = choose|k: int| 0 <= k < kept.len() && kept[k] == a[0];
        assert(outside(range)(kept[k]));
    }
    if b.len() > 0 {
        assert(within(range)(b[0]));
        kept.lemma_filter_contains_rev(within(range), b[0]);
        let k = choose|k: int| 0 <= k < kept.len() && kept[k] == b[0];
        assert(outside(range)(kept[k]));
    }
    assert(run_from(b, range.start as int) =~= Seq::<CachedBlock>::empty());
}

/// With neither a start height nor a limit, the cache hands out every block it holds,
/// in order.
pub proof fn law_with_blocks_unbounded_is_everything(s: Seq<CachedBlock>)
    ensures
        with_blocks_spec(s, None, None) == s,
    decreases s.len(),
{
    reveal(Seq::filter);
    if s.len() > 0 {
        law_with_blocks_unbounded_is_everything(s.drop_last());
        assert(s.drop_last().push(s.last()) =~= s);
    } else {
        assert(s.filter(reaches(None)) =~= s);
    }
}


proof fn lemma_run_from_is_contiguous_prefix(sel: Seq<CachedBlock>, expected: int)
    ensures
        run_from(sel, expected).len() <= sel.len(),
        run_from(sel, expected) == sel.take(run_from(sel, expected).len() as int),
        forall|k: int|
            0 <= k < run_from(sel, expected).len() ==> #[trigger] run_from(sel, expected)[k].height
                == expected + k,
    decreases sel.len(),
{
    if sel.len() > 0 && sel[0].height == expected {
        let rest = sel.drop_first();
        lemma_run_from_is_contiguous_prefix(rest, expected + 1);
        let run = run_from(sel, expected);
        let tail = run_from(rest, expected + 1);
        assert(run == seq![sel[0]] + tail);
        assert(run =~= sel.take(run.len() as int));
        assert forall|k: int| 0 <= k < run.len() implies #[trigger] run[k].height == expected + k by {
            if k > 0 {
                assert(run[k] == tail[k - 1]);
            }
        }
    } else {
        assert(run_from(sel, expected) =~= sel.take(0));
    }
}

/// A read gives back blocks the cache holds, with consecutive heights from the start of
/// the range: short reads are allowed, gaps are not.
pub proof fn law_read_is_contiguous(s: Seq<CachedBlock>, range: HeightRange)
    requires
        strictly_ascending(s),
    ensures
        read_spec(s, range) matches Some(run) ==> {
            &&& forall|k: int| 0 <= k < run.len() ==> #[trigger] run[k].height == range.start + k
            &&& forall|k: int| 0 <= k < run.len() ==> s.contains(#[trigger] run[k])
            &&& forall|k: int| 0 <= k < run.len() ==> range.holds(#[trigger] run[k].height)
        },
{
    let p = within(range);
    let sel = s.filter(p);
    lemma_filter_keeps_order(s, p);
    lemma_run_from_is_contiguous_prefix(sel, range.start as int);
    let run = run_from(sel, range.start as int);
    assert forall|k: int| 0 <= k < run.len() implies s.contains(#[trigger] run[k]) && range.holds(
        run[k].height,
    ) by {
        assert(run[k] == sel[k]);
        assert(p(sel[k]));
    }
}

proof fn lemma_max_height_attained(sel: Seq<CachedBlock>)
    requires
        sel.len() > 0,
    ensures
        exists|i: int| 0 <= i < sel.len() && #[trigger] sel[i].height == max_height(sel),
        forall|j: int| 0 <= j < sel.len() ==> #[trigger] sel[j].height <= max_height(sel),
    decreases sel.len(),
{
    let init = sel.drop_last();
    let last = sel.len() - 1;
    if init.len() > 0 {
        lemma_max_height_attained(init);
        let i = choose|i: int| 0 <= i < init.len() && #[trigger] init[i].height == max_height(init);
        if sel[last].height > max_height(init) {
            assert(sel[last].height == max_height(sel));
        } else {
            assert(sel[i].height == max_height(sel));
        }
        assert forall|j: int| 0 <= j < sel.len() implies #[trigger] sel[j].height <= max_height(sel) by {
            if j < last {
                assert(sel[j] == init[j]);
            }
        }
    } else {
        assert(max_height(init) == 0);
        assert(sel[last].height == max_height(sel));
    }
}

/// The tip within a range is the 32-bit height of a block the cache holds in that range,
/// and no block in the range is higher.
pub proof fn law_tip_is_highest_in_range(s: Seq<CachedBlock>, range: Option<HeightRange>)
    ensures
        tip_height_spec(s, range) matches Some(tip) ==> exists|i: int|
            0 <= i < s.len() && #[trigger] within_opt(range)(s[i]) && s[i].height as u32 == tip
                && forall|j: int|
                0 <= j < s.len() && within_opt(range)(s[j]) ==> #[trigger] s[j].height
                    <= s[i].height,
        tip_height_spec(s, range) is None ==> forall|j: int|
            0 <= j < s.len() ==> !#[trigger] within_opt(range)(s[j]),
{
    broadcast use Seq::lemma_filter_pred, Seq::lemma_filter_contains;

    let p = within_opt(range);
    let sel = s.filter(p);
    if sel.len() > 0 {
        lemma_max_height_attained(sel);
        let a = choose|a: int| 0 <= a < sel.len() && #[trigger] sel[a].height == max_height(sel);
        s.lemma_filter_contains_rev(p, sel[a]);
        let i = choose|i: int| 0 <= i < s.len() && s[i] == sel[a];
        assert(p(sel[a]));
        assert forall|j: int| 0 <= j < s.len() && p(s[j]) implies #[trigger] s[j].height
            <= s[i].height by {
            assert(sel.contains(s[j]));
            let b = choose|b: int| 0 <= b < sel.len() && sel[b] == s[j];
            assert(sel[b].height <= max_height(sel));
        }
    } else {
        assert forall|j: int| 0 <= j < s.len() implies !#[trigger] p(s[j]) by {
            if p(s[j]) {
                assert(sel.contains(s[j]));
            }
        }
    }
}

/// Whether some block of the sequence is at the height.
pub open spec fn has_height(bs: Seq<CachedBlock>, h: u64) -> bool {
    exists|i: int| 0 <= i < bs.len() && bs[i].height == h
}

proof fn lemma_insert_all_keys(m: Map<u64, CompactBlock>, bs: Seq<CachedBlock>, h: u64)
    ensures
        insert_all(m, bs).contains_key(h) <==> (m.contains_key(h) || has_height(bs, h)),
    decreases bs.len(),
{
    if bs.len() > 0 {
        let init = bs.drop_last();
        lemma_insert_all_keys(m, init, h);
        if has_height(init, h) {
            let i = choose|i: int| 0 <= i < init.len() && init[i].height == h;
            assert(bs[i].height == h);
        }
        if has_height(bs, h) && h != bs.last().height {
            let i = choose|i: int| 0 <= i < bs.len() && bs[i].height == h;
            assert(init[i].height == h);
        }
    }
}

proof fn lemma_low_height_is_own_u32(h: u64)
    requires
        h < 0x1_0000_0000,
    ensures
        (h as u32) as u64 == h,
{
    assert((h as u32) as u64 == h) by (bit_vector)
        requires
            h < 0x1_0000_0000,
    ;
}

proof fn lemma_prefix_heights(t: Seq<CachedBlock>, a: u64, b: u64, k: int)
    requires
        strictly_ascending(t),
        0 <= k < t.len(),
        forall|j: int| 0 <= j < t.len() ==> a <= #[trigger] t[j].height < b,
        forall|h: u64| a <= h < b ==> has_height(t, h),
    ensures
        forall|j: int| 0 <= j <= k ==> #[trigger] t[j].height == a + j,
    decreases k,
{
    if k > 0 {
        lemma_prefix_heights(t, a, b, k - 1);
        assert(t[k - 1].height < t[k].height);
    }
    let target = (a + k) as u64;
    assert(t[k].height >= target) by {
        if k > 0 {
            assert(t[k - 1].height == a + k - 1);
            assert(t[k - 1].height < t[k].height);
        }
    }
    assert(target < b);
    assert(has_height(t, target));
    let i = choose|i: int| 0 <= i < t.len() && t[i].height == target;
    if i < k {
        assert(t[i].height == a + i);
    } else if i > k {
        assert(t[k].height < t[i].height);
    }
}

proof fn lemma_filter_everything(s: Seq<CachedBlock>, p: spec_fn(CachedBlock) -> bool)
    requires
        forall|j: int| 0 <= j < s.len() ==> #[trigger] p(s[j]),
    ensures
        s.filter(p) == s,
    decreases s.len(),
{
    reveal(Seq::filter);
    if s.len() > 0 {
        lemma_filter_everything(s.drop_last(), p);
        assert(p(s[s.len() - 1]));
        assert(s.drop_last().push(s.last()) =~= s);
    } else {
        assert(s.filter(p) =~= s);
    }
}

proof fn lemma_run_from_consecutive(s: Seq<CachedBlock>, a: int)
    requires
        forall|j: int| 0 <= j < s.len() ==> #[trigger] s[j].height == a + j,
    ensures
        run_from(s, a) == s,
    decreases s.len(),
{
    if s.len() > 0 {
        let rest = s.drop_first();
        assert forall|j: int| 0 <= j < rest.len() implies #[trigger] rest[j].height == (a + 1) + j by {
            assert(rest[j] == s[j + 1]);
        }
        lemma_run_from_consecutive(rest, a + 1);
        assert(seq![s[0]] + rest =~= s);
    } else {
        assert(run_from(s, a) =~= s);
    }
}

/// A contiguous range of blocks inserted into an empty cache reads back whole: when the
/// inserted heights are exactly `start`, `start + 1`, ..., `end - 1`, the store holds one
/// block per height in that order, each the last one inserted at its height, and a read
/// of `[start, end)` gives all of them back.
pub proof fn law_read_back_contiguous_range(
    t: Seq<CachedBlock>,
    bs: Seq<CachedBlock>,
    start: u32,
    end: u32,
)
    requires
        strictly_ascending(t),
        height_map(t) == insert_all(Map::empty(), bs),
        start <= end,
        forall|h: u64| #[trigger] has_height(bs, h) <==> start <= h < end,
    ensures
        read_spec(t, HeightRange { start, end }) == Some(t),
        t.len() == end - start,
        forall|k: int|
            0 <= k < t.len() ==> #[trigger] t[k].height == start + k && t[k].block == insert_all(
                Map::empty(),
                bs,
            )[t[k].height],
{
    let m = insert_all(Map::<u64, CompactBlock>::empty(), bs);
    let a = start as u64;
    let b = end as u64;
    assert forall|j: int| 0 <= j < t.len() implies a <= #[trigger] t[j].height < b by {
        lemma_height_map_at(t, j);
        lemma_insert_all_keys(Map::empty(), bs, t[j].height);
    }
    assert forall|h: u64| a <= h < b implies has_height(t, h) by {
        assert(has_height(bs, h));
        lemma_insert_all_keys(Map::empty(), bs, h);
        assert(height_map(t).contains_key(h));
        let i = choose|i: int| 0 <= i < t.len() && t[i].height == h;
        assert(t[i].height == h);
    }
    if t.len() > 0 {
        lemma_prefix_heights(t, a, b, t.len() - 1);
        assert(t[t.len() - 1].height == a + t.len() - 1);
        assert(t[t.len() - 1].height < b);
    }
    // the heights fill the range, so there is one block per height
    if t.len() < end - start {
        let h = (a + t.len()) as u64;
        assert(has_height(t, h));
        let i = choose|i: int| 0 <= i < t.len() && t[i].height == h;
        assert(t[i].height == a + i);
    }
    assert(t.len() == end - start);
    let range = HeightRange { start, end };
    assert forall|j: int| 0 <= j < t.len() implies #[trigger] within(range)(t[j]) by {
        lemma_low_height_is_own_u32(t[j].height);
    }
    lemma_filter_everything(t, within(range));
    lemma_run_from_consecutive(t, start as int);
    assert forall|k: int| 0 <= k < t.len() implies #[trigger] t[k].height == start + k
        && t[k].block == m[t[k].height] by {
        lemma_height_map_at(t, k);
    }
}

/// A limit counts blocks: with a limit `n`, `with_blocks` hands out the first `n` of the
/// blocks it hands out without one (all of them when there are fewer), not the blocks of
/// some height window.
pub proof fn law_with_blocks_limit_counts_blocks(s: Seq<CachedBlock>, from: Option<u32>, n: usize)
    ensures
        with_blocks_spec(s, from, Some(n)).len() == (if n <= with_blocks_spec(s, from, None).len() {
            n as int
        } else {
            with_blocks_spec(s, from, None).len() as int
        }),
        forall|k: int|
            0 <= k < with_blocks_spec(s, from, Some(n)).len() ==> #[trigger] with_blocks_spec(
                s,
                from,
                Some(n),
            )[k] == with_blocks_spec(s, from, None)[k],
{
}

/// Without a limit, `with_blocks` hands out exactly the cached blocks at or above the
/// start height, in strictly ascending order of height.
pub proof fn law_with_blocks_selects_at_or_above(s: Seq<CachedBlock>, from: Option<u32>)
    requires
        strictly_ascending(s),
    ensures
        strictly_ascending(with_blocks_spec(s, from, None)),
        forall|x: CachedBlock| #[trigger]
            with_blocks_spec(s, from, None).contains(x) <==> (s.contains(x) && (from matches Some(
                h,
            ) ==> x.height >= h)),
{
    let p = reaches(from);
    lemma_filter_keeps_order(s, p);
    assert forall|x: CachedBlock| #[trigger]
        with_blocks_spec(s, from, None).contains(x) <==> (s.contains(x) && (from matches Some(
            h,
        ) ==> x.height >= h)) by {
        if s.filter(p).contains(x) {
            let k = choose|k: int| 0 <= k < s.filter(p).len() && s.filter(p)[k] == x;
            assert(p(s.filter(p)[k]));
            assert(s.contains(s.filter(p)[k]));
        }
        if s.contains(x) && p(x) {
            let k = choose|k: int| 0 <= k < s.len() && s[k] == x;
            s.lemma_filter_contains(p, k);
        }
    }
}

/// In a batch insert the last block of the batch at a height is the one stored there,
/// whatever was stored at that height before and whatever earlier blocks of the batch
/// share it.
pub proof fn law_insert_last_block_of_batch_wins(
    m: Map<u64, CompactBlock>,
    bs: Seq<CachedBlock>,
    i: int,
)
    requires
        0 <= i < bs.len(),
        forall|j: int| i < j < bs.len() ==> #[trigger] bs[j].height != bs[i].height,
    ensures
        insert_all(m, bs).contains_key(bs[i].height),
        insert_all(m, bs)[bs[i].height] == bs[i].block,
    decreases bs.len(),
{
    let init = bs.drop_last();
    if i < bs.len() - 1 {
        assert(bs[bs.len() - 1].height != bs[i].height);
        assert forall|j: int| i < j < init.len() implies #[trigger] init[j].height != init[i].height by {
            assert(init[j] == bs[j]);
        }
        law_insert_last_block_of_batch_wins(m, init, i);
        assert(init[i] == bs[i]);
    }
}

/// A batch insert leaves every height that no block of the batch has as it was.
pub proof fn law_insert_keeps_other_heights(m: Map<u64, CompactBlock>, bs: Seq<CachedBlock>, h: u64)
    requires
        !has_height(bs, h),
    ensures
        insert_all(m, bs).contains_key(h) == m.contains_key(h),
        m.contains_key(h) ==> insert_all(m, bs)[h] == m[h],
    decreases bs.len(),
{
    if bs.len() > 0 {
        let init = bs.drop_last();
        assert(bs[bs.len() - 1].height != h);
        if has_height(init, h) {
            let i = choose|i: int| 0 <= i < init.len() && init[i].height == h;
            assert(bs[i].height == h);
        }
        law_insert_keeps_other_heights(m, init, h);
    }
}

/// After a batch insert the store holds, at each height of the batch, the batch's last
/// block at that height, and at every other height what it held before.
pub proof fn law_insert_stores_batch(
    s: Seq<CachedBlock>,
    t: Seq<CachedBlock>,
    bs: Seq<CachedBlock>,
)
    requires
        strictly_ascending(s),
        strictly_ascending(t),
        height_map(t) == insert_all(height_map(s), bs),
    ensures
        forall|i: int|
            0 <= i < bs.len() && (forall|j: int| i < j < bs.len() ==> bs[j].height != bs[i].height)
                ==> #[trigger] t.contains(bs[i]),
        forall|k: int|
            0 <= k < s.len() && !has_height(bs, s[k].height) ==> #[trigger] t.contains(s[k]),
{
    assert forall|i: int|
        0 <= i < bs.len() && (forall|j: int| i < j < bs.len() ==> bs[j].height != bs[i].height)
            implies #[trigger] t.contains(bs[i]) by {
        assert forall|j: int| i < j < bs.len() implies #[trigger] bs[j].height != bs[i].height by {}
        law_insert_last_block_of_batch_wins(height_map(s), bs, i);
        let h = bs[i].height;
        assert(height_map(t).contains_key(h));
        let k = choose|k: int| 0 <= k < t.len() && t[k].height == h;
        lemma_height_map_at(t, k);
        assert(t[k] == bs[i]);
    }
    assert forall|k: int| 0 <= k < s.len() && !has_height(bs, s[k].height) implies #[trigger] t.contains(
        s[k],
    ) by {
        let h = s[k].height;
        lemma_height_map_at(s, k);
        law_insert_keeps_other_heights(height_map(s), bs, h);
        assert(height_map(t).contains_key(h));
        let q = choose|q: int| 0 <= q < t.len() && t[q].height == h;
        lemma_height_map_at(t, q);
        assert(t[q] == s[k]);
    }
}

} // verus!
