//! Large images shown by tiles: which images are tiled, the session of the
//! image being tiled, the queues of tiles to decode, and the cache of
//! decoded tiles bounded by a byte budget.
use vstd::prelude::*;
use crate::formats::has_extension;

verus! {

/// The default budget of the tile cache, in bytes.
pub const LARGE_IMAGE_TILE_CACHE_BYTES: usize = 268435456;

/// Whether an image is decoded by tiles: when the tiling policy asks for
/// it (`requires_tiling`, from the image's size), unless it is a HEIF or
/// Photoshop file (`.heic`, `.heif`, `.psd`, `.psb`, any case), which other
/// decoders handle.
pub open spec fn spec_should_decode_large_image(path: Seq<char>, requires_tiling: bool) -> bool {
    let excluded = has_extension(path, "heic"@) || has_extension(path, "heif"@) || has_extension(path, "psd"@)
        || has_extension(path, "psb"@);
    !excluded && requires_tiling
}

/// Whether the image at `path` is decoded by tiles.
pub fn should_decode_large_image(path: &str, requires_tiling: bool) -> (result: bool)
    ensures
        result == spec_should_decode_large_image(path@, requires_tiling),
{
    let excluded = crate::formats::extension_is(path, "heic") || crate::formats::extension_is(path, "heif")
        || crate::formats::extension_is(path, "psd") || crate::formats::extension_is(path, "psb");
    !excluded && requires_tiling
}

/// A tile of a large image: its level of detail and its column and row.
#[derive(Debug, Clone, Copy, PartialEq, Eq, Hash, Structural)]
pub struct TileCoordinate {
    pub level: u32,
    pub x: u32,
    pub y: u32,
}

impl TileCoordinate {
    /// The tile at `level`, column `x`, row `y`.
    pub fn new(level: u32, x: u32, y: u32) -> (result: Self)
        ensures
            result == (TileCoordinate { level, x, y }),
    {
        TileCoordinate { level, x, y }
    }
}

/// The total size of cached tiles.
pub open spec fn tiles_total<T>(tiles: Seq<(TileCoordinate, T, usize)>) -> int
    decreases tiles.len(),
{
    if tiles.len() == 0 {
        0
    } else {
        tiles_total(tiles.drop_last()) + tiles.last().2
    }
}

/// The position of the tile at `c`, from index `i` on.
pub open spec fn tile_index<T>(tiles: Seq<(TileCoordinate, T, usize)>, c: TileCoordinate, i: int) -> Option<int>
    decreases tiles.len() - i,
{
    if i < 0 || i >= tiles.len() {
        None
    } else if tiles[i].0 == c {
        Some(i)
    } else {
        tile_index(tiles, c, i + 1)
    }
}

/// Eviction of the least recently used tiles down to `capacity`; gives
/// what remains and the tiles dropped, in order.
pub open spec fn evict_tiles<T>(tiles: Seq<(TileCoordinate, T, usize)>, capacity: int) -> (
    Seq<(TileCoordinate, T, usize)>,
    Seq<T>,
)
    decreases tiles.len(),
{
    if tiles_total(tiles) <= capacity || tiles.len() == 0 {
        (tiles, Seq::empty())
    } else {
        let rest = evict_tiles(tiles.drop_first(), capacity);
        (rest.0, seq![tiles[0].1] + rest.1)
    }
}

/// What inserting a tile makes of the cached tiles: a tile already there
/// for the coordinate is dropped; a tile larger than the whole budget is
/// not kept; otherwise it becomes the most recently used and the oldest
/// tiles are evicted down to the budget. Gives the tiles and what was
/// dropped, in order.
pub open spec fn insert_tile_outcome<T>(
    tiles: Seq<(TileCoordinate, T, usize)>,
    c: TileCoordinate,
    tile: T,
    bytes: usize,
    capacity: int,
) -> (Seq<(TileCoordinate, T, usize)>, Seq<T>) {
    let (base, dropped) = match tile_index(tiles, c, 0) {
        Some(i) => (tiles.remove(i), seq![tiles[i].1]),
        None => (tiles, Seq::empty()),
    };
    if bytes > capacity {
        (base, dropped.push(tile))
    } else {
        let evicted = evict_tiles(base.push((c, tile, bytes)), capacity);
        (evicted.0, dropped + evicted.1)
    }
}

/// Decoded tiles, least recently inserted first, within a byte budget.
pub struct TileCache<T> {
    capacity: usize,
    bytes: usize,
    tiles: Vec<(TileCoordinate, T, usize)>,
    retired: Vec<T>,
}

/// No two tiles share a coordinate.
pub open spec fn tiles_distinct<T>(tiles: Seq<(TileCoordinate, T, usize)>) -> bool {
    forall|i: int, j: int| 0 <= i < j < tiles.len() ==> #[trigger] tiles[i].0 != #[trigger] tiles[j].0
}

/// Adding a tile adds its size.
proof fn lemma_tiles_push<T>(tiles: Seq<(TileCoordinate, T, usize)>, e: (TileCoordinate, T, usize))
    ensures
        tiles_total(tiles.push(e)) == tiles_total(tiles) + e.2,
{
    assert(tiles.push(e).drop_last() =~= tiles);
}

/// The total is not negative.
proof fn lemma_tiles_nonneg<T>(tiles: Seq<(TileCoordinate, T, usize)>)
    ensures
        tiles_total(tiles) >= 0,
    decreases tiles.len(),
{
    if tiles.len() > 0 {
        lemma_tiles_nonneg(tiles.drop_last());
    }
}

/// Removing a tile removes its size.
proof fn lemma_tiles_remove<T>(tiles: Seq<(TileCoordinate, T, usize)>, i: int)
    requires
        0 <= i < tiles.len(),
    ensures
        tiles_total(tiles.remove(i)) == tiles_total(tiles) - tiles[i].2,
    decreases tiles.len(),
{
    if i == tiles.len() - 1 {
        assert(tiles.remove(i) =~= tiles.drop_last());
    } else {
        lemma_tiles_remove(tiles.drop_last(), i);
        assert(tiles.remove(i) =~= tiles.drop_last().remove(i).push(tiles.last()));
        lemma_tiles_push(tiles.drop_last().remove(i), tiles.last());
    }
}

/// Where `tile_index` lands.
proof fn lemma_tile_index<T>(tiles: Seq<(TileCoordinate, T, usize)>, c: TileCoordinate, i: int)
    requires
        0 <= i,
    ensures
        (match tile_index(tiles, c, i) {
            Some(j) => i <= j < tiles.len() && tiles[j].0 == c,
            None => forall|k: int| i <= k < tiles.len() ==> #[trigger] tiles[k].0 != c,
        }),
    decreases tiles.len() - i,
{
    if i < tiles.len() && tiles[i].0 != c {
        lemma_tile_index(tiles, c, i + 1);
    }
}

/// Removing a tile keeps coordinates distinct.
proof fn lemma_tiles_remove_distinct<T>(tiles: Seq<(TileCoordinate, T, usize)>, i: int)
    requires
        0 <= i < tiles.len(),
        tiles_distinct(tiles),
    ensures
        tiles_distinct(tiles.remove(i)),
{
    let r = tiles.remove(i);
    assert forall|a: int, b: int| 0 <= a < b < r.len() implies #[trigger] r[a].0 != #[trigger] r[b].0 by {
        let a2 = if a < i { a } else { a + 1 };
        let b2 = if b < i { b } else { b + 1 };
        assert(r[a] == tiles[a2] && r[b] == tiles[b2]);
    }
}

/// Eviction keeps coordinates distinct and ends within the budget.
proof fn lemma_evict_tiles<T>(tiles: Seq<(TileCoordinate, T, usize)>, capacity: int)
    requires
        tiles_distinct(tiles),
        capacity >= 0,
    ensures
        tiles_distinct(evict_tiles(tiles, capacity).0),
        tiles_total(evict_tiles(tiles, capacity).0) <= capacity,
    decreases tiles.len(),
{
    if !(tiles_total(tiles) <= capacity || tiles.len() == 0) {
        assert(tiles.drop_first() =~= tiles.remove(0));
        lemma_tiles_remove_distinct(tiles, 0);
        lemma_evict_tiles(tiles.drop_first(), capacity);
    } else if tiles.len() == 0 {
        assert(tiles_total(tiles) == 0);
    }
}

impl<T> TileCache<T> {
    /// The tiles cached, least recently inserted first.
    pub closed spec fn tiles(&self) -> Seq<(TileCoordinate, T, usize)> {
        self.tiles@
    }

    /// The tiles dropped and not yet handed back.
    pub closed spec fn retired(&self) -> Seq<T> {
        self.retired@
    }

    /// The budget, in bytes.
    pub closed spec fn capacity(&self) -> usize {
        self.capacity
    }

    /// Coordinates are distinct, the byte count is the tiles' total, and it
    /// is within the budget.
    pub closed spec fn well_formed(&self) -> bool {
        &&& tiles_distinct(self.tiles@)
        &&& self.bytes as int == tiles_total(self.tiles@)
        &&& self.bytes <= self.capacity
    }

    /// An empty cache with a budget of `capacity` bytes.
    pub fn new(capacity: usize) -> (result: Self)
        ensures
            result.well_formed(),
            result.tiles().len() == 0,
            result.retired().len() == 0,
            result.capacity() == capacity,
    {
        TileCache { capacity, bytes: 0, tiles: Vec::new(), retired: Vec::new() }
    }

    /// The position of the tile at `c`.
    fn find(&self, c: &TileCoordinate) -> (result: Option<usize>)
        ensures
            (match result {
                Some(i) => tile_index(self.tiles@, *c, 0) == Some(i as int),
                None => tile_index(self.tiles@, *c, 0) is None,
            }),
    {
        let mut i: usize = 0;
        while i < self.tiles.len()
            invariant
                i <= self.tiles.len(),
                tile_index(self.tiles@, *c, 0) == tile_index(self.tiles@, *c, i as int),
            decreases self.tiles.len() - i,
        {
            if self.tiles[i].0 == *c {
                return Some(i);
            }
            i = i + 1;
        }
        None
    }

    /// Whether a tile is cached at `c`.
    pub fn contains(&self, c: &TileCoordinate) -> (result: bool)
        ensures
            result == (tile_index(self.tiles(), *c, 0) is Some),
    {
        self.find(c).is_some()
    }

    /// The tile cached at `c`, without changing its place.
    pub fn peek(&self, c: &TileCoordinate) -> (result: Option<&T>)
        ensures
            (match tile_index(self.tiles(), *c, 0) {
                Some(i) => result == Some(&self.tiles()[i].1),
                None => result is None,
            }),
    {
        proof {
            lemma_tile_index(self.tiles@, *c, 0);
        }
        match self.find(c) {
            Some(i) => Some(&self.tiles[i].1),
            None => None,
        }
    }

    /// Caches `tile` of `bytes` bytes at `c`; what is dropped is retired.
    pub fn insert(&mut self, c: TileCoordinate, tile: T, bytes: usize)
        requires
            old(self).well_formed(),
        ensures
            final(self).well_formed(),
            final(self).capacity() == old(self).capacity(),
            final(self).tiles() == insert_tile_outcome(old(self).tiles(), c, tile, bytes, old(self).capacity() as int).0,
            final(self).retired() == old(self).retired() + insert_tile_outcome(
                old(self).tiles(),
                c,
                tile,
                bytes,
                old(self).capacity() as int,
            ).1,
    {
        let ghost initial = self.tiles@;
        let ghost retired0 = self.retired@;
        proof {
            lemma_tile_index(initial, c, 0);
        }
        match self.find(&c) {
            Some(i) => {
                proof {
                    lemma_tiles_remove(initial, i as int);
                    lemma_tiles_remove_distinct(initial, i as int);
                    lemma_tiles_nonneg(initial.remove(i as int));
                }
                let (_, old_tile, old_bytes) = self.tiles.remove(i);
                self.bytes = self.bytes - old_bytes;
                self.retired.push(old_tile);
            },
            None => {},
        }
        let ghost base = self.tiles@;
        let ghost dropped = self.retired@.skip(retired0.len() as int);
        assert(self.retired@ =~= retired0 + dropped);
        if bytes > self.capacity {
            self.retired.push(tile);
            assert(self.retired@ =~= retired0 + dropped.push(tile));
            return;
        }
        proof {
            lemma_tiles_push(base, (c, tile, bytes));
            lemma_tile_index(base, c, 0);
            if tile_index(initial, c, 0) is Some {
                let i = tile_index(initial, c, 0)->0;
                assert forall|k: int| 0 <= k < base.len() implies #[trigger] base[k].0 != c by {
                    let k2 = if k < i { k } else { k + 1 };
                    assert(base[k] == initial[k2]);
                    if k2 != i {
                        assert(initial[k2].0 != initial[i].0);
                    }
                }
            }
        }
        let mut total: u128 = self.bytes as u128 + bytes as u128;
        self.tiles.push((c, tile, bytes));
        proof {
            let pushed = self.tiles@;
            assert forall|a: int, b: int| 0 <= a < b < pushed.len() implies #[trigger] pushed[a].0 != #[trigger] pushed[b].0 by {
                if b == pushed.len() - 1 {
                    assert(pushed[a] == base[a]);
                } else {
                    assert(pushed[a] == base[a] && pushed[b] == base[b]);
                }
            }
        }
        let ghost before_evict = self.tiles@;
        let ghost released_before = self.retired@;
        while total > self.capacity as u128 && self.tiles.len() > 0
            invariant
                self.capacity == old(self).capacity,
                tiles_distinct(self.tiles@),
                total as int == tiles_total(self.tiles@),
                evict_tiles(before_evict, self.capacity as int) == (
                    evict_tiles(self.tiles@, self.capacity as int).0,
                    self.retired@.skip(released_before.len() as int) + evict_tiles(self.tiles@, self.capacity as int).1,
                ),
                released_before.len() <= self.retired@.len(),
                self.retired@.take(released_before.len() as int) == released_before,
            decreases self.tiles.len(),
        {
            let ghost v = self.tiles@;
            proof {
                lemma_tiles_remove(v, 0);
                lemma_tiles_remove_distinct(v, 0);
                lemma_tiles_nonneg(v.remove(0));
                assert(v.drop_first() =~= v.remove(0));
            }
            let (_, oldest, oldest_bytes) = self.tiles.remove(0);
            total = total - oldest_bytes as u128;
            let ghost skipped = self.retired@.skip(released_before.len() as int);
            self.retired.push(oldest);
            assert(self.retired@.skip(released_before.len() as int) =~= skipped.push(oldest));
            assert(self.retired@.take(released_before.len() as int) =~= released_before);
            assert(skipped.push(oldest) + evict_tiles(self.tiles@, self.capacity as int).1 =~= skipped + (seq![oldest] + evict_tiles(self.tiles@, self.capacity as int).1));
        }
        proof {
            lemma_evict_tiles(self.tiles@, self.capacity as int);
            lemma_evict_tiles(before_evict, self.capacity as int);
            assert(self.retired@ =~= released_before + self.retired@.skip(released_before.len() as int));
        }
        self.bytes = total as usize;
    }

    /// Drops every tile; all are retired.
    pub fn clear(&mut self)
        requires
            old(self).well_formed(),
        ensures
            final(self).well_formed(),
            final(self).tiles().len() == 0,
            final(self).capacity() == old(self).capacity(),
            final(self).retired() == old(self).retired() + old(self).tiles().map_values(
                |t: (TileCoordinate, T, usize)| t.1,
            ),
    {
        let ghost initial = self.tiles@;
        let ghost retired0 = self.retired@;
        let count = self.tiles.len();
        let mut index: usize = 0;
        let mut remaining: Vec<(TileCoordinate, T, usize)> = Vec::new();
        std::mem::swap(&mut remaining, &mut self.tiles);
        while remaining.len() > 0
            invariant
                self.capacity == old(self).capacity,
                remaining@ == initial.skip(index as int),
                remaining@.len() == initial.len() - index,
                initial.len() == count,
                index <= initial.len(),
                self.retired@ == retired0 + initial.take(index as int).map_values(|t: (TileCoordinate, T, usize)| t.1),
                self.tiles@.len() == 0,
            decreases remaining.len(),
        {
            let (_, tile, _) = remaining.remove(0);
            self.retired.push(tile);
            proof {
                assert(initial.take(index + 1) =~= initial.take(index as int).push(initial[index as int]));
                assert(initial.take(index + 1).map_values(|t: (TileCoordinate, T, usize)| t.1) =~= initial.take(index as int).map_values(|t: (TileCoordinate, T, usize)| t.1).push(initial[index as int].1));
            }
            index = index + 1;
            assert(remaining@ =~= initial.skip(index as int));
        }
        assert(initial.take(initial.len() as int) =~= initial);
        self.bytes = 0;
    }

    /// Hands back every retired tile, for release.
    pub fn drain_retired(&mut self) -> (result: Vec<T>)
        ensures
            result@ == old(self).retired(),
            final(self).retired().len() == 0,
            final(self).tiles() == old(self).tiles(),
            final(self).capacity() == old(self).capacity(),
            old(self).well_formed() ==> final(self).well_formed(),
    {
        let mut drained: Vec<T> = Vec::new();
        std::mem::swap(&mut drained, &mut self.retired);
        drained
    }
}

/// Queues `items` in order behind `queued` (the queue they go to) and
/// `other` (the other queue): an item already cached, pending, or queued in
/// either is skipped.
pub open spec fn enqueue<T>(
    queued: Seq<TileCoordinate>,
    other: Seq<TileCoordinate>,
    cached: Seq<(TileCoordinate, T, usize)>,
    pending: Seq<TileCoordinate>,
    items: Seq<TileCoordinate>,
) -> Seq<TileCoordinate>
    decreases items.len(),
{
    if items.len() == 0 {
        queued
    } else {
        let q = enqueue(queued, other, cached, pending, items.drop_last());
        let c = items.last();
        if tile_index(cached, c, 0) is Some || pending.contains(c) || q.contains(c) || other.contains(c) {
            q
        } else {
            q.push(c)
        }
    }
}

/// Queueing keeps a queue free of repeats and of what the other queue
/// holds: the result starts with `queued`, and holds exactly what `queued`
/// held and the items that are neither cached, pending, nor in `other`.
pub proof fn lemma_enqueue<T>(
    queued: Seq<TileCoordinate>,
    other: Seq<TileCoordinate>,
    cached: Seq<(TileCoordinate, T, usize)>,
    pending: Seq<TileCoordinate>,
    items: Seq<TileCoordinate>,
)
    requires
        queued.no_duplicates(),
        forall|c: TileCoordinate| queued.contains(c) ==> !other.contains(c),
    ensures
        enqueue(queued, other, cached, pending, items).no_duplicates(),
        enqueue(queued, other, cached, pending, items).len() >= queued.len(),
        enqueue(queued, other, cached, pending, items).subrange(0, queued.len() as int) == queued,
        forall|c: TileCoordinate|
            #[trigger] enqueue(queued, other, cached, pending, items).contains(c) <==> (queued.contains(c) || (
            items.contains(c) && tile_index(cached, c, 0) is None && !pending.contains(c) && !other.contains(c))),
    decreases items.len(),
{
    if items.len() > 0 {
        let rest = items.drop_last();
        lemma_enqueue(queued, other, cached, pending, rest);
        let q = enqueue(queued, other, cached, pending, rest);
        let c = items.last();
        let out = enqueue(queued, other, cached, pending, items);
        assert forall|x: TileCoordinate| items.contains(x) <==> (rest.contains(x) || x == c) by {
            if items.contains(x) {
                let k = choose|k: int| 0 <= k < items.len() && items[k] == x;
                if k < items.len() - 1 {
                    assert(rest[k] == x);
                }
            }
            if rest.contains(x) {
                let k = choose|k: int| 0 <= k < rest.len() && rest[k] == x;
                assert(items[k] == x);
            }
            if x == c {
                assert(items[items.len() - 1] == x);
            }
        }
        if !(tile_index(cached, c, 0) is Some || pending.contains(c) || q.contains(c) || other.contains(c)) {
            assert(out == q.push(c));
            assert(out.subrange(0, queued.len() as int) =~= q.subrange(0, queued.len() as int));
            assert forall|x: TileCoordinate| out.contains(x) <==> (q.contains(x) || x == c) by {
                if out.contains(x) {
                    let k = choose|k: int| 0 <= k < out.len() && out[k] == x;
                    if k < q.len() {
                        assert(q[k] == x);
                    }
                }
                if q.contains(x) {
                    let k = choose|k: int| 0 <= k < q.len() && q[k] == x;
                    assert(out[k] == x);
                }
                if x == c {
                    assert(out[q.len() as int] == x);
                }
            }
        }
    } else {
        assert(queued.subrange(0, queued.len() as int) =~= queued);
    }
}

/// One call of `next_tile` on the two queues: the first visible tile, else
/// the first tile to prefetch, else nothing; with the queues that remain.
pub open spec fn next_tile_step(
    visible: Seq<TileCoordinate>,
    prefetch: Seq<TileCoordinate>,
) -> (Option<TileCoordinate>, Seq<TileCoordinate>, Seq<TileCoordinate>) {
    if visible.len() > 0 {
        (Some(visible[0]), visible.drop_first(), prefetch)
    } else if prefetch.len() > 0 {
        (Some(prefetch[0]), visible, prefetch.drop_first())
    } else {
        (None, visible, prefetch)
    }
}

/// What `n` calls of `next_tile` give, in order.
pub open spec fn drain_tiles(
    visible: Seq<TileCoordinate>,
    prefetch: Seq<TileCoordinate>,
    n: nat,
) -> Seq<Option<TileCoordinate>>
    decreases n,
{
    if n == 0 {
        Seq::empty()
    } else {
        let (result, v, p) = next_tile_step(visible, prefetch);
        seq![result] + drain_tiles(v, p, (n - 1) as nat)
    }
}

/// Repeated calls of `next_tile` give the visible queue, then the prefetch
/// queue, then nothing.
proof fn lemma_drain_tiles(visible: Seq<TileCoordinate>, prefetch: Seq<TileCoordinate>)
    ensures
        drain_tiles(visible, prefetch, visible.len() + prefetch.len() + 1) == (visible + prefetch).map_values(
            |c: TileCoordinate| Some(c),
        ).push(None),
    decreases visible.len() + prefetch.len(),
{
    let n = visible.len() + prefetch.len() + 1;
    let all = (visible + prefetch).map_values(|c: TileCoordinate| Some(c));
    if visible.len() > 0 {
        lemma_drain_tiles(visible.drop_first(), prefetch);
        assert(visible + prefetch =~= seq![visible[0]] + (visible.drop_first() + prefetch));
        assert(all.push(None) =~= seq![Some(visible[0])] + (visible.drop_first() + prefetch).map_values(
            |c: TileCoordinate| Some(c),
        ).push(None));
    } else if prefetch.len() > 0 {
        lemma_drain_tiles(visible, prefetch.drop_first());
        assert(visible + prefetch =~= seq![prefetch[0]] + (visible + prefetch.drop_first()));
        assert(all.push(None) =~= seq![Some(prefetch[0])] + (visible + prefetch.drop_first()).map_values(
            |c: TileCoordinate| Some(c),
        ).push(None));
    } else {
        assert(drain_tiles(visible, prefetch, 0) =~= Seq::<Option<TileCoordinate>>::empty());
        assert(all.push(None) =~= seq![None::<TileCoordinate>]);
    }
}

/// Tiles queued into empty queues come out of repeated `next_tile` calls
/// visible first, then prefetch, each once, then nothing: the visible
/// queue holds, in first-occurrence order, each visible tile that is
/// neither cached nor pending; the prefetch queue each such prefetch tile
/// that is not already visible. `LargeImageSession::begin` leaves both
/// queues empty and nothing cached or pending; `queue_tiles(visible,
/// prefetch)` then gives the queues as `enqueue` states them, and each
/// `next_tile` takes one step of `next_tile_step`, so after `begin` and
/// `queue_tiles` the calls of `next_tile` return `drain_tiles` of those
/// queues.
pub proof fn lemma_queued_tiles_come_out_once<T>(
    cached: Seq<(TileCoordinate, T, usize)>,
    pending: Seq<TileCoordinate>,
    visible: Seq<TileCoordinate>,
    prefetch: Seq<TileCoordinate>,
)
    ensures
        ({
            let vq = enqueue(Seq::empty(), Seq::empty(), cached, pending, visible);
            let pq = enqueue(Seq::empty(), vq, cached, pending, prefetch);
            &&& (vq + pq).no_duplicates()
            &&& forall|c: TileCoordinate| #[trigger] vq.contains(c) <==> (visible.contains(c) && tile_index(cached, c, 0) is None
                && !pending.contains(c))
            &&& forall|c: TileCoordinate| #[trigger] pq.contains(c) <==> (prefetch.contains(c) && !vq.contains(c)
                && tile_index(cached, c, 0) is None && !pending.contains(c))
            &&& drain_tiles(vq, pq, vq.len() + pq.len() + 1) == (vq + pq).map_values(|c: TileCoordinate| Some(c)).push(
                None,
            )
        }),
{
    let empty = Seq::<TileCoordinate>::empty();
    lemma_enqueue(empty, empty, cached, pending, visible);
    let vq = enqueue(empty, empty, cached, pending, visible);
    lemma_enqueue(empty, vq, cached, pending, prefetch);
    let pq = enqueue(empty, vq, cached, pending, prefetch);
    let all = vq + pq;
    assert forall|i: int, j: int| 0 <= i < all.len() && 0 <= j < all.len() && i != j implies all[i] != all[j] by {
        if i < vq.len() && j < vq.len() {
        } else if i >= vq.len() && j >= vq.len() {
            assert(all[i] == pq[i - vq.len()] && all[j] == pq[j - vq.len()]);
        } else if i < vq.len() {
            assert(vq.contains(all[i]));
            assert(pq.contains(pq[j - vq.len()]));
        } else {
            assert(vq.contains(all[j]));
            assert(pq.contains(pq[i - vq.len()]));
        }
    }
    lemma_drain_tiles(vq, pq);
}

/// The session of the large image being shown by tiles.
pub struct LargeImageSession<T, R> {
    pub path: Option<String>,
    pub generation: u64,
    pub token: Option<u64>,
    pub preview_ready: bool,
    pub raster: Option<R>,
    pub visible_queue: Vec<TileCoordinate>,
    pub prefetch_queue: Vec<TileCoordinate>,
    pub pending: Vec<TileCoordinate>,
    pub tiles: TileCache<T>,
    pub detail_error: Option<String>,
    pub cancelled_tokens: Vec<u64>,
}

/// Whether `c` occurs in `items`.
fn contains_tile(items: &Vec<TileCoordinate>, c: TileCoordinate) -> (result: bool)
    ensures
        result == items@.contains(c),
{
    let mut i: usize = 0;
    while i < items.len()
        invariant
            i <= items.len(),
            forall|k: int| 0 <= k < i ==> items@[k] != c,
        decreases items.len() - i,
    {
        if items[i] == c {
            assert(items@[i as int] == c);
            return true;
        }
        i = i + 1;
    }
    false
}

impl<T, R> LargeImageSession<T, R> {
    /// A session showing nothing, with a tile budget of `tile_cache_bytes`.
    pub fn new(tile_cache_bytes: usize) -> (result: Self)
        ensures
            result.path is None,
            result.generation == 0,
            result.token is None,
            !result.preview_ready,
            result.raster is None,
            result.visible_queue@.len() == 0,
            result.prefetch_queue@.len() == 0,
            result.pending@.len() == 0,
            result.tiles.well_formed(),
            result.tiles.tiles().len() == 0,
            result.tiles.capacity() == tile_cache_bytes,
            result.detail_error is None,
            result.cancelled_tokens@.len() == 0,
    {
        LargeImageSession {
            path: None,
            generation: 0,
            token: None,
            preview_ready: false,
            raster: None,
            visible_queue: Vec::new(),
            prefetch_queue: Vec::new(),
            pending: Vec::new(),
            tiles: TileCache::new(tile_cache_bytes),
            detail_error: None,
            cancelled_tokens: Vec::new(),
        }
    }

    /// Ends the session: its decode token is handed back to be cancelled,
    /// and the image, raster, queues, tiles (retired) and error are dropped.
    pub fn reset(&mut self)
        requires
            old(self).tiles.well_formed(),
        ensures
            final(self).cancelled_tokens@ == old(self).cancelled_tokens@ + crate::load_state::opt_seq(old(self).token),
            final(self).token is None,
            final(self).path is None,
            !final(self).preview_ready,
            final(self).raster is None,
            final(self).visible_queue@.len() == 0,
            final(self).prefetch_queue@.len() == 0,
            final(self).pending@.len() == 0,
            final(self).tiles.well_formed(),
            final(self).tiles.tiles().len() == 0,
            final(self).tiles.capacity() == old(self).tiles.capacity(),
            final(self).tiles.retired() == old(self).tiles.retired() + old(self).tiles.tiles().map_values(
                |t: (TileCoordinate, T, usize)| t.1,
            ),
            final(self).detail_error is None,
            final(self).generation == old(self).generation,
    {
        if let Some(token) = self.token {
            self.cancelled_tokens.push(token);
        }
        self.token = None;
        self.path = None;
        self.preview_ready = false;
        self.raster = None;
        self.visible_queue = Vec::new();
        self.prefetch_queue = Vec::new();
        self.pending = Vec::new();
        self.tiles.clear();
        self.detail_error = None;
    }

    /// Begins a session for the image at `path`, loaded at `generation`,
    /// decoding under `token`; the previous session is reset.
    pub fn begin(&mut self, path: String, generation: u64, token: u64)
        requires
            old(self).tiles.well_formed(),
        ensures
            final(self).cancelled_tokens@ == old(self).cancelled_tokens@ + crate::load_state::opt_seq(old(self).token),
            final(self).token == Some(token),
            final(self).path == Some(path),
            final(self).generation == generation,
            !final(self).preview_ready,
            final(self).raster is None,
            final(self).visible_queue@.len() == 0,
            final(self).prefetch_queue@.len() == 0,
            final(self).pending@.len() == 0,
            final(self).tiles.well_formed(),
            final(self).tiles.tiles().len() == 0,
            final(self).tiles.capacity() == old(self).tiles.capacity(),
            final(self).tiles.retired() == old(self).tiles.retired() + old(self).tiles.tiles().map_values(
                |t: (TileCoordinate, T, usize)| t.1,
            ),
            final(self).detail_error is None,
    {
        self.reset();
        self.path = Some(path);
        self.generation = generation;
        self.token = Some(token);
    }

    /// Whether the session is the one for `path` loaded at `generation`.
    pub fn matches(&self, generation: u64, path: &str) -> (result: bool)
        ensures
            result == (self.generation == generation && (self.path matches Some(p) && p@ == path@)),
    {
        if self.generation != generation {
            return false;
        }
        match &self.path {
            Some(p) => crate::text::chars_equal(&crate::text::chars_of(p), &crate::text::chars_of(path)),
            None => false,
        }
    }

    /// Whether the session is the live one for `generation`.
    pub open spec fn live(&self, generation: u64) -> bool {
        self.generation == generation && self.path is Some
    }

    /// Marks the preview of the live session ready; a stale call changes
    /// nothing.
    pub fn mark_preview_ready(&mut self, generation: u64) -> (result: bool)
        ensures
            result == old(self).live(generation),
            !result ==> *final(self) == *old(self),
            result ==> final(self).preview_ready && final(self).path == old(self).path
                && final(self).generation == old(self).generation && final(self).tiles == old(self).tiles
                && final(self).pending == old(self).pending,
    {
        if self.generation != generation || self.path.is_none() {
            return false;
        }
        self.preview_ready = true;
        true
    }

    /// Whether the preview of the session is ready.
    pub fn is_preview_ready(&self) -> (result: bool)
        ensures
            result == self.preview_ready,
    {
        self.preview_ready
    }

    /// Installs the raster of the live session and clears its error; a
    /// stale call changes nothing (and gives the raster back).
    pub fn install_raster(&mut self, generation: u64, raster: R) -> (result: Option<R>)
        ensures
            result is None == old(self).live(generation),
            result matches Some(r) ==> r == raster && *final(self) == *old(self),
            result is None ==> final(self).raster == Some(raster) && final(self).detail_error is None
                && final(self).path == old(self).path && final(self).generation == old(self).generation
                && final(self).tiles == old(self).tiles,
    {
        if self.generation != generation || self.path.is_none() {
            return Some(raster);
        }
        self.raster = Some(raster);
        self.detail_error = None;
        None
    }

    /// The raster of the session.
    pub fn raster(&self) -> (result: Option<&R>)
        ensures
            result == match self.raster {
                Some(r) => Some(&r),
                None => None,
            },
    {
        self.raster.as_ref()
    }

    /// Queues tiles to decode: the visible ones, then those to prefetch,
    /// each unless already cached, pending or queued.
    pub fn queue_tiles(&mut self, visible: Vec<TileCoordinate>, prefetch: Vec<TileCoordinate>)
        ensures
            final(self).visible_queue@ == enqueue(
                old(self).visible_queue@,
                old(self).prefetch_queue@,
                old(self).tiles.tiles(),
                old(self).pending@,
                visible@,
            ),
            final(self).prefetch_queue@ == enqueue(
                old(self).prefetch_queue@,
                final(self).visible_queue@,
                old(self).tiles.tiles(),
                old(self).pending@,
                prefetch@,
            ),
            final(self).tiles == old(self).tiles,
            final(self).pending == old(self).pending,
            final(self).path == old(self).path,
            final(self).generation == old(self).generation,
            final(self).preview_ready == old(self).preview_ready,
    {
        let mut i: usize = 0;
        while i < visible.len()
            invariant
                i <= visible.len(),
                self.visible_queue@ == enqueue(
                    old(self).visible_queue@,
                    old(self).prefetch_queue@,
                    old(self).tiles.tiles(),
                    old(self).pending@,
                    visible@.take(i as int),
                ),
                self.prefetch_queue == old(self).prefetch_queue,
                self.tiles == old(self).tiles,
                self.pending == old(self).pending,
                self.path == old(self).path,
                self.generation == old(self).generation,
                self.preview_ready == old(self).preview_ready,
            decreases visible.len() - i,
        {
            let c = visible[i];
            assert(visible@.take(i + 1).drop_last() =~= visible@.take(i as int));
            if !self.has_or_queued(c) {
                self.visible_queue.push(c);
            }
            i = i + 1;
        }
        assert(visible@.take(visible.len() as int) =~= visible@);
        let mut j: usize = 0;
        while j < prefetch.len()
            invariant
                j <= prefetch.len(),
                self.prefetch_queue@ == enqueue(
                    old(self).prefetch_queue@,
                    self.visible_queue@,
                    old(self).tiles.tiles(),
                    old(self).pending@,
                    prefetch@.take(j as int),
                ),
                self.visible_queue@ == enqueue(
                    old(self).visible_queue@,
                    old(self).prefetch_queue@,
                    old(self).tiles.tiles(),
                    old(self).pending@,
                    visible@,
                ),
                self.tiles == old(self).tiles,
                self.pending == old(self).pending,
                self.path == old(self).path,
                self.generation == old(self).generation,
                self.preview_ready == old(self).preview_ready,
            decreases prefetch.len() - j,
        {
            let c = prefetch[j];
            assert(prefetch@.take(j + 1).drop_last() =~= prefetch@.take(j as int));
            if !self.has_or_queued(c) {
                self.prefetch_queue.push(c);
            }
            j = j + 1;
        }
        assert(prefetch@.take(prefetch.len() as int) =~= prefetch@);
    }

    /// Whether `c` is cached, pending or queued.
    fn has_or_queued(&self, c: TileCoordinate) -> (result: bool)
        ensures
            result == (tile_index(self.tiles.tiles(), c, 0) is Some || self.pending@.contains(c)
                || self.visible_queue@.contains(c) || self.prefetch_queue@.contains(c)),
    {
        self.tiles.contains(&c) || contains_tile(&self.pending, c) || contains_tile(&self.visible_queue, c)
            || contains_tile(&self.prefetch_queue, c)
    }

    /// Takes the next tile to decode, visible tiles first, and marks it
    /// pending. What a run of these calls gives after `begin` and
    /// `queue_tiles` (each tile once, visible first, then nothing) is
    /// `lemma_queued_tiles_come_out_once`.
    pub fn next_tile(&mut self) -> (result: Option<TileCoordinate>)
        ensures
            old(self).visible_queue@.len() > 0 ==> result == Some(old(self).visible_queue@[0])
                && final(self).visible_queue@ == old(self).visible_queue@.drop_first()
                && final(self).prefetch_queue == old(self).prefetch_queue,
            old(self).visible_queue@.len() == 0 && old(self).prefetch_queue@.len() > 0 ==> result == Some(
                old(self).prefetch_queue@[0],
            ) && final(self).prefetch_queue@ == old(self).prefetch_queue@.drop_first()
                && final(self).visible_queue == old(self).visible_queue,
            old(self).visible_queue@.len() == 0 && old(self).prefetch_queue@.len() == 0 ==> result is None
                && *final(self) == *old(self),
            result matches Some(c) ==> final(self).pending@ == (if old(self).pending@.contains(c) {
                old(self).pending@
            } else {
                old(self).pending@.push(c)
            }),
            (result, final(self).visible_queue@, final(self).prefetch_queue@) == next_tile_step(
                old(self).visible_queue@,
                old(self).prefetch_queue@,
            ),
            final(self).tiles == old(self).tiles,
            final(self).path == old(self).path,
            final(self).generation == old(self).generation,
    {
        let c = if self.visible_queue.len() > 0 {
            self.visible_queue.remove(0)
        } else if self.prefetch_queue.len() > 0 {
            self.prefetch_queue.remove(0)
        } else {
            return None;
        };
        if !contains_tile(&self.pending, c) {
            self.pending.push(c);
        }
        Some(c)
    }

    /// Takes a decoded tile of the live session: it is no longer pending,
    /// and a tile that decoded is cached (what that drops is retired). A
    /// stale tile changes nothing (and is given back).
    pub fn complete_tile(&mut self, generation: u64, c: TileCoordinate, tile: Option<T>, bytes: usize) -> (result: (bool, Option<T>))
        requires
            old(self).tiles.well_formed(),
        ensures
            result.0 == old(self).live(generation),
            final(self).tiles.well_formed(),
            !result.0 ==> *final(self) == *old(self) && result.1 == tile,
            result.0 ==> {
                &&& result.1 is None
                &&& final(self).pending@ == old(self).pending@.filter(|x: TileCoordinate| x != c)
                &&& match tile {
                    Some(t) => final(self).tiles.tiles() == insert_tile_outcome(old(self).tiles.tiles(), c, t, bytes, old(self).tiles.capacity() as int).0
                        && final(self).tiles.retired() == old(self).tiles.retired() + insert_tile_outcome(old(self).tiles.tiles(), c, t, bytes, old(self).tiles.capacity() as int).1,
                    None => final(self).tiles == old(self).tiles,
                }
                &&& final(self).tiles.capacity() == old(self).tiles.capacity()
                &&& final(self).path == old(self).path
                &&& final(self).generation == old(self).generation
                &&& final(self).preview_ready == old(self).preview_ready
            },
    {
        if self.generation != generation || self.path.is_none() {
            return (false, tile);
        }
        let ghost pending = self.pending@;
        let mut kept: Vec<TileCoordinate> = Vec::new();
        let mut i: usize = 0;
        while i < self.pending.len()
            invariant
                pending == self.pending@,
                i <= self.pending.len(),
                kept@ == pending.take(i as int).filter(|x: TileCoordinate| x != c),
            decreases self.pending.len() - i,
        {
            proof {
                reveal(Seq::filter);
            }
            assert(pending.take(i + 1).drop_last() =~= pending.take(i as int));
            if self.pending[i] != c {
                kept.push(self.pending[i]);
            }
            i = i + 1;
        }
        assert(pending.take(pending.len() as int) =~= pending);
        self.pending = kept;
        if let Some(t) = tile {
            self.tiles.insert(c, t, bytes);
        }
        (true, None)
    }

    /// The cached tile at `c`.
    pub fn tile(&self, c: &TileCoordinate) -> (result: Option<&T>)
        ensures
            (match tile_index(self.tiles.tiles(), *c, 0) {
                Some(i) => result == Some(&self.tiles.tiles()[i].1),
                None => result is None,
            }),
    {
        self.tiles.peek(c)
    }

    /// Records why the detailed view failed, for the live session only.
    pub fn record_detail_error(&mut self, generation: u64, message: String)
        ensures
            old(self).live(generation) ==> final(self).detail_error == Some(message),
            !old(self).live(generation) ==> final(self).detail_error == old(self).detail_error,
            final(self).path == old(self).path,
            final(self).generation == old(self).generation,
            final(self).tiles == old(self).tiles,
    {
        if self.generation == generation && self.path.is_some() {
            self.detail_error = Some(message);
        }
    }

    /// Why the detailed view failed, if it did.
    pub fn detail_error(&self) -> (result: Option<&String>)
        ensures
            result == match self.detail_error {
                Some(m) => Some(&m),
                None => None,
            },
    {
        self.detail_error.as_ref()
    }

    /// Hands back every retired tile, for release.
    pub fn drain_retired_tiles(&mut self) -> (result: Vec<T>)
        ensures
            result@ == old(self).tiles.retired(),
            final(self).tiles.retired().len() == 0,
            final(self).tiles.tiles() == old(self).tiles.tiles(),
            final(self).tiles.capacity() == old(self).tiles.capacity(),
            old(self).tiles.well_formed() ==> final(self).tiles.well_formed(),
            final(self).path == old(self).path,
            final(self).generation == old(self).generation,
    {
        self.tiles.drain_retired()
    }

    /// Hands back every cancelled token, so that its decode stops.
    pub fn drain_cancelled_tokens(&mut self) -> (result: Vec<u64>)
        ensures
            result@ == old(self).cancelled_tokens@,
            final(self).cancelled_tokens@.len() == 0,
            final(self).token == old(self).token,
            final(self).path == old(self).path,
            final(self).generation == old(self).generation,
            final(self).tiles == old(self).tiles,
    {
        let mut drained: Vec<u64> = Vec::new();
        std::mem::swap(&mut drained, &mut self.cancelled_tokens);
        drained
    }
}

/// HEIF and Photoshop files are never decoded by tiles, whatever the
/// tiling policy asks: a path whose extension is `heic`, `heif`, `psd` or
/// `psb`, in any ASCII case, is not sent to the tile decoder.
pub proof fn lemma_heif_and_photoshop_files_are_not_tiled(path: Seq<char>, requires_tiling: bool)
    ensures
        has_extension(path, "heic"@) || has_extension(path, "heif"@) || has_extension(path, "psd"@)
            || has_extension(path, "psb"@) ==> !spec_should_decode_large_image(path, requires_tiling),
        !requires_tiling ==> !spec_should_decode_large_image(path, requires_tiling),
{
}

} // verus!
