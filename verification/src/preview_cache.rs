//! The cache of decoded previews kept for quick navigation, bounded by a
//! byte budget and evicted least recently used first, and the queue of
//! previews decoded ahead of navigation.
use vstd::prelude::*;
use crate::text::views;
use crate::formats::has_extension;

verus! {

/// The default budget of the preview cache, in bytes.
pub const PREVIEW_CACHE_BYTES: usize = 33554432;

/// A modification time: whether it lies after the Unix epoch, and its
/// distance from the epoch in seconds and nanoseconds.
#[derive(Debug, Clone, Copy, PartialEq, Eq, Structural)]
pub struct ModifiedTime {
    pub after_epoch: bool,
    pub seconds: u64,
    pub nanos: u32,
}

/// What identifies the version of a file on disk: its size and its
/// modification time, when known.
#[derive(Debug, Clone, Copy, PartialEq, Eq, Structural)]
pub struct FileSignature {
    pub size_bytes: u64,
    pub modified: Option<ModifiedTime>,
}

/// A cached preview: what the application keeps of it, the file version it
/// was decoded from, and its size in bytes.
#[derive(Debug, Clone)]
pub struct CachedPreview<P> {
    pub payload: P,
    pub file: FileSignature,
    pub bytes: usize,
}

impl<P> CachedPreview<P> {
    /// A preview of `bytes` bytes decoded from the file version `file`.
    pub fn new(payload: P, file: FileSignature, bytes: usize) -> (result: Self)
        ensures
            result.payload == payload,
            result.file == file,
            result.bytes == bytes,
    {
        CachedPreview { payload, file, bytes }
    }
}

/// The total size of cached entries.
pub open spec fn total_bytes<P>(entries: Seq<(Seq<char>, CachedPreview<P>)>) -> int
    decreases entries.len(),
{
    if entries.len() == 0 {
        0
    } else {
        total_bytes(entries.drop_last()) + entries.last().1.bytes
    }
}

/// The index of the entry cached for `path`, from index `i` on.
pub open spec fn index_of_path<P>(entries: Seq<(Seq<char>, CachedPreview<P>)>, path: Seq<char>, i: int) -> Option<int>
    decreases entries.len() - i,
{
    if i < 0 || i >= entries.len() {
        None
    } else if entries[i].0 == path {
        Some(i)
    } else {
        index_of_path(entries, path, i + 1)
    }
}

/// The entries without the one cached for `path`.
pub open spec fn remove_path<P>(entries: Seq<(Seq<char>, CachedPreview<P>)>, path: Seq<char>) -> Seq<
    (Seq<char>, CachedPreview<P>),
> {
    match index_of_path(entries, path, 0) {
        Some(i) => entries.remove(i),
        None => entries,
    }
}

/// The payload cached for `path`, if any.
pub open spec fn removed_payload<P>(entries: Seq<(Seq<char>, CachedPreview<P>)>, path: Seq<char>) -> Seq<P> {
    match index_of_path(entries, path, 0) {
        Some(i) => seq![entries[i].1.payload],
        None => Seq::empty(),
    }
}

/// The entries with the one cached for `path` made the most recently used.
pub open spec fn touch_path<P>(entries: Seq<(Seq<char>, CachedPreview<P>)>, path: Seq<char>) -> Seq<
    (Seq<char>, CachedPreview<P>),
> {
    match index_of_path(entries, path, 0) {
        Some(i) => entries.remove(i).push(entries[i]),
        None => entries,
    }
}

/// What inserting makes of the cache: the previous entry for the path is
/// dropped; an entry larger than the whole budget is not kept; otherwise it
/// becomes the most recently used and the cache is evicted down to the
/// budget, sparing `pinned`. Gives the entries and the payloads released,
/// in order.
pub open spec fn insert_outcome<P>(
    entries: Seq<(Seq<char>, CachedPreview<P>)>,
    path: Seq<char>,
    entry: CachedPreview<P>,
    pinned: Option<Seq<char>>,
    capacity: int,
) -> (Seq<(Seq<char>, CachedPreview<P>)>, Seq<P>) {
    let base = remove_path(entries, path);
    let dropped = removed_payload(entries, path);
    if entry.bytes > capacity {
        (base, dropped.push(entry.payload))
    } else {
        let evicted = evict(base.push((path, entry)), pinned, capacity);
        (evicted.0, dropped + evicted.1)
    }
}

/// The first entry, least recently used first, that is not `pinned`.
pub open spec fn first_unpinned<P>(entries: Seq<(Seq<char>, CachedPreview<P>)>, pinned: Option<Seq<char>>, i: int) -> Option<int>
    decreases entries.len() - i,
{
    if i < 0 || i >= entries.len() {
        None
    } else if pinned != Some(entries[i].0) {
        Some(i)
    } else {
        first_unpinned(entries, pinned, i + 1)
    }
}

/// Eviction down to `capacity`: while the entries exceed it, the least
/// recently used entry that is not pinned is dropped; it stops early when
/// only the pinned entry is left. Gives what remains and the payloads
/// dropped, in order.
pub open spec fn evict<P>(entries: Seq<(Seq<char>, CachedPreview<P>)>, pinned: Option<Seq<char>>, capacity: int) -> (
    Seq<(Seq<char>, CachedPreview<P>)>,
    Seq<P>,
)
    decreases entries.len(),
{
    if total_bytes(entries) <= capacity {
        (entries, Seq::empty())
    } else {
        match first_unpinned(entries, pinned, 0) {
            None => (entries, Seq::empty()),
            Some(i) => if 0 <= i < entries.len() {
                let rest = evict(entries.remove(i), pinned, capacity);
                (rest.0, seq![entries[i].1.payload] + rest.1)
            } else {
                (entries, Seq::empty())
            },
        }
    }
}

/// Previews cached by path, least recently used first.
pub struct PreviewCache<P> {
    capacity: usize,
    bytes: usize,
    entries: Vec<(String, CachedPreview<P>)>,
}

impl<P> View for PreviewCache<P> {
    type V = Seq<(Seq<char>, CachedPreview<P>)>;

    closed spec fn view(&self) -> Seq<(Seq<char>, CachedPreview<P>)> {
        self.entries@.map_values(|e: (String, CachedPreview<P>)| (e.0@, e.1))
    }
}

/// No two entries share a path.
pub open spec fn paths_distinct<P>(entries: Seq<(Seq<char>, CachedPreview<P>)>) -> bool {
    forall|i: int, j: int| 0 <= i < j < entries.len() ==> #[trigger] entries[i].0 != #[trigger] entries[j].0
}

/// Every entry fits the budget on its own.
pub open spec fn entries_fit<P>(entries: Seq<(Seq<char>, CachedPreview<P>)>, capacity: int) -> bool {
    forall|i: int| 0 <= i < entries.len() ==> #[trigger] entries[i].1.bytes <= capacity
}

impl<P> PreviewCache<P> {
    /// The budget, in bytes.
    pub closed spec fn capacity(&self) -> usize {
        self.capacity
    }

    /// Paths are distinct, every entry fits the budget, and the byte count
    /// is the entries' total.
    closed spec fn consistent(&self) -> bool {
        &&& paths_distinct(self@)
        &&& entries_fit(self@, self.capacity as int)
        &&& self.bytes as int == total_bytes(self@)
    }

    /// The cache's invariant: it is consistent and within its budget.
    pub closed spec fn well_formed(&self) -> bool {
        &&& self.consistent()
        &&& self.bytes <= self.capacity
    }

    /// An empty cache with a budget of `capacity` bytes.
    pub fn new(capacity: usize) -> (result: Self)
        ensures
            result.well_formed(),
            result@ == Seq::<(Seq<char>, CachedPreview<P>)>::empty(),
            result.capacity() == capacity,
    {
        let result = PreviewCache { capacity, bytes: 0, entries: Vec::new() };
        assert(result@ =~= Seq::<(Seq<char>, CachedPreview<P>)>::empty());
        result
    }

    /// The bytes the cached entries take.
    pub fn bytes(&self) -> (result: usize)
        requires
            self.well_formed(),
        ensures
            result as int == total_bytes(self@),
            result <= self.capacity(),
    {
        self.bytes
    }
}

/// Adding an entry adds its size.
proof fn lemma_total_push<P>(entries: Seq<(Seq<char>, CachedPreview<P>)>, e: (Seq<char>, CachedPreview<P>))
    ensures
        total_bytes(entries.push(e)) == total_bytes(entries) + e.1.bytes,
{
    assert(entries.push(e).drop_last() =~= entries);
}

/// The total is at least every entry's size, and not negative.
proof fn lemma_total_bounds<P>(entries: Seq<(Seq<char>, CachedPreview<P>)>)
    ensures
        total_bytes(entries) >= 0,
        forall|i: int| 0 <= i < entries.len() ==> #[trigger] entries[i].1.bytes <= total_bytes(entries),
    decreases entries.len(),
{
    if entries.len() > 0 {
        lemma_total_bounds(entries.drop_last());
        assert forall|i: int| 0 <= i < entries.len() implies #[trigger] entries[i].1.bytes <= total_bytes(entries) by {
            if i < entries.len() - 1 {
                assert(entries.drop_last()[i] == entries[i]);
            }
        }
    }
}

/// Removing an entry removes its size.
proof fn lemma_total_remove<P>(entries: Seq<(Seq<char>, CachedPreview<P>)>, i: int)
    requires
        0 <= i < entries.len(),
    ensures
        total_bytes(entries.remove(i)) == total_bytes(entries) - entries[i].1.bytes,
    decreases entries.len(),
{
    if i == entries.len() - 1 {
        assert(entries.remove(i) =~= entries.drop_last());
    } else {
        lemma_total_remove(entries.drop_last(), i);
        assert(entries.remove(i) =~= entries.drop_last().remove(i).push(entries.last()));
        lemma_total_push(entries.drop_last().remove(i), entries.last());
    }
}

/// Where `index_of_path` lands.
proof fn lemma_index_of_path<P>(entries: Seq<(Seq<char>, CachedPreview<P>)>, path: Seq<char>, i: int)
    requires
        0 <= i,
    ensures
        (match index_of_path(entries, path, i) {
            Some(j) => i <= j < entries.len() && entries[j].0 == path,
            None => forall|k: int| i <= k < entries.len() ==> #[trigger] entries[k].0 != path,
        }),
    decreases entries.len() - i,
{
    if i < entries.len() && entries[i].0 != path {
        lemma_index_of_path(entries, path, i + 1);
    }
}

/// Where `first_unpinned` lands.
proof fn lemma_first_unpinned<P>(entries: Seq<(Seq<char>, CachedPreview<P>)>, pinned: Option<Seq<char>>, i: int)
    requires
        0 <= i,
    ensures
        (match first_unpinned(entries, pinned, i) {
            Some(j) => i <= j < entries.len() && pinned != Some(entries[j].0),
            None => forall|k: int| i <= k < entries.len() ==> pinned == Some(#[trigger] entries[k].0),
        }),
    decreases entries.len() - i,
{
    if i < entries.len() && pinned == Some(entries[i].0) {
        lemma_first_unpinned(entries, pinned, i + 1);
    }
}

/// Removing an entry keeps paths distinct and entries fitting.
proof fn lemma_remove_keeps<P>(entries: Seq<(Seq<char>, CachedPreview<P>)>, i: int, capacity: int)
    requires
        0 <= i < entries.len(),
        paths_distinct(entries),
        entries_fit(entries, capacity),
    ensures
        paths_distinct(entries.remove(i)),
        entries_fit(entries.remove(i), capacity),
{
    let r = entries.remove(i);
    assert forall|a: int, b: int| 0 <= a < b < r.len() implies #[trigger] r[a].0 != #[trigger] r[b].0 by {
        let a2 = if a < i { a } else { a + 1 };
        let b2 = if b < i { b } else { b + 1 };
        assert(r[a] == entries[a2] && r[b] == entries[b2]);
    }
    assert forall|a: int| 0 <= a < r.len() implies #[trigger] r[a].1.bytes <= capacity by {
        let a2 = if a < i { a } else { a + 1 };
        assert(r[a] == entries[a2]);
    }
}

/// Eviction keeps paths distinct and entries fitting, and ends within the
/// budget.
proof fn lemma_evict<P>(entries: Seq<(Seq<char>, CachedPreview<P>)>, pinned: Option<Seq<char>>, capacity: int)
    requires
        paths_distinct(entries),
        entries_fit(entries, capacity),
        capacity >= 0,
    ensures
        paths_distinct(evict(entries, pinned, capacity).0),
        entries_fit(evict(entries, pinned, capacity).0, capacity),
        total_bytes(evict(entries, pinned, capacity).0) <= capacity,
    decreases entries.len(),
{
    if total_bytes(entries) > capacity {
        lemma_first_unpinned(entries, pinned, 0);
        match first_unpinned(entries, pinned, 0) {
            None => {
                if entries.len() >= 2 {
                    assert(entries[0].0 != entries[1].0);
                    assert(pinned == Some(entries[0].0));
                    assert(pinned == Some(entries[1].0));
                }
                if entries.len() == 1 {
                    assert(entries.drop_last() =~= Seq::<(Seq<char>, CachedPreview<P>)>::empty());
                    assert(total_bytes(entries.drop_last()) == 0);
                    assert(total_bytes(entries) == entries[0].1.bytes);
                    assert(entries[0].1.bytes <= capacity);
                } else {
                    assert(entries.len() == 0);
                }
            },
            Some(i) => {
                lemma_remove_keeps(entries, i, capacity);
                lemma_evict(entries.remove(i), pinned, capacity);
            },
        }
    }
}

/// Eviction never drops the pinned entry.
proof fn lemma_evict_keeps_pinned<P>(
    entries: Seq<(Seq<char>, CachedPreview<P>)>,
    pinned: Option<Seq<char>>,
    capacity: int,
    k: int,
)
    requires
        0 <= k < entries.len(),
        pinned == Some(entries[k].0),
    ensures
        exists|j: int|
            0 <= j < evict(entries, pinned, capacity).0.len() && #[trigger] evict(entries, pinned, capacity).0[j].0
                == entries[k].0,
    decreases entries.len(),
{
    let out = evict(entries, pinned, capacity).0;
    if total_bytes(entries) <= capacity {
        assert(out[k].0 == entries[k].0);
    } else {
        lemma_first_unpinned(entries, pinned, 0);
        match first_unpinned(entries, pinned, 0) {
            None => {
                assert(out[k].0 == entries[k].0);
            },
            Some(i) => {
                let r = entries.remove(i);
                let k2 = if k < i { k } else { k - 1 };
                assert(k != i);
                assert(r[k2] == entries[k]);
                lemma_evict_keeps_pinned(r, pinned, capacity, k2);
            },
        }
    }
}

/// The cache's budget holds across inserts: into entries with distinct
/// paths, each within the budget and together within it, an insert leaves
/// entries of which the same holds. An entry larger than the whole budget
/// is not kept and is released last; the pinned entry, when cached under
/// another path, stays cached.
pub proof fn lemma_insert_keeps_budget<P>(
    entries: Seq<(Seq<char>, CachedPreview<P>)>,
    path: Seq<char>,
    entry: CachedPreview<P>,
    pinned: Option<Seq<char>>,
    capacity: int,
)
    requires
        paths_distinct(entries),
        entries_fit(entries, capacity),
        total_bytes(entries) <= capacity,
    ensures
        paths_distinct(insert_outcome(entries, path, entry, pinned, capacity).0),
        entries_fit(insert_outcome(entries, path, entry, pinned, capacity).0, capacity),
        total_bytes(insert_outcome(entries, path, entry, pinned, capacity).0) <= capacity,
        entry.bytes > capacity ==> index_of_path(insert_outcome(entries, path, entry, pinned, capacity).0, path, 0) is None
            && insert_outcome(entries, path, entry, pinned, capacity).1.last() == entry.payload,
        pinned matches Some(p) ==> (p != path && index_of_path(entries, p, 0) is Some ==> index_of_path(
            insert_outcome(entries, path, entry, pinned, capacity).0,
            p,
            0,
        ) is Some),
{
    lemma_total_bounds(entries);
    lemma_index_of_path(entries, path, 0);
    let base = remove_path(entries, path);
    let after = insert_outcome(entries, path, entry, pinned, capacity).0;
    if index_of_path(entries, path, 0) is Some {
        let i = index_of_path(entries, path, 0)->0;
        lemma_remove_keeps(entries, i, capacity);
        lemma_total_remove(entries, i);
        lemma_total_bounds(entries);
        assert forall|k: int| 0 <= k < base.len() implies #[trigger] base[k].0 != path by {
            let k2 = if k < i { k } else { k + 1 };
            assert(base[k] == entries[k2]);
            if k2 != i {
                assert(entries[k2].0 != entries[i].0);
            }
        }
    }
    lemma_index_of_path(base, path, 0);
    if entries.len() > 0 {
        assert(entries[0].1.bytes <= capacity);
    }
    if let Some(p) = pinned {
        if p != path && index_of_path(entries, p, 0) is Some {
            lemma_index_of_path(entries, p, 0);
            let k = index_of_path(entries, p, 0)->0;
            let kb = match index_of_path(entries, path, 0) {
                Some(i) => if k < i { k } else { k - 1 },
                None => k,
            };
            assert(base[kb] == entries[k]);
            if entry.bytes > capacity {
                lemma_index_of_path(after, p, 0);
                assert(after[kb].0 == p);
            } else {
                let pushed = base.push((path, entry));
                assert(pushed[kb] == base[kb]);
                lemma_evict_keeps_pinned(pushed, pinned, capacity, kb);
                lemma_index_of_path(after, p, 0);
            }
        }
    }
    if entry.bytes <= capacity {
        let pushed = base.push((path, entry));
        assert forall|a: int, b: int| 0 <= a < b < pushed.len() implies #[trigger] pushed[a].0 != #[trigger] pushed[b].0 by {
            if b == pushed.len() - 1 {
                assert(pushed[a] == base[a]);
            } else {
                assert(pushed[a] == base[a] && pushed[b] == base[b]);
            }
        }
        assert forall|a: int| 0 <= a < pushed.len() implies #[trigger] pushed[a].1.bytes <= capacity by {
            if a < base.len() {
                assert(pushed[a] == base[a]);
            }
        }
        lemma_evict(pushed, pinned, capacity);
    }
}

impl<P> PreviewCache<P> {
    /// The position of the entry for `path`.
    fn find(&self, path: &str) -> (result: Option<usize>)
        ensures
            (match result {
                Some(i) => index_of_path(self@, path@, 0) == Some(i as int),
                None => index_of_path(self@, path@, 0) is None,
            }),
    {
        let key = crate::text::chars_of(path);
        let ghost v = self@;
        let mut i: usize = 0;
        while i < self.entries.len()
            invariant
                v == self@,
                key@ == path@,
                i <= self.entries.len(),
                v.len() == self.entries.len(),
                index_of_path(v, path@, 0) == index_of_path(v, path@, i as int),
            decreases self.entries.len() - i,
        {
            assert(v[i as int].0 == self.entries@[i as int].0@);
            if crate::text::chars_equal(&crate::text::chars_of(&self.entries[i].0), &key) {
                return Some(i);
            }
            i = i + 1;
        }
        None
    }

    /// Whether a preview is cached for `path`.
    pub fn contains(&self, path: &str) -> (result: bool)
        ensures
            result == (index_of_path(self@, path@, 0) is Some),
    {
        self.find(path).is_some()
    }

    /// Drops the entry for `path`; gives its payload.
    fn remove_entry(&mut self, path: &str) -> (result: Option<P>)
        requires
            old(self).consistent(),
        ensures
            final(self).consistent(),
            final(self).capacity == old(self).capacity,
            final(self)@ == remove_path(old(self)@, path@),
            (match result {
                Some(p) => removed_payload(old(self)@, path@) == seq![p],
                None => removed_payload(old(self)@, path@) == Seq::<P>::empty(),
            }),
            final(self).bytes <= old(self).bytes,
    {
        match self.find(path) {
            None => None,
            Some(i) => {
                let ghost v = self@;
                proof {
                    lemma_index_of_path(v, path@, 0);
                    lemma_total_remove(v, i as int);
                    lemma_total_bounds(v);
                    lemma_remove_keeps(v, i as int, self.capacity as int);
                }
                let (_, entry) = self.entries.remove(i);
                assert(self@ =~= v.remove(i as int));
                self.bytes = self.bytes - entry.bytes;
                Some(entry.payload)
            },
        }
    }

    /// The least recently used entry that is not `pinned`.
    fn find_unpinned(&self, pinned: &Option<Vec<char>>) -> (result: Option<usize>)
        ensures
            (match result {
                Some(i) => first_unpinned(self@, match pinned { Some(c) => Some(c@), None => None }, 0) == Some(i as int),
                None => first_unpinned(self@, match pinned { Some(c) => Some(c@), None => None }, 0) is None,
            }),
    {
        let ghost v = self@;
        let ghost pin = match pinned { Some(c) => Some(c@), None => None };
        let mut i: usize = 0;
        while i < self.entries.len()
            invariant
                v == self@,
                pin == match pinned { Some(c) => Some(c@), None => None },
                v.len() == self.entries.len(),
                i <= self.entries.len(),
                first_unpinned(v, pin, 0) == first_unpinned(v, pin, i as int),
            decreases self.entries.len() - i,
        {
            assert(v[i as int].0 == self.entries@[i as int].0@);
            let spared = match pinned {
                Some(c) => crate::text::chars_equal(&crate::text::chars_of(&self.entries[i].0), c),
                None => false,
            };
            if !spared {
                return Some(i);
            }
            i = i + 1;
        }
        None
    }

    /// Evicts down to the budget, sparing `pinned`; gives the payloads
    /// released, least recently used first.
    fn evict_to_budget(&mut self, pinned: Option<&str>) -> (result: Vec<P>)
        requires
            old(self).consistent(),
        ensures
            final(self).well_formed(),
            final(self).capacity == old(self).capacity,
            (final(self)@, result@) == evict(old(self)@, crate::package_checks::opt_text(pinned), old(self).capacity as int),
    {
        let ghost pin = crate::package_checks::opt_text(pinned);
        let ghost initial = self@;
        let pinned_chars: Option<Vec<char>> = match pinned {
            Some(p) => Some(crate::text::chars_of(p)),
            None => None,
        };
        let mut released: Vec<P> = Vec::new();
        while self.bytes > self.capacity
            invariant
                self.consistent(),
                self.capacity == old(self).capacity,
                pin == crate::package_checks::opt_text(pinned),
                match pinned_chars {
                    Some(c) => pin == Some(c@),
                    None => pin is None,
                },
                evict(initial, pin, self.capacity as int) == (
                    evict(self@, pin, self.capacity as int).0,
                    released@ + evict(self@, pin, self.capacity as int).1,
                ),
            ensures
                self.consistent(),
                self.capacity == old(self).capacity,
                evict(self@, pin, self.capacity as int) == (self@, Seq::<P>::empty()),
                evict(initial, pin, self.capacity as int) == (
                    evict(self@, pin, self.capacity as int).0,
                    released@ + evict(self@, pin, self.capacity as int).1,
                ),
            decreases self.entries.len(),
        {
            let ghost v = self@;
            proof {
                lemma_first_unpinned(v, pin, 0);
            }
            let found = self.find_unpinned(&pinned_chars);
            let index = match found {
                None => {
                    break;
                },
                Some(index) => index,
            };
            assert(first_unpinned(v, pin, 0) == Some(index as int));
            let ghost payload = v[index as int].1.payload;
            let ghost path = v[index as int].0;
            proof {
                lemma_index_of_path(v, path, 0);
                if index_of_path(v, path, 0) != Some(index as int) {
                    let j = index_of_path(v, path, 0)->0;
                    assert(v[j].0 == v[index as int].0);
                }
            }
            let removed = self.remove_entry(&self.entries[index].0.clone());
            match removed {
                Some(p) => {
                    assert(seq![p] == seq![payload]);
                    released.push(p);
                },
                None => {},
            }
        }
        proof {
            lemma_evict(self@, pin, self.capacity as int);
            assert(released@ + Seq::<P>::empty() =~= released@);
        }
        released
    }
}

impl<P> PreviewCache<P> {
    /// Caches `entry` for `path`, sparing `pinned` (the image on screen)
    /// from eviction; gives the payloads released: the previous entry for
    /// the path, an entry larger than the whole budget, and the entries
    /// evicted, least recently used first. The budget, pinning and
    /// eviction laws over this call are `lemma_insert_keeps_budget`, and
    /// over any run of inserts and lookups `lemma_cache_calls_keep_budget`.
    pub fn insert(&mut self, path: String, entry: CachedPreview<P>, pinned: Option<&str>) -> (result: Vec<P>)
        requires
            old(self).well_formed(),
            entry.bytes > old(self).capacity() || total_bytes(remove_path(old(self)@, path@)) + entry.bytes
                <= usize::MAX,
        ensures
            final(self).well_formed(),
            final(self).capacity() == old(self).capacity(),
            (final(self)@, result@) == insert_outcome(
                old(self)@,
                path@,
                entry,
                crate::package_checks::opt_text(pinned),
                old(self).capacity() as int,
            ),
    {
        let mut released: Vec<P> = Vec::new();
        if let Some(previous) = self.remove_entry(path.as_str()) {
            released.push(previous);
        }
        assert(released@ == removed_payload(old(self)@, path@));
        if entry.bytes > self.capacity {
            released.push(entry.payload);
            return released;
        }
        let ghost base = self@;
        proof {
            lemma_index_of_path(old(self)@, path@, 0);
            lemma_total_push(base, (path@, entry));
            lemma_index_of_path(base, path@, 0);
            if index_of_path(old(self)@, path@, 0) is Some {
                let i = index_of_path(old(self)@, path@, 0)->0;
                lemma_remove_keeps(old(self)@, i, self.capacity as int);
                assert forall|k: int| 0 <= k < base.len() implies #[trigger] base[k].0 != path@ by {
                    let k2 = if k < i { k } else { k + 1 };
                    assert(base[k] == old(self)@[k2]);
                    if k2 != i {
                        assert(old(self)@[k2].0 != old(self)@[i].0);
                    }
                }
            }
        }
        self.bytes = self.bytes + entry.bytes;
        self.entries.push((path, entry));
        proof {
            let pushed = self@;
            assert(pushed =~= base.push((pushed.last().0, entry)));
            assert forall|a: int, b: int| 0 <= a < b < pushed.len() implies #[trigger] pushed[a].0 != #[trigger] pushed[b].0 by {
                if b == pushed.len() - 1 {
                    assert(pushed[a] == base[a]);
                } else {
                    assert(pushed[a] == base[a] && pushed[b] == base[b]);
                }
            }
            assert forall|a: int| 0 <= a < pushed.len() implies #[trigger] pushed[a].1.bytes <= self.capacity by {
                if a < base.len() {
                    assert(pushed[a] == base[a]);
                }
            }
        }
        let mut evicted = self.evict_to_budget(pinned);
        released.append(&mut evicted);
        released
    }
}

impl<P> PreviewCache<P> {
    /// Makes the entry for `path` the most recently used.
    fn touch(&mut self, index: usize)
        requires
            old(self).consistent(),
            index < old(self)@.len(),
        ensures
            final(self).consistent(),
            final(self).capacity == old(self).capacity,
            final(self).bytes == old(self).bytes,
            final(self)@ == old(self)@.remove(index as int).push(old(self)@[index as int]),
    {
        let ghost v = self@;
        let item = self.entries.remove(index);
        self.entries.push(item);
        proof {
            let out = self@;
            assert(out =~= v.remove(index as int).push(v[index as int]));
            lemma_total_remove(v, index as int);
            lemma_total_push(v.remove(index as int), v[index as int]);
            lemma_remove_keeps(v, index as int, self.capacity as int);
            let r = v.remove(index as int);
            assert forall|a: int, b: int| 0 <= a < b < out.len() implies #[trigger] out[a].0 != #[trigger] out[b].0 by {
                if b == out.len() - 1 {
                    let a2 = if a < index { a } else { a + 1 };
                    assert(out[a] == v[a2]);
                    assert(out[b] == v[index as int]);
                } else {
                    assert(out[a] == r[a] && out[b] == r[b]);
                }
            }
            assert forall|a: int| 0 <= a < out.len() implies #[trigger] out[a].1.bytes <= self.capacity by {
                if a < r.len() {
                    assert(out[a] == r[a]);
                }
            }
        }
    }
}

/// What looking up `path` finds: nothing when it is not cached; when the
/// file on disk is no longer the version cached, nothing, and the stale
/// entry is released; otherwise the entry, made the most recently used.
pub open spec fn lookup_outcome<P>(
    entries: Seq<(Seq<char>, CachedPreview<P>)>,
    path: Seq<char>,
    file: FileSignature,
) -> (Seq<(Seq<char>, CachedPreview<P>)>, Option<(FileSignature, usize)>, Seq<P>) {
    match index_of_path(entries, path, 0) {
        None => (entries, None, Seq::empty()),
        Some(i) => if entries[i].1.file != file {
            (remove_path(entries, path), None, seq![entries[i].1.payload])
        } else {
            (touch_path(entries, path), Some((entries[i].1.file, entries[i].1.bytes)), Seq::empty())
        },
    }
}

/// Looking a path up keeps the budget: the entry found is moved to the
/// most recently used end, a stale one is dropped, and nothing else
/// changes.
proof fn lemma_lookup_keeps_budget<P>(
    entries: Seq<(Seq<char>, CachedPreview<P>)>,
    path: Seq<char>,
    file: FileSignature,
    capacity: int,
)
    requires
        paths_distinct(entries),
        entries_fit(entries, capacity),
        total_bytes(entries) <= capacity,
    ensures
        paths_distinct(lookup_outcome(entries, path, file).0),
        entries_fit(lookup_outcome(entries, path, file).0, capacity),
        total_bytes(lookup_outcome(entries, path, file).0) <= capacity,
{
    lemma_index_of_path(entries, path, 0);
    lemma_total_bounds(entries);
    if let Some(i) = index_of_path(entries, path, 0) {
        lemma_remove_keeps(entries, i, capacity);
        lemma_total_remove(entries, i);
        let r = entries.remove(i);
        lemma_total_bounds(r);
        if entries[i].1.file == file {
            let out = r.push(entries[i]);
            lemma_total_push(r, entries[i]);
            assert forall|a: int, b: int| 0 <= a < b < out.len() implies #[trigger] out[a].0 != #[trigger] out[b].0 by {
                if b == out.len() - 1 {
                    let a2 = if a < i { a } else { a + 1 };
                    assert(out[a] == entries[a2]);
                    assert(out[b] == entries[i]);
                } else {
                    assert(out[a] == r[a] && out[b] == r[b]);
                }
            }
            assert forall|a: int| 0 <= a < out.len() implies #[trigger] out[a].1.bytes <= capacity by {
                if a < r.len() {
                    assert(out[a] == r[a]);
                }
            }
        }
    }
}

/// A call on the preview cache: an insert, or a lookup given the version
/// of the file now on disk.
pub enum CacheCall<P> {
    Insert { path: Seq<char>, entry: CachedPreview<P>, pinned: Option<Seq<char>> },
    Lookup { path: Seq<char>, file: FileSignature },
}

/// The entries after one call.
pub open spec fn cache_step<P>(
    entries: Seq<(Seq<char>, CachedPreview<P>)>,
    call: CacheCall<P>,
    capacity: int,
) -> Seq<(Seq<char>, CachedPreview<P>)> {
    match call {
        CacheCall::Insert { path, entry, pinned } => insert_outcome(entries, path, entry, pinned, capacity).0,
        CacheCall::Lookup { path, file } => lookup_outcome(entries, path, file).0,
    }
}

/// The entries of a cache made by `PreviewCache::new(capacity)` after the
/// calls `calls`, in order.
pub open spec fn cache_after<P>(calls: Seq<CacheCall<P>>, capacity: int) -> Seq<(Seq<char>, CachedPreview<P>)>
    decreases calls.len(),
{
    if calls.len() == 0 {
        Seq::empty()
    } else {
        cache_step(cache_after(calls.drop_last(), capacity), calls.last(), capacity)
    }
}

/// The byte budget holds over any run of calls: a cache made by
/// `PreviewCache::new(capacity)` and then changed only by `insert` and
/// `lookup` has, after every call, entries with distinct paths, each
/// within the budget and together within it (so `bytes()`, their total,
/// never passes `capacity`). What each insert releases and keeps, the
/// least recently used unpinned entries going first, is
/// `insert_outcome`; `lemma_insert_keeps_budget` adds that an oversized
/// entry is not kept and that the pinned entry stays.
pub proof fn lemma_cache_calls_keep_budget<P>(calls: Seq<CacheCall<P>>, capacity: int)
    requires
        capacity >= 0,
    ensures
        paths_distinct(cache_after(calls, capacity)),
        entries_fit(cache_after(calls, capacity), capacity),
        total_bytes(cache_after(calls, capacity)) <= capacity,
    decreases calls.len(),
{
    if calls.len() > 0 {
        lemma_cache_calls_keep_budget(calls.drop_last(), capacity);
        let before = cache_after(calls.drop_last(), capacity);
        match calls.last() {
            CacheCall::Insert { path, entry, pinned } => {
                lemma_insert_keeps_budget(before, path, entry, pinned, capacity);
            },
            CacheCall::Lookup { path, file } => {
                lemma_lookup_keeps_budget(before, path, file, capacity);
            },
        }
    }
}

impl<P: Clone> PreviewCache<P> {
    /// Looks up the preview cached for `path`, given the version of the
    /// file now on disk; gives the entry found (a clone of its payload)
    /// and the payloads released.
    pub fn lookup(&mut self, path: &str, file: &FileSignature) -> (result: (Option<CachedPreview<P>>, Vec<P>))
        requires
            old(self).well_formed(),
        ensures
            final(self).well_formed(),
            final(self).capacity() == old(self).capacity(),
            final(self)@ == lookup_outcome(old(self)@, path@, *file).0,
            result.1@ == lookup_outcome(old(self)@, path@, *file).2,
            (match lookup_outcome(old(self)@, path@, *file).1 {
                None => result.0 is None,
                Some((f, b)) => result.0 matches Some(e) && e.file == f && e.bytes == b && cloned(
                    old(self)@[index_of_path(old(self)@, path@, 0)->0].1.payload,
                    e.payload,
                ),
            }),
    {
        proof {
            lemma_index_of_path(self@, path@, 0);
        }
        let index = match self.find(path) {
            None => {
                return (None, Vec::new());
            },
            Some(i) => i,
        };
        if self.entries[index].1.file != *file {
            let mut released: Vec<P> = Vec::new();
            if let Some(stale) = self.remove_entry(path) {
                released.push(stale);
            }
            return (None, released);
        }
        let found = CachedPreview {
            payload: self.entries[index].1.payload.clone(),
            file: self.entries[index].1.file,
            bytes: self.entries[index].1.bytes,
        };
        self.touch(index);
        (Some(found), Vec::new())
    }
}

/// A preview to decode ahead of navigation: the generation it belongs to,
/// the path, and the cancellation token it runs under.
#[derive(Debug, Clone, PartialEq, Eq)]
pub struct PreviewPreloadJob {
    pub generation: u64,
    pub path: String,
    pub token: u64,
}

/// The queue of previews decoded ahead, one at a time. Cancellation tokens
/// are named by the generation that created them; the application keeps
/// the token objects themselves.
pub struct PreviewPreloadState {
    pub generation: u64,
    pub token: Option<u64>,
    pub queue: Vec<String>,
    pub active: bool,
}

/// `paths` in order with later repeats dropped.
pub open spec fn dedup_paths(paths: Seq<Seq<char>>) -> Seq<Seq<char>>
    decreases paths.len(),
{
    if paths.len() == 0 {
        paths
    } else {
        let rest = dedup_paths(paths.drop_last());
        if rest.contains(paths.last()) {
            rest
        } else {
            rest.push(paths.last())
        }
    }
}

impl PreviewPreloadState {
    /// No preloads queued or running.
    pub fn new() -> (result: Self)
        ensures
            result.generation == 0,
            result.token is None,
            result.queue@.len() == 0,
            !result.active,
    {
        PreviewPreloadState { generation: 0, token: None, queue: Vec::new(), active: false }
    }

    /// Cancels all preloading: the token in use, if any, is given back to
    /// be cancelled; a new generation begins, so that running work is
    /// ignored when it completes; the queue is emptied.
    pub fn cancel(&mut self) -> (result: Option<u64>)
        ensures
            result == old(self).token,
            final(self).token is None,
            final(self).generation == crate::plugin_management::next_generation(old(self).generation),
            final(self).queue@.len() == 0,
            !final(self).active,
    {
        let cancelled = self.token;
        self.token = None;
        self.generation = self.generation.wrapping_add(1);
        self.queue = Vec::new();
        self.active = false;
        cancelled
    }

    /// Replaces the queue with `paths` (repeats dropped) under a new
    /// cancellation token, after cancelling everything before; gives the
    /// token to cancel, if any.
    pub fn restart(&mut self, paths: Vec<String>) -> (result: Option<u64>)
        ensures
            result == old(self).token,
            final(self).generation == crate::plugin_management::next_generation(old(self).generation),
            final(self).token == Some(final(self).generation),
            views(final(self).queue@) == dedup_paths(views(paths@)),
            !final(self).active,
    {
        let cancelled = self.cancel();
        let mut i: usize = 0;
        while i < paths.len()
            invariant
                i <= paths.len(),
                views(self.queue@) == dedup_paths(views(paths@).take(i as int)),
                self.generation == crate::plugin_management::next_generation(old(self).generation),
                self.token is None,
                !self.active,
            decreases paths.len() - i,
        {
            assert(views(paths@).take(i + 1).drop_last() =~= views(paths@).take(i as int));
            assert(views(paths@).take(i + 1).last() == paths@[i as int]@);
            if !crate::association_formats::contains_string(&self.queue, paths[i].as_str()) {
                let ghost before = views(self.queue@);
                self.queue.push(paths[i].clone());
                assert(views(self.queue@) =~= before.push(paths@[i as int]@));
            }
            i = i + 1;
        }
        assert(views(paths@).take(paths.len() as int) =~= views(paths@));
        self.token = Some(self.generation);
        cancelled
    }

    /// Starts the next preload, unless one is running or nothing is queued
    /// or no token is in use: the first queued path leaves the queue.
    pub fn next_job(&mut self) -> (result: Option<PreviewPreloadJob>)
        ensures
            (old(self).active || old(self).queue@.len() == 0) ==> result is None && *final(self) == *old(self),
            !old(self).active && old(self).queue@.len() > 0 ==> {
                &&& views(final(self).queue@) == views(old(self).queue@).drop_first()
                &&& final(self).generation == old(self).generation
                &&& final(self).token == old(self).token
                &&& match old(self).token {
                    None => result is None && !final(self).active,
                    Some(t) => final(self).active && (result matches Some(job) && job.generation == old(self).generation
                        && job.path@ == old(self).queue@[0]@ && job.token == t),
                }
            },
    {
        if self.active || self.queue.len() == 0 {
            return None;
        }
        let ghost before = views(self.queue@);
        let path = self.queue.remove(0);
        assert(views(self.queue@) =~= before.drop_first());
        match self.token {
            None => None,
            Some(token) => {
                self.active = true;
                Some(PreviewPreloadJob { generation: self.generation, path, token })
            },
        }
    }

    /// Takes the completion of a preload of `generation`: ignored when the
    /// preloads were restarted or cancelled since; otherwise the next may
    /// start. Gives whether it was taken.
    pub fn complete(&mut self, generation: u64) -> (result: bool)
        ensures
            result == (old(self).generation == generation),
            !result ==> *final(self) == *old(self),
            result ==> !final(self).active && final(self).generation == old(self).generation
                && final(self).token == old(self).token && final(self).queue == old(self).queue,
    {
        if !self.is_current(generation) {
            return false;
        }
        self.active = false;
        true
    }

    /// Whether `generation` is the current one.
    pub fn is_current(&self, generation: u64) -> (result: bool)
        ensures
            result == (self.generation == generation),
    {
        self.generation == generation
    }
}


/// Whether `path` is worth decoding ahead while `current` is shown: it is
/// another file, a JPEG, and not cached yet.
pub open spec fn preload_worthy<P>(
    entries: Seq<(Seq<char>, CachedPreview<P>)>,
    current: Seq<char>,
    path: Seq<char>,
) -> bool {
    &&& path != current
    &&& (has_extension(path, "jpg"@) || has_extension(path, "jpeg"@))
    &&& index_of_path(entries, path, 0) is None
}

/// The neighbours to decode ahead, `first` before `second`, each kept when
/// worthy and not already chosen.
pub open spec fn preload_choice<P>(
    entries: Seq<(Seq<char>, CachedPreview<P>)>,
    current: Seq<char>,
    first: Option<Seq<char>>,
    second: Option<Seq<char>>,
) -> Seq<Seq<char>> {
    let chosen = match first {
        Some(p) => if preload_worthy(entries, current, p) { seq![p] } else { Seq::empty() },
        None => Seq::empty(),
    };
    match second {
        Some(p) => if preload_worthy(entries, current, p) && !chosen.contains(p) {
            chosen.push(p)
        } else {
            chosen
        },
        None => chosen,
    }
}

/// The text of an optional string.
pub open spec fn opt_string_view(value: Option<String>) -> Option<Seq<char>> {
    match value {
        Some(text) => Some(text@),
        None => None,
    }
}

/// Chooses the neighbours of the image on screen to decode ahead.
///
/// Nothing is scheduled (`None`) while a decode runs, when no image is
/// shown, or when the image shown is not cached itself. Otherwise the
/// neighbour in the direction of travel comes first (`previous` when moving
/// backwards, `next` otherwise), then the other; a neighbour is kept when it
/// is another file, a JPEG and not cached, and not already chosen.
pub fn adjacent_preload_candidates<P>(
    decoding: bool,
    current: Option<&str>,
    cache: &PreviewCache<P>,
    backwards: bool,
    previous: Option<String>,
    next: Option<String>,
) -> (result: Option<Vec<String>>)
    ensures
        (decoding || current is None || index_of_path(cache@, current->0@, 0) is None) ==> result is None,
        !decoding && current is Some && index_of_path(cache@, current->0@, 0) is Some ==> {
            &&& result is Some
            &&& views(result->0@) == if backwards {
                preload_choice(cache@, current->0@, opt_string_view(previous), opt_string_view(next))
            } else {
                preload_choice(cache@, current->0@, opt_string_view(next), opt_string_view(previous))
            }
        },
{
    if decoding {
        return None;
    }
    let current = match current {
        Some(path) => path,
        None => return None,
    };
    if !cache.contains(current) {
        return None;
    }
    let (first, second) = if backwards { (previous, next) } else { (next, previous) };
    let ghost first_view = opt_string_view(first);
    let ghost second_view = opt_string_view(second);
    let mut candidates: Vec<String> = Vec::new();
    if let Some(path) = first {
        if candidate_worthy(cache, current, path.as_str()) {
            candidates.push(path);
            assert(views(candidates@) =~= seq![first_view->0]);
        }
    }
    assert(views(candidates@) =~= match first_view {
        Some(p) => if preload_worthy(cache@, current@, p) { seq![p] } else { Seq::<Seq<char>>::empty() },
        None => Seq::<Seq<char>>::empty(),
    });
    if let Some(path) = second {
        if candidate_worthy(cache, current, path.as_str())
            && !crate::association_formats::contains_string(&candidates, path.as_str()) {
            let ghost before = views(candidates@);
            candidates.push(path);
            assert(views(candidates@) =~= before.push(second_view->0));
        }
    }
    Some(candidates)
}

/// Whether `path` is worth decoding ahead while `current` is shown.
fn candidate_worthy<P>(cache: &PreviewCache<P>, current: &str, path: &str) -> (result: bool)
    ensures
        result == preload_worthy(cache@, current@, path@),
{
    !crate::text::chars_equal(&crate::text::chars_of(path), &crate::text::chars_of(current))
        && crate::formats::is_jpeg_path(path) && !cache.contains(path)
}

} // verus!
