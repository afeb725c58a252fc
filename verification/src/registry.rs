//! The map registry: which logical maps were requested, and with what
//! handle and chunk size.

use vstd::prelude::*;

verus! {

/// The side of a render chunk that a map gets unless told otherwise.
pub const DEFAULT_CHUNK_SIDE: u32 = 64;

/// The streaming granularity of a map, in tiles.
#[derive(Clone, Copy, Debug, PartialEq, Eq, Structural)]
pub struct ChunkSize {
    pub width: u32,
    pub height: u32,
}

impl ChunkSize {
    /// The chunk size of a newly registered map.
    pub open spec fn standard() -> ChunkSize {
        ChunkSize { width: DEFAULT_CHUNK_SIDE, height: DEFAULT_CHUNK_SIDE }
    }
}

impl Default for ChunkSize {
    fn default() -> (size: ChunkSize)
        ensures
            size == ChunkSize::standard(),
    {
        ChunkSize { width: DEFAULT_CHUNK_SIDE, height: DEFAULT_CHUNK_SIDE }
    }
}

/// One registered map.
#[derive(Debug, PartialEq, Eq)]
pub struct MapRegistryEntry {
    pub name: String,
    /// Handle of the map's load request: the number of requests issued
    /// before it.
    pub handle: usize,
    pub chunk_size: ChunkSize,
}

/// A registered map, as the contracts see it.
pub struct EntryView {
    pub name: Seq<char>,
    pub handle: usize,
    pub chunk_size: ChunkSize,
}

impl View for MapRegistryEntry {
    type V = EntryView;

    open spec fn view(&self) -> EntryView {
        EntryView { name: self.name@, handle: self.handle, chunk_size: self.chunk_size }
    }
}

/// A load to issue for a map that was not registered yet.
#[derive(Debug, PartialEq, Eq)]
pub struct LoadRequest {
    pub handle: usize,
    pub path: String,
}

/// What the registry answers to a request.
#[derive(Debug, PartialEq, Eq)]
pub struct Lookup {
    pub handle: usize,
    pub chunk_size: ChunkSize,
    /// The load to issue; `None` when the map was registered before.
    pub request: Option<LoadRequest>,
}

/// The maps requested so far, in the order of their first request. Entries
/// are never removed.
#[derive(Debug)]
pub struct Tilemaps {
    entries: Vec<MapRegistryEntry>,
}

impl View for Tilemaps {
    type V = Seq<EntryView>;

    closed spec fn view(&self) -> Seq<EntryView> {
        self.entries@.map_values(|e: MapRegistryEntry| e@)
    }
}

/// The index of the entry called `name`, if the map is registered.
pub open spec fn registered(entries: Seq<EntryView>, name: Seq<char>) -> Option<int>
    decreases entries.len(),
{
    if entries.len() == 0 {
        None
    } else if entries[0].name == name {
        Some(0)
    } else {
        match registered(entries.drop_first(), name) {
            Some(i) => Some(i + 1),
            None => None,
        }
    }
}

/// The registry after a request for `name`: unchanged if the map is
/// registered, else with one more entry, whose handle is the number of
/// entries before.
pub open spec fn with_map(entries: Seq<EntryView>, name: Seq<char>) -> Seq<EntryView> {
    if registered(entries, name) is Some {
        entries
    } else {
        entries.push(
            EntryView { name, handle: entries.len() as usize, chunk_size: ChunkSize::standard() },
        )
    }
}

/// `registered` returns the least index with the name, and `None` exactly
/// when no entry has it.
pub proof fn lemma_registered(entries: Seq<EntryView>, name: Seq<char>)
    ensures
        match registered(entries, name) {
            Some(i) => 0 <= i < entries.len() && entries[i].name == name && forall|j: int|
                0 <= j < i ==> entries[j].name != name,
            None => forall|j: int| 0 <= j < entries.len() ==> entries[j].name != name,
        },
    decreases entries.len(),
{
    if entries.len() != 0 && entries[0].name != name {
        let rest = entries.drop_first();
        lemma_registered(rest, name);
        match registered(rest, name) {
            Some(i) => {
                assert forall|j: int| 0 <= j < i + 1 implies entries[j].name != name by {
                    if j > 0 {
                        assert(entries[j] == rest[j - 1]);
                    }
                }
            },
            None => {
                assert forall|j: int| 0 <= j < entries.len() implies entries[j].name != name by {
                    if j > 0 {
                        assert(entries[j] == rest[j - 1]);
                    }
                }
            },
        }
    }
}

/// Asking twice is asking once.
///
/// After a request for `name` the map is registered; a second request for
/// it, whatever path it gives, finds the entry of the first, with the same
/// handle and chunk size, and leaves the registry, and so the number of
/// loads issued, as it is.
pub proof fn lemma_second_request_reuses_entry(entries: Seq<EntryView>, name: Seq<char>)
    ensures
        registered(with_map(entries, name), name) is Some,
        registered(with_map(entries, name), name) == match registered(entries, name) {
            Some(i) => Some(i),
            None => Some(entries.len() as int),
        },
        with_map(with_map(entries, name), name) == with_map(entries, name),
        with_map(entries, name).len() == entries.len() + if registered(entries, name) is Some {
            0int
        } else {
            1int
        },
{
    lemma_registered(entries, name);
    lemma_registered(with_map(entries, name), name);
    if registered(entries, name) is None {
        let grown = with_map(entries, name);
        assert(grown[entries.len() as int].name == name);
        assert forall|j: int| 0 <= j < entries.len() implies grown[j].name != name by {
            assert(grown[j] == entries[j]);
        }
    }
}

impl Tilemaps {
    /// An empty registry.
    pub fn new() -> (maps: Tilemaps)
        ensures
            maps@ =~= Seq::empty(),
    {
        Tilemaps { entries: Vec::new() }
    }

    /// The number of loads issued so far: one per registered map.
    pub fn load_requests(&self) -> (n: usize)
        ensures
            n == self@.len(),
    {
        self.entries.len()
    }

    fn position(&self, name: &String) -> (found: Option<usize>)
        ensures
            match found {
                Some(i) => i < self@.len() && registered(self@, name@) == Some(i as int),
                None => registered(self@, name@) is None,
            },
    {
        let mut i: usize = 0;
        while i < self.entries.len()
            invariant
                i <= self.entries.len(),
                self@.len() == self.entries@.len(),
                forall|j: int| 0 <= j < i ==> self@[j].name != name@,
            decreases self.entries.len() - i,
        {
            assert(self@[i as int] == self.entries@[i as int]@);
            if self.entries[i].name == *name {
                proof {
                    lemma_registered(self@, name@);
                }
                return Some(i);
            }
            i += 1;
        }
        proof {
            lemma_registered(self@, name@);
        }
        None
    }

    /// The handle and the chunk size of a registered map.
    pub fn get(&self, logical_name: &str) -> (found: Option<(usize, ChunkSize)>)
        ensures
            found == match registered(self@, logical_name@) {
                Some(i) => Some((self@[i].handle, self@[i].chunk_size)),
                None => None,
            },
    {
        let name = logical_name.to_owned();
        match self.position(&name) {
            Some(i) => {
                assert(self@[i as int] == self.entries@[i as int]@);
                Some((self.entries[i].handle, self.entries[i].chunk_size))
            },
            None => None,
        }
    }

    /// Returns the entry of the map called `logical_name`, registering the
    /// map first if this is the first request for it.
    ///
    /// Only a first request issues a load, for `path`, and registers the map
    /// with the default chunk size. A later request returns what the first
    /// one registered and ignores `path`.
    pub fn get_or_load(&mut self, logical_name: &str, path: &str) -> (lookup: Lookup)
        ensures
            final(self)@ == with_map(old(self)@, logical_name@),
            match registered(old(self)@, logical_name@) {
                Some(i) => lookup.handle == old(self)@[i].handle && lookup.chunk_size == old(
                    self,
                )@[i].chunk_size && lookup.request is None,
                None => lookup.handle == old(self)@.len() && lookup.chunk_size
                    == ChunkSize::standard() && (lookup.request matches Some(request)
                    && request.handle == lookup.handle && request.path@ == path@),
            },
    {
        let name = logical_name.to_owned();
        match self.position(&name) {
            Some(i) => {
                assert(self@[i as int] == self.entries@[i as int]@);
                Lookup {
                    handle: self.entries[i].handle,
                    chunk_size: self.entries[i].chunk_size,
                    request: None,
                }
            },
            None => {
                let handle = self.entries.len();
                let chunk_size = ChunkSize::default();
                let ghost before = self@;
                self.entries.push(MapRegistryEntry { name, handle, chunk_size });
                proof {
                    assert(self@ =~= before.push(
                        EntryView { name: logical_name@, handle, chunk_size },
                    ));
                }
                Lookup {
                    handle,
                    chunk_size,
                    request: Some(LoadRequest { handle, path: path.to_owned() }),
                }
            },
        }
    }
}

} // verus!
