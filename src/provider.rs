//! Content stores: the in-memory maps from path keys to content that the
//! folder and archive providers serve from.
use vstd::prelude::*;
use crate::mime_type::{guess_mime, mime_of};
use crate::path::{archive_key, archive_key_of};
use crate::table::PathTable;

verus! {

/// A stored file: its bytes and the MIME type inferred from its path.
pub struct Content {
    pub mime: String,
    pub payload: Vec<u8>,
}

/// What a client receives for a stored file: the MIME type and the bytes.
pub open spec fn served(c: Content) -> (Seq<char>, Seq<u8>) {
    (c.mime@, c.payload@)
}

/// The store `m` after the file `path` with bytes `payload` was added to it.
pub open spec fn stored(
    m: Map<Seq<char>, (Seq<char>, Seq<u8>)>,
    path: Seq<char>,
    payload: Seq<u8>,
) -> Map<Seq<char>, (Seq<char>, Seq<u8>)> {
    m.insert(path, (mime_of(path), payload))
}

/// A source of content that answers a lookup by path key without blocking.
pub trait StaticProvider {
    /// What the provider serves, by path key.
    spec fn serves(&self) -> Map<Seq<char>, (Seq<char>, Seq<u8>)>;

    /// The provider's internal invariant.
    spec fn ready(&self) -> bool;

    /// The content served under `path`, if any.
    fn get_content(&self, path: &str) -> (r: Option<&Content>)
        requires
            self.ready(),
        ensures
            r is None <==> !self.serves().contains_key(path@),
            r matches Some(c) ==> served(*c) == self.serves()[path@],
    ;
}

/// The content store: an immutable-once-built map from path keys to content.
pub struct StaticMap {
    files: PathTable<Content>,
}

impl View for StaticMap {
    type V = Map<Seq<char>, (Seq<char>, Seq<u8>)>;

    closed spec fn view(&self) -> Map<Seq<char>, (Seq<char>, Seq<u8>)> {
        self.files@.map_values(|c: Content| served(c))
    }
}

impl StaticMap {
    /// The store's internal invariant.
    pub closed spec fn wf(&self) -> bool {
        self.files.wf()
    }

    /// An empty store.
    pub fn new() -> (r: StaticMap)
        ensures
            r.wf(),
            r@ == Map::<Seq<char>, (Seq<char>, Seq<u8>)>::empty(),
    {
        let r = StaticMap { files: PathTable::new() };
        assert(r@ =~= Map::<Seq<char>, (Seq<char>, Seq<u8>)>::empty());
        r
    }

    /// The number of stored files.
    pub fn len(&self) -> (r: usize)
        requires
            self.wf(),
        ensures
            r == self@.dom().len(),
    {
        assert(self@.dom() =~= self.files@.dom());
        self.files.len()
    }

    /// Adds the file `path` with bytes `payload`, its MIME type inferred from
    /// the path; a file stored under the same key before is replaced.
    pub fn insert_file(&mut self, path: String, payload: Vec<u8>)
        requires
            old(self).wf(),
        ensures
            final(self).wf(),
            final(self)@ == stored(old(self)@, path@, payload@),
    {
        let mime = guess_mime(path.as_str());
        let ghost before = self.files@;
        let ghost c = Content { mime, payload };
        self.files.insert(path, Content { mime, payload });
        assert(self.files@.map_values(|c: Content| served(c)) =~= before.map_values(
            |c: Content| served(c),
        ).insert(path@, served(c)));
    }

    /// The content stored under `path`, if any.
    pub fn get(&self, path: &str) -> (r: Option<&Content>)
        requires
            self.wf(),
        ensures
            r is None <==> !self@.contains_key(path@),
            r matches Some(c) ==> served(*c) == self@[path@],
    {
        let key = String::from_str(path);
        self.files.get(&key)
    }
}

impl StaticProvider for StaticMap {
    open spec fn serves(&self) -> Map<Seq<char>, (Seq<char>, Seq<u8>)> {
        self@
    }

    open spec fn ready(&self) -> bool {
        self.wf()
    }

    fn get_content(&self, path: &str) -> (r: Option<&Content>) {
        self.get(path)
    }
}

/// A store that answers every path it lacks with the content of one fallback
/// path (a single-page application's entry page, say).
pub struct TryRewrite {
    map: StaticMap,
    path: String,
}

/// What a store `m` with the fallback path `p` serves: `m`'s own content
/// under its keys, and the content under `p` for every other key.
pub open spec fn rewritten(
    m: Map<Seq<char>, (Seq<char>, Seq<u8>)>,
    p: Seq<char>,
) -> Map<Seq<char>, (Seq<char>, Seq<u8>)> {
    Map::new(
        |k: Seq<char>| m.contains_key(k) || m.contains_key(p),
        |k: Seq<char>|
            if m.contains_key(k) {
                m[k]
            } else {
                m[p]
            },
    )
}

impl TryRewrite {
    /// The store that is served.
    pub closed spec fn map_spec(&self) -> StaticMap {
        self.map
    }

    /// The fallback path.
    pub closed spec fn path_spec(&self) -> Seq<char> {
        self.path@
    }

    /// Serves `map`, and `map`'s content under `path` for every key it lacks.
    pub fn new(map: StaticMap, path: String) -> (r: TryRewrite)
        ensures
            r.map_spec() == map,
            r.path_spec() == path@,
    {
        TryRewrite { map, path }
    }
}

impl StaticProvider for TryRewrite {
    open spec fn serves(&self) -> Map<Seq<char>, (Seq<char>, Seq<u8>)> {
        rewritten(self.map_spec()@, self.path_spec())
    }

    open spec fn ready(&self) -> bool {
        self.map_spec().wf()
    }

    fn get_content(&self, path: &str) -> (r: Option<&Content>) {
        let result = self.map.get(path);
        if result.is_none() {
            self.map.get(self.path.as_str())
        } else {
            result
        }
    }
}

/// Serves the files under a folder. The folder is read into memory once, at
/// build time, one `add_file` per regular file.
pub struct FolderProvider {
    folder: String,
    files: StaticMap,
}

impl FolderProvider {
    /// The provider's internal invariant.
    pub closed spec fn wf(&self) -> bool {
        self.files.wf()
    }

    /// The folder that the provider serves.
    pub closed spec fn folder_spec(&self) -> Seq<char> {
        self.folder@
    }

    /// What the provider serves, by path key.
    pub closed spec fn files_spec(&self) -> Map<Seq<char>, (Seq<char>, Seq<u8>)> {
        self.files@
    }

    /// A provider for the folder `path`, with nothing read yet.
    pub fn new(path: &str) -> (r: FolderProvider)
        ensures
            r.wf(),
            r.folder_spec() == path@,
            r.files_spec() == Map::<Seq<char>, (Seq<char>, Seq<u8>)>::empty(),
    {
        FolderProvider { folder: String::from_str(path), files: StaticMap::new() }
    }

    /// The folder that the provider serves.
    pub fn folder(&self) -> (r: &str)
        ensures
            r@ == self.folder_spec(),
    {
        self.folder.as_str()
    }

    /// Adds the file found under the key `path` with the bytes `payload`.
    pub fn add_file(&mut self, path: String, payload: Vec<u8>)
        requires
            old(self).wf(),
        ensures
            final(self).wf(),
            final(self).folder_spec() == old(self).folder_spec(),
            final(self).files_spec() == stored(old(self).files_spec(), path@, payload@),
    {
        self.files.insert_file(path, payload);
    }

    /// The bytes stored under `path`, if any.
    pub fn get_data(&self, path: &str) -> (r: Option<&Vec<u8>>)
        requires
            self.wf(),
        ensures
            r is None <==> !self.files_spec().contains_key(path@),
            r matches Some(d) ==> d@ == self.files_spec()[path@].1,
    {
        match self.files.get(path) {
            Some(c) => Some(&c.payload),
            None => None,
        }
    }
}

impl StaticProvider for FolderProvider {
    open spec fn serves(&self) -> Map<Seq<char>, (Seq<char>, Seq<u8>)> {
        self.files_spec()
    }

    open spec fn ready(&self) -> bool {
        self.wf()
    }

    fn get_content(&self, path: &str) -> (r: Option<&Content>) {
        self.files.get(path)
    }
}

/// An entry of an archive as the archive reader hands it over: the size that
/// its header declares, its path in the archive and its bytes.
pub struct ArchiveEntry {
    pub size: u64,
    pub path: String,
    pub payload: Vec<u8>,
}

/// The store `m` after the archive entry `e` was taken in: entries of size
/// zero mark directories and are skipped.
pub open spec fn with_entry(
    m: Map<Seq<char>, (Seq<char>, Seq<u8>)>,
    e: ArchiveEntry,
) -> Map<Seq<char>, (Seq<char>, Seq<u8>)> {
    if e.size == 0 {
        m
    } else {
        stored(m, archive_key_of(e.path@), e.payload@)
    }
}

/// Serves the files of an archive, read into memory at build time.
pub struct TarProvider {
    files: StaticMap,
}

impl TarProvider {
    /// The provider's internal invariant.
    pub closed spec fn wf(&self) -> bool {
        self.files.wf()
    }

    /// What the provider serves, by path key.
    pub closed spec fn files_spec(&self) -> Map<Seq<char>, (Seq<char>, Seq<u8>)> {
        self.files@
    }

    /// A provider with no entries yet.
    pub fn new() -> (r: TarProvider)
        ensures
            r.wf(),
            r.files_spec() == Map::<Seq<char>, (Seq<char>, Seq<u8>)>::empty(),
    {
        TarProvider { files: StaticMap::new() }
    }

    /// Takes in the next entry of the archive.
    pub fn add_entry(&mut self, entry: ArchiveEntry)
        requires
            old(self).wf(),
        ensures
            final(self).wf(),
            final(self).files_spec() == with_entry(old(self).files_spec(), entry),
    {
        if entry.size != 0 {
            let key = archive_key(entry.path.as_str());
            self.files.insert_file(key, entry.payload);
        }
    }

    /// The bytes stored under `path`, if any.
    pub fn get_data(&self, path: &str) -> (r: Option<&Vec<u8>>)
        requires
            self.wf(),
        ensures
            r is None <==> !self.files_spec().contains_key(path@),
            r matches Some(d) ==> d@ == self.files_spec()[path@].1,
    {
        match self.files.get(path) {
            Some(c) => Some(&c.payload),
            None => None,
        }
    }
}

impl StaticProvider for TarProvider {
    open spec fn serves(&self) -> Map<Seq<char>, (Seq<char>, Seq<u8>)> {
        self.files_spec()
    }

    open spec fn ready(&self) -> bool {
        self.wf()
    }

    fn get_content(&self, path: &str) -> (r: Option<&Content>) {
        self.files.get(path)
    }
}

/// The store built by adding `files` (key and bytes) in order to an empty one.
pub open spec fn built(files: Seq<(Seq<char>, Seq<u8>)>) -> Map<Seq<char>, (Seq<char>, Seq<u8>)>
    decreases files.len(),
{
    if files.len() == 0 {
        Map::empty()
    } else {
        stored(built(files.drop_last()), files.last().0, files.last().1)
    }
}

/// The store built by taking in the archive entries `entries` in order.
pub open spec fn archived(entries: Seq<ArchiveEntry>) -> Map<Seq<char>, (Seq<char>, Seq<u8>)>
    decreases entries.len(),
{
    if entries.len() == 0 {
        Map::empty()
    } else {
        with_entry(archived(entries.drop_last()), entries.last())
    }
}

/// A store built from files serves, under each file's key, exactly the bytes
/// of the last file added under that key and the MIME type of that key; and
/// it serves nothing under a key that no file had.
pub proof fn lemma_built_store_round_trip(files: Seq<(Seq<char>, Seq<u8>)>, p: Seq<char>)
    ensures
        built(files).contains_key(p) <==> exists|i: int| 0 <= i < files.len() && files[i].0 == p,
        forall|i: int|
            0 <= i < files.len() && files[i].0 == p && (forall|j: int|
                i < j < files.len() ==> files[j].0 != p) ==> built(files)[p] == (
                mime_of(p),
                files[i].1,
            ),
    decreases files.len(),
{
    if files.len() > 0 {
        let init = files.drop_last();
        lemma_built_store_round_trip(init, p);
        let n = files.len() - 1;
        if files.last().0 != p {
            assert forall|i: int| 0 <= i < init.len() && init[i].0 == p implies
                files[i].0 == p by {};
            assert forall|i: int| 0 <= i < files.len() && files[i].0 == p implies
                i < n && init[i].0 == p by {};
            assert forall|i: int|
                0 <= i < files.len() && files[i].0 == p && (forall|j: int|
                    i < j < files.len() ==> files[j].0 != p) implies built(files)[p] == (
                mime_of(p),
                files[i].1,
            ) by {
                assert(init[i].0 == p);
                assert forall|j: int| i < j < init.len() implies init[j].0 != p by {
                    assert(files[j].0 != p);
                };
            };
        } else {
            assert(files[n].0 == p);
        }
    }
}

/// A store built from an archive serves, under each key, exactly the bytes of
/// the last entry of non-zero size whose path gives that key, and the MIME
/// type of that key; it serves nothing under a key that no such entry gives.
#[verifier::rlimit(40)]
pub proof fn lemma_archived_store_round_trip(entries: Seq<ArchiveEntry>, p: Seq<char>)
    ensures
        archived(entries).contains_key(p) <==> exists|i: int|
            0 <= i < entries.len() && entries[i].size != 0 && archive_key_of(entries[i].path@) == p,
        forall|i: int|
            0 <= i < entries.len() && entries[i].size != 0 && archive_key_of(entries[i].path@) == p
                && (forall|j: int|
                i < j < entries.len() && entries[j].size != 0 ==> archive_key_of(entries[j].path@)
                    != p) ==> archived(entries)[p] == (mime_of(p), entries[i].payload@),
    decreases entries.len(),
{
    if entries.len() > 0 {
        let init = entries.drop_last();
        lemma_archived_store_round_trip(init, p);
        let n = entries.len() - 1;
        let e = entries.last();
        if e.size == 0 || archive_key_of(e.path@) != p {
            assert forall|i: int|
                0 <= i < init.len() && init[i].size != 0 && archive_key_of(init[i].path@) == p
                implies entries[i].size != 0 && archive_key_of(entries[i].path@) == p by {};
            assert forall|i: int|
                0 <= i < entries.len() && entries[i].size != 0 && archive_key_of(entries[i].path@) == p
                implies i < n && init[i].size != 0 && archive_key_of(init[i].path@) == p by {};
            assert forall|i: int|
                0 <= i < entries.len() && entries[i].size != 0 && archive_key_of(entries[i].path@) == p
                    && (forall|j: int|
                    i < j < entries.len() && entries[j].size != 0 ==> archive_key_of(
                        entries[j].path@,
                    ) != p) implies archived(entries)[p] == (mime_of(p), entries[i].payload@) by {
                assert(init[i].size != 0 && archive_key_of(init[i].path@) == p);
                assert forall|j: int| i < j < init.len() && init[j].size != 0 implies archive_key_of(
                    init[j].path@,
                ) != p by {
                    assert(entries[j] == init[j]);
                };
            };
        } else {
            assert(entries[n].size != 0 && archive_key_of(entries[n].path@) == p);
        }
    }
}

} // verus!
