//! Library discovery and the in-memory index.
//!
//! The scanner walks a base directory to a bounded depth and treats every
//! directory that directly holds a catalog file as a library root. Each
//! root's identifier is derived deterministically from its path, so the
//! same location yields the same identifier on every scan. The index owns
//! the discovered libraries together with their open catalog readers and
//! keeps the two together by construction.

use vstd::prelude::*;
use vstd::multiset::Multiset;
use vstd::seq_lib::lemma_multiset_commutative;
use crate::db::{CalibreDb, CatalogError};
use crate::text::{
    file_name, file_name_of, joined_path, lemma_filter_push, lemma_lex_le_total,
    lemma_lex_le_trans, lex_le, path_join, str_eq, str_le,
};

verus! {

#[derive(Debug, Clone)]
pub struct LibraryMetadata {
    pub id: String,
    pub name: String,
    pub path: String,
    pub metadata_db_path: String,
    pub book_count: usize,
}

impl LibraryMetadata {
    /// An equal copy of the record.
    pub fn duplicate(&self) -> (r: LibraryMetadata)
        ensures
            r == *self,
    {
        LibraryMetadata {
            id: self.id.clone(),
            name: self.name.clone(),
            path: self.path.clone(),
            metadata_db_path: self.metadata_db_path.clone(),
            book_count: self.book_count,
        }
    }
}

/// The stable identifier derived from a library path: what uuid's
/// `Uuid::new_v5` computes in the DNS namespace from the path's bytes,
/// rendered in the hyphenated form; a pure function of the path.
pub uninterp spec fn path_uuid(path: Seq<char>) -> Seq<char>;

/// Relies on uuid's `Uuid::new_v5` over the DNS namespace and its
/// hyphenated `Display` form: deterministic in the path, 36 characters.
#[verifier::external_body]
fn library_id_for_path(path: &str) -> (r: String)
    ensures
        r@ == path_uuid(path@),
        r@.len() == 36,
{
    uuid::Uuid::new_v5(&uuid::Uuid::NAMESPACE_DNS, path.as_bytes()).to_string()
}

/// Relies on walkdir's `WalkDir`: the paths of the entries at most two
/// levels beneath `base`, the base itself included, as strings. What comes
/// back depends on the filesystem.
#[verifier::external_body]
fn walk_paths(base: &str) -> Vec<String> {
    let mut paths = Vec::new();
    for entry in walkdir::WalkDir::new(base).max_depth(2).into_iter().filter_map(|e| e.ok()) {
        paths.push(entry.path().to_string_lossy().to_string());
    }
    paths
}

/// Relies on std's `Path::exists`. The answer depends on the filesystem.
#[verifier::external_body]
pub(crate) fn path_exists(path: &str) -> bool {
    std::path::Path::new(path).exists()
}

/// Libraries in ascending order of name.
pub open spec fn sorted_by_name(s: Seq<LibraryMetadata>) -> bool {
    forall|i: int, j: int| 0 <= i < j < s.len() ==> lex_le(#[trigger] s[i].name@, #[trigger] s[j].name@)
}

/// Sort libraries by name, keeping exactly the given records.
fn sort_by_name_vec(v: Vec<LibraryMetadata>) -> (r: Vec<LibraryMetadata>)
    ensures
        sorted_by_name(r@),
        r@.to_multiset() == v@.to_multiset(),
{
    broadcast use vstd::seq_lib::group_to_multiset_ensures;

    let ghost orig = v@;
    let mut rest = v;
    let mut result: Vec<LibraryMetadata> = Vec::new();
    proof {
        assert(result@.to_multiset().add(rest@.to_multiset()) =~= orig.to_multiset());
    }
    while rest.len() > 0
        invariant
            result@.to_multiset().add(rest@.to_multiset()) == orig.to_multiset(),
            sorted_by_name(result@),
        decreases rest@.len(),
    {
        let ghost rest_pre = rest@;
        let ghost result_pre = result@;
        let x = rest.remove(0);
        let mut p: usize = 0;
        while p < result.len() && str_le(result[p].name.as_str(), x.name.as_str())
            invariant
                0 <= p <= result@.len(),
                forall|i: int| 0 <= i < p ==> lex_le(#[trigger] result@[i].name@, x.name@),
            decreases result@.len() - p,
        {
            p += 1;
        }
        proof {
            if p < result_pre.len() {
                lemma_lex_le_total(result_pre[p as int].name@, x.name@);
            }
        }
        result.insert(p, x);
        proof {
            // sortedness of the new arrangement
            assert forall|i: int, j: int| 0 <= i < j < result@.len() implies lex_le(
                #[trigger] result@[i].name@,
                #[trigger] result@[j].name@,
            ) by {
                let pi = p as int;
                if i < pi && j == pi {
                } else if i == pi && j > pi {
                    assert(result@[j] == result_pre[j - 1]);
                    if j - 1 == pi {
                        assert(lex_le(x.name@, result_pre[pi].name@));
                    } else {
                        lemma_lex_le_trans(
                            x.name@,
                            result_pre[pi].name@,
                            result_pre[j - 1].name@,
                        );
                    }
                } else if i < pi && j > pi {
                    assert(result@[i] == result_pre[i]);
                    assert(result@[j] == result_pre[j - 1]);
                } else if i > pi && j > pi {
                    assert(result@[i] == result_pre[i - 1]);
                    assert(result@[j] == result_pre[j - 1]);
                }
            }
            // the multiset is unchanged
            rest_pre.to_multiset_ensures();
            result_pre.to_multiset_ensures();
            Seq::<LibraryMetadata>::empty().to_multiset_ensures();
            assert(rest@ == rest_pre.remove(0));
            assert(rest_pre.remove(0).to_multiset() =~= rest_pre.to_multiset().remove(x));
            assert(rest_pre.contains(x));
            assert(rest_pre.to_multiset().count(x) > 0);
            assert(rest_pre.to_multiset() =~= rest@.to_multiset().insert(x));
            assert(result@ =~= (result_pre.take(p as int) + seq![x]) + result_pre.skip(p as int));
            lemma_multiset_commutative(result_pre.take(p as int) + seq![x], result_pre.skip(p as int));
            lemma_multiset_commutative(result_pre.take(p as int), seq![x]);
            assert(seq![x] =~= Seq::<LibraryMetadata>::empty().push(x));
            assert(seq![x].to_multiset() =~= Multiset::<LibraryMetadata>::empty().insert(x));
            assert(result_pre =~= result_pre.take(p as int) + result_pre.skip(p as int));
            lemma_multiset_commutative(result_pre.take(p as int), result_pre.skip(p as int));
            assert(result@.to_multiset() =~= result_pre.to_multiset().insert(x));
            assert(result@.to_multiset().add(rest@.to_multiset()) =~= orig.to_multiset());
        }
    }
    result
}

/// What every scanned record satisfies: the identifier is derived from the
/// path, the name is the path's final component, the catalog path sits
/// directly under the root, and the count respects the reader's bound.
pub open spec fn library_meta_shape(m: LibraryMetadata) -> bool {
    &&& m.id@ == path_uuid(m.path@)
    &&& m.id@.len() == 36
    &&& m.name@ == file_name_of(m.path@)
    &&& m.metadata_db_path@ == joined_path(m.path@, "metadata.db"@)
    &&& m.book_count <= 10000
}

/// The identifier a scan derives for a library depends on its path alone:
/// two scanned records for the same root always carry the same id.
pub proof fn lemma_scanned_id_stable(a: LibraryMetadata, b: LibraryMetadata)
    requires
        library_meta_shape(a),
        library_meta_shape(b),
        a.path@ == b.path@,
    ensures
        a.id@ == b.id@,
        a.id@.len() > 0,
{
}

pub struct LibraryScanner {
    base_path: String,
}

impl LibraryScanner {
    /// The directory this scanner searches.
    pub closed spec fn spec_base_path(self) -> Seq<char> {
        self.base_path@
    }

    pub fn new(base_path: &str) -> (r: LibraryScanner)
        ensures
            r.spec_base_path() == base_path@,
    {
        LibraryScanner { base_path: base_path.to_owned() }
    }

    /// Count the books of the catalog at `metadata_db_path`; a catalog that
    /// cannot be opened or read is an error, not a count.
    pub fn get_book_count(&self, metadata_db_path: &str) -> (r: Result<usize, CatalogError>)
        ensures
            r matches Ok(n) ==> n <= 10000,
    {
        match CalibreDb::open(metadata_db_path) {
            Ok(db) => match db.get_all_books() {
                Ok(books) => Ok(books.len()),
                Err(e) => Err(e),
            },
            Err(e) => Err(e),
        }
    }

    /// Build the record for one discovered root; a catalog that cannot be
    /// opened or read is an error, so the scan can skip the candidate.
    fn create_library_metadata(&self, path: &str, metadata_db_path: &str) -> (r: Result<
        LibraryMetadata,
        CatalogError,
    >)
        ensures
            r matches Ok(m) ==> {
                &&& m.path@ == path@
                &&& m.metadata_db_path@ == metadata_db_path@
                &&& m.id@ == path_uuid(path@)
                &&& m.id@.len() == 36
                &&& m.name@ == file_name_of(path@)
                &&& m.book_count <= 10000
            },
    {
        let book_count = match self.get_book_count(metadata_db_path) {
            Ok(n) => n,
            Err(e) => {
                return Err(e);
            },
        };
        let library_name = file_name(path);
        let id = library_id_for_path(path);
        Ok(LibraryMetadata {
            id,
            name: library_name,
            path: path.to_owned(),
            metadata_db_path: metadata_db_path.to_owned(),
            book_count,
        })
    }

    /// Discover library roots at most two levels beneath the base
    /// directory: a directory counts as a root exactly when it directly
    /// holds a catalog file. A candidate whose catalog cannot be opened or
    /// read is skipped, never fatal to the scan. Results come sorted by
    /// name.
    pub fn scan(&self) -> (r: Vec<LibraryMetadata>)
        ensures
            sorted_by_name(r@),
            forall|i: int| 0 <= i < r@.len() ==> library_meta_shape(#[trigger] r@[i]),
    {
        broadcast use vstd::seq_lib::group_to_multiset_ensures;

        let paths = walk_paths(self.base_path.as_str());
        let mut libraries: Vec<LibraryMetadata> = Vec::new();
        let mut k: usize = 0;
        while k < paths.len()
            invariant
                forall|i: int|
                    0 <= i < libraries@.len() ==> library_meta_shape(#[trigger] libraries@[i]),
            decreases paths@.len() - k,
        {
            let metadata_db = path_join(paths[k].as_str(), "metadata.db");
            if path_exists(metadata_db.as_str()) {
                match self.create_library_metadata(paths[k].as_str(), metadata_db.as_str()) {
                    Ok(meta) => {
                        libraries.push(meta);
                    },
                    Err(_) => {},
                }
            }
            k += 1;
        }
        let ghost unsorted = libraries@;
        let sorted = sort_by_name_vec(libraries);
        proof {
            assert forall|i: int| 0 <= i < sorted@.len() implies library_meta_shape(
                #[trigger] sorted@[i],
            ) by {
                assert(sorted@.to_multiset().count(sorted@[i]) > 0);
                assert(unsorted.contains(sorted@[i]));
            }
        }
        sorted
    }
}

/// One indexed library: its record and its open catalog reader, held
/// together so neither can outlive or miss the other.
pub struct LibraryEntry {
    pub meta: LibraryMetadata,
    pub db: CalibreDb,
}

/// No two entries share an identifier.
pub open spec fn distinct_ids(entries: Seq<LibraryEntry>) -> bool {
    forall|i: int, j: int|
        0 <= i < j < entries.len() ==> #[trigger] entries[i].meta.id@ != #[trigger] entries[j].meta.id@
}

/// The entries of `entries` whose identifier is not `id`.
pub open spec fn remove_id(entries: Seq<LibraryEntry>, id: Seq<char>) -> Seq<LibraryEntry> {
    entries.filter(|e: LibraryEntry| e.meta.id@ != id)
}

/// The least index of an entry carrying `id`; `entries.len()` when absent.
pub open spec fn first_with_id(entries: Seq<LibraryEntry>, id: Seq<char>) -> nat
    decreases entries.len(),
{
    if entries.len() == 0 {
        0
    } else if entries[0].meta.id@ == id {
        0
    } else {
        1 + first_with_id(entries.skip(1), id)
    }
}

/// Some entry in `entries` carries `id`.
pub open spec fn has_id(entries: Seq<LibraryEntry>, id: Seq<char>) -> bool {
    first_with_id(entries, id) < entries.len()
}

proof fn lemma_first_with_id_at(entries: Seq<LibraryEntry>, id: Seq<char>, i: int)
    requires
        0 <= i <= entries.len(),
        i < entries.len() ==> entries[i].meta.id@ == id,
        forall|j: int| 0 <= j < i ==> entries[j].meta.id@ != id,
        i == entries.len() ==> forall|j: int|
            0 <= j < entries.len() ==> entries[j].meta.id@ != id,
    ensures
        first_with_id(entries, id) == i,
    decreases i,
{
    if entries.len() == 0 {
    } else if i == 0 {
    } else {
        lemma_first_with_id_at(entries.skip(1), id, i - 1);
    }
}

/// The in-memory index: the authoritative mapping from library identifier
/// to its record and open catalog reader.
pub struct LibraryCache {
    entries: Vec<LibraryEntry>,
}

impl LibraryCache {
    /// The indexed entries, in insertion order.
    pub closed spec fn spec_entries(self) -> Seq<LibraryEntry> {
        self.entries@
    }

    /// No two indexed libraries share an identifier.
    pub open spec fn wf(self) -> bool {
        distinct_ids(self.spec_entries())
    }

    pub fn new() -> (r: LibraryCache)
        ensures
            r.spec_entries() == Seq::<LibraryEntry>::empty(),
            r.wf(),
    {
        let r = LibraryCache { entries: Vec::new() };
        proof {
            assert(r.spec_entries() =~= Seq::<LibraryEntry>::empty());
        }
        r
    }

    /// Discard every entry, leaving an empty index.
    pub fn clear(&mut self)
        ensures
            final(self).spec_entries() == Seq::<LibraryEntry>::empty(),
            final(self).wf(),
    {
        self.entries.clear();
        proof {
            assert(self.spec_entries() =~= Seq::<LibraryEntry>::empty());
        }
    }

    /// Drop every entry carrying `id`.
    fn remove_entries_with_id(&mut self, id: &str)
        ensures
            final(self).spec_entries() == remove_id(old(self).spec_entries(), id@),
            forall|i: int|
                0 <= i < final(self).spec_entries().len()
                    ==> #[trigger] final(self).spec_entries()[i].meta.id@ != id@,
            distinct_ids(old(self).spec_entries()) ==> distinct_ids(final(self).spec_entries()),
    {
        let ghost orig = self.entries@;
        let ghost n = orig.len() as int;
        let mut k: usize = 0;
        let ghost mut p: int = 0;
        proof {
            assert(orig.subrange(0, 0) =~= Seq::<LibraryEntry>::empty());
            assert(remove_id(Seq::<LibraryEntry>::empty(), id@) =~= Seq::<LibraryEntry>::empty());
            assert(self.entries@ =~= remove_id(orig.subrange(0, 0), id@) + orig.subrange(0, n));
        }
        while k < self.entries.len()
            invariant
                0 <= p <= n,
                n == orig.len(),
                self.entries@ == remove_id(orig.subrange(0, p), id@) + orig.subrange(p, n),
                k as int == remove_id(orig.subrange(0, p), id@).len(),
                forall|i: int|
                    0 <= i < k ==> #[trigger] self.entries@[i].meta.id@ != id@,
                distinct_ids(orig) ==> distinct_ids(self.entries@),
            decreases n - p,
        {
            let ghost pre = orig.subrange(0, p);
            let ghost kept = remove_id(pre, id@);
            proof {
                assert(p < n);
                assert(self.entries@[k as int] == orig[p]);
                assert(orig.subrange(0, p + 1) =~= pre.push(orig[p]));
                lemma_filter_push(pre, orig[p], |e: LibraryEntry| e.meta.id@ != id@);
            }
            if str_eq(self.entries[k].meta.id.as_str(), id) {
                let ghost before = self.entries@;
                self.entries.remove(k);
                proof {
                    assert(self.entries@ == before.remove(k as int));
                    assert(self.entries@ =~= kept + orig.subrange(p + 1, n));
                    if distinct_ids(orig) {
                        assert forall|i: int, j: int|
                            0 <= i < j < self.entries@.len() implies #[trigger] self.entries@[i].meta.id@
                            != #[trigger] self.entries@[j].meta.id@ by {
                            let oi: int = if i < k as int {
                                i
                            } else {
                                i + 1
                            };
                            let oj: int = if j < k as int {
                                j
                            } else {
                                j + 1
                            };
                            assert(self.entries@[i] == before[oi]);
                            assert(self.entries@[j] == before[oj]);
                            assert(before[oi].meta.id@ != before[oj].meta.id@);
                        }
                    }
                    p = p + 1;
                }
            } else {
                proof {
                    assert(self.entries@ =~= remove_id(orig.subrange(0, p + 1), id@) + orig
                        .subrange(p + 1, n));
                    p = p + 1;
                }
                k += 1;
            }
        }
        proof {
            assert(orig.subrange(p, n).len() == 0);
            assert(p == n);
            assert(orig.subrange(0, n) =~= orig);
            assert(self.entries@ =~= remove_id(orig, id@));
        }
    }

    /// Index one library together with its open catalog reader; an entry
    /// already carrying the same identifier is replaced.
    pub fn insert_entry(&mut self, meta: LibraryMetadata, db: CalibreDb)
        ensures
            final(self).spec_entries() == remove_id(old(self).spec_entries(), meta.id@).push(
                (LibraryEntry { meta: meta, db: db }),
            ),
            old(self).wf() ==> final(self).wf(),
    {
        let ghost id_view = meta.id@;
        let entry = LibraryEntry { meta, db };
        let ghost e = entry;
        self.remove_entries_with_id(entry.meta.id.as_str());
        let ghost kept = self.entries@;
        self.entries.push(entry);
        proof {
            assert(self.entries@ =~= kept.push(e));
            if old(self).wf() {
                assert forall|i: int, j: int|
                    0 <= i < j < self.entries@.len() implies #[trigger] self.entries@[i].meta.id@
                    != #[trigger] self.entries@[j].meta.id@ by {
                    if j == self.entries@.len() - 1 {
                        assert(self.entries@[i] == kept[i]);
                        assert(self.entries@[j] == e);
                        assert(kept[i].meta.id@ != id_view);
                    } else {
                        assert(self.entries@[i] == kept[i]);
                        assert(self.entries@[j] == kept[j]);
                        assert(kept[i].meta.id@ != kept[j].meta.id@);
                    }
                }
            }
        }
    }

    /// Run the scanner under `base_path` and index what it finds; a library
    /// whose catalog cannot be opened is dropped, never fatal.
    pub fn load_libraries(&mut self, base_path: &str)
        ensures
            old(self).wf() ==> final(self).wf(),
            forall|i: int|
                0 <= i < final(self).spec_entries().len() ==> library_meta_shape(
                    #[trigger] final(self).spec_entries()[i].meta,
                ) || (exists|j: int|
                    0 <= j < old(self).spec_entries().len() && final(self).spec_entries()[i]
                        == old(self).spec_entries()[j]),
    {
        let scanner = LibraryScanner::new(base_path);
        let mut libraries = scanner.scan();
        while libraries.len() > 0
            invariant
                old(self).wf() ==> self.wf(),
                forall|i: int|
                    0 <= i < libraries@.len() ==> library_meta_shape(#[trigger] libraries@[i]),
                forall|i: int|
                    0 <= i < self.spec_entries().len() ==> library_meta_shape(
                        #[trigger] self.spec_entries()[i].meta,
                    ) || (exists|j: int|
                        0 <= j < old(self).spec_entries().len() && self.spec_entries()[i] == old(
                            self,
                        ).spec_entries()[j]),
            decreases libraries@.len(),
        {
            let ghost entries_pre = self.spec_entries();
            let lib = libraries.remove(0);
            match CalibreDb::open(lib.metadata_db_path.as_str()) {
                Ok(db) => {
                    let ghost lib_snap = lib;
                    self.insert_entry(lib, db);
                    proof {
                        broadcast use vstd::seq_lib::group_filter_ensures;

                        assert forall|i: int|
                            0 <= i < self.spec_entries().len() implies library_meta_shape(
                            #[trigger] self.spec_entries()[i].meta,
                        ) || (exists|j: int|
                            0 <= j < old(self).spec_entries().len() && self.spec_entries()[i]
                                == old(self).spec_entries()[j]) by {
                            let kept = remove_id(entries_pre, lib_snap.id@);
                            if i < kept.len() {
                                assert(self.spec_entries()[i] == kept[i]);
                                crate::text::lemma_filter_element_origin(
                                    entries_pre,
                                    |e: LibraryEntry| e.meta.id@ != lib_snap.id@,
                                    i,
                                );
                                let w = choose|w: int|
                                    0 <= w < entries_pre.len() && entries_pre[w] == kept[i];
                                assert(library_meta_shape(entries_pre[w].meta) || (exists|j: int|
                                    0 <= j < old(self).spec_entries().len() && entries_pre[w]
                                        == old(self).spec_entries()[j]));
                            } else {
                                assert(self.spec_entries()[i].meta == lib_snap);
                            }
                        }
                    }
                },
                Err(_) => {},
            }
        }
    }

    /// Atomically replace the whole index with what a fresh scan of
    /// `base_path` finds. Every surviving entry is a scanned one.
    pub fn rebuild(&mut self, base_path: &str)
        ensures
            final(self).wf(),
            forall|i: int|
                0 <= i < final(self).spec_entries().len() ==> library_meta_shape(
                    #[trigger] final(self).spec_entries()[i].meta,
                ),
    {
        self.clear();
        let ghost cleared = *self;
        self.load_libraries(base_path);
        proof {
            assert(cleared.wf());
        }
    }

    /// The indexed library records, sorted by name.
    pub fn get_libraries(&self) -> (r: Vec<LibraryMetadata>)
        ensures
            sorted_by_name(r@),
            r@.to_multiset() == self.spec_entries().map_values(
                |e: LibraryEntry| e.meta,
            ).to_multiset(),
            self.spec_entries().len() == 0 ==> r@ == Seq::<LibraryMetadata>::empty(),
    {
        let n = self.entries.len();
        let mut metas: Vec<LibraryMetadata> = Vec::new();
        let mut k: usize = 0;
        proof {
            assert(self.spec_entries().subrange(0, 0).map_values(|e: LibraryEntry| e.meta)
                =~= Seq::<LibraryMetadata>::empty());
        }
        while k < n
            invariant
                n == self.spec_entries().len(),
                0 <= k <= n,
                metas@ == self.spec_entries().subrange(0, k as int).map_values(
                    |e: LibraryEntry| e.meta,
                ),
            decreases n - k,
        {
            let m = self.entries[k].meta.duplicate();
            metas.push(m);
            proof {
                assert(self.spec_entries().subrange(0, k + 1).map_values(
                    |e: LibraryEntry| e.meta,
                ) =~= self.spec_entries().subrange(0, k as int).map_values(
                    |e: LibraryEntry| e.meta,
                ).push(self.spec_entries()[k as int].meta));
            }
            k += 1;
        }
        proof {
            assert(self.spec_entries().subrange(0, n as int) =~= self.spec_entries());
        }
        let r = sort_by_name_vec(metas);
        proof {
            if self.spec_entries().len() == 0 {
                lemma_cleared_cache_lists_nothing(*self, r@);
            }
        }
        r
    }

    /// The record of the library with identifier `id`, when it is indexed.
    pub fn get_library(&self, id: &str) -> (r: Option<&LibraryMetadata>)
        ensures
            r is Some <==> has_id(self.spec_entries(), id@),
            r matches Some(m) ==> *m == self.spec_entries()[first_with_id(
                self.spec_entries(),
                id@,
            ) as int].meta,
    {
        let n = self.entries.len();
        let mut k: usize = 0;
        while k < n
            invariant
                n == self.spec_entries().len(),
                0 <= k <= n,
                forall|j: int| 0 <= j < k ==> self.spec_entries()[j].meta.id@ != id@,
            decreases n - k,
        {
            if str_eq(self.entries[k].meta.id.as_str(), id) {
                proof {
                    lemma_first_with_id_at(self.spec_entries(), id@, k as int);
                }
                return Some(&self.entries[k].meta);
            }
            k += 1;
        }
        proof {
            lemma_first_with_id_at(self.spec_entries(), id@, n as int);
        }
        None
    }

    /// The open catalog reader of the library with identifier `id`, when it
    /// is indexed.
    pub fn get_database(&self, id: &str) -> (r: Option<&CalibreDb>)
        ensures
            r is Some <==> has_id(self.spec_entries(), id@),
    {
        let n = self.entries.len();
        let mut k: usize = 0;
        while k < n
            invariant
                n == self.spec_entries().len(),
                0 <= k <= n,
                forall|j: int| 0 <= j < k ==> self.spec_entries()[j].meta.id@ != id@,
            decreases n - k,
        {
            if str_eq(self.entries[k].meta.id.as_str(), id) {
                proof {
                    lemma_first_with_id_at(self.spec_entries(), id@, k as int);
                }
                return Some(&self.entries[k].db);
            }
            k += 1;
        }
        proof {
            lemma_first_with_id_at(self.spec_entries(), id@, n as int);
        }
        None
    }
}

/// A cleared index lists nothing: any listing whose records are exactly the
/// records of an empty index is itself empty.
pub proof fn lemma_cleared_cache_lists_nothing(c: LibraryCache, listed: Seq<LibraryMetadata>)
    requires
        c.spec_entries().len() == 0,
        listed.to_multiset() == c.spec_entries().map_values(|e: LibraryEntry| e.meta).to_multiset(),
    ensures
        listed == Seq::<LibraryMetadata>::empty(),
{
    broadcast use vstd::seq_lib::group_to_multiset_ensures;

    let empty = Seq::<LibraryMetadata>::empty();
    assert(c.spec_entries().map_values(|e: LibraryEntry| e.meta) =~= empty);
    assert(empty.to_multiset().len() == empty.len());
    assert(listed.to_multiset().len() == listed.len());
    assert(listed.len() == 0);
    assert(listed =~= empty);
}

} // verus!
