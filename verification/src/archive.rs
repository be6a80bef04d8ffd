//! The archive catalog: an invariant-bearing model of the storage directory.
//!
//! A stored file is identified by its client-supplied name, and a name
//! identifies at most one stored file at any instant. The catalog is viewed
//! abstractly as a map from name to byte content; every operation states its
//! effect on that map.

use crate::types::ArchiveError;
use vstd::prelude::*;

verus! {

/// One stored item: the client-supplied name and the byte content.
pub struct StoredFile {
    pub name: String,
    pub content: Vec<u8>,
}

/// No two stored files share a name.
pub open spec fn names_unique(files: Seq<StoredFile>) -> bool {
    forall|i: int, j: int|
        0 <= i < j < files.len() ==> (#[trigger] files[i].name@) != (#[trigger] files[j].name@)
}

/// Some stored file carries the name `n`.
pub open spec fn has_name(files: Seq<StoredFile>, n: Seq<char>) -> bool {
    exists|i: int| 0 <= i < files.len() && (#[trigger] files[i].name@) == n
}

/// The position of the stored file named `n`, when one exists.
pub open spec fn index_of_name(files: Seq<StoredFile>, n: Seq<char>) -> int {
    choose|i: int| 0 <= i < files.len() && (#[trigger] files[i].name@) == n
}

/// The abstract catalog: each stored name mapped to its byte content.
pub open spec fn catalog_of(files: Seq<StoredFile>) -> Map<Seq<char>, Seq<u8>> {
    Map::new(
        |n: Seq<char>| has_name(files, n),
        |n: Seq<char>| files[index_of_name(files, n)].content@,
    )
}

/// When names are unique, the position of a name is the position of any file
/// that carries it.
proof fn lemma_name_index_unique(files: Seq<StoredFile>, n: Seq<char>, i: int)
    requires
        names_unique(files),
        0 <= i < files.len(),
        files[i].name@ == n,
    ensures
        has_name(files, n),
        index_of_name(files, n) == i,
{
    assert(has_name(files, n));
    let j = index_of_name(files, n);
    assert(0 <= j < files.len() && files[j].name@ == n);
    if i < j {
        assert(files[i].name@ != files[j].name@);
    } else if j < i {
        assert(files[j].name@ != files[i].name@);
    }
}

/// Replacing the file at a position by one of the same name updates exactly
/// that name's content in the catalog.
proof fn lemma_catalog_update(files: Seq<StoredFile>, i: int, f: StoredFile)
    requires
        names_unique(files),
        0 <= i < files.len(),
        files[i].name@ == f.name@,
    ensures
        names_unique(files.update(i, f)),
        catalog_of(files.update(i, f)) =~= catalog_of(files).insert(f.name@, f.content@),
{
    let files2 = files.update(i, f);
    assert(forall|k: int| 0 <= k < files.len() ==> (#[trigger] files2[k].name@) == files[k].name@);
    assert(names_unique(files2));
    assert forall|n: Seq<char>| #[trigger]
        has_name(files2, n) implies has_name(files, n) by {
        let k = choose|k: int| 0 <= k < files2.len() && (#[trigger] files2[k].name@) == n;
        assert(files[k].name@ == n);
    }
    assert forall|n: Seq<char>| #[trigger]
        has_name(files, n) implies has_name(files2, n) by {
        let k = choose|k: int| 0 <= k < files.len() && (#[trigger] files[k].name@) == n;
        assert(files2[k].name@ == n);
    }
    assert(files2[i].name@ == f.name@);
    assert(has_name(files2, f.name@));
    let lhs = catalog_of(files2);
    let rhs = catalog_of(files).insert(f.name@, f.content@);
    assert forall|n: Seq<char>| lhs.dom().contains(n) implies #[trigger] lhs[n] == rhs[n] by {
        assert(has_name(files2, n));
        let k = index_of_name(files2, n);
        assert(0 <= k < files2.len() && files2[k].name@ == n);
        if n == f.name@ {
            lemma_name_index_unique(files2, n, i);
            assert(lhs[n] == f.content@);
        } else {
            assert(k != i);
            assert(files[k].name@ == n);
            lemma_name_index_unique(files, n, k);
            lemma_name_index_unique(files2, n, k);
            assert(lhs[n] == files[k].content@);
            assert(rhs[n] == catalog_of(files)[n]);
            assert(catalog_of(files)[n] == files[k].content@);
        }
    }
    assert forall|n: Seq<char>| #[trigger] rhs.dom().contains(n) implies lhs.dom().contains(n) by {
        if n != f.name@ {
            assert(has_name(files, n));
            assert(has_name(files2, n));
        }
    }
    assert(lhs =~= rhs);
}

/// Adding a file under a fresh name adds exactly that name to the catalog.
proof fn lemma_catalog_push(files: Seq<StoredFile>, f: StoredFile)
    requires
        names_unique(files),
        !has_name(files, f.name@),
    ensures
        names_unique(files.push(f)),
        catalog_of(files.push(f)) =~= catalog_of(files).insert(f.name@, f.content@),
{
    let files2 = files.push(f);
    assert forall|i: int, j: int|
        0 <= i < j < files2.len() implies (#[trigger] files2[i].name@) != (#[trigger] files2[j].name@) by {
        if j == files.len() {
            assert(files2[i].name@ == files[i].name@);
            if files[i].name@ == f.name@ {
                assert(has_name(files, f.name@));
            }
        } else {
            assert(files2[i].name@ == files[i].name@);
            assert(files2[j].name@ == files[j].name@);
        }
    }
    assert forall|n: Seq<char>| #[trigger]
        has_name(files2, n) implies has_name(files, n) || n == f.name@ by {
        let k = choose|k: int| 0 <= k < files2.len() && (#[trigger] files2[k].name@) == n;
        if k < files.len() {
            assert(files[k].name@ == n);
        }
    }
    assert forall|n: Seq<char>| #[trigger]
        has_name(files, n) implies has_name(files2, n) by {
        let k = choose|k: int| 0 <= k < files.len() && (#[trigger] files[k].name@) == n;
        assert(files2[k].name@ == n);
    }
    assert(files2[files.len() as int].name@ == f.name@);
    assert(has_name(files2, f.name@));
    assert forall|n: Seq<char>| has_name(files2, n) implies #[trigger] catalog_of(files2)[n]
        == catalog_of(files).insert(f.name@, f.content@)[n] by {
        if n == f.name@ {
            lemma_name_index_unique(files2, n, files.len() as int);
            assert(catalog_of(files2)[n] == f.content@);
        } else {
            let k = choose|k: int| 0 <= k < files.len() && (#[trigger] files[k].name@) == n;
            lemma_name_index_unique(files, n, k);
            lemma_name_index_unique(files2, n, k);
            assert(catalog_of(files2)[n] == files[k].content@);
        }
    }
}

/// Removing the file at a position removes exactly its name from the catalog.
proof fn lemma_catalog_remove(files: Seq<StoredFile>, i: int)
    requires
        names_unique(files),
        0 <= i < files.len(),
    ensures
        names_unique(files.remove(i)),
        catalog_of(files.remove(i)) =~= catalog_of(files).remove(files[i].name@),
{
    let files2 = files.remove(i);
    assert(forall|k: int|
        0 <= k < i ==> (#[trigger] files2[k].name@) == files[k].name@);
    assert(forall|k: int|
        i <= k < files2.len() ==> (#[trigger] files2[k].name@) == files[k + 1].name@);
    assert forall|k: int, l: int|
        0 <= k < l < files2.len() implies (#[trigger] files2[k].name@) != (#[trigger] files2[l].name@) by {
        let k0 = if k < i { k } else { k + 1 };
        let l0 = if l < i { l } else { l + 1 };
        assert(files2[k].name@ == files[k0].name@);
        assert(files2[l].name@ == files[l0].name@);
        assert(files[k0].name@ != files[l0].name@);
    }
    assert forall|n: Seq<char>| #[trigger]
        has_name(files2, n) implies has_name(files, n) && n != files[i].name@ by {
        let k = choose|k: int| 0 <= k < files2.len() && (#[trigger] files2[k].name@) == n;
        let k0 = if k < i { k } else { k + 1 };
        assert(files[k0].name@ == n);
        if n == files[i].name@ {
            lemma_name_index_unique(files, n, k0);
            lemma_name_index_unique(files, n, i);
        }
    }
    assert forall|n: Seq<char>|
        has_name(files, n) && n != files[i].name@ implies #[trigger] has_name(files2, n) by {
        let k = choose|k: int| 0 <= k < files.len() && (#[trigger] files[k].name@) == n;
        assert(k != i);
        let k2 = if k < i { k } else { k - 1 };
        assert(files2[k2].name@ == n);
    }
    assert forall|n: Seq<char>| has_name(files2, n) implies #[trigger] catalog_of(files2)[n]
        == catalog_of(files).remove(files[i].name@)[n] by {
        let k = index_of_name(files2, n);
        assert(0 <= k < files2.len() && files2[k].name@ == n);
        let k0 = if k < i { k } else { k + 1 };
        assert(files[k0].name@ == n);
        assert(files2[k].content@ == files[k0].content@);
        lemma_name_index_unique(files, n, k0);
        lemma_name_index_unique(files2, n, k);
        assert(catalog_of(files2)[n] == files2[k].content@);
        assert(catalog_of(files)[n] == files[k0].content@);
    }
}

/// The views of a sequence of owned names.
pub open spec fn name_views(names: Seq<String>) -> Seq<Seq<char>> {
    names.map_values(|s: String| s@)
}

/// In-memory model of the storage directory: the catalog of stored files.
///
/// Abstractly a map from filename to byte content; a name identifies at most
/// one stored file at any instant. The catalog keeps no other index: listing
/// re-enumerates the stored files on every call.
pub struct Archive {
    files: Vec<StoredFile>,
}

impl View for Archive {
    type V = Map<Seq<char>, Seq<u8>>;

    closed spec fn view(&self) -> Map<Seq<char>, Seq<u8>> {
        catalog_of(self.files@)
    }
}

impl Archive {
    /// The catalog's invariant: no two stored files share a name.
    pub closed spec fn wf(&self) -> bool {
        names_unique(self.files@)
    }

    /// An empty archive: no file is stored under any name.
    pub fn new() -> (a: Archive)
        ensures
            a.wf(),
            a@ == Map::<Seq<char>, Seq<u8>>::empty(),
    {
        let a = Archive { files: Vec::new() };
        proof {
            assert(a@ =~= Map::<Seq<char>, Seq<u8>>::empty());
        }
        a
    }

    /// The position of the file named `name`, or `None` when no file carries
    /// that name.
    fn find(&self, name: &String) -> (r: Option<usize>)
        ensures
            match r {
                Some(i) => 0 <= i < self.files@.len() && self.files@[i as int].name@ == name@,
                None => !has_name(self.files@, name@),
            },
    {
        let mut i: usize = 0;
        while i < self.files.len()
            invariant
                i <= self.files@.len(),
                forall|k: int| 0 <= k < i ==> (#[trigger] self.files@[k].name@) != name@,
            decreases self.files@.len() - i,
        {
            if self.files[i].name == *name {
                return Some(i);
            }
            i += 1;
        }
        None
    }

    /// Whether a file is stored under `name`.
    pub fn contains(&self, name: &String) -> (r: bool)
        requires
            self.wf(),
        ensures
            r == self@.dom().contains(name@),
    {
        match self.find(name) {
            Some(i) => {
                proof {
                    lemma_name_index_unique(self.files@, name@, i as int);
                }
                true
            },
            None => false,
        }
    }

    /// Store `content` under `name`: afterwards the catalog maps `name` to
    /// `content` and every other name to what it held before. Re-uploading an
    /// existing name overwrites its content.
    pub fn store(&mut self, name: String, content: Vec<u8>)
        requires
            old(self).wf(),
        ensures
            final(self).wf(),
            final(self)@ == old(self)@.insert(name@, content@),
    {
        match self.find(&name) {
            Some(i) => {
                proof {
                    lemma_catalog_update(self.files@, i as int, StoredFile { name, content });
                }
                self.files.set(i, StoredFile { name, content });
            },
            None => {
                proof {
                    lemma_catalog_push(self.files@, StoredFile { name, content });
                }
                self.files.push(StoredFile { name, content });
            },
        }
    }

    /// Borrow the content stored under `name`, or report that the name is
    /// absent.
    pub fn read(&self, name: &String) -> (r: Result<&Vec<u8>, ArchiveError>)
        requires
            self.wf(),
        ensures
            self@.dom().contains(name@) ==> (r matches Ok(c) && c@ == self@[name@]),
            !self@.dom().contains(name@) ==> (r matches Err(e) && e == ArchiveError::NotFound),
    {
        match self.find(name) {
            Some(i) => {
                proof {
                    lemma_name_index_unique(self.files@, name@, i as int);
                }
                Ok(&self.files[i].content)
            },
            None => Err(ArchiveError::NotFound),
        }
    }

    /// Remove the file stored under `name`. When the name is present the
    /// catalog afterwards no longer maps it; when it is absent the archive is
    /// unchanged and the call reports `NotFound`.
    pub fn delete(&mut self, name: &String) -> (r: Result<(), ArchiveError>)
        requires
            old(self).wf(),
        ensures
            final(self).wf(),
            old(self)@.dom().contains(name@) ==> (r is Ok && final(self)@ == old(self)@.remove(
                name@,
            )),
            !old(self)@.dom().contains(name@) ==> (r matches Err(e) && e == ArchiveError::NotFound
                && final(self)@ == old(self)@),
    {
        match self.find(name) {
            Some(i) => {
                proof {
                    lemma_name_index_unique(self.files@, name@, i as int);
                    lemma_catalog_remove(self.files@, i as int);
                }
                let _ = self.files.remove(i);
                Ok(())
            },
            None => Err(ArchiveError::NotFound),
        }
    }

    /// Enumerate the stored names: exactly the catalog's domain, each name
    /// once.
    pub fn list(&self) -> (names: Vec<String>)
        requires
            self.wf(),
        ensures
            name_views(names@).to_set() == self@.dom(),
            name_views(names@).no_duplicates(),
    {
        let mut names: Vec<String> = Vec::new();
        let mut i: usize = 0;
        while i < self.files.len()
            invariant
                i <= self.files@.len(),
                names@.len() == i,
                forall|k: int| 0 <= k < i ==> (#[trigger] names@[k])@ == self.files@[k].name@,
            decreases self.files@.len() - i,
        {
            names.push(self.files[i].name.clone());
            i += 1;
        }
        proof {
            let nv = name_views(names@);
            assert(forall|k: int| 0 <= k < nv.len() ==> (#[trigger] nv[k]) == self.files@[k].name@);
            assert forall|n: Seq<char>| #[trigger]
                nv.to_set().contains(n) implies self@.dom().contains(n) by {
                let k = choose|k: int| 0 <= k < nv.len() && nv[k] == n;
                assert(self.files@[k].name@ == n);
                assert(has_name(self.files@, n));
            }
            assert forall|n: Seq<char>| #[trigger]
                self@.dom().contains(n) implies nv.to_set().contains(n) by {
                let k = choose|k: int|
                    0 <= k < self.files@.len() && (#[trigger] self.files@[k].name@) == n;
                assert(nv[k] == n);
                assert(nv.contains(n));
            }
            assert(nv.to_set() =~= self@.dom());
            assert forall|k: int, l: int|
                0 <= k < nv.len() && 0 <= l < nv.len() && k != l implies nv[k] != nv[l] by {
                if k < l {
                    assert(self.files@[k].name@ != self.files@[l].name@);
                } else {
                    assert(self.files@[l].name@ != self.files@[k].name@);
                }
            }
        }
        names
    }
}

} // verus!
