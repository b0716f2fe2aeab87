use vstd::prelude::*;

use crate::document::{
    summary_of, DocView, Document, DocumentSummary, SeedFile, SeedView, SummaryView,
};
use crate::order::{lemma_bytes_le_total, lemma_bytes_le_transitive, name_le, names_in_order};
use crate::StoreError;

verus! {

/// The mathematical value of a `DocumentStore`: its documents in order of
/// insertion, and the identifier that the next inserted document receives.
pub struct StoreView {
    pub documents: Seq<DocView>,
    pub next_identifier: u64,
}

/// The documents, owned by one handle; every operation goes through it.
pub struct DocumentStore {
    documents: Vec<Document>,
    next_identifier: u64,
}

impl View for DocumentStore {
    type V = StoreView;

    closed spec fn view(&self) -> StoreView {
        StoreView {
            documents: self.documents@.map_values(|d: Document| d@),
            next_identifier: self.next_identifier,
        }
    }
}

/// Identifiers are positive, below the next one to hand out, and strictly
/// increase in order of insertion (so no two documents share one).
pub open spec fn well_formed(s: StoreView) -> bool {
    &&& 1 <= s.next_identifier
    &&& forall|i: int|
        0 <= i < s.documents.len() ==> 1 <= #[trigger] s.documents[i].identifier
            < s.next_identifier
    &&& forall|i: int, j: int|
        0 <= i < j < s.documents.len() ==> #[trigger] s.documents[i].identifier
            < #[trigger] s.documents[j].identifier
}

/// Some document carries identifier `id`.
pub open spec fn has_identifier(s: StoreView, id: u64) -> bool {
    exists|i: int| 0 <= i < s.documents.len() && #[trigger] s.documents[i].identifier == id
}

/// Some document is named `name`.
pub open spec fn has_name(s: StoreView, name: Seq<char>) -> bool {
    exists|i: int| 0 <= i < s.documents.len() && #[trigger] s.documents[i].name == name
}

/// The document with a new text in place of its old one.
pub open spec fn with_contents(d: DocView, contents: Seq<char>) -> DocView {
    DocView { identifier: d.identifier, name: d.name, version: d.version, contents }
}

/// The store after the document with identifier `id` has had its text
/// replaced by `contents`; its version stays as it was.
pub open spec fn replaced(s: StoreView, id: u64, contents: Seq<char>) -> StoreView {
    StoreView {
        documents: s.documents.map_values(
            |d: DocView|
                if d.identifier == id {
                    with_contents(d, contents)
                } else {
                    d
                },
        ),
        next_identifier: s.next_identifier,
    }
}

/// The views of the seed files, in order.
pub open spec fn seed_views(files: Seq<SeedFile>) -> Seq<SeedView> {
    files.map_values(|f: SeedFile| f@)
}

/// One file of a seeding run: a name already present is left alone (its
/// stored text is kept); a new name is inserted at version 1 with the file's
/// text under the next identifier. `None` when identifiers are exhausted.
pub open spec fn seed_step(s: StoreView, f: SeedView) -> Option<StoreView> {
    if has_name(s, f.name) {
        Some(s)
    } else if s.next_identifier == u64::MAX {
        None
    } else {
        Some(
            StoreView {
                documents: s.documents.push(
                    DocView {
                        identifier: s.next_identifier,
                        name: f.name,
                        version: 1,
                        contents: f.contents,
                    },
                ),
                next_identifier: (s.next_identifier + 1) as u64,
            },
        )
    }
}

/// The store after seeding from `files`, taken in order.
pub open spec fn seeded(s: StoreView, files: Seq<SeedView>) -> Option<StoreView>
    decreases files.len(),
{
    if files.len() == 0 {
        Some(s)
    } else {
        match seeded(s, files.drop_last()) {
            Some(t) => seed_step(t, files.last()),
            None => None,
        }
    }
}

/// A run that fails on a prefix of the files fails on all of them.
proof fn lemma_seeded_fails_on(s: StoreView, files: Seq<SeedView>, n: int)
    requires
        0 <= n <= files.len(),
        seeded(s, files.take(n)) is None,
    ensures
        seeded(s, files) is None,
    decreases files.len() - n,
{
    if n < files.len() {
        assert(files.take(n + 1).drop_last() =~= files.take(n));
        lemma_seeded_fails_on(s, files, n + 1);
    } else {
        assert(files.take(n) =~= files);
    }
}

/// The listing entries of the store's documents, in order of insertion.
pub open spec fn summaries(s: StoreView) -> Seq<SummaryView> {
    s.documents.map_values(|d: DocView| summary_of(d))
}

/// The views of a sequence of listing entries.
pub open spec fn summary_views(v: Seq<DocumentSummary>) -> Seq<SummaryView> {
    v.map_values(|x: DocumentSummary| x@)
}

/// Entries stand in ascending order of name.
pub open spec fn sorted_by_name(v: Seq<SummaryView>) -> bool {
    forall|i: int, j: int| 0 <= i < j < v.len() ==> name_le(#[trigger] v[i].name, #[trigger] v[j].name)
}

/// Documents as storage hands them back can form a store: identifiers are
/// positive, strictly increasing, and leave room for a next one.
pub open spec fn restorable(documents: Seq<DocView>) -> bool {
    &&& forall|i: int|
        0 <= i < documents.len() ==> 1 <= #[trigger] documents[i].identifier < u64::MAX
    &&& forall|i: int, j: int|
        0 <= i < j < documents.len() ==> #[trigger] documents[i].identifier
            < #[trigger] documents[j].identifier
}

/// The identifier that follows the stored ones.
pub open spec fn following_identifier(documents: Seq<DocView>) -> u64 {
    if documents.len() == 0 {
        1
    } else {
        (documents.last().identifier + 1) as u64
    }
}

/// The views of a sequence of documents.
pub open spec fn document_views(v: Seq<Document>) -> Seq<DocView> {
    v.map_values(|d: Document| d@)
}

impl DocumentStore {
    /// A store that holds no document yet.
    pub fn new() -> (r: DocumentStore)
        ensures
            r@.documents.len() == 0,
            r@.next_identifier == 1,
            well_formed(r@),
    {
        DocumentStore { documents: Vec::new(), next_identifier: 1 }
    }

    /// The position of the document with identifier `id`, if there is one.
    fn position_of(&self, id: u64) -> (r: Option<usize>)
        requires
            well_formed(self@),
        ensures
            r is None <==> !has_identifier(self@, id),
            r matches Some(i) ==> i < self@.documents.len()
                && self@.documents[i as int].identifier == id,
    {
        let mut i: usize = 0;
        while i < self.documents.len()
            invariant
                i <= self.documents@.len(),
                forall|k: int| 0 <= k < i ==> #[trigger] self@.documents[k].identifier != id,
            decreases self.documents@.len() - i,
        {
            if self.documents[i].identifier == id {
                assert(self@.documents[i as int].identifier == id);
                return Some(i);
            }
            i += 1;
        }
        None
    }

    /// Whether some document is named `name`.
    fn contains_name(&self, name: &String) -> (r: bool)
        ensures
            r == has_name(self@, name@),
    {
        let mut i: usize = 0;
        while i < self.documents.len()
            invariant
                i <= self.documents@.len(),
                forall|k: int| 0 <= k < i ==> #[trigger] self@.documents[k].name != name@,
            decreases self.documents@.len() - i,
        {
            if self.documents[i].name == *name {
                assert(self@.documents[i as int].name == name@);
                return true;
            }
            i += 1;
        }
        false
    }

    /// Makes sure every seed file has a document of its name: a file whose
    /// name is already stored is skipped, its stored text kept; any other is
    /// inserted at version 1 with the file's text. Fails with `StorageError`
    /// exactly when the identifiers run out.
    pub fn reconcile(&mut self, files: &Vec<SeedFile>) -> (r: Result<(), StoreError>)
        requires
            well_formed(old(self)@),
        ensures
            well_formed(final(self)@),
            r is Ok <==> seeded(old(self)@, seed_views(files@)) is Some,
            r is Ok ==> seeded(old(self)@, seed_views(files@)) == Some(final(self)@),
            r matches Err(e) ==> e == StoreError::StorageError,
    {
        let ghost start = self@;
        let ghost all = seed_views(files@);
        let mut i: usize = 0;
        assert(all.take(0) =~= Seq::<SeedView>::empty());
        while i < files.len()
            invariant
                i <= files@.len(),
                all == seed_views(files@),
                start == old(self)@,
                well_formed(self@),
                seeded(start, all.take(i as int)) == Some(self@),
            decreases files@.len() - i,
        {
            let ghost before = self@;
            assert(all.take(i + 1).drop_last() =~= all.take(i as int));
            assert(all.take(i + 1).last() == files@[i as int]@);
            let f = &files[i];
            if !self.contains_name(&f.name) {
                if self.next_identifier == u64::MAX {
                    proof {
                        assert(seed_step(before, all.take(i + 1).last()) is None);
                        assert(seeded(start, all.take(i + 1)) is None);
                        lemma_seeded_fails_on(start, all, i + 1);
                    }
                    return Err(StoreError::StorageError);
                }
                let d = Document {
                    identifier: self.next_identifier,
                    name: f.name.clone(),
                    version: 1,
                    contents: f.contents.clone(),
                };
                self.documents.push(d);
                self.next_identifier = self.next_identifier + 1;
                proof {
                    assert(self@.documents =~= before.documents.push(d@));
                }
            }
            i += 1;
        }
        assert(all.take(files@.len() as int) =~= all);
        Ok(())
    }

    /// One entry per document (identifier, name, version; no contents),
    /// in ascending order of name.
    pub fn list_documents(&self) -> (r: Vec<DocumentSummary>)
        ensures
            sorted_by_name(summary_views(r@)),
            summary_views(r@).to_multiset() == summaries(self@).to_multiset(),
    {
        broadcast use vstd::seq_lib::group_to_multiset_ensures;

        let mut out: Vec<DocumentSummary> = Vec::new();
        let mut k: usize = 0;
        assert(summaries(self@).take(0) =~= Seq::<SummaryView>::empty());
        assert(summary_views(out@) =~= Seq::<SummaryView>::empty());
        while k < self.documents.len()
            invariant
                k <= self.documents@.len(),
                sorted_by_name(summary_views(out@)),
                summary_views(out@).to_multiset() == summaries(self@).take(k as int).to_multiset(),
            decreases self.documents@.len() - k,
        {
            let x = self.documents[k].summary();
            let mut p: usize = 0;
            while p < out.len() && names_in_order(&out[p].name, &x.name)
                invariant
                    p <= out@.len(),
                    forall|q: int| 0 <= q < p ==> name_le(#[trigger] out@[q]@.name, x@.name),
                decreases out@.len() - p,
            {
                p += 1;
            }
            let ghost o = summary_views(out@);
            let ghost xv = x@;
            out.insert(p, x);
            proof {
                let n = summary_views(out@);
                assert(n =~= o.insert(p as int, xv));
                if p < o.len() {
                    lemma_bytes_le_total(
                        crate::order::name_bytes(xv.name),
                        crate::order::name_bytes(o[p as int].name),
                    );
                }
                assert forall|i: int, j: int| 0 <= i < j < n.len() implies name_le(
                    #[trigger] n[i].name,
                    #[trigger] n[j].name,
                ) by {
                    if j < p {
                        assert(name_le(o[i].name, o[j].name));
                    } else if j == p {
                        assert(name_le(o[i].name, xv.name));
                    } else if i == p {
                        if j - 1 > p {
                            assert(name_le(o[p as int].name, o[j - 1].name));
                            lemma_bytes_le_transitive(
                                crate::order::name_bytes(xv.name),
                                crate::order::name_bytes(o[p as int].name),
                                crate::order::name_bytes(o[j - 1].name),
                            );
                        }
                    } else if i < p {
                        assert(name_le(o[i].name, o[j - 1].name));
                    } else {
                        assert(name_le(o[i - 1].name, o[j - 1].name));
                    }
                }
                vstd::seq_lib::to_multiset_insert(o, p as int, xv);
                assert(summaries(self@)[k as int] == xv);
                vstd::seq_lib::to_multiset_build(summaries(self@).take(k as int), xv);
                assert(summaries(self@).take(k + 1) =~= summaries(self@).take(k as int).push(xv));
            }
            k += 1;
        }
        assert(summaries(self@).take(self.documents@.len() as int) =~= summaries(self@));
        out
    }

    /// The store that holds `documents`, as storage handed them back;
    /// `None` when they cannot form one.
    pub fn restore(documents: Vec<Document>) -> (r: Option<DocumentStore>)
        ensures
            r is Some <==> restorable(document_views(documents@)),
            r matches Some(s) ==> s@.documents == document_views(documents@)
                && s@.next_identifier == following_identifier(document_views(documents@))
                && well_formed(s@),
    {
        let ghost v = document_views(documents@);
        let mut i: usize = 0;
        while i < documents.len()
            invariant
                v == document_views(documents@),
                i <= documents@.len(),
                forall|k: int| 0 <= k < i ==> 1 <= #[trigger] v[k].identifier < u64::MAX,
                forall|a: int, b: int| 0 <= a < b < i ==> #[trigger] v[a].identifier < #[trigger] v[b].identifier,
            decreases documents@.len() - i,
        {
            let id = documents[i].identifier;
            if id < 1 || id == u64::MAX {
                assert(v[i as int].identifier == id);
                return None;
            }
            if i > 0 && documents[i - 1].identifier >= id {
                assert(v[i - 1].identifier >= v[i as int].identifier);
                return None;
            }
            i += 1;
        }
        let next = if documents.len() == 0 {
            1
        } else {
            assert(v[v.len() - 1].identifier < u64::MAX);
            documents[documents.len() - 1].identifier + 1
        };
        let s = DocumentStore { documents, next_identifier: next };
        proof {
            assert(s@.documents =~= v);
            if v.len() > 0 {
                assert forall|k: int| 0 <= k < v.len() implies #[trigger] v[k].identifier <= v.last().identifier by {
                    if k < v.len() - 1 {
                        assert(v[k].identifier < v[v.len() - 1].identifier);
                    }
                }
            }
        }
        Some(s)
    }

    /// Every document, contents included, in order of insertion: what
    /// storage keeps.
    pub fn documents(&self) -> (r: Vec<Document>)
        ensures
            document_views(r@) == self@.documents,
    {
        let mut out: Vec<Document> = Vec::new();
        let mut i: usize = 0;
        assert(self@.documents == document_views(self.documents@));
        while i < self.documents.len()
            invariant
                i <= self.documents@.len(),
                self@.documents == document_views(self.documents@),
                document_views(out@) =~= self@.documents.take(i as int),
            decreases self.documents@.len() - i,
        {
            let d = self.documents[i].duplicate();
            let ghost before = out@;
            out.push(d);
            proof {
                assert(out@ == before.push(d));
                assert(document_views(before.push(d)) =~= document_views(before).push(d@));
                assert(self@.documents.take(i + 1) =~= self@.documents.take(i as int).push(d@));
            }
            i += 1;
        }
        assert(self@.documents.take(i as int) =~= self@.documents);
        out
    }

    /// The identifier that the next inserted document receives.
    pub fn next_identifier(&self) -> (r: u64)
        ensures
            r == self@.next_identifier,
    {
        self.next_identifier
    }

    /// The document with identifier `id`, contents included.
    pub fn get_document(&self, id: u64) -> (r: Result<Document, StoreError>)
        requires
            well_formed(self@),
        ensures
            r is Ok <==> has_identifier(self@, id),
            r matches Err(e) ==> e == StoreError::NotFound,
            r matches Ok(d) ==> exists|i: int|
                0 <= i < self@.documents.len() && self@.documents[i].identifier == id
                    && #[trigger] self@.documents[i] == d@,
    {
        match self.position_of(id) {
            Some(i) => Ok(self.documents[i].duplicate()),
            None => Err(StoreError::NotFound),
        }
    }

    /// Overwrites the text of the document with identifier `id`; its version
    /// and every other document stay as they were.
    pub fn replace_content(&mut self, id: u64, new_contents: String) -> (r: Result<(), StoreError>)
        requires
            well_formed(old(self)@),
        ensures
            well_formed(final(self)@),
            r is Ok <==> has_identifier(old(self)@, id),
            r is Ok ==> final(self)@ == replaced(old(self)@, id, new_contents@),
            r matches Err(e) ==> e == StoreError::NotFound && final(self)@ == old(self)@,
    {
        match self.position_of(id) {
            Some(i) => {
                let ghost before = self@;
                let d = Document {
                    identifier: self.documents[i].identifier,
                    name: self.documents[i].name.clone(),
                    version: self.documents[i].version,
                    contents: new_contents,
                };
                self.documents.set(i, d);
                proof {
                    let goal = replaced(before, id, d.contents@);
                    assert forall|k: int| 0 <= k < self@.documents.len() implies
                        #[trigger] self@.documents[k] == goal.documents[k] by {
                        if k != i {
                            assert(before.documents[k].identifier
                                != before.documents[i as int].identifier);
                        }
                    }
                    assert(self@.documents =~= goal.documents);
                }
                Ok(())
            },
            None => Err(StoreError::NotFound),
        }
    }
}

} // verus!
