use vstd::prelude::*;

use crate::document::SeedView;
use crate::store::{has_identifier, has_name, replaced, seed_step, seeded, well_formed, StoreView};

verus! {

/// Every document of `s` stands unchanged at the same place in `t`.
pub open spec fn extends(s: StoreView, t: StoreView) -> bool {
    &&& s.documents.len() <= t.documents.len()
    &&& forall|i: int| 0 <= i < s.documents.len() ==> #[trigger] t.documents[i] == s.documents[i]
}

/// Seeding keeps what was stored and leaves a document for every file name.
proof fn lemma_seeded_extends(s: StoreView, files: Seq<SeedView>)
    requires
        seeded(s, files) is Some,
    ensures
        extends(s, seeded(s, files)->0),
        forall|k: int| 0 <= k < files.len() ==> has_name(seeded(s, files)->0, #[trigger] files[k].name),
    decreases files.len(),
{
    if files.len() > 0 {
        let rest = files.drop_last();
        lemma_seeded_extends(s, rest);
        let u = seeded(s, rest)->0;
        let t = seeded(s, files)->0;
        let f = files.last();
        if !has_name(u, f.name) {
            assert(t.documents[u.documents.len() as int].name == f.name);
        }
        assert forall|k: int| 0 <= k < files.len() implies has_name(t, #[trigger] files[k].name) by {
            if k < files.len() - 1 {
                assert(rest[k] == files[k]);
                let i = choose|i: int| 0 <= i < u.documents.len() && #[trigger] u.documents[i].name == files[k].name;
                assert(t.documents[i] == u.documents[i]);
            }
        }
    }
}

/// A store that already names every file is left as it is by seeding.
proof fn lemma_seeded_fixed(t: StoreView, files: Seq<SeedView>)
    requires
        forall|k: int| 0 <= k < files.len() ==> has_name(t, #[trigger] files[k].name),
    ensures
        seeded(t, files) == Some(t),
    decreases files.len(),
{
    if files.len() > 0 {
        let rest = files.drop_last();
        assert forall|k: int| 0 <= k < rest.len() implies has_name(t, #[trigger] rest[k].name) by {
            assert(rest[k] == files[k]);
        }
        lemma_seeded_fixed(t, rest);
        assert(has_name(t, files[files.len() - 1].name));
    }
}

/// Seeding twice from the same files gives the store that seeding once gave:
/// same identifiers, names, versions and contents.
pub proof fn lemma_reconcile_idempotent(s: StoreView, files: Seq<SeedView>)
    requires
        seeded(s, files) is Some,
    ensures
        seeded(seeded(s, files)->0, files) == seeded(s, files),
{
    lemma_seeded_extends(s, files);
    lemma_seeded_fixed(seeded(s, files)->0, files);
}

/// Every document after seeding was stored before, at the same place, or
/// carries the name of one of the files.
proof fn lemma_seeded_origin(s: StoreView, files: Seq<SeedView>)
    requires
        seeded(s, files) is Some,
    ensures
        forall|i: int|
            0 <= i < seeded(s, files)->0.documents.len() ==> (i < s.documents.len() && #[trigger] seeded(
                s,
                files,
            )->0.documents[i] == s.documents[i]) || exists|k: int|
                0 <= k < files.len() && seeded(s, files)->0.documents[i].name == #[trigger] files[k].name,
    decreases files.len(),
{
    if files.len() > 0 {
        let rest = files.drop_last();
        lemma_seeded_origin(s, rest);
        let u = seeded(s, rest)->0;
        let t = seeded(s, files)->0;
        assert forall|i: int| 0 <= i < t.documents.len() implies (i < s.documents.len()
            && #[trigger] t.documents[i] == s.documents[i]) || exists|k: int|
            0 <= k < files.len() && t.documents[i].name == #[trigger] files[k].name by {
            if i < u.documents.len() {
                assert(t.documents[i] == u.documents[i]);
                if !(i < s.documents.len() && u.documents[i] == s.documents[i]) {
                    let k = choose|k: int| 0 <= k < rest.len() && u.documents[i].name == #[trigger] rest[k].name;
                    assert(rest[k] == files[k]);
                }
            } else {
                assert(t.documents[i].name == files[files.len() - 1].name);
            }
        }
    }
}

/// Seeding a store that holds none of the files' names, from files with
/// distinct names, leaves exactly one document per file, with the file's
/// name, the file's text and version 1.
pub proof fn lemma_reconcile_complete(s: StoreView, files: Seq<SeedView>)
    requires
        seeded(s, files) is Some,
        forall|a: int, b: int|
            0 <= a < b < files.len() ==> #[trigger] files[a].name != #[trigger] files[b].name,
        forall|k: int| 0 <= k < files.len() ==> !has_name(s, #[trigger] files[k].name),
    ensures
        forall|k: int|
            0 <= k < files.len() ==> exists|i: int|
                0 <= i < seeded(s, files)->0.documents.len() && #[trigger] seeded(s, files)->0.documents[i].name
                    == #[trigger] files[k].name && seeded(s, files)->0.documents[i].contents
                    == files[k].contents && seeded(s, files)->0.documents[i].version == 1,
        forall|k: int, i: int, j: int|
            0 <= k < files.len() && 0 <= i < seeded(s, files)->0.documents.len() && 0 <= j
                < seeded(s, files)->0.documents.len() && #[trigger] seeded(s, files)->0.documents[i].name
                == files[k].name && #[trigger] seeded(s, files)->0.documents[j].name == #[trigger] files[k].name
                ==> i == j,
    decreases files.len(),
{
    if files.len() > 0 {
        let rest = files.drop_last();
        let n = files.len() - 1;
        let f = files[n];
        assert forall|a: int, b: int| 0 <= a < b < rest.len() implies #[trigger] rest[a].name
            != #[trigger] rest[b].name by {
            assert(rest[a] == files[a] && rest[b] == files[b]);
        }
        assert forall|k: int| 0 <= k < rest.len() implies !has_name(s, #[trigger] rest[k].name) by {
            assert(rest[k] == files[k]);
        }
        lemma_reconcile_complete(s, rest);
        lemma_seeded_origin(s, rest);
        let u = seeded(s, rest)->0;
        let t = seeded(s, files)->0;
        assert(!has_name(u, f.name)) by {
            if has_name(u, f.name) {
                let i = choose|i: int| 0 <= i < u.documents.len() && #[trigger] u.documents[i].name == f.name;
                if !(i < s.documents.len() && u.documents[i] == s.documents[i]) {
                    let k = choose|k: int| 0 <= k < rest.len() && u.documents[i].name == #[trigger] rest[k].name;
                    assert(rest[k] == files[k]);
                } else {
                    assert(has_name(s, files[n].name));
                }
            }
        }
        assert(f == files.last());
        assert(t.documents == u.documents.push(t.documents[u.documents.len() as int]));
        let m = u.documents.len() as int;
        assert forall|k: int| 0 <= k < files.len() implies exists|i: int|
            0 <= i < t.documents.len() && #[trigger] t.documents[i].name == #[trigger] files[k].name
                && t.documents[i].contents == files[k].contents && t.documents[i].version == 1 by {
            if k < n {
                assert(rest[k] == files[k]);
                let i = choose|i: int|
                    0 <= i < u.documents.len() && #[trigger] u.documents[i].name == #[trigger] rest[k].name
                        && u.documents[i].contents == rest[k].contents && u.documents[i].version == 1;
                assert(t.documents[i] == u.documents[i]);
            } else {
                assert(t.documents[m].name == files[k].name);
            }
        }
        assert forall|k: int, i: int, j: int|
            0 <= k < files.len() && 0 <= i < t.documents.len() && 0 <= j < t.documents.len()
                && #[trigger] t.documents[i].name == files[k].name && #[trigger] t.documents[j].name
                == #[trigger] files[k].name implies i == j by {
            if k < n {
                assert(rest[k] == files[k]);
                assert(files[k].name != files[n].name);
                if i < m && j < m {
                    assert(u.documents[i] == t.documents[i] && u.documents[j] == t.documents[j]);
                    assert(u.documents[i].name == rest[k].name);
                }
            } else {
                if i < m {
                    assert(u.documents[i] == t.documents[i]);
                }
                if j < m {
                    assert(u.documents[j] == t.documents[j]);
                }
            }
        }
    }
}

/// Replacing a text changes no document's identifier, name or version, so a
/// lookup by identifier finds the same name before and after.
pub proof fn lemma_identity_stable(s: StoreView, id: u64, contents: Seq<char>)
    ensures
        replaced(s, id, contents).documents.len() == s.documents.len(),
        forall|i: int|
            0 <= i < s.documents.len() ==> #[trigger] replaced(s, id, contents).documents[i].identifier
                == s.documents[i].identifier && replaced(s, id, contents).documents[i].name
                == s.documents[i].name && replaced(s, id, contents).documents[i].version
                == s.documents[i].version,
        well_formed(s) ==> well_formed(replaced(s, id, contents)),
{
}

/// After the text of an existing document is replaced, looking it up by its
/// identifier gives the new text.
pub proof fn lemma_update_visible(s: StoreView, id: u64, contents: Seq<char>)
    requires
        has_identifier(s, id),
    ensures
        has_identifier(replaced(s, id, contents), id),
        forall|i: int|
            0 <= i < s.documents.len() && #[trigger] replaced(s, id, contents).documents[i].identifier == id
                ==> replaced(s, id, contents).documents[i].contents == contents,
{
    let i = choose|i: int| 0 <= i < s.documents.len() && #[trigger] s.documents[i].identifier == id;
    assert(replaced(s, id, contents).documents[i].identifier == id);
}

/// Replacements of two different documents give the same store in either
/// order.
pub proof fn lemma_replace_distinct_commute(
    s: StoreView,
    a: u64,
    ca: Seq<char>,
    b: u64,
    cb: Seq<char>,
)
    requires
        a != b,
    ensures
        replaced(replaced(s, a, ca), b, cb) == replaced(replaced(s, b, cb), a, ca),
{
    assert(replaced(replaced(s, a, ca), b, cb).documents =~= replaced(
        replaced(s, b, cb),
        a,
        ca,
    ).documents);
}

/// Of two replacements of one document, the later one's text is what stays.
pub proof fn lemma_replace_last_wins(s: StoreView, id: u64, first: Seq<char>, second: Seq<char>)
    ensures
        replaced(replaced(s, id, first), id, second) == replaced(s, id, second),
{
    assert(replaced(replaced(s, id, first), id, second).documents =~= replaced(
        s,
        id,
        second,
    ).documents);
}

} // verus!
