//! Orderings used by the listings: lexicographic comparison of the
//! character sequences behind timestamps and names, and stable insertion
//! sorts pinned down by spec functions.

use vstd::prelude::*;
use vstd::string::StrSliceExecFns;
use crate::model::{NoteView, FolderView};
use crate::store::{Note, Folder, note_views, folder_views};

verus! {

/// Strict lexicographic order on character sequences, by code point. An
/// ISO-8601 UTC timestamp compares this way exactly as the instants do.
pub open spec fn lex_lt(a: Seq<char>, b: Seq<char>) -> bool
    decreases b.len(),
{
    if b.len() == 0 {
        false
    } else if a.len() == 0 {
        true
    } else if a[0] < b[0] {
        true
    } else if b[0] < a[0] {
        false
    } else {
        lex_lt(a.drop_first(), b.drop_first())
    }
}

/// A sequence is not below itself.
pub proof fn lemma_lex_irreflexive(a: Seq<char>)
    ensures
        !lex_lt(a, a),
    decreases a.len(),
{
    if a.len() > 0 {
        lemma_lex_irreflexive(a.drop_first());
    }
}

/// The order is transitive.
pub proof fn lemma_lex_transitive(a: Seq<char>, b: Seq<char>, c: Seq<char>)
    requires
        lex_lt(a, b),
        lex_lt(b, c),
    ensures
        lex_lt(a, c),
    decreases a.len(),
{
    if b.len() > 0 && c.len() > 0 && a.len() > 0 {
        if a[0] == b[0] && b[0] == c[0] {
            lemma_lex_transitive(a.drop_first(), b.drop_first(), c.drop_first());
        }
    }
}

/// Compares two strings in the lexicographic order above.
pub fn str_lex_lt(a: &str, b: &str) -> (r: bool)
    ensures
        r == lex_lt(a@, b@),
{
    let a_len = a.unicode_len();
    let b_len = b.unicode_len();
    let mut i: usize = 0;
    proof {
        assert(a@.skip(0) =~= a@);
        assert(b@.skip(0) =~= b@);
    }
    loop
        invariant
            i <= a_len,
            i <= b_len,
            a_len == a@.len(),
            b_len == b@.len(),
            lex_lt(a@, b@) == lex_lt(a@.skip(i as int), b@.skip(i as int)),
        decreases b_len - i,
    {
        if i == b_len {
            proof {
                assert(b@.skip(i as int).len() == 0);
            }
            return false;
        }
        if i == a_len {
            proof {
                assert(a@.skip(i as int).len() == 0);
                assert(b@.skip(i as int).len() > 0);
            }
            return true;
        }
        let ca = a.get_char(i);
        let cb = b.get_char(i);
        proof {
            assert(a@.skip(i as int)[0] == a@[i as int]);
            assert(b@.skip(i as int)[0] == b@[i as int]);
        }
        if ca < cb {
            return true;
        }
        if cb < ca {
            return false;
        }
        proof {
            assert(a@.skip(i as int).drop_first() =~= a@.skip(i + 1));
            assert(b@.skip(i as int).drop_first() =~= b@.skip(i + 1));
        }
        i = i + 1;
    }
}

/// A note placed into a run already sorted by update time descending: it
/// goes after every note updated at the same time or later, so insertion
/// in table order is stable.
pub open spec fn insert_note_desc(s: Seq<NoteView>, n: NoteView) -> Seq<NoteView>
    decreases s.len(),
{
    if s.len() == 0 {
        seq![n]
    } else if lex_lt(s[0].updated_at, n.updated_at) {
        seq![n] + s
    } else {
        seq![s[0]] + insert_note_desc(s.drop_first(), n)
    }
}

/// The notes sorted by update time descending, stably: notes inserted
/// later that tie on the timestamp stay behind earlier ones.
pub open spec fn sort_notes_desc(s: Seq<NoteView>) -> Seq<NoteView>
    decreases s.len(),
{
    if s.len() == 0 {
        Seq::empty()
    } else {
        insert_note_desc(sort_notes_desc(s.drop_last()), s.last())
    }
}

/// A folder placed into a run already sorted by name ascending: it goes
/// after every folder whose name is not greater, so insertion is stable.
pub open spec fn insert_folder_asc(s: Seq<FolderView>, f: FolderView) -> Seq<FolderView>
    decreases s.len(),
{
    if s.len() == 0 {
        seq![f]
    } else if lex_lt(f.name, s[0].name) {
        seq![f] + s
    } else {
        seq![s[0]] + insert_folder_asc(s.drop_first(), f)
    }
}

/// The folders sorted by name ascending, stably.
pub open spec fn sort_folders_asc(s: Seq<FolderView>) -> Seq<FolderView>
    decreases s.len(),
{
    if s.len() == 0 {
        Seq::empty()
    } else {
        insert_folder_asc(sort_folders_asc(s.drop_last()), s.last())
    }
}

/// Where a note lands: before the first note updated strictly earlier,
/// after everything updated at the same time or later.
pub proof fn lemma_insert_note_desc_at(s: Seq<NoteView>, n: NoteView, j: int)
    requires
        0 <= j <= s.len(),
        forall|k: int| 0 <= k < j ==> !lex_lt((#[trigger] s[k]).updated_at, n.updated_at),
        j < s.len() ==> lex_lt(s[j].updated_at, n.updated_at),
    ensures
        insert_note_desc(s, n) =~= s.insert(j, n),
    decreases s.len(),
{
    if s.len() == 0 {
    } else if lex_lt(s[0].updated_at, n.updated_at) {
        assert(j == 0);
    } else {
        assert(j >= 1);
        assert forall|k: int|
            0 <= k < j - 1 implies !lex_lt(
            (#[trigger] s.drop_first()[k]).updated_at,
            n.updated_at,
        ) by {
            assert(s.drop_first()[k] == s[k + 1]);
        }
        if j - 1 < s.drop_first().len() {
            assert(s.drop_first()[j - 1] == s[j]);
        }
        lemma_insert_note_desc_at(s.drop_first(), n, j - 1);
        assert(insert_note_desc(s, n) =~= seq![s[0]] + s.drop_first().insert(j - 1, n));
    }
}

/// Where a folder lands: before the first strictly greater name, after
/// every name not greater.
pub proof fn lemma_insert_folder_asc_at(s: Seq<FolderView>, f: FolderView, j: int)
    requires
        0 <= j <= s.len(),
        forall|k: int| 0 <= k < j ==> !lex_lt(f.name, (#[trigger] s[k]).name),
        j < s.len() ==> lex_lt(f.name, s[j].name),
    ensures
        insert_folder_asc(s, f) =~= s.insert(j, f),
    decreases s.len(),
{
    if s.len() == 0 {
    } else if lex_lt(f.name, s[0].name) {
        assert(j == 0);
    } else {
        assert(j >= 1);
        assert forall|k: int|
            0 <= k < j - 1 implies !lex_lt(f.name, (#[trigger] s.drop_first()[k]).name) by {
            assert(s.drop_first()[k] == s[k + 1]);
        }
        if j - 1 < s.drop_first().len() {
            assert(s.drop_first()[j - 1] == s[j]);
        }
        lemma_insert_folder_asc_at(s.drop_first(), f, j - 1);
        assert(insert_folder_asc(s, f) =~= seq![s[0]] + s.drop_first().insert(j - 1, f));
    }
}

/// Inserts a note into a table sorted by update time descending, at the
/// place the spec insertion gives it.
fn insert_note_sorted(out: &mut Vec<Note>, n: Note)
    ensures
        note_views(final(out)@) =~= insert_note_desc(note_views(old(out)@), n@),
{
    let mut j: usize = 0;
    while j < out.len()
        invariant
            j <= out@.len(),
            out@ == old(out)@,
            forall|k: int|
                0 <= k < j ==> !lex_lt(
                    (#[trigger] note_views(out@)[k]).updated_at,
                    n@.updated_at,
                ),
        decreases out@.len() - j,
    {
        let lt = str_lex_lt(out[j].updated_at.as_str(), n.updated_at.as_str());
        if lt {
            proof {
                lemma_insert_note_desc_at(note_views(out@), n@, j as int);
            }
            out.insert(j, n);
            proof {
                assert(note_views(out@) =~= note_views(old(out)@).insert(j as int, n@));
            }
            return;
        }
        j = j + 1;
    }
    proof {
        lemma_insert_note_desc_at(note_views(out@), n@, j as int);
    }
    out.insert(j, n);
    proof {
        assert(note_views(out@) =~= note_views(old(out)@).insert(j as int, n@));
    }
}

/// The notes sorted by update time descending; ties keep their table
/// order, so the listing is stable and deterministic.
pub fn sort_notes_by_updated(v: Vec<Note>) -> (r: Vec<Note>)
    ensures
        note_views(r@) =~= sort_notes_desc(note_views(v@)),
{
    let mut out: Vec<Note> = Vec::new();
    let mut i: usize = 0;
    proof {
        assert(note_views(v@.take(0)) =~= Seq::<NoteView>::empty());
    }
    while i < v.len()
        invariant
            i <= v@.len(),
            note_views(out@) =~= sort_notes_desc(note_views(v@.take(i as int))),
        decreases v@.len() - i,
    {
        let n = v[i].clone();
        proof {
            let pre = note_views(v@.take(i as int));
            let post = note_views(v@.take(i + 1));
            assert(post.drop_last() =~= pre);
            assert(post.last() == v@[i as int]@);
            assert(sort_notes_desc(post) == insert_note_desc(sort_notes_desc(pre), v@[i as int]@));
        }
        insert_note_sorted(&mut out, n);
        i = i + 1;
    }
    proof {
        assert(v@.take(v@.len() as int) =~= v@);
    }
    out
}

/// Inserts a folder into a table sorted by name ascending, at the place
/// the spec insertion gives it.
fn insert_folder_sorted(out: &mut Vec<Folder>, f: Folder)
    ensures
        folder_views(final(out)@) =~= insert_folder_asc(folder_views(old(out)@), f@),
{
    let mut j: usize = 0;
    while j < out.len()
        invariant
            j <= out@.len(),
            out@ == old(out)@,
            forall|k: int|
                0 <= k < j ==> !lex_lt(f@.name, (#[trigger] folder_views(out@)[k]).name),
        decreases out@.len() - j,
    {
        let lt = str_lex_lt(f.name.as_str(), out[j].name.as_str());
        if lt {
            proof {
                lemma_insert_folder_asc_at(folder_views(out@), f@, j as int);
            }
            out.insert(j, f);
            proof {
                assert(folder_views(out@) =~= folder_views(old(out)@).insert(j as int, f@));
            }
            return;
        }
        j = j + 1;
    }
    proof {
        lemma_insert_folder_asc_at(folder_views(out@), f@, j as int);
    }
    out.insert(j, f);
    proof {
        assert(folder_views(out@) =~= folder_views(old(out)@).insert(j as int, f@));
    }
}

/// The folders sorted by name ascending; ties keep their table order.
pub fn sort_folders_by_name(v: Vec<Folder>) -> (r: Vec<Folder>)
    ensures
        folder_views(r@) =~= sort_folders_asc(folder_views(v@)),
{
    let mut out: Vec<Folder> = Vec::new();
    let mut i: usize = 0;
    proof {
        assert(folder_views(v@.take(0)) =~= Seq::<FolderView>::empty());
    }
    while i < v.len()
        invariant
            i <= v@.len(),
            folder_views(out@) =~= sort_folders_asc(folder_views(v@.take(i as int))),
        decreases v@.len() - i,
    {
        let f = v[i].clone();
        proof {
            let pre = folder_views(v@.take(i as int));
            let post = folder_views(v@.take(i + 1));
            assert(post.drop_last() =~= pre);
            assert(post.last() == v@[i as int]@);
            assert(sort_folders_asc(post) == insert_folder_asc(
                sort_folders_asc(pre),
                v@[i as int]@,
            ));
        }
        insert_folder_sorted(&mut out, f);
        i = i + 1;
    }
    proof {
        assert(v@.take(v@.len() as int) =~= v@);
    }
    out
}

} // verus!
