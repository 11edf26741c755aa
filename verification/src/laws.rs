//! Laws of the gateway, proved once over the model: what the listings
//! preserve, how the operations compose, and when each must fail.

use vstd::prelude::*;
use crate::model::{
    NoteView, FolderView, StoreModel, GatewayError, note_idx, folder_idx, new_note,
    add_note_model, update_note_model, move_note_model, toggle_note_model, delete_note_model,
    update_folder_model, delete_folder_model, notes_in_folder, detach_note, store_wf,
    lemma_note_idx_props, lemma_note_idx_same_ids,
};
use crate::order::{
    lex_lt, insert_note_desc, sort_notes_desc, insert_folder_asc, sort_folders_asc,
    lemma_lex_transitive, lemma_lex_irreflexive,
};

verus! {

/// How many notes of the table carry the given id.
pub open spec fn note_id_count(s: Seq<NoteView>, id: int) -> nat
    decreases s.len(),
{
    if s.len() == 0 {
        0nat
    } else {
        (if s[0].id == id {
            1nat
        } else {
            0nat
        }) + note_id_count(s.drop_first(), id)
    }
}

proof fn lemma_note_id_count_cons(x: NoteView, s: Seq<NoteView>, id: int)
    ensures
        note_id_count(seq![x] + s, id) == (if x.id == id {
            1nat
        } else {
            0nat
        }) + note_id_count(s, id),
{
    let t = seq![x] + s;
    assert(t[0] == x);
    assert(t.drop_first() =~= s);
}

proof fn lemma_note_id_count_push(s: Seq<NoteView>, n: NoteView, id: int)
    ensures
        note_id_count(s.push(n), id) == note_id_count(s, id) + (if n.id == id {
            1nat
        } else {
            0nat
        }),
    decreases s.len(),
{
    if s.len() == 0 {
        let t = s.push(n);
        assert(t[0] == n);
        assert(t.drop_first() =~= s);
    } else {
        assert(s.push(n).drop_first() =~= s.drop_first().push(n));
        assert(s.push(n)[0] == s[0]);
        lemma_note_id_count_push(s.drop_first(), n, id);
        assert(note_id_count(s.push(n), id) == (if s[0].id == id {
            1nat
        } else {
            0nat
        }) + note_id_count(s.drop_first().push(n), id));
    }
}

proof fn lemma_note_id_count_at_least(s: Seq<NoteView>, id: int, i: int)
    requires
        0 <= i < s.len(),
        s[i].id == id,
    ensures
        note_id_count(s, id) >= 1,
    decreases s.len(),
{
    if i > 0 {
        assert(s.drop_first()[i - 1] == s[i]);
        lemma_note_id_count_at_least(s.drop_first(), id, i - 1);
    }
}

proof fn lemma_note_id_count_two(s: Seq<NoteView>, id: int, j: int, k: int)
    requires
        0 <= j < k < s.len(),
        s[j].id == id,
        s[k].id == id,
    ensures
        note_id_count(s, id) >= 2,
    decreases s.len(),
{
    if j == 0 {
        assert(s.drop_first()[k - 1] == s[k]);
        lemma_note_id_count_at_least(s.drop_first(), id, k - 1);
    } else {
        assert(s.drop_first()[j - 1] == s[j]);
        assert(s.drop_first()[k - 1] == s[k]);
        lemma_note_id_count_two(s.drop_first(), id, j - 1, k - 1);
    }
}

proof fn lemma_note_id_count_absent(s: Seq<NoteView>, id: int)
    requires
        forall|k: int| 0 <= k < s.len() ==> (#[trigger] s[k]).id != id,
    ensures
        note_id_count(s, id) == 0,
    decreases s.len(),
{
    if s.len() > 0 {
        assert forall|k: int|
            0 <= k < s.drop_first().len() implies (#[trigger] s.drop_first()[k]).id != id by {
            assert(s.drop_first()[k] == s[k + 1]);
        }
        lemma_note_id_count_absent(s.drop_first(), id);
    }
}

proof fn lemma_insert_note_desc_count(s: Seq<NoteView>, n: NoteView, id: int)
    ensures
        note_id_count(insert_note_desc(s, n), id) == note_id_count(s, id) + (if n.id == id {
            1nat
        } else {
            0nat
        }),
    decreases s.len(),
{
    if s.len() == 0 {
        assert(insert_note_desc(s, n) =~= seq![n] + s);
        lemma_note_id_count_cons(n, s, id);
    } else if lex_lt(s[0].updated_at, n.updated_at) {
        lemma_note_id_count_cons(n, s, id);
    } else {
        lemma_insert_note_desc_count(s.drop_first(), n, id);
        lemma_note_id_count_cons(s[0], insert_note_desc(s.drop_first(), n), id);
        lemma_note_id_count_cons(s[0], s.drop_first(), id);
        assert(s =~= seq![s[0]] + s.drop_first());
    }
}

/// The sorted listing holds every id exactly as often as the table does:
/// it is a permutation.
pub proof fn lemma_sort_notes_desc_count(s: Seq<NoteView>, id: int)
    ensures
        note_id_count(sort_notes_desc(s), id) == note_id_count(s, id),
    decreases s.len(),
{
    if s.len() > 0 {
        lemma_sort_notes_desc_count(s.drop_last(), id);
        lemma_insert_note_desc_count(sort_notes_desc(s.drop_last()), s.last(), id);
        lemma_note_id_count_push(s.drop_last(), s.last(), id);
        assert(s.drop_last().push(s.last()) =~= s);
    }
}

proof fn lemma_cons_contains(x: NoteView, s: Seq<NoteView>, y: NoteView)
    ensures
        (seq![x] + s).contains(y) <==> (y == x || s.contains(y)),
{
    let t = seq![x] + s;
    if t.contains(y) {
        let j = choose|j: int| 0 <= j < t.len() && t[j] == y;
        if j > 0 {
            assert(s[j - 1] == y);
        }
    }
    if y == x {
        assert(t[0] == y);
    }
    if s.contains(y) {
        let j = choose|j: int| 0 <= j < s.len() && s[j] == y;
        assert(t[j + 1] == y);
    }
}

proof fn lemma_push_contains(s: Seq<NoteView>, x: NoteView, y: NoteView)
    ensures
        s.push(x).contains(y) <==> (y == x || s.contains(y)),
{
    let t = s.push(x);
    if t.contains(y) {
        let j = choose|j: int| 0 <= j < t.len() && t[j] == y;
        if j < s.len() {
            assert(s[j] == y);
        }
    }
    if y == x {
        assert(t[s.len() as int] == y);
    }
    if s.contains(y) {
        let j = choose|j: int| 0 <= j < s.len() && s[j] == y;
        assert(t[j] == y);
    }
}

proof fn lemma_insert_note_desc_contains(s: Seq<NoteView>, n: NoteView, x: NoteView)
    ensures
        insert_note_desc(s, n).contains(x) <==> (s.contains(x) || x == n),
    decreases s.len(),
{
    if s.len() == 0 {
        assert(insert_note_desc(s, n) =~= seq![n] + s);
        lemma_cons_contains(n, s, x);
    } else if lex_lt(s[0].updated_at, n.updated_at) {
        lemma_cons_contains(n, s, x);
    } else {
        lemma_insert_note_desc_contains(s.drop_first(), n, x);
        lemma_cons_contains(s[0], insert_note_desc(s.drop_first(), n), x);
        lemma_cons_contains(s[0], s.drop_first(), x);
        assert(s =~= seq![s[0]] + s.drop_first());
    }
}

/// The sorted listing holds exactly the notes of the table.
pub proof fn lemma_sort_notes_desc_contains(s: Seq<NoteView>, x: NoteView)
    ensures
        sort_notes_desc(s).contains(x) <==> s.contains(x),
    decreases s.len(),
{
    if s.len() > 0 {
        lemma_sort_notes_desc_contains(s.drop_last(), x);
        lemma_insert_note_desc_contains(sort_notes_desc(s.drop_last()), s.last(), x);
        lemma_push_contains(s.drop_last(), s.last(), x);
        assert(s.drop_last().push(s.last()) =~= s);
    }
}

proof fn lemma_insert_note_desc_len(s: Seq<NoteView>, n: NoteView)
    ensures
        insert_note_desc(s, n).len() == s.len() + 1,
    decreases s.len(),
{
    if s.len() > 0 && !lex_lt(s[0].updated_at, n.updated_at) {
        lemma_insert_note_desc_len(s.drop_first(), n);
    }
}

/// The sorted listing has as many notes as the table.
pub proof fn lemma_sort_notes_desc_len(s: Seq<NoteView>)
    ensures
        sort_notes_desc(s).len() == s.len(),
    decreases s.len(),
{
    if s.len() > 0 {
        lemma_sort_notes_desc_len(s.drop_last());
        lemma_insert_note_desc_len(sort_notes_desc(s.drop_last()), s.last());
    }
}

/// A run of notes ordered by update time descending: no note is updated
/// strictly earlier than a later one.
pub open spec fn sorted_by_updated_desc(s: Seq<NoteView>) -> bool {
    forall|i: int, j: int|
        0 <= i < j < s.len() ==> !lex_lt(
            (#[trigger] s[i]).updated_at,
            (#[trigger] s[j]).updated_at,
        )
}

proof fn lemma_insert_note_desc_sorted(s: Seq<NoteView>, n: NoteView)
    requires
        sorted_by_updated_desc(s),
    ensures
        sorted_by_updated_desc(insert_note_desc(s, n)),
    decreases s.len(),
{
    let t = insert_note_desc(s, n);
    if s.len() == 0 {
        assert(t =~= seq![n] + s);
    } else if lex_lt(s[0].updated_at, n.updated_at) {
        assert(t =~= seq![n] + s);
        assert forall|i: int, j: int|
            0 <= i < j < t.len() implies !lex_lt(
            (#[trigger] t[i]).updated_at,
            (#[trigger] t[j]).updated_at,
        ) by {
            if i == 0 {
                assert(t[j] == s[j - 1]);
                if lex_lt(n.updated_at, s[j - 1].updated_at) {
                    lemma_lex_transitive(s[0].updated_at, n.updated_at, s[j - 1].updated_at);
                    lemma_lex_irreflexive(s[0].updated_at);
                    assert(false);
                }
            } else {
                assert(t[i] == s[i - 1]);
                assert(t[j] == s[j - 1]);
            }
        }
    } else {
        assert forall|i: int, j: int|
            0 <= i < j < s.drop_first().len() implies !lex_lt(
            (#[trigger] s.drop_first()[i]).updated_at,
            (#[trigger] s.drop_first()[j]).updated_at,
        ) by {
            assert(s.drop_first()[i] == s[i + 1]);
            assert(s.drop_first()[j] == s[j + 1]);
        }
        lemma_insert_note_desc_sorted(s.drop_first(), n);
        let rest = insert_note_desc(s.drop_first(), n);
        assert(t =~= seq![s[0]] + rest);
        assert forall|i: int, j: int|
            0 <= i < j < t.len() implies !lex_lt(
            (#[trigger] t[i]).updated_at,
            (#[trigger] t[j]).updated_at,
        ) by {
            if i == 0 {
                assert(t[j] == rest[j - 1]);
                lemma_insert_note_desc_contains(s.drop_first(), n, rest[j - 1]);
                assert(rest.contains(rest[j - 1]));
                if rest[j - 1] == n {
                    assert(!lex_lt(s[0].updated_at, n.updated_at));
                } else {
                    assert(s.drop_first().contains(rest[j - 1]));
                    let k = choose|k: int|
                        0 <= k < s.drop_first().len() && s.drop_first()[k] == rest[j - 1];
                    assert(s[k + 1] == rest[j - 1]);
                }
            } else {
                assert(t[i] == rest[i - 1]);
                assert(t[j] == rest[j - 1]);
            }
        }
    }
}

/// The note listing is sorted by update time descending.
pub proof fn lemma_sort_notes_desc_sorted(s: Seq<NoteView>)
    ensures
        sorted_by_updated_desc(sort_notes_desc(s)),
    decreases s.len(),
{
    if s.len() > 0 {
        lemma_sort_notes_desc_sorted(s.drop_last());
        lemma_insert_note_desc_sorted(sort_notes_desc(s.drop_last()), s.last());
    }
}

proof fn lemma_folder_cons_contains(x: FolderView, s: Seq<FolderView>, y: FolderView)
    ensures
        (seq![x] + s).contains(y) <==> (y == x || s.contains(y)),
{
    let t = seq![x] + s;
    if t.contains(y) {
        let j = choose|j: int| 0 <= j < t.len() && t[j] == y;
        if j > 0 {
            assert(s[j - 1] == y);
        }
    }
    if y == x {
        assert(t[0] == y);
    }
    if s.contains(y) {
        let j = choose|j: int| 0 <= j < s.len() && s[j] == y;
        assert(t[j + 1] == y);
    }
}

proof fn lemma_folder_push_contains(s: Seq<FolderView>, x: FolderView, y: FolderView)
    ensures
        s.push(x).contains(y) <==> (y == x || s.contains(y)),
{
    let t = s.push(x);
    if t.contains(y) {
        let j = choose|j: int| 0 <= j < t.len() && t[j] == y;
        if j < s.len() {
            assert(s[j] == y);
        }
    }
    if y == x {
        assert(t[s.len() as int] == y);
    }
    if s.contains(y) {
        let j = choose|j: int| 0 <= j < s.len() && s[j] == y;
        assert(t[j] == y);
    }
}

proof fn lemma_insert_folder_asc_contains(s: Seq<FolderView>, f: FolderView, x: FolderView)
    ensures
        insert_folder_asc(s, f).contains(x) <==> (s.contains(x) || x == f),
    decreases s.len(),
{
    if s.len() == 0 {
        assert(insert_folder_asc(s, f) =~= seq![f] + s);
        lemma_folder_cons_contains(f, s, x);
    } else if lex_lt(f.name, s[0].name) {
        lemma_folder_cons_contains(f, s, x);
    } else {
        lemma_insert_folder_asc_contains(s.drop_first(), f, x);
        lemma_folder_cons_contains(s[0], insert_folder_asc(s.drop_first(), f), x);
        lemma_folder_cons_contains(s[0], s.drop_first(), x);
        assert(s =~= seq![s[0]] + s.drop_first());
    }
}

/// The sorted folder listing holds exactly the folders of the table.
pub proof fn lemma_sort_folders_asc_contains(s: Seq<FolderView>, x: FolderView)
    ensures
        sort_folders_asc(s).contains(x) <==> s.contains(x),
    decreases s.len(),
{
    if s.len() > 0 {
        lemma_sort_folders_asc_contains(s.drop_last(), x);
        lemma_insert_folder_asc_contains(sort_folders_asc(s.drop_last()), s.last(), x);
        lemma_folder_push_contains(s.drop_last(), s.last(), x);
        assert(s.drop_last().push(s.last()) =~= s);
    }
}

proof fn lemma_insert_folder_asc_len(s: Seq<FolderView>, f: FolderView)
    ensures
        insert_folder_asc(s, f).len() == s.len() + 1,
    decreases s.len(),
{
    if s.len() > 0 && !lex_lt(f.name, s[0].name) {
        lemma_insert_folder_asc_len(s.drop_first(), f);
    }
}

/// The sorted folder listing has as many folders as the table.
pub proof fn lemma_sort_folders_asc_len(s: Seq<FolderView>)
    ensures
        sort_folders_asc(s).len() == s.len(),
    decreases s.len(),
{
    if s.len() > 0 {
        lemma_sort_folders_asc_len(s.drop_last());
        lemma_insert_folder_asc_len(sort_folders_asc(s.drop_last()), s.last());
    }
}

/// A run of folders ordered by name ascending: no later name is strictly
/// below an earlier one.
pub open spec fn sorted_by_name_asc(s: Seq<FolderView>) -> bool {
    forall|i: int, j: int|
        0 <= i < j < s.len() ==> !lex_lt((#[trigger] s[j]).name, (#[trigger] s[i]).name)
}

proof fn lemma_insert_folder_asc_sorted(s: Seq<FolderView>, f: FolderView)
    requires
        sorted_by_name_asc(s),
    ensures
        sorted_by_name_asc(insert_folder_asc(s, f)),
    decreases s.len(),
{
    let t = insert_folder_asc(s, f);
    if s.len() == 0 {
        assert(t =~= seq![f] + s);
    } else if lex_lt(f.name, s[0].name) {
        assert(t =~= seq![f] + s);
        assert forall|i: int, j: int|
            0 <= i < j < t.len() implies !lex_lt((#[trigger] t[j]).name, (#[trigger] t[i]).name) by {
            if i == 0 {
                assert(t[j] == s[j - 1]);
                if lex_lt(s[j - 1].name, f.name) {
                    lemma_lex_transitive(s[j - 1].name, f.name, s[0].name);
                    lemma_lex_irreflexive(s[0].name);
                    assert(false);
                }
            } else {
                assert(t[i] == s[i - 1]);
                assert(t[j] == s[j - 1]);
            }
        }
    } else {
        assert forall|i: int, j: int|
            0 <= i < j < s.drop_first().len() implies !lex_lt(
            (#[trigger] s.drop_first()[j]).name,
            (#[trigger] s.drop_first()[i]).name,
        ) by {
            assert(s.drop_first()[i] == s[i + 1]);
            assert(s.drop_first()[j] == s[j + 1]);
        }
        lemma_insert_folder_asc_sorted(s.drop_first(), f);
        let rest = insert_folder_asc(s.drop_first(), f);
        assert(t =~= seq![s[0]] + rest);
        assert forall|i: int, j: int|
            0 <= i < j < t.len() implies !lex_lt((#[trigger] t[j]).name, (#[trigger] t[i]).name) by {
            if i == 0 {
                assert(t[j] == rest[j - 1]);
                lemma_insert_folder_asc_contains(s.drop_first(), f, rest[j - 1]);
                assert(rest.contains(rest[j - 1]));
                if rest[j - 1] == f {
                    assert(!lex_lt(f.name, s[0].name));
                } else {
                    assert(s.drop_first().contains(rest[j - 1]));
                    let k = choose|k: int|
                        0 <= k < s.drop_first().len() && s.drop_first()[k] == rest[j - 1];
                    assert(s[k + 1] == rest[j - 1]);
                }
            } else {
                assert(t[i] == rest[i - 1]);
                assert(t[j] == rest[j - 1]);
            }
        }
    }
}

/// The folder listing is sorted by name ascending.
pub proof fn lemma_sort_folders_asc_sorted(s: Seq<FolderView>)
    ensures
        sorted_by_name_asc(sort_folders_asc(s)),
    decreases s.len(),
{
    if s.len() > 0 {
        lemma_sort_folders_asc_sorted(s.drop_last());
        lemma_insert_folder_asc_sorted(sort_folders_asc(s.drop_last()), s.last());
    }
}

/// A note known to be in its folder is in the folder's filtered listing.
proof fn lemma_notes_in_folder_keeps(s: Seq<NoteView>, folder_id: Option<int>, j: int)
    requires
        0 <= j < s.len(),
        s[j].folder_id == folder_id,
    ensures
        notes_in_folder(s, folder_id).contains(s[j]),
    decreases s.len(),
{
    reveal_with_fuel(Seq::filter, 2);
    let out = notes_in_folder(s, folder_id);
    if j == s.len() - 1 {
        assert(out[out.len() - 1] == s[j]);
    } else {
        lemma_notes_in_folder_keeps(s.drop_last(), folder_id, j);
        assert(s.drop_last()[j] == s[j]);
        let sub = notes_in_folder(s.drop_last(), folder_id);
        let k = choose|k: int| 0 <= k < sub.len() && sub[k] == s[j];
        assert(out[k] == s[j]);
    }
}

/// Adding a note and then listing all notes: the listing holds exactly
/// one note with the new id; it is the new note, its title and content as
/// given and its creation and update times equal.
pub proof fn lemma_add_note_then_get_notes(
    m: StoreModel,
    title: Seq<char>,
    content: Seq<char>,
    folder_id: Option<int>,
    now: Seq<char>,
)
    requires
        store_wf(m),
        m.next_note_id < i64::MAX,
    ensures
        ({
            let n = new_note(m, title, content, folder_id, now);
            let listed = sort_notes_desc(add_note_model(m, title, content, folder_id, now).notes);
            &&& listed.contains(n)
            &&& n.title == title
            &&& n.content == content
            &&& n.created_at == n.updated_at
            &&& note_id_count(listed, n.id) == 1
            &&& forall|j: int, k: int|
                0 <= j < k < listed.len() ==> !((#[trigger] listed[j]).id == n.id && (
                #[trigger] listed[k]).id == n.id)
        }),
{
    let n = new_note(m, title, content, folder_id, now);
    let notes2 = add_note_model(m, title, content, folder_id, now).notes;
    let listed = sort_notes_desc(notes2);
    assert(notes2[notes2.len() - 1] == n);
    assert(notes2.contains(n));
    lemma_sort_notes_desc_contains(notes2, n);
    lemma_note_id_count_absent(m.notes, n.id);
    lemma_note_id_count_push(m.notes, n, n.id);
    lemma_sort_notes_desc_count(notes2, n.id);
    assert forall|j: int, k: int|
        0 <= j < k < listed.len() implies !((#[trigger] listed[j]).id == n.id && (
    #[trigger] listed[k]).id == n.id) by {
        if listed[j].id == n.id && listed[k].id == n.id {
            lemma_note_id_count_two(listed, n.id, j, k);
        }
    }
}

/// Updating a note overwrites its title, content and update time only:
/// its id, folder, star and creation time survive, every other note and
/// every folder is untouched, and the update time strictly increases
/// whenever the clock reads later than the note's last update.
pub proof fn lemma_update_note_fields(
    m: StoreModel,
    id: int,
    title: Seq<char>,
    content: Seq<char>,
    now: Seq<char>,
)
    requires
        store_wf(m),
        note_idx(m.notes, id) >= 0,
        lex_lt(m.notes[note_idx(m.notes, id)].updated_at, now),
    ensures
        ({
            let i = note_idx(m.notes, id);
            let m2 = update_note_model(m, id, title, content, now)->Ok_0;
            &&& m2.notes.len() == m.notes.len()
            &&& m2.notes[i].title == title
            &&& m2.notes[i].content == content
            &&& m2.notes[i].updated_at == now
            &&& m2.notes[i].id == m.notes[i].id
            &&& m2.notes[i].folder_id == m.notes[i].folder_id
            &&& m2.notes[i].is_starred == m.notes[i].is_starred
            &&& m2.notes[i].created_at == m.notes[i].created_at
            &&& lex_lt(m.notes[i].updated_at, m2.notes[i].updated_at)
            &&& forall|j: int|
                0 <= j < m.notes.len() && j != i ==> #[trigger] m2.notes[j] == m.notes[j]
            &&& m2.folders == m.folders
        }),
{
    lemma_note_idx_props(m.notes, id);
}

/// Toggling a star never touches any update time, and toggling twice
/// restores the store exactly.
pub proof fn lemma_toggle_twice(m: StoreModel, id: int)
    requires
        store_wf(m),
        note_idx(m.notes, id) >= 0,
    ensures
        ({
            let i = note_idx(m.notes, id);
            let m2 = toggle_note_model(m, id)->Ok_0;
            &&& forall|j: int|
                0 <= j < m.notes.len() ==> (#[trigger] m2.notes[j]).updated_at
                    == m.notes[j].updated_at
            &&& m2.notes[i].is_starred == !m.notes[i].is_starred
            &&& toggle_note_model(m2, id) == Ok::<StoreModel, GatewayError>(m)
        }),
{
    lemma_note_idx_props(m.notes, id);
    let i = note_idx(m.notes, id);
    let m2 = toggle_note_model(m, id)->Ok_0;
    assert forall|k: int|
        0 <= k < m2.notes.len() implies (#[trigger] m2.notes[k]).id == (#[trigger] m.notes[k]).id
    by {}
    lemma_note_idx_same_ids(m2.notes, m.notes, id);
    let m3 = toggle_note_model(m2, id)->Ok_0;
    assert(m3.notes[i] == m.notes[i]);
    assert(m3.notes =~= m.notes);
    assert(m3 =~= m);
}

/// Deleting a folder detaches exactly the notes that were filed in it,
/// deletes none of them, changes nothing else about any note, and the
/// unfiled listing afterwards contains every detached note.
pub proof fn lemma_delete_folder_detaches(m: StoreModel, fid: int)
    requires
        store_wf(m),
        folder_idx(m.folders, fid) >= 0,
    ensures
        ({
            let m2 = delete_folder_model(m, fid)->Ok_0;
            &&& m2.notes.len() == m.notes.len()
            &&& forall|j: int|
                0 <= j < m.notes.len() ==> #[trigger] m2.notes[j] == detach_note(
                    m.notes[j],
                    fid,
                )
            &&& forall|j: int|
                0 <= j < m.notes.len() ==> (#[trigger] m2.notes[j]).folder_id != Some(fid)
            &&& forall|j: int|
                0 <= j < m.notes.len() && m.notes[j].folder_id == Some(fid)
                    ==> sort_notes_desc(notes_in_folder(m2.notes, None)).contains(
                    #[trigger] m2.notes[j],
                )
        }),
{
    let m2 = delete_folder_model(m, fid)->Ok_0;
    assert forall|j: int|
        0 <= j < m.notes.len() && m.notes[j].folder_id == Some(fid) implies sort_notes_desc(
        notes_in_folder(m2.notes, None),
    ).contains(#[trigger] m2.notes[j]) by {
        assert(m2.notes[j].folder_id is None);
        lemma_notes_in_folder_keeps(m2.notes, None, j);
        lemma_sort_notes_desc_contains(notes_in_folder(m2.notes, None), m2.notes[j]);
    }
}

/// A folder given itself as parent is always rejected, whether or not the
/// id exists, and the model offers no change to reject.
pub proof fn lemma_update_folder_self_parent(
    m: StoreModel,
    id: int,
    name: Seq<char>,
    now: Seq<char>,
)
    ensures
        update_folder_model(m, id, name, Some(id), now) == Err::<StoreModel, GatewayError>(
            GatewayError::InvalidOperation,
        ),
{
}

/// Every operation aimed at an id that no note and no folder carries
/// fails with `NotFound`.
pub proof fn lemma_absent_id_not_found(
    m: StoreModel,
    id: int,
    title: Seq<char>,
    content: Seq<char>,
    folder_id: Option<int>,
    name: Seq<char>,
    now: Seq<char>,
)
    requires
        note_idx(m.notes, id) < 0,
        folder_idx(m.folders, id) < 0,
        folder_id != Some(id),
    ensures
        update_note_model(m, id, title, content, now) == Err::<StoreModel, GatewayError>(
            GatewayError::NotFound,
        ),
        move_note_model(m, id, folder_id, now) == Err::<StoreModel, GatewayError>(
            GatewayError::NotFound,
        ),
        toggle_note_model(m, id) == Err::<StoreModel, GatewayError>(GatewayError::NotFound),
        delete_note_model(m, id) == Err::<StoreModel, GatewayError>(GatewayError::NotFound),
        update_folder_model(m, id, name, folder_id, now) == Err::<StoreModel, GatewayError>(
            GatewayError::NotFound,
        ),
        delete_folder_model(m, id) == Err::<StoreModel, GatewayError>(GatewayError::NotFound),
{
}

/// The note listing is a sorted permutation of the table, and the folder
/// listing likewise: with the tables fixed, both are deterministic, and
/// ties keep table order by construction of the spec sorts.
pub proof fn lemma_listing_orderings(notes: Seq<NoteView>, folders: Seq<FolderView>)
    ensures
        sorted_by_updated_desc(sort_notes_desc(notes)),
        sort_notes_desc(notes).len() == notes.len(),
        forall|x: NoteView| sort_notes_desc(notes).contains(x) <==> notes.contains(x),
        forall|id: int|
            #[trigger] note_id_count(sort_notes_desc(notes), id) == note_id_count(notes, id),
        sorted_by_name_asc(sort_folders_asc(folders)),
        sort_folders_asc(folders).len() == folders.len(),
        forall|x: FolderView| sort_folders_asc(folders).contains(x) <==> folders.contains(x),
{
    lemma_sort_notes_desc_sorted(notes);
    lemma_sort_notes_desc_len(notes);
    assert forall|x: NoteView| sort_notes_desc(notes).contains(x) <==> notes.contains(x) by {
        lemma_sort_notes_desc_contains(notes, x);
    }
    assert forall|id: int|
        #[trigger] note_id_count(sort_notes_desc(notes), id) == note_id_count(notes, id) by {
        lemma_sort_notes_desc_count(notes, id);
    }
    lemma_sort_folders_asc_sorted(folders);
    lemma_sort_folders_asc_len(folders);
    assert forall|x: FolderView| sort_folders_asc(folders).contains(x) <==> folders.contains(x) by {
        lemma_sort_folders_asc_contains(folders, x);
    }
}

} // verus!
