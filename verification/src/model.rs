//! Mathematical model of the gateway: ghost images of notes, folders and
//! the whole store, the transition of each operation, and well-formedness.

use vstd::prelude::*;

verus! {

/// Error taxonomy of the gateway: a referenced id is absent, or the
/// requested change is rejected outright (a folder as its own parent).
#[derive(Clone, Copy, Debug, PartialEq, Eq, Structural)]
pub enum GatewayError {
    NotFound,
    InvalidOperation,
}

/// Ghost image of a stored note.
pub ghost struct NoteView {
    pub id: int,
    pub title: Seq<char>,
    pub content: Seq<char>,
    pub created_at: Seq<char>,
    pub updated_at: Seq<char>,
    pub folder_id: Option<int>,
    pub is_starred: bool,
}

/// Ghost image of a stored folder.
pub ghost struct FolderView {
    pub id: int,
    pub name: Seq<char>,
    pub parent_id: Option<int>,
    pub created_at: Seq<char>,
    pub updated_at: Seq<char>,
}

/// Ghost image of the whole store: both tables and the next generated ids.
#[verifier::ext_equal]
pub ghost struct StoreModel {
    pub notes: Seq<NoteView>,
    pub folders: Seq<FolderView>,
    pub next_note_id: int,
    pub next_folder_id: int,
}

/// Index of the note with the given id, or -1 when no note has it.
pub open spec fn note_idx(s: Seq<NoteView>, id: int) -> int
    decreases s.len(),
{
    if s.len() == 0 {
        -1
    } else if s[0].id == id {
        0
    } else {
        let r = note_idx(s.drop_first(), id);
        if r < 0 {
            -1
        } else {
            r + 1
        }
    }
}

/// Index of the folder with the given id, or -1 when no folder has it.
pub open spec fn folder_idx(s: Seq<FolderView>, id: int) -> int
    decreases s.len(),
{
    if s.len() == 0 {
        -1
    } else if s[0].id == id {
        0
    } else {
        let r = folder_idx(s.drop_first(), id);
        if r < 0 {
            -1
        } else {
            r + 1
        }
    }
}

/// The note a successful insert produces: the next free id, the given
/// fields, unstarred, with both timestamps equal to the insertion time.
pub open spec fn new_note(
    m: StoreModel,
    title: Seq<char>,
    content: Seq<char>,
    folder_id: Option<int>,
    now: Seq<char>,
) -> NoteView {
    NoteView {
        id: m.next_note_id,
        title: title,
        content: content,
        created_at: now,
        updated_at: now,
        folder_id: folder_id,
        is_starred: false,
    }
}

/// Store after inserting a note: the new note is appended and the id
/// counter advances; folders are untouched.
pub open spec fn add_note_model(
    m: StoreModel,
    title: Seq<char>,
    content: Seq<char>,
    folder_id: Option<int>,
    now: Seq<char>,
) -> StoreModel {
    StoreModel {
        notes: m.notes.push(new_note(m, title, content, folder_id, now)),
        next_note_id: m.next_note_id + 1,
        ..m
    }
}

/// Store after overwriting a note's title and content: the note keeps its
/// id, folder and star, gets the new text and update time; everything else
/// is untouched. Absent id: `NotFound`.
pub open spec fn update_note_model(
    m: StoreModel,
    id: int,
    title: Seq<char>,
    content: Seq<char>,
    now: Seq<char>,
) -> Result<StoreModel, GatewayError> {
    let i = note_idx(m.notes, id);
    if i < 0 {
        Err(GatewayError::NotFound)
    } else {
        Ok(
            StoreModel {
                notes: m.notes.update(
                    i,
                    NoteView { title: title, content: content, updated_at: now, ..m.notes[i] },
                ),
                ..m
            },
        )
    }
}

/// Store after moving a note to a folder (or detaching it when the target
/// is `None`): only the note's folder and update time change.
pub open spec fn move_note_model(
    m: StoreModel,
    id: int,
    folder_id: Option<int>,
    now: Seq<char>,
) -> Result<StoreModel, GatewayError> {
    let i = note_idx(m.notes, id);
    if i < 0 {
        Err(GatewayError::NotFound)
    } else {
        Ok(
            StoreModel {
                notes: m.notes.update(
                    i,
                    NoteView { folder_id: folder_id, updated_at: now, ..m.notes[i] },
                ),
                ..m
            },
        )
    }
}

/// Store after flipping a note's star. The update time is deliberately
/// kept: starring is metadata, not a content edit.
pub open spec fn toggle_note_model(m: StoreModel, id: int) -> Result<
    StoreModel,
    GatewayError,
> {
    let i = note_idx(m.notes, id);
    if i < 0 {
        Err(GatewayError::NotFound)
    } else {
        Ok(
            StoreModel {
                notes: m.notes.update(
                    i,
                    NoteView { is_starred: !m.notes[i].is_starred, ..m.notes[i] },
                ),
                ..m
            },
        )
    }
}

/// Store after removing a note.
pub open spec fn delete_note_model(m: StoreModel, id: int) -> Result<
    StoreModel,
    GatewayError,
> {
    let i = note_idx(m.notes, id);
    if i < 0 {
        Err(GatewayError::NotFound)
    } else {
        Ok(StoreModel { notes: m.notes.remove(i), ..m })
    }
}

/// The folder a successful insert produces.
pub open spec fn new_folder(
    m: StoreModel,
    name: Seq<char>,
    parent_id: Option<int>,
    now: Seq<char>,
) -> FolderView {
    FolderView {
        id: m.next_folder_id,
        name: name,
        parent_id: parent_id,
        created_at: now,
        updated_at: now,
    }
}

/// Store after inserting a folder.
pub open spec fn create_folder_model(
    m: StoreModel,
    name: Seq<char>,
    parent_id: Option<int>,
    now: Seq<char>,
) -> StoreModel {
    StoreModel {
        folders: m.folders.push(new_folder(m, name, parent_id, now)),
        next_folder_id: m.next_folder_id + 1,
        ..m
    }
}

/// Store after renaming or reparenting a folder. A folder may never be its
/// own parent: that is rejected before anything is looked up, so it fails
/// with `InvalidOperation` whether or not the id exists. Longer parent
/// cycles are not checked.
pub open spec fn update_folder_model(
    m: StoreModel,
    id: int,
    name: Seq<char>,
    parent_id: Option<int>,
    now: Seq<char>,
) -> Result<StoreModel, GatewayError> {
    if parent_id == Some(id) {
        Err(GatewayError::InvalidOperation)
    } else {
        let i = folder_idx(m.folders, id);
        if i < 0 {
            Err(GatewayError::NotFound)
        } else {
            Ok(
                StoreModel {
                    folders: m.folders.update(
                        i,
                        FolderView {
                            name: name,
                            parent_id: parent_id,
                            updated_at: now,
                            ..m.folders[i]
                        },
                    ),
                    ..m
                },
            )
        }
    }
}

/// A note after a folder deletion: detached when it referenced the deleted
/// folder, untouched otherwise. Detaching does not refresh the update time.
pub open spec fn detach_note(n: NoteView, folder_id: int) -> NoteView {
    if n.folder_id == Some(folder_id) {
        NoteView { folder_id: None, ..n }
    } else {
        n
    }
}

/// Every note, detached from the given folder where it referenced it.
pub open spec fn detach_all(s: Seq<NoteView>, folder_id: int) -> Seq<NoteView> {
    s.map_values(|n: NoteView| detach_note(n, folder_id))
}

/// Store after deleting a folder: the folder's notes are detached (kept,
/// not deleted) and the folder row is removed. Child folders are left
/// pointing at the removed id. Absent id: `NotFound`, nothing changes.
pub open spec fn delete_folder_model(m: StoreModel, id: int) -> Result<
    StoreModel,
    GatewayError,
> {
    let i = folder_idx(m.folders, id);
    if i < 0 {
        Err(GatewayError::NotFound)
    } else {
        Ok(StoreModel { notes: detach_all(m.notes, id), folders: m.folders.remove(i), ..m })
    }
}

/// The notes shown for a folder filter: those in the given folder, or the
/// unfiled ones when the filter is `None`.
pub open spec fn notes_in_folder(s: Seq<NoteView>, folder_id: Option<int>) -> Seq<NoteView> {
    s.filter(|n: NoteView| n.folder_id == folder_id)
}

/// Well-formed note table: every id was once generated (positive and below
/// the counter) and no id repeats.
pub open spec fn notes_wf(s: Seq<NoteView>, next_id: int) -> bool {
    &&& forall|i: int| 0 <= i < s.len() ==> 1 <= (#[trigger] s[i].id) < next_id
    &&& forall|i: int, j: int|
        0 <= i < j < s.len() ==> #[trigger] s[i].id != #[trigger] s[j].id
}

/// Well-formed folder table.
pub open spec fn folders_wf(s: Seq<FolderView>, next_id: int) -> bool {
    &&& forall|i: int| 0 <= i < s.len() ==> 1 <= (#[trigger] s[i].id) < next_id
    &&& forall|i: int, j: int|
        0 <= i < j < s.len() ==> #[trigger] s[i].id != #[trigger] s[j].id
}

/// What the note index function returns: a position holding the id, or -1
/// when the id is absent.
pub proof fn lemma_note_idx_props(s: Seq<NoteView>, id: int)
    ensures
        -1 <= note_idx(s, id) < s.len(),
        note_idx(s, id) >= 0 ==> s[note_idx(s, id)].id == id,
        note_idx(s, id) == -1 ==> forall|k: int|
            0 <= k < s.len() ==> (#[trigger] s[k]).id != id,
    decreases s.len(),
{
    if s.len() > 0 && s[0].id != id {
        lemma_note_idx_props(s.drop_first(), id);
        if note_idx(s, id) == -1 {
            assert forall|k: int| 0 <= k < s.len() implies (#[trigger] s[k]).id != id by {
                if k > 0 {
                    assert(s[k] == s.drop_first()[k - 1]);
                }
            }
        }
    }
}

/// The index function finds the first position that holds the id.
pub proof fn lemma_note_idx_first(s: Seq<NoteView>, id: int, i: int)
    requires
        0 <= i < s.len(),
        s[i].id == id,
        forall|k: int| 0 <= k < i ==> (#[trigger] s[k]).id != id,
    ensures
        note_idx(s, id) == i,
    decreases s.len(),
{
    if i > 0 {
        assert(s[0].id != id);
        assert(s.drop_first()[i - 1] == s[i]);
        assert forall|k: int| 0 <= k < i - 1 implies (#[trigger] s.drop_first()[k]).id != id by {
            assert(s.drop_first()[k] == s[k + 1]);
        }
        lemma_note_idx_first(s.drop_first(), id, i - 1);
    }
}

/// Two note tables with the same ids position by position index alike.
pub proof fn lemma_note_idx_same_ids(s: Seq<NoteView>, t: Seq<NoteView>, id: int)
    requires
        s.len() == t.len(),
        forall|k: int| 0 <= k < s.len() ==> (#[trigger] s[k]).id == (#[trigger] t[k]).id,
    ensures
        note_idx(s, id) == note_idx(t, id),
    decreases s.len(),
{
    if s.len() > 0 {
        assert(s[0].id == t[0].id);
        assert forall|k: int|
            0 <= k < s.drop_first().len() implies (#[trigger] s.drop_first()[k]).id == (
        #[trigger] t.drop_first()[k]).id by {
            assert(s.drop_first()[k] == s[k + 1]);
            assert(t.drop_first()[k] == t[k + 1]);
        }
        lemma_note_idx_same_ids(s.drop_first(), t.drop_first(), id);
    }
}

/// What the folder index function returns.
pub proof fn lemma_folder_idx_props(s: Seq<FolderView>, id: int)
    ensures
        -1 <= folder_idx(s, id) < s.len(),
        folder_idx(s, id) >= 0 ==> s[folder_idx(s, id)].id == id,
        folder_idx(s, id) == -1 ==> forall|k: int|
            0 <= k < s.len() ==> (#[trigger] s[k]).id != id,
    decreases s.len(),
{
    if s.len() > 0 && s[0].id != id {
        lemma_folder_idx_props(s.drop_first(), id);
        if folder_idx(s, id) == -1 {
            assert forall|k: int| 0 <= k < s.len() implies (#[trigger] s[k]).id != id by {
                if k > 0 {
                    assert(s[k] == s.drop_first()[k - 1]);
                }
            }
        }
    }
}

/// The folder index function finds the first position that holds the id.
pub proof fn lemma_folder_idx_first(s: Seq<FolderView>, id: int, i: int)
    requires
        0 <= i < s.len(),
        s[i].id == id,
        forall|k: int| 0 <= k < i ==> (#[trigger] s[k]).id != id,
    ensures
        folder_idx(s, id) == i,
    decreases s.len(),
{
    if i > 0 {
        assert(s[0].id != id);
        assert(s.drop_first()[i - 1] == s[i]);
        assert forall|k: int| 0 <= k < i - 1 implies (#[trigger] s.drop_first()[k]).id != id by {
            assert(s.drop_first()[k] == s[k + 1]);
        }
        lemma_folder_idx_first(s.drop_first(), id, i - 1);
    }
}

/// Filtering one more note keeps it exactly when it is in the folder.
pub proof fn lemma_notes_in_folder_step(s: Seq<NoteView>, i: int, folder_id: Option<int>)
    requires
        0 <= i < s.len(),
    ensures
        notes_in_folder(s.take(i + 1), folder_id) == (if s[i].folder_id == folder_id {
            notes_in_folder(s.take(i), folder_id).push(s[i])
        } else {
            notes_in_folder(s.take(i), folder_id)
        }),
{
    reveal_with_fuel(Seq::filter, 2);
    assert(s.take(i + 1).drop_last() =~= s.take(i));
    assert(s.take(i + 1).last() == s[i]);
}

/// Removing an element and putting another in its place is an update.
pub proof fn lemma_remove_insert_is_update<T>(s: Seq<T>, i: int, x: T)
    requires
        0 <= i < s.len(),
    ensures
        s.remove(i).insert(i, x) =~= s.update(i, x),
{
}

/// Well-formed store: both tables well formed and both counters inside the
/// id type's range.
pub open spec fn store_wf(m: StoreModel) -> bool {
    &&& 1 <= m.next_note_id <= i64::MAX
    &&& 1 <= m.next_folder_id <= i64::MAX
    &&& notes_wf(m.notes, m.next_note_id)
    &&& folders_wf(m.folders, m.next_folder_id)
}

} // verus!
