//! The persistence gateway: notes and folders under exact contracts.

use vstd::prelude::*;
use crate::model::{
    FolderView, GatewayError, NoteView, StoreModel, add_note_model, new_note, store_wf,
    note_idx, folder_idx, notes_in_folder, lemma_note_idx_props, lemma_note_idx_first,
    lemma_folder_idx_props, lemma_folder_idx_first, lemma_notes_in_folder_step,
    lemma_remove_insert_is_update, update_note_model, move_note_model, toggle_note_model,
    delete_note_model, new_folder, create_folder_model, update_folder_model,
    delete_folder_model, detach_note, detach_all,
};
use crate::order::{sort_notes_desc, sort_folders_asc, sort_notes_by_updated, sort_folders_by_name};

verus! {

/// A stored note. Timestamps are ISO-8601 strings in UTC; `folder_id` is
/// `None` for an unfiled note.
#[derive(Debug)]
pub struct Note {
    pub id: i64,
    pub title: String,
    pub content: String,
    pub created_at: String,
    pub updated_at: String,
    pub folder_id: Option<i64>,
    pub is_starred: bool,
}

/// A stored folder. `parent_id` is `None` for a top-level folder.
#[derive(Debug)]
pub struct Folder {
    pub id: i64,
    pub name: String,
    pub parent_id: Option<i64>,
    pub created_at: String,
    pub updated_at: String,
}

/// The ghost image of an optional id.
pub open spec fn opt_int(v: Option<i64>) -> Option<int> {
    match v {
        Some(x) => Some(x as int),
        None => None,
    }
}

impl View for Note {
    type V = NoteView;

    open spec fn view(&self) -> NoteView {
        NoteView {
            id: self.id as int,
            title: self.title@,
            content: self.content@,
            created_at: self.created_at@,
            updated_at: self.updated_at@,
            folder_id: opt_int(self.folder_id),
            is_starred: self.is_starred,
        }
    }
}

impl Clone for Note {
    fn clone(&self) -> (r: Self)
        ensures
            r@ == self@,
    {
        Note {
            id: self.id,
            title: self.title.clone(),
            content: self.content.clone(),
            created_at: self.created_at.clone(),
            updated_at: self.updated_at.clone(),
            folder_id: self.folder_id,
            is_starred: self.is_starred,
        }
    }
}

impl View for Folder {
    type V = FolderView;

    open spec fn view(&self) -> FolderView {
        FolderView {
            id: self.id as int,
            name: self.name@,
            parent_id: opt_int(self.parent_id),
            created_at: self.created_at@,
            updated_at: self.updated_at@,
        }
    }
}

impl Clone for Folder {
    fn clone(&self) -> (r: Self)
        ensures
            r@ == self@,
    {
        Folder {
            id: self.id,
            name: self.name.clone(),
            parent_id: self.parent_id,
            created_at: self.created_at.clone(),
            updated_at: self.updated_at.clone(),
        }
    }
}

/// The ghost image of a note table.
pub open spec fn note_views(s: Seq<Note>) -> Seq<NoteView> {
    s.map_values(|n: Note| n@)
}

/// The ghost image of a folder table.
pub open spec fn folder_views(s: Seq<Folder>) -> Seq<FolderView> {
    s.map_values(|f: Folder| f@)
}

/// The persistence gateway: owns both tables and generates their ids.
pub struct Store {
    notes: Vec<Note>,
    folders: Vec<Folder>,
    next_note_id: i64,
    next_folder_id: i64,
}

impl View for Store {
    type V = StoreModel;

    closed spec fn view(&self) -> StoreModel {
        StoreModel {
            notes: note_views(self.notes@),
            folders: folder_views(self.folders@),
            next_note_id: self.next_note_id as int,
            next_folder_id: self.next_folder_id as int,
        }
    }
}

impl Store {
    /// Whether the store is well formed; established by [`Store::new`] and
    /// preserved by every operation.
    pub open spec fn wf(&self) -> bool {
        store_wf(self@)
    }

    /// An empty store. Ids start at 1, as the storage engine assigns them.
    pub fn new() -> (r: Store)
        ensures
            r.wf(),
            r@.notes =~= Seq::<NoteView>::empty(),
            r@.folders =~= Seq::<FolderView>::empty(),
            r@.next_note_id == 1,
            r@.next_folder_id == 1,
    {
        Store { notes: Vec::new(), folders: Vec::new(), next_note_id: 1, next_folder_id: 1 }
    }

    /// Inserts a note with the given text and folder at the given time.
    /// The note is appended with the next free id, unstarred, with both
    /// timestamps equal to `now`; folders are untouched.
    pub fn add_note_at(
        &mut self,
        title: String,
        content: String,
        folder_id: Option<i64>,
        now: String,
    ) -> (r: Note)
        requires
            old(self).wf(),
            old(self)@.next_note_id < i64::MAX,
        ensures
            final(self).wf(),
            final(self)@ == add_note_model(old(self)@, title@, content@, opt_int(folder_id), now@),
            r@ == new_note(old(self)@, title@, content@, opt_int(folder_id), now@),
    {
        let note = Note {
            id: self.next_note_id,
            title: title,
            content: content,
            created_at: now.clone(),
            updated_at: now,
            folder_id: folder_id,
            is_starred: false,
        };
        let r = note.clone();
        self.notes.push(note);
        self.next_note_id = self.next_note_id + 1;
        proof {
            assert(note_views(self.notes@) =~= note_views(old(self).notes@).push(r@));
            assert(self@ =~= add_note_model(
                old(self)@,
                r.title@,
                r.content@,
                opt_int(r.folder_id),
                r.created_at@,
            ));
        }
        r
    }

    /// Puts `n` in place of the note at position `i` and returns a copy
    /// of it; nothing else changes.
    fn replace_note(&mut self, i: usize, n: Note) -> (r: Note)
        requires
            i < old(self)@.notes.len(),
        ensures
            final(self)@.notes == old(self)@.notes.update(i as int, n@),
            final(self)@.folders == old(self)@.folders,
            final(self)@.next_note_id == old(self)@.next_note_id,
            final(self)@.next_folder_id == old(self)@.next_folder_id,
            r@ == n@,
    {
        let r = n.clone();
        let _ = self.notes.remove(i);
        self.notes.insert(i, n);
        proof {
            lemma_remove_insert_is_update(old(self).notes@, i as int, self.notes@[i as int]);
            assert(note_views(self.notes@) =~= note_views(old(self).notes@).update(
                i as int,
                r@,
            ));
        }
        r
    }

    /// Puts `f` in place of the folder at position `i` and returns a copy
    /// of it; nothing else changes.
    fn replace_folder(&mut self, i: usize, f: Folder) -> (r: Folder)
        requires
            i < old(self)@.folders.len(),
        ensures
            final(self)@.folders == old(self)@.folders.update(i as int, f@),
            final(self)@.notes == old(self)@.notes,
            final(self)@.next_note_id == old(self)@.next_note_id,
            final(self)@.next_folder_id == old(self)@.next_folder_id,
            r@ == f@,
    {
        let r = f.clone();
        let _ = self.folders.remove(i);
        self.folders.insert(i, f);
        proof {
            lemma_remove_insert_is_update(old(self).folders@, i as int, self.folders@[i as int]);
            assert(folder_views(self.folders@) =~= folder_views(old(self).folders@).update(
                i as int,
                r@,
            ));
        }
        r
    }

    /// Whether another note id is available: inserting a note needs one.
    pub fn can_add_note(&self) -> (r: bool)
        ensures
            r == (self@.next_note_id < i64::MAX),
    {
        self.next_note_id < i64::MAX
    }

    /// Whether another folder id is available.
    pub fn can_add_folder(&self) -> (r: bool)
        ensures
            r == (self@.next_folder_id < i64::MAX),
    {
        self.next_folder_id < i64::MAX
    }

    /// Position of the note with the given id in the table.
    fn find_note(&self, id: i64) -> (r: Option<usize>)
        ensures
            match r {
                Some(i) => 0 <= i as int && i as int == note_idx(self@.notes, id as int)
                    && (i as int) < self@.notes.len(),
                None => note_idx(self@.notes, id as int) == -1,
            },
    {
        let mut i: usize = 0;
        while i < self.notes.len()
            invariant
                i <= self.notes@.len(),
                forall|k: int|
                    0 <= k < i ==> (#[trigger] note_views(self.notes@)[k]).id != id as int,
            decreases self.notes@.len() - i,
        {
            if self.notes[i].id == id {
                proof {
                    lemma_note_idx_first(self@.notes, id as int, i as int);
                }
                return Some(i);
            }
            i = i + 1;
        }
        proof {
            lemma_note_idx_props(self@.notes, id as int);
        }
        None
    }

    /// Position of the folder with the given id in the table.
    fn find_folder(&self, id: i64) -> (r: Option<usize>)
        ensures
            match r {
                Some(i) => 0 <= i as int && i as int == folder_idx(self@.folders, id as int)
                    && (i as int) < self@.folders.len(),
                None => folder_idx(self@.folders, id as int) == -1,
            },
    {
        let mut i: usize = 0;
        while i < self.folders.len()
            invariant
                i <= self.folders@.len(),
                forall|k: int|
                    0 <= k < i ==> (#[trigger] folder_views(self.folders@)[k]).id != id as int,
            decreases self.folders@.len() - i,
        {
            if self.folders[i].id == id {
                proof {
                    lemma_folder_idx_first(self@.folders, id as int, i as int);
                }
                return Some(i);
            }
            i = i + 1;
        }
        proof {
            lemma_folder_idx_props(self@.folders, id as int);
        }
        None
    }

    /// Overwrites a note's title and content at the given time. Only that
    /// note changes, and only its title, content and update time; its
    /// folder and star are deliberately kept. Absent id: `NotFound` and
    /// nothing changes.
    pub fn update_note_at(
        &mut self,
        id: i64,
        title: String,
        content: String,
        now: String,
    ) -> (r: Result<Note, GatewayError>)
        requires
            old(self).wf(),
        ensures
            final(self).wf(),
            ({
                let res = update_note_model(old(self)@, id as int, title@, content@, now@);
                match res {
                    Err(e) => r == Err::<Note, GatewayError>(e) && final(self)@ == old(self)@,
                    Ok(m2) => (r matches Ok(n) && final(self)@ == m2 && n@ == m2.notes[note_idx(
                        old(self)@.notes,
                        id as int,
                    )]),
                }
            }),
    {
        match self.find_note(id) {
            None => Err(GatewayError::NotFound),
            Some(i) => {
                let updated = Note {
                    id: self.notes[i].id,
                    title: title,
                    content: content,
                    created_at: self.notes[i].created_at.clone(),
                    updated_at: now,
                    folder_id: self.notes[i].folder_id,
                    is_starred: self.notes[i].is_starred,
                };
                let r = self.replace_note(i, updated);
                proof {
                    assert(self@ =~= update_note_model(
                        old(self)@,
                        id as int,
                        r@.title,
                        r@.content,
                        r@.updated_at,
                    )->Ok_0);
                    assert(store_wf(self@));
                }
                Ok(r)
            },
        }
    }

    /// Moves a note to the given folder, or detaches it when the target is
    /// `None`, at the given time. Only the note's folder and update time
    /// change. Absent id: `NotFound` and nothing changes.
    pub fn move_note_to_folder_at(
        &mut self,
        note_id: i64,
        folder_id: Option<i64>,
        now: String,
    ) -> (r: Result<Note, GatewayError>)
        requires
            old(self).wf(),
        ensures
            final(self).wf(),
            ({
                let res = move_note_model(old(self)@, note_id as int, opt_int(folder_id), now@);
                match res {
                    Err(e) => r == Err::<Note, GatewayError>(e) && final(self)@ == old(self)@,
                    Ok(m2) => (r matches Ok(n) && final(self)@ == m2 && n@ == m2.notes[note_idx(
                        old(self)@.notes,
                        note_id as int,
                    )]),
                }
            }),
    {
        match self.find_note(note_id) {
            None => Err(GatewayError::NotFound),
            Some(i) => {
                let updated = Note {
                    id: self.notes[i].id,
                    title: self.notes[i].title.clone(),
                    content: self.notes[i].content.clone(),
                    created_at: self.notes[i].created_at.clone(),
                    updated_at: now,
                    folder_id: folder_id,
                    is_starred: self.notes[i].is_starred,
                };
                let r = self.replace_note(i, updated);
                proof {
                    assert(self@ =~= move_note_model(
                        old(self)@,
                        note_id as int,
                        r@.folder_id,
                        r@.updated_at,
                    )->Ok_0);
                    assert(store_wf(self@));
                }
                Ok(r)
            },
        }
    }

    /// Flips a note's star. The update time is deliberately kept: starring
    /// is metadata, not a content edit. Absent id: `NotFound` and nothing
    /// changes.
    pub fn toggle_note_starred(&mut self, note_id: i64) -> (r: Result<Note, GatewayError>)
        requires
            old(self).wf(),
        ensures
            final(self).wf(),
            ({
                let res = toggle_note_model(old(self)@, note_id as int);
                match res {
                    Err(e) => r == Err::<Note, GatewayError>(e) && final(self)@ == old(self)@,
                    Ok(m2) => (r matches Ok(n) && final(self)@ == m2 && n@ == m2.notes[note_idx(
                        old(self)@.notes,
                        note_id as int,
                    )]),
                }
            }),
    {
        match self.find_note(note_id) {
            None => Err(GatewayError::NotFound),
            Some(i) => {
                let updated = Note {
                    id: self.notes[i].id,
                    title: self.notes[i].title.clone(),
                    content: self.notes[i].content.clone(),
                    created_at: self.notes[i].created_at.clone(),
                    updated_at: self.notes[i].updated_at.clone(),
                    folder_id: self.notes[i].folder_id,
                    is_starred: !self.notes[i].is_starred,
                };
                let r = self.replace_note(i, updated);
                proof {
                    assert(self@ =~= toggle_note_model(old(self)@, note_id as int)->Ok_0);
                    assert(store_wf(self@));
                }
                Ok(r)
            },
        }
    }

    /// Removes a note. Absent id: `NotFound` and nothing changes.
    pub fn delete_note(&mut self, id: i64) -> (r: Result<(), GatewayError>)
        requires
            old(self).wf(),
        ensures
            final(self).wf(),
            ({
                let res = delete_note_model(old(self)@, id as int);
                match res {
                    Err(e) => r == Err::<(), GatewayError>(e) && final(self)@ == old(self)@,
                    Ok(m2) => r == Ok::<(), GatewayError>(()) && final(self)@ == m2,
                }
            }),
    {
        match self.find_note(id) {
            None => Err(GatewayError::NotFound),
            Some(i) => {
                let _ = self.notes.remove(i);
                proof {
                    assert(note_views(self.notes@) =~= note_views(old(self).notes@).remove(
                        i as int,
                    ));
                    assert(self@ =~= delete_note_model(old(self)@, id as int)->Ok_0);
                    assert forall|k1: int, k2: int|
                        0 <= k1 < k2 < self@.notes.len() implies (#[trigger] self@.notes[k1]).id
                        != (#[trigger] self@.notes[k2]).id by {
                        let o1: int = if k1 < i as int {
                            k1
                        } else {
                            k1 + 1
                        };
                        let o2: int = if k2 < i as int {
                            k2
                        } else {
                            k2 + 1
                        };
                        assert(self@.notes[k1] == old(self)@.notes[o1]);
                        assert(self@.notes[k2] == old(self)@.notes[o2]);
                    }
                    assert forall|k: int|
                        0 <= k < self@.notes.len() implies 1 <= (#[trigger] self@.notes[k]).id
                        < self@.next_note_id by {
                        let o: int = if k < i as int {
                            k
                        } else {
                            k + 1
                        };
                        assert(self@.notes[k] == old(self)@.notes[o]);
                    }
                    assert(store_wf(self@));
                }
                Ok(())
            },
        }
    }

    /// All notes, most recently updated first; ties keep table order. A
    /// pure read: the store is unchanged and the listing is a function of
    /// its contents alone.
    pub fn get_notes(&self) -> (r: Vec<Note>)
        ensures
            note_views(r@) == sort_notes_desc(self@.notes),
    {
        let mut v: Vec<Note> = Vec::new();
        let mut i: usize = 0;
        proof {
            assert(note_views(v@) =~= note_views(self.notes@).take(0));
        }
        while i < self.notes.len()
            invariant
                i <= self.notes@.len(),
                note_views(v@) =~= note_views(self.notes@).take(i as int),
            decreases self.notes@.len() - i,
        {
            let n = self.notes[i].clone();
            let ghost pre: Seq<Note> = v@;
            v.push(n);
            proof {
                assert(note_views(v@) =~= note_views(pre).push(
                    note_views(self.notes@)[i as int],
                ));
                assert(note_views(self.notes@).take(i + 1) =~= note_views(
                    self.notes@,
                ).take(i as int).push(note_views(self.notes@)[i as int]));
            }
            i = i + 1;
        }
        proof {
            assert(note_views(self.notes@).take(self.notes@.len() as int) =~= self@.notes);
        }
        sort_notes_by_updated(v)
    }

    /// The notes under the given folder filter: those filed in the folder,
    /// or the unfiled ones when the filter is `None`; ordered as
    /// [`Store::get_notes`] orders them.
    pub fn get_notes_by_folder(&self, folder_id: Option<i64>) -> (r: Vec<Note>)
        ensures
            note_views(r@) == sort_notes_desc(notes_in_folder(self@.notes, opt_int(folder_id))),
    {
        let mut v: Vec<Note> = Vec::new();
        let mut i: usize = 0;
        proof {
            assert(note_views(self.notes@).take(0) =~= Seq::<NoteView>::empty());
            assert(note_views(v@) =~= notes_in_folder(
                note_views(self.notes@).take(0),
                opt_int(folder_id),
            ));
        }
        while i < self.notes.len()
            invariant
                i <= self.notes@.len(),
                note_views(v@) =~= notes_in_folder(
                    note_views(self.notes@).take(i as int),
                    opt_int(folder_id),
                ),
            decreases self.notes@.len() - i,
        {
            let keep = match (self.notes[i].folder_id, folder_id) {
                (Some(a), Some(b)) => a == b,
                (None, None) => true,
                _ => false,
            };
            proof {
                lemma_notes_in_folder_step(note_views(self.notes@), i as int, opt_int(folder_id));
                assert(keep == (note_views(self.notes@)[i as int].folder_id == opt_int(
                    folder_id,
                )));
            }
            if keep {
                let n = self.notes[i].clone();
                v.push(n);
            }
            i = i + 1;
        }
        proof {
            assert(note_views(self.notes@).take(self.notes@.len() as int) =~= self@.notes);
        }
        sort_notes_by_updated(v)
    }

    /// Inserts a folder with the given name and parent at the given time.
    /// The folder is appended with the next free id, with both timestamps
    /// equal to `now`; notes are untouched. The parent is not checked: a
    /// dangling or nested parent id is stored as given.
    pub fn create_folder_at(
        &mut self,
        name: String,
        parent_id: Option<i64>,
        now: String,
    ) -> (r: Folder)
        requires
            old(self).wf(),
            old(self)@.next_folder_id < i64::MAX,
        ensures
            final(self).wf(),
            final(self)@ == create_folder_model(old(self)@, name@, opt_int(parent_id), now@),
            r@ == new_folder(old(self)@, name@, opt_int(parent_id), now@),
    {
        let folder = Folder {
            id: self.next_folder_id,
            name: name,
            parent_id: parent_id,
            created_at: now.clone(),
            updated_at: now,
        };
        let r = folder.clone();
        self.folders.push(folder);
        self.next_folder_id = self.next_folder_id + 1;
        proof {
            assert(folder_views(self.folders@) =~= folder_views(old(self).folders@).push(r@));
            assert(self@ =~= create_folder_model(
                old(self)@,
                r.name@,
                opt_int(r.parent_id),
                r.created_at@,
            ));
        }
        r
    }

    /// Renames and reparents a folder at the given time. A folder may
    /// never be its own parent: that is rejected with `InvalidOperation`
    /// before the id is looked up, and nothing changes. Longer parent
    /// cycles are not checked. Absent id: `NotFound` and nothing changes.
    pub fn update_folder_at(
        &mut self,
        id: i64,
        name: String,
        parent_id: Option<i64>,
        now: String,
    ) -> (r: Result<Folder, GatewayError>)
        requires
            old(self).wf(),
        ensures
            final(self).wf(),
            ({
                let res = update_folder_model(old(self)@, id as int, name@, opt_int(parent_id), now@);
                match res {
                    Err(e) => r == Err::<Folder, GatewayError>(e) && final(self)@ == old(self)@,
                    Ok(m2) => (r matches Ok(f) && final(self)@ == m2 && f@ == m2.folders[folder_idx(
                        old(self)@.folders,
                        id as int,
                    )]),
                }
            }),
    {
        if let Some(pid) = parent_id {
            if pid == id {
                return Err(GatewayError::InvalidOperation);
            }
        }
        match self.find_folder(id) {
            None => Err(GatewayError::NotFound),
            Some(i) => {
                let updated = Folder {
                    id: self.folders[i].id,
                    name: name,
                    parent_id: parent_id,
                    created_at: self.folders[i].created_at.clone(),
                    updated_at: now,
                };
                let r = self.replace_folder(i, updated);
                proof {
                    assert(self@ =~= update_folder_model(
                        old(self)@,
                        id as int,
                        r@.name,
                        r@.parent_id,
                        r@.updated_at,
                    )->Ok_0);
                    assert(store_wf(self@));
                }
                Ok(r)
            },
        }
    }

    /// Deletes a folder: its notes are first detached (kept, not deleted,
    /// and their update times kept), then the folder row is removed. Child
    /// folders are left pointing at the removed id. Absent id: `NotFound`
    /// and nothing changes, notes included.
    pub fn delete_folder(&mut self, id: i64) -> (r: Result<(), GatewayError>)
        requires
            old(self).wf(),
        ensures
            final(self).wf(),
            ({
                let res = delete_folder_model(old(self)@, id as int);
                match res {
                    Err(e) => r == Err::<(), GatewayError>(e) && final(self)@ == old(self)@,
                    Ok(m2) => r == Ok::<(), GatewayError>(()) && final(self)@ == m2,
                }
            }),
    {
        match self.find_folder(id) {
            None => Err(GatewayError::NotFound),
            Some(i) => {
                let mut new_notes: Vec<Note> = Vec::new();
                let mut k: usize = 0;
                proof {
                    assert(note_views(new_notes@) =~= detach_all(
                        note_views(self.notes@),
                        id as int,
                    ).take(0));
                }
                while k < self.notes.len()
                    invariant
                        k <= self.notes@.len(),
                        note_views(new_notes@) =~= detach_all(
                            note_views(self.notes@),
                            id as int,
                        ).take(k as int),
                    decreases self.notes@.len() - k,
                {
                    let mut n = self.notes[k].clone();
                    let drop_ref = match n.folder_id {
                        Some(f) => f == id,
                        None => false,
                    };
                    if drop_ref {
                        n.folder_id = None;
                    }
                    proof {
                        assert(n@ == detach_note(note_views(self.notes@)[k as int], id as int));
                    }
                    let ghost pre: Seq<Note> = new_notes@;
                    new_notes.push(n);
                    proof {
                        let all = detach_all(note_views(self.notes@), id as int);
                        assert(note_views(new_notes@) =~= note_views(pre).push(all[k as int]));
                        assert(all.take(k + 1) =~= all.take(k as int).push(all[k as int]));
                    }
                    k = k + 1;
                }
                proof {
                    let all = detach_all(note_views(self.notes@), id as int);
                    assert(all.take(self.notes@.len() as int) =~= all);
                }
                self.notes = new_notes;
                let _ = self.folders.remove(i);
                proof {
                    assert(note_views(self.notes@) =~= detach_all(
                        note_views(old(self).notes@),
                        id as int,
                    ));
                    assert(folder_views(self.folders@) =~= folder_views(old(self).folders@).remove(
                        i as int,
                    ));
                    assert(self@ =~= delete_folder_model(old(self)@, id as int)->Ok_0);
                    assert forall|k1: int, k2: int|
                        0 <= k1 < k2 < self@.folders.len() implies (#[trigger] self@.folders[k1]).id
                        != (#[trigger] self@.folders[k2]).id by {
                        let o1: int = if k1 < i as int {
                            k1
                        } else {
                            k1 + 1
                        };
                        let o2: int = if k2 < i as int {
                            k2
                        } else {
                            k2 + 1
                        };
                        assert(self@.folders[k1] == old(self)@.folders[o1]);
                        assert(self@.folders[k2] == old(self)@.folders[o2]);
                    }
                    assert forall|k3: int|
                        0 <= k3 < self@.folders.len() implies 1 <= (#[trigger] self@.folders[k3]).id
                        < self@.next_folder_id by {
                        let o: int = if k3 < i as int {
                            k3
                        } else {
                            k3 + 1
                        };
                        assert(self@.folders[k3] == old(self)@.folders[o]);
                    }
                    assert(store_wf(self@));
                }
                Ok(())
            },
        }
    }

    /// All folders, by name ascending; ties keep table order. A pure read.
    pub fn get_folders(&self) -> (r: Vec<Folder>)
        ensures
            folder_views(r@) == sort_folders_asc(self@.folders),
    {
        let mut v: Vec<Folder> = Vec::new();
        let mut i: usize = 0;
        proof {
            assert(folder_views(v@) =~= folder_views(self.folders@).take(0));
        }
        while i < self.folders.len()
            invariant
                i <= self.folders@.len(),
                folder_views(v@) =~= folder_views(self.folders@).take(i as int),
            decreases self.folders@.len() - i,
        {
            let f = self.folders[i].clone();
            let ghost pre: Seq<Folder> = v@;
            v.push(f);
            proof {
                assert(folder_views(v@) =~= folder_views(pre).push(
                    folder_views(self.folders@)[i as int],
                ));
                assert(folder_views(self.folders@).take(i + 1) =~= folder_views(
                    self.folders@,
                ).take(i as int).push(folder_views(self.folders@)[i as int]));
            }
            i = i + 1;
        }
        proof {
            assert(folder_views(self.folders@).take(self.folders@.len() as int) =~= self@.folders);
        }
        sort_folders_by_name(v)
    }

    /// Inserts a note stamped with the clock's current time: both of the
    /// new note's timestamps are that one reading, whatever it was.
    pub fn add_note(&mut self, title: String, content: String, folder_id: Option<i64>) -> (r:
        Note)
        requires
            old(self).wf(),
            old(self)@.next_note_id < i64::MAX,
        ensures
            final(self).wf(),
            final(self)@ == add_note_model(
                old(self)@,
                title@,
                content@,
                opt_int(folder_id),
                r@.created_at,
            ),
            r@ == new_note(old(self)@, title@, content@, opt_int(folder_id), r@.created_at),
            r@.created_at == r@.updated_at,
    {
        let now = crate::clock::now_rfc3339();
        self.add_note_at(title, content, folder_id, now)
    }

    /// Overwrites a note's title and content, stamping the update with the
    /// clock's current time.
    pub fn update_note(&mut self, id: i64, title: String, content: String) -> (r: Result<
        Note,
        GatewayError,
    >)
        requires
            old(self).wf(),
        ensures
            final(self).wf(),
            note_idx(old(self)@.notes, id as int) < 0 ==> r == Err::<Note, GatewayError>(
                GatewayError::NotFound,
            ) && final(self)@ == old(self)@,
            note_idx(old(self)@.notes, id as int) >= 0 ==> (r matches Ok(n) && final(self)@
                == update_note_model(old(self)@, id as int, title@, content@, n@.updated_at)->Ok_0
                && n@ == final(self)@.notes[note_idx(old(self)@.notes, id as int)]),
    {
        let now = crate::clock::now_rfc3339();
        let r = self.update_note_at(id, title, content, now);
        proof {
            lemma_note_idx_props(old(self)@.notes, id as int);
        }
        r
    }

    /// Moves a note to a folder (or detaches it), stamping the update with
    /// the clock's current time.
    pub fn move_note_to_folder(&mut self, note_id: i64, folder_id: Option<i64>) -> (r: Result<
        Note,
        GatewayError,
    >)
        requires
            old(self).wf(),
        ensures
            final(self).wf(),
            note_idx(old(self)@.notes, note_id as int) < 0 ==> r == Err::<Note, GatewayError>(
                GatewayError::NotFound,
            ) && final(self)@ == old(self)@,
            note_idx(old(self)@.notes, note_id as int) >= 0 ==> (r matches Ok(n) && final(self)@
                == move_note_model(
                old(self)@,
                note_id as int,
                opt_int(folder_id),
                n@.updated_at,
            )->Ok_0 && n@ == final(self)@.notes[note_idx(old(self)@.notes, note_id as int)]),
    {
        let now = crate::clock::now_rfc3339();
        let r = self.move_note_to_folder_at(note_id, folder_id, now);
        proof {
            lemma_note_idx_props(old(self)@.notes, note_id as int);
        }
        r
    }

    /// Inserts a folder stamped with the clock's current time.
    pub fn create_folder(&mut self, name: String, parent_id: Option<i64>) -> (r: Folder)
        requires
            old(self).wf(),
            old(self)@.next_folder_id < i64::MAX,
        ensures
            final(self).wf(),
            final(self)@ == create_folder_model(
                old(self)@,
                name@,
                opt_int(parent_id),
                r@.created_at,
            ),
            r@ == new_folder(old(self)@, name@, opt_int(parent_id), r@.created_at),
            r@.created_at == r@.updated_at,
    {
        let now = crate::clock::now_rfc3339();
        self.create_folder_at(name, parent_id, now)
    }

    /// Renames and reparents a folder, stamping the update with the
    /// clock's current time. Self-parenting is rejected outright.
    pub fn update_folder(&mut self, id: i64, name: String, parent_id: Option<i64>) -> (r: Result<
        Folder,
        GatewayError,
    >)
        requires
            old(self).wf(),
        ensures
            final(self).wf(),
            opt_int(parent_id) == Some(id as int) ==> r == Err::<Folder, GatewayError>(
                GatewayError::InvalidOperation,
            ) && final(self)@ == old(self)@,
            opt_int(parent_id) != Some(id as int) && folder_idx(old(self)@.folders, id as int) < 0
                ==> r == Err::<Folder, GatewayError>(GatewayError::NotFound) && final(self)@ == old(
                self,
            )@,
            opt_int(parent_id) != Some(id as int) && folder_idx(old(self)@.folders, id as int) >= 0
                ==> (r matches Ok(f) && final(self)@ == update_folder_model(
                old(self)@,
                id as int,
                name@,
                opt_int(parent_id),
                f@.updated_at,
            )->Ok_0 && f@ == final(self)@.folders[folder_idx(old(self)@.folders, id as int)]),
    {
        let now = crate::clock::now_rfc3339();
        let r = self.update_folder_at(id, name, parent_id, now);
        proof {
            lemma_folder_idx_props(old(self)@.folders, id as int);
        }
        r
    }
}

} // verus!
