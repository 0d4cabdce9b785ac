use vstd::prelude::*;

use crate::DbError;
use crate::text_fits;
use crate::MAX_TEXT_LEN;
use crate::models::Task;
use crate::models::Bookmark;
use crate::models::BookmarkRow;
use crate::models::BookmarkSection;
use crate::models::Switch;
use crate::models::SwitchRow;
use crate::models::SqlValue;
use crate::models::sql_eq;
use crate::models::bookmark_decodes;
use crate::models::bookmark_from_storage;
use crate::models::clone_opt_string;
use crate::tags::join_tags;
use crate::json::JsonValue;
use crate::json::JsonV;
use crate::json::jv;
use crate::json::jv_list;
use crate::json::jv_fields;
use crate::json::lemma_jv_list;
use crate::json::lemma_jv_fields;
use crate::json::base64_of;
use crate::json::encode_base64;
use crate::json::obj_get;
use crate::json::fields_get;
use crate::json::j_str_or;
use crate::json::j_opt_str;
use crate::json::j_int_or;
use crate::json::j_arr;
use crate::strorder::cmp_str;
use crate::strorder::StrOrd;
use crate::strorder::str_lt;
use crate::strorder::str_le;
use crate::strorder::lemma_str_lt_trichotomy;
use crate::strorder::lemma_str_lt_trans;
use crate::strorder::lemma_str_le_trans;
use crate::strorder::lemma_str_lt_le_trans;
use crate::strorder::lemma_str_le_lt_trans;

verus! {

/// Tasks are kept ordered by creation time, newest first.
pub open spec fn tasks_sorted(s: Seq<Task>) -> bool {
    forall|i: int, j: int|
        0 <= i < j < s.len() ==> str_le(#[trigger] s[j].created_at@, #[trigger] s[i].created_at@)
}

/// Bookmark row `a` orders no later than `b`: by section, then by label.
pub open spec fn bm_le(a: BookmarkRow, b: BookmarkRow) -> bool {
    str_lt(a.section@, b.section@) || (a.section@ == b.section@ && str_le(a.label@, b.label@))
}

/// Bookmarks are kept ordered by section, then label.
pub open spec fn bookmarks_sorted(s: Seq<BookmarkRow>) -> bool {
    forall|i: int, j: int| 0 <= i < j < s.len() ==> bm_le(#[trigger] s[i], #[trigger] s[j])
}

/// Switches are kept ordered by name.
pub open spec fn switches_sorted(s: Seq<SwitchRow>) -> bool {
    forall|i: int, j: int|
        0 <= i < j < s.len() ==> str_le(#[trigger] s[i].name@, #[trigger] s[j].name@)
}

/// Task identities are distinct and below the next free identity.
pub open spec fn task_ids_ok(s: Seq<Task>, next: i64) -> bool {
    &&& forall|i: int, j: int| 0 <= i < j < s.len() ==> s[i].id != s[j].id
    &&& forall|i: int| 0 <= i < s.len() ==> 1 <= #[trigger] s[i].id < next
}

/// Bookmark identities are distinct and below the next free identity.
pub open spec fn bookmark_ids_ok(s: Seq<BookmarkRow>, next: i64) -> bool {
    &&& forall|i: int, j: int| 0 <= i < j < s.len() ==> s[i].id != s[j].id
    &&& forall|i: int| 0 <= i < s.len() ==> 1 <= #[trigger] s[i].id < next
}

/// Switch identities are distinct and below the next free identity.
pub open spec fn switch_ids_ok(s: Seq<SwitchRow>, next: i64) -> bool {
    &&& forall|i: int, j: int| 0 <= i < j < s.len() ==> s[i].id != s[j].id
    &&& forall|i: int| 0 <= i < s.len() ==> 1 <= #[trigger] s[i].id < next
}

/// Column count of each export-only table's projection.
pub const USERS_COLS: usize = 5;

pub const PORTS_COLS: usize = 7;

pub const VLANS_COLS: usize = 5;

pub const MANUALS_COLS: usize = 4;

pub const FORMATS_COLS: usize = 4;

/// Every row of an export-only table has the table's column count.
pub open spec fn aux_rows_ok(rows: Seq<Vec<SqlValue>>, cols: usize) -> bool {
    forall|i: int| 0 <= i < rows.len() ==> (#[trigger] rows[i])@.len() == cols
}

/// The whole database as the store holds it: the three repository tables,
/// the export-only passenger tables, and the next free identity of each
/// repository table.
pub struct DbState {
    pub tasks: Vec<Task>,
    pub bookmarks: Vec<BookmarkRow>,
    pub switches: Vec<SwitchRow>,
    pub users: Vec<Vec<SqlValue>>,
    pub ports: Vec<Vec<SqlValue>>,
    pub vlans: Vec<Vec<SqlValue>>,
    pub manuals: Vec<Vec<SqlValue>>,
    pub formats: Vec<Vec<SqlValue>>,
    pub next_task_id: i64,
    pub next_bookmark_id: i64,
    pub next_switch_id: i64,
}

/// The task table and its identity counter are the same in both states.
pub open spec fn tasks_unchanged(a: DbState, b: DbState) -> bool {
    a.tasks == b.tasks && a.next_task_id == b.next_task_id
}

/// The bookmark table and its identity counter are the same in both states.
pub open spec fn bookmarks_unchanged(a: DbState, b: DbState) -> bool {
    a.bookmarks == b.bookmarks && a.next_bookmark_id == b.next_bookmark_id
}

/// The switch table and its identity counter are the same in both states.
pub open spec fn switches_unchanged(a: DbState, b: DbState) -> bool {
    a.switches == b.switches && a.next_switch_id == b.next_switch_id
}

/// The export-only tables are the same in both states.
pub open spec fn aux_unchanged(a: DbState, b: DbState) -> bool {
    &&& a.users == b.users
    &&& a.ports == b.ports
    &&& a.vlans == b.vlans
    &&& a.manuals == b.manuals
    &&& a.formats == b.formats
}

impl DbState {
    /// The store's invariant: each repository table is sorted in its listing
    /// order, identities are distinct and below the table's next free one,
    /// and every export-only row has its table's column count.
    pub open spec fn wf(self) -> bool {
        &&& tasks_sorted(self.tasks@)
        &&& task_ids_ok(self.tasks@, self.next_task_id)
        &&& bookmarks_sorted(self.bookmarks@)
        &&& bookmark_ids_ok(self.bookmarks@, self.next_bookmark_id)
        &&& switches_sorted(self.switches@)
        &&& switch_ids_ok(self.switches@, self.next_switch_id)
        &&& 1 <= self.next_task_id
        &&& 1 <= self.next_bookmark_id
        &&& 1 <= self.next_switch_id
        &&& aux_rows_ok(self.users@, USERS_COLS)
        &&& aux_rows_ok(self.ports@, PORTS_COLS)
        &&& aux_rows_ok(self.vlans@, VLANS_COLS)
        &&& aux_rows_ok(self.manuals@, MANUALS_COLS)
        &&& aux_rows_ok(self.formats@, FORMATS_COLS)
    }

    /// Opens a fresh, empty store with the schema established.
    pub fn new() -> (s: DbState)
        ensures
            s.wf(),
            s.tasks@.len() == 0,
            s.bookmarks@.len() == 0,
            s.switches@.len() == 0,
            s.users@.len() == 0,
            s.ports@.len() == 0,
            s.vlans@.len() == 0,
            s.manuals@.len() == 0,
            s.formats@.len() == 0,
            s.next_task_id == 1,
            s.next_bookmark_id == 1,
            s.next_switch_id == 1,
    {
        DbState {
            tasks: Vec::new(),
            bookmarks: Vec::new(),
            switches: Vec::new(),
            users: Vec::new(),
            ports: Vec::new(),
            vlans: Vec::new(),
            manuals: Vec::new(),
            formats: Vec::new(),
            next_task_id: 1,
            next_bookmark_id: 1,
            next_switch_id: 1,
        }
    }

    /// All rows of the task table, newest first.
    pub fn list_tasks(&self) -> (r: Result<Vec<Task>, DbError>)
        ensures
            r matches Ok(v) && v@ == self.tasks@,
    {
        let v = self.tasks.clone();
        proof {
            assert(v@ =~= self.tasks@);
        }
        Ok(v)
    }

    /// Inserts a new task titled `title`, not yet completed, stamped with
    /// the server-assigned creation time `now`.
    pub fn create_task(&mut self, title: &str, now: &str) -> (r: Result<(), DbError>)
        requires
            old(self).wf(),
        ensures
            final(self).wf(),
            r is Ok <==> text_fits(title@) && text_fits(now@) && old(self).next_task_id
                < i64::MAX,
            r is Err ==> *final(self) == *old(self),
            r matches Err(e) ==> (e == DbError::TextTooLarge <==> !(text_fits(title@)
                && text_fits(now@))),
            r is Ok ==> task_created(*old(self), *final(self), title@, now@),
            bookmarks_unchanged(*old(self), *final(self)),
            switches_unchanged(*old(self), *final(self)),
            aux_unchanged(*old(self), *final(self)),
    {
        if title.unicode_len() > MAX_TEXT_LEN || now.unicode_len() > MAX_TEXT_LEN {
            return Err(DbError::TextTooLarge);
        }
        if self.next_task_id == i64::MAX {
            return Err(DbError::IdExhausted);
        }
        let t = Task {
            id: self.next_task_id,
            title: title.to_owned(),
            completed: 0,
            created_at: now.to_owned(),
        };
        let ghost tv = t;
        let pos = insert_task_sorted(&mut self.tasks, t);
        self.next_task_id = self.next_task_id + 1;
        proof {
            let s0 = old(self).tasks@;
            let s1 = self.tasks@;
            let p = pos as int;
            assert forall|i: int, j: int|
                0 <= i < j < s1.len() implies s1[i].id != s1[j].id by {
                assert(s1 == s0.insert(p, tv));
                lemma_insert_shape(s0, p, tv, i);
                lemma_insert_shape(s0, p, tv, j);
            }
            assert forall|i: int| 0 <= i < s1.len() implies 1 <= #[trigger] s1[i].id
                < self.next_task_id by {
                lemma_insert_shape(s0, p, tv, i);
            }
        }
        Ok(())
    }

    /// Sets the completed flag of the task with identity `id`, leaving its
    /// title and creation time untouched; a missing identity changes
    /// nothing.
    pub fn toggle_task(&mut self, id: i64, completed: bool) -> (r: Result<(), DbError>)
        requires
            old(self).wf(),
        ensures
            final(self).wf(),
            r is Ok,
            task_toggled(*old(self), *final(self), id, completed),
            final(self).next_task_id == old(self).next_task_id,
            bookmarks_unchanged(*old(self), *final(self)),
            switches_unchanged(*old(self), *final(self)),
            aux_unchanged(*old(self), *final(self)),
    {
        let val: i64 = if completed {
            1
        } else {
            0
        };
        let mut j: usize = 0;
        while j < self.tasks.len()
            invariant
                j <= self.tasks.len(),
                val == (if completed {
                    1int
                } else {
                    0int
                }),
                self.tasks@.len() == old(self).tasks@.len(),
                forall|i: int|
                    j <= i < self.tasks@.len() ==> #[trigger] self.tasks@[i] == old(
                        self,
                    ).tasks@[i],
                forall|i: int|
                    0 <= i < j ==> {
                        let t0 = #[trigger] old(self).tasks@[i];
                        let t1 = self.tasks@[i];
                        if t0.id == id {
                            t1.id == t0.id && t1.title == t0.title && t1.created_at
                                == t0.created_at && t1.completed == (if completed {
                                1int
                            } else {
                                0int
                            })
                        } else {
                            t1 == t0
                        }
                    },
                self.next_task_id == old(self).next_task_id,
                self.bookmarks == old(self).bookmarks,
                self.next_bookmark_id == old(self).next_bookmark_id,
                self.switches == old(self).switches,
                self.next_switch_id == old(self).next_switch_id,
                self.users == old(self).users,
                self.ports == old(self).ports,
                self.vlans == old(self).vlans,
                self.manuals == old(self).manuals,
                self.formats == old(self).formats,
            decreases self.tasks.len() - j,
        {
            if self.tasks[j].id == id {
                let t = self.tasks[j].clone();
                proof {
                    assert(t == self.tasks@[j as int]);
                    assert(self.tasks@[j as int] == old(self).tasks@[j as int]);
                }
                let updated = Task {
                    id: t.id,
                    title: t.title,
                    completed: val,
                    created_at: t.created_at,
                };
                self.tasks.set(j, updated);
                proof {
                    assert(self.tasks@[j as int].title == old(self).tasks@[j as int].title);
                    assert(self.tasks@[j as int].created_at == old(
                        self,
                    ).tasks@[j as int].created_at);
                }
            }
            j = j + 1;
        }
        proof {
            let s0 = old(self).tasks@;
            let s1 = self.tasks@;
            assert forall|i: int, k: int|
                0 <= i < k < s1.len() implies str_le(
                s1[k].created_at@,
                s1[i].created_at@,
            ) by {
                assert(s1[i].created_at == s0[i].created_at);
                assert(s1[k].created_at == s0[k].created_at);
            }
            assert forall|i: int, k: int| 0 <= i < k < s1.len() implies s1[i].id != s1[k].id by {
                assert(s1[i].id == s0[i].id);
                assert(s1[k].id == s0[k].id);
            }
            assert forall|i: int| 0 <= i < s1.len() implies 1 <= #[trigger] s1[i].id
                < self.next_task_id by {
                assert(s1[i].id == s0[i].id);
            }
        }
        Ok(())
    }

    /// Removes the task with identity `id`; a missing identity changes
    /// nothing and is not an error.
    pub fn delete_task(&mut self, id: i64) -> (r: Result<(), DbError>)
        requires
            old(self).wf(),
        ensures
            final(self).wf(),
            r is Ok,
            (forall|i: int| 0 <= i < old(self).tasks@.len() ==> (#[trigger] old(
                self,
            ).tasks@[i]).id != id) ==> final(self).tasks@ == old(self).tasks@,
            (exists|i: int|
                0 <= i < old(self).tasks@.len() && (#[trigger] old(self).tasks@[i]).id == id)
                ==> exists|i: int|
                {
                    &&& 0 <= i < old(self).tasks@.len()
                    &&& (#[trigger] old(self).tasks@[i]).id == id
                    &&& final(self).tasks@ == old(self).tasks@.remove(i)
                },
            final(self).next_task_id == old(self).next_task_id,
            bookmarks_unchanged(*old(self), *final(self)),
            switches_unchanged(*old(self), *final(self)),
            aux_unchanged(*old(self), *final(self)),
    {
        let mut j: usize = 0;
        while j < self.tasks.len()
            invariant
                j <= self.tasks.len(),
                *self == *old(self),
                old(self).wf(),
                forall|i: int| 0 <= i < j ==> (#[trigger] self.tasks@[i]).id != id,
            decreases self.tasks.len() - j,
        {
            if self.tasks[j].id == id {
                self.tasks.remove(j);
                proof {
                    let s0 = old(self).tasks@;
                    let s1 = self.tasks@;
                    assert forall|a: int, b: int|
                        0 <= a < b < s1.len() implies str_le(
                        s1[b].created_at@,
                        s1[a].created_at@,
                    ) && s1[a].id != s1[b].id by {
                        lemma_remove_shape(s0, j as int, a);
                        lemma_remove_shape(s0, j as int, b);
                    }
                    assert forall|a: int| 0 <= a < s1.len() implies 1 <= #[trigger] s1[a].id
                        < self.next_task_id by {
                        lemma_remove_shape(s0, j as int, a);
                    }
                }
                return Ok(());
            }
            j = j + 1;
        }
        Ok(())
    }

    /// Inserts a new bookmark, storing its tags comma-joined, and returns
    /// the assigned identity.
    pub fn create_bookmark(&mut self, bookmark: &Bookmark) -> (r: Result<i64, DbError>)
        requires
            old(self).wf(),
        ensures
            final(self).wf(),
            r is Ok <==> bookmark_texts_fit(*bookmark) && old(self).next_bookmark_id < i64::MAX,
            r is Err ==> *final(self) == *old(self),
            r matches Ok(rid) ==> {
                &&& rid == old(self).next_bookmark_id
                &&& final(self).next_bookmark_id == old(self).next_bookmark_id + 1
                &&& exists|i: int, row: BookmarkRow|
                    {
                        &&& 0 <= i <= old(self).bookmarks@.len()
                        &&& stored_bookmark(*bookmark, row, rid)
                        &&& final(self).bookmarks@ == old(self).bookmarks@.insert(i, row)
                    }
            },
            tasks_unchanged(*old(self), *final(self)),
            switches_unchanged(*old(self), *final(self)),
            aux_unchanged(*old(self), *final(self)),
    {
        let encoded = bookmark.tags_as_string();
        let mut too_big = bookmark.label.as_str().unicode_len() > MAX_TEXT_LEN
            || bookmark.url.as_str().unicode_len() > MAX_TEXT_LEN
            || bookmark.section.as_str().unicode_len() > MAX_TEXT_LEN;
        match &bookmark.description {
            Some(s) => {
                if s.as_str().unicode_len() > MAX_TEXT_LEN {
                    too_big = true;
                }
            },
            None => {},
        }
        match &encoded {
            Some(s) => {
                if s.as_str().unicode_len() > MAX_TEXT_LEN {
                    too_big = true;
                }
            },
            None => {},
        }
        if too_big {
            return Err(DbError::TextTooLarge);
        }
        if self.next_bookmark_id == i64::MAX {
            return Err(DbError::IdExhausted);
        }
        let rid = self.next_bookmark_id;
        let row = BookmarkRow {
            id: rid,
            label: bookmark.label.clone(),
            url: bookmark.url.clone(),
            section: bookmark.section.clone(),
            description: clone_opt_string(&bookmark.description),
            tags: encoded,
        };
        let ghost rowg = row;
        let pos = insert_bookmark_sorted(&mut self.bookmarks, row);
        self.next_bookmark_id = self.next_bookmark_id + 1;
        proof {
            let s0 = old(self).bookmarks@;
            let s1 = self.bookmarks@;
            let p = pos as int;
            assert forall|i: int, j: int|
                0 <= i < j < s1.len() implies s1[i].id != s1[j].id by {
                lemma_insert_shape(s0, p, rowg, i);
                lemma_insert_shape(s0, p, rowg, j);
            }
            assert forall|i: int| 0 <= i < s1.len() implies 1 <= #[trigger] s1[i].id
                < self.next_bookmark_id by {
                lemma_insert_shape(s0, p, rowg, i);
            }
        }
        Ok(rid)
    }

    /// Removes the bookmark with identity `id`; a missing identity changes
    /// nothing and is not an error.
    pub fn delete_bookmark(&mut self, id: i64) -> (r: Result<(), DbError>)
        requires
            old(self).wf(),
        ensures
            final(self).wf(),
            r is Ok,
            (forall|i: int| 0 <= i < old(self).bookmarks@.len() ==> (#[trigger] old(
                self,
            ).bookmarks@[i]).id != id) ==> final(self).bookmarks@ == old(self).bookmarks@,
            (exists|i: int|
                0 <= i < old(self).bookmarks@.len() && (#[trigger] old(self).bookmarks@[i]).id
                    == id) ==> exists|i: int|
                {
                    &&& 0 <= i < old(self).bookmarks@.len()
                    &&& (#[trigger] old(self).bookmarks@[i]).id == id
                    &&& final(self).bookmarks@ == old(self).bookmarks@.remove(i)
                },
            final(self).next_bookmark_id == old(self).next_bookmark_id,
            tasks_unchanged(*old(self), *final(self)),
            switches_unchanged(*old(self), *final(self)),
            aux_unchanged(*old(self), *final(self)),
    {
        let mut j: usize = 0;
        while j < self.bookmarks.len()
            invariant
                j <= self.bookmarks.len(),
                *self == *old(self),
                old(self).wf(),
                forall|i: int| 0 <= i < j ==> (#[trigger] self.bookmarks@[i]).id != id,
            decreases self.bookmarks.len() - j,
        {
            if self.bookmarks[j].id == id {
                self.bookmarks.remove(j);
                proof {
                    let s0 = old(self).bookmarks@;
                    let s1 = self.bookmarks@;
                    assert forall|a: int, b: int|
                        0 <= a < b < s1.len() implies bm_le(s1[a], s1[b]) && s1[a].id
                        != s1[b].id by {
                        lemma_remove_shape(s0, j as int, a);
                        lemma_remove_shape(s0, j as int, b);
                    }
                    assert forall|a: int| 0 <= a < s1.len() implies 1 <= #[trigger] s1[a].id
                        < self.next_bookmark_id by {
                        lemma_remove_shape(s0, j as int, a);
                    }
                }
                return Ok(());
            }
            j = j + 1;
        }
        Ok(())
    }

    /// The bookmark table folded into its sections: one section per run of
    /// equal section values in the section-then-label order, each section's
    /// links decoded from their stored rows.
    pub fn list_bookmark_sections(&self) -> (r: Result<Vec<BookmarkSection>, DbError>)
        ensures
            r matches Ok(v) && sections_match(grouped(self.bookmarks@), v@),
    {
        let mut out: Vec<BookmarkSection> = Vec::new();
        let mut i: usize = 0;
        proof {
            assert(self.bookmarks@.take(0) =~= Seq::<BookmarkRow>::empty());
        }
        while i < self.bookmarks.len()
            invariant
                i <= self.bookmarks.len(),
                sections_match(grouped(self.bookmarks@.take(i as int)), out@),
            decreases self.bookmarks.len() - i,
        {
            let row = &self.bookmarks[i];
            let b = bookmark_from_storage(row);
            let ghost t1 = self.bookmarks@.take(i + 1);
            let ghost g0 = grouped(self.bookmarks@.take(i as int));
            proof {
                assert(t1.drop_last() =~= self.bookmarks@.take(i as int));
                assert(t1.last() == self.bookmarks@[i as int]);
            }
            let n = out.len();
            let mut same = false;
            if n > 0 {
                same = match cmp_str(out[n - 1].title.as_str(), row.section.as_str()) {
                    StrOrd::Equal => true,
                    _ => false,
                };
            }
            if same {
                let popped = out.pop();
                let mut sec = match popped {
                    Some(s) => s,
                    None => BookmarkSection {
                        id: String::new(),
                        title: String::new(),
                        links: Vec::new(),
                    },
                };
                sec.links.push(b);
                out.push(sec);
                proof {
                    assert(grouped(t1) == g0.update(
                        g0.len() - 1,
                        (g0.last().0, g0.last().1.push(t1.last())),
                    ));
                    assert(out@.len() == g0.len());
                    assert forall|k: int|
                        0 <= k < grouped(t1).len() implies {
                        &&& (#[trigger] out@[k]).id@ == grouped(t1)[k].0
                        &&& out@[k].title@ == grouped(t1)[k].0
                        &&& links_decode(grouped(t1)[k].1, out@[k].links@)
                    } by {
                        if k < g0.len() - 1 {
                            assert(out@[k] == old_seq_at(out@, k));
                        }
                    }
                }
            } else {
                let title1 = row.section.clone();
                let title2 = row.section.clone();
                let mut links: Vec<Bookmark> = Vec::new();
                links.push(b);
                out.push(BookmarkSection { id: title1, title: title2, links });
                proof {
                    assert(grouped(t1) == g0.push((t1.last().section@, seq![t1.last()])));
                    assert(links_decode(seq![t1.last()], out@.last().links@));
                }
            }
            i = i + 1;
        }
        proof {
            assert(self.bookmarks@.take(self.bookmarks@.len() as int) =~= self.bookmarks@);
        }
        Ok(out)
    }

    /// All rows of the switch table as caller-facing records, ordered by
    /// name.
    pub fn list_switches(&self) -> (r: Result<Vec<Switch>, DbError>)
        ensures
            r matches Ok(v) && v@.len() == self.switches@.len(),
            r matches Ok(v) && forall|i: int|
                0 <= i < v@.len() ==> switch_public(#[trigger] self.switches@[i], v@[i]),
    {
        let mut out: Vec<Switch> = Vec::new();
        let mut i: usize = 0;
        while i < self.switches.len()
            invariant
                i <= self.switches.len(),
                out@.len() == i,
                forall|k: int|
                    0 <= k < i ==> switch_public(#[trigger] self.switches@[k], out@[k]),
            decreases self.switches.len() - i,
        {
            let row = &self.switches[i];
            out.push(
                Switch {
                    id: Some(row.id),
                    name: row.name.clone(),
                    ip: row.ip.clone(),
                    location: clone_opt_string(&row.location),
                    notes: clone_opt_string(&row.notes),
                },
            );
            i = i + 1;
        }
        Ok(out)
    }

    /// Saves a switch: with an identity it updates that row's mutable
    /// fields in place (zero rows when the identity is unknown), without
    /// one it inserts a new row; either way it returns the row's identity.
    pub fn upsert_switch(&mut self, switch: &Switch) -> (r: Result<i64, DbError>)
        requires
            old(self).wf(),
        ensures
            final(self).wf(),
            r is Ok <==> switch_texts_fit(*switch) && (switch.id is None ==> old(
                self,
            ).next_switch_id < i64::MAX),
            r is Err ==> *final(self) == *old(self),
            r matches Ok(rid) ==> match switch.id {
                Some(id) => rid == id && switch_saved_by_id(*old(self), *final(self), *switch, id),
                None => rid == old(self).next_switch_id && switch_inserted(
                    *old(self),
                    *final(self),
                    *switch,
                    rid,
                ),
            },
            tasks_unchanged(*old(self), *final(self)),
            bookmarks_unchanged(*old(self), *final(self)),
            aux_unchanged(*old(self), *final(self)),
    {
        let mut too_big = self.check_switch_texts(switch);
        if too_big {
            return Err(DbError::TextTooLarge);
        }
        match &switch.id {
            Some(id_ref) => {
                let id = *id_ref;
                let mut j: usize = 0;
                while j < self.switches.len()
                    invariant
                        j <= self.switches.len(),
                        *self == *old(self),
                        old(self).wf(),
                        switch_texts_fit(*switch),
                        switch.id == Some(id),
                        forall|i: int| 0 <= i < j ==> (#[trigger] self.switches@[i]).id != id,
                    decreases self.switches.len() - j,
                {
                    if self.switches[j].id == id {
                        let old_row = self.switches.remove(j);
                        proof {
                            let s0 = old(self).switches@;
                            let s1 = self.switches@;
                            assert forall|a: int, b: int|
                                0 <= a < b < s1.len() implies str_le(
                                s1[a].name@,
                                s1[b].name@,
                            ) by {
                                lemma_remove_shape(s0, j as int, a);
                                lemma_remove_shape(s0, j as int, b);
                            }
                        }
                        let rownew = SwitchRow {
                            id: old_row.id,
                            name: switch.name.clone(),
                            ip: switch.ip.clone(),
                            location: clone_opt_string(&switch.location),
                            notes: clone_opt_string(&switch.notes),
                            credentials: old_row.credentials,
                            created_at: old_row.created_at,
                        };
                        let ghost rowg = rownew;
                        proof {
                            lemma_sql_eq_refl(rowg.credentials);
                            lemma_sql_eq_refl(rowg.created_at);
                        }
                        let pos = insert_switch_sorted(&mut self.switches, rownew);
                        proof {
                            let s0 = old(self).switches@;
                            let sr = s0.remove(j as int);
                            let s1 = self.switches@;
                            let p = pos as int;
                            assert forall|a: int, b: int|
                                0 <= a < b < s1.len() implies s1[a].id != s1[b].id by {
                                lemma_insert_shape(sr, p, rowg, a);
                                lemma_insert_shape(sr, p, rowg, b);
                                if a != p {
                                    lemma_remove_shape(s0, j as int, if a < p {
                                        a
                                    } else {
                                        a - 1
                                    });
                                }
                                if b != p {
                                    lemma_remove_shape(s0, j as int, if b < p {
                                        b
                                    } else {
                                        b - 1
                                    });
                                }
                            }
                            assert forall|a: int| 0 <= a < s1.len() implies 1
                                <= #[trigger] s1[a].id < self.next_switch_id by {
                                lemma_insert_shape(sr, p, rowg, a);
                                if a != p {
                                    lemma_remove_shape(s0, j as int, if a < p {
                                        a
                                    } else {
                                        a - 1
                                    });
                                }
                            }
                            assert(old(self).switches@[j as int].id == id);
                            assert(updated_switch_row(
                                old(self).switches@[j as int],
                                *switch,
                                rowg,
                            ));
                            assert(self.switches@ == old(self).switches@.remove(
                                j as int,
                            ).insert(pos as int, rowg));
                        }
                        return Ok(id);
                    }
                    j = j + 1;
                }
                Ok(id)
            },
            None => {
                if self.next_switch_id == i64::MAX {
                    return Err(DbError::IdExhausted);
                }
                let rid = self.next_switch_id;
                let rownew = SwitchRow {
                    id: rid,
                    name: switch.name.clone(),
                    ip: switch.ip.clone(),
                    location: clone_opt_string(&switch.location),
                    notes: clone_opt_string(&switch.notes),
                    credentials: SqlValue::Null,
                    created_at: SqlValue::Null,
                };
                let ghost rowg = rownew;
                let pos = insert_switch_sorted(&mut self.switches, rownew);
                self.next_switch_id = self.next_switch_id + 1;
                proof {
                    let s0 = old(self).switches@;
                    let s1 = self.switches@;
                    let p = pos as int;
                    assert forall|i: int, j: int|
                        0 <= i < j < s1.len() implies s1[i].id != s1[j].id by {
                        lemma_insert_shape(s0, p, rowg, i);
                        lemma_insert_shape(s0, p, rowg, j);
                    }
                    assert forall|i: int| 0 <= i < s1.len() implies 1 <= #[trigger] s1[i].id
                        < self.next_switch_id by {
                        lemma_insert_shape(s0, p, rowg, i);
                    }
                }
                Ok(rid)
            },
        }
    }

    /// Whether any text field of the record exceeds the storage size limit.
    fn check_switch_texts(&self, switch: &Switch) -> (r: bool)
        ensures
            r == !switch_texts_fit(*switch),
    {
        let mut too_big = switch.name.as_str().unicode_len() > MAX_TEXT_LEN
            || switch.ip.as_str().unicode_len() > MAX_TEXT_LEN;
        match &switch.location {
            Some(s) => {
                if s.as_str().unicode_len() > MAX_TEXT_LEN {
                    too_big = true;
                }
            },
            None => {},
        }
        match &switch.notes {
            Some(s) => {
                if s.as_str().unicode_len() > MAX_TEXT_LEN {
                    too_big = true;
                }
            },
            None => {},
        }
        too_big
    }

    /// Removes the switch with identity `id`; a missing identity changes
    /// nothing and is not an error.
    pub fn delete_switch(&mut self, id: i64) -> (r: Result<(), DbError>)
        requires
            old(self).wf(),
        ensures
            final(self).wf(),
            r is Ok,
            (forall|i: int| 0 <= i < old(self).switches@.len() ==> (#[trigger] old(
                self,
            ).switches@[i]).id != id) ==> final(self).switches@ == old(self).switches@,
            (exists|i: int|
                0 <= i < old(self).switches@.len() && (#[trigger] old(self).switches@[i]).id
                    == id) ==> exists|i: int|
                {
                    &&& 0 <= i < old(self).switches@.len()
                    &&& (#[trigger] old(self).switches@[i]).id == id
                    &&& final(self).switches@ == old(self).switches@.remove(i)
                },
            final(self).next_switch_id == old(self).next_switch_id,
            tasks_unchanged(*old(self), *final(self)),
            bookmarks_unchanged(*old(self), *final(self)),
            aux_unchanged(*old(self), *final(self)),
    {
        let mut j: usize = 0;
        while j < self.switches.len()
            invariant
                j <= self.switches.len(),
                *self == *old(self),
                old(self).wf(),
                forall|i: int| 0 <= i < j ==> (#[trigger] self.switches@[i]).id != id,
            decreases self.switches.len() - j,
        {
            if self.switches[j].id == id {
                self.switches.remove(j);
                proof {
                    let s0 = old(self).switches@;
                    let s1 = self.switches@;
                    assert forall|a: int, b: int|
                        0 <= a < b < s1.len() implies str_le(s1[a].name@, s1[b].name@) && s1[a].id
                        != s1[b].id by {
                        lemma_remove_shape(s0, j as int, a);
                        lemma_remove_shape(s0, j as int, b);
                    }
                    assert forall|a: int| 0 <= a < s1.len() implies 1 <= #[trigger] s1[a].id
                        < self.next_switch_id by {
                        lemma_remove_shape(s0, j as int, a);
                    }
                }
                return Ok(());
            }
            j = j + 1;
        }
        Ok(())
    }
    /// The whole database as one backup document: every exported table
    /// under its name, rows in table order, with the fixed column
    /// projections.
    pub fn export_json(&self) -> (r: Result<JsonValue, DbError>)
        requires
            self.wf(),
        ensures
            r matches Ok(doc) && jv(doc) == export_doc(*self),
    {
        let mut o: Vec<(String, JsonValue)> = Vec::new();
        let users_arr = self.users_to_json();
        let switches_arr = self.switches_to_json();
        let ports_arr = self.ports_to_json();
        let vlans_arr = self.vlans_to_json();
        let manuals_arr = self.manuals_to_json();
        let formats_arr = self.formats_to_json();
        let bookmarks_arr = self.bookmarks_to_json();
        let tasks_arr = self.tasks_to_json();
        o.push(("users".to_owned(), users_arr));
        o.push(("switches".to_owned(), switches_arr));
        o.push(("ports".to_owned(), ports_arr));
        o.push(("vlans".to_owned(), vlans_arr));
        o.push(("manuals".to_owned(), manuals_arr));
        o.push(("formats".to_owned(), formats_arr));
        o.push(("bookmarks".to_owned(), bookmarks_arr));
        o.push(("tasks".to_owned(), tasks_arr));
        let ghost ov = o@;
        let doc = JsonValue::Obj(o);
        proof {
            lemma_jv_fields_of(doc);
            assert(jv_fields(ov)[0] == (ov[0].0@, jv(ov[0].1)));
            assert(jv_fields(ov)[1] == (ov[1].0@, jv(ov[1].1)));
            assert(jv_fields(ov)[2] == (ov[2].0@, jv(ov[2].1)));
            assert(jv_fields(ov)[3] == (ov[3].0@, jv(ov[3].1)));
            assert(jv_fields(ov)[4] == (ov[4].0@, jv(ov[4].1)));
            assert(jv_fields(ov)[5] == (ov[5].0@, jv(ov[5].1)));
            assert(jv_fields(ov)[6] == (ov[6].0@, jv(ov[6].1)));
            assert(jv_fields(ov)[7] == (ov[7].0@, jv(ov[7].1)));
            let expected = seq![
                ("users"@, JsonV::Arr(aux_json_list(users_cols(), self.users@))),
                ("switches"@, JsonV::Arr(switches_json_list(self.switches@))),
                ("ports"@, JsonV::Arr(aux_json_list(ports_cols(), self.ports@))),
                ("vlans"@, JsonV::Arr(aux_json_list(vlans_cols(), self.vlans@))),
                ("manuals"@, JsonV::Arr(aux_json_list(manuals_cols(), self.manuals@))),
                ("formats"@, JsonV::Arr(aux_json_list(formats_cols(), self.formats@))),
                ("bookmarks"@, JsonV::Arr(bookmarks_json_list(self.bookmarks@))),
                ("tasks"@, JsonV::Arr(tasks_json_list(self.tasks@))),
            ];
            assert(jv_fields(ov) =~~= expected);
            assert(jv(doc) =~~= export_doc(*self));
        }
        Ok(doc)
    }

    /// Applies a backup document: for each of the bookmarks, tasks and
    /// switches keys that holds an array, deletes that table's rows and
    /// inserts one row per entry with documented defaults; the whole
    /// import is atomic, so on any failure the store is exactly as it
    /// was. Imported tasks are stamped with the server time `now`.
    #[verifier::rlimit(60)]
    pub fn import_json(&mut self, data: &JsonValue, now: &str) -> (r: Result<(), DbError>)
        requires
            old(self).wf(),
        ensures
            final(self).wf(),
            r is Ok <==> import_fits(*old(self), jv(*data), now@),
            r is Err ==> *final(self) == *old(self),
            r matches Err(e) ==> e == DbError::TextTooLarge || e == DbError::IdExhausted,
            r is Ok ==> {
                &&& match j_arr(obj_get(jv(*data), "bookmarks"@)) {
                    Some(a) => bookmarks_replaced(*old(self), *final(self), a),
                    None => bookmarks_unchanged(*old(self), *final(self)),
                }
                &&& match j_arr(obj_get(jv(*data), "tasks"@)) {
                    Some(a) => tasks_replaced(*old(self), *final(self), a, now@),
                    None => tasks_unchanged(*old(self), *final(self)),
                }
                &&& match j_arr(obj_get(jv(*data), "switches"@)) {
                    Some(a) => switches_replaced(*old(self), *final(self), a),
                    None => switches_unchanged(*old(self), *final(self)),
                }
                &&& aux_unchanged(*old(self), *final(self))
            },
    {
        let mut new_bm: Option<Vec<BookmarkRow>> = None;
        match data.get("bookmarks") {
            Some(v) => match v.as_array() {
                Some(arr) => {
                    proof {
                        lemma_jv_list(arr@);
                    }
                    if (arr.len() as u64) > ((i64::MAX - self.next_bookmark_id) as u64) {
                        return Err(DbError::IdExhausted);
                    }
                    let base = self.next_bookmark_id;
                    let mut tab: Vec<BookmarkRow> = Vec::new();
                    let mut k: usize = 0;
                    while k < arr.len()
                        invariant
                            k <= arr@.len(),
                            *self == *old(self),
                            old(self).wf(),
                            base == old(self).next_bookmark_id,
                            j_arr(obj_get(jv(*data), "bookmarks"@)) == Some(jv_list(arr@)),
                            jv_list(arr@).len() == arr@.len(),
                            base + arr@.len() <= i64::MAX,
                            tab@.len() == k,
                            bookmarks_sorted(tab@),
                            forall|j: int|
                                0 <= j < tab@.len() ==> base <= (#[trigger] tab@[j]).id < base
                                    + k,
                            forall|j1: int, j2: int|
                                0 <= j1 < j2 < tab@.len() ==> tab@[j1].id != tab@[j2].id,
                            forall|i: int|
                                0 <= i < k ==> bm_item_fits(#[trigger] jv_list(arr@)[i]),
                            forall|i: int|
                                0 <= i < k ==> #[trigger] bm_row_imported(
                                    jv_list(arr@),
                                    i,
                                    base as int,
                                    tab@,
                                ),
                        decreases arr@.len() - k,
                    {
                        proof {
                            lemma_jv_list(arr@);
                        }
                        let id_k = base + (k as i64);
                        let row = match bookmark_from_item(&arr[k], id_k) {
                            Ok(row) => row,
                            Err(e) => {
                                return Err(e);
                            },
                        };
                        let ghost pre_tab = tab@;
                        let pos = insert_bookmark_sorted(&mut tab, row);
                        proof {
                            lemma_import_step_bm(pre_tab, tab@, pos as int, row, jv_list(arr@), base as int, k as int);
                        }
                        k = k + 1;
                    }
                    new_bm = Some(tab);
                },
                None => {},
            },
            None => {},
        }
        let mut new_tk: Option<Vec<Task>> = None;
        match data.get("tasks") {
            Some(v) => match v.as_array() {
                Some(arr) => {
                    proof {
                        lemma_jv_list(arr@);
                    }
                    if (arr.len() as u64) > ((i64::MAX - self.next_task_id) as u64) {
                        return Err(DbError::IdExhausted);
                    }
                    if now.unicode_len() > MAX_TEXT_LEN {
                        return Err(DbError::TextTooLarge);
                    }
                    let base = self.next_task_id;
                    let mut tab: Vec<Task> = Vec::new();
                    let mut k: usize = 0;
                    while k < arr.len()
                        invariant
                            k <= arr@.len(),
                            *self == *old(self),
                            old(self).wf(),
                            base == old(self).next_task_id,
                            built_bm(*old(self), jv(*data), new_bm),
                            text_fits(now@),
                            j_arr(obj_get(jv(*data), "tasks"@)) == Some(jv_list(arr@)),
                            jv_list(arr@).len() == arr@.len(),
                            base + arr@.len() <= i64::MAX,
                            tab@.len() == k,
                            tasks_sorted(tab@),
                            forall|j: int|
                                0 <= j < tab@.len() ==> base <= (#[trigger] tab@[j]).id < base
                                    + k,
                            forall|j1: int, j2: int|
                                0 <= j1 < j2 < tab@.len() ==> tab@[j1].id != tab@[j2].id,
                            forall|i: int|
                                0 <= i < k ==> task_item_fits(#[trigger] jv_list(arr@)[i]),
                            forall|i: int|
                                0 <= i < k ==> #[trigger] tk_row_imported(
                                    jv_list(arr@),
                                    i,
                                    base as int,
                                    now@,
                                    tab@,
                                ),
                        decreases arr@.len() - k,
                    {
                        proof {
                            lemma_jv_list(arr@);
                        }
                        let id_k = base + (k as i64);
                        let row = match task_from_item(&arr[k], id_k, now) {
                            Ok(row) => row,
                            Err(e) => {
                                return Err(e);
                            },
                        };
                        let ghost pre_tab = tab@;
                        let pos = insert_task_sorted(&mut tab, row);
                        proof {
                            lemma_import_step_tk(pre_tab, tab@, pos as int, row, jv_list(arr@), base as int, k as int, now@);
                        }
                        k = k + 1;
                    }
                    new_tk = Some(tab);
                },
                None => {},
            },
            None => {},
        }
        let mut new_sw: Option<Vec<SwitchRow>> = None;
        match data.get("switches") {
            Some(v) => match v.as_array() {
                Some(arr) => {
                    proof {
                        lemma_jv_list(arr@);
                    }
                    if (arr.len() as u64) > ((i64::MAX - self.next_switch_id) as u64) {
                        return Err(DbError::IdExhausted);
                    }
                    let base = self.next_switch_id;
                    let mut tab: Vec<SwitchRow> = Vec::new();
                    let mut k: usize = 0;
                    while k < arr.len()
                        invariant
                            k <= arr@.len(),
                            *self == *old(self),
                            old(self).wf(),
                            base == old(self).next_switch_id,
                            built_bm(*old(self), jv(*data), new_bm),
                            built_tk(*old(self), jv(*data), new_tk, now@),
                            j_arr(obj_get(jv(*data), "switches"@)) == Some(jv_list(arr@)),
                            jv_list(arr@).len() == arr@.len(),
                            base + arr@.len() <= i64::MAX,
                            tab@.len() == k,
                            switches_sorted(tab@),
                            forall|j: int|
                                0 <= j < tab@.len() ==> base <= (#[trigger] tab@[j]).id < base
                                    + k,
                            forall|j1: int, j2: int|
                                0 <= j1 < j2 < tab@.len() ==> tab@[j1].id != tab@[j2].id,
                            forall|i: int|
                                0 <= i < k ==> switch_item_fits(#[trigger] jv_list(arr@)[i]),
                            forall|i: int|
                                0 <= i < k ==> #[trigger] sw_row_imported(
                                    jv_list(arr@),
                                    i,
                                    base as int,
                                    tab@,
                                ),
                        decreases arr@.len() - k,
                    {
                        proof {
                            lemma_jv_list(arr@);
                        }
                        let id_k = base + (k as i64);
                        let row = match switch_from_item(&arr[k], id_k) {
                            Ok(row) => row,
                            Err(e) => {
                                return Err(e);
                            },
                        };
                        let ghost pre_tab = tab@;
                        let pos = insert_switch_sorted(&mut tab, row);
                        proof {
                            lemma_import_step_sw(pre_tab, tab@, pos as int, row, jv_list(arr@), base as int, k as int);
                        }
                        k = k + 1;
                    }
                    new_sw = Some(tab);
                },
                None => {},
            },
            None => {},
        }
        match new_bm {
            Some(tab) => {
                let n = tab.len() as i64;
                self.bookmarks = tab;
                self.next_bookmark_id = self.next_bookmark_id + n;
            },
            None => {},
        }
        match new_tk {
            Some(tab) => {
                let n = tab.len() as i64;
                self.tasks = tab;
                self.next_task_id = self.next_task_id + n;
            },
            None => {},
        }
        match new_sw {
            Some(tab) => {
                let n = tab.len() as i64;
                self.switches = tab;
                self.next_switch_id = self.next_switch_id + n;
            },
            None => {},
        }
        Ok(())
    }

    /// The task table as an executable array of row objects.
    fn tasks_to_json(&self) -> (r: JsonValue)
        ensures
            jv(r) == JsonV::Arr(tasks_json_list(self.tasks@)),
    {
        let mut arr: Vec<JsonValue> = Vec::new();
        let mut i: usize = 0;
        while i < self.tasks.len()
            invariant
                i <= self.tasks@.len(),
                arr@.len() == i,
                forall|k: int| 0 <= k < i ==> jv(#[trigger] arr@[k]) == task_json(self.tasks@[k]),
            decreases self.tasks@.len() - i,
        {
            arr.push(task_to_json(&self.tasks[i]));
            i = i + 1;
        }
        let r = JsonValue::Arr(arr);
        proof {
            lemma_jv_list(arr@);
            assert forall|k: int| 0 <= k < arr@.len() implies jv_list(arr@)[k] == task_json(self.tasks@[k]) by {
                assert(jv(arr@[k]) == task_json(self.tasks@[k]));
            }
            assert(jv_list(arr@) =~~= tasks_json_list(self.tasks@));
        }
        r
    }

    /// The bookmark table as an executable array of row objects.
    fn bookmarks_to_json(&self) -> (r: JsonValue)
        ensures
            jv(r) == JsonV::Arr(bookmarks_json_list(self.bookmarks@)),
    {
        let mut arr: Vec<JsonValue> = Vec::new();
        let mut i: usize = 0;
        while i < self.bookmarks.len()
            invariant
                i <= self.bookmarks@.len(),
                arr@.len() == i,
                forall|k: int|
                    0 <= k < i ==> jv(#[trigger] arr@[k]) == bookmark_json(self.bookmarks@[k]),
            decreases self.bookmarks@.len() - i,
        {
            arr.push(bookmark_to_json(&self.bookmarks[i]));
            i = i + 1;
        }
        let r = JsonValue::Arr(arr);
        proof {
            lemma_jv_list(arr@);
            assert forall|k: int| 0 <= k < arr@.len() implies jv_list(arr@)[k] == bookmark_json(self.bookmarks@[k]) by {
                assert(jv(arr@[k]) == bookmark_json(self.bookmarks@[k]));
            }
            assert(jv_list(arr@) =~~= bookmarks_json_list(self.bookmarks@));
        }
        r
    }

    /// The switch table as an executable array of row objects.
    fn switches_to_json(&self) -> (r: JsonValue)
        ensures
            jv(r) == JsonV::Arr(switches_json_list(self.switches@)),
    {
        let mut arr: Vec<JsonValue> = Vec::new();
        let mut i: usize = 0;
        while i < self.switches.len()
            invariant
                i <= self.switches@.len(),
                arr@.len() == i,
                forall|k: int|
                    0 <= k < i ==> jv(#[trigger] arr@[k]) == switch_json(self.switches@[k]),
            decreases self.switches@.len() - i,
        {
            arr.push(switch_to_json(&self.switches[i]));
            i = i + 1;
        }
        let r = JsonValue::Arr(arr);
        proof {
            lemma_jv_list(arr@);
            assert forall|k: int| 0 <= k < arr@.len() implies jv_list(arr@)[k] == switch_json(self.switches@[k]) by {
                assert(jv(arr@[k]) == switch_json(self.switches@[k]));
            }
            assert(jv_list(arr@) =~~= switches_json_list(self.switches@));
        }
        r
    }

    /// The users table as an executable array of row objects.
    fn users_to_json(&self) -> (r: JsonValue)
        requires
            aux_rows_ok(self.users@, USERS_COLS),
        ensures
            jv(r) == JsonV::Arr(aux_json_list(users_cols(), self.users@)),
    {
        let mut cols: Vec<String> = Vec::new();
        cols.push("id".to_owned());
        cols.push("username".to_owned());
        cols.push("password_hash".to_owned());
        cols.push("role".to_owned());
        cols.push("created_at".to_owned());
        proof {
            assert(cols.deep_view() =~~= users_cols());
        }
        aux_table_to_json(&cols, &self.users)
    }

    /// The ports table as an executable array of row objects.
    fn ports_to_json(&self) -> (r: JsonValue)
        requires
            aux_rows_ok(self.ports@, PORTS_COLS),
        ensures
            jv(r) == JsonV::Arr(aux_json_list(ports_cols(), self.ports@)),
    {
        let mut cols: Vec<String> = Vec::new();
        cols.push("id".to_owned());
        cols.push("switch_id".to_owned());
        cols.push("name".to_owned());
        cols.push("vlan_id".to_owned());
        cols.push("status".to_owned());
        cols.push("description".to_owned());
        cols.push("updated_at".to_owned());
        proof {
            assert(cols.deep_view() =~~= ports_cols());
        }
        aux_table_to_json(&cols, &self.ports)
    }

    /// The vlans table as an executable array of row objects.
    fn vlans_to_json(&self) -> (r: JsonValue)
        requires
            aux_rows_ok(self.vlans@, VLANS_COLS),
        ensures
            jv(r) == JsonV::Arr(aux_json_list(vlans_cols(), self.vlans@)),
    {
        let mut cols: Vec<String> = Vec::new();
        cols.push("id".to_owned());
        cols.push("switch_id".to_owned());
        cols.push("vlan_number".to_owned());
        cols.push("name".to_owned());
        cols.push("purpose".to_owned());
        proof {
            assert(cols.deep_view() =~~= vlans_cols());
        }
        aux_table_to_json(&cols, &self.vlans)
    }

    /// The manuals table as an executable array of row objects.
    fn manuals_to_json(&self) -> (r: JsonValue)
        requires
            aux_rows_ok(self.manuals@, MANUALS_COLS),
        ensures
            jv(r) == JsonV::Arr(aux_json_list(manuals_cols(), self.manuals@)),
    {
        let mut cols: Vec<String> = Vec::new();
        cols.push("id".to_owned());
        cols.push("title".to_owned());
        cols.push("path".to_owned());
        cols.push("tags".to_owned());
        proof {
            assert(cols.deep_view() =~~= manuals_cols());
        }
        aux_table_to_json(&cols, &self.manuals)
    }

    /// The formats table as an executable array of row objects.
    fn formats_to_json(&self) -> (r: JsonValue)
        requires
            aux_rows_ok(self.formats@, FORMATS_COLS),
        ensures
            jv(r) == JsonV::Arr(aux_json_list(formats_cols(), self.formats@)),
    {
        let mut cols: Vec<String> = Vec::new();
        cols.push("id".to_owned());
        cols.push("title".to_owned());
        cols.push("path".to_owned());
        cols.push("tags".to_owned());
        proof {
            assert(cols.deep_view() =~~= formats_cols());
        }
        aux_table_to_json(&cols, &self.formats)
    }
}

/// An export-only table as an executable array of row objects under the
/// given column names.
fn aux_table_to_json(cols: &Vec<String>, rows: &Vec<Vec<SqlValue>>) -> (r: JsonValue)
    requires
        forall|i: int| 0 <= i < rows@.len() ==> (#[trigger] rows@[i])@.len() == cols@.len(),
    ensures
        jv(r) == JsonV::Arr(aux_json_list(cols.deep_view(), rows@)),
{
    let mut arr: Vec<JsonValue> = Vec::new();
    let mut i: usize = 0;
    while i < rows.len()
        invariant
            i <= rows@.len(),
            arr@.len() == i,
            forall|i2: int| 0 <= i2 < rows@.len() ==> (#[trigger] rows@[i2])@.len() == cols@.len(),
            forall|k: int|
                0 <= k < i ==> jv(#[trigger] arr@[k]) == aux_row_json(cols.deep_view(), rows@[k]),
        decreases rows@.len() - i,
    {
        arr.push(aux_row_to_json(cols, &rows[i]));
        i = i + 1;
    }
    let r = JsonValue::Arr(arr);
    proof {
        lemma_jv_list(arr@);
        assert forall|k: int|
            0 <= k < arr@.len() implies jv_list(arr@)[k] == aux_row_json(
            cols.deep_view(),
            rows@[k],
        ) by {
            assert(jv(arr@[k]) == aux_row_json(cols.deep_view(), rows@[k]));
        }
        assert(jv_list(arr@) =~~= aux_json_list(cols.deep_view(), rows@));
    }
    r
}

/// The named field of an object item read as text, cloned out.
fn j_field_string(item: &JsonValue, key: &str) -> (r: Option<String>)
    ensures
        match (j_opt_str(obj_get(jv(*item), key@)), r) {
            (None, None) => true,
            (Some(s), Some(t)) => t@ == s,
            _ => false,
        },
{
    match item.get(key) {
        Some(v) => match v.as_str() {
            Some(s) => Some(s.clone()),
            None => None,
        },
        None => None,
    }
}

/// The named field of an object item read as an integer, with a default.
fn j_field_int_or(item: &JsonValue, key: &str, d: i64) -> (r: i64)
    ensures
        r == j_int_or(obj_get(jv(*item), key@), d),
{
    match item.get(key) {
        Some(v) => match v.as_int() {
            Some(i) => i,
            None => d,
        },
        None => d,
    }
}

/// Builds the stored bookmark row for one imported array entry.
fn bookmark_from_item(item: &JsonValue, id: i64) -> (r: Result<BookmarkRow, DbError>)
    ensures
        r is Ok <==> bm_item_fits(jv(*item)),
        r matches Ok(row) ==> imported_bookmark_row(jv(*item), id as int, row),
        r matches Err(e) ==> e == DbError::TextTooLarge,
{
    let label = match j_field_string(item, "label") {
        Some(s) => s,
        None => String::new(),
    };
    let url = match j_field_string(item, "url") {
        Some(s) => s,
        None => String::new(),
    };
    let section = match j_field_string(item, "section") {
        Some(s) => s,
        None => "General".to_owned(),
    };
    let description = j_field_string(item, "description");
    let tags = j_field_string(item, "tags");
    let mut too_big = label.as_str().unicode_len() > MAX_TEXT_LEN || url.as_str().unicode_len()
        > MAX_TEXT_LEN || section.as_str().unicode_len() > MAX_TEXT_LEN;
    match &description {
        Some(s) => {
            if s.as_str().unicode_len() > MAX_TEXT_LEN {
                too_big = true;
            }
        },
        None => {},
    }
    match &tags {
        Some(s) => {
            if s.as_str().unicode_len() > MAX_TEXT_LEN {
                too_big = true;
            }
        },
        None => {},
    }
    if too_big {
        return Err(DbError::TextTooLarge);
    }
    Ok(BookmarkRow { id, label, url, section, description, tags })
}

/// Builds the stored task row for one imported array entry, stamped with
/// the server time.
fn task_from_item(item: &JsonValue, id: i64, now: &str) -> (r: Result<Task, DbError>)
    ensures
        r is Ok <==> task_item_fits(jv(*item)),
        r matches Ok(t) ==> imported_task_row(jv(*item), id as int, now@, t),
        r matches Err(e) ==> e == DbError::TextTooLarge,
{
    let title = match j_field_string(item, "title") {
        Some(s) => s,
        None => String::new(),
    };
    let completed = j_field_int_or(item, "completed", 0);
    if title.as_str().unicode_len() > MAX_TEXT_LEN {
        return Err(DbError::TextTooLarge);
    }
    Ok(Task { id, title, completed, created_at: now.to_owned() })
}

/// Builds the stored switch row for one imported array entry; the
/// schema-only fields are left null.
fn switch_from_item(item: &JsonValue, id: i64) -> (r: Result<SwitchRow, DbError>)
    ensures
        r is Ok <==> switch_item_fits(jv(*item)),
        r matches Ok(row) ==> imported_switch_row(jv(*item), id as int, row),
        r matches Err(e) ==> e == DbError::TextTooLarge,
{
    let name = match j_field_string(item, "name") {
        Some(s) => s,
        None => String::new(),
    };
    let ip = match j_field_string(item, "ip") {
        Some(s) => s,
        None => String::new(),
    };
    let location = j_field_string(item, "location");
    let notes = j_field_string(item, "notes");
    let mut too_big = name.as_str().unicode_len() > MAX_TEXT_LEN || ip.as_str().unicode_len()
        > MAX_TEXT_LEN;
    match &location {
        Some(s) => {
            if s.as_str().unicode_len() > MAX_TEXT_LEN {
                too_big = true;
            }
        },
        None => {},
    }
    match &notes {
        Some(s) => {
            if s.as_str().unicode_len() > MAX_TEXT_LEN {
                too_big = true;
            }
        },
        None => {},
    }
    if too_big {
        return Err(DbError::TextTooLarge);
    }
    Ok(SwitchRow {
        id,
        name,
        ip,
        location,
        notes,
        credentials: SqlValue::Null,
        created_at: SqlValue::Null,
    })
}

/// The candidate bookmark table built while an import validates, before
/// anything is committed.
pub open spec fn built_bm(pre: DbState, doc: JsonV, o: Option<Vec<BookmarkRow>>) -> bool {
    match (j_arr(obj_get(doc, "bookmarks"@)), o) {
        (None, None) => true,
        (Some(a), Some(tab)) => {
            &&& tab@.len() == a.len()
            &&& bookmarks_sorted(tab@)
            &&& forall|j: int|
                0 <= j < tab@.len() ==> pre.next_bookmark_id <= (#[trigger] tab@[j]).id
                    < pre.next_bookmark_id + a.len()
            &&& forall|j1: int, j2: int|
                0 <= j1 < j2 < tab@.len() ==> tab@[j1].id != tab@[j2].id
            &&& forall|i: int|
                0 <= i < a.len() ==> #[trigger] bm_row_imported(
                    a,
                    i,
                    pre.next_bookmark_id as int,
                    tab@,
                )
            &&& forall|i: int| 0 <= i < a.len() ==> bm_item_fits(#[trigger] a[i])
            &&& pre.next_bookmark_id + a.len() <= i64::MAX
        },
        _ => false,
    }
}

/// The candidate task table built while an import validates.
pub open spec fn built_tk(pre: DbState, doc: JsonV, o: Option<Vec<Task>>, now: Seq<char>) -> bool {
    match (j_arr(obj_get(doc, "tasks"@)), o) {
        (None, None) => true,
        (Some(a), Some(tab)) => {
            &&& tab@.len() == a.len()
            &&& tasks_sorted(tab@)
            &&& forall|j: int|
                0 <= j < tab@.len() ==> pre.next_task_id <= (#[trigger] tab@[j]).id
                    < pre.next_task_id + a.len()
            &&& forall|j1: int, j2: int|
                0 <= j1 < j2 < tab@.len() ==> tab@[j1].id != tab@[j2].id
            &&& forall|i: int|
                0 <= i < a.len() ==> #[trigger] tk_row_imported(a, i, pre.next_task_id as int, now, tab@)
            &&& forall|i: int| 0 <= i < a.len() ==> task_item_fits(#[trigger] a[i])
            &&& text_fits(now)
            &&& pre.next_task_id + a.len() <= i64::MAX
        },
        _ => false,
    }
}

/// The candidate switch table built while an import validates.
pub open spec fn built_sw(pre: DbState, doc: JsonV, o: Option<Vec<SwitchRow>>) -> bool {
    match (j_arr(obj_get(doc, "switches"@)), o) {
        (None, None) => true,
        (Some(a), Some(tab)) => {
            &&& tab@.len() == a.len()
            &&& switches_sorted(tab@)
            &&& forall|j: int|
                0 <= j < tab@.len() ==> pre.next_switch_id <= (#[trigger] tab@[j]).id
                    < pre.next_switch_id + a.len()
            &&& forall|j1: int, j2: int|
                0 <= j1 < j2 < tab@.len() ==> tab@[j1].id != tab@[j2].id
            &&& forall|i: int|
                0 <= i < a.len() ==> #[trigger] sw_row_imported(
                    a,
                    i,
                    pre.next_switch_id as int,
                    tab@,
                )
            &&& forall|i: int| 0 <= i < a.len() ==> switch_item_fits(#[trigger] a[i])
            &&& pre.next_switch_id + a.len() <= i64::MAX
        },
        _ => false,
    }
}

/// One validated import entry added to the candidate bookmark table.
proof fn lemma_import_step_bm(
    pre: Seq<BookmarkRow>,
    post: Seq<BookmarkRow>,
    pos: int,
    row: BookmarkRow,
    a: Seq<JsonV>,
    base: int,
    k: int,
)
    requires
        0 <= k < a.len(),
        0 <= pos <= pre.len(),
        post == pre.insert(pos, row),
        pre.len() == k,
        forall|j: int| 0 <= j < pre.len() ==> base <= (#[trigger] pre[j]).id < base + k,
        forall|j1: int, j2: int| 0 <= j1 < j2 < pre.len() ==> pre[j1].id != pre[j2].id,
        imported_bookmark_row(a[k], base + k, row),
        forall|i: int| 0 <= i < k ==> #[trigger] bm_row_imported(a, i, base, pre),
    ensures
        post.len() == k + 1,
        forall|j: int| 0 <= j < post.len() ==> base <= (#[trigger] post[j]).id < base + (k + 1),
        forall|j1: int, j2: int| 0 <= j1 < j2 < post.len() ==> post[j1].id != post[j2].id,
        forall|i: int| 0 <= i < k + 1 ==> #[trigger] bm_row_imported(a, i, base, post),
{
    assert forall|j: int|
        0 <= j < post.len() implies base <= (#[trigger] post[j]).id < base + (k + 1) by {
        lemma_insert_shape(pre, pos, row, j);
    }
    assert forall|j1: int, j2: int|
        0 <= j1 < j2 < post.len() implies post[j1].id != post[j2].id by {
        lemma_insert_shape(pre, pos, row, j1);
        lemma_insert_shape(pre, pos, row, j2);
    }
    assert forall|i: int|
        0 <= i < k + 1 implies #[trigger] bm_row_imported(a, i, base, post) by {
        if i < k {
            assert(bm_row_imported(a, i, base, pre));
            let j0 = choose|j: int|
                0 <= j < pre.len() && imported_bookmark_row(a[i], base + i, #[trigger] pre[j]);
            let j1 = if j0 < pos {
                j0
            } else {
                j0 + 1
            };
            lemma_insert_shape(pre, pos, row, j1);
            assert(post[j1] == pre[j0]);
            assert(imported_bookmark_row(a[i], base + i, post[j1]));
        } else {
            lemma_insert_shape(pre, pos, row, pos);
            assert(imported_bookmark_row(a[i], base + i, post[pos]));
        }
    }
}

/// One validated import entry added to the candidate task table.
proof fn lemma_import_step_tk(
    pre: Seq<Task>,
    post: Seq<Task>,
    pos: int,
    row: Task,
    a: Seq<JsonV>,
    base: int,
    k: int,
    now: Seq<char>,
)
    requires
        0 <= k < a.len(),
        0 <= pos <= pre.len(),
        post == pre.insert(pos, row),
        pre.len() == k,
        forall|j: int| 0 <= j < pre.len() ==> base <= (#[trigger] pre[j]).id < base + k,
        forall|j1: int, j2: int| 0 <= j1 < j2 < pre.len() ==> pre[j1].id != pre[j2].id,
        imported_task_row(a[k], base + k, now, row),
        forall|i: int| 0 <= i < k ==> #[trigger] tk_row_imported(a, i, base, now, pre),
    ensures
        post.len() == k + 1,
        forall|j: int| 0 <= j < post.len() ==> base <= (#[trigger] post[j]).id < base + (k + 1),
        forall|j1: int, j2: int| 0 <= j1 < j2 < post.len() ==> post[j1].id != post[j2].id,
        forall|i: int| 0 <= i < k + 1 ==> #[trigger] tk_row_imported(a, i, base, now, post),
{
    assert forall|j: int|
        0 <= j < post.len() implies base <= (#[trigger] post[j]).id < base + (k + 1) by {
        lemma_insert_shape(pre, pos, row, j);
    }
    assert forall|j1: int, j2: int|
        0 <= j1 < j2 < post.len() implies post[j1].id != post[j2].id by {
        lemma_insert_shape(pre, pos, row, j1);
        lemma_insert_shape(pre, pos, row, j2);
    }
    assert forall|i: int|
        0 <= i < k + 1 implies #[trigger] tk_row_imported(a, i, base, now, post) by {
        if i < k {
            assert(tk_row_imported(a, i, base, now, pre));
            let j0 = choose|j: int|
                0 <= j < pre.len() && imported_task_row(a[i], base + i, now, #[trigger] pre[j]);
            let j1 = if j0 < pos {
                j0
            } else {
                j0 + 1
            };
            lemma_insert_shape(pre, pos, row, j1);
            assert(post[j1] == pre[j0]);
            assert(imported_task_row(a[i], base + i, now, post[j1]));
        } else {
            lemma_insert_shape(pre, pos, row, pos);
            assert(imported_task_row(a[i], base + i, now, post[pos]));
        }
    }
}

/// One validated import entry added to the candidate switch table.
proof fn lemma_import_step_sw(
    pre: Seq<SwitchRow>,
    post: Seq<SwitchRow>,
    pos: int,
    row: SwitchRow,
    a: Seq<JsonV>,
    base: int,
    k: int,
)
    requires
        0 <= k < a.len(),
        0 <= pos <= pre.len(),
        post == pre.insert(pos, row),
        pre.len() == k,
        forall|j: int| 0 <= j < pre.len() ==> base <= (#[trigger] pre[j]).id < base + k,
        forall|j1: int, j2: int| 0 <= j1 < j2 < pre.len() ==> pre[j1].id != pre[j2].id,
        imported_switch_row(a[k], base + k, row),
        forall|i: int| 0 <= i < k ==> #[trigger] sw_row_imported(a, i, base, pre),
    ensures
        post.len() == k + 1,
        forall|j: int| 0 <= j < post.len() ==> base <= (#[trigger] post[j]).id < base + (k + 1),
        forall|j1: int, j2: int| 0 <= j1 < j2 < post.len() ==> post[j1].id != post[j2].id,
        forall|i: int| 0 <= i < k + 1 ==> #[trigger] sw_row_imported(a, i, base, post),
{
    assert forall|j: int|
        0 <= j < post.len() implies base <= (#[trigger] post[j]).id < base + (k + 1) by {
        lemma_insert_shape(pre, pos, row, j);
    }
    assert forall|j1: int, j2: int|
        0 <= j1 < j2 < post.len() implies post[j1].id != post[j2].id by {
        lemma_insert_shape(pre, pos, row, j1);
        lemma_insert_shape(pre, pos, row, j2);
    }
    assert forall|i: int|
        0 <= i < k + 1 implies #[trigger] sw_row_imported(a, i, base, post) by {
        if i < k {
            assert(sw_row_imported(a, i, base, pre));
            let j0 = choose|j: int|
                0 <= j < pre.len() && imported_switch_row(a[i], base + i, #[trigger] pre[j]);
            let j1 = if j0 < pos {
                j0
            } else {
                j0 + 1
            };
            lemma_insert_shape(pre, pos, row, j1);
            assert(post[j1] == pre[j0]);
            assert(imported_switch_row(a[i], base + i, post[j1]));
        } else {
            lemma_insert_shape(pre, pos, row, pos);
            assert(imported_switch_row(a[i], base + i, post[pos]));
        }
    }
}

/// How one entry of an imported bookmarks array becomes a stored row
/// under a given identity: missing or mistyped fields take their
/// documented defaults.
pub open spec fn imported_bookmark_row(item: JsonV, id: int, row: BookmarkRow) -> bool {
    &&& row.id == id
    &&& row.label@ == j_str_or(obj_get(item, "label"@), Seq::empty())
    &&& row.url@ == j_str_or(obj_get(item, "url"@), Seq::empty())
    &&& row.section@ == j_str_or(obj_get(item, "section"@), "General"@)
    &&& match (j_opt_str(obj_get(item, "description"@)), row.description) {
        (None, None) => true,
        (Some(s), Some(t)) => t@ == s,
        _ => false,
    }
    &&& match (j_opt_str(obj_get(item, "tags"@)), row.tags) {
        (None, None) => true,
        (Some(s), Some(t)) => t@ == s,
        _ => false,
    }
}

/// The texts a bookmarks-array entry stores all fit the size limit.
pub open spec fn bm_item_fits(item: JsonV) -> bool {
    &&& text_fits(j_str_or(obj_get(item, "label"@), Seq::empty()))
    &&& text_fits(j_str_or(obj_get(item, "url"@), Seq::empty()))
    &&& text_fits(j_str_or(obj_get(item, "section"@), "General"@))
    &&& (j_opt_str(obj_get(item, "description"@)) matches Some(s) ==> text_fits(s))
    &&& (j_opt_str(obj_get(item, "tags"@)) matches Some(s) ==> text_fits(s))
}

/// How one entry of an imported tasks array becomes a stored row: title
/// defaults to empty, completed to 0, and the creation time is stamped
/// with the import's server time.
pub open spec fn imported_task_row(item: JsonV, id: int, now: Seq<char>, t: Task) -> bool {
    &&& t.id == id
    &&& t.title@ == j_str_or(obj_get(item, "title"@), Seq::empty())
    &&& t.completed == j_int_or(obj_get(item, "completed"@), 0)
    &&& t.created_at@ == now
}

/// The texts a tasks-array entry stores fit the size limit.
pub open spec fn task_item_fits(item: JsonV) -> bool {
    text_fits(j_str_or(obj_get(item, "title"@), Seq::empty()))
}

/// How one entry of an imported switches array becomes a stored row: the
/// schema-only fields are left null.
pub open spec fn imported_switch_row(item: JsonV, id: int, row: SwitchRow) -> bool {
    &&& row.id == id
    &&& row.name@ == j_str_or(obj_get(item, "name"@), Seq::empty())
    &&& row.ip@ == j_str_or(obj_get(item, "ip"@), Seq::empty())
    &&& match (j_opt_str(obj_get(item, "location"@)), row.location) {
        (None, None) => true,
        (Some(s), Some(t)) => t@ == s,
        _ => false,
    }
    &&& match (j_opt_str(obj_get(item, "notes"@)), row.notes) {
        (None, None) => true,
        (Some(s), Some(t)) => t@ == s,
        _ => false,
    }
    &&& row.credentials is Null
    &&& row.created_at is Null
}

/// The texts a switches-array entry stores all fit the size limit.
pub open spec fn switch_item_fits(item: JsonV) -> bool {
    &&& text_fits(j_str_or(obj_get(item, "name"@), Seq::empty()))
    &&& text_fits(j_str_or(obj_get(item, "ip"@), Seq::empty()))
    &&& (j_opt_str(obj_get(item, "location"@)) matches Some(s) ==> text_fits(s))
    &&& (j_opt_str(obj_get(item, "notes"@)) matches Some(s) ==> text_fits(s))
}

/// Entry `i` of the imported array has its row somewhere in the table.
pub open spec fn bm_row_imported(a: Seq<JsonV>, i: int, base: int, tab: Seq<BookmarkRow>) -> bool {
    exists|j: int|
        0 <= j < tab.len() && imported_bookmark_row(a[i], base + i, #[trigger] tab[j])
}

/// Entry `i` of the imported array has its task somewhere in the table.
pub open spec fn tk_row_imported(
    a: Seq<JsonV>,
    i: int,
    base: int,
    now: Seq<char>,
    tab: Seq<Task>,
) -> bool {
    exists|j: int|
        0 <= j < tab.len() && imported_task_row(a[i], base + i, now, #[trigger] tab[j])
}

/// Entry `i` of the imported array has its row somewhere in the table.
pub open spec fn sw_row_imported(a: Seq<JsonV>, i: int, base: int, tab: Seq<SwitchRow>) -> bool {
    exists|j: int|
        0 <= j < tab.len() && imported_switch_row(a[i], base + i, #[trigger] tab[j])
}

/// The bookmark table after an import that replaced it from the array
/// `a`: one row per entry, with fresh consecutive identities.
pub open spec fn bookmarks_replaced(pre: DbState, post: DbState, a: Seq<JsonV>) -> bool {
    &&& post.bookmarks@.len() == a.len()
    &&& forall|i: int|
        0 <= i < a.len() ==> #[trigger] bm_row_imported(
            a,
            i,
            pre.next_bookmark_id as int,
            post.bookmarks@,
        )
    &&& post.next_bookmark_id == pre.next_bookmark_id + a.len()
}

/// The task table after an import that replaced it from the array `a`.
pub open spec fn tasks_replaced(pre: DbState, post: DbState, a: Seq<JsonV>, now: Seq<char>) -> bool {
    &&& post.tasks@.len() == a.len()
    &&& forall|i: int|
        0 <= i < a.len() ==> #[trigger] tk_row_imported(a, i, pre.next_task_id as int, now, post.tasks@)
    &&& post.next_task_id == pre.next_task_id + a.len()
}

/// The switch table after an import that replaced it from the array `a`.
pub open spec fn switches_replaced(pre: DbState, post: DbState, a: Seq<JsonV>) -> bool {
    &&& post.switches@.len() == a.len()
    &&& forall|i: int|
        0 <= i < a.len() ==> #[trigger] sw_row_imported(
            a,
            i,
            pre.next_switch_id as int,
            post.switches@,
        )
    &&& post.next_switch_id == pre.next_switch_id + a.len()
}

/// Whether a whole import can succeed against the store: every text of
/// every entry of every present array fits, and each replaced table has
/// identity space for its rows.
pub open spec fn import_fits(pre: DbState, doc: JsonV, now: Seq<char>) -> bool {
    &&& match j_arr(obj_get(doc, "bookmarks"@)) {
        Some(a) => (forall|i: int| 0 <= i < a.len() ==> bm_item_fits(#[trigger] a[i]))
            && pre.next_bookmark_id + a.len() <= i64::MAX,
        None => true,
    }
    &&& match j_arr(obj_get(doc, "tasks"@)) {
        Some(a) => (forall|i: int| 0 <= i < a.len() ==> task_item_fits(#[trigger] a[i]))
            && text_fits(now) && pre.next_task_id + a.len() <= i64::MAX,
        None => true,
    }
    &&& match j_arr(obj_get(doc, "switches"@)) {
        Some(a) => (forall|i: int| 0 <= i < a.len() ==> switch_item_fits(#[trigger] a[i]))
            && pre.next_switch_id + a.len() <= i64::MAX,
        None => true,
    }
}

/// An optional text column as a document value: absent is null.
pub open spec fn opt_str_json(o: Option<String>) -> JsonV {
    match o {
        None => JsonV::Null,
        Some(s) => JsonV::Str(s@),
    }
}

/// A stored scalar as a document value: blobs are rendered in their
/// text-safe encoding.
pub open spec fn cell_json(c: SqlValue) -> JsonV {
    match c {
        SqlValue::Null => JsonV::Null,
        SqlValue::Int(i) => JsonV::Int(i),
        SqlValue::Text(s) => JsonV::Str(s@),
        SqlValue::Blob(b) => JsonV::Str(base64_of(b@)),
    }
}

/// A task row as one exported object, fields in the projection's order.
pub open spec fn task_json(t: Task) -> JsonV {
    JsonV::Obj(
        seq![
            ("id"@, JsonV::Int(t.id)),
            ("title"@, JsonV::Str(t.title@)),
            ("completed"@, JsonV::Int(t.completed)),
            ("created_at"@, JsonV::Str(t.created_at@)),
        ],
    )
}

/// A bookmark row as one exported object, fields in the projection's order.
pub open spec fn bookmark_json(row: BookmarkRow) -> JsonV {
    JsonV::Obj(
        seq![
            ("id"@, JsonV::Int(row.id)),
            ("label"@, JsonV::Str(row.label@)),
            ("url"@, JsonV::Str(row.url@)),
            ("section"@, JsonV::Str(row.section@)),
            ("description"@, opt_str_json(row.description)),
            ("tags"@, opt_str_json(row.tags)),
        ],
    )
}

/// A switch row as one exported object, fields in the projection's order.
pub open spec fn switch_json(row: SwitchRow) -> JsonV {
    JsonV::Obj(
        seq![
            ("id"@, JsonV::Int(row.id)),
            ("name"@, JsonV::Str(row.name@)),
            ("ip"@, JsonV::Str(row.ip@)),
            ("location"@, opt_str_json(row.location)),
            ("notes"@, opt_str_json(row.notes)),
            ("credentials"@, cell_json(row.credentials)),
            ("created_at"@, cell_json(row.created_at)),
        ],
    )
}

/// The projected column names of the users table.
pub open spec fn users_cols() -> Seq<Seq<char>> {
    seq!["id"@, "username"@, "password_hash"@, "role"@, "created_at"@]
}

/// The projected column names of the ports table.
pub open spec fn ports_cols() -> Seq<Seq<char>> {
    seq!["id"@, "switch_id"@, "name"@, "vlan_id"@, "status"@, "description"@, "updated_at"@]
}

/// The projected column names of the vlans table.
pub open spec fn vlans_cols() -> Seq<Seq<char>> {
    seq!["id"@, "switch_id"@, "vlan_number"@, "name"@, "purpose"@]
}

/// The projected column names of the manuals table.
pub open spec fn manuals_cols() -> Seq<Seq<char>> {
    seq!["id"@, "title"@, "path"@, "tags"@]
}

/// The projected column names of the formats table.
pub open spec fn formats_cols() -> Seq<Seq<char>> {
    seq!["id"@, "title"@, "path"@, "tags"@]
}

/// An export-only row as one object: each projected column name paired
/// with its value.
pub open spec fn aux_row_json(cols: Seq<Seq<char>>, row: Vec<SqlValue>) -> JsonV {
    JsonV::Obj(Seq::new(cols.len(), |i: int| (cols[i], cell_json(row@[i]))))
}

/// An export-only table as an array of row objects, in table order.
pub open spec fn aux_json_list(cols: Seq<Seq<char>>, rows: Seq<Vec<SqlValue>>) -> Seq<JsonV> {
    Seq::new(rows.len(), |i: int| aux_row_json(cols, rows[i]))
}

/// The task table as an array of row objects, in table order.
pub open spec fn tasks_json_list(s: Seq<Task>) -> Seq<JsonV> {
    Seq::new(s.len(), |i: int| task_json(s[i]))
}

/// The bookmark table as an array of row objects, in table order.
pub open spec fn bookmarks_json_list(s: Seq<BookmarkRow>) -> Seq<JsonV> {
    Seq::new(s.len(), |i: int| bookmark_json(s[i]))
}

/// The switch table as an array of row objects, in table order.
pub open spec fn switches_json_list(s: Seq<SwitchRow>) -> Seq<JsonV> {
    Seq::new(s.len(), |i: int| switch_json(s[i]))
}

/// The whole-database backup document: one key per exported table, each
/// holding that table's rows, with the fixed column projections.
pub open spec fn export_doc(st: DbState) -> JsonV {
    JsonV::Obj(
        seq![
            ("users"@, JsonV::Arr(aux_json_list(users_cols(), st.users@))),
            ("switches"@, JsonV::Arr(switches_json_list(st.switches@))),
            ("ports"@, JsonV::Arr(aux_json_list(ports_cols(), st.ports@))),
            ("vlans"@, JsonV::Arr(aux_json_list(vlans_cols(), st.vlans@))),
            ("manuals"@, JsonV::Arr(aux_json_list(manuals_cols(), st.manuals@))),
            ("formats"@, JsonV::Arr(aux_json_list(formats_cols(), st.formats@))),
            ("bookmarks"@, JsonV::Arr(bookmarks_json_list(st.bookmarks@))),
            ("tasks"@, JsonV::Arr(tasks_json_list(st.tasks@))),
        ],
    )
}

/// A stored scalar as an executable document value.
fn cell_to_json(c: &SqlValue) -> (r: JsonValue)
    ensures
        jv(r) == cell_json(*c),
{
    match c {
        SqlValue::Null => JsonValue::Null,
        SqlValue::Int(i) => JsonValue::Int(*i),
        SqlValue::Text(s) => JsonValue::Str(s.clone()),
        SqlValue::Blob(b) => JsonValue::Str(encode_base64(b)),
    }
}

/// An optional text column as an executable document value.
fn opt_str_to_json(o: &Option<String>) -> (r: JsonValue)
    ensures
        jv(r) == opt_str_json(*o),
{
    match o {
        None => JsonValue::Null,
        Some(s) => JsonValue::Str(s.clone()),
    }
}

/// One task row as an executable object.
fn task_to_json(t: &Task) -> (r: JsonValue)
    ensures
        jv(r) == task_json(*t),
{
    let mut o: Vec<(String, JsonValue)> = Vec::new();
    o.push(("id".to_owned(), JsonValue::Int(t.id)));
    o.push(("title".to_owned(), JsonValue::Str(t.title.clone())));
    o.push(("completed".to_owned(), JsonValue::Int(t.completed)));
    o.push(("created_at".to_owned(), JsonValue::Str(t.created_at.clone())));
    let ghost ov = o@;
    let r = JsonValue::Obj(o);
    proof {
        lemma_jv_fields_of(r);
        assert(jv_fields(ov)[0] == (ov[0].0@, jv(ov[0].1)));
        assert(jv_fields(ov)[1] == (ov[1].0@, jv(ov[1].1)));
        assert(jv_fields(ov)[2] == (ov[2].0@, jv(ov[2].1)));
        assert(jv_fields(ov)[3] == (ov[3].0@, jv(ov[3].1)));
        let expected = seq![
            ("id"@, JsonV::Int(t.id)),
            ("title"@, JsonV::Str(t.title@)),
            ("completed"@, JsonV::Int(t.completed)),
            ("created_at"@, JsonV::Str(t.created_at@)),
        ];
        assert(jv_fields(ov) =~~= expected);
        assert(jv(r) == JsonV::Obj(jv_fields(ov)));
        assert(jv(r) =~~= task_json(*t));
    }
    r
}

/// One bookmark row as an executable object.
fn bookmark_to_json(row: &BookmarkRow) -> (r: JsonValue)
    ensures
        jv(r) == bookmark_json(*row),
{
    let mut o: Vec<(String, JsonValue)> = Vec::new();
    o.push(("id".to_owned(), JsonValue::Int(row.id)));
    o.push(("label".to_owned(), JsonValue::Str(row.label.clone())));
    o.push(("url".to_owned(), JsonValue::Str(row.url.clone())));
    o.push(("section".to_owned(), JsonValue::Str(row.section.clone())));
    o.push(("description".to_owned(), opt_str_to_json(&row.description)));
    o.push(("tags".to_owned(), opt_str_to_json(&row.tags)));
    let ghost ov = o@;
    let r = JsonValue::Obj(o);
    proof {
        lemma_jv_fields_of(r);
        assert(jv_fields(ov)[0] == (ov[0].0@, jv(ov[0].1)));
        assert(jv_fields(ov)[1] == (ov[1].0@, jv(ov[1].1)));
        assert(jv_fields(ov)[2] == (ov[2].0@, jv(ov[2].1)));
        assert(jv_fields(ov)[3] == (ov[3].0@, jv(ov[3].1)));
        assert(jv_fields(ov)[4] == (ov[4].0@, jv(ov[4].1)));
        assert(jv_fields(ov)[5] == (ov[5].0@, jv(ov[5].1)));
        let expected = seq![
            ("id"@, JsonV::Int(row.id)),
            ("label"@, JsonV::Str(row.label@)),
            ("url"@, JsonV::Str(row.url@)),
            ("section"@, JsonV::Str(row.section@)),
            ("description"@, opt_str_json(row.description)),
            ("tags"@, opt_str_json(row.tags)),
        ];
        assert(jv_fields(ov) =~~= expected);
        assert(jv(r) =~~= bookmark_json(*row));
    }
    r
}

/// One switch row as an executable object.
fn switch_to_json(row: &SwitchRow) -> (r: JsonValue)
    ensures
        jv(r) == switch_json(*row),
{
    let mut o: Vec<(String, JsonValue)> = Vec::new();
    o.push(("id".to_owned(), JsonValue::Int(row.id)));
    o.push(("name".to_owned(), JsonValue::Str(row.name.clone())));
    o.push(("ip".to_owned(), JsonValue::Str(row.ip.clone())));
    o.push(("location".to_owned(), opt_str_to_json(&row.location)));
    o.push(("notes".to_owned(), opt_str_to_json(&row.notes)));
    o.push(("credentials".to_owned(), cell_to_json(&row.credentials)));
    o.push(("created_at".to_owned(), cell_to_json(&row.created_at)));
    let ghost ov = o@;
    let r = JsonValue::Obj(o);
    proof {
        lemma_jv_fields_of(r);
        assert(jv_fields(ov)[0] == (ov[0].0@, jv(ov[0].1)));
        assert(jv_fields(ov)[1] == (ov[1].0@, jv(ov[1].1)));
        assert(jv_fields(ov)[2] == (ov[2].0@, jv(ov[2].1)));
        assert(jv_fields(ov)[3] == (ov[3].0@, jv(ov[3].1)));
        assert(jv_fields(ov)[4] == (ov[4].0@, jv(ov[4].1)));
        assert(jv_fields(ov)[5] == (ov[5].0@, jv(ov[5].1)));
        assert(jv_fields(ov)[6] == (ov[6].0@, jv(ov[6].1)));
        let expected = seq![
            ("id"@, JsonV::Int(row.id)),
            ("name"@, JsonV::Str(row.name@)),
            ("ip"@, JsonV::Str(row.ip@)),
            ("location"@, opt_str_json(row.location)),
            ("notes"@, opt_str_json(row.notes)),
            ("credentials"@, cell_json(row.credentials)),
            ("created_at"@, cell_json(row.created_at)),
        ];
        assert(jv_fields(ov) =~~= expected);
        assert(jv(r) =~~= switch_json(*row));
    }
    r
}

/// One export-only row as an executable object under the given column
/// names.
fn aux_row_to_json(cols: &Vec<String>, row: &Vec<SqlValue>) -> (r: JsonValue)
    requires
        cols@.len() == row@.len(),
    ensures
        jv(r) == aux_row_json(cols.deep_view(), *row),
{
    let mut o: Vec<(String, JsonValue)> = Vec::new();
    let mut i: usize = 0;
    while i < cols.len()
        invariant
            i <= cols@.len(),
            cols@.len() == row@.len(),
            o@.len() == i,
            forall|k: int|
                0 <= k < i ==> (#[trigger] o@[k]).0@ == cols@[k]@ && jv(o@[k].1) == cell_json(
                    row@[k],
                ),
        decreases cols@.len() - i,
    {
        o.push((cols[i].clone(), cell_to_json(&row[i])));
        i = i + 1;
    }
    let ghost ov = o@;
    let r = JsonValue::Obj(o);
    proof {
        lemma_jv_fields_of(r);
        let expected = Seq::new(
            cols.deep_view().len(),
            |k: int| (cols.deep_view()[k], cell_json(row@[k])),
        );
        assert forall|k: int|
            0 <= k < cols.deep_view().len() implies jv_fields(ov)[k] == expected[k] by {
            assert(jv_fields(ov)[k] == (ov[k].0@, jv(ov[k].1)));
            assert(cols.deep_view()[k] == cols@[k]@);
        }
        assert(jv_fields(ov) =~~= expected);
        assert(jv(r) =~~= aux_row_json(cols.deep_view(), *row));
    }
    r
}

/// Reads `jv` of an object value field-wise.
proof fn lemma_jv_fields_of(r: JsonValue)
    ensures
        r matches JsonValue::Obj(o) ==> jv(r) == JsonV::Obj(jv_fields(o@)) && jv_fields(
            o@,
        ).len() == o@.len() && forall|i: int|
            0 <= i < o@.len() ==> jv_fields(o@)[i] == ((#[trigger] o@[i]).0@, jv(o@[i].1)),
{
    if let JsonValue::Obj(o) = r {
        lemma_jv_fields(o@);
    }
}

/// A stored scalar equals itself under the stored-value relation.
pub proof fn lemma_sql_eq_refl(v: SqlValue)
    ensures
        sql_eq(v, v),
{
}

/// The element of a sequence at an index, for stating untouched prefixes.
pub open spec fn old_seq_at(s: Seq<BookmarkSection>, k: int) -> BookmarkSection {
    s[k]
}

/// Every text field of a bookmark, in its stored form, fits the storage
/// size limit.
pub open spec fn bookmark_texts_fit(b: Bookmark) -> bool {
    &&& text_fits(b.label@)
    &&& text_fits(b.url@)
    &&& text_fits(b.section@)
    &&& (b.description matches Some(s) ==> text_fits(s@))
    &&& (b.tags matches Some(t) ==> text_fits(join_tags(t.deep_view())))
}

/// How a bookmark record is stored under a given identity: tags go to
/// their comma-joined form.
pub open spec fn stored_bookmark(b: Bookmark, row: BookmarkRow, id: i64) -> bool {
    &&& row.id == id
    &&& row.label@ == b.label@
    &&& row.url@ == b.url@
    &&& row.section@ == b.section@
    &&& row.description == b.description
    &&& match (b.tags, row.tags) {
        (None, None) => true,
        (Some(t), Some(s)) => s@ == join_tags(t.deep_view()),
        _ => false,
    }
}

/// Every text field of a switch record fits the storage size limit.
pub open spec fn switch_texts_fit(w: Switch) -> bool {
    &&& text_fits(w.name@)
    &&& text_fits(w.ip@)
    &&& (w.location matches Some(s) ==> text_fits(s@))
    &&& (w.notes matches Some(s) ==> text_fits(s@))
}

/// How a stored switch row reads back as the caller-facing record.
pub open spec fn switch_public(row: SwitchRow, w: Switch) -> bool {
    &&& w.id matches Some(i) && i == row.id
    &&& w.name@ == row.name@
    &&& w.ip@ == row.ip@
    &&& w.location == row.location
    &&& w.notes == row.notes
}

/// An update in place: the row keeps its identity and its schema-only
/// fields, and takes the record's mutable fields.
pub open spec fn updated_switch_row(old_row: SwitchRow, w: Switch, rownew: SwitchRow) -> bool {
    &&& rownew.id == old_row.id
    &&& rownew.name@ == w.name@
    &&& rownew.ip@ == w.ip@
    &&& rownew.location == w.location
    &&& rownew.notes == w.notes
    &&& sql_eq(rownew.credentials, old_row.credentials)
    &&& sql_eq(rownew.created_at, old_row.created_at)
}

/// A freshly inserted switch row: the record's fields under a new
/// identity, with the schema-only fields left null.
pub open spec fn fresh_switch_row(w: Switch, id: i64, rownew: SwitchRow) -> bool {
    &&& rownew.id == id
    &&& rownew.name@ == w.name@
    &&& rownew.ip@ == w.ip@
    &&& rownew.location == w.location
    &&& rownew.notes == w.notes
    &&& rownew.credentials is Null
    &&& rownew.created_at is Null
}

/// The bookmark table folded into sections: one group per run of equal
/// section values, in table order, each holding its rows in order.
pub open spec fn grouped(rows: Seq<BookmarkRow>) -> Seq<(Seq<char>, Seq<BookmarkRow>)>
    decreases rows.len(),
{
    if rows.len() == 0 {
        Seq::empty()
    } else {
        let g = grouped(rows.drop_last());
        let b = rows.last();
        if g.len() > 0 && g.last().0 == b.section@ {
            g.update(g.len() - 1, (g.last().0, g.last().1.push(b)))
        } else {
            g.push((b.section@, seq![b]))
        }
    }
}

/// The links decode the rows one for one, in order.
pub open spec fn links_decode(rows: Seq<BookmarkRow>, links: Seq<Bookmark>) -> bool {
    &&& links.len() == rows.len()
    &&& forall|k: int| 0 <= k < rows.len() ==> bookmark_decodes(#[trigger] rows[k], links[k])
}

/// The section records carry the grouped table: titles and identities are
/// the section values, and each section's links decode its rows.
pub open spec fn sections_match(
    g: Seq<(Seq<char>, Seq<BookmarkRow>)>,
    v: Seq<BookmarkSection>,
) -> bool {
    &&& v.len() == g.len()
    &&& forall|i: int|
        0 <= i < g.len() ==> {
            &&& (#[trigger] v[i]).id@ == g[i].0
            &&& v[i].title@ == g[i].0
            &&& links_decode(g[i].1, v[i].links@)
        }
}

/// What `Seq::insert` puts at each index.
pub proof fn lemma_insert_shape<T>(s: Seq<T>, p: int, v: T, i: int)
    requires
        0 <= p <= s.len(),
        0 <= i < s.len() + 1,
    ensures
        i < p ==> s.insert(p, v)[i] == s[i],
        i == p ==> s.insert(p, v)[i] == v,
        i > p ==> s.insert(p, v)[i] == s[i - 1],
{
}

/// What `Seq::remove` leaves at each index.
pub proof fn lemma_remove_shape<T>(s: Seq<T>, p: int, i: int)
    requires
        0 <= p < s.len(),
        0 <= i < s.len() - 1,
    ensures
        i < p ==> s.remove(p)[i] == s[i],
        i >= p ==> s.remove(p)[i] == s[i + 1],
{
}

/// Whether `a` comes strictly before `b` in the store's string order.
pub fn str_less(a: &str, b: &str) -> (r: bool)
    ensures
        r == str_lt(a@, b@),
{
    match cmp_str(a, b) {
        StrOrd::Less => true,
        _ => false,
    }
}

/// Inserts a task into a table kept sorted newest-first, returning the
/// position it took.
fn insert_task_sorted(v: &mut Vec<Task>, t: Task) -> (pos: usize)
    requires
        tasks_sorted(old(v)@),
    ensures
        pos <= old(v)@.len(),
        final(v)@ == old(v)@.insert(pos as int, t),
        tasks_sorted(final(v)@),
{
    let mut i: usize = 0;
    while i < v.len() && !str_less(v[i].created_at.as_str(), t.created_at.as_str())
        invariant
            i <= v@.len(),
            v@ == old(v)@,
            tasks_sorted(v@),
            forall|k: int| 0 <= k < i ==> str_le(t.created_at@, (#[trigger] v@[k]).created_at@),
        decreases v@.len() - i,
    {
        i = i + 1;
    }
    let ghost s0 = v@;
    v.insert(i, t);
    proof {
        let p = i as int;
        let s1 = v@;
        assert(s1 == s0.insert(p, t));
        assert forall|a: int, b: int|
            0 <= a < b < s1.len() implies str_le(s1[b].created_at@, s1[a].created_at@) by {
            lemma_insert_shape(s0, p, t, a);
            lemma_insert_shape(s0, p, t, b);
            if a < p && b == p {
                // earlier rows sort no later than the new one by the scan
            } else if a == p && b > p {
                // rows past the scan point are strictly older than the new one
                assert(str_lt(s0[p].created_at@, t.created_at@));
                if b - 1 > p {
                    assert(str_le(s0[b - 1].created_at@, s0[p].created_at@));
                    lemma_str_le_lt_trans(
                        s0[b - 1].created_at@,
                        s0[p].created_at@,
                        t.created_at@,
                    );
                }
                lemma_str_lt_asym(s0[b - 1].created_at@, t.created_at@);
            } else if a < p && b > p {
                assert(str_le(s0[b - 1].created_at@, s0[a].created_at@));
            }
        }
    }
    i
}

/// The bookmark order is total.
pub proof fn lemma_bm_le_total(a: BookmarkRow, b: BookmarkRow)
    ensures
        bm_le(a, b) || bm_le(b, a),
{
    lemma_str_lt_trichotomy(a.section@, b.section@);
    if a.section@ == b.section@ && !str_le(a.label@, b.label@) {
        lemma_str_lt_asym(b.label@, a.label@);
    }
}

/// The bookmark order is transitive.
pub proof fn lemma_bm_le_trans(a: BookmarkRow, b: BookmarkRow, c: BookmarkRow)
    requires
        bm_le(a, b),
        bm_le(b, c),
    ensures
        bm_le(a, c),
{
    if str_lt(a.section@, b.section@) {
        if str_lt(b.section@, c.section@) {
            lemma_str_lt_trans(a.section@, b.section@, c.section@);
        }
    } else {
        if a.section@ == b.section@ && b.section@ == c.section@ {
            lemma_str_le_trans(a.label@, b.label@, c.label@);
        }
    }
}

/// Inserts a bookmark row into a table kept sorted by section then label,
/// returning the position it took.
fn insert_bookmark_sorted(v: &mut Vec<BookmarkRow>, t: BookmarkRow) -> (pos: usize)
    requires
        bookmarks_sorted(old(v)@),
    ensures
        pos <= old(v)@.len(),
        final(v)@ == old(v)@.insert(pos as int, t),
        bookmarks_sorted(final(v)@),
{
    let mut i: usize = 0;
    while i < v.len() && bm_le_exec(&v[i], &t)
        invariant
            i <= v@.len(),
            v@ == old(v)@,
            bookmarks_sorted(v@),
            forall|k: int| 0 <= k < i ==> bm_le(#[trigger] v@[k], t),
        decreases v@.len() - i,
    {
        i = i + 1;
    }
    let ghost s0 = v@;
    v.insert(i, t);
    proof {
        let p = i as int;
        let s1 = v@;
        assert(s1 == s0.insert(p, t));
        assert forall|a: int, b: int| 0 <= a < b < s1.len() implies bm_le(s1[a], s1[b]) by {
            lemma_insert_shape(s0, p, t, a);
            lemma_insert_shape(s0, p, t, b);
            if a == p && b > p {
                lemma_bm_le_total(s0[p], t);
                if b - 1 > p {
                    lemma_bm_le_trans(t, s0[p], s0[b - 1]);
                }
            }
        }
    }
    i
}

/// Whether bookmark row `a` orders no later than `b`.
fn bm_le_exec(a: &BookmarkRow, b: &BookmarkRow) -> (r: bool)
    ensures
        r == bm_le(*a, *b),
{
    match cmp_str(a.section.as_str(), b.section.as_str()) {
        StrOrd::Less => true,
        StrOrd::Greater => false,
        StrOrd::Equal => match cmp_str(a.label.as_str(), b.label.as_str()) {
            StrOrd::Greater => {
                proof {
                    lemma_str_lt_asym(b.label@, a.label@);
                }
                false
            },
            _ => {
                proof {
                    if str_lt(a.label@, b.label@) {
                        lemma_str_lt_asym(a.label@, b.label@);
                    } else {
                        lemma_str_lt_irrefl(a.label@);
                    }
                }
                true
            },
        },
    }
}

/// Inserts a switch row into a table kept sorted by name, returning the
/// position it took.
fn insert_switch_sorted(v: &mut Vec<SwitchRow>, t: SwitchRow) -> (pos: usize)
    requires
        switches_sorted(old(v)@),
    ensures
        pos <= old(v)@.len(),
        final(v)@ == old(v)@.insert(pos as int, t),
        switches_sorted(final(v)@),
{
    let mut i: usize = 0;
    while i < v.len() && !str_less(t.name.as_str(), v[i].name.as_str())
        invariant
            i <= v@.len(),
            v@ == old(v)@,
            switches_sorted(v@),
            forall|k: int| 0 <= k < i ==> str_le((#[trigger] v@[k]).name@, t.name@),
        decreases v@.len() - i,
    {
        i = i + 1;
    }
    let ghost s0 = v@;
    v.insert(i, t);
    proof {
        let p = i as int;
        let s1 = v@;
        assert(s1 == s0.insert(p, t));
        assert forall|a: int, b: int|
            0 <= a < b < s1.len() implies str_le(s1[a].name@, s1[b].name@) by {
            lemma_insert_shape(s0, p, t, a);
            lemma_insert_shape(s0, p, t, b);
            if a == p && b > p {
                assert(str_lt(t.name@, s0[p].name@));
                if b - 1 > p {
                    lemma_str_lt_le_trans(t.name@, s0[p].name@, s0[b - 1].name@);
                }
                lemma_str_lt_asym(t.name@, s0[b - 1].name@);
            }
        }
    }
    i
}

/// A strict order never holds both ways.
pub proof fn lemma_str_lt_asym(a: Seq<char>, b: Seq<char>)
    requires
        str_lt(a, b),
    ensures
        str_le(a, b),
    decreases a.len(),
{
    if str_lt(b, a) {
        lemma_str_lt_trans(a, b, a);
        lemma_str_lt_irrefl(a);
    }
}

/// Nothing comes strictly before itself.
pub proof fn lemma_str_lt_irrefl(a: Seq<char>)
    ensures
        !str_lt(a, a),
    decreases a.len(),
{
    if a.len() > 0 {
        lemma_str_lt_irrefl(a.skip(1));
    }
}

/// A task was created: the new row carries the given title and creation
/// time, is not completed, takes the next free identity, and joins the
/// table in its sorted place.
pub open spec fn task_created(pre: DbState, post: DbState, title: Seq<char>, now: Seq<char>) -> bool {
    &&& exists|i: int, t: Task|
        {
            &&& 0 <= i <= pre.tasks@.len()
            &&& t.id == pre.next_task_id
            &&& t.title@ == title
            &&& t.completed == 0
            &&& t.created_at@ == now
            &&& post.tasks@ == pre.tasks@.insert(i, t)
        }
    &&& post.next_task_id == pre.next_task_id + 1
}

/// A task's completed flag was set: only the row with the given identity
/// changes, and only its completed field.
pub open spec fn task_toggled(pre: DbState, post: DbState, id: i64, completed: bool) -> bool {
    &&& post.tasks@.len() == pre.tasks@.len()
    &&& forall|i: int|
        0 <= i < pre.tasks@.len() ==> {
            let t0 = #[trigger] pre.tasks@[i];
            let t1 = post.tasks@[i];
            if t0.id == id {
                t1.id == t0.id && t1.title == t0.title && t1.created_at == t0.created_at
                    && t1.completed == (if completed {
                    1int
                } else {
                    0int
                })
            } else {
                t1 == t0
            }
        }
}

/// A switch record without an identity was saved: a fresh row joined the
/// table under the next free identity.
pub open spec fn switch_inserted(pre: DbState, post: DbState, w: Switch, rid: i64) -> bool {
    &&& rid == pre.next_switch_id
    &&& post.next_switch_id == pre.next_switch_id + 1
    &&& exists|i: int, rownew: SwitchRow|
        {
            &&& 0 <= i <= pre.switches@.len()
            &&& fresh_switch_row(w, rid, rownew)
            &&& post.switches@ == pre.switches@.insert(i, rownew)
        }
}

/// A switch record with an identity was saved: the row with that identity,
/// if any, took the record's mutable fields; an unknown identity changed
/// nothing.
pub open spec fn switch_saved_by_id(pre: DbState, post: DbState, w: Switch, id: i64) -> bool {
    &&& post.next_switch_id == pre.next_switch_id
    &&& if exists|j: int|
        0 <= j < pre.switches@.len() && (#[trigger] pre.switches@[j]).id == id {
        exists|j: int, k: int, rownew: SwitchRow|
            {
                &&& 0 <= j < pre.switches@.len()
                &&& pre.switches@[j].id == id
                &&& updated_switch_row(pre.switches@[j], w, rownew)
                &&& 0 <= k <= pre.switches@.len() - 1
                &&& post.switches@ == #[trigger] pre.switches@.remove(j).insert(k, rownew)
            }
    } else {
        post.switches@ == pre.switches@
    }
}

/// Law: after a task is created, the table - which `list_tasks` returns
/// verbatim - holds a row with that title, not completed, stamped with the
/// given creation time; and toggling any task afterwards changes no row's
/// creation time.
pub proof fn lemma_create_then_toggle(
    pre: DbState,
    mid: DbState,
    post: DbState,
    title: Seq<char>,
    now: Seq<char>,
    id: i64,
    completed: bool,
)
    requires
        task_created(pre, mid, title, now),
        task_toggled(mid, post, id, completed),
    ensures
        exists|j: int|
            0 <= j < mid.tasks@.len() && (#[trigger] mid.tasks@[j]).title@ == title
                && mid.tasks@[j].completed == 0 && mid.tasks@[j].created_at@ == now,
        post.tasks@.len() == mid.tasks@.len(),
        forall|j: int|
            0 <= j < mid.tasks@.len() ==> (#[trigger] post.tasks@[j]).created_at
                == mid.tasks@[j].created_at,
{
    let (i, t) = choose|i: int, t: Task|
        {
            &&& 0 <= i <= pre.tasks@.len()
            &&& t.id == pre.next_task_id
            &&& t.title@ == title
            &&& t.completed == 0
            &&& t.created_at@ == now
            &&& mid.tasks@ == pre.tasks@.insert(i, t)
        };
    assert(mid.tasks@[i] == t);
    assert(forall|j: int|
        0 <= j < mid.tasks@.len() ==> (#[trigger] post.tasks@[j]).created_at
            == mid.tasks@[j].created_at);
}

/// Law: saving a switch with no identity assigns a fresh identity distinct
/// from every row already in the table; saving a record again under that
/// identity updates the same row in place, leaving the table's length
/// unchanged.
pub proof fn lemma_save_switch_upsert(
    pre: DbState,
    mid: DbState,
    post: DbState,
    w1: Switch,
    w2: Switch,
    rid: i64,
)
    requires
        pre.wf(),
        switch_inserted(pre, mid, w1, rid),
        switch_saved_by_id(mid, post, w2, rid),
    ensures
        forall|j: int| 0 <= j < pre.switches@.len() ==> (#[trigger] pre.switches@[j]).id != rid,
        post.switches@.len() == mid.switches@.len(),
{
    assert forall|j: int|
        0 <= j < pre.switches@.len() implies (#[trigger] pre.switches@[j]).id != rid by {
        assert(pre.switches@[j].id < pre.next_switch_id);
    }
    let (i, rownew) = choose|i: int, rownew: SwitchRow|
        {
            &&& 0 <= i <= pre.switches@.len()
            &&& fresh_switch_row(w1, rid, rownew)
            &&& mid.switches@ == pre.switches@.insert(i, rownew)
        };
    assert(mid.switches@[i] == rownew);
    assert(mid.switches@[i].id == rid);
    assert(exists|j: int| 0 <= j < mid.switches@.len() && (#[trigger] mid.switches@[j]).id == rid);
    let (j, k, rownew2) = choose|j: int, k: int, rownew2: SwitchRow|
        {
            &&& 0 <= j < mid.switches@.len()
            &&& mid.switches@[j].id == rid
            &&& updated_switch_row(mid.switches@[j], w2, rownew2)
            &&& 0 <= k <= mid.switches@.len() - 1
            &&& post.switches@ == #[trigger] mid.switches@.remove(j).insert(k, rownew2)
        };
    assert(post.switches@.len() == mid.switches@.len());
}

/// Stored bookmark rows that agree on every field except the identity.
pub open spec fn bookmark_fields_eq(a: BookmarkRow, b: BookmarkRow) -> bool {
    &&& a.label@ == b.label@
    &&& a.url@ == b.url@
    &&& a.section@ == b.section@
    &&& match (a.description, b.description) {
        (None, None) => true,
        (Some(x), Some(y)) => x@ == y@,
        _ => false,
    }
    &&& match (a.tags, b.tags) {
        (None, None) => true,
        (Some(x), Some(y)) => x@ == y@,
        _ => false,
    }
}

/// What each field of an exported bookmark object reads back as.
proof fn lemma_bookmark_json_fields(r: BookmarkRow)
    ensures
        obj_get(bookmark_json(r), "label"@) == Some(JsonV::Str(r.label@)),
        obj_get(bookmark_json(r), "url"@) == Some(JsonV::Str(r.url@)),
        obj_get(bookmark_json(r), "section"@) == Some(JsonV::Str(r.section@)),
        obj_get(bookmark_json(r), "description"@) == Some(opt_str_json(r.description)),
        obj_get(bookmark_json(r), "tags"@) == Some(opt_str_json(r.tags)),
{
    reveal_strlit("id");
    reveal_strlit("label");
    reveal_strlit("url");
    reveal_strlit("section");
    reveal_strlit("description");
    reveal_strlit("tags");
    assert("id"@.len() == 2);
    assert("label"@.len() == 5);
    assert("url"@.len() == 3);
    assert("section"@.len() == 7);
    assert("description"@.len() == 11);
    assert("tags"@.len() == 4);
    reveal_with_fuel(fields_get, 8);
}

/// Which table each key of the backup document selects.
proof fn lemma_export_doc_keys(st: DbState)
    ensures
        obj_get(export_doc(st), "bookmarks"@) == Some(
            JsonV::Arr(bookmarks_json_list(st.bookmarks@)),
        ),
        obj_get(export_doc(st), "tasks"@) == Some(JsonV::Arr(tasks_json_list(st.tasks@))),
        obj_get(export_doc(st), "switches"@) == Some(
            JsonV::Arr(switches_json_list(st.switches@)),
        ),
{
    reveal_strlit("users");
    reveal_strlit("switches");
    reveal_strlit("ports");
    reveal_strlit("vlans");
    reveal_strlit("manuals");
    reveal_strlit("formats");
    reveal_strlit("bookmarks");
    reveal_strlit("tasks");
    assert("users"@.len() == 5);
    assert("switches"@.len() == 8);
    assert("ports"@.len() == 5);
    assert("vlans"@.len() == 5);
    assert("manuals"@.len() == 7);
    assert("formats"@.len() == 7);
    assert("bookmarks"@.len() == 9);
    assert("tasks"@.len() == 5);
    assert("users"@[0] == 'u' && "ports"@[0] == 'p' && "vlans"@[0] == 'v' && "tasks"@[0]
        == 't');
    assert("manuals"@[0] == 'm' && "formats"@[0] == 'f');
    reveal_with_fuel(fields_get, 10);
}


/// The row reappears in the table, field for field apart from the
/// identity.
pub open spec fn bookmark_row_reappears(r: BookmarkRow, tab: Seq<BookmarkRow>) -> bool {
    exists|j: int| 0 <= j < tab.len() && bookmark_fields_eq(r, #[trigger] tab[j])
}

/// Every bookmark row of the first store reappears in the second, field
/// for field apart from the identity, and the tables have equal size.
pub open spec fn bookmark_rows_preserved(pre: DbState, post: DbState) -> bool {
    &&& post.bookmarks@.len() == pre.bookmarks@.len()
    &&& forall|i: int|
        0 <= i < pre.bookmarks@.len() ==> #[trigger] bookmark_row_reappears(
            pre.bookmarks@[i],
            post.bookmarks@,
        )
}

/// Law: importing a store's own exported document rebuilds the bookmark
/// table with the same rows field for field - label, url, section,
/// description and the stored tag text - with only the identities
/// reassigned. Comma-bearing tag entries were already joined at creation,
/// which is where the documented loss happens; the export/import round
/// trip itself loses nothing.
pub proof fn lemma_export_import_bookmarks(pre: DbState, post: DbState)
    requires
        j_arr(obj_get(export_doc(pre), "bookmarks"@)) matches Some(a) && bookmarks_replaced(
            pre,
            post,
            a,
        ),
    ensures
        bookmark_rows_preserved(pre, post),
{
    lemma_export_doc_keys(pre);
    let a = bookmarks_json_list(pre.bookmarks@);
    assert(j_arr(obj_get(export_doc(pre), "bookmarks"@)) == Some(a));
    assert(bookmarks_replaced(pre, post, a));
    assert(post.bookmarks@.len() == pre.bookmarks@.len());
    assert forall|i: int|
        0 <= i < pre.bookmarks@.len() implies #[trigger] bookmark_row_reappears(
        pre.bookmarks@[i],
        post.bookmarks@,
    ) by {
        let r = pre.bookmarks@[i];
        assert(a[i] == bookmark_json(r));
        lemma_bookmark_json_fields(r);
        assert(bm_row_imported(a, i, pre.next_bookmark_id as int, post.bookmarks@));
        let j = choose|j: int|
            0 <= j < post.bookmarks@.len() && imported_bookmark_row(
                a[i],
                pre.next_bookmark_id + i,
                #[trigger] post.bookmarks@[j],
            );
        assert(bookmark_fields_eq(r, post.bookmarks@[j]));
    }
}


} // verus!
