use vstd::prelude::*;

use crate::DbError;
use crate::strorder::cmp_str;
use crate::strorder::StrOrd;
use crate::tags::decode_tags;
use crate::tags::encode_tags;
use crate::tags::join_tags;
use crate::tags::split_trim;

verus! {

/// A stored scalar: the value of one column in one row. The store's schema
/// has no floating-point columns, so no such variant exists here.
#[derive(Debug)]
pub enum SqlValue {
    Null,
    Int(i64),
    Text(String),
    Blob(Vec<u8>),
}

/// Two stored scalars hold the same value.
pub open spec fn sql_eq(a: SqlValue, b: SqlValue) -> bool {
    match (a, b) {
        (SqlValue::Null, SqlValue::Null) => true,
        (SqlValue::Int(x), SqlValue::Int(y)) => x == y,
        (SqlValue::Text(x), SqlValue::Text(y)) => x@ == y@,
        (SqlValue::Blob(x), SqlValue::Blob(y)) => x@ == y@,
        _ => false,
    }
}

impl Clone for SqlValue {
    fn clone(&self) -> (r: Self)
        ensures
            sql_eq(r, *self),
    {
        match self {
            SqlValue::Null => SqlValue::Null,
            SqlValue::Int(i) => SqlValue::Int(*i),
            SqlValue::Text(s) => SqlValue::Text(s.clone()),
            SqlValue::Blob(b) => {
                let c = b.clone();
                proof {
                    assert(c@ =~= b@);
                }
                SqlValue::Blob(c)
            },
        }
    }
}

/// A to-do item as the store keeps it; `completed` is 0 or 1 and
/// `created_at` is the server-assigned creation timestamp.
#[derive(Debug)]
pub struct Task {
    pub id: i64,
    pub title: String,
    pub completed: i64,
    pub created_at: String,
}

impl Clone for Task {
    fn clone(&self) -> (r: Self)
        ensures
            r == *self,
    {
        Task {
            id: self.id,
            title: self.title.clone(),
            completed: self.completed,
            created_at: self.created_at.clone(),
        }
    }
}

/// Clones an optional text field.
pub fn clone_opt_string(s: &Option<String>) -> (r: Option<String>)
    ensures
        r == *s,
{
    match s {
        None => None,
        Some(v) => Some(v.clone()),
    }
}

/// A saved link as callers see it: tags are an ordered list, decoded from
/// the stored comma-joined form.
#[derive(Debug)]
pub struct Bookmark {
    pub id: i64,
    pub label: String,
    pub url: String,
    pub section: String,
    pub description: Option<String>,
    pub tags: Option<Vec<String>>,
}

/// Two bookmark records carry the same values, field by field.
pub open spec fn bookmark_eq(a: Bookmark, b: Bookmark) -> bool {
    &&& a.id == b.id
    &&& a.label@ == b.label@
    &&& a.url@ == b.url@
    &&& a.section@ == b.section@
    &&& a.description == b.description
    &&& match (a.tags, b.tags) {
        (None, None) => true,
        (Some(x), Some(y)) => x@ == y@,
        _ => false,
    }
}

impl Clone for Bookmark {
    fn clone(&self) -> (r: Self)
        ensures
            bookmark_eq(r, *self),
    {
        let tags: Option<Vec<String>> = match &self.tags {
            None => None,
            Some(v) => {
                let c = v.clone();
                proof {
                    assert(c@ =~= v@);
                }
                Some(c)
            },
        };
        Bookmark {
            id: self.id,
            label: self.label.clone(),
            url: self.url.clone(),
            section: self.section.clone(),
            description: clone_opt_string(&self.description),
            tags,
        }
    }
}

impl Default for Bookmark {
    fn default() -> (r: Self)
        ensures
            r.id == 0,
            r.label@ == Seq::<char>::empty(),
            r.url@ == Seq::<char>::empty(),
            r.section@ == Seq::<char>::empty(),
            r.description is None,
            r.tags is None,
    {
        Bookmark {
            id: 0,
            label: String::new(),
            url: String::new(),
            section: String::new(),
            description: None,
            tags: None,
        }
    }
}

impl Bookmark {
    /// The stored form of this bookmark's tags: `None` stays `None`, a list
    /// becomes its comma-joined text.
    pub fn tags_as_string(&self) -> (r: Option<String>)
        ensures
            match (&self.tags, &r) {
                (Some(t), Some(s)) => s@ == join_tags(t.deep_view()),
                (None, None) => true,
                _ => false,
            },
    {
        match &self.tags {
            None => None,
            Some(t) => Some(encode_tags(t)),
        }
    }
}

/// A bookmark as one stored row: tags in their comma-joined stored form.
#[derive(Debug)]
pub struct BookmarkRow {
    pub id: i64,
    pub label: String,
    pub url: String,
    pub section: String,
    pub description: Option<String>,
    pub tags: Option<String>,
}

impl Clone for BookmarkRow {
    fn clone(&self) -> (r: Self)
        ensures
            r == *self,
    {
        BookmarkRow {
            id: self.id,
            label: self.label.clone(),
            url: self.url.clone(),
            section: self.section.clone(),
            description: clone_opt_string(&self.description),
            tags: clone_opt_string(&self.tags),
        }
    }
}

/// How a stored bookmark row decodes into the record callers see.
pub open spec fn bookmark_decodes(row: BookmarkRow, b: Bookmark) -> bool {
    &&& b.id == row.id
    &&& b.label@ == row.label@
    &&& b.url@ == row.url@
    &&& b.section@ == row.section@
    &&& match (row.description, b.description) {
        (None, None) => true,
        (Some(s), Some(t)) => s@ == t@,
        _ => false,
    }
    &&& match (row.tags, b.tags) {
        (None, None) => true,
        (Some(s), Some(v)) => v.deep_view() == split_trim(s@),
        _ => false,
    }
}

/// Decodes one stored bookmark row into the caller-facing record.
pub fn bookmark_from_storage(row: &BookmarkRow) -> (b: Bookmark)
    ensures
        bookmark_decodes(*row, b),
{
    let tags: Option<Vec<String>> = match &row.tags {
        None => None,
        Some(s) => Some(decode_tags(s.as_str())),
    };
    Bookmark {
        id: row.id,
        label: row.label.clone(),
        url: row.url.clone(),
        section: row.section.clone(),
        description: clone_opt_string(&row.description),
        tags,
    }
}

/// One section of the grouped bookmark view: its title doubles as its
/// identity, and `links` holds the bookmarks filed under it, in order.
#[derive(Debug)]
pub struct BookmarkSection {
    pub id: String,
    pub title: String,
    pub links: Vec<Bookmark>,
}

impl Clone for BookmarkSection {
    fn clone(&self) -> (r: Self)
        ensures
            r.id@ == self.id@,
            r.title@ == self.title@,
            r.links@.len() == self.links@.len(),
            forall|i: int|
                0 <= i < self.links@.len() ==> bookmark_eq(r.links@[i], self.links@[i]),
    {
        let links = self.links.clone();
        BookmarkSection { id: self.id.clone(), title: self.title.clone(), links }
    }
}

/// A network switch as callers see it: `id` is absent before the first
/// save and present afterwards.
#[derive(Debug)]
pub struct Switch {
    pub id: Option<i64>,
    pub name: String,
    pub ip: String,
    pub location: Option<String>,
    pub notes: Option<String>,
}

impl Clone for Switch {
    fn clone(&self) -> (r: Self)
        ensures
            r == *self,
    {
        Switch {
            id: self.id,
            name: self.name.clone(),
            ip: self.ip.clone(),
            location: clone_opt_string(&self.location),
            notes: clone_opt_string(&self.notes),
        }
    }
}

impl Default for Switch {
    fn default() -> (r: Self)
        ensures
            r.id is None,
            r.name@ == Seq::<char>::empty(),
            r.ip@ == Seq::<char>::empty(),
            r.location is None,
            r.notes is None,
    {
        Switch { id: None, name: String::new(), ip: String::new(), location: None, notes: None }
    }
}

/// A switch as one stored row. `credentials` and `created_at` exist in the
/// schema but are outside the repository's mutate/read contract: rows
/// created through the repository leave them null, and only the export
/// reads them.
#[derive(Debug)]
pub struct SwitchRow {
    pub id: i64,
    pub name: String,
    pub ip: String,
    pub location: Option<String>,
    pub notes: Option<String>,
    pub credentials: SqlValue,
    pub created_at: SqlValue,
}

/// Two stored switch rows carry the same values, field by field.
pub open spec fn switch_row_eq(a: SwitchRow, b: SwitchRow) -> bool {
    &&& a.id == b.id
    &&& a.name@ == b.name@
    &&& a.ip@ == b.ip@
    &&& a.location == b.location
    &&& a.notes == b.notes
    &&& sql_eq(a.credentials, b.credentials)
    &&& sql_eq(a.created_at, b.created_at)
}

impl Clone for SwitchRow {
    fn clone(&self) -> (r: Self)
        ensures
            switch_row_eq(r, *self),
    {
        SwitchRow {
            id: self.id,
            name: self.name.clone(),
            ip: self.ip.clone(),
            location: clone_opt_string(&self.location),
            notes: clone_opt_string(&self.notes),
            credentials: self.credentials.clone(),
            created_at: self.created_at.clone(),
        }
    }
}

/// Credentials attached to a switch; carried only by callers, never read
/// by the repositories.
#[derive(Debug)]
pub struct CredentialsPayload {
    pub username: String,
    pub password: String,
    pub notes: Option<String>,
}

/// The value of the named column in a row, reading columns left to right.
pub open spec fn col_value(row: Seq<(String, SqlValue)>, name: Seq<char>) -> Option<SqlValue>
    decreases row.len(),
{
    if row.len() == 0 {
        None
    } else if row[0].0@ == name {
        Some(row[0].1)
    } else {
        col_value(row.skip(1), name)
    }
}

/// Finds the named column in a row, if it is there.
fn find_col(row: &Vec<(String, SqlValue)>, name: &str) -> (r: Option<usize>)
    ensures
        match r {
            Some(j) => j < row.len() && row@[j as int].0@ == name@ && col_value(row@, name@)
                == Some(row@[j as int].1),
            None => col_value(row@, name@) is None,
        },
{
    let mut i: usize = 0;
    assert(row@.skip(0) =~= row@);
    while i < row.len()
        invariant
            i <= row.len(),
            col_value(row@, name@) == col_value(row@.skip(i as int), name@),
        decreases row.len() - i,
    {
        assert(row@.skip(i as int)[0] == row@[i as int]);
        let eq = match cmp_str(row[i].0.as_str(), name) {
            StrOrd::Equal => true,
            _ => false,
        };
        if eq {
            return Some(i);
        }
        assert(row@.skip(i as int).skip(1) =~= row@.skip(i + 1));
        i = i + 1;
    }
    assert(row@.skip(i as int).len() == 0);
    None
}

/// The row has the columns, with the types, that a stored task row has.
pub open spec fn task_row_ok(row: Seq<(String, SqlValue)>) -> bool {
    &&& col_value(row, "id"@) matches Some(SqlValue::Int(_))
    &&& col_value(row, "title"@) matches Some(SqlValue::Text(_))
    &&& col_value(row, "completed"@) matches Some(SqlValue::Int(_))
    &&& col_value(row, "created_at"@) matches Some(SqlValue::Text(_))
}

impl Task {
    /// Maps a generic row, column by column, to a task record.
    pub fn from_row(row: &Vec<(String, SqlValue)>) -> (r: Result<Task, DbError>)
        ensures
            r is Ok <==> task_row_ok(row@),
            r matches Ok(t) ==> {
                &&& col_value(row@, "id"@) matches Some(SqlValue::Int(i)) && t.id == i
                &&& col_value(row@, "title"@) matches Some(SqlValue::Text(s)) && t.title@ == s@
                &&& col_value(row@, "completed"@) matches Some(SqlValue::Int(c)) && t.completed
                    == c
                &&& col_value(row@, "created_at"@) matches Some(SqlValue::Text(s)) && t.created_at@
                    == s@
            },
            r matches Err(e) ==> e == DbError::ColumnMismatch,
    {
        let id = match find_col(row, "id") {
            Some(j) => match &row[j].1 {
                SqlValue::Int(i) => *i,
                _ => { return Err(DbError::ColumnMismatch); },
            },
            None => { return Err(DbError::ColumnMismatch); },
        };
        let title = match find_col(row, "title") {
            Some(j) => match &row[j].1 {
                SqlValue::Text(s) => s.clone(),
                _ => { return Err(DbError::ColumnMismatch); },
            },
            None => { return Err(DbError::ColumnMismatch); },
        };
        let completed = match find_col(row, "completed") {
            Some(j) => match &row[j].1 {
                SqlValue::Int(i) => *i,
                _ => { return Err(DbError::ColumnMismatch); },
            },
            None => { return Err(DbError::ColumnMismatch); },
        };
        let created_at = match find_col(row, "created_at") {
            Some(j) => match &row[j].1 {
                SqlValue::Text(s) => s.clone(),
                _ => { return Err(DbError::ColumnMismatch); },
            },
            None => { return Err(DbError::ColumnMismatch); },
        };
        Ok(Task { id, title, completed, created_at })
    }
}

/// An optional-text column: null or text.
pub open spec fn opt_text_ok(v: Option<SqlValue>) -> bool {
    match v {
        Some(SqlValue::Null) => true,
        Some(SqlValue::Text(_)) => true,
        _ => false,
    }
}

/// How an optional-text column reads back: null becomes `None`.
pub open spec fn opt_text_decodes(v: Option<SqlValue>, o: Option<String>) -> bool {
    match v {
        Some(SqlValue::Null) => o is None,
        Some(SqlValue::Text(s)) => o matches Some(t) && t@ == s@,
        _ => false,
    }
}

/// Reads an optional-text column.
fn read_opt_text(row: &Vec<(String, SqlValue)>, name: &str) -> (r: Result<
    Option<String>,
    DbError,
>)
    ensures
        r is Ok <==> opt_text_ok(col_value(row@, name@)),
        r matches Ok(o) ==> opt_text_decodes(col_value(row@, name@), o),
        r matches Err(e) ==> e == DbError::ColumnMismatch,
{
    match find_col(row, name) {
        Some(j) => match &row[j].1 {
            SqlValue::Null => Ok(None),
            SqlValue::Text(s) => Ok(Some(s.clone())),
            _ => Err(DbError::ColumnMismatch),
        },
        None => Err(DbError::ColumnMismatch),
    }
}

/// The row has the columns, with the types, that a stored bookmark row has.
pub open spec fn bookmark_row_ok(row: Seq<(String, SqlValue)>) -> bool {
    &&& col_value(row, "id"@) matches Some(SqlValue::Int(_))
    &&& col_value(row, "label"@) matches Some(SqlValue::Text(_))
    &&& col_value(row, "url"@) matches Some(SqlValue::Text(_))
    &&& col_value(row, "section"@) matches Some(SqlValue::Text(_))
    &&& opt_text_ok(col_value(row, "description"@))
    &&& opt_text_ok(col_value(row, "tags"@))
}

impl Bookmark {
    /// Maps a generic row to a bookmark record, decoding the stored tag
    /// text into the ordered tag list.
    pub fn from_row(row: &Vec<(String, SqlValue)>) -> (r: Result<Bookmark, DbError>)
        ensures
            r is Ok <==> bookmark_row_ok(row@),
            r matches Ok(b) ==> {
                &&& col_value(row@, "id"@) matches Some(SqlValue::Int(i)) && b.id == i
                &&& col_value(row@, "label"@) matches Some(SqlValue::Text(s)) && b.label@ == s@
                &&& col_value(row@, "url"@) matches Some(SqlValue::Text(s)) && b.url@ == s@
                &&& col_value(row@, "section"@) matches Some(SqlValue::Text(s)) && b.section@
                    == s@
                &&& opt_text_decodes(col_value(row@, "description"@), b.description)
                &&& match (col_value(row@, "tags"@), b.tags) {
                    (Some(SqlValue::Null), None) => true,
                    (Some(SqlValue::Text(s)), Some(v)) => v.deep_view() == split_trim(s@),
                    _ => false,
                }
            },
            r matches Err(e) ==> e == DbError::ColumnMismatch,
    {
        let id = match find_col(row, "id") {
            Some(j) => match &row[j].1 {
                SqlValue::Int(i) => *i,
                _ => { return Err(DbError::ColumnMismatch); },
            },
            None => { return Err(DbError::ColumnMismatch); },
        };
        let label = match find_col(row, "label") {
            Some(j) => match &row[j].1 {
                SqlValue::Text(s) => s.clone(),
                _ => { return Err(DbError::ColumnMismatch); },
            },
            None => { return Err(DbError::ColumnMismatch); },
        };
        let url = match find_col(row, "url") {
            Some(j) => match &row[j].1 {
                SqlValue::Text(s) => s.clone(),
                _ => { return Err(DbError::ColumnMismatch); },
            },
            None => { return Err(DbError::ColumnMismatch); },
        };
        let section = match find_col(row, "section") {
            Some(j) => match &row[j].1 {
                SqlValue::Text(s) => s.clone(),
                _ => { return Err(DbError::ColumnMismatch); },
            },
            None => { return Err(DbError::ColumnMismatch); },
        };
        let description = match read_opt_text(row, "description") {
            Ok(o) => o,
            Err(e) => { return Err(e); },
        };
        let tags = match read_opt_text(row, "tags") {
            Ok(None) => None,
            Ok(Some(s)) => Some(decode_tags(s.as_str())),
            Err(e) => { return Err(e); },
        };
        Ok(Bookmark { id, label, url, section, description, tags })
    }
}

/// The row has the columns, with the types, that a stored switch row has.
pub open spec fn switch_row_ok(row: Seq<(String, SqlValue)>) -> bool {
    &&& match col_value(row, "id"@) {
        Some(SqlValue::Int(_)) => true,
        Some(SqlValue::Null) => true,
        _ => false,
    }
    &&& col_value(row, "name"@) matches Some(SqlValue::Text(_))
    &&& col_value(row, "ip"@) matches Some(SqlValue::Text(_))
    &&& opt_text_ok(col_value(row, "location"@))
    &&& opt_text_ok(col_value(row, "notes"@))
}

impl Switch {
    /// Maps a generic row to a switch record; a null identity column reads
    /// back as an absent identity.
    pub fn from_row(row: &Vec<(String, SqlValue)>) -> (r: Result<Switch, DbError>)
        ensures
            r is Ok <==> switch_row_ok(row@),
            r matches Ok(w) ==> {
                &&& match (col_value(row@, "id"@), w.id) {
                    (Some(SqlValue::Int(i)), Some(j)) => i == j,
                    (Some(SqlValue::Null), None) => true,
                    _ => false,
                }
                &&& col_value(row@, "name"@) matches Some(SqlValue::Text(s)) && w.name@ == s@
                &&& col_value(row@, "ip"@) matches Some(SqlValue::Text(s)) && w.ip@ == s@
                &&& opt_text_decodes(col_value(row@, "location"@), w.location)
                &&& opt_text_decodes(col_value(row@, "notes"@), w.notes)
            },
            r matches Err(e) ==> e == DbError::ColumnMismatch,
    {
        let id = match find_col(row, "id") {
            Some(j) => match &row[j].1 {
                SqlValue::Int(i) => Some(*i),
                SqlValue::Null => None,
                _ => { return Err(DbError::ColumnMismatch); },
            },
            None => { return Err(DbError::ColumnMismatch); },
        };
        let name = match find_col(row, "name") {
            Some(j) => match &row[j].1 {
                SqlValue::Text(s) => s.clone(),
                _ => { return Err(DbError::ColumnMismatch); },
            },
            None => { return Err(DbError::ColumnMismatch); },
        };
        let ip = match find_col(row, "ip") {
            Some(j) => match &row[j].1 {
                SqlValue::Text(s) => s.clone(),
                _ => { return Err(DbError::ColumnMismatch); },
            },
            None => { return Err(DbError::ColumnMismatch); },
        };
        let location = match read_opt_text(row, "location") {
            Ok(o) => o,
            Err(e) => { return Err(e); },
        };
        let notes = match read_opt_text(row, "notes") {
            Ok(o) => o,
            Err(e) => { return Err(e); },
        };
        Ok(Switch { id, name, ip, location, notes })
    }
}

} // verus!
