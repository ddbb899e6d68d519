//! The per-schema, per-dictionary key/value store: a single-file embedded
//! table mapping `key` to the JSON array of that key's entries, plus the
//! grouping step that fills it. The table itself lives in SQLite through
//! `rusqlite`; everything the library claims about it is stated over
//! `kv_rows`, the rows a connection holds.

use vstd::prelude::*;
use vstd::string::StringExecFns;

use crate::errors::{DictError, ErrorKind};
use crate::json::{json_view_seq, lemma_json_view_seq_index, json_text_of, JsonV, JsonValue};
use crate::progress::{
    CreateTaskParams, ProgressGroupId, ProgressStateTable, ProgressTaskId, ProgressTaskType,
};

verus! {

broadcast use vstd::prelude::Seq::lemma_filter_push;

#[verifier::external_type_specification]
#[verifier::external_body]
pub struct ExConnection(rusqlite::Connection);

#[verifier::external_type_specification]
#[verifier::external_body]
pub struct ExSqliteError(rusqlite::Error);

/// The rows a store connection holds, in insertion order: pairs of key and
/// JSON payload, as this connection sees them (an open transaction's
/// pending rows included).
pub uninterp spec fn kv_rows(conn: rusqlite::Connection) -> Seq<(Seq<char>, Seq<char>)>;

/// The rows as they stood when this connection's open transaction began:
/// what a rollback restores.
pub uninterp spec fn kv_saved(conn: rusqlite::Connection) -> Seq<(Seq<char>, Seq<char>)>;

/// Relies on `rusqlite::Connection::open`: opens or creates the store file
/// in read-write mode. Nothing is known of the rows an existing file holds.
#[verifier::external_body]
fn open_conn(path: &str) -> (r: Result<rusqlite::Connection, rusqlite::Error>)
{
    rusqlite::Connection::open(path)
}

/// Relies on `rusqlite::Connection::open_with_flags`: opens an existing
/// store file read-only; any failure, including a missing file, is none.
#[verifier::external_body]
fn open_conn_ro(path: &str) -> (r: Option<rusqlite::Connection>)
{
    rusqlite::Connection::open_with_flags(
        path,
        rusqlite::OpenFlags::SQLITE_OPEN_READ_ONLY | rusqlite::OpenFlags::SQLITE_OPEN_URI
            | rusqlite::OpenFlags::SQLITE_OPEN_NO_MUTEX,
    ).ok()
}

/// Relies on `rusqlite::Connection::execute_batch`: sets the page size and
/// ensures the table and its key index exist. The rows afterwards are
/// whatever the file held.
#[verifier::external_body]
fn init_store(conn: &mut rusqlite::Connection) -> (r: Result<(), rusqlite::Error>)
{
    conn.execute_batch(
        "PRAGMA page_size = 4096;
         CREATE TABLE IF NOT EXISTS term_entry (
             id   INTEGER PRIMARY KEY,
             key  TEXT NOT NULL,
             json BLOB
         );
         CREATE INDEX IF NOT EXISTS idx_term_key ON term_entry(key);",
    )
}

/// Relies on `rusqlite::Connection::execute_batch`: opens a transaction,
/// leaving the rows as they stand and marking them as what a rollback
/// would restore.
#[verifier::external_body]
fn begin_tx(conn: &mut rusqlite::Connection) -> (r: Result<(), rusqlite::Error>)
    ensures
        r is Ok ==> kv_rows(*final(conn)) == kv_rows(*old(conn)) && kv_saved(*final(conn))
            == kv_rows(*old(conn)),
        r is Err ==> kv_rows(*final(conn)) == kv_rows(*old(conn)),
{
    conn.execute_batch("BEGIN")
}

/// Relies on `rusqlite::Connection::execute_batch`: rolls the open
/// transaction back. On success the rows it began with are restored; a
/// failing rollback either found the transaction already rolled back or
/// left it pending, so the rows are one of the two states.
#[verifier::external_body]
fn rollback_tx(conn: &mut rusqlite::Connection) -> (r: Result<(), rusqlite::Error>)
    ensures
        r is Ok ==> kv_rows(*final(conn)) == kv_saved(*old(conn)),
        r is Err ==> kv_rows(*final(conn)) == kv_saved(*old(conn)) || kv_rows(*final(conn))
            == kv_rows(*old(conn)),
{
    conn.execute_batch("ROLLBACK")
}

/// Relies on `rusqlite::Connection::execute_batch`: commits the open
/// transaction; on success the rows are kept as written. A failing commit
/// either leaves the transaction pending or finds it already rolled back
/// to its starting rows.
#[verifier::external_body]
fn commit_tx(conn: &mut rusqlite::Connection) -> (r: Result<(), rusqlite::Error>)
    ensures
        r is Ok ==> kv_rows(*final(conn)) == kv_rows(*old(conn)),
        r is Err ==> kv_saved(*final(conn)) == kv_saved(*old(conn)) && (kv_rows(*final(conn))
            == kv_rows(*old(conn)) || kv_rows(*final(conn)) == kv_saved(*old(conn))),
{
    conn.execute_batch("COMMIT")
}

/// Relies on `rusqlite::Connection::execute`: appends one row. A failing
/// insert either changes nothing or — on errors that make SQLite roll the
/// whole transaction back — restores the rows the transaction began with.
/// The transaction's starting point is untouched either way.
#[verifier::external_body]
fn insert_row(conn: &mut rusqlite::Connection, key: &str, json: &str) -> (r: Result<
    (),
    rusqlite::Error,
>)
    ensures
        r is Ok ==> kv_rows(*final(conn)) == kv_rows(*old(conn)).push((key@, json@)),
        r is Err ==> kv_rows(*final(conn)) == kv_rows(*old(conn)) || kv_rows(*final(conn))
            == kv_saved(*old(conn)),
        kv_saved(*final(conn)) == kv_saved(*old(conn)),
{
    match conn.execute("INSERT INTO term_entry (key, json) VALUES (?1, ?2)", (key, json)) {
        Ok(_) => Ok(()),
        Err(e) => Err(e),
    }
}

/// Relies on one `SELECT ... WHERE key = ?` through `rusqlite`: some row
/// with the key is returned, or none exists. Which of several equal keys
/// answers is not promised, as SQL fixes no order without one.
#[verifier::external_body]
fn query_first(conn: &rusqlite::Connection, key: &str) -> (r: Result<
    Option<String>,
    rusqlite::Error,
>)
    ensures
        match r {
            Ok(Some(v)) => exists|i: int|
                0 <= i < kv_rows(*conn).len() && #[trigger] kv_rows(*conn)[i] == (key@, v@),
            Ok(None) => forall|i: int|
                0 <= i < kv_rows(*conn).len() ==> (#[trigger] kv_rows(*conn)[i]).0 != key@,
            Err(_) => true,
        },
{
    let mut stmt = conn.prepare("SELECT json FROM term_entry WHERE key = ?")?;
    let mut rows = stmt.query_map([key], |row| row.get::<usize, String>(0))?;
    match rows.next() {
        Some(row) => Ok(Some(row?)),
        None => Ok(None),
    }
}

/// Relies on one `SELECT ... LIMIT 1` through `rusqlite`: some row's
/// payload when the table is non-empty, none exactly when it is empty.
#[verifier::external_body]
fn query_any_row(conn: &rusqlite::Connection) -> (r: Result<Option<String>, rusqlite::Error>)
    ensures
        match r {
            Ok(Some(v)) => exists|i: int|
                0 <= i < kv_rows(*conn).len() && (#[trigger] kv_rows(*conn)[i]).1 == v@,
            Ok(None) => kv_rows(*conn).len() == 0,
            Err(_) => true,
        },
{
    let mut stmt = conn.prepare("SELECT json FROM term_entry LIMIT 1")?;
    let mut rows = stmt.query_map([], |row| row.get::<usize, String>(0))?;
    match rows.next() {
        Some(row) => Ok(Some(row?)),
        None => Ok(None),
    }
}

/// Relies on one `SELECT COUNT(*)` through `rusqlite`: the exact number of
/// rows.
#[verifier::external_body]
fn query_count(conn: &rusqlite::Connection) -> (r: Result<i64, rusqlite::Error>)
    ensures
        r is Ok ==> r->Ok_0 == kv_rows(*conn).len(),
{
    let mut stmt = conn.prepare("SELECT COUNT(*) FROM term_entry")?;
    let mut rows = stmt.query_map([], |row| row.get::<usize, i64>(0))?;
    match rows.next() {
        Some(row) => Ok(row?),
        None => Ok(0),
    }
}

/// Relies on the `Display` form of `rusqlite::Error`: its message text.
#[verifier::external_body]
fn sqlite_error_text(e: &rusqlite::Error) -> (r: String)
{
    e.to_string()
}

fn storage_error(e: &rusqlite::Error) -> (r: DictError)
    ensures
        r.kind == ErrorKind::Storage,
{
    DictError { kind: ErrorKind::Storage, message: sqlite_error_text(e) }
}

/// One per-schema store of a dictionary.
pub struct KvStore {
    conn: rusqlite::Connection,
}

impl KvStore {
    /// The rows this store holds, in insertion order.
    pub closed spec fn rows(&self) -> Seq<(Seq<char>, Seq<char>)> {
        kv_rows(self.conn)
    }

    /// The rows at the open transaction's start: what an automatic
    /// rollback would restore.
    pub closed spec fn saved_rows(&self) -> Seq<(Seq<char>, Seq<char>)> {
        kv_saved(self.conn)
    }

    /// Opens or creates the store file `<prefix>dict.db` under a directory,
    /// read-write. An existing file keeps the rows it had.
    ///
    /// `rows()` models the table behind this one connection. That model
    /// assumes the discipline the engine keeps: one connection per store
    /// file, writes only before the dictionary is registered. Opening a
    /// second handle on the same file and writing through it would change
    /// the table underneath this handle's model.
    pub fn open_rw(dir: &str, schema_prefix: &str) -> (r: Result<KvStore, DictError>)
        ensures
            r is Err ==> r->Err_0.kind == ErrorKind::Storage,
    {
        let path = store_path(dir, schema_prefix);
        let mut conn = match open_conn(path.as_str()) {
            Ok(c) => c,
            Err(e) => {
                return Err(storage_error(&e));
            },
        };
        match init_store(&mut conn) {
            Ok(()) => Ok(KvStore { conn }),
            Err(e) => Err(storage_error(&e)),
        }
    }

    /// Opens the store file read-only; none when it cannot be opened,
    /// which is how an absent schema reads. As with `open_rw`, the row
    /// model assumes no other connection writes the file while this
    /// handle is held.
    pub fn open_ro(dir: &str, schema_prefix: &str) -> (r: Option<KvStore>) {
        let path = store_path(dir, schema_prefix);
        match open_conn_ro(path.as_str()) {
            Some(conn) => Some(KvStore { conn }),
            None => None,
        }
    }

    /// Appends one row. A failing insert changes nothing, unless it makes
    /// the engine roll an open transaction back to its starting rows.
    pub fn insert(&mut self, key: &str, value: &str) -> (r: Result<(), DictError>)
        ensures
            match r {
                Ok(()) => final(self).rows() == old(self).rows().push((key@, value@)),
                Err(e) => e.kind == ErrorKind::Storage && (final(self).rows() == old(self).rows()
                    || final(self).rows() == old(self).saved_rows()),
            },
    {
        match insert_row(&mut self.conn, key, value) {
            Ok(()) => Ok(()),
            Err(e) => Err(storage_error(&e)),
        }
    }

    /// The payload of some row with the key, or none when no row has it.
    pub fn get(&self, key: &str) -> (r: Result<Option<String>, DictError>)
        ensures
            match r {
                Ok(Some(v)) => exists|i: int|
                    0 <= i < self.rows().len() && #[trigger] self.rows()[i] == (key@, v@),
                Ok(None) => forall|i: int|
                    0 <= i < self.rows().len() ==> (#[trigger] self.rows()[i]).0 != key@,
                Err(e) => e.kind == ErrorKind::Storage,
            },
    {
        match query_first(&self.conn, key) {
            Ok(Some(v)) => {
                proof {
                    let i = choose|i: int|
                        0 <= i < kv_rows(self.conn).len() && #[trigger] kv_rows(self.conn)[i] == (
                            key@,
                            v@,
                        );
                    assert(self.rows()[i] == (key@, v@));
                }
                Ok(Some(v))
            },
            Ok(None) => {
                proof {
                    assert forall|i: int| 0 <= i < self.rows().len() implies (
                    #[trigger] self.rows()[i]).0 != key@ by {
                        assert(kv_rows(self.conn)[i] == self.rows()[i]);
                    }
                }
                Ok(None)
            },
            Err(e) => Err(storage_error(&e)),
        }
    }

    /// Some row's payload, or none exactly when the store is empty.
    pub fn get_first_row(&self) -> (r: Result<Option<String>, DictError>)
        ensures
            match r {
                Ok(Some(v)) => exists|i: int|
                    0 <= i < self.rows().len() && (#[trigger] self.rows()[i]).1 == v@,
                Ok(None) => self.rows().len() == 0,
                Err(e) => e.kind == ErrorKind::Storage,
            },
    {
        match query_any_row(&self.conn) {
            Ok(Some(v)) => {
                proof {
                    let i = choose|i: int|
                        0 <= i < kv_rows(self.conn).len() && (#[trigger] kv_rows(self.conn)[i]).1
                            == v@;
                    assert((self.rows()[i]).1 == v@);
                }
                Ok(Some(v))
            },
            Ok(None) => Ok(None),
            Err(e) => Err(storage_error(&e)),
        }
    }

    /// The exact number of rows.
    pub fn get_num_rows(&self) -> (r: Result<i64, DictError>)
        ensures
            match r {
                Ok(n) => n == self.rows().len(),
                Err(e) => e.kind == ErrorKind::Storage,
            },
    {
        match query_count(&self.conn) {
            Ok(n) => Ok(n),
            Err(e) => Err(storage_error(&e)),
        }
    }
}

/// The store file of a schema under a dictionary directory.
pub fn store_path(dir: &str, schema_prefix: &str) -> (r: String)
    ensures
        r@ == dir@ + "/"@ + schema_prefix@ + "dict.db"@,
{
    let mut path = String::from_str(dir);
    path.append("/");
    path.append(schema_prefix);
    path.append("dict.db");
    path
}

/// The key of one raw entry: its first positional field, which must be a
/// string.
pub open spec fn entry_key(v: JsonV) -> Option<Seq<char>> {
    match v {
        JsonV::Arr(items) => if items.len() > 0 && items[0] is Text {
            Some(items[0]->Text_0)
        } else {
            None
        },
        _ => None,
    }
}

pub open spec fn all_keyed(entries: Seq<JsonV>) -> bool {
    forall|i: int| 0 <= i < entries.len() ==> #[trigger] entry_key(entries[i]) is Some
}

/// The first group with the given key, or -1.
pub open spec fn find_group(acc: Seq<(Seq<char>, Seq<JsonV>)>, k: Seq<char>) -> int
    decreases acc.len(),
{
    if acc.len() == 0 {
        -1
    } else if acc[0].0 == k {
        0
    } else {
        let r = find_group(acc.drop_first(), k);
        if r == -1 {
            -1
        } else {
            r + 1
        }
    }
}

/// One step of grouping: the entry joins its key's group, or opens a new
/// one at the end.
pub open spec fn group_step(acc: Seq<(Seq<char>, Seq<JsonV>)>, e: JsonV) -> Seq<
    (Seq<char>, Seq<JsonV>),
> {
    match entry_key(e) {
        Some(k) => {
            let i = find_group(acc, k);
            if i == -1 {
                acc.push((k, seq![e]))
            } else {
                acc.update(i, (k, acc[i].1.push(e)))
            }
        },
        None => acc,
    }
}

/// The entries grouped by their first field, keys in first-appearance
/// order, entries of one key in input order.
pub open spec fn group_spec(entries: Seq<JsonV>) -> Seq<(Seq<char>, Seq<JsonV>)>
    decreases entries.len(),
{
    if entries.len() == 0 {
        Seq::empty()
    } else {
        group_step(group_spec(entries.drop_last()), entries.last())
    }
}

/// The entries of one key, in input order.
pub open spec fn group_filter(entries: Seq<JsonV>, k: Seq<char>) -> Seq<JsonV> {
    entries.filter(|e: JsonV| entry_key(e) == Some(k))
}

proof fn lemma_find_group_spec(acc: Seq<(Seq<char>, Seq<JsonV>)>, k: Seq<char>)
    ensures
        find_group(acc, k) == -1 ==> forall|i: int| 0 <= i < acc.len() ==> (#[trigger] acc[i]).0
            != k,
        find_group(acc, k) != -1 ==> 0 <= find_group(acc, k) < acc.len() && acc[find_group(
            acc,
            k,
        )].0 == k && forall|i: int| 0 <= i < find_group(acc, k) ==> (#[trigger] acc[i]).0 != k,
    decreases acc.len(),
{
    if acc.len() > 0 && acc[0].0 != k {
        lemma_find_group_spec(acc.drop_first(), k);
        assert forall|i: int| 1 <= i < acc.len() implies acc.drop_first()[i - 1] == acc[i] by {}
    }
}


proof fn lemma_group_filter_empty(s: Seq<JsonV>, k: Seq<char>)
    requires
        forall|i: int| 0 <= i < s.len() ==> entry_key(#[trigger] s[i]) != Some(k),
    ensures
        group_filter(s, k) =~= Seq::<JsonV>::empty(),
    decreases s.len(),
{
    let pred = |e: JsonV| entry_key(e) == Some(k);
    if s.len() > 0 {
        assert forall|i: int| 0 <= i < s.drop_last().len() implies entry_key(
            #[trigger] s.drop_last()[i],
        ) != Some(k) by {
            assert(s.drop_last()[i] == s[i]);
        }
        lemma_group_filter_empty(s.drop_last(), k);
        assert(s =~= s.drop_last().push(s.last()));
        assert(s.drop_last().push(s.last()).filter(pred) == if pred(s.last()) {
            s.drop_last().filter(pred).push(s.last())
        } else {
            s.drop_last().filter(pred)
        });
        assert(!pred(s.last()));
    } else {
        assert(s =~= Seq::<JsonV>::empty());
        reveal_with_fuel(Seq::<_>::filter, 1);
    }
}

/// The grouping invariant: after grouping, the group keys are distinct,
/// a key has a group exactly when some entry carries it, and each group
/// holds exactly its key's entries in input order.
pub proof fn lemma_grouping(entries: Seq<JsonV>)
    requires
        all_keyed(entries),
    ensures
        forall|g: int, h: int|
            0 <= g < h < group_spec(entries).len() ==> (#[trigger] group_spec(entries)[g]).0 != (
            #[trigger] group_spec(entries)[h]).0,
        forall|g: int|
            0 <= g < group_spec(entries).len() ==> exists|i: int|
                0 <= i < entries.len() && entry_key(#[trigger] entries[i]) == Some(
                    (#[trigger] group_spec(entries)[g]).0,
                ),
        forall|i: int|
            0 <= i < entries.len() ==> find_group(
                group_spec(entries),
                entry_key(#[trigger] entries[i])->0,
            ) != -1,
        forall|g: int|
            0 <= g < group_spec(entries).len() ==> (#[trigger] group_spec(entries)[g]).1
                == group_filter(entries, group_spec(entries)[g].0),
    decreases entries.len(),
{
    if entries.len() == 0 {
    } else {
        let prev = entries.drop_last();
        let e = entries.last();
        let k = entry_key(e)->0;
        lemma_grouping(prev);
        let gp = group_spec(prev);
        let gs = group_spec(entries);
        lemma_find_group_spec(gp, k);
        let fi = find_group(gp, k);
        assert(all_keyed(prev)) by {
            assert forall|i: int| 0 <= i < prev.len() implies #[trigger] entry_key(prev[i])
                is Some by {
                assert(prev[i] == entries[i]);
            }
        }
        // each group's content carries over with the filter unfolding
        assert forall|g: int| 0 <= g < gs.len() implies (#[trigger] gs[g]).1 == group_filter(
            entries,
            gs[g].0,
        ) by {
            let pred = |x: JsonV| entry_key(x) == Some(gs[g].0);
            assert(prev.push(e) =~= entries);
            assert(prev.push(e).filter(pred) == if pred(e) {
                prev.filter(pred).push(e)
            } else {
                prev.filter(pred)
            });
            if fi == -1 {
                if g < gp.len() {
                    assert(gs[g] == gp[g]);
                    assert(gs[g].0 != k);
                    assert(!pred(e));
                } else {
                    assert(gs[g] == (k, seq![e]));
                    assert(pred(e));
                    assert forall|i: int| 0 <= i < prev.len() implies entry_key(
                        #[trigger] prev[i],
                    ) != Some(k) by {
                        lemma_find_group_spec(gp, entry_key(prev[i])->0);
                    }
                    lemma_group_filter_empty(prev, k);
                    assert(gs[g].1 =~= group_filter(prev, k).push(e));
                }
            } else {
                if g == fi {
                    assert(gs[g] == (k, gp[fi].1.push(e)));
                    assert(pred(e));
                } else {
                    assert(gs[g] == gp[g]);
                    assert(gs[g].0 != k) by {
                        if g < fi {
                        } else {
                            assert(gp[fi].0 == k);
                        }
                    }
                    assert(!pred(e));
                }
            }
        }
        // distinctness and completeness
        assert forall|g: int, h: int| 0 <= g < h < gs.len() implies (#[trigger] gs[g]).0 != (
        #[trigger] gs[h]).0 by {
            if fi == -1 && h == gs.len() - 1 {
                assert(gs[h].0 == k);
                assert(gs[g].0 == gp[g].0);
            }
        }
        assert forall|g: int| 0 <= g < gs.len() implies exists|i: int|
            0 <= i < entries.len() && entry_key(#[trigger] entries[i]) == Some(
                (#[trigger] gs[g]).0,
            ) by {
            if (fi == -1 && g == gs.len() - 1) || (fi != -1 && g == fi) {
                assert(entry_key(entries[entries.len() - 1]) == Some(gs[g].0));
            } else {
                assert(gs[g].0 == gp[g].0);
                let i = choose|i: int|
                    0 <= i < prev.len() && entry_key(#[trigger] prev[i]) == Some(gp[g].0);
                assert(entries[i] == prev[i]);
                assert(entry_key(entries[i]) == Some(gs[g].0));
            }
        }
        assert forall|i: int| 0 <= i < entries.len() implies find_group(
            gs,
            entry_key(#[trigger] entries[i])->0,
        ) != -1 by {
            lemma_find_group_spec(gs, entry_key(entries[i])->0);
            if i < prev.len() {
                assert(prev[i] == entries[i]);
                let ki = entry_key(entries[i])->0;
                lemma_find_group_spec(gp, ki);
                let fgi = find_group(gp, ki);
                assert(gp[fgi].0 == ki);
                assert(gs.len() >= gp.len());
                if fi == -1 {
                    assert(gs[fgi] == gp[fgi]);
                } else {
                    if fgi == fi {
                        assert(gs[fgi].0 == k);
                        assert(ki == k);
                    } else {
                        assert(gs[fgi] == gp[fgi]);
                    }
                }
                assert(exists|g: int| 0 <= g < gs.len() && (#[trigger] gs[g]).0 == ki);
                if find_group(gs, ki) == -1 {
                    let g = choose|g: int| 0 <= g < gs.len() && (#[trigger] gs[g]).0 == ki;
                    assert(false);
                }
            } else {
                if fi == -1 {
                    assert(gs[gs.len() - 1].0 == k);
                } else {
                    assert(gs[fi].0 == k);
                }
                if find_group(gs, k) == -1 {
                    assert(false);
                }
            }
        }
    }
}

/// Raw entries grouped by key: pairs of key and that key's entries.
pub struct GroupedJSON(pub Vec<(String, Vec<JsonValue>)>);

pub open spec fn grouped_view(v: Seq<(String, Vec<JsonValue>)>) -> Seq<(Seq<char>, Seq<JsonV>)> {
    v.map_values(|g: (String, Vec<JsonValue>)| (g.0@, json_view_seq(g.1@)))
}

impl View for GroupedJSON {
    type V = Seq<(Seq<char>, Seq<JsonV>)>;

    open spec fn view(&self) -> Seq<(Seq<char>, Seq<JsonV>)> {
        grouped_view(self.0@)
    }
}

/// The row each group becomes: its key and the rendered JSON array of its
/// entries.
pub open spec fn grouped_rows(gs: Seq<(Seq<char>, Seq<JsonV>)>) -> Seq<(Seq<char>, Seq<char>)> {
    gs.map_values(|g: (Seq<char>, Seq<JsonV>)| (g.0, json_text_of(JsonV::Arr(g.1))))
}

/// The first group of the built vector holding the key, as `find_group`
/// names it.
fn find_group_idx(out: &Vec<(String, Vec<JsonValue>)>, key: &str) -> (r: Option<usize>)
    ensures
        match r {
            Some(i) => i < out@.len() && find_group(grouped_view(out@), key@) == i as int,
            None => find_group(grouped_view(out@), key@) == -1,
        },
{
    let ghost gv = grouped_view(out@);
    proof {
        lemma_find_group_spec(gv, key@);
    }
    let n = out.len();
    let mut i: usize = 0;
    while i < n
        invariant
            i <= n,
            n == out@.len(),
            gv == grouped_view(out@),
            gv.len() == n,
            forall|j: int| 0 <= j < n ==> (#[trigger] gv[j]).0 == out@[j].0@,
            forall|j: int| 0 <= j < i ==> (#[trigger] gv[j]).0 != key@,
        decreases n - i,
    {
        if crate::text::str_eq(out[i].0.as_str(), key) {
            proof {
                lemma_find_group_spec(gv, key@);
                assert(gv[i as int].0 == key@);
                if find_group(gv, key@) == -1 {
                    assert(false);
                }
                assert(find_group(gv, key@) == i as int) by {
                    let f = find_group(gv, key@);
                    if f < i as int {
                        assert(gv[f].0 != key@);
                    } else if f > i as int {
                        assert(gv[i as int].0 != key@);
                    }
                }
            }
            return Some(i);
        }
        i = i + 1;
    }
    proof {
        lemma_find_group_spec(gv, key@);
        if find_group(gv, key@) != -1 {
            assert(gv[find_group(gv, key@)].0 == key@);
            assert(false);
        }
    }
    None
}

impl GroupedJSON {
    /// Groups raw entries by their first positional field, keys in
    /// first-appearance order, entries of one key in input order. An entry
    /// without a string first field is a schema error.
    pub fn from_json(entries: &Vec<JsonValue>) -> (r: Result<GroupedJSON, DictError>)
        ensures
            match r {
                Ok(g) => all_keyed(json_view_seq(entries@)) && g@ == group_spec(
                    json_view_seq(entries@),
                ),
                Err(e) => !all_keyed(json_view_seq(entries@)) && e.kind == ErrorKind::SchemaDecode,
            },
    {
        let ghost ev = json_view_seq(entries@);
        proof {
            lemma_json_view_seq_index(entries@);
        }
        let mut out: Vec<(String, Vec<JsonValue>)> = Vec::new();
        let n = entries.len();
        let mut i: usize = 0;
        while i < n
            invariant
                i <= n,
                n == entries@.len(),
                ev == json_view_seq(entries@),
                ev.len() == n,
                forall|j: int| 0 <= j < n ==> ev[j] == #[trigger] entries@[j]@,
                forall|j: int| 0 <= j < i ==> #[trigger] entry_key(ev[j]) is Some,
                grouped_view(out@) == group_spec(ev.take(i as int)),
            decreases n - i,
        {
            proof {
                assert(ev.take(i + 1).drop_last() =~= ev.take(i as int));
                assert(ev.take(i + 1).last() == ev[i as int]);
            }
            let key: String = match &entries[i] {
                JsonValue::Arr(items) => {
                    proof {
                        assert(ev[i as int] == entries@[i as int]@);
                        crate::json::lemma_json_view_seq_index(items@);
                        assert(ev[i as int] == JsonV::Arr(json_view_seq(items@)));
                    }
                    if items.len() == 0 {
                        proof {
                            assert(entry_key(ev[i as int]) is None);
                            assert(!all_keyed(ev));
                        }
                        return Err(DictError {
                            kind: ErrorKind::SchemaDecode,
                            message: String::from_str("entry has no key field"),
                        });
                    }
                    proof {
                        assert(json_view_seq(items@)[0] == items@[0]@);
                    }
                    match &items[0] {
                        JsonValue::Text(k) => {
                            proof {
                                assert(entry_key(ev[i as int]) == Some(k@));
                            }
                            k.clone()
                        },
                        _ => {
                            proof {
                                crate::json::lemma_text_view(items@[0]);
                                assert(entry_key(ev[i as int]) is None);
                                assert(!all_keyed(ev));
                            }
                            return Err(DictError {
                                kind: ErrorKind::SchemaDecode,
                                message: String::from_str("entry key is not a string"),
                            });
                        },
                    }
                },
                _ => {
                    proof {
                        assert(ev[i as int] == entries@[i as int]@);
                        crate::json::lemma_arr_view(entries@[i as int]);
                        assert(entry_key(ev[i as int]) is None);
                        assert(!all_keyed(ev));
                    }
                    return Err(DictError {
                        kind: ErrorKind::SchemaDecode,
                        message: String::from_str("entry is not an array"),
                    });
                },
            };
            let e = crate::json::clone_json(&entries[i]);
            let ghost gsi = grouped_view(out@);
            proof {
                assert(e@ == ev[i as int]);
                assert(entry_key(ev[i as int]) == Some(key@));
            }
            match find_group_idx(&out, key.as_str()) {
                Some(idx) => {
                    let ghost oldgrp = out@[idx as int];
                    proof {
                        lemma_find_group_spec(gsi, key@);
                        assert(gsi[idx as int].0 == key@);
                    }
                    out[idx].1.push(e);
                    proof {
                        crate::json::lemma_json_view_seq_push(oldgrp.1@, e);
                        assert(out@[idx as int].1@ =~= oldgrp.1@.push(e));
                        assert(grouped_view(out@).len() == gsi.len());
                        assert forall|j: int|
                            0 <= j < gsi.len() && j != idx as int implies grouped_view(out@)[j]
                            == gsi[j] by {
                            assert(out@[j] == out@.subrange(0, out@.len() as int)[j]);
                        }
                        assert(grouped_view(out@)[idx as int] == (
                            key@,
                            gsi[idx as int].1.push(ev[i as int]),
                        ));
                        assert(grouped_view(out@) =~= group_step(gsi, ev[i as int]));
                    }
                },
                None => {
                    let mut single: Vec<JsonValue> = Vec::new();
                    single.push(e);
                    proof {
                        crate::json::lemma_json_view_seq_index(single@);
                        assert(json_view_seq(single@) =~= seq![ev[i as int]]);
                    }
                    out.push((key, single));
                    proof {
                        assert(grouped_view(out@) =~= group_step(gsi, ev[i as int]));
                    }
                },
            }
            i = i + 1;
        }
        proof {
            assert(ev.take(n as int) =~= ev);
        }
        Ok(GroupedJSON(out))
    }
}

impl KvStore {
    /// Inserts every group as one row, in group order, under a single
    /// transaction: on success the rows are exactly the old rows followed
    /// by the groups, and on failure the insert is rolled back, so the
    /// rows stand as before (unless the rollback itself fails, in which
    /// case an uncommitted prefix may still be visible to this
    /// connection). The progress table gains one task with the given
    /// labels whose total is the group count and whose counter reaches
    /// the total exactly on success.
    pub fn insert_all(
        &mut self,
        grouped: &GroupedJSON,
        progress: &mut ProgressStateTable,
        dictionary_title: String,
        dictionary_revision: String,
        schema_name: Option<String>,
        group_id: ProgressGroupId,
    ) -> (r: Result<(), DictError>)
        requires
            old(progress)@.len() < u64::MAX,
            grouped@.len() <= i64::MAX,
        ensures
            final(progress)@.len() == old(progress)@.len() + 1,
            forall|j: int|
                0 <= j < old(progress)@.len() ==> final(progress)@[j] == old(progress)@[j],
            ({
                let task = final(progress)@[old(progress)@.len() as int];
                &&& task.task_id == old(progress)@.len()
                &&& task.group_id == group_id.0
                &&& task.task_type == ProgressTaskType::DbInsertAll
                &&& task.dictionary_title == dictionary_title@
                &&& task.dictionary_revision == dictionary_revision@
                &&& task.schema_name == (match schema_name {
                    Some(s) => s@,
                    None => Seq::<char>::empty(),
                })
                &&& task.total == grouped@.len()
            }),
            match r {
                Ok(()) => {
                    &&& final(self).rows() =~= old(self).rows() + grouped_rows(grouped@)
                    &&& final(progress)@[old(progress)@.len() as int].current == grouped@.len()
                    &&& (grouped@.len() > 0 ==> crate::progress::task_complete(
                        final(progress)@[old(progress)@.len() as int],
                    ))
                },
                Err(e) => e.kind == ErrorKind::Storage && (final(self).rows() == old(self).rows()
                    || exists|k: int|
                    0 <= k <= grouped@.len() && final(self).rows() =~= old(self).rows()
                        + grouped_rows(#[trigger] grouped@.take(k))),
            },
    {
        let total = grouped.0.len();
        let task_id = progress.create_task(
            CreateTaskParams {
                task_type: ProgressTaskType::DbInsertAll,
                dictionary_title,
                dictionary_revision,
                schema_name,
                total: total as i64,
            },
            group_id,
        );
        let ghost tix = task_id.0 as int;
        let ghost task0 = progress@[tix];
        let ghost title_v = task0.dictionary_title;
        let ghost rev_v = task0.dictionary_revision;
        let ghost old_rows = self.rows();
        proof {
            assert(task0.dictionary_title == dictionary_title@);
            assert(task0.dictionary_revision == dictionary_revision@);
        }
        if let Err(e) = begin_tx(&mut self.conn) {
            return Err(storage_error(&e));
        }
        let mut i: usize = 0;
        let mut pending: usize = 0;
        while i < total
            invariant
                i <= total,
                pending <= i,
                total == grouped.0@.len(),
                total <= i64::MAX,
                self.rows() =~= old_rows + grouped_rows(grouped@.take(i as int)),
                kv_saved(self.conn) == old_rows,
                old_rows == old(self).rows(),
                tix == old(progress)@.len() as int,
                task_id.0 as int == tix,
                progress@.len() == old(progress)@.len() + 1,
                progress@[tix] == (crate::progress::ProgressDataV {
                    current: i - pending,
                    ..task0
                }),
                task0.current == 0,
                task0.total == total,
                task0.task_id == tix,
                task0.group_id == group_id.0,
                task0.task_type == ProgressTaskType::DbInsertAll,
                task0.dictionary_title == dictionary_title@,
                task0.dictionary_revision == dictionary_revision@,
                task0.schema_name == (match schema_name {
                    Some(s) => s@,
                    None => Seq::<char>::empty(),
                }),
                forall|j: int| 0 <= j < old(progress)@.len() ==> progress@[j] == old(progress)@[j],
            decreases total - i,
        {
            let json = crate::json::json_to_text_array(&grouped.0[i].1);
            if let Err(e) = insert_row(&mut self.conn, grouped.0[i].0.as_str(), json.as_str()) {
                progress.increment(&ProgressTaskId(task_id.0), pending as i64);
                proof {
                    assert(forall|j: int|
                        0 <= j < old(progress)@.len() ==> progress@[j] == old(progress)@[j]);
                }
                let _ = rollback_tx(&mut self.conn);
                proof {
                    assert(self.rows() == old(self).rows() || (0 <= i as int <= grouped@.len()
                        && self.rows() =~= old(self).rows() + grouped_rows(
                        grouped@.take(i as int),
                    )));
                }
                return Err(storage_error(&e));
            }
            proof {
                assert(grouped@.take(i + 1).drop_last() =~= grouped@.take(i as int));
                assert(grouped@.take(i + 1).last() == grouped@[i as int]);
                assert(grouped_rows(grouped@.take(i + 1)) =~= grouped_rows(
                    grouped@.take(i as int),
                ).push((grouped@[i as int].0, json_text_of(JsonV::Arr(grouped@[i as int].1)))));
                assert(grouped@[i as int].0 == grouped.0@[i as int].0@);
                assert(grouped@[i as int].1 == json_view_seq(grouped.0@[i as int].1@));
            }
            i = i + 1;
            pending = pending + 1;
            if pending >= 1000 {
                let ghost before = progress@[tix];
                progress.increment(&ProgressTaskId(task_id.0), pending as i64);
                proof {
                    assert(before.current + pending <= i64::MAX);
                    assert(progress@[tix].current == before.current + pending);
                }
                pending = 0;
            }
        }
        if pending > 0 {
            progress.increment(&ProgressTaskId(task_id.0), pending as i64);
        }
        if let Err(e) = commit_tx(&mut self.conn) {
            let _ = rollback_tx(&mut self.conn);
            proof {
                assert(self.rows() == old(self).rows() || (0 <= total as int <= grouped@.len()
                    && self.rows() =~= old(self).rows() + grouped_rows(
                    grouped@.take(total as int),
                )));
            }
            return Err(storage_error(&e));
        }
        proof {
            assert(grouped@.take(total as int) =~= grouped@);
        }
        Ok(())
    }
}

} // verus!
