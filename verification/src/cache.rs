//! The durable cache of the last filesystem scan: apps and directories in
//! an SQLite database, plus the time of the last refresh. A save replaces a
//! whole table in one transaction, so a reader sees the old contents or the
//! new, never a mix; a failed save leaves the old contents intact.
//!
//! The database is modelled by three projections: the multiset of app rows,
//! the multiset of directory rows, and the stored timestamp. Every trusted
//! wrapper states its effect on all three. The projections are functions of
//! the one connection a store holds, so the model assumes the store is the
//! database's only handle — the single lock-guarded resource of the design.
//! A second store opened on the same file, or an outside process writing
//! it, steps outside what these contracts describe.

use vstd::prelude::*;
use vstd::multiset::Multiset;
use crate::types::{AppItem, DirectoryItem};
use crate::update_checker::{all_digits, dec_value, is_digit, lemma_dec_value_grows};
use crate::order::{lex_le, str_le, sort_stable_by, sorted_by_leq, lemma_lex_le_total, lemma_lex_le_trans, lemma_insert_by_at, lemma_sort_stable_by, lemma_sort_stable_by_map_multiset};

verus! {

broadcast use vstd::seq_lib::group_to_multiset_ensures;

/// An app row as stored: name, path, icon path, original name. The
/// `last_updated` stamp column is not modelled: no reader returns it.
pub type AppRow = (Seq<char>, Seq<char>, Option<Seq<char>>, Option<Seq<char>>);

/// A directory row as stored: name, path, editor.
pub type DirRow = (Seq<char>, Seq<char>, Option<Seq<char>>);

/// The row an app item is stored as.
pub open spec fn app_row(a: AppItem) -> AppRow {
    (
        a.name@,
        a.path@,
        match a.icon_path {
            Some(s) => Some(s@),
            None => None,
        },
        match a.original_name {
            Some(s) => Some(s@),
            None => None,
        },
    )
}

/// The row a directory item is stored as.
pub open spec fn dir_row(d: DirectoryItem) -> DirRow {
    (
        d.name@,
        d.path@,
        match d.editor {
            Some(s) => Some(s@),
            None => None,
        },
    )
}

/// The rows of a list of app items, as a multiset: the table keeps no
/// meaningful order.
pub open spec fn app_rows(items: Seq<AppItem>) -> Multiset<AppRow> {
    items.map_values(|a: AppItem| app_row(a)).to_multiset()
}

/// The rows of a list of directory items, as a multiset.
pub open spec fn dir_rows(items: Seq<DirectoryItem>) -> Multiset<DirRow> {
    items.map_values(|d: DirectoryItem| dir_row(d)).to_multiset()
}

#[verifier::external_type_specification]
#[verifier::external_body]
pub struct ExConnection(rusqlite::Connection);

#[verifier::external_type_specification]
#[verifier::external_body]
pub struct ExSqlError(rusqlite::Error);

/// The rows of the `apps` table of a database connection; empty while the
/// table does not exist.
pub uninterp spec fn db_apps(c: rusqlite::Connection) -> Multiset<AppRow>;

/// The rows of the `directories` table; empty while the table does not
/// exist.
pub uninterp spec fn db_dirs(c: rusqlite::Connection) -> Multiset<DirRow>;

/// The stored last-update time: the number that the `last_update_time`
/// metadata entry denotes, `None` while no entry exists.
pub uninterp spec fn db_time(c: rusqlite::Connection) -> Option<int>;

/// A storage failure, carrying the underlying database error.
#[derive(Debug)]
pub struct CacheError {
    pub inner: rusqlite::Error,
}

/// The number a stored metadata text denotes: an optional leading minus
/// followed by decimal digits, within `i64`'s range; any other text
/// denotes 0. `db_time` is the denoted number of the stored entry, and
/// the reading is done by verified code on the text the store returns.
pub open spec fn time_text_value(s: Seq<char>) -> int {
    if s.len() > 0 && s[0] == '-' {
        let d = s.skip(1);
        if d.len() > 0 && all_digits(d) && dec_value(d) <= 0x8000_0000_0000_0000 {
            -dec_value(d)
        } else {
            0
        }
    } else if s.len() > 0 && all_digits(s) && dec_value(s) <= i64::MAX {
        dec_value(s)
    } else {
        0
    }
}

/// Reads the digits of `s` from `from` on: their value, when the rest is
/// one or more digits denoting at most `limit`.
fn parse_digits_bounded(s: &str, from: usize, limit: u64) -> (r: Option<u64>)
    requires
        from <= s@.len(),
    ensures
        ({
            let d = s@.skip(from as int);
            &&& (r is Some) == (d.len() > 0 && all_digits(d) && dec_value(d) <= limit)
            &&& (r matches Some(v) ==> v as int == dec_value(d))
        }),
{
    let n = s.unicode_len();
    let mut all_dig: bool = true;
    let mut ovf: bool = false;
    let mut acc: u128 = 0;
    let mut j: usize = from;
    proof {
        assert(s@.subrange(from as int, from as int) =~= Seq::<char>::empty());
    }
    while j < n
        invariant
            from <= j <= n,
            n == s@.len(),
            all_dig == all_digits(s@.subrange(from as int, j as int)),
            all_dig ==> (ovf == (dec_value(s@.subrange(from as int, j as int)) > limit)),
            all_dig && !ovf ==> acc as int == dec_value(s@.subrange(from as int, j as int))
                && acc <= limit,
        decreases n - j,
    {
        let c = s.get_char(j);
        let ghost pre = s@.subrange(from as int, j as int);
        let ghost cur = s@.subrange(from as int, j + 1);
        proof {
            assert(cur.drop_last() =~= pre);
            assert(cur.last() == s@[j as int]);
        }
        let u = c as u32;
        if 0x30 <= u && u <= 0x39 {
            if all_dig {
                if !ovf {
                    let d = (u - 0x30) as u128;
                    let next = acc * 10 + d;
                    if next > limit as u128 {
                        ovf = true;
                        proof {
                            assert(dec_value(cur) == dec_value(pre) * 10 + (c as int - 0x30));
                        }
                    } else {
                        acc = next;
                    }
                } else {
                    proof {
                        lemma_dec_value_grows(cur);
                    }
                }
            }
        } else {
            all_dig = false;
        }
        proof {
            assert(all_digits(cur) == (all_digits(pre) && is_digit(s@[j as int])));
        }
        j = j + 1;
    }
    proof {
        assert(s@.subrange(from as int, n as int) =~= s@.skip(from as int));
    }
    if all_dig && !ovf && n > from {
        Some(acc as u64)
    } else {
        None
    }
}

/// Reads a stored time text: exactly the number `time_text_value` says.
fn parse_time_text(s: &str) -> (r: i64)
    ensures
        r as int == time_text_value(s@),
{
    let n = s.unicode_len();
    if n == 0 {
        return 0;
    }
    if s.get_char(0) == '-' {
        match parse_digits_bounded(s, 1, 0x8000_0000_0000_0000u64) {
            Some(v) => {
                if v == 0x8000_0000_0000_0000u64 {
                    i64::MIN
                } else {
                    -(v as i64)
                }
            },
            None => 0,
        }
    } else {
        proof {
            assert(s@.skip(0) =~= s@);
        }
        match parse_digits_bounded(s, 0, 0x7FFF_FFFF_FFFF_FFFFu64) {
            Some(v) => v as i64,
            None => 0,
        }
    }
}

/// The persistent cache store. All operations surface storage errors to
/// the caller; none panics.
pub struct CacheDB {
    conn: rusqlite::Connection,
}

impl CacheDB {
    /// The app rows the store holds.
    pub closed spec fn apps(self) -> Multiset<AppRow> {
        db_apps(self.conn)
    }

    /// The directory rows the store holds.
    pub closed spec fn dirs(self) -> Multiset<DirRow> {
        db_dirs(self.conn)
    }

    /// The stored last-update time.
    pub closed spec fn time(self) -> Option<int> {
        db_time(self.conn)
    }

    /// Relies on `rusqlite::Connection::open_in_memory`: a fresh in-memory
    /// database holds no tables, so every projection is empty.
    #[verifier::external_body]
    fn conn_open_in_memory() -> (r: Result<rusqlite::Connection, rusqlite::Error>)
        ensures
            r matches Ok(c) ==> db_apps(c) == Multiset::<AppRow>::empty() && db_dirs(c)
                == Multiset::<DirRow>::empty() && db_time(c) is None,
    {
        rusqlite::Connection::open_in_memory()
    }

    /// Relies on `rusqlite::Connection::open`: opens (creating if absent)
    /// the database file at the path; the projections are whatever the
    /// file holds, so nothing is promised of them.
    #[verifier::external_body]
    fn conn_open_path(path: &str) -> (r: Result<rusqlite::Connection, rusqlite::Error>)
    {
        rusqlite::Connection::open(path)
    }

    /// Relies on `rusqlite::Connection::execute_batch` running `CREATE
    /// TABLE IF NOT EXISTS` / `CREATE INDEX IF NOT EXISTS` statements:
    /// absent tables and indexes are created empty, existing rows are kept,
    /// so every projection is unchanged.
    #[verifier::external_body]
    fn conn_init_schema(&mut self) -> (r: Result<(), rusqlite::Error>)
        ensures
            db_apps(final(self).conn) == db_apps(old(self).conn),
            db_dirs(final(self).conn) == db_dirs(old(self).conn),
            db_time(final(self).conn) == db_time(old(self).conn),
    {
        self.conn.execute_batch(
            "CREATE TABLE IF NOT EXISTS apps (
                id INTEGER PRIMARY KEY AUTOINCREMENT,
                name TEXT NOT NULL,
                path TEXT NOT NULL UNIQUE,
                icon_path TEXT,
                original_name TEXT,
                last_updated INTEGER NOT NULL
            );
            CREATE INDEX IF NOT EXISTS idx_apps_name ON apps(name);
            CREATE TABLE IF NOT EXISTS directories (
                id INTEGER PRIMARY KEY AUTOINCREMENT,
                name TEXT NOT NULL,
                path TEXT NOT NULL UNIQUE,
                editor TEXT,
                last_updated INTEGER NOT NULL
            );
            CREATE INDEX IF NOT EXISTS idx_directories_name ON directories(name);
            CREATE TABLE IF NOT EXISTS metadata (
                key TEXT PRIMARY KEY,
                value TEXT NOT NULL
            );",
        )
    }

    /// Relies on `rusqlite::Connection::execute` running `ALTER TABLE ADD
    /// COLUMN`: a cache written by a schema without the nullable
    /// `original_name` column gains it; the statement fails harmlessly
    /// when the column already exists, so the error is discarded. Existing
    /// rows keep their values either way (an added column reads as null),
    /// so every projection is unchanged.
    #[verifier::external_body]
    fn conn_add_original_name_column(&mut self)
        ensures
            db_apps(final(self).conn) == db_apps(old(self).conn),
            db_dirs(final(self).conn) == db_dirs(old(self).conn),
            db_time(final(self).conn) == db_time(old(self).conn),
    {
        let _ = self.conn.execute("ALTER TABLE apps ADD COLUMN original_name TEXT", ());
    }

    /// Relies on `rusqlite::Connection::unchecked_transaction` and
    /// `Transaction::commit`: the delete and the inserts take effect
    /// together at commit, or — on any error, when the transaction is
    /// dropped — not at all. On success the `apps` table holds exactly the
    /// given items, each stamped with `now`; on failure it is unchanged.
    /// The other tables are untouched.
    #[verifier::external_body]
    fn conn_replace_apps(&mut self, items: &[AppItem], now: i64) -> (r: Result<
        (),
        rusqlite::Error,
    >)
        ensures
            r is Ok ==> db_apps(final(self).conn) == app_rows(items@),
            r is Err ==> db_apps(final(self).conn) == db_apps(old(self).conn),
            db_dirs(final(self).conn) == db_dirs(old(self).conn),
            db_time(final(self).conn) == db_time(old(self).conn),
    {
        let tx = self.conn.unchecked_transaction()?;
        tx.execute("DELETE FROM apps", ())?;
        for it in items {
            tx.execute(
                "INSERT INTO apps (name, path, icon_path, original_name, last_updated) VALUES (?, ?, ?, ?, ?)",
                (&it.name, &it.path, &it.icon_path, &it.original_name, now),
            )?;
        }
        tx.commit()
    }

    /// Relies on the same transactional replace for the `directories`
    /// table.
    #[verifier::external_body]
    fn conn_replace_dirs(&mut self, items: &[DirectoryItem], now: i64) -> (r: Result<
        (),
        rusqlite::Error,
    >)
        ensures
            r is Ok ==> db_dirs(final(self).conn) == dir_rows(items@),
            r is Err ==> db_dirs(final(self).conn) == db_dirs(old(self).conn),
            db_apps(final(self).conn) == db_apps(old(self).conn),
            db_time(final(self).conn) == db_time(old(self).conn),
    {
        let tx = self.conn.unchecked_transaction()?;
        tx.execute("DELETE FROM directories", ())?;
        for it in items {
            tx.execute(
                "INSERT INTO directories (name, path, editor, last_updated) VALUES (?, ?, ?, ?)",
                (&it.name, &it.path, &it.editor, now),
            )?;
        }
        tx.commit()
    }

    /// Relies on `rusqlite` `prepare`/`query_map` over `SELECT`: on success
    /// the returned items carry exactly the rows of the `apps` table, in
    /// unspecified order.
    #[verifier::external_body]
    fn conn_load_apps(&self) -> (r: Result<Vec<AppItem>, rusqlite::Error>)
        ensures
            r matches Ok(v) ==> app_rows(v@) == db_apps(self.conn),
    {
        let mut stmt = self.conn.prepare(
            "SELECT name, path, icon_path, original_name FROM apps",
        )?;
        let rows = stmt.query_map((), |row| {
            Ok(AppItem {
                name: row.get(0)?,
                path: row.get(1)?,
                icon_path: row.get(2)?,
                original_name: row.get(3)?,
            })
        })?;
        rows.collect()
    }

    /// Relies on the same query shape for the `directories` table.
    #[verifier::external_body]
    fn conn_load_dirs(&self) -> (r: Result<Vec<DirectoryItem>, rusqlite::Error>)
        ensures
            r matches Ok(v) ==> dir_rows(v@) == db_dirs(self.conn),
    {
        let mut stmt = self.conn.prepare("SELECT name, path, editor FROM directories")?;
        let rows = stmt.query_map((), |row| {
            Ok(DirectoryItem { name: row.get(0)?, path: row.get(1)?, editor: row.get(2)? })
        })?;
        rows.collect()
    }

    /// Relies on `rusqlite::Connection::query_row` over `SELECT COUNT(*)`:
    /// on success the count of rows of the `apps` table.
    #[verifier::external_body]
    fn conn_count_apps(&self) -> (r: Result<i64, rusqlite::Error>)
        ensures
            r matches Ok(n) ==> n == db_apps(self.conn).len(),
    {
        self.conn.query_row("SELECT COUNT(*) FROM apps", (), |row| row.get(0))
    }

    /// Relies on the same count for the `directories` table.
    #[verifier::external_body]
    fn conn_count_dirs(&self) -> (r: Result<i64, rusqlite::Error>)
        ensures
            r matches Ok(n) ==> n == db_dirs(self.conn).len(),
    {
        self.conn.query_row("SELECT COUNT(*) FROM directories", (), |row| row.get(0))
    }

    /// Relies on `rusqlite::Connection::query_row`, whose
    /// `QueryReturnedNoRows` error tells an absent entry apart from a
    /// storage failure. The stored text is handed back as it is; what
    /// number it denotes is read by verified code, and `db_time` is
    /// defined as that reading of the stored entry.
    #[verifier::external_body]
    fn conn_get_time_text(&self) -> (r: Result<Option<String>, rusqlite::Error>)
        ensures
            r matches Ok(v) ==> (match v {
                Some(text) => db_time(self.conn) == Some(time_text_value(text@)),
                None => db_time(self.conn) is None,
            }),
    {
        let got: Result<String, rusqlite::Error> = self.conn.query_row(
            "SELECT value FROM metadata WHERE key = 'last_update_time'",
            (),
            |row| row.get(0),
        );
        match got {
            Ok(value) => Ok(Some(value)),
            Err(rusqlite::Error::QueryReturnedNoRows) => Ok(None),
            Err(e) => Err(e),
        }
    }

    /// Relies on `rusqlite::Connection::execute` running `INSERT OR
    /// REPLACE`: on success the metadata entry holds the given time,
    /// written as its decimal text, which `time_text_value` reads back to
    /// the same number; a failed statement changes nothing. The tables
    /// are untouched.
    #[verifier::external_body]
    fn conn_set_time(&mut self, timestamp: i64) -> (r: Result<(), rusqlite::Error>)
        ensures
            r is Ok ==> db_time(final(self).conn) == Some(timestamp as int),
            r is Err ==> db_time(final(self).conn) == db_time(old(self).conn),
            db_apps(final(self).conn) == db_apps(old(self).conn),
            db_dirs(final(self).conn) == db_dirs(old(self).conn),
    {
        match self.conn.execute(
            "INSERT OR REPLACE INTO metadata (key, value) VALUES ('last_update_time', ?)",
            (timestamp.to_string(),),
        ) {
            Ok(_) => Ok(()),
            Err(e) => Err(e),
        }
    }

    /// Relies on `rusqlite::Connection::execute` running `DELETE`: on
    /// success the `apps` table is empty; a failed statement changes
    /// nothing. The other projections are untouched.
    #[verifier::external_body]
    fn conn_clear_apps(&mut self) -> (r: Result<(), rusqlite::Error>)
        ensures
            r is Ok ==> db_apps(final(self).conn) == Multiset::<AppRow>::empty(),
            r is Err ==> db_apps(final(self).conn) == db_apps(old(self).conn),
            db_dirs(final(self).conn) == db_dirs(old(self).conn),
            db_time(final(self).conn) == db_time(old(self).conn),
    {
        match self.conn.execute("DELETE FROM apps", ()) {
            Ok(_) => Ok(()),
            Err(e) => Err(e),
        }
    }

    /// Relies on the same `DELETE` for the `directories` table.
    #[verifier::external_body]
    fn conn_clear_dirs(&mut self) -> (r: Result<(), rusqlite::Error>)
        ensures
            r is Ok ==> db_dirs(final(self).conn) == Multiset::<DirRow>::empty(),
            r is Err ==> db_dirs(final(self).conn) == db_dirs(old(self).conn),
            db_apps(final(self).conn) == db_apps(old(self).conn),
            db_time(final(self).conn) == db_time(old(self).conn),
    {
        match self.conn.execute("DELETE FROM directories", ()) {
            Ok(_) => Ok(()),
            Err(e) => Err(e),
        }
    }

    /// Relies on the same `DELETE` for the `metadata` table: afterwards no
    /// entry denotes a time.
    #[verifier::external_body]
    fn conn_clear_meta(&mut self) -> (r: Result<(), rusqlite::Error>)
        ensures
            r is Ok ==> db_time(final(self).conn) is None,
            r is Err ==> db_time(final(self).conn) == db_time(old(self).conn),
            db_apps(final(self).conn) == db_apps(old(self).conn),
            db_dirs(final(self).conn) == db_dirs(old(self).conn),
    {
        match self.conn.execute("DELETE FROM metadata", ()) {
            Ok(_) => Ok(()),
            Err(e) => Err(e),
        }
    }
}

/// Relies on `std::time::SystemTime::now`: seconds since the Unix epoch,
/// 0 if the clock reads before the epoch. The result depends on the clock,
/// so nothing is promised of it.
#[verifier::external_body]
fn now_epoch_seconds() -> i64 {
    match std::time::SystemTime::now().duration_since(std::time::UNIX_EPOCH) {
        Ok(d) => d.as_secs() as i64,
        Err(_) => 0,
    }
}

/// Ascending order on app display names.
pub open spec fn app_name_leq() -> spec_fn(AppItem, AppItem) -> bool {
    |a: AppItem, b: AppItem| lex_le(a.name@, b.name@)
}

/// Ascending order on directory names.
pub open spec fn dir_name_leq() -> spec_fn(DirectoryItem, DirectoryItem) -> bool {
    |a: DirectoryItem, b: DirectoryItem| lex_le(a.name@, b.name@)
}

/// Sorted by display name ascending.
pub open spec fn apps_sorted_by_name(s: Seq<AppItem>) -> bool {
    sorted_by_leq(s, app_name_leq())
}

/// Sorted by name ascending.
pub open spec fn dirs_sorted_by_name(s: Seq<DirectoryItem>) -> bool {
    sorted_by_leq(s, dir_name_leq())
}

/// The order on app names is total and transitive.
proof fn lemma_app_name_leq_laws()
    ensures
        forall|a: AppItem, b: AppItem|
            #![trigger app_name_leq()(a, b)]
            app_name_leq()(a, b) || app_name_leq()(b, a),
        forall|a: AppItem, b: AppItem, c: AppItem|
            #![trigger app_name_leq()(a, b), app_name_leq()(b, c)]
            app_name_leq()(a, b) && app_name_leq()(b, c) ==> app_name_leq()(a, c),
{
    assert forall|a: AppItem, b: AppItem|
        #![trigger app_name_leq()(a, b)]
        app_name_leq()(a, b) || app_name_leq()(b, a) by {
        lemma_lex_le_total(a.name@, b.name@);
    }
    assert forall|a: AppItem, b: AppItem, c: AppItem|
        #![trigger app_name_leq()(a, b), app_name_leq()(b, c)]
        app_name_leq()(a, b) && app_name_leq()(b, c) implies app_name_leq()(a, c) by {
        lemma_lex_le_trans(a.name@, b.name@, c.name@);
    }
}

/// The order on directory names is total and transitive.
proof fn lemma_dir_name_leq_laws()
    ensures
        forall|a: DirectoryItem, b: DirectoryItem|
            #![trigger dir_name_leq()(a, b)]
            dir_name_leq()(a, b) || dir_name_leq()(b, a),
        forall|a: DirectoryItem, b: DirectoryItem, c: DirectoryItem|
            #![trigger dir_name_leq()(a, b), dir_name_leq()(b, c)]
            dir_name_leq()(a, b) && dir_name_leq()(b, c) ==> dir_name_leq()(a, c),
{
    assert forall|a: DirectoryItem, b: DirectoryItem|
        #![trigger dir_name_leq()(a, b)]
        dir_name_leq()(a, b) || dir_name_leq()(b, a) by {
        lemma_lex_le_total(a.name@, b.name@);
    }
    assert forall|a: DirectoryItem, b: DirectoryItem, c: DirectoryItem|
        #![trigger dir_name_leq()(a, b), dir_name_leq()(b, c)]
        dir_name_leq()(a, b) && dir_name_leq()(b, c) implies dir_name_leq()(a, c) by {
        lemma_lex_le_trans(a.name@, b.name@, c.name@);
    }
}

/// Sorts app items by display name ascending; stable.
fn sort_apps_by_name(v: Vec<AppItem>) -> (r: Vec<AppItem>)
    ensures
        r@ == sort_stable_by(v@, app_name_leq()),
{
    let mut r: Vec<AppItem> = Vec::new();
    let mut i: usize = 0;
    while i < v.len()
        invariant
            i <= v@.len(),
            r@ == sort_stable_by(v@.take(i as int), app_name_leq()),
        decreases v@.len() - i,
    {
        let x = v[i].clone();
        let mut p: usize = 0;
        while p < r.len() && str_le(r[p].name.as_str(), x.name.as_str())
            invariant
                p <= r@.len(),
                forall|j: int| 0 <= j < p ==> lex_le(#[trigger] r@[j].name@, x.name@),
            decreases r@.len() - p,
        {
            p = p + 1;
        }
        proof {
            lemma_insert_by_at(r@, x, app_name_leq(), p as int);
        }
        r.insert(p, x);
        proof {
            assert(v@.take(i + 1).drop_last() =~= v@.take(i as int));
            assert(v@.take(i + 1).last() == v@[i as int]);
        }
        i = i + 1;
    }
    proof {
        assert(v@.take(v@.len() as int) =~= v@);
    }
    r
}

/// Sorts directory items by name ascending; stable.
fn sort_dirs_by_name(v: Vec<DirectoryItem>) -> (r: Vec<DirectoryItem>)
    ensures
        r@ == sort_stable_by(v@, dir_name_leq()),
{
    let mut r: Vec<DirectoryItem> = Vec::new();
    let mut i: usize = 0;
    while i < v.len()
        invariant
            i <= v@.len(),
            r@ == sort_stable_by(v@.take(i as int), dir_name_leq()),
        decreases v@.len() - i,
    {
        let x = v[i].clone();
        let mut p: usize = 0;
        while p < r.len() && str_le(r[p].name.as_str(), x.name.as_str())
            invariant
                p <= r@.len(),
                forall|j: int| 0 <= j < p ==> lex_le(#[trigger] r@[j].name@, x.name@),
            decreases r@.len() - p,
        {
            p = p + 1;
        }
        proof {
            lemma_insert_by_at(r@, x, dir_name_leq(), p as int);
        }
        r.insert(p, x);
        proof {
            assert(v@.take(i + 1).drop_last() =~= v@.take(i as int));
            assert(v@.take(i + 1).last() == v@[i as int]);
        }
        i = i + 1;
    }
    proof {
        assert(v@.take(v@.len() as int) =~= v@);
    }
    r
}

/// Whether the cache is due for a refresh: it has never been refreshed, or
/// at least `interval_hours` hours have passed since `last` as of `now`.
pub open spec fn stale_spec(last: Option<int>, now: int, interval_hours: u32) -> bool {
    match last {
        None => true,
        Some(t) => now - t >= (interval_hours as int) * 3600,
    }
}

/// Decides staleness from a recorded time, the current time and the
/// interval, exactly as `stale_spec` says; total, with no overflow.
pub fn is_stale(last: Option<i64>, now: i64, interval_hours: u32) -> (r: bool)
    ensures
        r == stale_spec(
            match last {
                Some(t) => Some(t as int),
                None => None,
            },
            now as int,
            interval_hours,
        ),
{
    match last {
        None => true,
        Some(t) => (now as i128) - (t as i128) >= (interval_hours as i128) * 3600,
    }
}

impl CacheDB {
    /// Opens a fresh in-memory store: empty, with no recorded time.
    pub fn new_in_memory() -> (r: Result<CacheDB, CacheError>)
        ensures
            r matches Ok(db) ==> db.apps() == Multiset::<AppRow>::empty() && db.dirs()
                == Multiset::<DirRow>::empty() && db.time() is None,
    {
        let conn = match Self::conn_open_in_memory() {
            Ok(c) => c,
            Err(e) => {
                return Err(CacheError { inner: e });
            },
        };
        let mut db = CacheDB { conn };
        match db.conn_init_schema() {
            Ok(()) => (),
            Err(e) => {
                return Err(CacheError { inner: e });
            },
        }
        db.conn_add_original_name_column();
        Ok(db)
    }

    /// Opens (creating if absent) the store in the database file at
    /// `path`, initializing the schema idempotently: existing rows are
    /// kept, and a file written by an older schema gains the nullable
    /// columns it lacks. No clause describes the contents: they are
    /// whatever the file holds, and what a file on disk holds cannot be
    /// named; the preservation facts live on the schema wrappers.
    pub fn new_with_path(path: &str) -> (r: Result<CacheDB, CacheError>) {
        let conn = match Self::conn_open_path(path) {
            Ok(c) => c,
            Err(e) => {
                return Err(CacheError { inner: e });
            },
        };
        let mut db = CacheDB { conn };
        match db.conn_init_schema() {
            Ok(()) => (),
            Err(e) => {
                return Err(CacheError { inner: e });
            },
        }
        db.conn_add_original_name_column();
        Ok(db)
    }

    /// Replaces the whole `apps` table with the given items in one
    /// transaction: afterwards the store holds exactly their rows, and on
    /// failure it still holds exactly the old ones. Directories and the
    /// recorded time are untouched.
    pub fn save_apps(&mut self, apps: &[AppItem]) -> (r: Result<(), CacheError>)
        ensures
            r is Ok ==> final(self).apps() == app_rows(apps@),
            r is Err ==> final(self).apps() == old(self).apps(),
            final(self).dirs() == old(self).dirs(),
            final(self).time() == old(self).time(),
    {
        let now = now_epoch_seconds();
        match self.conn_replace_apps(apps, now) {
            Ok(()) => Ok(()),
            Err(e) => Err(CacheError { inner: e }),
        }
    }

    /// Replaces the whole `directories` table, as `save_apps` does for
    /// apps.
    pub fn save_directories(&mut self, directories: &[DirectoryItem]) -> (r: Result<
        (),
        CacheError,
    >)
        ensures
            r is Ok ==> final(self).dirs() == dir_rows(directories@),
            r is Err ==> final(self).dirs() == old(self).dirs(),
            final(self).apps() == old(self).apps(),
            final(self).time() == old(self).time(),
    {
        let now = now_epoch_seconds();
        match self.conn_replace_dirs(directories, now) {
            Ok(()) => Ok(()),
            Err(e) => Err(CacheError { inner: e }),
        }
    }

    /// Returns every stored app, sorted by display name ascending: the
    /// result carries exactly the rows the store holds.
    pub fn load_apps(&self) -> (r: Result<Vec<AppItem>, CacheError>)
        ensures
            r matches Ok(v) ==> app_rows(v@) == self.apps() && apps_sorted_by_name(v@),
    {
        let raw = match self.conn_load_apps() {
            Ok(v) => v,
            Err(e) => {
                return Err(CacheError { inner: e });
            },
        };
        let sorted = sort_apps_by_name(raw);
        proof {
            lemma_app_name_leq_laws();
            lemma_sort_stable_by(raw@, app_name_leq());
            lemma_sort_stable_by_map_multiset(raw@, app_name_leq(), |a: AppItem| app_row(a));
            assert(sorted@.map_values(|a: AppItem| app_row(a)) =~= sort_stable_by(
                raw@,
                app_name_leq(),
            ).map_values(|a: AppItem| app_row(a)));
        }
        Ok(sorted)
    }

    /// Returns every stored directory, sorted by name ascending.
    pub fn load_directories(&self) -> (r: Result<Vec<DirectoryItem>, CacheError>)
        ensures
            r matches Ok(v) ==> dir_rows(v@) == self.dirs() && dirs_sorted_by_name(v@),
    {
        let raw = match self.conn_load_dirs() {
            Ok(v) => v,
            Err(e) => {
                return Err(CacheError { inner: e });
            },
        };
        let sorted = sort_dirs_by_name(raw);
        proof {
            lemma_dir_name_leq_laws();
            lemma_sort_stable_by(raw@, dir_name_leq());
            lemma_sort_stable_by_map_multiset(raw@, dir_name_leq(), |d: DirectoryItem| dir_row(d));
            assert(sorted@.map_values(|d: DirectoryItem| dir_row(d)) =~= sort_stable_by(
                raw@,
                dir_name_leq(),
            ).map_values(|d: DirectoryItem| dir_row(d)));
        }
        Ok(sorted)
    }

    /// True exactly when both the apps table and the directories table are
    /// empty.
    pub fn is_empty(&self) -> (r: Result<bool, CacheError>)
        ensures
            r matches Ok(b) ==> b == (self.apps().len() == 0 && self.dirs().len() == 0),
    {
        let apps = match self.conn_count_apps() {
            Ok(n) => n,
            Err(e) => {
                return Err(CacheError { inner: e });
            },
        };
        let dirs = match self.conn_count_dirs() {
            Ok(n) => n,
            Err(e) => {
                return Err(CacheError { inner: e });
            },
        };
        Ok(apps == 0 && dirs == 0)
    }

    /// The recorded last-update time: `Some` exactly when one was ever
    /// recorded. A storage failure is reported, not swallowed.
    pub fn get_last_update_time(&self) -> (r: Result<Option<i64>, CacheError>)
        ensures
            r matches Ok(v) ==> (match v {
                Some(x) => self.time() == Some(x as int),
                None => self.time() is None,
            }),
    {
        match self.conn_get_time_text() {
            Ok(Some(text)) => Ok(Some(parse_time_text(text.as_str()))),
            Ok(None) => Ok(None),
            Err(e) => Err(CacheError { inner: e }),
        }
    }

    /// Records the last-update time, replacing any earlier record. The
    /// tables are untouched.
    pub fn set_last_update_time(&mut self, timestamp: i64) -> (r: Result<(), CacheError>)
        ensures
            r is Ok ==> final(self).time() == Some(timestamp as int),
            r is Err ==> final(self).time() == old(self).time(),
            final(self).apps() == old(self).apps(),
            final(self).dirs() == old(self).dirs(),
    {
        match self.conn_set_time(timestamp) {
            Ok(()) => Ok(()),
            Err(e) => Err(CacheError { inner: e }),
        }
    }

    /// Whether the cache is due for a refresh against the wall clock: a
    /// store with no recorded time always is; otherwise `is_stale` decides
    /// against the clock's current reading, whatever it is.
    pub fn needs_update(&self, interval_hours: u32) -> (r: Result<bool, CacheError>)
        ensures
            r matches Ok(b) ==> (self.time() is None ==> b),
    {
        let last = match self.get_last_update_time() {
            Ok(v) => v,
            Err(e) => {
                return Err(e);
            },
        };
        let now = now_epoch_seconds();
        Ok(is_stale(last, now, interval_hours))
    }

    /// Empties all three tables: afterwards the store holds nothing and no
    /// recorded time. The deletes run in order — apps, directories,
    /// metadata — each one whole or not at all, so on failure each table
    /// is either already cleared or untouched, and the recorded time,
    /// cleared last, is untouched.
    pub fn clear_cache(&mut self) -> (r: Result<(), CacheError>)
        ensures
            r is Ok ==> final(self).apps() == Multiset::<AppRow>::empty() && final(self).dirs()
                == Multiset::<DirRow>::empty() && final(self).time() is None,
            r is Err ==> final(self).apps() == old(self).apps() || final(self).apps()
                == Multiset::<AppRow>::empty(),
            r is Err ==> final(self).dirs() == old(self).dirs() || final(self).dirs()
                == Multiset::<DirRow>::empty(),
            r is Err ==> final(self).time() == old(self).time(),
    {
        match self.conn_clear_apps() {
            Ok(()) => (),
            Err(e) => {
                return Err(CacheError { inner: e });
            },
        }
        match self.conn_clear_dirs() {
            Ok(()) => (),
            Err(e) => {
                return Err(CacheError { inner: e });
            },
        }
        match self.conn_clear_meta() {
            Ok(()) => (),
            Err(e) => {
                return Err(CacheError { inner: e });
            },
        }
        Ok(())
    }
}

/// A list's rows are one per item.
pub proof fn lemma_app_rows_len(items: Seq<AppItem>)
    ensures
        app_rows(items).len() == items.len(),
{
    assert(items.map_values(|a: AppItem| app_row(a)).to_multiset().len() == items.map_values(
        |a: AppItem| app_row(a),
    ).len());
}

/// A list's rows are one per item.
pub proof fn lemma_dir_rows_len(items: Seq<DirectoryItem>)
    ensures
        dir_rows(items).len() == items.len(),
{
    assert(items.map_values(|d: DirectoryItem| dir_row(d)).to_multiset().len() == items.map_values(
        |d: DirectoryItem| dir_row(d),
    ).len());
}

/// Round trip: when a save of `items` succeeded (the store holds exactly
/// their rows) and a later load succeeded, the loaded list carries exactly
/// the saved items' rows — the same items up to order — and is sorted by
/// name ascending.
pub proof fn lemma_save_load_round_trip(db: CacheDB, items: Seq<AppItem>, loaded: Seq<AppItem>)
    requires
        db.apps() == app_rows(items),
        app_rows(loaded) == db.apps(),
        apps_sorted_by_name(loaded),
    ensures
        app_rows(loaded) == app_rows(items),
        loaded.len() == items.len(),
        apps_sorted_by_name(loaded),
{
    lemma_app_rows_len(items);
    lemma_app_rows_len(loaded);
}

/// Atomic replace: after a second save succeeded, the store — and so any
/// successful load — holds exactly the second list's rows, whatever was
/// saved before; the first list left no trace.
pub proof fn lemma_atomic_replace(db: CacheDB, b: Seq<AppItem>, loaded: Seq<AppItem>)
    requires
        db.apps() == app_rows(b),
        app_rows(loaded) == db.apps(),
    ensures
        app_rows(loaded) == app_rows(b),
        loaded.len() == b.len(),
{
    lemma_app_rows_len(b);
    lemma_app_rows_len(loaded);
}

/// Emptiness of a fresh store: one holding no rows at all — as a newly
/// initialized store does — is what `is_empty` answers true for.
pub proof fn lemma_fresh_store_is_empty(db: CacheDB)
    requires
        db.apps() == Multiset::<AppRow>::empty(),
        db.dirs() == Multiset::<DirRow>::empty(),
    ensures
        db.apps().len() == 0 && db.dirs().len() == 0,
{
}

/// Emptiness: a store holding the rows of a non-empty app list is not
/// empty, so `is_empty` answers false after any successful non-empty save.
pub proof fn lemma_nonempty_save_not_empty(db: CacheDB, items: Seq<AppItem>)
    requires
        items.len() > 0,
        db.apps() == app_rows(items),
    ensures
        !(db.apps().len() == 0 && db.dirs().len() == 0),
{
    lemma_app_rows_len(items);
}

/// Emptiness, for a non-empty directory save.
pub proof fn lemma_nonempty_save_dirs_not_empty(db: CacheDB, items: Seq<DirectoryItem>)
    requires
        items.len() > 0,
        db.dirs() == dir_rows(items),
    ensures
        !(db.apps().len() == 0 && db.dirs().len() == 0),
{
    lemma_dir_rows_len(items);
}

/// Staleness at interval one hour: with no recorded time a refresh is
/// always due; immediately after recording the current time it is not;
/// with a time two hours old it is again.
pub proof fn lemma_staleness(now: int)
    ensures
        stale_spec(None, now, 1),
        !stale_spec(Some(now), now, 1),
        stale_spec(Some(now - 7200), now, 1),
{
}

} // verus!
