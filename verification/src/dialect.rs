//! The dialect adapter: placeholder style, the SQL text of every statement
//! the engine issues, the canonical schema, and the URL-scheme test that
//! selects the dialect.  Every other component composes its SQL through
//! these functions; none writes dialect-specific syntax of its own.

use vstd::prelude::*;

use crate::errors::Error;
use crate::text::{dec_digits, push_char, str_starts_with, u64_to_string};
use crate::DBType;

verus! {

/// The text of the `n`-th bind placeholder: positional `$n` for
/// PostgreSQL, `?` for MySQL.
pub open spec fn spec_placeholder(db: DBType, n: nat) -> Seq<char> {
    match db {
        DBType::Mysql => "?"@,
        DBType::Postgres => "$"@ + dec_digits(n),
    }
}

/// Renders the `n`-th bind placeholder.
pub fn placeholder(db: DBType, n: u64) -> (r: String)
    ensures
        r@ == spec_placeholder(db, n as nat),
{
    match db {
        DBType::Mysql => String::from_str("?"),
        DBType::Postgres => {
            let mut s = String::from_str("$");
            let digits = u64_to_string(n);
            s.append(digits.as_str());
            s
        },
    }
}

/// Appends the `n`-th placeholder to a statement under construction.
fn append_placeholder(s: &mut String, db: DBType, n: u64)
    ensures
        final(s)@ == old(s)@ + spec_placeholder(db, n as nat),
{
    let p = placeholder(db, n);
    s.append(p.as_str());
}

/// The statement that inserts one job row; binds are uuid, queue,
/// payload, attempts, available_at, created_at, in that order.
pub open spec fn spec_insert_job_sql(db: DBType) -> Seq<char> {
    "INSERT INTO jobs (uuid, queue, payload, attempts, available_at, created_at) VALUES ("@
        + spec_placeholder(db, 1) + ", "@ + spec_placeholder(db, 2) + ", "@ + spec_placeholder(
        db,
        3,
    ) + ", "@ + spec_placeholder(db, 4) + ", "@ + spec_placeholder(db, 5) + ", "@
        + spec_placeholder(db, 6) + ")"@
}

/// Renders the insert into `jobs`.
pub fn insert_job_sql(db: DBType) -> (r: String)
    ensures
        r@ == spec_insert_job_sql(db),
{
    let mut s = String::from_str(
        "INSERT INTO jobs (uuid, queue, payload, attempts, available_at, created_at) VALUES (",
    );
    append_placeholder(&mut s, db, 1);
    s.append(", ");
    append_placeholder(&mut s, db, 2);
    s.append(", ");
    append_placeholder(&mut s, db, 3);
    s.append(", ");
    append_placeholder(&mut s, db, 4);
    s.append(", ");
    append_placeholder(&mut s, db, 5);
    s.append(", ");
    append_placeholder(&mut s, db, 6);
    s.append(")");
    proof {
        assert(s@ =~= spec_insert_job_sql(db));
    }
    s
}

/// The select-and-lock statement of one reservation attempt; binds are
/// queue, the current time, and the stale-reservation cutoff.
pub open spec fn spec_select_next_job_sql(db: DBType) -> Seq<char> {
    "SELECT id, uuid, payload, attempts FROM jobs WHERE queue = "@ + spec_placeholder(db, 1)
        + " AND ((reserved_at IS NULL AND available_at <= "@ + spec_placeholder(db, 2)
        + ") OR (reserved_at <= "@ + spec_placeholder(db, 3)
        + ")) ORDER BY id ASC LIMIT 1 FOR UPDATE SKIP LOCKED"@
}

/// Renders the select-and-lock of the next eligible job.
pub fn select_next_job_sql(db: DBType) -> (r: String)
    ensures
        r@ == spec_select_next_job_sql(db),
{
    let mut s = String::from_str("SELECT id, uuid, payload, attempts FROM jobs WHERE queue = ");
    append_placeholder(&mut s, db, 1);
    s.append(" AND ((reserved_at IS NULL AND available_at <= ");
    append_placeholder(&mut s, db, 2);
    s.append(") OR (reserved_at <= ");
    append_placeholder(&mut s, db, 3);
    s.append(")) ORDER BY id ASC LIMIT 1 FOR UPDATE SKIP LOCKED");
    proof {
        assert(s@ =~= spec_select_next_job_sql(db));
    }
    s
}

/// The statement that marks the selected row reserved; the reservation
/// time stands in the text, the binds are attempts and id.
pub open spec fn spec_reserve_job_sql(db: DBType, now: nat) -> Seq<char> {
    "UPDATE jobs SET reserved_at = "@ + dec_digits(now) + ", attempts = "@ + spec_placeholder(
        db,
        1,
    ) + " WHERE id = "@ + spec_placeholder(db, 2)
}

/// Renders the update that reserves a selected row at time `now`.
pub fn reserve_job_sql(db: DBType, now: u64) -> (r: String)
    ensures
        r@ == spec_reserve_job_sql(db, now as nat),
{
    let mut s = String::from_str("UPDATE jobs SET reserved_at = ");
    let ts = u64_to_string(now);
    s.append(ts.as_str());
    s.append(", attempts = ");
    append_placeholder(&mut s, db, 1);
    s.append(" WHERE id = ");
    append_placeholder(&mut s, db, 2);
    proof {
        assert(s@ =~= spec_reserve_job_sql(db, now as nat));
    }
    s
}

/// The statement that deletes a job row by primary key; bind is id.
pub open spec fn spec_delete_job_by_id_sql(db: DBType) -> Seq<char> {
    "DELETE FROM jobs WHERE id = "@ + spec_placeholder(db, 1)
}

/// Renders the delete of one job row by id.
pub fn delete_job_by_id_sql(db: DBType) -> (r: String)
    ensures
        r@ == spec_delete_job_by_id_sql(db),
{
    let mut s = String::from_str("DELETE FROM jobs WHERE id = ");
    append_placeholder(&mut s, db, 1);
    proof {
        assert(s@ =~= spec_delete_job_by_id_sql(db));
    }
    s
}

/// The statement that dead-letters a job; binds are uuid, queue, payload,
/// exception.
pub open spec fn spec_insert_failed_job_sql(db: DBType) -> Seq<char> {
    "INSERT INTO failed_jobs (uuid, queue, payload, exception) VALUES ("@ + spec_placeholder(db, 1)
        + ", "@ + spec_placeholder(db, 2) + ", "@ + spec_placeholder(db, 3) + ", "@
        + spec_placeholder(db, 4) + ")"@
}

/// Renders the insert into `failed_jobs`.
pub fn insert_failed_job_sql(db: DBType) -> (r: String)
    ensures
        r@ == spec_insert_failed_job_sql(db),
{
    let mut s = String::from_str("INSERT INTO failed_jobs (uuid, queue, payload, exception) VALUES (");
    append_placeholder(&mut s, db, 1);
    s.append(", ");
    append_placeholder(&mut s, db, 2);
    s.append(", ");
    append_placeholder(&mut s, db, 3);
    s.append(", ");
    append_placeholder(&mut s, db, 4);
    s.append(")");
    proof {
        assert(s@ =~= spec_insert_failed_job_sql(db));
    }
    s
}

/// The statement that reads one dead letter back; bind is uuid.
pub open spec fn spec_select_failed_job_sql(db: DBType) -> Seq<char> {
    "SELECT id, uuid, queue, payload FROM failed_jobs WHERE uuid = "@ + spec_placeholder(db, 1)
}

/// Renders the select of one dead letter by uuid.
pub fn select_failed_job_sql(db: DBType) -> (r: String)
    ensures
        r@ == spec_select_failed_job_sql(db),
{
    let mut s = String::from_str("SELECT id, uuid, queue, payload FROM failed_jobs WHERE uuid = ");
    append_placeholder(&mut s, db, 1);
    proof {
        assert(s@ =~= spec_select_failed_job_sql(db));
    }
    s
}

/// Renders the select of every dead letter's uuid.
pub fn select_failed_uuids_sql() -> (r: String)
    ensures
        r@ == "SELECT uuid FROM failed_jobs"@,
{
    String::from_str("SELECT uuid FROM failed_jobs")
}

/// The statement that deletes a dead letter by uuid; bind is uuid.
pub open spec fn spec_delete_failed_job_sql(db: DBType) -> Seq<char> {
    "DELETE FROM failed_jobs WHERE uuid = "@ + spec_placeholder(db, 1)
}

/// Renders the delete of one dead letter by uuid.
pub fn delete_failed_job_sql(db: DBType) -> (r: String)
    ensures
        r@ == spec_delete_failed_job_sql(db),
{
    let mut s = String::from_str("DELETE FROM failed_jobs WHERE uuid = ");
    append_placeholder(&mut s, db, 1);
    proof {
        assert(s@ =~= spec_delete_failed_job_sql(db));
    }
    s
}

/// Renders the delete of every dead letter.
pub fn delete_all_failed_jobs_sql() -> (r: String)
    ensures
        r@ == "DELETE FROM failed_jobs"@,
{
    String::from_str("DELETE FROM failed_jobs")
}

/// The statement that deletes job rows by uuid; bind is uuid.
pub open spec fn spec_delete_job_by_uuid_sql(db: DBType) -> Seq<char> {
    "DELETE FROM jobs WHERE uuid = "@ + spec_placeholder(db, 1)
}

/// Renders the delete of job rows by uuid.
pub fn delete_job_by_uuid_sql(db: DBType) -> (r: String)
    ensures
        r@ == spec_delete_job_by_uuid_sql(db),
{
    let mut s = String::from_str("DELETE FROM jobs WHERE uuid = ");
    append_placeholder(&mut s, db, 1);
    proof {
        assert(s@ =~= spec_delete_job_by_uuid_sql(db));
    }
    s
}

/// Renders the delete of every job row.
pub fn delete_all_jobs_sql() -> (r: String)
    ensures
        r@ == "DELETE FROM jobs"@,
{
    String::from_str("DELETE FROM jobs")
}

/// The canonical `jobs` table for each dialect.
pub open spec fn spec_create_jobs_table_sql(db: DBType) -> Seq<char> {
    match db {
        DBType::Mysql => "CREATE TABLE IF NOT EXISTS `jobs` (`id` bigint unsigned NOT NULL AUTO_INCREMENT, `uuid` varchar(255) NOT NULL, `queue` varchar(255) NOT NULL, `payload` longtext NOT NULL, `attempts` int unsigned NOT NULL, `reserved_at` int unsigned DEFAULT NULL, `available_at` int unsigned NOT NULL, `created_at` int unsigned NOT NULL, PRIMARY KEY (`id`), KEY `jobs_queue_index` (`queue`))"@,
        DBType::Postgres => "CREATE TABLE IF NOT EXISTS jobs (id int8 NOT NULL DEFAULT nextval('jobs_id_seq'::regclass), uuid char(36) NOT NULL, queue char(36) NOT NULL, payload text NOT NULL, attempts int2 NOT NULL, reserved_at int4, available_at int4 NOT NULL, created_at int4 NOT NULL, PRIMARY KEY (id))"@,
    }
}

/// Renders the canonical `jobs` table definition.
pub fn create_jobs_table_sql(db: DBType) -> (r: String)
    ensures
        r@ == spec_create_jobs_table_sql(db),
{
    match db {
        DBType::Mysql => String::from_str(
            "CREATE TABLE IF NOT EXISTS `jobs` (`id` bigint unsigned NOT NULL AUTO_INCREMENT, `uuid` varchar(255) NOT NULL, `queue` varchar(255) NOT NULL, `payload` longtext NOT NULL, `attempts` int unsigned NOT NULL, `reserved_at` int unsigned DEFAULT NULL, `available_at` int unsigned NOT NULL, `created_at` int unsigned NOT NULL, PRIMARY KEY (`id`), KEY `jobs_queue_index` (`queue`))",
        ),
        DBType::Postgres => String::from_str(
            "CREATE TABLE IF NOT EXISTS jobs (id int8 NOT NULL DEFAULT nextval('jobs_id_seq'::regclass), uuid char(36) NOT NULL, queue char(36) NOT NULL, payload text NOT NULL, attempts int2 NOT NULL, reserved_at int4, available_at int4 NOT NULL, created_at int4 NOT NULL, PRIMARY KEY (id))",
        ),
    }
}

/// The canonical `failed_jobs` table for each dialect.
pub open spec fn spec_create_failed_jobs_table_sql(db: DBType) -> Seq<char> {
    match db {
        DBType::Mysql => "CREATE TABLE IF NOT EXISTS `failed_jobs` (`id` bigint unsigned NOT NULL AUTO_INCREMENT, `uuid` varchar(255) NOT NULL, `queue` text NOT NULL, `payload` longtext NOT NULL, `exception` longtext NOT NULL, `failed_at` timestamp NOT NULL DEFAULT CURRENT_TIMESTAMP, PRIMARY KEY (`id`), UNIQUE KEY `failed_jobs_uuid_unique` (`uuid`))"@,
        DBType::Postgres => "CREATE TABLE IF NOT EXISTS failed_jobs (id int8 NOT NULL DEFAULT nextval('failed_jobs_id_seq'::regclass), uuid char(36) NOT NULL UNIQUE, queue char(36) NOT NULL, payload text NOT NULL, exception text NOT NULL, failed_at timestamp NOT NULL DEFAULT CURRENT_TIMESTAMP, PRIMARY KEY (id))"@,
    }
}

/// Renders the canonical `failed_jobs` table definition.
pub fn create_failed_jobs_table_sql(db: DBType) -> (r: String)
    ensures
        r@ == spec_create_failed_jobs_table_sql(db),
{
    match db {
        DBType::Mysql => String::from_str(
            "CREATE TABLE IF NOT EXISTS `failed_jobs` (`id` bigint unsigned NOT NULL AUTO_INCREMENT, `uuid` varchar(255) NOT NULL, `queue` text NOT NULL, `payload` longtext NOT NULL, `exception` longtext NOT NULL, `failed_at` timestamp NOT NULL DEFAULT CURRENT_TIMESTAMP, PRIMARY KEY (`id`), UNIQUE KEY `failed_jobs_uuid_unique` (`uuid`))",
        ),
        DBType::Postgres => String::from_str(
            "CREATE TABLE IF NOT EXISTS failed_jobs (id int8 NOT NULL DEFAULT nextval('failed_jobs_id_seq'::regclass), uuid char(36) NOT NULL UNIQUE, queue char(36) NOT NULL, payload text NOT NULL, exception text NOT NULL, failed_at timestamp NOT NULL DEFAULT CURRENT_TIMESTAMP, PRIMARY KEY (id))",
        ),
    }
}

/// Renders the sequence behind `jobs.id` (PostgreSQL only).
pub fn create_jobs_sequence_sql() -> (r: String)
    ensures
        r@ == "CREATE SEQUENCE IF NOT EXISTS jobs_id_seq"@,
{
    String::from_str("CREATE SEQUENCE IF NOT EXISTS jobs_id_seq")
}

/// Renders the sequence behind `failed_jobs.id` (PostgreSQL only).
pub fn create_failed_jobs_sequence_sql() -> (r: String)
    ensures
        r@ == "CREATE SEQUENCE IF NOT EXISTS failed_jobs_id_seq"@,
{
    String::from_str("CREATE SEQUENCE IF NOT EXISTS failed_jobs_id_seq")
}

/// The dialect a connection URL selects: `mysql…` speaks MySQL,
/// `postgres…` (so also `postgresql…`) speaks PostgreSQL, anything else
/// is unsupported.
pub open spec fn spec_db_type_of_url(u: Seq<char>) -> Option<DBType> {
    if "mysql"@.len() <= u.len() && u.subrange(0, "mysql"@.len() as int) == "mysql"@ {
        Some(DBType::Mysql)
    } else if "postgres"@.len() <= u.len() && u.subrange(0, "postgres"@.len() as int)
        == "postgres"@ {
        Some(DBType::Postgres)
    } else {
        None
    }
}

/// Selects the dialect from a connection URL, or reports the URL
/// unsupported.
pub fn db_type_of_url(url: &str) -> (r: Result<DBType, Error>)
    ensures
        match r {
            Ok(db) => spec_db_type_of_url(url@) == Some(db),
            Err(e) => spec_db_type_of_url(url@) is None && e is UnsupportedDatabaseUrl,
        },
{
    if str_starts_with(url, "mysql") {
        Ok(DBType::Mysql)
    } else if str_starts_with(url, "postgres") {
        Ok(DBType::Postgres)
    } else {
        Err(Error::UnsupportedDatabaseUrl)
    }
}

} // verus!
