use job_queue::dialect::{
    create_failed_jobs_sequence_sql, create_failed_jobs_table_sql, create_jobs_sequence_sql,
    create_jobs_table_sql, db_type_of_url, delete_all_failed_jobs_sql, delete_all_jobs_sql,
    delete_failed_job_sql, delete_job_by_id_sql, delete_job_by_uuid_sql, insert_failed_job_sql,
    insert_job_sql, placeholder, reserve_job_sql, select_failed_job_sql, select_failed_uuids_sql,
    select_next_job_sql,
};
use job_queue::errors::Error;
use job_queue::text::u64_to_string;
use job_queue::DBType;

#[test]
fn placeholders_by_dialect() {
    assert_eq!(placeholder(DBType::Mysql, 1), "?");
    assert_eq!(placeholder(DBType::Mysql, 7), "?");
    assert_eq!(placeholder(DBType::Postgres, 1), "$1");
    assert_eq!(placeholder(DBType::Postgres, 12), "$12");
}

#[test]
fn decimal_rendering() {
    assert_eq!(u64_to_string(0), "0");
    assert_eq!(u64_to_string(7), "7");
    assert_eq!(u64_to_string(1042), "1042");
    assert_eq!(u64_to_string(u64::MAX), "18446744073709551615");
}

#[test]
fn insert_job_text() {
    assert_eq!(
        insert_job_sql(DBType::Mysql),
        "INSERT INTO jobs (uuid, queue, payload, attempts, available_at, created_at) VALUES (?, ?, ?, ?, ?, ?)"
    );
    assert_eq!(
        insert_job_sql(DBType::Postgres),
        "INSERT INTO jobs (uuid, queue, payload, attempts, available_at, created_at) VALUES ($1, $2, $3, $4, $5, $6)"
    );
}

#[test]
fn select_next_job_text() {
    assert_eq!(
        select_next_job_sql(DBType::Postgres),
        "SELECT id, uuid, payload, attempts FROM jobs WHERE queue = $1 AND ((reserved_at IS NULL AND available_at <= $2) OR (reserved_at <= $3)) ORDER BY id ASC LIMIT 1 FOR UPDATE SKIP LOCKED"
    );
    assert_eq!(
        select_next_job_sql(DBType::Mysql),
        "SELECT id, uuid, payload, attempts FROM jobs WHERE queue = ? AND ((reserved_at IS NULL AND available_at <= ?) OR (reserved_at <= ?)) ORDER BY id ASC LIMIT 1 FOR UPDATE SKIP LOCKED"
    );
}

#[test]
fn reserve_update_text() {
    assert_eq!(
        reserve_job_sql(DBType::Postgres, 1700000000),
        "UPDATE jobs SET reserved_at = 1700000000, attempts = $1 WHERE id = $2"
    );
    assert_eq!(
        reserve_job_sql(DBType::Mysql, 42),
        "UPDATE jobs SET reserved_at = 42, attempts = ? WHERE id = ?"
    );
}

#[test]
fn delete_and_failed_texts() {
    assert_eq!(delete_job_by_id_sql(DBType::Mysql), "DELETE FROM jobs WHERE id = ?");
    assert_eq!(delete_job_by_uuid_sql(DBType::Postgres), "DELETE FROM jobs WHERE uuid = $1");
    assert_eq!(delete_all_jobs_sql(), "DELETE FROM jobs");
    assert_eq!(
        insert_failed_job_sql(DBType::Postgres),
        "INSERT INTO failed_jobs (uuid, queue, payload, exception) VALUES ($1, $2, $3, $4)"
    );
    assert_eq!(
        select_failed_job_sql(DBType::Mysql),
        "SELECT id, uuid, queue, payload FROM failed_jobs WHERE uuid = ?"
    );
    assert_eq!(select_failed_uuids_sql(), "SELECT uuid FROM failed_jobs");
    assert_eq!(delete_failed_job_sql(DBType::Postgres), "DELETE FROM failed_jobs WHERE uuid = $1");
    assert_eq!(delete_all_failed_jobs_sql(), "DELETE FROM failed_jobs");
}

#[test]
fn schema_texts_name_the_tables() {
    let jobs_mysql = create_jobs_table_sql(DBType::Mysql);
    assert!(jobs_mysql.starts_with("CREATE TABLE IF NOT EXISTS `jobs`"));
    assert!(jobs_mysql.contains("`reserved_at` int unsigned DEFAULT NULL"));
    let jobs_pg = create_jobs_table_sql(DBType::Postgres);
    assert!(jobs_pg.starts_with("CREATE TABLE IF NOT EXISTS jobs"));
    assert!(jobs_pg.contains("nextval('jobs_id_seq'::regclass)"));
    let failed_mysql = create_failed_jobs_table_sql(DBType::Mysql);
    assert!(failed_mysql.contains("UNIQUE KEY `failed_jobs_uuid_unique` (`uuid`)"));
    let failed_pg = create_failed_jobs_table_sql(DBType::Postgres);
    assert!(failed_pg.contains("uuid char(36) NOT NULL UNIQUE"));
    assert_eq!(create_jobs_sequence_sql(), "CREATE SEQUENCE IF NOT EXISTS jobs_id_seq");
    assert_eq!(
        create_failed_jobs_sequence_sql(),
        "CREATE SEQUENCE IF NOT EXISTS failed_jobs_id_seq"
    );
}

#[test]
fn url_scheme_selects_the_dialect() {
    assert!(matches!(db_type_of_url("mysql://user:pw@host/db"), Ok(DBType::Mysql)));
    assert!(matches!(db_type_of_url("postgres://host/db"), Ok(DBType::Postgres)));
    assert!(matches!(db_type_of_url("postgresql://host/db"), Ok(DBType::Postgres)));
    assert!(matches!(db_type_of_url("sqlite::memory:"), Err(Error::UnsupportedDatabaseUrl)));
    assert!(matches!(db_type_of_url(""), Err(Error::UnsupportedDatabaseUrl)));
}

#[test]
fn error_messages() {
    assert_eq!(Error::DatabaseError("x".to_string()).message(), "database error");
    assert_eq!(Error::UnsupportedDatabaseUrl.message(), "usupported database url");
    assert_eq!(Error::SerdeError("y".to_string()).message(), "serializing error");
    assert_eq!(Error::Message("boom".to_string()).message(), "job error: boom");
    assert_eq!(Error::JobTimeout.message(), "job timeout");
    assert_eq!(Error::JobPanic.message(), "job panic");
    assert_eq!(Error::Unknown.message(), "unknown data store error");
}
