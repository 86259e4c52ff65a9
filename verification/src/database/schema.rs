//! The tables of the databases, and the steps that bring an old database up to date.

use vstd::prelude::*;

verus! {

/// The tables of the query database in its first version.
pub const INITIAL_NIMBUS_SCHEMA: &'static str = "
CREATE TABLE IF NOT EXISTS queries (
    id INTEGER PRIMARY KEY AUTOINCREMENT,
    timestamp INTEGER NOT NULL,
    dbl_domain TEXT NOT NULL,
    dbl_client TEXT,
    dbl_forward TEXT,
    dbl_type INTEGER,
    dbl_status INTEGER,
    dbl_reply_time INTEGER,
    dbl_reply_type INTEGER,
    dbl_flags INTEGER,
    dbl_interface TEXT,
    dbl_elapsed_ms INTEGER,
    dbl_adlist_id INTEGER,
    dbl_cache_id INTEGER,
    dbl_regex_id INTEGER,
    dbl_upstream_id INTEGER,
    UNIQUE(timestamp, dbl_domain, dbl_client)
);

CREATE INDEX IF NOT EXISTS idx_queries_timestamp ON queries(timestamp);
CREATE INDEX IF NOT EXISTS idx_queries_domain ON queries(dbl_domain);
CREATE INDEX IF NOT EXISTS idx_queries_client ON queries(dbl_client);

-- Network table for tracking active clients
CREATE TABLE IF NOT EXISTS network (
    id INTEGER PRIMARY KEY AUTOINCREMENT,
    hwaddr TEXT UNIQUE,
    interface TEXT,
    first_seen INTEGER,
    last_seen INTEGER,
    num_queries INTEGER DEFAULT 0,
    mac_vendor TEXT,
    munged TEXT
);

-- Network addresses (IPv4/IPv6 per network entry)
CREATE TABLE IF NOT EXISTS network_addresses (
    id INTEGER PRIMARY KEY AUTOINCREMENT,
    network_id INTEGER NOT NULL,
    ip_address TEXT NOT NULL UNIQUE,
    last_seen INTEGER,
    name TEXT,
    name_updated INTEGER,
    FOREIGN KEY(network_id) REFERENCES network(id) ON DELETE CASCADE
);

-- Counter statistics
CREATE TABLE IF NOT EXISTS counters (
    id INTEGER PRIMARY KEY AUTOINCREMENT,
    timestamp INTEGER NOT NULL,
    total_queries INTEGER DEFAULT 0,
    blocked_queries INTEGER DEFAULT 0,
    cached_queries INTEGER DEFAULT 0,
    forwarded_queries INTEGER DEFAULT 0
);

-- Alias clients (grouping multiple IPs as one client)
CREATE TABLE IF NOT EXISTS aliasclient (
    id INTEGER PRIMARY KEY AUTOINCREMENT,
    name TEXT UNIQUE NOT NULL,
    comment TEXT,
    addgid INTEGER,
    orderid INTEGER
);

-- NimbusDNS metadata
CREATE TABLE IF NOT EXISTS ftl (
    id INTEGER PRIMARY KEY AUTOINCREMENT,
    version TEXT NOT NULL,
    build_time INTEGER,
    branch TEXT,
    commit_hash TEXT,
    tag TEXT
);

-- Gravity database schema (for reference)
-- This is managed separately by gravity-db
";

/// The tables of the gravity database.
pub const GRAVITY_SCHEMA: &'static str = "
CREATE TABLE IF NOT EXISTS group_table (
    id INTEGER PRIMARY KEY AUTOINCREMENT,
    name TEXT UNIQUE NOT NULL,
    description TEXT,
    enabled INTEGER NOT NULL DEFAULT 1,
    date_added INTEGER NOT NULL,
    date_modified INTEGER NOT NULL
);

CREATE TABLE IF NOT EXISTS domainlist (
    id INTEGER PRIMARY KEY AUTOINCREMENT,
    type INTEGER NOT NULL,
    domain TEXT NOT NULL,
    enabled INTEGER NOT NULL DEFAULT 1,
    date_added INTEGER NOT NULL,
    date_modified INTEGER NOT NULL,
    comment TEXT,
    UNIQUE(type, domain)
);

CREATE TABLE IF NOT EXISTS domainlist_by_group (
    domainlist_id INTEGER NOT NULL,
    group_id INTEGER NOT NULL,
    PRIMARY KEY(domainlist_id, group_id),
    FOREIGN KEY(domainlist_id) REFERENCES domainlist(id) ON DELETE CASCADE,
    FOREIGN KEY(group_id) REFERENCES group_table(id) ON DELETE CASCADE
);

CREATE TABLE IF NOT EXISTS client (
    id INTEGER PRIMARY KEY AUTOINCREMENT,
    ip TEXT UNIQUE NOT NULL,
    comment TEXT,
    date_added INTEGER NOT NULL,
    date_modified INTEGER NOT NULL
);

CREATE TABLE IF NOT EXISTS client_by_group (
    client_id INTEGER NOT NULL,
    group_id INTEGER NOT NULL,
    PRIMARY KEY(client_id, group_id),
    FOREIGN KEY(client_id) REFERENCES client(id) ON DELETE CASCADE,
    FOREIGN KEY(group_id) REFERENCES group_table(id) ON DELETE CASCADE
);

CREATE TABLE IF NOT EXISTS adlist (
    id INTEGER PRIMARY KEY AUTOINCREMENT,
    address TEXT UNIQUE NOT NULL,
    comment TEXT,
    enabled INTEGER NOT NULL DEFAULT 1,
    date_added INTEGER NOT NULL,
    date_modified INTEGER NOT NULL
);

CREATE TABLE IF NOT EXISTS adlist_by_group (
    adlist_id INTEGER NOT NULL,
    group_id INTEGER NOT NULL,
    PRIMARY KEY(adlist_id, group_id),
    FOREIGN KEY(adlist_id) REFERENCES adlist(id) ON DELETE CASCADE,
    FOREIGN KEY(group_id) REFERENCES group_table(id) ON DELETE CASCADE
);

CREATE TABLE IF NOT EXISTS gravity (
    domain TEXT NOT NULL,
    adlist_id INTEGER NOT NULL,
    PRIMARY KEY(domain, adlist_id)
);

-- Views
CREATE VIEW IF NOT EXISTS vw_allowlist AS
    SELECT d.* FROM domainlist d
    JOIN domainlist_by_group dbg ON d.id = dbg.domainlist_id
    JOIN group_table g ON dbg.group_id = g.id
    WHERE d.type = 0 AND g.enabled = 1;

CREATE VIEW IF NOT EXISTS vw_denylist AS
    SELECT d.* FROM domainlist d
    JOIN domainlist_by_group dbg ON d.id = dbg.domainlist_id
    JOIN group_table g ON dbg.group_id = g.id
    WHERE d.type = 1 AND g.enabled = 1;

CREATE VIEW IF NOT EXISTS vw_regex_allowlist AS
    SELECT d.* FROM domainlist d
    JOIN domainlist_by_group dbg ON d.id = dbg.domainlist_id
    JOIN group_table g ON dbg.group_id = g.id
    WHERE d.type = 2 AND g.enabled = 1;

CREATE VIEW IF NOT EXISTS vw_regex_denylist AS
    SELECT d.* FROM domainlist d
    JOIN domainlist_by_group dbg ON d.id = dbg.domainlist_id
    JOIN group_table g ON dbg.group_id = g.id
    WHERE d.type = 3 AND g.enabled = 1;
";

/// The table that says which version a database has.
pub const VERSION_TABLE: &'static str = "CREATE TABLE IF NOT EXISTS schema_version (
            version INTEGER PRIMARY KEY,
            applied_at TEXT NOT NULL DEFAULT (datetime('now'))
        );";

/// The table of the sessions.
pub const SESSIONS_TABLE: &'static str = "CREATE TABLE IF NOT EXISTS sessions (
                sid TEXT PRIMARY KEY,
                created_at INTEGER NOT NULL,
                expires_at INTEGER NOT NULL,
                last_used_at INTEGER,
                client_ip TEXT,
                user_agent TEXT,
                data BLOB
            );";

/// The table of the messages.
pub const MESSAGE_TABLE: &'static str = "CREATE TABLE IF NOT EXISTS message (
                id INTEGER PRIMARY KEY AUTOINCREMENT,
                timestamp INTEGER NOT NULL,
                type TEXT NOT NULL,
                message TEXT NOT NULL,
                data BLOB
            );";

/// The table of the queries without the constraint that lost repeated queries of one second.
pub const QUERIES_WITHOUT_CONSTRAINT: &'static str = "CREATE TABLE queries_v4 (
                id INTEGER PRIMARY KEY AUTOINCREMENT,
                timestamp INTEGER NOT NULL,
                dbl_domain TEXT NOT NULL,
                dbl_client TEXT,
                dbl_forward TEXT,
                dbl_type INTEGER,
                dbl_status INTEGER,
                dbl_reply_time INTEGER,
                dbl_reply_type INTEGER,
                dbl_flags INTEGER,
                dbl_interface TEXT,
                dbl_elapsed_ms INTEGER,
                dbl_adlist_id INTEGER,
                dbl_cache_id INTEGER,
                dbl_regex_id INTEGER,
                dbl_upstream_id INTEGER
            );
            INSERT INTO queries_v4 SELECT
                id, timestamp, dbl_domain, dbl_client, dbl_forward, dbl_type,
                dbl_status, dbl_reply_time, dbl_reply_type, dbl_flags,
                dbl_interface, dbl_elapsed_ms, dbl_adlist_id, dbl_cache_id,
                dbl_regex_id, dbl_upstream_id
            FROM queries;
            DROP TABLE queries;
            ALTER TABLE queries_v4 RENAME TO queries;
            CREATE INDEX IF NOT EXISTS idx_queries_timestamp ON queries(timestamp);
            CREATE INDEX IF NOT EXISTS idx_queries_domain ON queries(dbl_domain);
            CREATE INDEX IF NOT EXISTS idx_queries_client ON queries(dbl_client);";

/// The version that a database has when it is up to date.
pub const CURRENT_VERSION: i32 = 4;

/// The statements that bring a database from the version before to the given one.
pub open spec fn migration_text(version: int) -> Seq<char> {
    if version == 1 {
        INITIAL_NIMBUS_SCHEMA@
    } else if version == 2 {
        SESSIONS_TABLE@
    } else if version == 3 {
        MESSAGE_TABLE@
    } else {
        QUERIES_WITHOUT_CONSTRAINT@
    }
}

/// A step that brings a database to a version.
pub struct Migration {
    pub version: i32,
    pub sql: &'static str,
}

/// The statements of a version.
fn migration_sql(version: i32) -> (r: &'static str)
    ensures
        r@ == migration_text(version as int),
{
    if version == 1 {
        INITIAL_NIMBUS_SCHEMA
    } else if version == 2 {
        SESSIONS_TABLE
    } else if version == 3 {
        MESSAGE_TABLE
    } else {
        QUERIES_WITHOUT_CONSTRAINT
    }
}

/// The first version that a database of the given version lacks.
pub open spec fn first_missing(current: i32) -> int {
    if current < 0 {
        1
    } else {
        current + 1
    }
}

/// The steps that a database of the given version lacks, in order: one for each version from the
/// first that it lacks to the current one.
pub fn pending_migrations(current: i32) -> (r: Vec<Migration>)
    ensures
        r@.len() == (if first_missing(current) > CURRENT_VERSION {
            0
        } else {
            CURRENT_VERSION - first_missing(current) + 1
        }),
        forall|i: int|
            0 <= i < r@.len() ==> (#[trigger] r@[i]).version == first_missing(current) + i
                && r@[i].sql@ == migration_text(first_missing(current) + i),
{
    let mut out: Vec<Migration> = Vec::new();
    let mut v: i32 = if current < 0 {
        1
    } else if current < CURRENT_VERSION {
        current + 1
    } else {
        CURRENT_VERSION + 1
    };
    let ghost first = v as int;
    while v <= CURRENT_VERSION
        invariant
            1 <= first <= v <= CURRENT_VERSION + 1,
            out@.len() == v - first,
            forall|i: int|
                0 <= i < out@.len() ==> (#[trigger] out@[i]).version == first + i && out@[i].sql@
                    == migration_text(first + i),
        decreases CURRENT_VERSION + 1 - v,
    {
        out.push(Migration { version: v, sql: migration_sql(v) });
        v += 1;
    }
    out
}

/// A database is brought up to date version by version, up to the fourth: the steps from a version are
/// those to each later version, in order, with the statements of that version; a database that is up
/// to date, or newer, lacks none.
pub proof fn law_migrations_lead_to_the_fourth_version(current: i32, r: Vec<Migration>, i: int)
    requires
        pending_migrations.ensures((current,), r),
        0 <= i < r@.len(),
    ensures
        0 <= current ==> r@.len() == 4 - current && r@[i].version == current + 1 + i,
        current < 0 ==> r@.len() == 4 && r@[i].version == i + 1,
        r@[r@.len() - 1].version == 4,
        r@[i].version == 1 ==> r@[i].sql@ == INITIAL_NIMBUS_SCHEMA@,
        r@[i].version == 2 ==> r@[i].sql@ == SESSIONS_TABLE@,
        r@[i].version == 3 ==> r@[i].sql@ == MESSAGE_TABLE@,
        r@[i].version == 4 ==> r@[i].sql@ == QUERIES_WITHOUT_CONSTRAINT@,
{
    let last = r@[r@.len() - 1];
    assert(last.version == first_missing(current) + (r@.len() - 1));
}

/// A database lacks steps exactly where its version is before the fourth.
pub proof fn law_only_old_databases_lack_steps(current: i32, r: Vec<Migration>)
    requires
        pending_migrations.ensures((current,), r),
    ensures
        r@.len() > 0 <==> current < 4,
{
}

} // verus!
