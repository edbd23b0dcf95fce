//! Tests of the database of accounts and their ports.

use ai_proxy::accounts::account_label;
use ai_proxy::config::PortRange;
use ai_proxy::json::Json;
use ai_proxy::model::{db_version, Account, AccountMetadata, Database};

fn account(id: &str, port: Option<u16>, status: &str) -> Account {
    let mut account = Account::default();
    account.id = id.to_owned();
    account.port = port;
    account.status = status.to_owned();
    account
}

fn database(ports: &[u16]) -> Database {
    let mut db = Database::empty(5);
    for port in ports {
        db.accounts.push(account(&format!("a{port}"), Some(*port), "active"));
    }
    db
}

const RANGE: PortRange = PortRange { start: 5, end: 8 };

#[test]
fn an_empty_database_begins_with_the_range() {
    let db = Database::empty(18001);
    assert_eq!((db.version, db.next_port), (1, 18001));
    assert!(db.released_ports.is_empty() && db.accounts.is_empty());
    assert_eq!(db_version(), 1);
}

#[test]
fn gaps_are_filled() {
    let mut db = Database::empty(7);
    db.version = 0;
    db.next_port = 0;
    db.accounts.push(Account::default());
    let mut known = account("id", Some(7), "needs_reauth");
    known.provider = "p".to_owned();
    known.created_at = "c".to_owned();
    db.accounts.push(known);
    db.normalize(7, "chatgpt");
    assert_eq!((db.version, db.next_port), (1, 7));
    let first = &db.accounts[0];
    assert_eq!(first.id.len(), 36);
    assert_eq!(first.provider, "chatgpt");
    assert_eq!(first.status, "active");
    assert_eq!(first.created_at.len(), 24);
    assert_eq!(first.updated_at, first.created_at);
    let second = &db.accounts[1];
    assert_eq!((second.id.as_str(), second.provider.as_str()), ("id", "p"));
    assert_eq!(second.status, "needs_reauth");
    assert_eq!((second.created_at.as_str(), second.updated_at.as_str()), ("c", "c"));
    assert_eq!(second.port, Some(7));
    let once = format!("{db:?}");
    db.normalize(9, "other");
    assert_eq!(format!("{db:?}"), once);

    let mut exact = Account::default();
    exact.fill_gaps("p", "fresh", "t");
    assert_eq!((exact.id.as_str(), exact.created_at.as_str()), ("fresh", "t"));
    assert_eq!(exact.updated_at, "t");
}

#[test]
fn removed_accounts_are_not_found() {
    let mut db = database(&[5, 6]);
    db.accounts[0].status = "removed".to_owned();
    let ids: Vec<String> = db.active_accounts().into_iter().map(|found| found.id).collect();
    assert_eq!(ids, vec!["a6"]);
    assert!(db.account("a5").is_none());
    assert_eq!(db.account("a6").unwrap().port, Some(6));
    assert_eq!(db.active_index("a6"), Some(1));
    assert_eq!(db.active_index("a5"), None);
    assert_eq!(db.index("a5"), Some(0));
    assert_eq!(db.index("none"), None);
}

#[test]
fn ports_go_along_the_range() {
    let mut db = database(&[5]);
    assert_eq!(db.allocate_port(RANGE, &vec![]), Some(6));
    assert_eq!(db.next_port, 7);
    assert_eq!(db.allocate_port(RANGE, &vec![7]), Some(8));
    assert_eq!(db.next_port, 9);
    // The range is used up: a released port, and then any free one.
    db.released_ports = vec![4, 5, 7, 6];
    assert_eq!(db.allocate_port(RANGE, &vec![]), Some(7));
    assert_eq!(db.released_ports, vec![6]);
    assert_eq!(db.allocate_port(RANGE, &vec![6]), Some(7));
    assert!(db.released_ports.is_empty());
    assert_eq!(db.allocate_port(RANGE, &vec![6, 7, 8]), None);
    assert_eq!(db.next_port, 9);
}

#[test]
fn the_range_ends_with_the_last_port_there_is() {
    let mut db = Database::empty(1);
    db.next_port = 4_000_000_000;
    let range = PortRange { start: 65534, end: 65535 };
    assert_eq!(db.allocate_port(range, &vec![]), Some(65535));
    assert_eq!(db.next_port, 65536);
    assert_eq!(db.allocate_port(range, &vec![65535]), Some(65534));
}

#[test]
fn a_removed_account_releases_its_port() {
    let mut db = database(&[5, 6]);
    let removed = db.remove_account("a5").unwrap();
    assert_eq!(removed.id, "a5");
    assert_eq!(db.released_ports, vec![5]);
    assert_eq!(db.accounts.len(), 1);
    let error = db.remove_account("a5").unwrap_err();
    assert_eq!((error.status, error.message.as_str()), (404, "Account not found"));
    // A port is released once.
    db.released_ports = vec![6];
    db.remove_account("a6").unwrap();
    assert_eq!(db.released_ports, vec![6]);
}

#[test]
fn accounts_are_marked() {
    let mut db = database(&[5, 6]);
    db.mark_reauth("a6", "why", "now");
    assert_eq!(db.accounts[1].status, "needs_reauth");
    assert_eq!(db.accounts[1].last_error.as_deref(), Some("why"));
    assert_eq!(db.accounts[1].updated_at, "now");
    assert_eq!(db.accounts[0].status, "active");
    db.note_request("a5", 200, "then");
    assert_eq!(db.accounts[0].last_status, Some(200));
    assert_eq!(db.accounts[0].last_request_at.as_deref(), Some("then"));
    assert_eq!(db.accounts[1].last_status, None);
    db.mark_reauth("nobody", "why", "now");
    assert_eq!(db.accounts[0].status, "active");
}

#[test]
fn a_label_is_the_best_name_there_is() {
    let mut named = account("id", None, "active");
    assert_eq!(account_label(&named), "id");
    named.metadata.values.insert("accountId", Json::text("acc"));
    assert_eq!(account_label(&named), "acc");
    named.metadata.values.insert("email", Json::text("a@b"));
    assert_eq!(account_label(&named), "a@b");
    let mut other = AccountMetadata::default();
    other.values.insert("email", Json::Null);
    other.values.insert("more", Json::count(1));
    named.metadata.merge(other);
    assert_eq!(named.metadata.string("email"), None);
    assert_eq!(named.metadata.string("accountId"), Some("acc"));
    assert_eq!(named.metadata.values.get("more").unwrap().as_u64(), Some(1));
}
