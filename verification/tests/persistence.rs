use sha2::{Digest, Sha256};

use minidb::persist::{decode_database, encode_database, load_snapshot, snapshot};
use minidb::schema::DataType;
use minidb::store::{Column, Database, Table};

fn sample_db() -> Database {
    let mut db = Database::new("test_db");
    db.create_table(Table {
        name: "users".to_string(),
        columns: vec![
            Column { name: "id".to_string(), data_type: DataType::Int, is_primary_key: true },
            Column {
                name: "name".to_string(),
                data_type: DataType::String(50),
                is_primary_key: false,
            },
        ],
        rows: Vec::new(),
    })
        .unwrap();
    db.execute_sql_query("INSERT INTO users VALUES (1, 'Alice')").unwrap();
    db.execute_sql_query("INSERT INTO users VALUES (2, 'Bob')").unwrap();
    db
}

fn hex_digest(text: &str) -> String {
    let digest = Sha256::digest(text.as_bytes());
    let mut out = String::new();
    for b in digest.iter() {
        out.push_str(&format!("{:02x}", b));
    }
    out
}

#[test]
fn encode_decode_round_trip_preserves_the_store() {
    let db = sample_db();
    let doc = encode_database(&db);
    let loaded = decode_database(doc.as_str()).expect("the encoded store should decode");
    assert_eq!(loaded.tables.len(), db.tables.len());
    assert_eq!(loaded.tables[0].name, "users");
    assert_eq!(loaded.tables[0].columns.len(), 2);
    assert_eq!(loaded.tables[0].columns[0].name, "id");
    assert!(loaded.tables[0].columns[0].is_primary_key);
    assert!(matches!(loaded.tables[0].columns[1].data_type, DataType::String(50)));
    assert_eq!(loaded.tables[0].rows.len(), 2);
    assert_eq!(loaded.tables[0].rows[0].values, vec![
        Some("1".to_string()),
        Some("Alice".to_string()),
    ]);
    assert_eq!(loaded.tables[0].rows[1].values, vec![
        Some("2".to_string()),
        Some("Bob".to_string()),
    ]);
}

#[test]
fn encode_handles_null_values() {
    let mut db = sample_db();
    db.insert_row(
        "users",
        minidb::store::Row { values: vec![None, None] },
    );
    let doc = encode_database(&db);
    let loaded = decode_database(doc.as_str()).expect("the encoded store should decode");
    assert_eq!(loaded.tables[0].rows[2].values, vec![None, None]);
}

#[test]
fn snapshot_hash_is_the_documents_sha256_hex() {
    let db = sample_db();
    let (doc, hash) = snapshot(&db);
    assert_eq!(hash, hex_digest(doc.as_str()));
    assert_eq!(hash.len(), 64);
    assert_ne!(hash, doc);
}

#[test]
fn load_snapshot_of_untampered_document_is_secure() {
    let db = sample_db();
    let (doc, hash) = snapshot(&db);
    let (loaded, secure) = load_snapshot(doc.as_str(), hash.as_str());
    assert!(secure);
    let loaded = loaded.expect("the untampered document should load");
    assert_eq!(loaded.tables[0].rows.len(), 2);
    // The reloaded store re-encodes to the very same document.
    assert_eq!(encode_database(&loaded), doc);
}

#[test]
fn tampering_clears_the_secure_flag_without_blocking_the_load() {
    let db = sample_db();
    let (doc, hash) = snapshot(&db);
    // Same-length tampering keeps the document decodable.
    assert!(doc.contains("Alice"));
    let tampered = doc.replace("Alice", "Alicf");
    let (loaded, secure) = load_snapshot(tampered.as_str(), hash.as_str());
    assert!(!secure);
    let loaded = loaded.expect("the tampered document still loads");
    assert_eq!(loaded.tables[0].rows[0].values[1], Some("Alicf".to_string()));
}

#[test]
fn decode_rejects_garbage() {
    assert!(decode_database("").is_none());
    assert!(decode_database("not a document").is_none());
    assert!(decode_database("9999;").is_none());
    let db = sample_db();
    let doc = encode_database(&db);
    let mut truncated = doc.clone();
    truncated.pop();
    assert!(decode_database(truncated.as_str()).is_none());
    let padded = format!("{} ", doc);
    assert!(decode_database(padded.as_str()).is_none());
}
