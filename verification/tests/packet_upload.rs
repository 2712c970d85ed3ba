use tlm_server::packet::{create_insert_stmt, extract_files, prepare_save, ExtractError, FormField, SaveError};

fn field(name: &str, chunks: &[&[u8]]) -> FormField {
    FormField { name: name.to_string(), chunks: chunks.iter().map(|c| c.to_vec()).collect() }
}

#[test]
fn extract_joins_chunks_and_fields() {
    let fields = vec![
        field("metadata", &[b"{\"filename\":", b"\"a.bin\","]),
        field("other", &[b"ignored"]),
        field("packet", &[&[1, 2], &[3]]),
        field("metadata", &[b"\"filetype\":\"bin\"}"]),
        field("packet", &[&[4]]),
    ];
    let (metadata, packet) = extract_files(&fields).unwrap();
    assert_eq!(metadata, "{\"filename\":\"a.bin\",\"filetype\":\"bin\"}");
    assert_eq!(packet, vec![1, 2, 3, 4]);
}

#[test]
fn extract_without_metadata() {
    let fields = vec![field("packet", &[&[1]])];
    assert_eq!(extract_files(&fields), Err(ExtractError::MissingMetadata));
    let fields = vec![field("metadata", &[b""]), field("packet", &[&[1]])];
    assert_eq!(extract_files(&fields), Err(ExtractError::MissingMetadata));
}

#[test]
fn extract_without_packet() {
    let fields = vec![field("metadata", &[b"{}"])];
    assert_eq!(extract_files(&fields), Err(ExtractError::MissingPacket));
}

#[test]
fn missing_metadata_is_reported_before_missing_packet() {
    let fields: Vec<FormField> = vec![];
    assert_eq!(extract_files(&fields), Err(ExtractError::MissingMetadata));
}

#[test]
fn extract_with_metadata_not_utf8() {
    let fields = vec![field("metadata", &[&[0xff, 0xfe]]), field("packet", &[&[1]])];
    assert_eq!(extract_files(&fields), Err(ExtractError::FromUtf8Error));
}

#[test]
fn extract_keeps_multibyte_text() {
    let fields = vec![field("metadata", &["é".as_bytes()]), field("packet", &[&[0]])];
    assert_eq!(extract_files(&fields).unwrap().0, "é");
}

#[test]
fn insert_statement_sizes_the_blob() {
    assert_eq!(
        create_insert_stmt(&[]),
        "insert into level_0 (uuid, createdate, metadata, packet) values (?, ?, ?, ZEROBLOB(0))"
    );
    assert_eq!(
        create_insert_stmt(&[7u8; 5]),
        "insert into level_0 (uuid, createdate, metadata, packet) values (?, ?, ?, ZEROBLOB(5))"
    );
    assert_eq!(
        create_insert_stmt(&vec![0u8; 1234]),
        "insert into level_0 (uuid, createdate, metadata, packet) values (?, ?, ?, ZEROBLOB(1234))"
    );
    assert!(create_insert_stmt(&vec![0u8; 100]).ends_with("ZEROBLOB(100))"));
}

#[test]
fn prepared_save_carries_the_packet() {
    let random: [u8; 16] = [0x12, 0x34, 0x56, 0x78, 0x9a, 0xbc, 0xde, 0xf0, 0x12, 0x34, 0x56, 0x78, 0x9a, 0xbc, 0xde, 0xf0];
    let r = prepare_save(random, "{}".to_string(), vec![9, 8, 7]);
    assert!(r.insert_stmt.ends_with("ZEROBLOB(3))"));
    assert_eq!(r.metadata, "{}");
    assert_eq!(r.packet, vec![9, 8, 7]);
    assert_eq!(r.uuid, "12345678-9abc-4ef0-9234-56789abcdef0");
    assert!(r.createdate > 0);
}

#[test]
fn uuid_sets_version_and_variant_bits() {
    let zeros = prepare_save([0u8; 16], String::new(), vec![]);
    assert_eq!(zeros.uuid, "00000000-0000-4000-8000-000000000000");
    let ones = prepare_save([0xffu8; 16], String::new(), vec![]);
    assert_eq!(ones.uuid, "ffffffff-ffff-4fff-bfff-ffffffffffff");
    let counting: [u8; 16] = [0, 1, 2, 3, 4, 5, 6, 7, 8, 9, 10, 11, 12, 13, 14, 15];
    let c = prepare_save(counting, String::new(), vec![]);
    assert_eq!(c.uuid, "00010203-0405-4607-8809-0a0b0c0d0e0f");
}

#[test]
fn save_error_from_extract_error() {
    assert_eq!(SaveError::from(ExtractError::MissingPacket), SaveError::ExtractError(ExtractError::MissingPacket));
}

#[test]
fn saved_packet_lands_in_the_migrated_table() {
    let conn = rusqlite::Connection::open_in_memory().unwrap();
    conn.execute_batch(&tlm_server::database::migrations::update_db()).unwrap();
    let r = prepare_save([7u8; 16], "{\"filename\":\"a\",\"filetype\":\"b\"}".to_string(), vec![1, 2, 3]);
    let createdate = r.createdate as i64;
    let params: [&dyn rusqlite::ToSql; 3] = [&r.uuid, &createdate, &r.metadata];
    conn.execute(r.insert_stmt.as_str(), &params[..]).unwrap();
    let rowid = conn.last_insert_rowid();
    let mut blob = conn.blob_open(rusqlite::MAIN_DB, "level_0", "packet", rowid, false).unwrap();
    blob.write_at(&r.packet, 0).unwrap();
    drop(blob);
    let stored: Vec<u8> = conn.query_row("select packet from level_0 where id = ?1", [rowid], |row| row.get(0)).unwrap();
    assert_eq!(stored, vec![1, 2, 3]);
}
