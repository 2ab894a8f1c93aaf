use std::io::Write;
use hexendb::backup::{backup_dir, from_bytes, pack, to_bytes, unpack, Backup};
use hexendb::catalog::Catalog;
use hexendb::cipher::{decrypt, encrypt, encrypt_with, frame, NONCE_LEN};
use hexendb::codec::{deserialize, read_count, read_str, serialize, write_count, write_str};
use hexendb::database::{Database, KEY_LEN};
use hexendb::error::EngineError;
use hexendb::registry::Registry;
use hexendb::table::{Column, Table};
use hexendb::text::to_chars;

fn text(s: &str) -> String {
    s.to_string()
}

fn row(values: &[&str]) -> Vec<String> {
    values.iter().map(|v| v.to_string()).collect()
}

fn shop() -> Catalog {
    let mut catalog = Catalog::new();
    catalog.create_table(
        text("users"),
        vec![Column { name: text("id"), is_primary_key: true, foreign_key: None }, Column::plain(text("name"))],
    );
    catalog.insert_row(&text("users"), row(&["1", "Alice"])).unwrap();
    catalog.create_table(
        text("orders"),
        vec![Column { name: text("user_id"), is_primary_key: false, foreign_key: Some((text("users"), text("id"))) }],
    );
    catalog.insert_row(&text("orders"), row(&["1"])).unwrap();
    catalog
}

fn same_tables(a: &Catalog, b: &Catalog) -> bool {
    a.len() == b.len() && (0..a.len()).all(|i| a.name_at(i) == b.name_at(i) && a.table_at(i) == b.table_at(i))
}

fn chars_of(catalog: &Catalog) -> String {
    serialize(catalog).into_iter().collect()
}

#[test]
fn counts_are_written_in_decimal() {
    let mut out = vec!['x'];
    write_count(&mut out, 0, ';');
    write_count(&mut out, 7, ':');
    write_count(&mut out, 10, ';');
    write_count(&mut out, 1234567890, ':');
    assert_eq!(out.into_iter().collect::<String>(), "x0;7:10;1234567890:");
}

#[test]
fn counts_are_read_up_to_their_mark() {
    assert_eq!(read_count(&to_chars("12;rest"), 0, ';'), Some((12, 3)));
    assert_eq!(read_count(&to_chars("ab007:"), 2, ':'), Some((7, 6)));
    assert_eq!(read_count(&to_chars("0;"), 0, ';'), Some((0, 2)));
    assert_eq!(read_count(&to_chars("18446744073709551615;"), 0, ';'), Some((u64::MAX, 21)));
    assert_eq!(read_count(&to_chars("18446744073709551616;"), 0, ';'), None);
    assert_eq!(read_count(&to_chars("99999999999999999999999;"), 0, ';'), None);
    assert_eq!(read_count(&to_chars("12:"), 0, ';'), None);
    assert_eq!(read_count(&to_chars("12"), 0, ';'), None);
    assert_eq!(read_count(&to_chars(";"), 0, ';'), None);
    assert_eq!(read_count(&to_chars(""), 0, ';'), None);
    assert_eq!(read_count(&to_chars("-1;"), 0, ';'), None);
}

#[test]
fn strings_carry_their_length() {
    let mut out = Vec::new();
    write_str(&mut out, &text("héllo"));
    write_str(&mut out, &text(""));
    write_str(&mut out, &text("3:x;"));
    assert_eq!(out.iter().collect::<String>(), "5:héllo0:4:3:x;");
    assert_eq!(read_str(&out, 0), Some((text("héllo"), 7)));
    assert_eq!(read_str(&out, 7), Some((text(""), 9)));
    assert_eq!(read_str(&out, 9), Some((text("3:x;"), 15)));
    assert_eq!(read_str(&out, 15), None);
    assert_eq!(read_str(&to_chars("4:abc"), 0), None);
    assert_eq!(read_str(&to_chars("3;abc"), 0), None);
}

#[test]
fn tables_are_written_field_by_field() {
    assert_eq!(chars_of(&Catalog::new()), "0;");
    assert_eq!(
        chars_of(&shop()),
        "2;5:users2;2:id1-4:name0-1;2;1:15:Alice6:orders1;7:user_id0+5:users2:id1;1;1:1"
    );
}

#[test]
fn written_tables_are_read_back() {
    let catalog = shop();
    let back = deserialize(&serialize(&catalog)).unwrap();
    assert!(same_tables(&back, &catalog));
    let empty = deserialize(&to_chars("0;")).unwrap();
    assert_eq!(empty.len(), 0);
}

#[test]
fn awkward_strings_are_read_back() {
    let mut catalog = Catalog::new();
    let names = ["", "7:x;", "1;2;3", "é漢字\u{1F600}", "a\nb\tc", "+-+", "0"];
    for (i, name) in names.iter().enumerate() {
        catalog.create_table(
            text(name),
            vec![
                Column { name: text(names[(i + 1) % names.len()]), is_primary_key: i % 2 == 0, foreign_key: None },
                Column {
                    name: text(name),
                    is_primary_key: false,
                    foreign_key: Some((text(names[(i + 2) % names.len()]), text(name))),
                },
            ],
        );
    }
    assert!(catalog.add_new(
        text("rows"),
        Table { columns: vec![Column::plain(text("a")), Column::plain(text("b"))], data: vec![row(&["", "12:"]), row(&["é", "1;"])] }
    ));
    let back = deserialize(&serialize(&catalog)).unwrap();
    assert!(same_tables(&back, &catalog));
}

#[test]
fn text_that_is_no_table_mapping_is_refused() {
    for bad in [
        "",
        "x",
        "1;",
        "0;x",
        "2;1:a0;0;",
        "1;1:a0;0;1:b0;0;",
        "1;1:a",
        "1;1:a0;",
        "1;1:a1;1:c0-",
        "1;1:a1;1:c2-0;",
        "1;1:a1;1:c0?0;",
        "1;1:a1;1:c0+1:t0;",
        "1;9:a0;0;",
        "99999999999999999999999;",
    ] {
        assert!(deserialize(&to_chars(bad)).is_none(), "{}", bad);
    }
}

#[test]
fn a_name_that_occurs_twice_is_refused() {
    assert!(deserialize(&to_chars("2;1:a0;0;1:b0;0;")).is_some());
    assert!(deserialize(&to_chars("2;1:a0;0;1:a0;0;")).is_none());
}

#[test]
fn rows_that_do_not_fit_their_columns_are_refused() {
    assert!(deserialize(&to_chars("1;1:t1;1:c0-1;1;1:x")).is_some());
    assert!(deserialize(&to_chars("1;1:t1;1:c0-1;2;1:x1:y")).is_none());
    assert!(deserialize(&to_chars("1;1:t1;1:c0-1;0;")).is_none());
}

#[test]
fn the_blob_is_the_nonce_and_what_the_cipher_made() {
    assert_eq!(NONCE_LEN, 12);
    assert_eq!(KEY_LEN, 32);
    let nonce = [7u8; 12];
    assert_eq!(frame(&nonce, Some(vec![1, 2, 3])), Ok(vec![7, 7, 7, 7, 7, 7, 7, 7, 7, 7, 7, 7, 1, 2, 3]));
    assert_eq!(frame(&nonce, Some(vec![])), Ok(vec![7; 12]));
    assert_eq!(frame(&nonce, None), Err(EngineError::Encryption));
}

#[test]
fn the_cipher_is_aes_256_gcm() {
    // key, nonce and sixteen bytes of plaintext all zero
    let blob = encrypt_with(&[0u8; 32], &[0u8; 12], &[0u8; 16]).unwrap();
    let expected: [u8; 32] = [
        0xce, 0xa7, 0x40, 0x3d, 0x4d, 0x60, 0x6b, 0x6e, 0x07, 0x4e, 0xc5, 0xd3, 0xba, 0xf3, 0x9d, 0x18, 0xd0, 0xd1,
        0xc8, 0xa7, 0x99, 0x99, 0x6b, 0xf0, 0x26, 0x5b, 0x98, 0xb5, 0xd4, 0x8a, 0xb9, 0x19,
    ];
    assert_eq!(&blob[..12], &[0u8; 12]);
    assert_eq!(&blob[12..], &expected);
    // no plaintext: the tag alone
    let blob = encrypt_with(&[0u8; 32], &[0u8; 12], &[]).unwrap();
    let tag: [u8; 16] =
        [0x53, 0x0f, 0x8a, 0xfb, 0xc7, 0x45, 0x36, 0xb9, 0xa9, 0x63, 0xb4, 0xf1, 0xc4, 0xcb, 0x73, 0x8b];
    assert_eq!(&blob[12..], &tag);
}

#[test]
fn what_is_encrypted_decrypts_under_the_same_key() {
    let key = [3u8; 32];
    let plaintext = b"the tables of a database".to_vec();
    let blob = encrypt(&key, &plaintext).unwrap();
    assert_eq!(blob.len(), 12 + plaintext.len() + 16);
    assert_ne!(&blob[12..12 + plaintext.len()], &plaintext[..]);
    assert_eq!(decrypt(&key, &blob), Ok(plaintext.clone()));
    assert_eq!(decrypt(&key, &encrypt(&key, &[]).unwrap()), Ok(vec![]));
    let fixed = encrypt_with(&key, &[9u8; 12], &plaintext).unwrap();
    assert_eq!(&fixed[..12], &[9u8; 12]);
    assert_eq!(decrypt(&key, &fixed), Ok(plaintext));
}

#[test]
fn every_blob_has_a_nonce_of_its_own() {
    let key = [3u8; 32];
    let first = encrypt(&key, b"same").unwrap();
    let second = encrypt(&key, b"same").unwrap();
    assert_ne!(&first[..12], &second[..12]);
    assert_ne!(first, second);
}

#[test]
fn what_was_changed_or_made_under_another_key_does_not_decrypt() {
    let key = [3u8; 32];
    let blob = encrypt(&key, b"secret").unwrap();
    assert_eq!(decrypt(&[4u8; 32], &blob), Err(EngineError::Decryption));
    let mut changed = blob.clone();
    changed[14] ^= 1;
    assert_eq!(decrypt(&key, &changed), Err(EngineError::Decryption));
    let mut other_nonce = blob.clone();
    other_nonce[0] ^= 1;
    assert_eq!(decrypt(&key, &other_nonce), Err(EngineError::Decryption));
    assert_eq!(decrypt(&key, &blob[..11]), Err(EngineError::Decryption));
    assert_eq!(decrypt(&key, &blob[..12]), Err(EngineError::Decryption));
    assert_eq!(decrypt(&key, &[]), Err(EngineError::Decryption));
}

#[test]
fn the_key_is_the_passphrase_cut_or_filled_to_32_bytes() {
    let data = b"payload".to_vec();
    let short = Database::new(text("a.hxn"), "abc", "UTF-8");
    let mut key = [0u8; 32];
    key[0] = b'a';
    key[1] = b'b';
    key[2] = b'c';
    assert_eq!(short.decrypt_data(&encrypt_with(&key, &[1u8; 12], &data).unwrap()), Ok(data.clone()));
    assert_eq!(decrypt(&key, &short.encrypt_data(&data).unwrap()), Ok(data.clone()));

    let long = Database::new(text("a.hxn"), "0123456789abcdef0123456789abcdefTAIL", "UTF-8");
    let cut = Database::new(text("a.hxn"), "0123456789abcdef0123456789abcdef", "UTF-8");
    assert_eq!(cut.decrypt_data(&long.encrypt_data(&data).unwrap()), Ok(data.clone()));
    assert_eq!(short.decrypt_data(&long.encrypt_data(&data).unwrap()), Err(EngineError::Decryption));

    // "é" is two bytes, 0xc3 0xa9
    let accent = Database::new(text("a.hxn"), "é", "UTF-8");
    let mut key = [0u8; 32];
    key[0] = 0xc3;
    key[1] = 0xa9;
    assert_eq!(accent.decrypt_data(&encrypt_with(&key, &[1u8; 12], &data).unwrap()), Ok(data.clone()));

    let empty = Database::new(text("a.hxn"), "", "UTF-8");
    assert_eq!(empty.decrypt_data(&encrypt_with(&[0u8; 32], &[1u8; 12], &data).unwrap()), Ok(data));
}

#[test]
fn the_image_of_a_database_decrypts_to_its_tables() {
    let mut db = Database::new(text("a.hxn"), "abc", "UTF-8");
    db.begin_transaction();
    db.execute_command("CREATE TABLE t (a);");
    let image = db.save_database().unwrap();
    assert_eq!(db.decrypt_data(&image), Ok(b"1;1:t1;1:a0-0;".to_vec()));
}

#[test]
fn the_bytes_of_tables_are_their_text_in_utf8() {
    let mut catalog = Catalog::new();
    catalog.create_table(text("é"), vec![]);
    assert_eq!(to_bytes(&catalog), "1;1:é0;0;".as_bytes().to_vec());
    assert_eq!(to_bytes(&Catalog::new()), b"0;".to_vec());
}

#[test]
fn decompressed_bytes_are_read_as_tables() {
    let back = from_bytes(Ok(to_bytes(&shop()))).unwrap();
    assert!(same_tables(&back, &shop()));
    assert_eq!(from_bytes(Err(text("the cause"))).err(), Some(EngineError::Decompression(text("the cause"))));
    let no_utf8 = EngineError::Decompression(text("stream did not contain valid UTF-8"));
    assert_eq!(from_bytes(Ok(vec![0xff, 0xfe])).err(), Some(no_utf8));
    let no_utf8 = EngineError::Decompression(text("stream did not contain valid UTF-8"));
    assert_eq!(from_bytes(Ok(vec![b'0', b';', 0xc3])).err(), Some(no_utf8));
    assert_eq!(from_bytes(Ok(b"nonsense".to_vec())).err(), Some(EngineError::Deserialization));
    assert_eq!(from_bytes(Ok(vec![])).err(), Some(EngineError::Deserialization));
    assert_eq!(from_bytes(Ok(b"{\"users\":{\"columns\":[],\"data\":[]}}".to_vec())).err(), Some(EngineError::Deserialization));
}

#[test]
fn a_backup_is_a_gzip_stream_of_the_tables() {
    let catalog = shop();
    let stream = pack(&catalog).unwrap();
    assert_eq!(&stream[..2], &[0x1f, 0x8b]);
    assert_ne!(stream, to_bytes(&catalog));
    let back = unpack(&stream).unwrap();
    assert!(same_tables(&back, &catalog));
    assert_eq!(pack(&catalog).unwrap(), stream);
}

#[test]
fn a_large_backup_is_smaller_than_its_text() {
    let mut catalog = Catalog::new();
    catalog.create_table(text("t"), vec![Column::plain(text("a"))]);
    for _ in 0..500 {
        catalog.insert_row(&text("t"), row(&["the same value again"])).unwrap();
    }
    let stream = pack(&catalog).unwrap();
    assert!(stream.len() < to_bytes(&catalog).len() / 4);
    assert!(same_tables(&unpack(&stream).unwrap(), &catalog));
}

#[test]
fn contents_that_are_no_backup_are_refused() {
    assert_eq!(
        unpack(b"plainly not gzip").err(),
        Some(EngineError::Decompression(text("invalid gzip header")))
    );
    assert!(matches!(unpack(&[]), Err(EngineError::Decompression(cause)) if !cause.is_empty()));
    let stream = pack(&shop()).unwrap();
    assert!(matches!(
        unpack(&stream[..stream.len() - 5]),
        Err(EngineError::Decompression(cause)) if !cause.is_empty()
    ));
    let mut changed = stream.clone();
    let last = changed.len() - 6;
    changed[last] ^= 0xff;
    assert_eq!(
        unpack(&changed).err(),
        Some(EngineError::Decompression(text("corrupt gzip stream does not have a matching checksum")))
    );
}

#[test]
fn a_restore_that_fails_says_why_and_changes_nothing() {
    let mut registry = Registry::new();
    registry.connect("db", "k").unwrap();
    registry.begin_transaction("db");
    registry.execute_command("db", "CREATE TABLE t (a);");
    let failed = Database::restore_backup("db", b"junk that is no gzip", &mut registry).unwrap_err();
    assert_eq!(failed, EngineError::Decompression(text("invalid gzip header")));
    assert_eq!(failed.message(), "Erro ao descompactar backup: invalid gzip header");

    let nonsense = {
        let mut encoder = flate2::write::GzEncoder::new(Vec::new(), flate2::Compression::default());
        encoder.write_all(b"{\"users\":{\"columns\":[],\"data\":[]}}").unwrap();
        encoder.finish().unwrap()
    };
    let failed = Database::restore_backup("db", &nonsense, &mut registry).unwrap_err();
    assert_eq!(failed, EngineError::Deserialization);
    assert_eq!(failed.message(), "Erro ao desserializar dados: o texto não é um mapeamento de tabelas");
    let no_utf8 = {
        let mut encoder = flate2::write::GzEncoder::new(Vec::new(), flate2::Compression::default());
        encoder.write_all(&[0xff, 0xfe]).unwrap();
        encoder.finish().unwrap()
    };
    let failed = Database::restore_backup("db", &no_utf8, &mut registry).unwrap_err();
    assert_eq!(failed.message(), "Erro ao descompactar backup: stream did not contain valid UTF-8");

    assert!(registry.get("db").unwrap().table("t").is_some());
    assert!(registry.get("db").unwrap().is_active());
    assert!(registry.contains("db"));
    assert!(!registry.contains("junk"));
}

#[test]
fn a_backup_is_named_after_the_database_and_the_time() {
    assert_eq!(backup_dir(), "backups");
    let made = Backup::assemble("db1", "20240102030405", Ok(vec![1, 2])).unwrap();
    assert_eq!(made, Backup { path: text("backups/db1_20240102030405.hxn.gz"), contents: vec![1, 2] });
    assert_eq!(made.message(), "Backup criado com sucesso: backups/db1_20240102030405.hxn.gz");
    assert_eq!(
        Backup::assemble("db1", "t", Err(EngineError::Compression(text("full")))),
        Err(EngineError::Compression(text("full")))
    );
    assert_eq!(
        Backup::assemble("db1", "t", Err(EngineError::BackupWrite(text("full")))),
        Err(EngineError::BackupWrite(text("full")))
    );
}
