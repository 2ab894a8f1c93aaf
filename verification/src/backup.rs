//! The backup of a table mapping: its text, as UTF-8, compressed.

use vstd::prelude::*;
use vstd::utf8::{decode_utf8, encode_utf8, valid_utf8};
use crate::catalog::{Catalog, Listing};
use crate::codec::{deserialize, deserialized, fits, lemma_round_trip, rows_fit, serialize, serialized};
use crate::error::{EngineError, ErrorView};
use crate::gzip::{compress, decompress, gunzipped, gzipped};
use crate::text::{string_from_utf8, to_chars, to_string};

verus! {

/// A backup that is ready to be written: the path of its file and the bytes
/// that the file is to hold.
#[derive(Debug, PartialEq, Eq)]
pub struct Backup {
    pub path: String,
    pub contents: Vec<u8>,
}

/// The directory that backups are kept in.
pub open spec fn backup_directory() -> Seq<char> {
    "backups"@
}

/// The path of the backup of `db_name` that is made at `timestamp`.
pub open spec fn backup_path(db_name: Seq<char>, timestamp: Seq<char>) -> Seq<char> {
    backup_directory() + "/"@ + db_name + "_"@ + timestamp + ".hxn.gz"@
}

/// The bytes of a table mapping before they are compressed.
pub open spec fn plain_bytes(listing: Listing) -> Seq<u8> {
    encode_utf8(serialized(listing))
}

/// The cause that is given where decompressed bytes are no UTF-8.
pub open spec fn no_utf8() -> Seq<char> {
    "stream did not contain valid UTF-8"@
}

/// The table mapping that decompressed bytes hold. Bytes that could not be
/// decompressed, or that are no UTF-8, are an error of decompression, with
/// the cause; text that is no table mapping is an error of deserialization.
pub open spec fn read_plain(plain: Result<Seq<u8>, Seq<char>>) -> Result<Listing, ErrorView> {
    match plain {
        Ok(bytes) => if valid_utf8(bytes) {
            match deserialized(decode_utf8(bytes)) {
                Some(listing) => Ok(listing),
                None => Err(ErrorView::Deserialization),
            }
        } else {
            Err(ErrorView::Decompression(no_utf8()))
        },
        Err(cause) => Err(ErrorView::Decompression(cause)),
    }
}

/// What decompressed bytes, or the cause for which there are none, mean in
/// contracts.
pub open spec fn plain_view(plain: Result<Vec<u8>, String>) -> Result<Seq<u8>, Seq<char>> {
    match plain {
        Ok(bytes) => Ok(bytes@),
        Err(cause) => Err(cause@),
    }
}

/// The table mapping that the contents of a backup file hold.
pub open spec fn unpacked(contents: Seq<u8>) -> Result<Listing, ErrorView> {
    read_plain(gunzipped(contents))
}

/// The text that reports a backup that was written.
pub open spec fn backup_message(path: Seq<char>) -> Seq<char> {
    "Backup criado com sucesso: "@ + path
}

/// The text that reports a backup that was restored.
pub open spec fn restore_message(db_name: Seq<char>) -> Seq<char> {
    "Backup restaurado com sucesso para '"@ + db_name + "'."@
}

/// The bytes of a table mapping read back give the mapping: every name with
/// its table, columns and rows, in the same order.
pub proof fn lemma_plain_round_trip(listing: Listing)
    requires
        fits(listing),
        crate::named::distinct_names(listing),
        rows_fit(listing),
    ensures
        read_plain(Ok(plain_bytes(listing))) == Ok::<Listing, ErrorView>(listing),
{
    vstd::utf8::encode_utf8_valid_utf8(serialized(listing));
    vstd::utf8::encode_utf8_decode_utf8(serialized(listing));
    lemma_round_trip(listing);
}

/// The directory that backups are kept in.
pub fn backup_dir() -> (dir: &'static str)
    ensures
        dir@ == backup_directory(),
{
    "backups"
}

/// The bytes of the tables of `catalog`, not yet compressed.
pub fn to_bytes(catalog: &Catalog) -> (bytes: Vec<u8>)
    ensures
        bytes@ == plain_bytes(catalog.listing()),
        fits(catalog.listing()),
{
    let text = to_string(&serialize(catalog));
    text.as_str().as_bytes_vec()
}

/// The tables that decompressed bytes hold; an error where there are no
/// bytes but a cause, where the bytes are no UTF-8, or where the text is no
/// table mapping.
pub fn from_bytes(plain: Result<Vec<u8>, String>) -> (found: Result<Catalog, EngineError>)
    ensures
        match read_plain(plain_view(plain)) {
            Ok(listing) => found is Ok && found->Ok_0.wf() && found->Ok_0.listing() == listing,
            Err(error) => found is Err && found->Err_0@ == error,
        },
{
    let bytes = match plain {
        Ok(bytes) => bytes,
        Err(cause) => {
            return Err(EngineError::Decompression(cause));
        },
    };
    let text = match string_from_utf8(bytes) {
        Some(text) => text,
        None => {
            return Err(EngineError::Decompression(String::from_str("stream did not contain valid UTF-8")));
        },
    };
    match deserialize(&to_chars(text.as_str())) {
        Some(catalog) => Ok(catalog),
        None => Err(EngineError::Deserialization),
    }
}

impl Backup {
    /// The backup of `db_name` at `timestamp`, given what the compressor made
    /// of its tables: the compressor's error where it made nothing.
    pub fn assemble(db_name: &str, timestamp: &str, stream: Result<Vec<u8>, EngineError>) -> (backup: Result<
        Backup,
        EngineError,
    >)
        ensures
            match stream {
                Ok(bytes) => backup is Ok && backup->Ok_0.path@ == backup_path(db_name@, timestamp@)
                    && backup->Ok_0.contents@ == bytes@,
                Err(error) => backup is Err && backup->Err_0@ == error@,
            },
    {
        match stream {
            Ok(contents) => {
                let mut path = String::from_str(backup_dir());
                path.append("/");
                path.append(db_name);
                path.append("_");
                path.append(timestamp);
                path.append(".hxn.gz");
                Ok(Backup { path, contents })
            },
            Err(error) => Err(error),
        }
    }

    /// The text that reports the backup, once its file is written.
    pub fn message(&self) -> (text: String)
        ensures
            text@ == backup_message(self.path@),
    {
        let mut text = String::from_str("Backup criado com sucesso: ");
        text.append(self.path.as_str());
        text
    }
}

/// The contents of a backup file for the tables of `catalog`. [`unpack`]
/// reads the same tables out of them. Fails where the compressor fails, with
/// its error.
pub fn pack(catalog: &Catalog) -> (stream: Result<Vec<u8>, EngineError>)
    requires
        catalog.wf(),
    ensures
        match stream {
            Ok(contents) => gzipped(plain_bytes(catalog.listing())) == Some(contents@) && unpacked(contents@)
                == Ok::<Listing, ErrorView>(catalog.listing()),
            Err(error) => gzipped(plain_bytes(catalog.listing())) is None && (error is BackupWrite || error
                is Compression),
        },
{
    let bytes = to_bytes(catalog);
    proof {
        lemma_plain_round_trip(catalog.listing());
    }
    compress(bytes.as_slice())
}

/// The tables that the contents of a backup file hold.
pub fn unpack(contents: &[u8]) -> (found: Result<Catalog, EngineError>)
    ensures
        match unpacked(contents@) {
            Ok(listing) => found is Ok && found->Ok_0.wf() && found->Ok_0.listing() == listing,
            Err(error) => found is Err && found->Err_0@ == error,
        },
{
    from_bytes(decompress(contents))
}

} // verus!
