//! Chunked, signed storage: a file is cut into chunks that are found again
//! by their SHA-256 hashes, listed in a textual manifest that can carry a
//! detached Ed25519 signature.
use vstd::prelude::*;
use vstd::utf8::{encode_utf8, valid_utf8};
use crate::crypto::{ed25519_public_key, ed25519_signature, ed25519_verifies, sha256_digest};
use crate::crypto::{derive_public_key, sha256_bytes, sign_bytes, verify_strict_bytes};
use crate::event::{hash_eq, PublicKey, Signature};
use crate::merkle::{hashes_view, merkle_root, spec_merkle_root};
use crate::text::{decimal, decimal_padded, hex_decode, hex_encode, is_hex_text, has_prefix};
use crate::text::{byte_strings, spec_parse_u64, split_lines};
use crate::text::{array_from_slice, bytes_eq, decimal_bytes, decimal_padded_bytes, hex_decode_bytes};
use crate::text::{hex_encode_bytes, parse_u64, split_lines_bytes, string_from_utf8, strip_prefix};

verus! {

/// The first line of every manifest: `dvel-manifest-v1`.
pub const MANIFEST_MAGIC: [u8; 16] = [100, 118, 101, 108, 45, 109, 97, 110, 105, 102, 101, 115, 116, 45, 118, 49];

/// `file_name:`
pub const KEY_FILE_NAME: [u8; 10] = [102, 105, 108, 101, 95, 110, 97, 109, 101, 58];

/// `total_size:`
pub const KEY_TOTAL_SIZE: [u8; 11] = [116, 111, 116, 97, 108, 95, 115, 105, 122, 101, 58];

/// `chunk_size:`
pub const KEY_CHUNK_SIZE: [u8; 11] = [99, 104, 117, 110, 107, 95, 115, 105, 122, 101, 58];

/// `chunks:`
pub const KEY_CHUNKS: [u8; 7] = [99, 104, 117, 110, 107, 115, 58];

/// `h:`
pub const KEY_HASH: [u8; 2] = [104, 58];

/// `signer:`
pub const KEY_SIGNER: [u8; 7] = [115, 105, 103, 110, 101, 114, 58];

/// `signature:`
pub const KEY_SIGNATURE: [u8; 10] = [115, 105, 103, 110, 97, 116, 117, 114, 101, 58];

/// `.chunk.`, between a file's name and a chunk's number.
pub const CHUNK_INFIX: [u8; 7] = [46, 99, 104, 117, 110, 107, 46];

/// `.manifest`, after a file's name.
pub const MANIFEST_SUFFIX: [u8; 9] = [46, 109, 97, 110, 105, 102, 101, 115, 116];

/// What can be wrong with a manifest or with the request to make one.
#[derive(Debug, Clone, Copy, PartialEq, Eq, Structural)]
pub enum ManifestFault {
    ZeroChunkSize,
    BadHex,
    LengthMismatch,
    UnknownLine,
    InvalidFileName,
    MissingFileName,
    MissingTotalSize,
    MissingChunkSize,
    ChunkCountMismatch,
    TotalSizeMismatch,
}

#[derive(Debug)]
pub enum StorageError {
    InvalidManifest(String),
    SignatureMissing,
    SignatureInvalid,
    HashMismatch { index: usize },
}

#[derive(Debug, Clone, Copy)]
pub struct ChunkMeta {
    pub hash: [u8; 32],
}

#[derive(Debug, Clone)]
pub struct Manifest {
    pub version: u8,
    pub file_name: String,
    pub total_size: u64,
    pub chunk_size: u64,
    pub chunks: Vec<ChunkMeta>,
    pub signer: Option<PublicKey>,
    pub signature: Option<Signature>,
}

/// A manifest as plain values: the file name as its UTF-8 bytes, the chunks
/// as their hashes.
pub struct ManifestView {
    pub version: u8,
    pub file_name: Seq<u8>,
    pub total_size: u64,
    pub chunk_size: u64,
    pub chunks: Seq<Seq<u8>>,
    pub signer: Option<Seq<u8>>,
    pub signature: Option<Seq<u8>>,
}

/// The hashes of a list of chunk entries.
pub open spec fn chunk_hashes(chunks: Seq<ChunkMeta>) -> Seq<Seq<u8>> {
    chunks.map_values(|c: ChunkMeta| c.hash@)
}

/// The bytes of an optional array.
pub open spec fn option_bytes<const N: usize>(value: Option<[u8; N]>) -> Option<Seq<u8>> {
    match value {
        Some(a) => Some(a@),
        None => None,
    }
}

impl View for Manifest {
    type V = ManifestView;

    open spec fn view(&self) -> ManifestView {
        ManifestView {
            version: self.version,
            file_name: encode_utf8(self.file_name@),
            total_size: self.total_size,
            chunk_size: self.chunk_size,
            chunks: chunk_hashes(self.chunks@),
            signer: option_bytes(self.signer),
            signature: option_bytes(self.signature),
        }
    }
}

impl ManifestFault {
    /// The message that an `InvalidManifest` error carries for this fault.
    pub open spec fn spec_message(self) -> Seq<char> {
        match self {
            ManifestFault::ZeroChunkSize => "chunk_size must be > 0"@,
            ManifestFault::BadHex => "bad hex"@,
            ManifestFault::LengthMismatch => "length mismatch"@,
            ManifestFault::UnknownLine => "unknown line"@,
            ManifestFault::InvalidFileName => "invalid file name"@,
            ManifestFault::MissingFileName => "missing file_name"@,
            ManifestFault::MissingTotalSize => "missing total_size"@,
            ManifestFault::MissingChunkSize => "missing chunk_size"@,
            ManifestFault::ChunkCountMismatch => "chunk count mismatch"@,
            ManifestFault::TotalSizeMismatch => "total_size mismatch"@,
        }
    }

    /// The error that reports this fault.
    pub fn error(self) -> (err: StorageError)
        ensures
            is_fault(err, self),
    {
        let msg = match self {
            ManifestFault::ZeroChunkSize => "chunk_size must be > 0".to_owned(),
            ManifestFault::BadHex => "bad hex".to_owned(),
            ManifestFault::LengthMismatch => "length mismatch".to_owned(),
            ManifestFault::UnknownLine => "unknown line".to_owned(),
            ManifestFault::InvalidFileName => "invalid file name".to_owned(),
            ManifestFault::MissingFileName => "missing file_name".to_owned(),
            ManifestFault::MissingTotalSize => "missing total_size".to_owned(),
            ManifestFault::MissingChunkSize => "missing chunk_size".to_owned(),
            ManifestFault::ChunkCountMismatch => "chunk count mismatch".to_owned(),
            ManifestFault::TotalSizeMismatch => "total_size mismatch".to_owned(),
        };
        StorageError::InvalidManifest(msg)
    }
}

/// Whether `err` is the `InvalidManifest` error that reports `fault`.
pub open spec fn is_fault(err: StorageError, fault: ManifestFault) -> bool {
    match err {
        StorageError::InvalidManifest(msg) => msg@ == fault.spec_message(),
        _ => false,
    }
}

/// A key, a value and a line feed.
pub open spec fn text_line(key: Seq<u8>, value: Seq<u8>) -> Seq<u8> {
    key + value + seq![10u8]
}

/// One `h:` line for each chunk hash, in order.
pub open spec fn chunk_lines(chunks: Seq<Seq<u8>>) -> Seq<u8>
    decreases chunks.len(),
{
    if chunks.len() == 0 {
        Seq::empty()
    } else {
        chunk_lines(chunks.drop_last()) + text_line(KEY_HASH@, hex_encode(chunks.last()))
    }
}

/// The canonical text of a manifest, which is what gets signed: the magic
/// line, the file's name, the two sizes, the number of chunks, and the
/// chunk hashes.
pub open spec fn spec_canonical_manifest(m: ManifestView) -> Seq<u8> {
    text_line(MANIFEST_MAGIC@, Seq::empty()) + text_line(KEY_FILE_NAME@, m.file_name) + text_line(
        KEY_TOTAL_SIZE@,
        decimal(m.total_size as nat),
    ) + text_line(KEY_CHUNK_SIZE@, decimal(m.chunk_size as nat)) + text_line(
        KEY_CHUNKS@,
        decimal(m.chunks.len()),
    ) + chunk_lines(m.chunks)
}

/// The text of a manifest as it is stored: the canonical text, then the
/// signer and the signature where they are present.
pub open spec fn spec_stored_manifest(m: ManifestView) -> Seq<u8> {
    spec_canonical_manifest(m) + (match m.signer {
        Some(k) => text_line(KEY_SIGNER@, hex_encode(k)),
        None => Seq::empty(),
    }) + (match m.signature {
        Some(s) => text_line(KEY_SIGNATURE@, hex_encode(s)),
        None => Seq::empty(),
    })
}

/// Appends a key, a value and a line feed.
fn push_line(out: &mut Vec<u8>, key: &[u8], value: &[u8])
    ensures
        final(out)@ == old(out)@ + text_line(key@, value@),
{
    out.extend_from_slice(key);
    out.extend_from_slice(value);
    out.push(10u8);
    assert(out@ =~= old(out)@ + text_line(key@, value@));
}

impl Manifest {
    /// The canonical (unsigned) text of the manifest.
    pub fn canonical_bytes(&self) -> (out: Vec<u8>)
        ensures
            out@ == spec_canonical_manifest(self@),
    {
        let mut out: Vec<u8> = Vec::new();
        let empty: Vec<u8> = Vec::new();
        push_line(&mut out, MANIFEST_MAGIC.as_slice(), empty.as_slice());
        push_line(&mut out, KEY_FILE_NAME.as_slice(), self.file_name.as_str().as_bytes());
        let total = decimal_bytes(self.total_size);
        push_line(&mut out, KEY_TOTAL_SIZE.as_slice(), total.as_slice());
        let size = decimal_bytes(self.chunk_size);
        push_line(&mut out, KEY_CHUNK_SIZE.as_slice(), size.as_slice());
        let count = decimal_bytes(self.chunks.len() as u64);
        push_line(&mut out, KEY_CHUNKS.as_slice(), count.as_slice());
        let ghost head = out@;
        let ghost hashes = chunk_hashes(self.chunks@);
        assert(empty@ =~= Seq::<u8>::empty());
        assert(hashes.subrange(0, 0) =~= Seq::<Seq<u8>>::empty());
        assert(out@ =~= head + chunk_lines(hashes.subrange(0, 0)));
        let mut i: usize = 0;
        while i < self.chunks.len()
            invariant
                i <= self.chunks@.len(),
                hashes == chunk_hashes(self.chunks@),
                out@ == head + chunk_lines(hashes.subrange(0, i as int)),
            decreases self.chunks@.len() - i,
        {
            let hex = hex_encode_bytes(self.chunks[i].hash.as_slice());
            push_line(&mut out, KEY_HASH.as_slice(), hex.as_slice());
            proof {
                let upto = hashes.subrange(0, i + 1);
                assert(upto.drop_last() =~= hashes.subrange(0, i as int));
                assert(upto.last() == self.chunks@[i as int].hash@);
                assert(out@ =~= head + chunk_lines(upto));
            }
            i += 1;
        }
        assert(hashes.subrange(0, i as int) =~= hashes);
        out
    }

    /// Hash of the canonical (unsigned) manifest bytes.
    pub fn hash(&self) -> (h: crate::event::Hash)
        ensures
            h@ == sha256_digest(spec_canonical_manifest(self@)),
    {
        let bytes = self.canonical_bytes();
        sha256_bytes(bytes.as_slice())
    }

    /// Merkle root over the chunk hashes, absent where there is no chunk.
    pub fn chunk_merkle_root(&self) -> (root: Option<crate::event::Hash>)
        ensures
            root.is_none() <==> self@.chunks.len() == 0,
            root.is_some() ==> Some(root.unwrap()@) == spec_merkle_root(self@.chunks),
    {
        let mut leaves: Vec<crate::event::Hash> = Vec::with_capacity(self.chunks.len());
        let mut i: usize = 0;
        while i < self.chunks.len()
            invariant
                i <= self.chunks@.len(),
                leaves@.len() == i,
                forall|k: int| 0 <= k < i ==> (#[trigger] leaves@[k])@ == self.chunks@[k].hash@,
            decreases self.chunks@.len() - i,
        {
            leaves.push(self.chunks[i].hash);
            i += 1;
        }
        assert(hashes_view(leaves@) =~= chunk_hashes(self.chunks@));
        merkle_root(&leaves)
    }

    /// The text of the manifest as it is stored, signer and signature
    /// included where present.
    pub fn to_string_with_signature(&self) -> (out: Vec<u8>)
        ensures
            out@ == spec_stored_manifest(self@),
    {
        let mut out = self.canonical_bytes();
        match &self.signer {
            Some(signer) => {
                let hex = hex_encode_bytes(signer.as_slice());
                push_line(&mut out, KEY_SIGNER.as_slice(), hex.as_slice());
            },
            None => {
                assert(out@ =~= out@ + Seq::<u8>::empty());
            },
        }
        let ghost mid = out@;
        match &self.signature {
            Some(sig) => {
                let hex = hex_encode_bytes(sig.as_slice());
                push_line(&mut out, KEY_SIGNATURE.as_slice(), hex.as_slice());
            },
            None => {
                assert(out@ =~= mid + Seq::<u8>::empty());
            },
        }
        out
    }
}

/// What has been read of a manifest so far.
pub struct ParseState {
    pub file_name: Option<String>,
    pub total_size: Option<u64>,
    pub chunk_size: Option<u64>,
    pub chunks: Vec<ChunkMeta>,
    pub signer: Option<PublicKey>,
    pub signature: Option<Signature>,
    pub declared_chunks: Option<u64>,
}

/// A `ParseState` as plain values.
pub struct ParseStateView {
    pub file_name: Option<Seq<u8>>,
    pub total_size: Option<u64>,
    pub chunk_size: Option<u64>,
    pub chunks: Seq<Seq<u8>>,
    pub signer: Option<Seq<u8>>,
    pub signature: Option<Seq<u8>>,
    pub declared_chunks: Option<u64>,
}

impl View for ParseState {
    type V = ParseStateView;

    open spec fn view(&self) -> ParseStateView {
        ParseStateView {
            file_name: match self.file_name {
                Some(name) => Some(encode_utf8(name@)),
                None => None,
            },
            total_size: self.total_size,
            chunk_size: self.chunk_size,
            chunks: chunk_hashes(self.chunks@),
            signer: option_bytes(self.signer),
            signature: option_bytes(self.signature),
            declared_chunks: self.declared_chunks,
        }
    }
}

/// The state before the first line.
pub open spec fn initial_state() -> ParseStateView {
    ParseStateView {
        file_name: None,
        total_size: None,
        chunk_size: None,
        chunks: Seq::empty(),
        signer: None,
        signature: None,
        declared_chunks: None,
    }
}

/// What follows a key of `n` bytes in a line.
pub open spec fn after_key(line: Seq<u8>, n: int) -> Seq<u8> {
    line.subrange(n, line.len() as int)
}

/// A field of `width` bytes written in hexadecimal.
pub open spec fn spec_hex_field(text: Seq<u8>, width: nat) -> Result<Seq<u8>, ManifestFault> {
    if !is_hex_text(text) {
        Err(ManifestFault::BadHex)
    } else if hex_decode(text).len() != width {
        Err(ManifestFault::LengthMismatch)
    } else {
        Ok(hex_decode(text))
    }
}

/// What one line does to the state. Empty lines and the magic line change
/// nothing; a line with a known key sets that key's field, or adds a chunk;
/// a number that cannot be read leaves its field unset; any other line is a
/// fault.
pub open spec fn spec_parse_line(st: ParseStateView, line: Seq<u8>) -> Result<
    ParseStateView,
    ManifestFault,
> {
    if line.len() == 0 || line == MANIFEST_MAGIC@ {
        Ok(st)
    } else if has_prefix(line, KEY_FILE_NAME@) {
        if valid_utf8(after_key(line, 10)) {
            Ok(ParseStateView { file_name: Some(after_key(line, 10)), ..st })
        } else {
            Err(ManifestFault::InvalidFileName)
        }
    } else if has_prefix(line, KEY_TOTAL_SIZE@) {
        Ok(ParseStateView { total_size: spec_parse_u64(after_key(line, 11)), ..st })
    } else if has_prefix(line, KEY_CHUNK_SIZE@) {
        Ok(ParseStateView { chunk_size: spec_parse_u64(after_key(line, 11)), ..st })
    } else if has_prefix(line, KEY_CHUNKS@) {
        Ok(ParseStateView { declared_chunks: spec_parse_u64(after_key(line, 7)), ..st })
    } else if has_prefix(line, KEY_HASH@) {
        match spec_hex_field(after_key(line, 2), 32) {
            Ok(h) => Ok(ParseStateView { chunks: st.chunks.push(h), ..st }),
            Err(f) => Err(f),
        }
    } else if has_prefix(line, KEY_SIGNER@) {
        match spec_hex_field(after_key(line, 7), 32) {
            Ok(k) => Ok(ParseStateView { signer: Some(k), ..st }),
            Err(f) => Err(f),
        }
    } else if has_prefix(line, KEY_SIGNATURE@) {
        match spec_hex_field(after_key(line, 10), 64) {
            Ok(g) => Ok(ParseStateView { signature: Some(g), ..st }),
            Err(f) => Err(f),
        }
    } else {
        Err(ManifestFault::UnknownLine)
    }
}

/// The lines taken in order; the first fault ends the reading.
pub open spec fn spec_parse_lines(st: ParseStateView, lines: Seq<Seq<u8>>) -> Result<
    ParseStateView,
    ManifestFault,
>
    decreases lines.len(),
{
    if lines.len() == 0 {
        Ok(st)
    } else {
        match spec_parse_line(st, lines[0]) {
            Ok(next) => spec_parse_lines(next, lines.drop_first()),
            Err(f) => Err(f),
        }
    }
}

/// The manifest that the state gives once all lines are read: the name and
/// the two sizes must have been set, and a declared number of chunks must
/// be the number of chunks read.
pub open spec fn spec_finish(st: ParseStateView) -> Result<ManifestView, ManifestFault> {
    if st.file_name.is_none() {
        Err(ManifestFault::MissingFileName)
    } else if st.total_size.is_none() {
        Err(ManifestFault::MissingTotalSize)
    } else if st.chunk_size.is_none() {
        Err(ManifestFault::MissingChunkSize)
    } else if st.declared_chunks.is_some() && st.declared_chunks.unwrap() != st.chunks.len() {
        Err(ManifestFault::ChunkCountMismatch)
    } else {
        Ok(
            ManifestView {
                version: 1,
                file_name: st.file_name.unwrap(),
                total_size: st.total_size.unwrap(),
                chunk_size: st.chunk_size.unwrap(),
                chunks: st.chunks,
                signer: st.signer,
                signature: st.signature,
            },
        )
    }
}

/// The manifest that a text stands for, or what is wrong with the text.
pub open spec fn spec_parse_manifest(text: Seq<u8>) -> Result<ManifestView, ManifestFault> {
    match spec_parse_lines(initial_state(), split_lines(text)) {
        Ok(st) => spec_finish(st),
        Err(f) => Err(f),
    }
}

/// Reads a field of `N` bytes written in hexadecimal.
pub fn hex_to_array<const N: usize>(text: &[u8]) -> (res: Result<[u8; N], StorageError>)
    ensures
        match (spec_hex_field(text@, N as nat), res) {
            (Ok(b), Ok(a)) => a@ == b,
            (Err(f), Err(e)) => is_fault(e, f),
            _ => false,
        },
{
    match hex_decode_bytes(text) {
        None => Err(ManifestFault::BadHex.error()),
        Some(bytes) => match array_from_slice::<N>(bytes.as_slice()) {
            None => Err(ManifestFault::LengthMismatch.error()),
            Some(a) => Ok(a),
        },
    }
}

/// Takes one line of a manifest into the state.
pub fn parse_line(st: ParseState, line: &[u8]) -> (res: Result<ParseState, StorageError>)
    ensures
        match (spec_parse_line(st@, line@), res) {
            (Ok(v), Ok(n)) => n@ == v,
            (Err(f), Err(e)) => is_fault(e, f),
            _ => false,
        },
{
    let mut st = st;
    let ghost before = st@;
    if line.len() == 0 || bytes_eq(line, MANIFEST_MAGIC.as_slice()) {
        return Ok(st);
    }
    match strip_prefix(line, KEY_FILE_NAME.as_slice()) {
        Some(rest) => {
            match string_from_utf8(rest) {
                Some(name) => {
                    st.file_name = Some(name);
                    return Ok(st);
                },
                None => {
                    return Err(ManifestFault::InvalidFileName.error());
                },
            }
        },
        None => {},
    }
    match strip_prefix(line, KEY_TOTAL_SIZE.as_slice()) {
        Some(rest) => {
            st.total_size = parse_u64(rest.as_slice());
            return Ok(st);
        },
        None => {},
    }
    match strip_prefix(line, KEY_CHUNK_SIZE.as_slice()) {
        Some(rest) => {
            st.chunk_size = parse_u64(rest.as_slice());
            return Ok(st);
        },
        None => {},
    }
    match strip_prefix(line, KEY_CHUNKS.as_slice()) {
        Some(rest) => {
            st.declared_chunks = parse_u64(rest.as_slice());
            return Ok(st);
        },
        None => {},
    }
    match strip_prefix(line, KEY_HASH.as_slice()) {
        Some(rest) => {
            match hex_to_array::<32>(rest.as_slice()) {
                Ok(hash) => {
                    st.chunks.push(ChunkMeta { hash });
                    assert(st@.chunks =~= before.chunks.push(hash@));
                    return Ok(st);
                },
                Err(e) => {
                    return Err(e);
                },
            }
        },
        None => {},
    }
    match strip_prefix(line, KEY_SIGNER.as_slice()) {
        Some(rest) => {
            match hex_to_array::<32>(rest.as_slice()) {
                Ok(key) => {
                    st.signer = Some(key);
                    return Ok(st);
                },
                Err(e) => {
                    return Err(e);
                },
            }
        },
        None => {},
    }
    match strip_prefix(line, KEY_SIGNATURE.as_slice()) {
        Some(rest) => {
            match hex_to_array::<64>(rest.as_slice()) {
                Ok(sig) => {
                    st.signature = Some(sig);
                    return Ok(st);
                },
                Err(e) => {
                    return Err(e);
                },
            }
        },
        None => {},
    }
    Err(ManifestFault::UnknownLine.error())
}

/// Makes the manifest out of the state that the last line left.
pub fn finish_manifest(st: ParseState) -> (res: Result<Manifest, StorageError>)
    ensures
        match (spec_finish(st@), res) {
            (Ok(v), Ok(m)) => m@ == v,
            (Err(f), Err(e)) => is_fault(e, f),
            _ => false,
        },
{
    let file_name = match st.file_name {
        Some(name) => name,
        None => {
            return Err(ManifestFault::MissingFileName.error());
        },
    };
    let total_size = match st.total_size {
        Some(n) => n,
        None => {
            return Err(ManifestFault::MissingTotalSize.error());
        },
    };
    let chunk_size = match st.chunk_size {
        Some(n) => n,
        None => {
            return Err(ManifestFault::MissingChunkSize.error());
        },
    };
    match st.declared_chunks {
        Some(n) => {
            if n != st.chunks.len() as u64 {
                return Err(ManifestFault::ChunkCountMismatch.error());
            }
        },
        None => {},
    }
    Ok(
        Manifest {
            version: 1,
            file_name,
            total_size,
            chunk_size,
            chunks: st.chunks,
            signer: st.signer,
            signature: st.signature,
        },
    )
}

/// Reads a manifest from its text. Succeeds exactly on the texts that
/// `spec_parse_manifest` accepts, and reports the first fault otherwise.
pub fn read_manifest(text: &[u8]) -> (res: Result<Manifest, StorageError>)
    ensures
        match (spec_parse_manifest(text@), res) {
            (Ok(v), Ok(m)) => m@ == v,
            (Err(f), Err(e)) => is_fault(e, f),
            _ => false,
        },
{
    let lines = split_lines_bytes(text);
    let mut st = ParseState {
        file_name: None,
        total_size: None,
        chunk_size: None,
        chunks: Vec::new(),
        signer: None,
        signature: None,
        declared_chunks: None,
    };
    assert(st@.chunks =~= Seq::<Seq<u8>>::empty());
    let ghost all = byte_strings(lines@);
    assert(all.subrange(0, all.len() as int) =~= all);
    let mut i: usize = 0;
    while i < lines.len()
        invariant
            i <= lines@.len(),
            all == byte_strings(lines@),
            all == split_lines(text@),
            spec_parse_lines(initial_state(), all) == spec_parse_lines(
                st@,
                all.subrange(i as int, all.len() as int),
            ),
        decreases lines@.len() - i,
    {
        let ghost rest = all.subrange(i as int, all.len() as int);
        let ghost cur = st@;
        proof {
            assert(rest[0] == lines@[i as int]@);
            assert(rest.drop_first() =~= all.subrange(i + 1, all.len() as int));
            assert(spec_parse_lines(cur, rest) == match spec_parse_line(cur, rest[0]) {
                Ok(next) => spec_parse_lines(next, rest.drop_first()),
                Err(f) => Err(f),
            });
        }
        match parse_line(st, lines[i].as_slice()) {
            Ok(next) => {
                st = next;
            },
            Err(e) => {
                return Err(e);
            },
        }
        i += 1;
    }
    finish_manifest(st)
}

/// The hash of the canonical text of the manifest that `text` stands for.
pub fn manifest_hash_from_file(text: &[u8]) -> (res: Result<crate::event::Hash, StorageError>)
    ensures
        match (spec_parse_manifest(text@), res) {
            (Ok(v), Ok(h)) => h@ == sha256_digest(spec_canonical_manifest(v)),
            (Err(f), Err(e)) => is_fault(e, f),
            _ => false,
        },
{
    match read_manifest(text) {
        Ok(m) => Ok(m.hash()),
        Err(e) => Err(e),
    }
}

/// The chunk Merkle root of the manifest that `text` stands for, absent
/// where it lists no chunk.
pub fn chunk_merkle_root_from_file(text: &[u8]) -> (res: Result<
    Option<crate::event::Hash>,
    StorageError,
>)
    ensures
        match (spec_parse_manifest(text@), res) {
            (Ok(v), Ok(root)) => option_bytes(root) == spec_merkle_root(v.chunks),
            (Err(f), Err(e)) => is_fault(e, f),
            _ => false,
        },
{
    match read_manifest(text) {
        Ok(m) => Ok(m.chunk_merkle_root()),
        Err(e) => Err(e),
    }
}

/// The verdict on a manifest's signature, given whether it verified.
pub open spec fn spec_signature_verdict(m: ManifestView, verified: bool) -> Result<
    (),
    StorageError,
> {
    if m.signer.is_none() || m.signature.is_none() {
        Err(StorageError::SignatureMissing)
    } else if !verified {
        Err(StorageError::SignatureInvalid)
    } else {
        Ok(())
    }
}

/// Whether the manifest's signature verifies strictly over its canonical
/// text under its signer; `false` where either is absent.
pub open spec fn manifest_signature_holds(m: ManifestView) -> bool {
    m.signer.is_some() && m.signature.is_some() && ed25519_verifies(
        m.signer.unwrap(),
        spec_canonical_manifest(m),
        m.signature.unwrap(),
    )
}

/// Signs the manifest in place: the signer becomes the public key of
/// `secret_key`, the signature that of the canonical text under it. Nothing
/// else changes, and signing always succeeds.
pub fn sign_manifest_inplace(manifest: &mut Manifest, secret_key: &[u8; 32]) -> (res: Result<
    (),
    StorageError,
>)
    ensures
        res.is_ok(),
        final(manifest)@ == (ManifestView {
            signer: Some(ed25519_public_key(secret_key@)),
            signature: Some(
                ed25519_signature(secret_key@, spec_canonical_manifest(old(manifest)@)),
            ),
            ..old(manifest)@
        }),
{
    let bytes = manifest.canonical_bytes();
    let key = match derive_public_key(secret_key) {
        Some(k) => k,
        None => {
            return Err(StorageError::SignatureInvalid);
        },
    };
    let sig = match sign_bytes(secret_key, bytes.as_slice()) {
        Some(s) => s,
        None => {
            return Err(StorageError::SignatureInvalid);
        },
    };
    manifest.signer = Some(key);
    manifest.signature = Some(sig);
    Ok(())
}

/// Decides on a manifest's signature once the check has been made.
pub fn signature_verdict(manifest: &Manifest, verified: bool) -> (res: Result<(), StorageError>)
    ensures
        res == spec_signature_verdict(manifest@, verified),
{
    if manifest.signer.is_none() || manifest.signature.is_none() {
        Err(StorageError::SignatureMissing)
    } else if !verified {
        Err(StorageError::SignatureInvalid)
    } else {
        Ok(())
    }
}

/// Verifies the manifest's signature: `SignatureMissing` where the signer
/// or the signature is absent, `SignatureInvalid` where the signature does
/// not verify strictly over the canonical text, and `Ok` otherwise.
pub fn verify_manifest_signature(manifest: &Manifest) -> (res: Result<(), StorageError>)
    ensures
        res == spec_signature_verdict(manifest@, manifest_signature_holds(manifest@)),
{
    let verified = match (&manifest.signer, &manifest.signature) {
        (Some(signer), Some(sig)) => {
            let bytes = manifest.canonical_bytes();
            verify_strict_bytes(signer, bytes.as_slice(), sig)
        },
        _ => false,
    };
    signature_verdict(manifest, verified)
}

/// The chunks of `data`: blocks of `size` bytes in order, the last one
/// shorter where the length is no multiple of `size`. No chunk is empty.
pub open spec fn split_chunks(data: Seq<u8>, size: nat) -> Seq<Seq<u8>>
    decreases data.len(),
{
    if data.len() == 0 || size == 0 {
        Seq::empty()
    } else if data.len() <= size {
        seq![data]
    } else {
        seq![data.subrange(0, size as int)] + split_chunks(
            data.subrange(size as int, data.len() as int),
            size,
        )
    }
}

/// The chunks joined in order.
pub open spec fn concat_chunks(chunks: Seq<Seq<u8>>) -> Seq<u8>
    decreases chunks.len(),
{
    if chunks.len() == 0 {
        Seq::empty()
    } else {
        concat_chunks(chunks.drop_last()) + chunks.last()
    }
}

/// The number of bytes in all chunks, held at the largest `u64` where it
/// would pass it.
pub open spec fn saturated_total(chunks: Seq<Seq<u8>>) -> u64 {
    if concat_chunks(chunks).len() > u64::MAX {
        u64::MAX
    } else {
        concat_chunks(chunks).len() as u64
    }
}

/// Whether chunk `i` has the hash that the manifest records for it.
pub open spec fn chunk_matches(m: ManifestView, chunks: Seq<Seq<u8>>, i: int) -> bool {
    sha256_digest(chunks[i]) == m.chunks[i]
}

/// Whether the first `n` chunks have the hashes that the manifest records.
pub open spec fn chunks_match_upto(m: ManifestView, chunks: Seq<Seq<u8>>, n: int) -> bool {
    forall|i: int| 0 <= i < n ==> chunk_matches(m, chunks, i)
}

/// Whether `m` and `chunks` are what chunking `data` under `file_name`
/// with blocks of `size` bytes gives.
pub open spec fn is_chunking(
    m: ManifestView,
    chunks: Seq<Seq<u8>>,
    file_name: Seq<u8>,
    data: Seq<u8>,
    size: nat,
) -> bool {
    &&& chunks == split_chunks(data, size)
    &&& m.version == 1
    &&& m.file_name == file_name
    &&& m.total_size == data.len()
    &&& m.chunk_size == size
    &&& m.signer.is_none()
    &&& m.signature.is_none()
    &&& m.chunks.len() == chunks.len()
    &&& chunks_match_upto(m, chunks, chunks.len() as int)
}

proof fn lemma_concat_front(first: Seq<u8>, rest: Seq<Seq<u8>>)
    ensures
        concat_chunks(seq![first] + rest) == first + concat_chunks(rest),
    decreases rest.len(),
{
    let all = seq![first] + rest;
    assert(concat_chunks(Seq::<Seq<u8>>::empty()) =~= Seq::<u8>::empty());
    if rest.len() == 0 {
        assert(rest =~= Seq::<Seq<u8>>::empty());
        assert(all.drop_last() =~= Seq::<Seq<u8>>::empty());
        assert(concat_chunks(all) =~= first + concat_chunks(rest));
    } else {
        lemma_concat_front(first, rest.drop_last());
        assert(all.drop_last() =~= seq![first] + rest.drop_last());
        assert(concat_chunks(all) =~= first + concat_chunks(rest));
    }
}

/// Joining the chunks of a byte string gives the byte string back.
pub proof fn lemma_split_then_concat(data: Seq<u8>, size: nat)
    requires
        size > 0,
    ensures
        concat_chunks(split_chunks(data, size)) == data,
    decreases data.len(),
{
    if data.len() == 0 {
        assert(concat_chunks(split_chunks(data, size)) =~= data);
    } else if data.len() <= size {
        assert(concat_chunks(Seq::<Seq<u8>>::empty()) =~= Seq::<u8>::empty());
        assert(seq![data].drop_last() =~= Seq::<Seq<u8>>::empty());
        assert(concat_chunks(seq![data]) =~= data);
    } else {
        let rest = data.subrange(size as int, data.len() as int);
        lemma_split_then_concat(rest, size);
        lemma_concat_front(data.subrange(0, size as int), split_chunks(rest, size));
        assert(data.subrange(0, size as int) + rest =~= data);
    }
}

/// What chunking gives passes verification and joins back to the data:
/// every chunk has its recorded hash, the sizes add up to the recorded
/// total, and the chunks in order are the data.
pub proof fn lemma_chunk_round_trip(
    m: ManifestView,
    chunks: Seq<Seq<u8>>,
    file_name: Seq<u8>,
    data: Seq<u8>,
    size: nat,
)
    requires
        size > 0,
        data.len() <= u64::MAX,
        is_chunking(m, chunks, file_name, data, size),
    ensures
        chunks_match_upto(m, chunks, chunks.len() as int),
        saturated_total(chunks) == m.total_size,
        concat_chunks(chunks) == data,
{
    lemma_split_then_concat(data, size);
}

/// Cuts `data` into chunks of `chunk_size` bytes and makes the unsigned
/// manifest that lists their hashes. Fails, with `InvalidManifest`, exactly
/// where `chunk_size` is 0.
pub fn chunk_bytes(file_name: &str, data: &[u8], chunk_size: usize) -> (res: Result<
    (Manifest, Vec<Vec<u8>>),
    StorageError,
>)
    ensures
        match res {
            Ok((m, chunks)) => chunk_size > 0 && is_chunking(
                m@,
                byte_strings(chunks@),
                encode_utf8(file_name@),
                data@,
                chunk_size as nat,
            ),
            Err(e) => chunk_size == 0 && is_fault(e, ManifestFault::ZeroChunkSize),
        },
{
    if chunk_size == 0 {
        return Err(ManifestFault::ZeroChunkSize.error());
    }
    let mut metas: Vec<ChunkMeta> = Vec::new();
    let mut chunks: Vec<Vec<u8>> = Vec::new();
    let mut pos: usize = 0;
    assert(byte_strings(chunks@) =~= Seq::<Seq<u8>>::empty());
    assert(data@.subrange(0, data@.len() as int) =~= data@);
    while pos < data.len()
        invariant
            chunk_size > 0,
            pos <= data@.len(),
            metas@.len() == chunks@.len(),
            forall|k: int|
                0 <= k < chunks@.len() ==> (#[trigger] metas@[k]).hash@ == sha256_digest(
                    chunks@[k]@,
                ),
            split_chunks(data@, chunk_size as nat) == byte_strings(chunks@) + split_chunks(
                data@.subrange(pos as int, data@.len() as int),
                chunk_size as nat,
            ),
        decreases data@.len() - pos,
    {
        let left = data.len() - pos;
        let n: usize = if left <= chunk_size {
            left
        } else {
            chunk_size
        };
        let mut block: Vec<u8> = Vec::with_capacity(n);
        let mut k: usize = 0;
        while k < n
            invariant
                pos + n <= data@.len() <= usize::MAX,
                k <= n,
                block@ == data@.subrange(pos as int, pos + k),
            decreases n - k,
        {
            block.push(data[pos + k]);
            assert(block@ =~= data@.subrange(pos as int, pos + k + 1));
            k += 1;
        }
        let hash = sha256_bytes(block.as_slice());
        let ghost before = byte_strings(chunks@);
        let ghost rest = data@.subrange(pos as int, data@.len() as int);
        proof {
            assert(block@ =~= rest.subrange(0, n as int));
            assert(rest.subrange(n as int, rest.len() as int) =~= data@.subrange(
                pos + n,
                data@.len() as int,
            ));
            if left <= chunk_size {
                assert(block@ =~= rest);
                assert(split_chunks(data@.subrange(pos + n, data@.len() as int), chunk_size as nat)
                    =~= Seq::<Seq<u8>>::empty());
            }
            assert(split_chunks(rest, chunk_size as nat) =~= seq![block@] + split_chunks(
                data@.subrange(pos + n, data@.len() as int),
                chunk_size as nat,
            ));
        }
        metas.push(ChunkMeta { hash });
        chunks.push(block);
        proof {
            assert(byte_strings(chunks@) =~= before.push(block@));
            assert(split_chunks(data@, chunk_size as nat) =~= byte_strings(chunks@) + split_chunks(
                data@.subrange(pos + n, data@.len() as int),
                chunk_size as nat,
            ));
        }
        pos = pos + n;
    }
    let manifest = Manifest {
        version: 1,
        file_name: file_name.to_owned(),
        total_size: data.len() as u64,
        chunk_size: chunk_size as u64,
        chunks: metas,
        signer: None,
        signature: None,
    };
    proof {
        assert(split_chunks(data@.subrange(pos as int, data@.len() as int), chunk_size as nat)
            =~= Seq::<Seq<u8>>::empty());
        assert(byte_strings(chunks@) =~= split_chunks(data@, chunk_size as nat));
    }
    Ok((manifest, chunks))
}

/// Whether `data` has the hash that the manifest records at `index`.
pub fn check_chunk(manifest: &Manifest, index: usize, data: &[u8]) -> (ok: bool)
    requires
        index < manifest@.chunks.len(),
    ensures
        ok == (sha256_digest(data@) == manifest@.chunks[index as int]),
{
    let hash = sha256_bytes(data);
    hash_eq(&hash, &manifest.chunks[index].hash)
}

/// Verifies the chunks, one for each entry of the manifest and in its
/// order. Fails with `HashMismatch` at the first chunk whose hash is not the
/// recorded one; where all agree, fails with `InvalidManifest` if their
/// sizes do not add up to the recorded total.
pub fn verify_chunks(manifest: &Manifest, chunks: &Vec<Vec<u8>>) -> (res: Result<(), StorageError>)
    requires
        chunks@.len() == manifest@.chunks.len(),
    ensures
        match res {
            Ok(_) => {
                &&& chunks_match_upto(manifest@, byte_strings(chunks@), chunks@.len() as int)
                &&& saturated_total(byte_strings(chunks@)) == manifest@.total_size
            },
            Err(StorageError::HashMismatch { index }) => {
                &&& index < chunks@.len()
                &&& chunks_match_upto(manifest@, byte_strings(chunks@), index as int)
                &&& !chunk_matches(manifest@, byte_strings(chunks@), index as int)
            },
            Err(e) => {
                &&& is_fault(e, ManifestFault::TotalSizeMismatch)
                &&& chunks_match_upto(manifest@, byte_strings(chunks@), chunks@.len() as int)
                &&& saturated_total(byte_strings(chunks@)) != manifest@.total_size
            },
        },
{
    let ghost all = byte_strings(chunks@);
    let mut total: u64 = 0;
    let mut i: usize = 0;
    assert(all.subrange(0, 0) =~= Seq::<Seq<u8>>::empty());
    while i < chunks.len()
        invariant
            i <= chunks@.len(),
            chunks@.len() == manifest@.chunks.len(),
            all == byte_strings(chunks@),
            chunks_match_upto(manifest@, all, i as int),
            total == saturated_total(all.subrange(0, i as int)),
        decreases chunks@.len() - i,
    {
        let ok = check_chunk(manifest, i, chunks[i].as_slice());
        let size = chunks[i].len() as u64;
        proof {
            let upto = all.subrange(0, i + 1);
            assert(upto.drop_last() =~= all.subrange(0, i as int));
            assert(upto.last() == chunks@[i as int]@);
        }
        total = if total > u64::MAX - size {
            u64::MAX
        } else {
            total + size
        };
        if !ok {
            return Err(StorageError::HashMismatch { index: i });
        }
        i += 1;
    }
    assert(all.subrange(0, i as int) =~= all);
    if total != manifest.total_size {
        return Err(ManifestFault::TotalSizeMismatch.error());
    }
    Ok(())
}

/// Joins the chunks, one for each entry of the manifest and in its order,
/// checking each against its recorded hash first. Fails with `HashMismatch`
/// at the first chunk whose hash is not the recorded one.
pub fn reassemble(manifest: &Manifest, chunks: &Vec<Vec<u8>>) -> (res: Result<
    Vec<u8>,
    StorageError,
>)
    requires
        chunks@.len() == manifest@.chunks.len(),
    ensures
        match res {
            Ok(out) => {
                &&& chunks_match_upto(manifest@, byte_strings(chunks@), chunks@.len() as int)
                &&& out@ == concat_chunks(byte_strings(chunks@))
            },
            Err(StorageError::HashMismatch { index }) => {
                &&& index < chunks@.len()
                &&& chunks_match_upto(manifest@, byte_strings(chunks@), index as int)
                &&& !chunk_matches(manifest@, byte_strings(chunks@), index as int)
            },
            Err(_) => false,
        },
{
    let ghost all = byte_strings(chunks@);
    let mut out: Vec<u8> = Vec::new();
    let mut i: usize = 0;
    assert(all.subrange(0, 0) =~= Seq::<Seq<u8>>::empty());
    while i < chunks.len()
        invariant
            i <= chunks@.len(),
            chunks@.len() == manifest@.chunks.len(),
            all == byte_strings(chunks@),
            chunks_match_upto(manifest@, all, i as int),
            out@ == concat_chunks(all.subrange(0, i as int)),
        decreases chunks@.len() - i,
    {
        if !check_chunk(manifest, i, chunks[i].as_slice()) {
            return Err(StorageError::HashMismatch { index: i });
        }
        out.extend_from_slice(chunks[i].as_slice());
        proof {
            let upto = all.subrange(0, i + 1);
            assert(upto.drop_last() =~= all.subrange(0, i as int));
            assert(upto.last() == chunks@[i as int]@);
        }
        i += 1;
    }
    assert(all.subrange(0, i as int) =~= all);
    Ok(out)
}

/// The name of the file that holds chunk `index` of `file_name`: the
/// file's name, `.chunk.`, and the index in decimal, padded with zeros to 8
/// digits.
pub fn chunk_filename(file_name: &str, index: usize) -> (out: Vec<u8>)
    ensures
        out@ == encode_utf8(file_name@) + CHUNK_INFIX@ + decimal_padded(index as nat),
{
    let mut out: Vec<u8> = Vec::new();
    out.extend_from_slice(file_name.as_bytes());
    out.extend_from_slice(CHUNK_INFIX.as_slice());
    let number = decimal_padded_bytes(index);
    out.extend_from_slice(number.as_slice());
    assert(out@ =~= encode_utf8(file_name@) + CHUNK_INFIX@ + decimal_padded(index as nat));
    out
}

/// The name of the file that holds the manifest of `file_name`: the file's
/// name and `.manifest`.
pub fn manifest_filename(file_name: &str) -> (out: Vec<u8>)
    ensures
        out@ == encode_utf8(file_name@) + MANIFEST_SUFFIX@,
{
    let mut out: Vec<u8> = Vec::new();
    out.extend_from_slice(file_name.as_bytes());
    out.extend_from_slice(MANIFEST_SUFFIX.as_slice());
    assert(out@ =~= encode_utf8(file_name@) + MANIFEST_SUFFIX@);
    out
}

/// `name` put under the directory `dir`: `name` alone where `dir` is empty
/// or `name` starts with `/`; otherwise `dir`, a `/` unless `dir` ends with
/// one, and `name`.
pub open spec fn join_path(dir: Seq<u8>, name: Seq<u8>) -> Seq<u8> {
    if dir.len() == 0 || (name.len() > 0 && name[0] == 47) {
        name
    } else if dir.last() == 47 {
        dir + name
    } else {
        dir + seq![47u8] + name
    }
}

/// Puts `name` under the directory `dir`.
pub fn join_path_bytes(dir: &[u8], name: &[u8]) -> (out: Vec<u8>)
    ensures
        out@ == join_path(dir@, name@),
{
    let mut out: Vec<u8> = Vec::new();
    if dir.len() == 0 || (name.len() > 0 && name[0] == 47) {
        out.extend_from_slice(name);
        assert(out@ =~= name@);
    } else if dir[dir.len() - 1] == 47 {
        out.extend_from_slice(dir);
        out.extend_from_slice(name);
    } else {
        out.extend_from_slice(dir);
        out.push(47u8);
        out.extend_from_slice(name);
    }
    out
}

/// Where the manifest of `file_name` lies under `dir`.
pub fn manifest_path(dir: &str, file_name: &str) -> (out: Vec<u8>)
    ensures
        out@ == join_path(encode_utf8(dir@), encode_utf8(file_name@) + MANIFEST_SUFFIX@),
{
    let name = manifest_filename(file_name);
    join_path_bytes(dir.as_bytes(), name.as_slice())
}

/// Where chunk `index` of `file_name` lies under `dir`.
pub fn chunk_path(dir: &str, file_name: &str, index: usize) -> (out: Vec<u8>)
    ensures
        out@ == join_path(
            encode_utf8(dir@),
            encode_utf8(file_name@) + CHUNK_INFIX@ + decimal_padded(index as nat),
        ),
{
    let name = chunk_filename(file_name, index);
    join_path_bytes(dir.as_bytes(), name.as_slice())
}

} // verus!
