//! Laws of the manifest's text: what is written is what is read back, and
//! two manifests with the same canonical text agree in every field that the
//! text carries.
use vstd::prelude::*;
use crate::text::{decimal, digits_value, hex_decode, hex_digit, hex_encode, hex_value};
use crate::text::{is_hex_text, line_end, lines_from, spec_parse_u64, split_lines, strip_return};
use crate::text::{has_prefix, unsigned_digits};
use crate::storage::{after_key, chunk_lines, initial_state, spec_canonical_manifest, spec_finish};
use crate::storage::{spec_hex_field, spec_parse_line, spec_parse_lines, spec_parse_manifest};
use crate::storage::{spec_stored_manifest, text_line, ManifestFault, ManifestView};
use crate::storage::ParseStateView;
use crate::storage::{KEY_CHUNKS, KEY_CHUNK_SIZE, KEY_FILE_NAME, KEY_HASH, KEY_SIGNATURE};
use crate::storage::{KEY_SIGNER, KEY_TOTAL_SIZE, MANIFEST_MAGIC};
use vstd::utf8::valid_utf8;

verus! {

/// A text that is empty or ends with a line feed.
pub open spec fn ends_line(text: Seq<u8>) -> bool {
    text.len() == 0 || text.last() == 10
}

/// A line's content: no line feed in it, and no carriage return at its end.
pub open spec fn is_line_body(body: Seq<u8>) -> bool {
    (forall|k: int| 0 <= k < body.len() ==> body[k] != 10) && (body.len() == 0 || body.last()
        != 13)
}

/// A line ends within the text, at the first line feed from its start on.
pub proof fn lemma_line_end_bounds(text: Seq<u8>, i: int)
    requires
        0 <= i <= text.len(),
    ensures
        i <= line_end(text, i) <= text.len(),
        line_end(text, i) < text.len() ==> text[line_end(text, i)] == 10,
        forall|k: int| i <= k < line_end(text, i) ==> text[k] != 10,
    decreases text.len() - i,
{
    if i < text.len() && text[i] != 10 {
        lemma_line_end_bounds(text, i + 1);
    }
}

/// A line that ends within a text ends at the same place when more text
/// follows.
pub proof fn lemma_line_end_prefix(a: Seq<u8>, b: Seq<u8>, i: int)
    requires
        0 <= i <= a.len(),
        line_end(a, i) < a.len(),
    ensures
        line_end(a + b, i) == line_end(a, i),
    decreases a.len() - i,
{
    if i < a.len() {
        assert((a + b)[i] == a[i]);
        if a[i] != 10 {
            lemma_line_end_bounds(a, i + 1);
            lemma_line_end_prefix(a, b, i + 1);
        }
    }
}

/// Text in front moves the end of a line by its length.
pub proof fn lemma_line_end_shift(a: Seq<u8>, b: Seq<u8>, j: int)
    requires
        0 <= j <= b.len(),
    ensures
        line_end(a + b, a.len() + j) == a.len() + line_end(b, j),
    decreases b.len() - j,
{
    if j < b.len() {
        assert((a + b)[a.len() + j] == b[j]);
        if b[j] != 10 {
            lemma_line_end_shift(a, b, j + 1);
        }
    }
}

/// Text in front does not change the lines that follow it.
pub proof fn lemma_lines_shift(a: Seq<u8>, b: Seq<u8>, j: int)
    requires
        0 <= j <= b.len(),
    ensures
        lines_from(a + b, a.len() + j) == lines_from(b, j),
    decreases b.len() - j,
{
    if j < b.len() {
        lemma_line_end_shift(a, b, j);
        lemma_line_end_bounds(b, j);
        let e = line_end(b, j);
        assert((a + b).subrange(a.len() + j, a.len() + e) =~= b.subrange(j, e));
        if e < b.len() {
            lemma_lines_shift(a, b, e + 1);
        }
    }
}

/// The lines of two texts joined are the lines of the first and then those
/// of the second, where the first ends with a line feed.
pub proof fn lemma_lines_concat(a: Seq<u8>, b: Seq<u8>, i: int)
    requires
        ends_line(a),
        0 <= i <= a.len(),
    ensures
        lines_from(a + b, i) == lines_from(a, i) + lines_from(b, 0),
    decreases a.len() - i,
{
    if i == a.len() {
        lemma_lines_shift(a, b, 0);
        assert(lines_from(a, i) =~= Seq::<Seq<u8>>::empty());
        assert(lines_from(a + b, i) =~= lines_from(a, i) + lines_from(b, 0));
    } else {
        lemma_line_end_bounds(a, i);
        let e = line_end(a, i);
        assert(e < a.len()) by {
            if e == a.len() {
                assert(a[a.len() - 1] != 10);
            }
        }
        lemma_line_end_prefix(a, b, i);
        assert((a + b).subrange(i, e) =~= a.subrange(i, e));
        lemma_lines_concat(a, b, e + 1);
        assert(lines_from(a + b, i) =~= lines_from(a, i) + lines_from(b, 0));
    }
}

/// A line's content followed by a line feed is one line.
pub proof fn lemma_single_line(body: Seq<u8>)
    requires
        is_line_body(body),
    ensures
        split_lines(body + seq![10u8]) == seq![body],
        ends_line(body + seq![10u8]),
{
    let text = body + seq![10u8];
    lemma_line_end_bounds(text, 0);
    let e = line_end(text, 0);
    assert(text[body.len() as int] == 10);
    assert(e == body.len()) by {
        if e < body.len() {
            assert(text[e] == body[e]);
        }
    }
    assert(text.subrange(0, e) =~= body);
    assert(strip_return(body, true) == body);
    assert(lines_from(text, e + 1) =~= Seq::<Seq<u8>>::empty());
    assert(lines_from(text, 0) =~= seq![body]);
}

/// The decimal digits of a number are digits, and read back as the number.
pub proof fn lemma_decimal_round_trip(n: nat)
    ensures
        decimal(n).len() >= 1,
        forall|k: int| 0 <= k < decimal(n).len() ==> 48 <= #[trigger] decimal(n)[k] <= 57,
        digits_value(decimal(n)) == Some(n),
    decreases n,
{
    if n < 10 {
        let d = decimal(n);
        assert(d.drop_last() =~= Seq::<u8>::empty());
        assert(digits_value(d.drop_last()) == Some(0nat));
    } else {
        lemma_decimal_round_trip(n / 10);
        let d = decimal(n);
        assert(d.drop_last() =~= decimal(n / 10));
        assert(d.last() == (48 + n % 10) as u8);
    }
}

/// A number written in decimal parses as itself.
pub proof fn lemma_parse_decimal(n: u64)
    ensures
        spec_parse_u64(decimal(n as nat)) == Some(n),
        is_line_body(decimal(n as nat)),
        decimal(n as nat).len() >= 1,
{
    lemma_decimal_round_trip(n as nat);
    let d = decimal(n as nat);
    assert(48 <= d[0] <= 57);
    assert(unsigned_digits(d) == d);
    assert(48 <= d[d.len() - 1] <= 57);
}

/// Bytes written in hexadecimal read back as themselves.
pub proof fn lemma_hex_round_trip(data: Seq<u8>)
    ensures
        is_hex_text(hex_encode(data)),
        hex_decode(hex_encode(data)) == data,
        is_line_body(hex_encode(data)),
        hex_encode(data).len() == 2 * data.len(),
{
    let text = hex_encode(data);
    assert forall|i: int| 0 <= i < text.len() implies hex_value(#[trigger] text[i]).is_some()
        && text[i] != 10 && text[i] != 13 by {
        let b = data[i / 2];
        assert(b / 16 < 16 && b % 16 < 16);
    }
    assert forall|i: int| 0 <= i < data.len() implies #[trigger] hex_decode(text)[i] == data[i] by {
        let b = data[i];
        assert(text[2 * i] == hex_digit(b / 16));
        assert(text[2 * i + 1] == hex_digit(b % 16));
        assert(hex_value(hex_digit(b / 16)) == Some((b / 16) as u8));
        assert(hex_value(hex_digit(b % 16)) == Some((b % 16) as u8));
        assert((b / 16) * 16 + b % 16 == b);
    }
    assert(hex_decode(text) =~= data);
}

/// Lines taken in two runs are the lines taken in one.
pub proof fn lemma_parse_concat(st: ParseStateView, a: Seq<Seq<u8>>, b: Seq<Seq<u8>>)
    ensures
        spec_parse_lines(st, a + b) == (match spec_parse_lines(st, a) {
            Ok(next) => spec_parse_lines(next, b),
            Err(f) => Err(f),
        }),
    decreases a.len(),
{
    if a.len() == 0 {
        assert(a + b =~= b);
    } else {
        assert((a + b)[0] == a[0]);
        assert((a + b).drop_first() =~= a.drop_first() + b);
        match spec_parse_line(st, a[0]) {
            Ok(next) => {
                lemma_parse_concat(next, a.drop_first(), b);
            },
            Err(_) => {},
        }
    }
}

/// One more line at the end of a text is one more line taken.
pub proof fn lemma_append_line(
    st0: ParseStateView,
    text: Seq<u8>,
    key: Seq<u8>,
    value: Seq<u8>,
    st1: ParseStateView,
    st2: ParseStateView,
)
    requires
        ends_line(text),
        spec_parse_lines(st0, split_lines(text)) == Ok::<ParseStateView, ManifestFault>(st1),
        is_line_body(key + value),
        spec_parse_line(st1, key + value) == Ok::<ParseStateView, ManifestFault>(st2),
    ensures
        ends_line(text + text_line(key, value)),
        spec_parse_lines(st0, split_lines(text + text_line(key, value))) == Ok::<
            ParseStateView,
            ManifestFault,
        >(st2),
{
    let body = key + value;
    let line = body + seq![10u8];
    assert(text_line(key, value) =~= line);
    lemma_single_line(body);
    lemma_lines_concat(text, line, 0);
    lemma_parse_concat(st0, split_lines(text), seq![body]);
    let one = seq![body];
    assert(one[0] == body);
    assert(one.drop_first() =~= Seq::<Seq<u8>>::empty());
    assert(spec_parse_lines(st2, one.drop_first()) == Ok::<
        ParseStateView,
        ManifestFault,
    >(st2));
    assert(spec_parse_lines(st1, one) == Ok::<ParseStateView, ManifestFault>(st2));
}

/// The magic line changes nothing.
pub proof fn lemma_magic_line(st: ParseStateView)
    ensures
        is_line_body(MANIFEST_MAGIC@ + Seq::<u8>::empty()),
        spec_parse_line(st, MANIFEST_MAGIC@ + Seq::<u8>::empty()) == Ok::<
            ParseStateView,
            ManifestFault,
        >(st),
{
    let body = MANIFEST_MAGIC@ + Seq::<u8>::empty();
    assert(body =~= MANIFEST_MAGIC@);
    assert(MANIFEST_MAGIC@.len() == 16);
}

/// A line that differs from a key at some place does not begin with it.
pub proof fn lemma_not_prefix(body: Seq<u8>, key: Seq<u8>, at: int)
    requires
        0 <= at < key.len(),
        at < body.len() ==> body[at] != key[at],
    ensures
        !has_prefix(body, key),
{
    if key.len() <= body.len() {
        assert(body.subrange(0, key.len() as int)[at] == body[at]);
    }
}

/// A key and a value without line breaks make a line's content.
pub proof fn lemma_keyed_body(key: Seq<u8>, value: Seq<u8>)
    requires
        is_line_body(key),
        key.len() > 0,
        is_line_body(value),
    ensures
        is_line_body(key + value),
        has_prefix(key + value, key),
        after_key(key + value, key.len() as int) == value,
        (key + value)[0] == key[0],
        (key + value).len() > 0,
{
    let body = key + value;
    assert(body.subrange(0, key.len() as int) =~= key);
    assert(after_key(body, key.len() as int) =~= value);
    if value.len() == 0 {
        assert(body =~= key);
    } else {
        assert(body.last() == value.last());
    }
}

/// What the `file_name:` line does.
pub proof fn lemma_file_name_line(st: ParseStateView, name: Seq<u8>)
    requires
        valid_utf8(name),
        is_line_body(name),
    ensures
        is_line_body(KEY_FILE_NAME@ + name),
        spec_parse_line(st, KEY_FILE_NAME@ + name) == Ok::<ParseStateView, ManifestFault>(
            ParseStateView { file_name: Some(name), ..st },
        ),
{
    lemma_keyed_body(KEY_FILE_NAME@, name);
    assert(MANIFEST_MAGIC@[0] == 100);
}

/// What the `total_size:` line does.
pub proof fn lemma_total_size_line(st: ParseStateView, n: u64)
    ensures
        is_line_body(KEY_TOTAL_SIZE@ + decimal(n as nat)),
        spec_parse_line(st, KEY_TOTAL_SIZE@ + decimal(n as nat)) == Ok::<
            ParseStateView,
            ManifestFault,
        >(ParseStateView { total_size: Some(n), ..st }),
{
    let body = KEY_TOTAL_SIZE@ + decimal(n as nat);
    lemma_parse_decimal(n);
    lemma_keyed_body(KEY_TOTAL_SIZE@, decimal(n as nat));
    assert(MANIFEST_MAGIC@[0] == 100);
    lemma_not_prefix(body, KEY_FILE_NAME@, 0);
}

/// What the `chunk_size:` line does.
pub proof fn lemma_chunk_size_line(st: ParseStateView, n: u64)
    ensures
        is_line_body(KEY_CHUNK_SIZE@ + decimal(n as nat)),
        spec_parse_line(st, KEY_CHUNK_SIZE@ + decimal(n as nat)) == Ok::<
            ParseStateView,
            ManifestFault,
        >(ParseStateView { chunk_size: Some(n), ..st }),
{
    let body = KEY_CHUNK_SIZE@ + decimal(n as nat);
    lemma_parse_decimal(n);
    lemma_keyed_body(KEY_CHUNK_SIZE@, decimal(n as nat));
    assert(MANIFEST_MAGIC@[0] == 100);
    lemma_not_prefix(body, KEY_FILE_NAME@, 0);
    lemma_not_prefix(body, KEY_TOTAL_SIZE@, 0);
}

/// What the `chunks:` line does.
pub proof fn lemma_chunks_line(st: ParseStateView, n: u64)
    ensures
        is_line_body(KEY_CHUNKS@ + decimal(n as nat)),
        spec_parse_line(st, KEY_CHUNKS@ + decimal(n as nat)) == Ok::<ParseStateView, ManifestFault>(
            ParseStateView { declared_chunks: Some(n), ..st },
        ),
{
    let body = KEY_CHUNKS@ + decimal(n as nat);
    lemma_parse_decimal(n);
    lemma_keyed_body(KEY_CHUNKS@, decimal(n as nat));
    assert(MANIFEST_MAGIC@[0] == 100);
    lemma_not_prefix(body, KEY_FILE_NAME@, 0);
    lemma_not_prefix(body, KEY_TOTAL_SIZE@, 0);
    assert(body[5] == KEY_CHUNKS@[5]);
    lemma_not_prefix(body, KEY_CHUNK_SIZE@, 5);
}

/// What an `h:` line does.
pub proof fn lemma_hash_line(st: ParseStateView, h: Seq<u8>)
    requires
        h.len() == 32,
    ensures
        is_line_body(KEY_HASH@ + hex_encode(h)),
        spec_parse_line(st, KEY_HASH@ + hex_encode(h)) == Ok::<ParseStateView, ManifestFault>(
            ParseStateView { chunks: st.chunks.push(h), ..st },
        ),
{
    let body = KEY_HASH@ + hex_encode(h);
    lemma_hex_round_trip(h);
    lemma_keyed_body(KEY_HASH@, hex_encode(h));
    assert(MANIFEST_MAGIC@[0] == 100);
    lemma_not_prefix(body, KEY_FILE_NAME@, 0);
    lemma_not_prefix(body, KEY_TOTAL_SIZE@, 0);
    lemma_not_prefix(body, KEY_CHUNK_SIZE@, 0);
    lemma_not_prefix(body, KEY_CHUNKS@, 0);
    assert(spec_hex_field(hex_encode(h), 32) == Ok::<Seq<u8>, ManifestFault>(h));
}

/// What the `signer:` line does.
pub proof fn lemma_signer_line(st: ParseStateView, k: Seq<u8>)
    requires
        k.len() == 32,
    ensures
        is_line_body(KEY_SIGNER@ + hex_encode(k)),
        spec_parse_line(st, KEY_SIGNER@ + hex_encode(k)) == Ok::<ParseStateView, ManifestFault>(
            ParseStateView { signer: Some(k), ..st },
        ),
{
    let body = KEY_SIGNER@ + hex_encode(k);
    lemma_hex_round_trip(k);
    lemma_keyed_body(KEY_SIGNER@, hex_encode(k));
    assert(MANIFEST_MAGIC@[0] == 100);
    lemma_not_prefix(body, KEY_FILE_NAME@, 0);
    lemma_not_prefix(body, KEY_TOTAL_SIZE@, 0);
    lemma_not_prefix(body, KEY_CHUNK_SIZE@, 0);
    lemma_not_prefix(body, KEY_CHUNKS@, 0);
    lemma_not_prefix(body, KEY_HASH@, 0);
    assert(spec_hex_field(hex_encode(k), 32) == Ok::<Seq<u8>, ManifestFault>(k));
}

/// What the `signature:` line does.
pub proof fn lemma_signature_line(st: ParseStateView, g: Seq<u8>)
    requires
        g.len() == 64,
    ensures
        is_line_body(KEY_SIGNATURE@ + hex_encode(g)),
        spec_parse_line(st, KEY_SIGNATURE@ + hex_encode(g)) == Ok::<ParseStateView, ManifestFault>(
            ParseStateView { signature: Some(g), ..st },
        ),
{
    let body = KEY_SIGNATURE@ + hex_encode(g);
    lemma_hex_round_trip(g);
    lemma_keyed_body(KEY_SIGNATURE@, hex_encode(g));
    assert(MANIFEST_MAGIC@[0] == 100);
    lemma_not_prefix(body, KEY_FILE_NAME@, 0);
    lemma_not_prefix(body, KEY_TOTAL_SIZE@, 0);
    lemma_not_prefix(body, KEY_CHUNK_SIZE@, 0);
    lemma_not_prefix(body, KEY_CHUNKS@, 0);
    lemma_not_prefix(body, KEY_HASH@, 0);
    assert(body[4] == KEY_SIGNATURE@[4]);
    lemma_not_prefix(body, KEY_SIGNER@, 4);
    assert(spec_hex_field(hex_encode(g), 64) == Ok::<Seq<u8>, ManifestFault>(g));
}

/// The `h:` lines of some chunks, after a text, add those chunks.
pub proof fn lemma_chunk_lines_parse(
    st0: ParseStateView,
    text: Seq<u8>,
    st1: ParseStateView,
    chunks: Seq<Seq<u8>>,
)
    requires
        ends_line(text),
        spec_parse_lines(st0, split_lines(text)) == Ok::<ParseStateView, ManifestFault>(st1),
        forall|i: int| 0 <= i < chunks.len() ==> (#[trigger] chunks[i]).len() == 32,
    ensures
        ends_line(text + chunk_lines(chunks)),
        spec_parse_lines(st0, split_lines(text + chunk_lines(chunks))) == Ok::<
            ParseStateView,
            ManifestFault,
        >(ParseStateView { chunks: st1.chunks + chunks, ..st1 }),
    decreases chunks.len(),
{
    if chunks.len() == 0 {
        assert(text + chunk_lines(chunks) =~= text);
        assert(st1.chunks + chunks =~= st1.chunks);
    } else {
        let init = chunks.drop_last();
        let last = chunks.last();
        lemma_chunk_lines_parse(st0, text, st1, init);
        let mid = ParseStateView { chunks: st1.chunks + init, ..st1 };
        lemma_hash_line(mid, last);
        lemma_append_line(
            st0,
            text + chunk_lines(init),
            KEY_HASH@,
            hex_encode(last),
            mid,
            ParseStateView { chunks: mid.chunks.push(last), ..mid },
        );
        assert(text + chunk_lines(chunks) =~= (text + chunk_lines(init)) + text_line(
            KEY_HASH@,
            hex_encode(last),
        ));
        assert((st1.chunks + init).push(last) =~= st1.chunks + chunks);
    }
}

/// A manifest that can be stored and read back: its name is valid UTF-8
/// on one line, its hashes, signer and signature have their widths, and the
/// number of its chunks fits in 64 bits.
pub open spec fn is_storable(m: ManifestView) -> bool {
    &&& m.version == 1
    &&& valid_utf8(m.file_name)
    &&& is_line_body(m.file_name)
    &&& m.chunks.len() <= u64::MAX
    &&& forall|i: int| 0 <= i < m.chunks.len() ==> (#[trigger] m.chunks[i]).len() == 32
    &&& m.signer.is_some() ==> m.signer.unwrap().len() == 32
    &&& m.signature.is_some() ==> m.signature.unwrap().len() == 64
}

/// The state that the canonical text of a manifest leaves.
pub open spec fn state_of(m: ManifestView) -> ParseStateView {
    ParseStateView {
        file_name: Some(m.file_name),
        total_size: Some(m.total_size),
        chunk_size: Some(m.chunk_size),
        chunks: m.chunks,
        signer: None,
        signature: None,
        declared_chunks: Some(m.chunks.len() as u64),
    }
}

/// Reading the canonical text of a manifest line by line gives its name,
/// its sizes and its chunks.
pub proof fn lemma_canonical_text_parses(m: ManifestView)
    requires
        is_storable(m),
    ensures
        ends_line(spec_canonical_manifest(m)),
        spec_parse_lines(initial_state(), split_lines(spec_canonical_manifest(m))) == Ok::<
            ParseStateView,
            ManifestFault,
        >(state_of(m)),
{
    let s0 = initial_state();
    let empty = Seq::<u8>::empty();
    assert(split_lines(empty) =~= Seq::<Seq<u8>>::empty());
    lemma_magic_line(s0);
    lemma_append_line(s0, empty, MANIFEST_MAGIC@, Seq::<u8>::empty(), s0, s0);
    let t0 = text_line(MANIFEST_MAGIC@, Seq::<u8>::empty());
    assert(empty + t0 =~= t0);
    let s1 = ParseStateView { file_name: Some(m.file_name), ..s0 };
    lemma_file_name_line(s0, m.file_name);
    lemma_append_line(s0, t0, KEY_FILE_NAME@, m.file_name, s0, s1);
    let t1 = t0 + text_line(KEY_FILE_NAME@, m.file_name);
    let s2 = ParseStateView { total_size: Some(m.total_size), ..s1 };
    lemma_total_size_line(s1, m.total_size);
    lemma_append_line(s0, t1, KEY_TOTAL_SIZE@, decimal(m.total_size as nat), s1, s2);
    let t2 = t1 + text_line(KEY_TOTAL_SIZE@, decimal(m.total_size as nat));
    let s3 = ParseStateView { chunk_size: Some(m.chunk_size), ..s2 };
    lemma_chunk_size_line(s2, m.chunk_size);
    lemma_append_line(s0, t2, KEY_CHUNK_SIZE@, decimal(m.chunk_size as nat), s2, s3);
    let t3 = t2 + text_line(KEY_CHUNK_SIZE@, decimal(m.chunk_size as nat));
    let count = m.chunks.len() as u64;
    let s4 = ParseStateView { declared_chunks: Some(count), ..s3 };
    lemma_chunks_line(s3, count);
    lemma_append_line(s0, t3, KEY_CHUNKS@, decimal(count as nat), s3, s4);
    let t4 = t3 + text_line(KEY_CHUNKS@, decimal(m.chunks.len()));
    lemma_chunk_lines_parse(s0, t4, s4, m.chunks);
    assert(s4.chunks + m.chunks =~= m.chunks);
}

/// What is written is what is read back: the stored text of a manifest
/// parses to that manifest.
pub proof fn lemma_manifest_round_trip(m: ManifestView)
    requires
        is_storable(m),
    ensures
        spec_parse_manifest(spec_stored_manifest(m)) == Ok::<ManifestView, ManifestFault>(m),
{
    let s0 = initial_state();
    let canon = spec_canonical_manifest(m);
    lemma_canonical_text_parses(m);
    let st = state_of(m);
    let with_signer = canon + (match m.signer {
        Some(k) => text_line(KEY_SIGNER@, hex_encode(k)),
        None => Seq::empty(),
    });
    let st_signer = ParseStateView { signer: m.signer, ..st };
    match m.signer {
        Some(k) => {
            lemma_signer_line(st, k);
            lemma_append_line(s0, canon, KEY_SIGNER@, hex_encode(k), st, st_signer);
        },
        None => {
            assert(with_signer =~= canon);
        },
    }
    let st_all = ParseStateView { signature: m.signature, ..st_signer };
    match m.signature {
        Some(g) => {
            lemma_signature_line(st_signer, g);
            lemma_append_line(s0, with_signer, KEY_SIGNATURE@, hex_encode(g), st_signer, st_all);
        },
        None => {
            assert(spec_stored_manifest(m) =~= with_signer);
        },
    }
    assert(spec_finish(st_all) == Ok::<ManifestView, ManifestFault>(m));
}

/// Two manifests with the same canonical text have the same name, sizes
/// and chunks: no field that the signature covers can change without the
/// signed text changing.
pub proof fn lemma_canonical_text_injective(a: ManifestView, b: ManifestView)
    requires
        is_storable(a),
        is_storable(b),
        spec_canonical_manifest(a) == spec_canonical_manifest(b),
    ensures
        a.file_name == b.file_name,
        a.total_size == b.total_size,
        a.chunk_size == b.chunk_size,
        a.chunks == b.chunks,
{
    lemma_canonical_text_parses(a);
    lemma_canonical_text_parses(b);
}

} // verus!
