use vstd::prelude::*;

use vstd::utf8::{decode_utf8, valid_utf8};

use crate::clock::now_millis;

verus! {

/// Name of the form field that carries the packet's JSON metadata.
pub const METADATA_FIELD: &'static str = "metadata";
/// Name of the form field that carries the packet's bytes.
pub const PACKET_FIELD: &'static str = "packet";
/// Statement text up to the size of the packet's blob.
pub const INSERT_PREFIX: &'static str = "insert into level_0 (uuid, createdate, metadata, packet) values (?, ?, ?, ZEROBLOB(";

/// What the uploader says about a packet.
#[derive(Debug, Clone)]
pub struct Metadata {
    pub filename: String,
    pub filetype: String,
}

/// A stored packet.
pub struct Packet {
    pub uuid: String,
    pub createdate: u64,
    pub metadata: Metadata,
    pub packet: Vec<u8>,
}

/// Why an upload could not be taken apart.
#[derive(Debug, Clone, PartialEq, Eq)]
pub enum ExtractError {
    /// A byte string was not UTF-8.
    Utf8Error,
    /// The metadata bytes are not UTF-8.
    FromUtf8Error,
    /// The multipart stream failed, with its description.
    MultipartError(String),
    /// The metadata is not the expected JSON, with the parser's description.
    JsonError(String),
    /// No `metadata` field, or only empty ones.
    MissingMetadata,
    /// No `packet` field, or only empty ones.
    MissingPacket,
}

/// Why an upload could not be saved.
#[derive(Debug, Clone, PartialEq, Eq)]
pub enum SaveError {
    /// The database failed, with its description.
    DbError(String),
    ExtractError(ExtractError),
}

impl From<ExtractError> for SaveError {
    fn from(error: ExtractError) -> (r: SaveError) {
        SaveError::ExtractError(error)
    }
}

impl vstd::std_specs::convert::FromSpecImpl<ExtractError> for SaveError {
    open spec fn obeys_from_spec() -> bool {
        true
    }

    open spec fn from_spec(error: ExtractError) -> SaveError {
        SaveError::ExtractError(error)
    }
}

/// One field of a multipart upload: its name and its data as received, in
/// chunks.
pub struct FormField {
    pub name: String,
    pub chunks: Vec<Vec<u8>>,
}

/// The model of a form field.
pub struct FieldView {
    pub name: Seq<char>,
    pub chunks: Seq<Seq<u8>>,
}

impl View for FormField {
    type V = FieldView;

    open spec fn view(&self) -> FieldView {
        FieldView { name: self.name@, chunks: self.chunks@.map_values(|c: Vec<u8>| c@) }
    }
}

/// The models of a list of form fields.
pub open spec fn fields_view(fields: Seq<FormField>) -> Seq<FieldView> {
    fields.map_values(|f: FormField| f@)
}

/// The chunks joined in order.
pub open spec fn concat_chunks(chunks: Seq<Seq<u8>>) -> Seq<u8>
    decreases chunks.len(),
{
    if chunks.len() == 0 {
        Seq::empty()
    } else {
        concat_chunks(chunks.drop_last()) + chunks.last()
    }
}

/// The data of every field called `name`, joined in order.
pub open spec fn field_bytes(fields: Seq<FieldView>, name: Seq<char>) -> Seq<u8>
    decreases fields.len(),
{
    if fields.len() == 0 {
        Seq::empty()
    } else {
        field_bytes(fields.drop_last(), name) + (if fields.last().name == name {
            concat_chunks(fields.last().chunks)
        } else {
            Seq::<u8>::empty()
        })
    }
}

/// What taking an upload apart gives: the metadata text and the packet
/// bytes, each joined from all fields of its name; refused where either is
/// empty (metadata first) or the metadata is not UTF-8.
pub open spec fn extract_outcome(fields: Seq<FieldView>) -> Result<(Seq<char>, Seq<u8>), ExtractError> {
    let md = field_bytes(fields, METADATA_FIELD@);
    let pk = field_bytes(fields, PACKET_FIELD@);
    if md.len() == 0 {
        Err(ExtractError::MissingMetadata)
    } else if pk.len() == 0 {
        Err(ExtractError::MissingPacket)
    } else if !valid_utf8(md) {
        Err(ExtractError::FromUtf8Error)
    } else {
        Ok((decode_utf8(md), pk))
    }
}

/// `String::from_utf8`: the text the bytes encode, `None` where they are
/// not UTF-8.
#[verifier::external_body]
fn string_from_utf8(bytes: Vec<u8>) -> (r: Option<String>)
    ensures
        r is Some <==> valid_utf8(bytes@),
        r matches Some(s) ==> s@ == decode_utf8(bytes@),
{
    String::from_utf8(bytes).ok()
}

/// Appends `src` to `dst`.
fn append_bytes(dst: &mut Vec<u8>, src: &Vec<u8>)
    ensures
        final(dst)@ == old(dst)@ + src@,
{
    let ghost start = dst@;
    let mut i: usize = 0;
    while i < src.len()
        invariant
            i <= src.len(),
            dst@ == start + src@.subrange(0, i as int),
        decreases src.len() - i,
    {
        dst.push(src[i]);
        proof {
            assert(src@.subrange(0, i + 1) =~= src@.subrange(0, i as int).push(src@[i as int]));
        }
        i += 1;
    }
    proof {
        assert(src@.subrange(0, src.len() as int) =~= src@);
    }
}

/// Appends the chunks to `dst` in order.
fn append_chunks(dst: &mut Vec<u8>, chunks: &Vec<Vec<u8>>)
    ensures
        final(dst)@ == old(dst)@ + concat_chunks(chunks@.map_values(|c: Vec<u8>| c@)),
{
    let ghost start = dst@;
    let ghost views = chunks@.map_values(|c: Vec<u8>| c@);
    let mut i: usize = 0;
    while i < chunks.len()
        invariant
            i <= chunks.len(),
            views == chunks@.map_values(|c: Vec<u8>| c@),
            dst@ == start + concat_chunks(views.take(i as int)),
        decreases chunks.len() - i,
    {
        append_bytes(dst, &chunks[i]);
        proof {
            assert(views.take(i + 1).drop_last() =~= views.take(i as int));
            assert(start + concat_chunks(views.take(i as int)) + views[i as int] =~= start + (concat_chunks(
                views.take(i as int),
            ) + views[i as int]));
        }
        i += 1;
    }
    proof {
        assert(views.take(chunks.len() as int) =~= views);
    }
}

/// Takes an upload apart into its metadata text and packet bytes, as
/// `extract_outcome` says.
pub fn extract_files(fields: &Vec<FormField>) -> (r: Result<(String, Vec<u8>), ExtractError>)
    ensures
        match r {
            Ok((s, p)) => extract_outcome(fields_view(fields@)) == Ok::<(Seq<char>, Seq<u8>), ExtractError>(
                (s@, p@),
            ),
            Err(e) => extract_outcome(fields_view(fields@)) == Err::<(Seq<char>, Seq<u8>), ExtractError>(e),
        },
{
    let ghost views = fields_view(fields@);
    let md_name = String::from_str(METADATA_FIELD);
    let pk_name = String::from_str(PACKET_FIELD);
    let mut metadata_vec: Vec<u8> = Vec::new();
    let mut packet_vec: Vec<u8> = Vec::new();
    let mut i: usize = 0;
    while i < fields.len()
        invariant
            i <= fields.len(),
            views == fields_view(fields@),
            md_name@ == METADATA_FIELD@,
            pk_name@ == PACKET_FIELD@,
            metadata_vec@ == field_bytes(views.take(i as int), METADATA_FIELD@),
            packet_vec@ == field_bytes(views.take(i as int), PACKET_FIELD@),
        decreases fields.len() - i,
    {
        let field = &fields[i];
        if field.name == md_name {
            append_chunks(&mut metadata_vec, &field.chunks);
        }
        if field.name == pk_name {
            append_chunks(&mut packet_vec, &field.chunks);
        }
        proof {
            assert(views.take(i + 1).drop_last() =~= views.take(i as int));
            assert(views.take(i + 1).last() == field@);
        }
        i += 1;
    }
    proof {
        assert(views.take(fields.len() as int) =~= views);
    }
    if metadata_vec.len() == 0 {
        return Err(ExtractError::MissingMetadata);
    }
    if packet_vec.len() == 0 {
        return Err(ExtractError::MissingPacket);
    }
    match string_from_utf8(metadata_vec) {
        Some(metadata) => Ok((metadata, packet_vec)),
        None => Err(ExtractError::FromUtf8Error),
    }
}

/// The character of decimal digit `d`.
pub open spec fn digit_char(d: nat) -> char {
    if d == 0 {
        '0'
    } else if d == 1 {
        '1'
    } else if d == 2 {
        '2'
    } else if d == 3 {
        '3'
    } else if d == 4 {
        '4'
    } else if d == 5 {
        '5'
    } else if d == 6 {
        '6'
    } else if d == 7 {
        '7'
    } else if d == 8 {
        '8'
    } else {
        '9'
    }
}

/// The value of a decimal digit character.
pub open spec fn digit_value(c: char) -> nat {
    if c == '0' {
        0
    } else if c == '1' {
        1
    } else if c == '2' {
        2
    } else if c == '3' {
        3
    } else if c == '4' {
        4
    } else if c == '5' {
        5
    } else if c == '6' {
        6
    } else if c == '7' {
        7
    } else if c == '8' {
        8
    } else {
        9
    }
}

/// Whether `c` is a decimal digit.
pub open spec fn is_digit(c: char) -> bool {
    c == '0' || c == '1' || c == '2' || c == '3' || c == '4' || c == '5' || c == '6' || c == '7' || c
        == '8' || c == '9'
}

/// `n` written in decimal, without leading zeros.
pub open spec fn decimal(n: nat) -> Seq<char>
    decreases n,
{
    if n < 10 {
        seq![digit_char(n)]
    } else {
        decimal(n / 10).push(digit_char(n % 10))
    }
}

/// The number a string of decimal digits denotes.
pub open spec fn digits_value(s: Seq<char>) -> nat
    decreases s.len(),
{
    if s.len() == 0 {
        0
    } else {
        digits_value(s.drop_last()) * 10 + digit_value(s.last())
    }
}

/// The statement that inserts a packet of `len` bytes: its uuid, creation
/// date and metadata as parameters, and a zeroed blob of `len` bytes to
/// write the packet into.
pub open spec fn insert_stmt(len: nat) -> Seq<char> {
    INSERT_PREFIX@ + decimal(len) + "))"@
}

/// The text of one decimal digit.
fn digit_str(d: usize) -> (s: &'static str)
    requires
        d < 10,
    ensures
        s@ == seq![digit_char(d as nat)],
{
    proof {
        reveal_strlit("0");
        reveal_strlit("1");
        reveal_strlit("2");
        reveal_strlit("3");
        reveal_strlit("4");
        reveal_strlit("5");
        reveal_strlit("6");
        reveal_strlit("7");
        reveal_strlit("8");
        reveal_strlit("9");
    }
    if d == 0 {
        "0"
    } else if d == 1 {
        "1"
    } else if d == 2 {
        "2"
    } else if d == 3 {
        "3"
    } else if d == 4 {
        "4"
    } else if d == 5 {
        "5"
    } else if d == 6 {
        "6"
    } else if d == 7 {
        "7"
    } else if d == 8 {
        "8"
    } else {
        "9"
    }
}

/// Appends `n` in decimal to `s`.
fn append_decimal(s: &mut String, n: usize)
    ensures
        final(s)@ == old(s)@ + decimal(n as nat),
    decreases n,
{
    if n >= 10 {
        append_decimal(s, n / 10);
    }
    s.append(digit_str(n % 10));
    proof {
        assert(final(s)@ =~= old(s)@ + decimal(n as nat)) by {
            if n >= 10 {
                assert(decimal(n as nat) == decimal((n / 10) as nat).push(digit_char((n % 10) as nat)));
            }
        }
    }
}

/// The statement that inserts `packet`, as `insert_stmt` says.
pub fn create_insert_stmt(packet: &[u8]) -> (s: String)
    ensures
        s@ == insert_stmt(packet@.len()),
{
    let mut s = String::from_str(INSERT_PREFIX);
    append_decimal(&mut s, packet.len());
    s.append("))");
    s
}

/// A decimal numeral is made of digits and denotes the number it was
/// written from.
pub proof fn lemma_decimal_denotes(n: nat)
    ensures
        forall|i: int| 0 <= i < decimal(n).len() ==> is_digit(#[trigger] decimal(n)[i]),
        digits_value(decimal(n)) == n,
        decimal(n).len() >= 1,
    decreases n,
{
    assert(digit_value(digit_char(n % 10)) == n % 10);
    if n < 10 {
        let d = decimal(n);
        assert(d.drop_last() =~= Seq::<char>::empty());
        assert(d.last() == digit_char(n));
        assert(digits_value(d) == digits_value(d.drop_last()) * 10 + digit_value(d.last()));
    } else {
        lemma_decimal_denotes(n / 10);
        let d = decimal(n);
        assert(d.drop_last() =~= decimal(n / 10));
        assert(n == (n / 10) * 10 + n % 10);
        assert(d.last() == digit_char(n % 10));
        assert(digits_value(d) == digits_value(d.drop_last()) * 10 + digit_value(d.last()));
        assert forall|i: int| 0 <= i < d.len() implies is_digit(#[trigger] d[i]) by {
            if i < d.len() - 1 {
                assert(d[i] == decimal(n / 10)[i]);
            }
        }
    }
}

/// Whether `c` is a lowercase hexadecimal digit.
pub open spec fn is_lower_hex(c: char) -> bool {
    is_digit(c) || c == 'a' || c == 'b' || c == 'c' || c == 'd' || c == 'e' || c == 'f'
}

/// `s` is a version 4 UUID of the RFC 4122 variant in hyphenated lowercase
/// form, like `67e55044-10b1-426f-9247-bb680e5fe0c8`.
pub open spec fn is_hyphenated_v4_uuid(s: Seq<char>) -> bool {
    &&& s.len() == 36
    &&& forall|i: int|
        0 <= i < 36 ==> if i == 8 || i == 13 || i == 18 || i == 23 {
            s[i] == '-'
        } else {
            is_lower_hex(#[trigger] s[i])
        }
    &&& s[14] == '4'
    &&& (s[19] == '8' || s[19] == '9' || s[19] == 'a' || s[19] == 'b')
}

/// The lowercase hexadecimal digit of `d` (below 16).
pub open spec fn hex_char(d: nat) -> char {
    if d < 10 {
        digit_char(d)
    } else if d == 10 {
        'a'
    } else if d == 11 {
        'b'
    } else if d == 12 {
        'c'
    } else if d == 13 {
        'd'
    } else if d == 14 {
        'e'
    } else {
        'f'
    }
}

/// The bytes in lowercase hexadecimal, two digits each, high digit first.
pub open spec fn hex_text(bytes: Seq<u8>) -> Seq<char> {
    Seq::new(
        2 * bytes.len(),
        |i: int|
            if i % 2 == 0 {
                hex_char((bytes[i / 2] / 16) as nat)
            } else {
                hex_char((bytes[i / 2] % 16) as nat)
            },
    )
}

/// Sixteen random bytes with the version set to 4 (high half of byte 6)
/// and the variant to RFC 4122 (top bits `10` of byte 8).
pub open spec fn v4_bytes(random: Seq<u8>) -> Seq<u8> {
    random.update(6, (random[6] & 0x0f) | 0x40).update(8, (random[8] & 0x3f) | 0x80)
}

/// The version 4 UUID built from sixteen random bytes, in hyphenated
/// lowercase form: groups of 4, 2, 2, 2 and 6 bytes joined by `-`.
pub open spec fn uuid_v4_text(random: Seq<u8>) -> Seq<char> {
    let b = v4_bytes(random);
    hex_text(b.subrange(0, 4)) + seq!['-'] + hex_text(b.subrange(4, 6)) + seq!['-'] + hex_text(
        b.subrange(6, 8),
    ) + seq!['-'] + hex_text(b.subrange(8, 10)) + seq!['-'] + hex_text(b.subrange(10, 16))
}

/// `Builder::from_random_bytes(random).into_uuid()` written with
/// `to_string`: the version 4 UUID the bytes make, with the version and
/// variant bits set, in hyphenated lowercase hexadecimal.
#[verifier::external_body]
fn uuid_from_random_bytes(random: [u8; 16]) -> (s: String)
    ensures
        s@ == uuid_v4_text(random@),
{
    uuid::Builder::from_random_bytes(random).into_uuid().to_string()
}

/// Every hexadecimal digit is lowercase hex.
proof fn lemma_hex_char_is_lower_hex(d: nat)
    ensures
        is_lower_hex(hex_char(d)),
{
}

/// A UUID built from sixteen random bytes is a hyphenated lowercase
/// version 4 UUID of the RFC 4122 variant.
pub proof fn lemma_uuid_v4_form(random: Seq<u8>)
    requires
        random.len() == 16,
    ensures
        is_hyphenated_v4_uuid(uuid_v4_text(random)),
{
    let b = v4_bytes(random);
    let t = uuid_v4_text(random);
    let s0 = hex_text(b.subrange(0, 4));
    let s1 = hex_text(b.subrange(4, 6));
    let s2 = hex_text(b.subrange(6, 8));
    let s3 = hex_text(b.subrange(8, 10));
    let s4 = hex_text(b.subrange(10, 16));
    assert(t =~= s0 + seq!['-'] + s1 + seq!['-'] + s2 + seq!['-'] + s3 + seq!['-'] + s4);
    assert(t.len() == 36);
    assert forall|i: int| 0 <= i < 36 implies if i == 8 || i == 13 || i == 18 || i == 23 {
        t[i] == '-'
    } else {
        is_lower_hex(#[trigger] t[i])
    } by {
        if i < 8 {
            assert(t[i] == s0[i]);
            lemma_hex_char_is_lower_hex(if i % 2 == 0 { (b[i / 2] / 16) as nat } else { (b[i / 2] % 16) as nat });
        } else if i == 8 {
        } else if i < 13 {
            assert(t[i] == s1[i - 9]);
            let j = i - 9;
            lemma_hex_char_is_lower_hex(
                if j % 2 == 0 { (b[4 + j / 2] / 16) as nat } else { (b[4 + j / 2] % 16) as nat },
            );
        } else if i == 13 {
        } else if i < 18 {
            assert(t[i] == s2[i - 14]);
            let j = i - 14;
            lemma_hex_char_is_lower_hex(
                if j % 2 == 0 { (b[6 + j / 2] / 16) as nat } else { (b[6 + j / 2] % 16) as nat },
            );
        } else if i == 18 {
        } else if i < 23 {
            assert(t[i] == s3[i - 19]);
            let j = i - 19;
            lemma_hex_char_is_lower_hex(
                if j % 2 == 0 { (b[8 + j / 2] / 16) as nat } else { (b[8 + j / 2] % 16) as nat },
            );
        } else if i == 23 {
        } else {
            assert(t[i] == s4[i - 24]);
            let j = i - 24;
            lemma_hex_char_is_lower_hex(
                if j % 2 == 0 { (b[10 + j / 2] / 16) as nat } else { (b[10 + j / 2] % 16) as nat },
            );
        }
    }
    let r6 = random[6];
    let r8 = random[8];
    assert(((r6 & 0x0f) | 0x40) / 16 == 4) by (bit_vector);
    assert(8 <= ((r8 & 0x3f) | 0x80) / 16 <= 11) by (bit_vector);
    assert(t[14] == s2[0]);
    assert(t[19] == s3[0]);
}

/// A packet ready to be stored: the insert statement with its parameters
/// (uuid, creation date, metadata) and the bytes to write into the blob.
pub struct SaveRecord {
    pub insert_stmt: String,
    pub uuid: String,
    pub createdate: u64,
    pub metadata: String,
    pub packet: Vec<u8>,
}

/// Prepares the storing of a packet under the version 4 UUID made from
/// `random`, dated by the system clock.
pub fn prepare_save(random: [u8; 16], metadata: String, packet: Vec<u8>) -> (r: SaveRecord)
    ensures
        r.insert_stmt@ == insert_stmt(packet@.len()),
        r.uuid@ == uuid_v4_text(random@),
        is_hyphenated_v4_uuid(r.uuid@),
        r.metadata@ == metadata@,
        r.packet@ == packet@,
{
    let uuid = uuid_from_random_bytes(random);
    proof {
        lemma_uuid_v4_form(random@);
    }
    let createdate = now_millis();
    let insert_stmt = create_insert_stmt(packet.as_slice());
    SaveRecord { insert_stmt, uuid, createdate, metadata, packet }
}


/// The packet is taken as raw bytes: whenever the metadata fields carry
/// some UTF-8 text and the packet fields some bytes, whatever those bytes
/// are, the upload is taken apart into that text and exactly those bytes.
pub proof fn lemma_extract_keeps_packet_bytes(fields: Seq<FieldView>)
    requires
        field_bytes(fields, METADATA_FIELD@).len() > 0,
        valid_utf8(field_bytes(fields, METADATA_FIELD@)),
        field_bytes(fields, PACKET_FIELD@).len() > 0,
    ensures
        extract_outcome(fields) == Ok::<(Seq<char>, Seq<u8>), ExtractError>(
            (decode_utf8(field_bytes(fields, METADATA_FIELD@)), field_bytes(fields, PACKET_FIELD@)),
        ),
{
}

/// The insert statement sizes the blob to the packet, whatever its length:
/// it is `INSERT_PREFIX`, then a numeral made of decimal digits that
/// denotes exactly `len`, then `))`.
pub proof fn lemma_insert_stmt_sizes_blob(len: nat)
    ensures
        ({
            let t = insert_stmt(len);
            let p = INSERT_PREFIX@.len();
            let digits = t.subrange(p as int, t.len() - 2);
            &&& t.len() >= p + 3
            &&& t.subrange(0, p as int) == INSERT_PREFIX@
            &&& t.subrange(t.len() - 2, t.len() as int) == "))"@
            &&& forall|i: int| 0 <= i < digits.len() ==> is_digit(#[trigger] digits[i])
            &&& digits_value(digits) == len
        }),
{
    lemma_decimal_denotes(len);
    reveal_strlit("))");
    let t = insert_stmt(len);
    let p = INSERT_PREFIX@.len();
    let d = decimal(len);
    assert(t.subrange(0, p as int) =~= INSERT_PREFIX@);
    assert(t.subrange(p as int, t.len() - 2) =~= d);
    assert(t.subrange(t.len() - 2, t.len() as int) =~= "))"@);
}

} // verus!
