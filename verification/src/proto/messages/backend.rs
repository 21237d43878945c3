//! Messages the server sends to the client: SSL negotiation replies,
//! authentication requests, error reports, readiness, and command
//! completion.  Each encoder computes its length prefix from the payload it
//! writes, never from a loose constant.

use vstd::prelude::*;

use crate::proto::{dec_cstr, dec_i32, dec_u8, Decode, DecodeError, Encode, Reader, Writer};
use crate::wire::{push_dec_bytes, spec_dec_bytes, spec_i32_to_be_bytes};

verus! {

broadcast use vstd::seq::group_seq_axioms, vstd::seq_lib::lemma_seq_skip_of_skip;

/// The payload bytes a tagged frame declares: everything after the length
/// field.  The length field itself counts these plus its own four bytes.
pub open spec fn frame(tag: u8, payload: Seq<u8>) -> Seq<u8> {
    seq![tag] + spec_i32_to_be_bytes((payload.len() + 4) as i32) + payload
}

/// The reply to an SSL probe: a single byte, `'S'` to accept or `'N'` to
/// decline.  This server never offers encryption, so it only ever sends
/// `NoSsl`.
#[derive(Clone, Copy, Debug, PartialEq, Eq, Structural)]
pub enum SSLResponse {
    Ssl,
    NoSsl,
}

impl View for SSLResponse {
    type V = SSLResponse;

    open spec fn view(&self) -> SSLResponse {
        *self
    }
}

impl Encode for SSLResponse {
    open spec fn enc(&self) -> Seq<u8> {
        match self {
            SSLResponse::Ssl => seq![83u8],
            SSLResponse::NoSsl => seq![78u8],
        }
    }

    open spec fn enc_wf(&self) -> bool {
        true
    }

    fn encode(&self, writer: &mut Writer) {
        match self {
            SSLResponse::Ssl => writer.write_byte(83u8),
            SSLResponse::NoSsl => writer.write_byte(78u8),
        }
    }
}

impl Decode for SSLResponse {
    open spec fn dec(s: Seq<u8>) -> Result<(SSLResponse, int), DecodeError> {
        match dec_u8(s) {
            Err(e) => Err(e),
            Ok((b, n)) => if b == 83u8 {
                Ok((SSLResponse::Ssl, n))
            } else if b == 78u8 {
                Ok((SSLResponse::NoSsl, n))
            } else {
                Err(DecodeError::UnknownMessageType(b))
            },
        }
    }

    fn decode(reader: &mut Reader) -> (res: Result<SSLResponse, DecodeError>) {
        let b = reader.read_byte()?;
        if b == 83u8 {
            Ok(SSLResponse::Ssl)
        } else if b == 78u8 {
            Ok(SSLResponse::NoSsl)
        } else {
            Err(DecodeError::UnknownMessageType(b))
        }
    }
}

/// The server's report that no authentication is required any more:
/// tag `'R'`, method code 0.
#[derive(Debug)]
pub struct AuthenticationOk {}

impl View for AuthenticationOk {
    type V = ();

    open spec fn view(&self) -> () {
        ()
    }
}

impl Encode for AuthenticationOk {
    open spec fn enc(&self) -> Seq<u8> {
        frame(82u8, spec_i32_to_be_bytes(0))
    }

    open spec fn enc_wf(&self) -> bool {
        true
    }

    fn encode(&self, writer: &mut Writer) {
        writer.write_byte(82u8);
        writer.write_i32(8);
        writer.write_i32(0);
        proof {
            assert(writer@ =~= old(writer)@ + self.enc());
        }
    }
}

impl Decode for AuthenticationOk {
    open spec fn dec(s: Seq<u8>) -> Result<((), int), DecodeError> {
        dec_auth_frame(s, 0)
    }

    fn decode(reader: &mut Reader) -> (res: Result<AuthenticationOk, DecodeError>) {
        decode_auth_frame(reader, 0)?;
        Ok(AuthenticationOk {})
    }
}

/// The server's demand for a password sent in the clear:
/// tag `'R'`, method code 3.
#[derive(Debug)]
pub struct AuthenticationCleartextPassword {}

impl View for AuthenticationCleartextPassword {
    type V = ();

    open spec fn view(&self) -> () {
        ()
    }
}

impl Encode for AuthenticationCleartextPassword {
    open spec fn enc(&self) -> Seq<u8> {
        frame(82u8, spec_i32_to_be_bytes(3))
    }

    open spec fn enc_wf(&self) -> bool {
        true
    }

    fn encode(&self, writer: &mut Writer) {
        writer.write_byte(82u8);
        writer.write_i32(8);
        writer.write_i32(3);
        proof {
            assert(writer@ =~= old(writer)@ + self.enc());
        }
    }
}

impl Decode for AuthenticationCleartextPassword {
    open spec fn dec(s: Seq<u8>) -> Result<((), int), DecodeError> {
        dec_auth_frame(s, 3)
    }

    fn decode(reader: &mut Reader) -> (res: Result<AuthenticationCleartextPassword, DecodeError>) {
        decode_auth_frame(reader, 3)?;
        Ok(AuthenticationCleartextPassword {})
    }
}

/// An authentication frame: tag `'R'`, a length, and the method code; the
/// declared length is read and ignored, as the decoders of this catalog do
/// throughout.
pub open spec fn dec_auth_frame(s: Seq<u8>, kind: i32) -> Result<((), int), DecodeError> {
    match dec_u8(s) {
        Err(e) => Err(e),
        Ok((tag, _n)) => if tag != 82u8 {
            Err(DecodeError::UnknownMessageType(tag))
        } else {
            match dec_i32(s.skip(1)) {
                Err(e) => Err(e),
                Ok((_len, _n2)) => match dec_i32(s.skip(5)) {
                    Err(e) => Err(e),
                    Ok((k, _n3)) => if k == kind {
                        Ok(((), 9))
                    } else {
                        Err(DecodeError::UnknownAuthKind(k))
                    },
                },
            }
        },
    }
}

fn decode_auth_frame(reader: &mut Reader, kind: i32) -> (res: Result<(), DecodeError>)
    requires
        old(reader).wf(),
    ensures
        final(reader).wf(),
        final(reader).bytes() == old(reader).bytes(),
        old(reader).pos() <= final(reader).pos(),
        (match res {
            Ok(u) => dec_auth_frame(old(reader).remaining(), kind) == Ok::<((), int), DecodeError>(
                ((), final(reader).pos() - old(reader).pos()),
            ),
            Err(e) => dec_auth_frame(old(reader).remaining(), kind) == Err::<((), int), DecodeError>(
                e,
            ),
        }),
{
    let tag = reader.read_byte()?;
    if tag != 82u8 {
        return Err(DecodeError::UnknownMessageType(tag));
    }
    let _len = reader.read_i32()?;
    let k = reader.read_i32()?;
    if k == kind {
        Ok(())
    } else {
        Err(DecodeError::UnknownAuthKind(k))
    }
}

/// The severity of an error report, rendered as the literal uppercase
/// token the protocol sends.
#[derive(Clone, Copy, Debug, PartialEq, Eq, Structural)]
pub enum Severity {
    Error,
    Fatal,
    Panic,
    Warning,
    Notice,
    Debug,
    Info,
    Log,
}

impl Severity {
    pub open spec fn spec_render(self) -> Seq<u8> {
        match self {
            Severity::Error => seq![69u8, 82u8, 82u8, 79u8, 82u8],
            Severity::Fatal => seq![70u8, 65u8, 84u8, 65u8, 76u8],
            Severity::Panic => seq![80u8, 65u8, 78u8, 73u8, 67u8],
            Severity::Warning => seq![87u8, 65u8, 82u8, 78u8, 73u8, 78u8, 71u8],
            Severity::Notice => seq![78u8, 79u8, 84u8, 73u8, 67u8, 69u8],
            Severity::Debug => seq![68u8, 69u8, 66u8, 85u8, 71u8],
            Severity::Info => seq![73u8, 78u8, 70u8, 79u8],
            Severity::Log => seq![76u8, 79u8, 71u8],
        }
    }

    /// The token's bytes, e.g. `ERROR` or `FATAL`.
    pub fn render(&self) -> (v: Vec<u8>)
        ensures
            v@ == self.spec_render(),
    {
        match self {
            Severity::Error => vec![69u8, 82u8, 82u8, 79u8, 82u8],
            Severity::Fatal => vec![70u8, 65u8, 84u8, 65u8, 76u8],
            Severity::Panic => vec![80u8, 65u8, 78u8, 73u8, 67u8],
            Severity::Warning => vec![87u8, 65u8, 82u8, 78u8, 73u8, 78u8, 71u8],
            Severity::Notice => vec![78u8, 79u8, 84u8, 73u8, 67u8, 69u8],
            Severity::Debug => vec![68u8, 69u8, 66u8, 85u8, 71u8],
            Severity::Info => vec![73u8, 78u8, 70u8, 79u8],
            Severity::Log => vec![76u8, 79u8, 71u8],
        }
    }
}

/// The field tags an error report may carry, each a single byte on the
/// wire.
#[derive(Clone, Copy, Debug, PartialEq, Eq, Structural)]
pub enum Field {
    SeverityI18n,
    Severity,
    Code,
    Message,
    Detail,
    Hint,
    Position,
    InternalPosition,
    Query,
    Where,
    Schema,
    Table,
    Column,
    DataType,
    Constraint,
    File,
    Line,
    Routine,
}

impl Field {
    pub open spec fn spec_byte(self) -> u8 {
        match self {
            Field::SeverityI18n => 83u8,
            Field::Severity => 86u8,
            Field::Code => 67u8,
            Field::Message => 77u8,
            Field::Detail => 68u8,
            Field::Hint => 72u8,
            Field::Position => 80u8,
            Field::InternalPosition => 112u8,
            Field::Query => 113u8,
            Field::Where => 87u8,
            Field::Schema => 115u8,
            Field::Table => 116u8,
            Field::Column => 99u8,
            Field::DataType => 100u8,
            Field::Constraint => 110u8,
            Field::File => 70u8,
            Field::Line => 76u8,
            Field::Routine => 82u8,
        }
    }

    pub open spec fn spec_from_byte(b: u8) -> Option<Field> {
        if b == 83u8 {
            Some(Field::SeverityI18n)
        } else if b == 86u8 {
            Some(Field::Severity)
        } else if b == 67u8 {
            Some(Field::Code)
        } else if b == 77u8 {
            Some(Field::Message)
        } else if b == 68u8 {
            Some(Field::Detail)
        } else if b == 72u8 {
            Some(Field::Hint)
        } else if b == 80u8 {
            Some(Field::Position)
        } else if b == 112u8 {
            Some(Field::InternalPosition)
        } else if b == 113u8 {
            Some(Field::Query)
        } else if b == 87u8 {
            Some(Field::Where)
        } else if b == 115u8 {
            Some(Field::Schema)
        } else if b == 116u8 {
            Some(Field::Table)
        } else if b == 99u8 {
            Some(Field::Column)
        } else if b == 100u8 {
            Some(Field::DataType)
        } else if b == 110u8 {
            Some(Field::Constraint)
        } else if b == 70u8 {
            Some(Field::File)
        } else if b == 76u8 {
            Some(Field::Line)
        } else if b == 82u8 {
            Some(Field::Routine)
        } else {
            None
        }
    }

    pub fn byte(&self) -> (b: u8)
        ensures
            b == self.spec_byte(),
    {
        match self {
            Field::SeverityI18n => 83u8,
            Field::Severity => 86u8,
            Field::Code => 67u8,
            Field::Message => 77u8,
            Field::Detail => 68u8,
            Field::Hint => 72u8,
            Field::Position => 80u8,
            Field::InternalPosition => 112u8,
            Field::Query => 113u8,
            Field::Where => 87u8,
            Field::Schema => 115u8,
            Field::Table => 116u8,
            Field::Column => 99u8,
            Field::DataType => 100u8,
            Field::Constraint => 110u8,
            Field::File => 70u8,
            Field::Line => 76u8,
            Field::Routine => 82u8,
        }
    }

    pub fn from_byte(b: u8) -> (f: Option<Field>)
        ensures
            f == Field::spec_from_byte(b),
    {
        if b == 83u8 {
            Some(Field::SeverityI18n)
        } else if b == 86u8 {
            Some(Field::Severity)
        } else if b == 67u8 {
            Some(Field::Code)
        } else if b == 77u8 {
            Some(Field::Message)
        } else if b == 68u8 {
            Some(Field::Detail)
        } else if b == 72u8 {
            Some(Field::Hint)
        } else if b == 80u8 {
            Some(Field::Position)
        } else if b == 112u8 {
            Some(Field::InternalPosition)
        } else if b == 113u8 {
            Some(Field::Query)
        } else if b == 87u8 {
            Some(Field::Where)
        } else if b == 115u8 {
            Some(Field::Schema)
        } else if b == 116u8 {
            Some(Field::Table)
        } else if b == 99u8 {
            Some(Field::Column)
        } else if b == 100u8 {
            Some(Field::DataType)
        } else if b == 110u8 {
            Some(Field::Constraint)
        } else if b == 70u8 {
            Some(Field::File)
        } else if b == 76u8 {
            Some(Field::Line)
        } else if b == 82u8 {
            Some(Field::Routine)
        } else {
            None
        }
    }
}

/// Every field tag is a letter, so a tag byte can never be confused with
/// the report's NUL terminator, and the byte map is its own inverse.
pub proof fn lemma_field_byte_roundtrip(f: Field)
    ensures
        Field::spec_from_byte(f.spec_byte()) == Some(f),
        f.spec_byte() != 0,
{
}

// ---------------------------------------------------------------------------
// ErrorResponse
// ---------------------------------------------------------------------------

/// The view of an error report: its fields in wire order.
pub open spec fn fields_model(v: Seq<(Field, Vec<u8>)>) -> Seq<(Field, Seq<u8>)> {
    v.map_values(|p: (Field, Vec<u8>)| (p.0, p.1@))
}

/// The wire bytes of a field list: one tag byte and one NUL-terminated
/// string per field.
pub open spec fn fields_payload(fs: Seq<(Field, Seq<u8>)>) -> Seq<u8>
    decreases fs.len(),
{
    if fs.len() == 0 {
        Seq::<u8>::empty()
    } else {
        seq![fs[0].0.spec_byte()] + fs[0].1 + seq![0u8] + fields_payload(fs.skip(1))
    }
}

/// The byte count of a field list on the wire.
pub open spec fn fields_len(fs: Seq<(Field, Seq<u8>)>) -> int
    decreases fs.len(),
{
    if fs.len() == 0 {
        0
    } else {
        2 + fs[0].1.len() + fields_len(fs.skip(1))
    }
}

pub proof fn lemma_fields_len(fs: Seq<(Field, Seq<u8>)>)
    ensures
        fields_len(fs) >= 0,
        fields_payload(fs).len() == fields_len(fs),
    decreases fs.len(),
{
    if fs.len() > 0 {
        lemma_fields_len(fs.skip(1));
    }
}

/// The wire size of a three-field report, written out for the reports this
/// server itself constructs.
pub proof fn lemma_fields_len3(fs: Seq<(Field, Seq<u8>)>)
    requires
        fs.len() == 3,
    ensures
        fields_len(fs) == 6 + fs[0].1.len() + fs[1].1.len() + fs[2].1.len(),
{
    assert(fs.skip(1).skip(1).skip(1) =~= Seq::<(Field, Seq<u8>)>::empty());
    assert(fields_len(fs) == 2 + fs[0].1.len() + fields_len(fs.skip(1)));
    assert(fs.skip(1)[0] == fs[1] && fs.skip(1).skip(1)[0] == fs[2]);
    assert(fields_len(fs.skip(1)) == 2 + fs[1].1.len() + fields_len(fs.skip(1).skip(1)));
    assert(fields_len(fs.skip(1).skip(1)) == 2 + fs[2].1.len() + fields_len(
        fs.skip(1).skip(1).skip(1),
    ));
}

/// The first field carrying the given tag, if any.
pub open spec fn spec_get_field(fs: Seq<(Field, Seq<u8>)>, f: Field) -> Option<Seq<u8>>
    decreases fs.len(),
{
    if fs.len() == 0 {
        None
    } else if fs[0].0 == f {
        Some(fs[0].1)
    } else {
        spec_get_field(fs.skip(1), f)
    }
}

/// A field looked up in a report is shorter than the report's wire size.
pub proof fn lemma_get_field_len(fs: Seq<(Field, Seq<u8>)>, f: Field)
    ensures
        spec_get_field(fs, f) matches Some(v) ==> v.len() + 2 <= fields_len(fs),
    decreases fs.len(),
{
    if fs.len() > 0 {
        lemma_fields_len(fs.skip(1));
        lemma_get_field_len(fs.skip(1), f);
    }
}

/// Reads a field list: repeated tagged strings, ended by a bare NUL.
pub open spec fn dec_fields(s: Seq<u8>) -> Result<(Seq<(Field, Seq<u8>)>, int), DecodeError>
    decreases s.len(),
    via dec_fields_decreases
{
    if s.len() == 0 {
        Err(DecodeError::UnexpectedEof)
    } else if s[0] == 0 {
        Ok((Seq::empty(), 1))
    } else {
        match Field::spec_from_byte(s[0]) {
            None => Err(DecodeError::UnknownField(s[0])),
            Some(f) => match dec_cstr(s.skip(1)) {
                Err(e) => Err(e),
                Ok((v, n)) => match dec_fields(s.skip(1 + n)) {
                    Err(e) => Err(e),
                    Ok((fs, m)) => Ok((seq![(f, v)] + fs, 1 + n + m)),
                },
            },
        }
    }
}

#[via_fn]
proof fn dec_fields_decreases(s: Seq<u8>) {
    if s.len() > 0 && s[0] != 0 {
        crate::wire::lemma_nul_pos_bounds(s.skip(1));
    }
}

/// An error report: an ordered list of tagged text fields.  Every error
/// this server constructs carries at least Severity, Code and Message.
#[derive(Debug)]
pub struct ErrorResponse {
    pub fields: Vec<(Field, Vec<u8>)>,
}

impl View for ErrorResponse {
    type V = Seq<(Field, Seq<u8>)>;

    open spec fn view(&self) -> Seq<(Field, Seq<u8>)> {
        fields_model(self.fields@)
    }
}

impl ErrorResponse {
    /// A report with the three mandatory fields.
    pub fn new(severity: Severity, code: Vec<u8>, message: Vec<u8>) -> (r: ErrorResponse)
        ensures
            r@ == seq![
                (Field::Severity, severity.spec_render()),
                (Field::Code, code@),
                (Field::Message, message@),
            ],
    {
        let fields = vec![
            (Field::Severity, severity.render()),
            (Field::Code, code),
            (Field::Message, message),
        ];
        let r = ErrorResponse { fields };
        proof {
            assert(r@ =~= seq![
                (Field::Severity, severity.spec_render()),
                (Field::Code, code@),
                (Field::Message, message@),
            ]);
        }
        r
    }

    /// The first field carrying the given tag, if any.
    pub fn get_field(&self, f: Field) -> (r: Option<&Vec<u8>>)
        ensures
            (match r {
                Some(v) => spec_get_field(self@, f) == Some(v@),
                None => spec_get_field(self@, f) == None::<Seq<u8>>,
            }),
    {
        self.get_field_from(f, 0)
    }

    fn get_field_from(&self, f: Field, i: usize) -> (r: Option<&Vec<u8>>)
        requires
            i <= self.fields@.len(),
        ensures
            (match r {
                Some(v) => spec_get_field(self@.skip(i as int), f) == Some(v@),
                None => spec_get_field(self@.skip(i as int), f) == None::<Seq<u8>>,
            }),
        decreases self.fields@.len() - i,
    {
        if i == self.fields.len() {
            None
        } else {
            proof {
                assert(self@.skip(i as int)[0] == (self.fields@[i as int].0, self.fields@[
                    i as int].1@));
                assert(self@.skip(i as int).skip(1) =~= self@.skip(i + 1));
            }
            if self.fields[i].0 == f {
                Some(&self.fields[i].1)
            } else {
                self.get_field_from(f, i + 1)
            }
        }
    }
}

impl Encode for ErrorResponse {
    open spec fn enc(&self) -> Seq<u8> {
        frame(69u8, fields_payload(self@) + seq![0u8])
    }

    open spec fn enc_wf(&self) -> bool {
        fields_len(self@) + 5 <= 0x7fff_ffff
    }

    fn encode(&self, writer: &mut Writer) {
        proof {
            lemma_fields_len(self@);
            assert(self@.skip(0) =~= self@);
        }
        let payload_len = self.wire_len_from(0);
        writer.write_byte(69u8);
        writer.write_i32((payload_len + 5) as i32);
        self.encode_fields_from(writer, 0);
        writer.write_byte(0);
        proof {
            assert(self@.skip(0) =~= self@);
            assert(writer@ =~= old(writer)@ + self.enc());
        }
    }
}

impl ErrorResponse {
    /// The wire size of the fields from index `i` on.
    fn wire_len_from(&self, i: usize) -> (n: usize)
        requires
            i <= self.fields@.len(),
            fields_len(self@.skip(i as int)) <= 0x7fff_ffff,
        ensures
            n == fields_len(self@.skip(i as int)),
        decreases self.fields@.len() - i,
    {
        proof {
            lemma_fields_len(self@.skip(i as int));
        }
        if i == self.fields.len() {
            0
        } else {
            proof {
                assert(self@.skip(i as int)[0] == (self.fields@[i as int].0, self.fields@[
                    i as int].1@));
                assert(self@.skip(i as int).skip(1) =~= self@.skip(i + 1));
                lemma_fields_len(self@.skip(i + 1));
            }
            let rest = self.wire_len_from(i + 1);
            2 + self.fields[i].1.len() + rest
        }
    }

    fn encode_fields_from(&self, writer: &mut Writer, i: usize)
        requires
            i <= self.fields@.len(),
        ensures
            final(writer)@ == old(writer)@ + fields_payload(self@.skip(i as int)),
        decreases self.fields@.len() - i,
    {
        if i == self.fields.len() {
            proof {
                assert(writer@ =~= old(writer)@ + fields_payload(self@.skip(i as int)));
            }
        } else {
            proof {
                assert(self@.skip(i as int)[0] == (self.fields@[i as int].0, self.fields@[
                    i as int].1@));
                assert(self@.skip(i as int).skip(1) =~= self@.skip(i + 1));
            }
            writer.write_byte(self.fields[i].0.byte());
            writer.write_str(self.fields[i].1.as_slice());
            self.encode_fields_from(writer, i + 1);
            proof {
                assert(writer@ =~= old(writer)@ + fields_payload(self@.skip(i as int)));
            }
        }
    }

    fn decode_fields(reader: &mut Reader) -> (res: Result<Vec<(Field, Vec<u8>)>, DecodeError>)
        requires
            old(reader).wf(),
        ensures
            final(reader).wf(),
            final(reader).bytes() == old(reader).bytes(),
            old(reader).pos() <= final(reader).pos(),
            (match res {
                Ok(v) => dec_fields(old(reader).remaining()) == Ok::<
                    (Seq<(Field, Seq<u8>)>, int),
                    DecodeError,
                >((fields_model(v@), final(reader).pos() - old(reader).pos())),
                Err(e) => dec_fields(old(reader).remaining()) == Err::<
                    (Seq<(Field, Seq<u8>)>, int),
                    DecodeError,
                >(e),
            }),
        decreases old(reader).remaining().len(),
    {
        let b = reader.read_byte()?;
        if b == 0 {
            let v: Vec<(Field, Vec<u8>)> = Vec::new();
            proof {
                assert(fields_model(v@) =~= Seq::<(Field, Seq<u8>)>::empty());
            }
            return Ok(v);
        }
        let f = match Field::from_byte(b) {
            Some(f) => f,
            None => {
                return Err(DecodeError::UnknownField(b));
            },
        };
        let value = reader.read_string()?;
        proof {
            crate::wire::lemma_nul_pos_bounds(old(reader).remaining().skip(1));
        }
        let mut rest = Self::decode_fields(reader)?;
        let ghost pre = rest@;
        rest.insert(0, (f, value));
        proof {
            assert(rest@ =~= seq![(f, value)] + pre);
            assert(fields_model(rest@) =~= seq![(f, value@)] + fields_model(pre));
        }
        Ok(rest)
    }
}

impl Decode for ErrorResponse {
    open spec fn dec(s: Seq<u8>) -> Result<(Seq<(Field, Seq<u8>)>, int), DecodeError> {
        match dec_u8(s) {
            Err(e) => Err(e),
            Ok((tag, _)) => if tag != 69u8 {
                Err(DecodeError::UnknownMessageType(tag))
            } else {
                match dec_i32(s.skip(1)) {
                    Err(e) => Err(e),
                    Ok((_len, _)) => match dec_fields(s.skip(5)) {
                        Err(e) => Err(e),
                        Ok((fs, m)) => Ok((fs, 5 + m)),
                    },
                }
            },
        }
    }

    fn decode(reader: &mut Reader) -> (res: Result<ErrorResponse, DecodeError>) {
        let tag = reader.read_byte()?;
        if tag != 69u8 {
            return Err(DecodeError::UnknownMessageType(tag));
        }
        let _len = reader.read_i32()?;
        let fields = Self::decode_fields(reader)?;
        Ok(ErrorResponse { fields })
    }
}

// ---------------------------------------------------------------------------
// ReadyForQuery
// ---------------------------------------------------------------------------

/// The session's transaction status, one byte on the wire.  This catalog
/// uses the standard PostgreSQL convention — `'I'` idle, `'T'` in a
/// transaction, `'E'` failed — so that the status byte can never collide
/// with an error frame's tag.
#[derive(Clone, Copy, Debug, PartialEq, Eq, Structural)]
pub enum TransactionStatus {
    Idle,
    InTransaction,
    Failed,
}

impl TransactionStatus {
    pub open spec fn spec_byte(self) -> u8 {
        match self {
            TransactionStatus::Idle => 73u8,
            TransactionStatus::InTransaction => 84u8,
            TransactionStatus::Failed => 69u8,
        }
    }

    pub open spec fn spec_from_byte(b: u8) -> Option<TransactionStatus> {
        if b == 73u8 {
            Some(TransactionStatus::Idle)
        } else if b == 84u8 {
            Some(TransactionStatus::InTransaction)
        } else if b == 69u8 {
            Some(TransactionStatus::Failed)
        } else {
            None
        }
    }

    pub fn byte(&self) -> (b: u8)
        ensures
            b == self.spec_byte(),
    {
        match self {
            TransactionStatus::Idle => 73u8,
            TransactionStatus::InTransaction => 84u8,
            TransactionStatus::Failed => 69u8,
        }
    }
}

/// The server's signal that it is ready for the next query.
#[derive(Clone, Copy, Debug, PartialEq, Eq, Structural)]
pub struct ReadyForQuery {
    pub transaction_status: TransactionStatus,
}

impl View for ReadyForQuery {
    type V = ReadyForQuery;

    open spec fn view(&self) -> ReadyForQuery {
        *self
    }
}

impl ReadyForQuery {
    pub fn new(transaction_status: TransactionStatus) -> (r: ReadyForQuery)
        ensures
            r.transaction_status == transaction_status,
    {
        ReadyForQuery { transaction_status }
    }
}

impl Encode for ReadyForQuery {
    open spec fn enc(&self) -> Seq<u8> {
        frame(90u8, seq![self.transaction_status.spec_byte()])
    }

    open spec fn enc_wf(&self) -> bool {
        true
    }

    fn encode(&self, writer: &mut Writer) {
        writer.write_byte(90u8);
        writer.write_i32(5);
        writer.write_byte(self.transaction_status.byte());
        proof {
            assert(writer@ =~= old(writer)@ + self.enc());
        }
    }
}

impl Decode for ReadyForQuery {
    open spec fn dec(s: Seq<u8>) -> Result<(ReadyForQuery, int), DecodeError> {
        match dec_u8(s) {
            Err(e) => Err(e),
            Ok((tag, _)) => if tag != 90u8 {
                Err(DecodeError::UnknownMessageType(tag))
            } else {
                match dec_i32(s.skip(1)) {
                    Err(e) => Err(e),
                    Ok((_len, _)) => match dec_u8(s.skip(5)) {
                        Err(e) => Err(e),
                        Ok((b, _)) => match TransactionStatus::spec_from_byte(b) {
                            Some(st) => Ok((ReadyForQuery { transaction_status: st }, 6)),
                            None => Err(DecodeError::UnknownTransactionStatus(b)),
                        },
                    },
                }
            },
        }
    }

    fn decode(reader: &mut Reader) -> (res: Result<ReadyForQuery, DecodeError>) {
        let tag = reader.read_byte()?;
        if tag != 90u8 {
            return Err(DecodeError::UnknownMessageType(tag));
        }
        let _len = reader.read_i32()?;
        let b = reader.read_byte()?;
        if b == 73u8 {
            Ok(ReadyForQuery { transaction_status: TransactionStatus::Idle })
        } else if b == 84u8 {
            Ok(ReadyForQuery { transaction_status: TransactionStatus::InTransaction })
        } else if b == 69u8 {
            Ok(ReadyForQuery { transaction_status: TransactionStatus::Failed })
        } else {
            Err(DecodeError::UnknownTransactionStatus(b))
        }
    }
}

// ---------------------------------------------------------------------------
// CommandComplete
// ---------------------------------------------------------------------------

/// The result descriptor of a completed statement, rendered to the exact
/// text PostgreSQL clients expect.  The insert form carries the object id
/// first, then the row count, under the conventional `INSERT` keyword.
#[derive(Clone, Copy, Debug, PartialEq, Eq, Structural)]
pub enum CommandTag {
    Insert(u32, u64),
    Delete(u64),
    Update(u64),
    Select(u64),
    Move(u64),
    Fetch(u64),
    Copy(u64),
}

impl CommandTag {
    pub open spec fn spec_render(self) -> Seq<u8> {
        match self {
            CommandTag::Insert(oid, rows) => seq![73u8, 78u8, 83u8, 69u8, 82u8, 84u8, 32u8]
                + spec_dec_bytes(oid as nat) + seq![32u8] + spec_dec_bytes(rows as nat),
            CommandTag::Delete(rows) => seq![68u8, 69u8, 76u8, 69u8, 84u8, 69u8, 32u8]
                + spec_dec_bytes(rows as nat),
            CommandTag::Update(rows) => seq![85u8, 80u8, 68u8, 65u8, 84u8, 69u8, 32u8]
                + spec_dec_bytes(rows as nat),
            CommandTag::Select(rows) => seq![83u8, 69u8, 76u8, 69u8, 67u8, 84u8, 32u8]
                + spec_dec_bytes(rows as nat),
            CommandTag::Move(rows) => seq![77u8, 79u8, 86u8, 69u8, 32u8] + spec_dec_bytes(
                rows as nat,
            ),
            CommandTag::Fetch(rows) => seq![70u8, 69u8, 84u8, 67u8, 72u8, 32u8] + spec_dec_bytes(
                rows as nat,
            ),
            CommandTag::Copy(rows) => seq![67u8, 79u8, 80u8, 89u8, 32u8] + spec_dec_bytes(
                rows as nat,
            ),
        }
    }

    /// The tag's textual form, e.g. `SELECT 0` or `INSERT 0 1`.
    pub fn render(&self) -> (v: Vec<u8>)
        ensures
            v@ == self.spec_render(),
    {
        match self {
            CommandTag::Insert(oid, rows) => {
                let mut v = vec![73u8, 78u8, 83u8, 69u8, 82u8, 84u8, 32u8];
                push_dec_bytes(&mut v, (*oid) as u64);
                v.push(32u8);
                push_dec_bytes(&mut v, *rows);
                proof {
                    assert(v@ =~= self.spec_render());
                }
                v
            },
            CommandTag::Delete(rows) => {
                let mut v = vec![68u8, 69u8, 76u8, 69u8, 84u8, 69u8, 32u8];
                push_dec_bytes(&mut v, *rows);
                v
            },
            CommandTag::Update(rows) => {
                let mut v = vec![85u8, 80u8, 68u8, 65u8, 84u8, 69u8, 32u8];
                push_dec_bytes(&mut v, *rows);
                v
            },
            CommandTag::Select(rows) => {
                let mut v = vec![83u8, 69u8, 76u8, 69u8, 67u8, 84u8, 32u8];
                push_dec_bytes(&mut v, *rows);
                v
            },
            CommandTag::Move(rows) => {
                let mut v = vec![77u8, 79u8, 86u8, 69u8, 32u8];
                push_dec_bytes(&mut v, *rows);
                v
            },
            CommandTag::Fetch(rows) => {
                let mut v = vec![70u8, 69u8, 84u8, 67u8, 72u8, 32u8];
                push_dec_bytes(&mut v, *rows);
                v
            },
            CommandTag::Copy(rows) => {
                let mut v = vec![67u8, 79u8, 80u8, 89u8, 32u8];
                push_dec_bytes(&mut v, *rows);
                v
            },
        }
    }
}

/// The report that a statement finished, carrying its command tag text.
#[derive(Debug)]
pub struct CommandComplete {
    pub command_tag: Vec<u8>,
}

impl View for CommandComplete {
    type V = Seq<u8>;

    open spec fn view(&self) -> Seq<u8> {
        self.command_tag@
    }
}

impl CommandComplete {
    pub fn new(command_tag: Vec<u8>) -> (r: CommandComplete)
        ensures
            r@ == command_tag@,
    {
        CommandComplete { command_tag }
    }
}

impl Encode for CommandComplete {
    open spec fn enc(&self) -> Seq<u8> {
        frame(67u8, self@ + seq![0u8])
    }

    open spec fn enc_wf(&self) -> bool {
        self@.len() + 6 <= 0x7fff_ffff
    }

    fn encode(&self, writer: &mut Writer) {
        writer.write_byte(67u8);
        writer.write_i32((self.command_tag.len() + 5) as i32);
        writer.write_str(self.command_tag.as_slice());
        proof {
            assert(writer@ =~= old(writer)@ + self.enc());
        }
    }
}

impl Decode for CommandComplete {
    open spec fn dec(s: Seq<u8>) -> Result<(Seq<u8>, int), DecodeError> {
        match dec_u8(s) {
            Err(e) => Err(e),
            Ok((tag, _)) => if tag != 67u8 {
                Err(DecodeError::UnknownMessageType(tag))
            } else {
                match dec_i32(s.skip(1)) {
                    Err(e) => Err(e),
                    Ok((_len, _)) => match dec_cstr(s.skip(5)) {
                        Err(e) => Err(e),
                        Ok((v, n)) => Ok((v, 5 + n)),
                    },
                }
            },
        }
    }

    fn decode(reader: &mut Reader) -> (res: Result<CommandComplete, DecodeError>) {
        let tag = reader.read_byte()?;
        if tag != 67u8 {
            return Err(DecodeError::UnknownMessageType(tag));
        }
        let _len = reader.read_i32()?;
        let command_tag = reader.read_string()?;
        Ok(CommandComplete { command_tag })
    }
}

} // verus!
