//! A message: a header and a body of bytes in wire order.
use vstd::prelude::*;
use vstd::utf8::encode_utf8;
use crate::header::{
    Bus, FieldCode, Flags, MessageType, default_header, field_code_byte, field_kind, field_value_ok,
    fixed_fields,
};
use crate::marshal::{
    Data, EncodeError, Kind, MAX_WIRE_LEN, Value, all_fit, array_bytes, array_fits, field_array_bytes,
    field_array_fits, fits, kind_of, padding, struct_bytes, value_bytes, value_kind, values_bytes,
    zeros,
};
use crate::names::{
    NameError, check_exact_bus_name, check_exact_interface_name, check_exact_member_name,
    check_exact_object_path,
};
use crate::type_sig::{Type, TypeError};

verus! {

/// The bytes of a whole message: the fixed header fields, the header-field
/// array, padding to 8, the body.
pub open spec fn message_bytes(h: Bus, fields: Seq<(u8, Value)>, body: Seq<u8>) -> Seq<u8> {
    let fixed = values_bytes(0, fixed_fields(h));
    let head = fixed + field_array_bytes(fixed.len(), fields);
    head + zeros(padding(head.len(), 8)) + body
}

/// Why a value cannot stand in a header field.
#[derive(Debug, PartialEq, Eq, Structural)]
pub enum FieldError {
    /// The value is not of the kind the field's code carries.
    WrongKind,
    /// A name that breaks its grammar.
    Name(NameError),
    /// A signature that breaks its grammar.
    Signature(TypeError),
}

/// The UTF-8 bytes of `s` followed by one nul, as the name checks take them.
fn name_bytes(s: &str) -> (r: Vec<u8>)
    ensures
        r@ == encode_utf8(s@).push(0),
{
    let mut b = s.as_bytes_vec();
    b.push(0);
    b
}

/// A D-Bus message under construction. The header has a fixed signature; the
/// body's is carried in the header. The marshaller writes little-endian only,
/// so a message declares `Endian::Little`, which its header starts with and
/// which no method here changes.
pub struct Message {
    header: Bus,
    fields: Vec<(u8, Value)>,
    body: Data,
}

impl Message {
    /// A message with the default header and an empty body.
    pub fn new() -> (r: Message)
        ensures
            r.header_spec() == default_header(),
            r.fields_spec() == Seq::<(u8, Value)>::empty(),
            r.body_spec() == Seq::<u8>::empty(),
    {
        Message { header: Bus::new(), fields: Vec::new(), body: Data::new() }
    }

    /// The header as it stands.
    pub closed spec fn header_spec(&self) -> Bus {
        self.header
    }

    /// The body bytes written so far.
    pub closed spec fn body_spec(&self) -> Seq<u8> {
        self.body@
    }

    /// The header fields: code bytes and values, in the order added.
    pub closed spec fn fields_spec(&self) -> Seq<(u8, Value)> {
        self.fields@
    }

    /// The header as it is written: with the body's length as body size.
    pub open spec fn sealed_header(&self) -> Bus {
        Bus { body_size: self.body_spec().len() as u32, ..self.header_spec() }
    }

    /// The header.
    pub fn header(&self) -> (r: &Bus)
        ensures
            *r == self.header_spec(),
    {
        &self.header
    }

    /// The body written so far.
    pub fn body(&self) -> (r: &[u8])
        ensures
            r@ == self.body_spec(),
    {
        self.body.as_bytes()
    }

    /// Appends a value to the body, aligned from the start of the body. On
    /// error nothing is written.
    pub fn append(&mut self, v: &Value) -> (r: Result<(), EncodeError>)
        ensures
            r is Ok <==> fits(*v),
            r is Ok ==> final(self).body_spec() == old(self).body_spec() + value_bytes(
                old(self).body_spec().len(),
                *v,
            ),
            r is Err ==> final(self).body_spec() == old(self).body_spec(),
            final(self).header_spec() == old(self).header_spec(),
            final(self).fields_spec() == old(self).fields_spec(),
    {
        self.body.put_value(v)
    }

    /// Appends a homogeneous array of `kind` to the body. On error nothing is
    /// written.
    pub fn append_array(&mut self, kind: Kind, items: &Vec<Value>) -> (r: Result<(), EncodeError>)
        requires
            forall|i: int| 0 <= i < items@.len() ==> kind_of(#[trigger] items@[i]) == kind,
        ensures
            r is Ok <==> array_fits(old(self).body_spec().len(), kind, items@),
            r is Ok ==> final(self).body_spec() == old(self).body_spec() + array_bytes(
                old(self).body_spec().len(),
                kind,
                items@,
            ),
            r is Err ==> final(self).body_spec() == old(self).body_spec(),
            final(self).header_spec() == old(self).header_spec(),
            final(self).fields_spec() == old(self).fields_spec(),
    {
        self.body.put_array(kind, items)
    }

    /// Appends a struct to the body, aligned to 8. On error nothing is written.
    pub fn append_struct(&mut self, fields: &Vec<Value>) -> (r: Result<(), EncodeError>)
        ensures
            r is Ok <==> all_fit(fields@),
            r is Ok ==> final(self).body_spec() == old(self).body_spec() + struct_bytes(
                old(self).body_spec().len(),
                fields@,
            ),
            r is Err ==> final(self).body_spec() == old(self).body_spec(),
            final(self).header_spec() == old(self).header_spec(),
            final(self).fields_spec() == old(self).fields_spec(),
    {
        self.body.put_struct(fields)
    }

    /// Adds a header field after checking its value: it must be of the kind
    /// the code carries, and a name or signature must meet its grammar. On
    /// error the fields are left as they were.
    pub fn add_field(&mut self, code: FieldCode, v: Value) -> (r: Result<(), FieldError>)
        ensures
            r is Ok <==> field_value_ok(code, v),
            r == Err::<(), FieldError>(FieldError::WrongKind) <==> field_kind(code) != Some(kind_of(v)),
            r is Ok ==> final(self).fields_spec() == old(self).fields_spec().push((field_code_byte(code), v)),
            r is Err ==> final(self).fields_spec() == old(self).fields_spec(),
            final(self).header_spec() == old(self).header_spec(),
            final(self).body_spec() == old(self).body_spec(),
    {
        let same_kind = match code.kind() {
            Some(k) => k == value_kind(&v),
            None => false,
        };
        if !same_kind {
            return Err(FieldError::WrongKind);
        }
        let checked: Result<(), NameError> = match &v {
            Value::Path(s) => check_exact_object_path(name_bytes(s.as_str()).as_slice()),
            Value::Str(s) => {
                let b = name_bytes(s.as_str());
                match code {
                    FieldCode::Interface => check_exact_interface_name(b.as_slice()),
                    FieldCode::ErrorName => check_exact_interface_name(b.as_slice()),
                    FieldCode::Member => check_exact_member_name(b.as_slice()),
                    _ => check_exact_bus_name(b.as_slice()),
                }
            },
            Value::Sig(s) => match Type::from_str(s.as_str()) {
                Ok(_) => Ok(()),
                Err(e) => {
                    return Err(FieldError::Signature(e));
                },
            },
            _ => Ok(()),
        };
        match checked {
            Ok(()) => {
                self.fields.push((code.code(), v));
                Ok(())
            },
            Err(e) => Err(FieldError::Name(e)),
        }
    }

    /// Adds a header field whose value is known to be of the kind its code
    /// carries, with any name or signature in it meeting its grammar.
    pub fn add_field_unchecked(&mut self, code: FieldCode, v: Value)
        requires
            field_value_ok(code, v),
        ensures
            final(self).fields_spec() == old(self).fields_spec().push((field_code_byte(code), v)),
            final(self).header_spec() == old(self).header_spec(),
            final(self).body_spec() == old(self).body_spec(),
    {
        self.fields.push((code.code(), v));
    }

    /// The whole message in wire order, its header recording the body's
    /// length. Fails if the body, a header field or the field array is longer
    /// than the wire format can count.
    pub fn to_bytes(&self) -> (r: Result<Data, EncodeError>)
        ensures
            r is Ok <==> self.body_spec().len() <= MAX_WIRE_LEN && field_array_fits(
                values_bytes(0, fixed_fields(self.sealed_header())).len(),
                self.fields_spec(),
            ),
            r matches Ok(d) ==> d@ == message_bytes(self.sealed_header(), self.fields_spec(), self.body_spec()),
    {
        let n = self.body.len();
        if n as u64 > MAX_WIRE_LEN {
            return Err(EncodeError::TooLong);
        }
        let mut h = self.header;
        h.body_size = n as u32;
        assert(h == self.sealed_header());
        let mut d = Data::new();
        h.encode_into(&mut d);
        match d.put_field_array(&self.fields) {
            Ok(()) => {},
            Err(e) => {
                return Err(e);
            },
        }
        d.pad_to(8);
        d.put_bytes(self.body.as_bytes());
        assert(d@ =~= message_bytes(h, self.fields@, self.body@));
        Ok(d)
    }

    /// Sets the message type.
    pub fn set_type(&mut self, t: MessageType)
        ensures
            final(self).header_spec() == (Bus { typ: t, ..old(self).header_spec() }),
            final(self).body_spec() == old(self).body_spec(),
            final(self).fields_spec() == old(self).fields_spec(),
    {
        self.header.typ = t;
    }

    /// Sets the header flags.
    pub fn set_flags(&mut self, f: Flags)
        ensures
            final(self).header_spec() == (Bus { flags: f, ..old(self).header_spec() }),
            final(self).body_spec() == old(self).body_spec(),
            final(self).fields_spec() == old(self).fields_spec(),
    {
        self.header.flags = f;
    }

    /// Sets the serial, which the connection assigns.
    pub fn set_serial(&mut self, serial: u32)
        ensures
            final(self).header_spec() == (Bus { serial, ..old(self).header_spec() }),
            final(self).body_spec() == old(self).body_spec(),
            final(self).fields_spec() == old(self).fields_spec(),
    {
        self.header.serial = serial;
    }

    /// Records the body's length in the header, as is done just before the
    /// header is written. A body longer than the length field can count is
    /// refused and the header is left as it was.
    pub fn seal_body_size(&mut self) -> (r: Result<(), EncodeError>)
        ensures
            r is Ok <==> old(self).body_spec().len() <= MAX_WIRE_LEN,
            r is Ok ==> final(self).header_spec() == (Bus {
                body_size: old(self).body_spec().len() as u32,
                ..old(self).header_spec()
            }),
            r is Err ==> final(self).header_spec() == old(self).header_spec(),
            final(self).body_spec() == old(self).body_spec(),
            final(self).fields_spec() == old(self).fields_spec(),
    {
        let n = self.body.len();
        if n as u64 > MAX_WIRE_LEN {
            return Err(EncodeError::TooLong);
        }
        self.header.body_size = n as u32;
        Ok(())
    }
}

impl Default for Message {
    fn default() -> (r: Message)
        ensures
            r.header_spec() == default_header(),
            r.fields_spec() == Seq::<(u8, Value)>::empty(),
            r.body_spec() == Seq::<u8>::empty(),
    {
        Message::new()
    }
}

} // verus!
