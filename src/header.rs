//! The fixed part of a D-Bus message header and the codes it is made of.
use vstd::prelude::*;
use vstd::utf8::encode_utf8;
use crate::marshal::{Data, Kind, Value, kind_of, values_bytes};
use crate::names::{is_bus_name, is_interface_name, is_member_name, is_object_path};
use crate::type_sig::is_valid_signature;

verus! {

/// The byte order a message declares.
#[derive(Debug, Clone, Copy, PartialEq, Eq, Structural)]
pub enum Endian {
    Little,
    Big,
}

/// `'l'` and `'b'`, the wire markers of the two byte orders.
pub open spec fn endian_byte(e: Endian) -> u8 {
    match e {
        Endian::Little => 0x6c,
        Endian::Big => 0x62,
    }
}

impl Endian {
    /// The wire marker.
    pub fn to_byte(self) -> (r: u8)
        ensures
            r == endian_byte(self),
    {
        match self {
            Endian::Little => 0x6c,
            Endian::Big => 0x62,
        }
    }

    /// The byte order a marker stands for; any other byte is refused.
    pub fn from_byte(b: u8) -> (r: Option<Endian>)
        ensures
            r matches Some(e) ==> endian_byte(e) == b,
            r is None <==> (b != 0x6c && b != 0x62),
    {
        if b == 0x6c {
            Some(Endian::Little)
        } else if b == 0x62 {
            Some(Endian::Big)
        } else {
            None
        }
    }
}

/// The kind of a message.
#[derive(Debug, Clone, Copy, PartialEq, Eq, Structural)]
pub enum MessageType {
    Invalid,
    MethodCall,
    MethodReturn,
    MethodError,
    Signal,
}

pub open spec fn message_type_code(t: MessageType) -> u8 {
    match t {
        MessageType::Invalid => 0,
        MessageType::MethodCall => 1,
        MessageType::MethodReturn => 2,
        MessageType::MethodError => 3,
        MessageType::Signal => 4,
    }
}

impl MessageType {
    /// The wire code, 0 to 4.
    pub fn code(self) -> (r: u8)
        ensures
            r == message_type_code(self),
    {
        match self {
            MessageType::Invalid => 0,
            MessageType::MethodCall => 1,
            MessageType::MethodReturn => 2,
            MessageType::MethodError => 3,
            MessageType::Signal => 4,
        }
    }

    /// The type a code stands for; codes above 4 are refused.
    pub fn from_code(b: u8) -> (r: Option<MessageType>)
        ensures
            r matches Some(t) ==> message_type_code(t) == b,
            r is None <==> b > 4,
    {
        match b {
            0 => Some(MessageType::Invalid),
            1 => Some(MessageType::MethodCall),
            2 => Some(MessageType::MethodReturn),
            3 => Some(MessageType::MethodError),
            4 => Some(MessageType::Signal),
            _ => None,
        }
    }
}

/// The header flags.
#[derive(Debug, Clone, Copy, PartialEq, Eq, Structural)]
pub struct Flags {
    pub no_reply_expected: bool,
    pub no_auto_start: bool,
    pub allow_interactive_auth: bool,
}

/// The flags byte: bit 0 no reply expected, bit 1 no auto start, bit 2 allow
/// interactive authorization.
pub open spec fn flags_byte(f: Flags) -> u8 {
    ((if f.no_reply_expected { 1int } else { 0 }) + (if f.no_auto_start { 2int } else { 0 }) + (
    if f.allow_interactive_auth { 4int } else { 0 })) as u8
}

impl Flags {
    /// No flag set.
    pub fn none() -> (r: Flags)
        ensures
            flags_byte(r) == 0,
            !r.no_reply_expected && !r.no_auto_start && !r.allow_interactive_auth,
    {
        Flags { no_reply_expected: false, no_auto_start: false, allow_interactive_auth: false }
    }

    /// The flags byte.
    pub fn bits(self) -> (r: u8)
        ensures
            r == flags_byte(self),
    {
        let a: u8 = if self.no_reply_expected { 1 } else { 0 };
        let b: u8 = if self.no_auto_start { 2 } else { 0 };
        let c: u8 = if self.allow_interactive_auth { 4 } else { 0 };
        a + b + c
    }

    /// The flags a byte holds; a byte with an unknown bit set is refused.
    pub fn from_bits(b: u8) -> (r: Option<Flags>)
        ensures
            r matches Some(f) ==> flags_byte(f) == b,
            r is None <==> b > 7,
    {
        if b > 7 {
            return None;
        }
        Some(Flags { no_reply_expected: b % 2 == 1, no_auto_start: (b / 2) % 2 == 1, allow_interactive_auth: b / 4 == 1 })
    }
}

/// The codes of the variable header fields.
#[derive(Debug, Clone, Copy, PartialEq, Eq, Structural)]
pub enum FieldCode {
    Invalid,
    Path,
    Interface,
    Member,
    ErrorName,
    ReplySerial,
    Destination,
    Sender,
    Signature,
    UnixFds,
}

pub open spec fn field_code_byte(c: FieldCode) -> u8 {
    match c {
        FieldCode::Invalid => 0,
        FieldCode::Path => 1,
        FieldCode::Interface => 2,
        FieldCode::Member => 3,
        FieldCode::ErrorName => 4,
        FieldCode::ReplySerial => 5,
        FieldCode::Destination => 6,
        FieldCode::Sender => 7,
        FieldCode::Signature => 8,
        FieldCode::UnixFds => 9,
    }
}

/// The kind of value each header field carries; the invalid code marks an
/// absent field and carries none.
pub open spec fn field_kind(c: FieldCode) -> Option<Kind> {
    match c {
        FieldCode::Invalid => None,
        FieldCode::Path => Some(Kind::Path),
        FieldCode::ReplySerial => Some(Kind::U32),
        FieldCode::UnixFds => Some(Kind::U32),
        FieldCode::Signature => Some(Kind::Sig),
        _ => Some(Kind::Str),
    }
}

/// A value may stand in a header field: it is of the kind the field's code
/// carries, and a name or signature meets its grammar (as text, terminated
/// by one nul). Error names follow the interface-name grammar.
pub open spec fn field_value_ok(c: FieldCode, v: Value) -> bool {
    &&& field_kind(c) == Some(kind_of(v))
    &&& match v {
        Value::Path(s) => is_object_path(encode_utf8(s@).push(0)),
        Value::Sig(s) => is_valid_signature(s@),
        Value::Str(s) => match c {
            FieldCode::Interface => is_interface_name(encode_utf8(s@).push(0)),
            FieldCode::ErrorName => is_interface_name(encode_utf8(s@).push(0)),
            FieldCode::Member => is_member_name(encode_utf8(s@).push(0)),
            _ => is_bus_name(encode_utf8(s@).push(0)),
        },
        _ => true,
    }
}

impl FieldCode {
    /// The kind of value the field carries; none for the invalid code.
    pub fn kind(self) -> (r: Option<Kind>)
        ensures
            r == field_kind(self),
    {
        match self {
            FieldCode::Invalid => None,
            FieldCode::Path => Some(Kind::Path),
            FieldCode::ReplySerial => Some(Kind::U32),
            FieldCode::UnixFds => Some(Kind::U32),
            FieldCode::Signature => Some(Kind::Sig),
            _ => Some(Kind::Str),
        }
    }

    /// The wire code, 0 to 9.
    pub fn code(self) -> (r: u8)
        ensures
            r == field_code_byte(self),
    {
        match self {
            FieldCode::Invalid => 0,
            FieldCode::Path => 1,
            FieldCode::Interface => 2,
            FieldCode::Member => 3,
            FieldCode::ErrorName => 4,
            FieldCode::ReplySerial => 5,
            FieldCode::Destination => 6,
            FieldCode::Sender => 7,
            FieldCode::Signature => 8,
            FieldCode::UnixFds => 9,
        }
    }

    /// The field a code stands for; codes above 9 are refused.
    pub fn from_code(b: u8) -> (r: Option<FieldCode>)
        ensures
            r matches Some(c) ==> field_code_byte(c) == b,
            r is None <==> b > 9,
    {
        match b {
            0 => Some(FieldCode::Invalid),
            1 => Some(FieldCode::Path),
            2 => Some(FieldCode::Interface),
            3 => Some(FieldCode::Member),
            4 => Some(FieldCode::ErrorName),
            5 => Some(FieldCode::ReplySerial),
            6 => Some(FieldCode::Destination),
            7 => Some(FieldCode::Sender),
            8 => Some(FieldCode::Signature),
            9 => Some(FieldCode::UnixFds),
            _ => None,
        }
    }
}

/// The fixed part of a message header.
#[derive(Debug, Clone, Copy, PartialEq, Eq, Structural)]
pub struct Bus {
    pub endian: Endian,
    pub typ: MessageType,
    pub flags: Flags,
    pub version: u8,
    pub body_size: u32,
    pub serial: u32,
}

/// The header's fixed fields in wire order: four bytes, then two `u32`.
pub open spec fn fixed_fields(h: Bus) -> Seq<Value> {
    seq![
        Value::Byte(endian_byte(h.endian)),
        Value::Byte(message_type_code(h.typ)),
        Value::Byte(flags_byte(h.flags)),
        Value::Byte(h.version),
        Value::U32(h.body_size),
        Value::U32(h.serial),
    ]
}

/// The default header: little-endian, type invalid, no flags, protocol
/// version 1, empty body, serial 0.
pub open spec fn default_header() -> Bus {
    Bus {
        endian: Endian::Little,
        typ: MessageType::Invalid,
        flags: Flags { no_reply_expected: false, no_auto_start: false, allow_interactive_auth: false },
        version: 1,
        body_size: 0,
        serial: 0,
    }
}

impl Bus {
    /// The default header.
    pub fn new() -> (r: Bus)
        ensures
            r == default_header(),
    {
        Bus {
            endian: Endian::Little,
            typ: MessageType::Invalid,
            flags: Flags::none(),
            version: 1,
            body_size: 0,
            serial: 0,
        }
    }

    /// Appends the fixed header fields to `buf`.
    pub fn encode_into(&self, buf: &mut Data)
        ensures
            final(buf)@ == old(buf)@ + values_bytes(old(buf)@.len(), fixed_fields(*self)),
    {
        let mut fields: Vec<Value> = Vec::new();
        fields.push(Value::Byte(self.endian.to_byte()));
        fields.push(Value::Byte(self.typ.code()));
        fields.push(Value::Byte(self.flags.bits()));
        fields.push(Value::Byte(self.version));
        fields.push(Value::U32(self.body_size));
        fields.push(Value::U32(self.serial));
        assert(fields@ =~= fixed_fields(*self));
        let r = buf.put_values(&fields);
        assert(r is Ok);
    }
}

} // verus!
