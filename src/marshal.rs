//! The marshaller: appends values in D-Bus wire format to a growable byte
//! buffer. Every value is aligned, from the start of the buffer, to its
//! natural alignment by zero padding; all integers are little-endian.
use vstd::prelude::*;
use vstd::arithmetic::div_mod::{
    lemma_fundamental_div_mod, lemma_mod_multiples_basic, lemma_mod_self_0, lemma_small_mod,
};
use vstd::utf8::encode_utf8;

verus! {

/// Why a value could not be encoded.
#[derive(Debug, PartialEq, Eq, Structural)]
pub enum EncodeError {
    /// A length does not fit the 32-bit length field of the wire format.
    TooLong,
}

/// The largest length the wire format can carry.
pub const MAX_WIRE_LEN: u64 = 0xffff_ffff;

/// The `n` low bytes of `v`, least significant first.
pub open spec fn le_bytes(v: nat, n: nat) -> Seq<u8>
    decreases n,
{
    if n == 0 {
        seq![]
    } else {
        seq![(v % 256) as u8] + le_bytes(v / 256, (n - 1) as nat)
    }
}

/// The number of zero bytes that bring `pos` to a multiple of `k`.
pub open spec fn padding(pos: nat, k: nat) -> nat {
    if k == 0 {
        0
    } else {
        ((k - pos % k) as int % (k as int)) as nat
    }
}

/// `n` zero bytes.
pub open spec fn zeros(n: nat) -> Seq<u8> {
    Seq::new(n, |i: int| 0u8)
}

/// A basic value the marshaller can write.
#[derive(Debug)]
pub enum Value {
    Byte(u8),
    Bool(bool),
    U32(u32),
    U64(u64),
    /// UTF-8 text (`s`).
    Str(String),
    /// An object path (`o`), written as a string.
    Path(String),
    /// A type signature (`g`): a one-byte length, the codes, one nul.
    Sig(String),
}

/// The kind of a basic value, which fixes its alignment.
#[derive(Debug, Clone, Copy, PartialEq, Eq, Structural)]
pub enum Kind {
    Byte,
    Bool,
    U32,
    U64,
    Str,
    Path,
    Sig,
}

pub open spec fn kind_of(v: Value) -> Kind {
    match v {
        Value::Byte(_) => Kind::Byte,
        Value::Bool(_) => Kind::Bool,
        Value::U32(_) => Kind::U32,
        Value::U64(_) => Kind::U64,
        Value::Str(_) => Kind::Str,
        Value::Path(_) => Kind::Path,
        Value::Sig(_) => Kind::Sig,
    }
}

/// The type code of a kind in a signature.
pub open spec fn type_code(k: Kind) -> u8 {
    match k {
        Kind::Byte => 0x79,  // y
        Kind::Bool => 0x62,  // b
        Kind::U32 => 0x75,  // u
        Kind::U64 => 0x74,  // t
        Kind::Str => 0x73,  // s
        Kind::Path => 0x6f,  // o
        Kind::Sig => 0x67,  // g
    }
}

/// The natural alignment of a kind: its size for the integers, that of the
/// length field for strings.
pub open spec fn alignment(k: Kind) -> nat {
    match k {
        Kind::Byte => 1,
        Kind::Sig => 1,
        Kind::U64 => 8,
        _ => 4,
    }
}

/// A string on the wire: its byte length, its UTF-8 bytes, one nul.
pub open spec fn str_payload(s: Seq<char>) -> Seq<u8> {
    le_bytes(encode_utf8(s).len(), 4) + encode_utf8(s) + seq![0u8]
}

/// A signature on the wire: its byte length in one byte, its bytes, one nul.
pub open spec fn sig_payload(s: Seq<char>) -> Seq<u8> {
    seq![encode_utf8(s).len() as u8] + encode_utf8(s) + seq![0u8]
}

/// The longest signature the wire format can carry.
pub const MAX_SIG_LEN: u64 = 255;

/// The bytes of a value, without padding.
pub open spec fn payload(v: Value) -> Seq<u8> {
    match v {
        Value::Byte(x) => seq![x],
        Value::Bool(b) => le_bytes(if b { 1 } else { 0 }, 4),
        Value::U32(x) => le_bytes(x as nat, 4),
        Value::U64(x) => le_bytes(x as nat, 8),
        Value::Str(s) => str_payload(s@),
        Value::Path(s) => str_payload(s@),
        Value::Sig(s) => sig_payload(s@),
    }
}

/// A value's lengths fit the wire format.
pub open spec fn fits(v: Value) -> bool {
    match v {
        Value::Str(s) => encode_utf8(s@).len() <= MAX_WIRE_LEN,
        Value::Path(s) => encode_utf8(s@).len() <= MAX_WIRE_LEN,
        Value::Sig(s) => encode_utf8(s@).len() <= MAX_SIG_LEN,
        _ => true,
    }
}

pub open spec fn all_fit(vs: Seq<Value>) -> bool {
    forall|i: int| 0 <= i < vs.len() ==> fits(#[trigger] vs[i])
}

/// The bytes that writing `v` at offset `pos` of a buffer appends: padding to
/// its alignment, then its payload.
pub open spec fn value_bytes(pos: nat, v: Value) -> Seq<u8> {
    zeros(padding(pos, alignment(kind_of(v)))) + payload(v)
}

/// The bytes that writing `vs` in order at offset `pos` appends.
pub open spec fn values_bytes(pos: nat, vs: Seq<Value>) -> Seq<u8>
    decreases vs.len(),
{
    if vs.len() == 0 {
        seq![]
    } else {
        let pre = values_bytes(pos, vs.drop_last());
        pre + value_bytes(pos + pre.len(), vs.last())
    }
}

/// Where the elements of an array of kind `k` written at `pos` start: after
/// the 4-aligned length field and the padding to the element alignment.
pub open spec fn elements_start(pos: nat, k: Kind) -> nat {
    let after_len = pos + padding(pos, 4) + 4;
    after_len + padding(after_len, alignment(k))
}

/// The encoded elements of an array written at `pos`.
pub open spec fn elements_bytes(pos: nat, k: Kind, vs: Seq<Value>) -> Seq<u8> {
    values_bytes(elements_start(pos, k), vs)
}

/// An array on the wire: the length field (the byte size of the elements
/// alone), padding to the element alignment, the elements.
pub open spec fn array_bytes(pos: nat, k: Kind, vs: Seq<Value>) -> Seq<u8> {
    let after_len = pos + padding(pos, 4) + 4;
    zeros(padding(pos, 4)) + le_bytes(elements_bytes(pos, k, vs).len(), 4) + zeros(
        padding(after_len, alignment(k)),
    ) + elements_bytes(pos, k, vs)
}

/// An array can be written: its elements fit, and so does their byte size.
pub open spec fn array_fits(pos: nat, k: Kind, vs: Seq<Value>) -> bool {
    all_fit(vs) && elements_bytes(pos, k, vs).len() <= MAX_WIRE_LEN
}

/// A struct on the wire: padding to 8, whatever its first field, then the fields.
pub open spec fn struct_bytes(pos: nat, vs: Seq<Value>) -> Seq<u8> {
    zeros(padding(pos, 8)) + values_bytes(pos + padding(pos, 8), vs)
}

proof fn lemma_le_bytes_len(v: nat, n: nat)
    ensures
        #[trigger] le_bytes(v, n).len() == n,
    decreases n,
{
    if n > 0 {
        lemma_le_bytes_len(v / 256, (n - 1) as nat);
    }
}

proof fn lemma_values_bytes_step(pos: nat, vs: Seq<Value>, i: int)
    requires
        0 <= i < vs.len(),
    ensures
        values_bytes(pos, vs.take(i + 1)) == values_bytes(pos, vs.take(i)) + value_bytes(
            pos + values_bytes(pos, vs.take(i)).len(),
            vs[i],
        ),
{
    assert(vs.take(i + 1).drop_last() =~= vs.take(i));
}

/// A variant on the wire: the signature of the value's type (one code), then
/// the value, aligned as usual.
pub open spec fn variant_bytes(pos: nat, v: Value) -> Seq<u8> {
    seq![1u8, type_code(kind_of(v)), 0u8] + value_bytes(pos + 3, v)
}

/// A header field on the wire: a struct, hence padding to 8, of its code
/// byte and a variant.
pub open spec fn field_bytes(pos: nat, f: (u8, Value)) -> Seq<u8> {
    zeros(padding(pos, 8)) + seq![f.0] + variant_bytes(pos + padding(pos, 8) + 1, f.1)
}

/// The bytes that writing the header fields `fs` in order at `pos` appends.
pub open spec fn fields_bytes(pos: nat, fs: Seq<(u8, Value)>) -> Seq<u8>
    decreases fs.len(),
{
    if fs.len() == 0 {
        seq![]
    } else {
        let pre = fields_bytes(pos, fs.drop_last());
        pre + field_bytes(pos + pre.len(), fs.last())
    }
}

/// The values of the header fields fit the wire format.
pub open spec fn all_fields_fit(fs: Seq<(u8, Value)>) -> bool {
    forall|i: int| 0 <= i < fs.len() ==> fits(#[trigger] fs[i].1)
}

/// Where the entries of a header-field array written at `pos` start: after
/// the 4-aligned length field and the padding to 8 that structs need.
pub open spec fn field_entries_start(pos: nat) -> nat {
    let after_len = pos + padding(pos, 4) + 4;
    after_len + padding(after_len, 8)
}

/// The header-field array on the wire: the byte size of its entries, padding
/// to 8, the entries.
pub open spec fn field_array_bytes(pos: nat, fs: Seq<(u8, Value)>) -> Seq<u8> {
    let after_len = pos + padding(pos, 4) + 4;
    let entries = fields_bytes(field_entries_start(pos), fs);
    zeros(padding(pos, 4)) + le_bytes(entries.len(), 4) + zeros(padding(after_len, 8)) + entries
}

/// A header-field array can be written: its values fit, and so does the
/// byte size of its entries.
pub open spec fn field_array_fits(pos: nat, fs: Seq<(u8, Value)>) -> bool {
    all_fields_fit(fs) && fields_bytes(field_entries_start(pos), fs).len() <= MAX_WIRE_LEN
}

proof fn lemma_fields_bytes_step(pos: nat, fs: Seq<(u8, Value)>, i: int)
    requires
        0 <= i < fs.len(),
    ensures
        fields_bytes(pos, fs.take(i + 1)) == fields_bytes(pos, fs.take(i)) + field_bytes(
            pos + fields_bytes(pos, fs.take(i)).len(),
            fs[i],
        ),
{
    assert(fs.take(i + 1).drop_last() =~= fs.take(i));
}

proof fn lemma_padding(pos: nat, k: nat)
    requires
        k > 0,
    ensures
        padding(pos, k) == ((k - pos % k) as int) % (k as int),
        padding(pos, k) < k,
        (pos + padding(pos, k)) % k == 0,
{
    let p = padding(pos, k);
    let x: int = pos as int;
    let d: int = k as int;
    lemma_fundamental_div_mod(x, d);
    if x % d == 0 {
        lemma_mod_self_0(d);
    } else {
        lemma_small_mod((d - x % d) as nat, k);
        assert(p == d - x % d);
        assert(x + p == (x / d + 1) * d) by (nonlinear_arith)
            requires
                x == d * (x / d) + x % d,
                p == d - x % d,
        ;
        lemma_mod_multiples_basic(x / d + 1, d);
    }
}

/// Writing a value at offset `pos` puts its first payload byte at a multiple
/// of its alignment `k`: the padding before it is `(k - pos % k) % k` zero
/// bytes, fewer than `k`, and the payload follows it unchanged.
pub proof fn lemma_value_alignment(pos: nat, v: Value)
    ensures
        ({
            let k = alignment(kind_of(v));
            let p = padding(pos, k);
            &&& p == ((k - pos % k) as int) % (k as int)
            &&& p < k
            &&& (pos + p) % k == 0
            &&& value_bytes(pos, v).take(p as int) == zeros(p)
            &&& value_bytes(pos, v).skip(p as int) == payload(v)
        }),
{
    let k = alignment(kind_of(v));
    let p = padding(pos, k);
    lemma_padding(pos, k);
    assert(value_bytes(pos, v).take(p as int) =~= zeros(p));
    assert(value_bytes(pos, v).skip(p as int) =~= payload(v));
}

/// Writing a struct at offset `pos` puts its first field at a multiple of 8,
/// whatever that field is: `(8 - pos % 8) % 8` zero bytes come first, then
/// the fields as written from there.
pub proof fn lemma_struct_alignment(pos: nat, vs: Seq<Value>)
    ensures
        ({
            let p = padding(pos, 8);
            &&& p == ((8 - pos % 8) as int) % 8
            &&& p < 8
            &&& (pos + p) % 8 == 0
            &&& struct_bytes(pos, vs).take(p as int) == zeros(p)
            &&& struct_bytes(pos, vs).skip(p as int) == values_bytes(pos + p, vs)
        }),
{
    let p = padding(pos, 8);
    lemma_padding(pos, 8);
    assert(struct_bytes(pos, vs).take(p as int) =~= zeros(p));
    assert(struct_bytes(pos, vs).skip(p as int) =~= values_bytes(pos + p, vs));
}

/// Writing an array of kind `k` at offset `pos` puts its length field at a
/// multiple of 4 after `(4 - pos % 4) % 4` zero bytes, and its first element
/// at a multiple of the element alignment `a` after `(a - q % a) % a` more
/// zero bytes, `q` being where the length field ends.
pub proof fn lemma_array_alignment(pos: nat, k: Kind, vs: Seq<Value>)
    ensures
        ({
            let p = padding(pos, 4);
            let q = pos + p + 4;
            let a = alignment(k);
            let e = padding(q, a);
            let w = array_bytes(pos, k, vs);
            &&& p == ((4 - pos % 4) as int) % 4
            &&& p < 4
            &&& (pos + p) % 4 == 0
            &&& e == ((a - q % a) as int) % (a as int)
            &&& e < a
            &&& (q + e) % a == 0
            &&& elements_start(pos, k) == q + e
            &&& w.take(p as int) == zeros(p)
            &&& w.subrange(p as int, p + 4 as int) == le_bytes(elements_bytes(pos, k, vs).len(), 4)
            &&& w.subrange((p + 4) as int, (p + 4 + e) as int) == zeros(e)
            &&& w.skip((p + 4 + e) as int) == elements_bytes(pos, k, vs)
        }),
{
    let p = padding(pos, 4);
    let q = pos + p + 4;
    let a = alignment(k);
    let e = padding(q, a);
    let w = array_bytes(pos, k, vs);
    lemma_padding(pos, 4);
    lemma_padding(q, a);
    lemma_le_bytes_len(elements_bytes(pos, k, vs).len(), 4);
    assert(w.take(p as int) =~= zeros(p));
    assert(w.subrange(p as int, p + 4 as int) =~= le_bytes(elements_bytes(pos, k, vs).len(), 4));
    assert(w.subrange((p + 4) as int, (p + 4 + e) as int) =~= zeros(e));
    assert(w.skip((p + 4 + e) as int) =~= elements_bytes(pos, k, vs));
}

/// A message body under construction: bytes already in wire order.
#[derive(Debug)]
pub struct Data {
    bytes: Vec<u8>,
}

impl View for Data {
    type V = Seq<u8>;

    closed spec fn view(&self) -> Seq<u8> {
        self.bytes@
    }
}

impl Data {
    /// An empty buffer.
    pub fn new() -> (r: Data)
        ensures
            r@ == Seq::<u8>::empty(),
    {
        Data { bytes: Vec::new() }
    }

    /// The number of bytes written.
    pub fn len(&self) -> (r: usize)
        ensures
            r == self@.len(),
    {
        self.bytes.len()
    }

    /// The bytes written.
    pub fn as_bytes(&self) -> (r: &[u8])
        ensures
            r@ == self@,
    {
        self.bytes.as_slice()
    }

    /// Appends the zero bytes that bring the length to a multiple of `k`.
    pub fn pad_to(&mut self, k: usize)
        requires
            k > 0,
        ensures
            final(self)@ == old(self)@ + zeros(padding(old(self)@.len(), k as nat)),
    {
        let p = (k - self.bytes.len() % k) % k;
        let mut j: usize = 0;
        while j < p
            invariant
                j <= p,
                self.bytes@ == old(self)@ + zeros(j as nat),
            decreases p - j,
        {
            self.bytes.push(0);
            j = j + 1;
            assert(self.bytes@ =~= old(self)@ + zeros(j as nat));
        }
    }

    /// Appends the `n` low bytes of `v`, least significant first.
    fn put_le(&mut self, v: u64, n: usize)
        ensures
            final(self)@ == old(self)@ + le_bytes(v as nat, n as nat),
    {
        proof {
            lemma_le_bytes_len(v as nat, n as nat);
        }
        let mut x = v;
        let mut j: usize = 0;
        while j < n
            invariant
                j <= n,
                self.bytes@ + le_bytes(x as nat, (n - j) as nat) == old(self)@ + le_bytes(v as nat, n as nat),
            decreases n - j,
        {
            let ghost before = self.bytes@;
            assert(le_bytes(x as nat, (n - j) as nat) == seq![(x % 256) as u8] + le_bytes(
                (x / 256) as nat,
                (n - j - 1) as nat,
            ));
            self.bytes.push((x % 256) as u8);
            x = x / 256;
            j = j + 1;
            assert(self.bytes@ + le_bytes(x as nat, (n - j) as nat) =~= before + (seq![
                self.bytes@.last(),
            ] + le_bytes(x as nat, (n - j) as nat)));
        }
        assert(self.bytes@ + le_bytes(x as nat, 0) =~= self.bytes@);
    }

    /// Appends a byte (alignment 1).
    pub fn put_u8(&mut self, v: u8)
        ensures
            final(self)@ == old(self)@ + value_bytes(old(self)@.len(), Value::Byte(v)),
    {
        self.bytes.push(v);
        assert(final(self)@ =~= old(self)@ + value_bytes(old(self)@.len(), Value::Byte(v)));
    }

    /// Appends a `u32`: padding to 4, then 4 bytes.
    pub fn put_u32(&mut self, v: u32)
        ensures
            final(self)@ == old(self)@ + value_bytes(old(self)@.len(), Value::U32(v)),
    {
        self.pad_to(4);
        self.put_le(v as u64, 4);
        assert(final(self)@ =~= old(self)@ + value_bytes(old(self)@.len(), Value::U32(v)));
    }

    /// Appends a `u64`: padding to 8, then 8 bytes.
    pub fn put_u64(&mut self, v: u64)
        ensures
            final(self)@ == old(self)@ + value_bytes(old(self)@.len(), Value::U64(v)),
    {
        self.pad_to(8);
        self.put_le(v, 8);
        assert(final(self)@ =~= old(self)@ + value_bytes(old(self)@.len(), Value::U64(v)));
    }

    /// Appends a boolean as the `u32` 0 or 1.
    pub fn put_bool(&mut self, v: bool)
        ensures
            final(self)@ == old(self)@ + value_bytes(old(self)@.len(), Value::Bool(v)),
    {
        self.pad_to(4);
        self.put_le(if v { 1 } else { 0 }, 4);
        assert(final(self)@ =~= old(self)@ + value_bytes(old(self)@.len(), Value::Bool(v)));
    }

    /// Appends a string: padding to 4, its byte length as a `u32`, its bytes,
    /// one nul. A string longer than the length field can count is refused
    /// and nothing is written.
    pub fn put_str(&mut self, s: &str) -> (r: Result<(), EncodeError>)
        ensures
            r is Ok <==> encode_utf8(s@).len() <= MAX_WIRE_LEN,
            r is Ok ==> final(self)@ == old(self)@ + zeros(padding(old(self)@.len(), 4)) + str_payload(s@),
            r is Err ==> final(self)@ == old(self)@,
    {
        let b = s.as_bytes();
        if b.len() as u64 > MAX_WIRE_LEN {
            return Err(EncodeError::TooLong);
        }
        self.pad_to(4);
        self.put_le(b.len() as u64, 4);
        self.put_bytes(b);
        self.bytes.push(0);
        assert(final(self)@ =~= old(self)@ + zeros(padding(old(self)@.len(), 4)) + str_payload(s@));
        Ok(())
    }

    /// Appends a signature: its byte length in one byte, its bytes, one nul;
    /// no padding. A signature over 255 bytes is refused and nothing is written.
    pub fn put_sig(&mut self, s: &str) -> (r: Result<(), EncodeError>)
        ensures
            r is Ok <==> encode_utf8(s@).len() <= MAX_SIG_LEN,
            r is Ok ==> final(self)@ == old(self)@ + sig_payload(s@),
            r is Err ==> final(self)@ == old(self)@,
    {
        let b = s.as_bytes();
        if b.len() as u64 > MAX_SIG_LEN {
            return Err(EncodeError::TooLong);
        }
        self.bytes.push(b.len() as u8);
        self.put_bytes(b);
        self.bytes.push(0);
        assert(final(self)@ =~= old(self)@ + sig_payload(s@));
        Ok(())
    }

    /// Appends bytes as they are, with no padding.
    pub fn put_bytes(&mut self, b: &[u8])
        ensures
            final(self)@ == old(self)@ + b@,
    {
        let mut j: usize = 0;
        while j < b.len()
            invariant
                j <= b@.len(),
                self.bytes@ == old(self)@ + b@.take(j as int),
            decreases b@.len() - j,
        {
            self.bytes.push(b[j]);
            j = j + 1;
            assert(self.bytes@ =~= old(self)@ + b@.take(j as int));
        }
        assert(b@.take(b@.len() as int) =~= b@);
    }

    /// Appends one value, padded to its alignment.
    pub fn put_value(&mut self, v: &Value) -> (r: Result<(), EncodeError>)
        ensures
            r is Ok <==> fits(*v),
            r is Ok ==> final(self)@ == old(self)@ + value_bytes(old(self)@.len(), *v),
            r is Err ==> final(self)@ == old(self)@,
    {
        match v {
            Value::Byte(x) => {
                self.put_u8(*x);
                Ok(())
            },
            Value::Bool(x) => {
                self.put_bool(*x);
                Ok(())
            },
            Value::U32(x) => {
                self.put_u32(*x);
                Ok(())
            },
            Value::U64(x) => {
                self.put_u64(*x);
                Ok(())
            },
            Value::Str(s) => {
                let r = self.put_str(s.as_str());
                assert(r is Ok ==> final(self)@ =~= old(self)@ + value_bytes(old(self)@.len(), *v));
                r
            },
            Value::Path(s) => {
                let r = self.put_str(s.as_str());
                assert(r is Ok ==> final(self)@ =~= old(self)@ + value_bytes(old(self)@.len(), *v));
                r
            },
            Value::Sig(s) => {
                let r = self.put_sig(s.as_str());
                assert(r is Ok ==> final(self)@ =~= old(self)@ + value_bytes(old(self)@.len(), *v));
                r
            },
        }
    }

    /// Appends values in order, each padded to its alignment. If one does not
    /// fit, nothing is written. What is written depends on the values and the
    /// buffer's length alone, so two buffers that held the same bytes hold the
    /// same bytes again afterwards.
    pub fn put_values(&mut self, vs: &Vec<Value>) -> (r: Result<(), EncodeError>)
        ensures
            r is Ok <==> all_fit(vs@),
            r is Ok ==> final(self)@ == old(self)@ + values_bytes(old(self)@.len(), vs@),
            r is Err ==> final(self)@ == old(self)@,
    {
        let start = self.bytes.len();
        let mut i: usize = 0;
        while i < vs.len()
            invariant
                i <= vs@.len(),
                start == old(self)@.len(),
                self.bytes@ == old(self)@ + values_bytes(start as nat, vs@.take(i as int)),
                all_fit(vs@.take(i as int)),
            decreases vs@.len() - i,
        {
            proof {
                lemma_values_bytes_step(start as nat, vs@, i as int);
            }
            match self.put_value(&vs[i]) {
                Ok(()) => {},
                Err(e) => {
                    self.bytes.truncate(start);
                    assert(self.bytes@ =~= old(self)@);
                    return Err(e);
                },
            }
            assert(self.bytes@ =~= old(self)@ + values_bytes(start as nat, vs@.take(i + 1)));
            assert(forall|j: int| 0 <= j < i + 1 ==> #[trigger] vs@.take(i + 1)[j] == vs@.take(i as int)[j] || j == i);
            i = i + 1;
        }
        assert(vs@.take(vs@.len() as int) =~= vs@);
        Ok(())
    }

    /// Overwrites the 4 bytes at `at` with `v`, least significant first.
    fn set_u32_at(&mut self, at: usize, v: u32)
        requires
            at + 4 <= old(self)@.len(),
        ensures
            final(self)@ == old(self)@.take(at as int) + le_bytes(v as nat, 4) + old(self)@.skip(
                at + 4,
            ),
    {
        let total = self.bytes.len();
        let mut x = v;
        let mut j: usize = 0;
        while j < 4
            invariant
                j <= 4,
                total == old(self)@.len(),
                at + 4 <= old(self)@.len(),
                self.bytes@.len() == old(self)@.len(),
                self.bytes@.take(at + j) + le_bytes(x as nat, (4 - j) as nat) + old(self)@.skip(at + 4)
                    == old(self)@.take(at as int) + le_bytes(v as nat, 4) + old(self)@.skip(at + 4),
                self.bytes@.skip(at + 4) == old(self)@.skip(at + 4),
            decreases 4 - j,
        {
            let ghost before = self.bytes@;
            assert(le_bytes(x as nat, (4 - j) as nat) == seq![(x % 256) as u8] + le_bytes(
                (x / 256) as nat,
                (4 - j - 1) as nat,
            ));
            self.bytes[at + j] = (x % 256) as u8;
            x = x / 256;
            j = j + 1;
            assert(self.bytes@.take(at + j) =~= before.take(at + j - 1).push(self.bytes@[at + j - 1]));
            assert(self.bytes@.skip(at + 4) =~= before.skip(at + 4));
            assert(self.bytes@.take(at + j) + le_bytes(x as nat, (4 - j) as nat) + old(self)@.skip(at + 4)
                =~= before.take(at + j - 1) + (seq![self.bytes@[at + j - 1]] + le_bytes(x as nat, (4 - j) as nat))
                + old(self)@.skip(at + 4));
        }
        assert(self.bytes@ =~= self.bytes@.take(at + 4) + le_bytes(x as nat, 0) + self.bytes@.skip(at + 4));
    }

    /// Appends a homogeneous array of `kind`: padding to 4, the byte size of
    /// the elements as a `u32`, padding to the element alignment (also when
    /// there are no elements), the elements. If an element or the elements'
    /// size does not fit the wire format, nothing is written.
    pub fn put_array(&mut self, kind: Kind, items: &Vec<Value>) -> (r: Result<(), EncodeError>)
        requires
            forall|i: int| 0 <= i < items@.len() ==> kind_of(#[trigger] items@[i]) == kind,
        ensures
            r is Ok <==> array_fits(old(self)@.len(), kind, items@),
            r is Ok ==> final(self)@ == old(self)@ + array_bytes(old(self)@.len(), kind, items@),
            r is Err ==> final(self)@ == old(self)@,
    {
        let start = self.bytes.len();
        self.pad_to(4);
        let at = self.bytes.len();
        self.put_le(0, 4);
        proof {
            lemma_le_bytes_len(0, 4);
        }
        self.pad_to(kind_alignment(kind));
        let es = self.bytes.len();
        let ghost head = self.bytes@;
        assert(es == elements_start(start as nat, kind));
        match self.put_values(items) {
            Ok(()) => {},
            Err(e) => {
                self.bytes.truncate(start);
                assert(self.bytes@ =~= old(self)@);
                return Err(e);
            },
        }
        let n = self.bytes.len() - es;
        assert(self.bytes@ == head + elements_bytes(start as nat, kind, items@));
        if n as u64 > MAX_WIRE_LEN {
            self.bytes.truncate(start);
            assert(self.bytes@ =~= old(self)@);
            return Err(EncodeError::TooLong);
        }
        let ghost filled = self.bytes@;
        self.set_u32_at(at, n as u32);
        let ghost pad1 = zeros(padding(start as nat, 4));
        let ghost pad2 = zeros(padding((at + 4) as nat, alignment(kind)));
        assert(head =~= old(self)@ + pad1 + le_bytes(0, 4) + pad2);
        assert(filled.take(at as int) =~= old(self)@ + pad1);
        assert(filled.skip(at + 4) =~= pad2 + elements_bytes(start as nat, kind, items@));
        assert(final(self)@ =~= old(self)@ + array_bytes(start as nat, kind, items@));
        Ok(())
    }

    /// Appends a struct: padding to 8, whatever the first field, then the
    /// fields in order. If a field does not fit, nothing is written.
    pub fn put_struct(&mut self, fields: &Vec<Value>) -> (r: Result<(), EncodeError>)
        ensures
            r is Ok <==> all_fit(fields@),
            r is Ok ==> final(self)@ == old(self)@ + struct_bytes(old(self)@.len(), fields@),
            r is Err ==> final(self)@ == old(self)@,
    {
        let start = self.bytes.len();
        self.pad_to(8);
        match self.put_values(fields) {
            Ok(()) => {
                assert(final(self)@ =~= old(self)@ + struct_bytes(start as nat, fields@));
                Ok(())
            },
            Err(e) => {
                self.bytes.truncate(start);
                assert(self.bytes@ =~= old(self)@);
                Err(e)
            },
        }
    }
    /// Appends a variant holding `v`: the one-code signature of its type,
    /// then the value. If the value does not fit, nothing is written.
    pub fn put_variant(&mut self, v: &Value) -> (r: Result<(), EncodeError>)
        ensures
            r is Ok <==> fits(*v),
            r is Ok ==> final(self)@ == old(self)@ + variant_bytes(old(self)@.len(), *v),
            r is Err ==> final(self)@ == old(self)@,
    {
        let start = self.bytes.len();
        self.bytes.push(1);
        self.bytes.push(value_type_code(v));
        self.bytes.push(0);
        match self.put_value(v) {
            Ok(()) => {
                assert(final(self)@ =~= old(self)@ + variant_bytes(start as nat, *v));
                Ok(())
            },
            Err(e) => {
                self.bytes.truncate(start);
                assert(self.bytes@ =~= old(self)@);
                Err(e)
            },
        }
    }

    /// Appends one header field: padding to 8, the code byte, a variant
    /// holding the value. If the value does not fit, nothing is written.
    pub fn put_field(&mut self, f: &(u8, Value)) -> (r: Result<(), EncodeError>)
        ensures
            r is Ok <==> fits(f.1),
            r is Ok ==> final(self)@ == old(self)@ + field_bytes(old(self)@.len(), *f),
            r is Err ==> final(self)@ == old(self)@,
    {
        let start = self.bytes.len();
        self.pad_to(8);
        self.bytes.push(f.0);
        match self.put_variant(&f.1) {
            Ok(()) => {
                assert(final(self)@ =~= old(self)@ + field_bytes(start as nat, *f));
                Ok(())
            },
            Err(e) => {
                self.bytes.truncate(start);
                assert(self.bytes@ =~= old(self)@);
                Err(e)
            },
        }
    }

    /// Appends header fields in order. If one does not fit, nothing is written.
    pub fn put_fields(&mut self, fs: &Vec<(u8, Value)>) -> (r: Result<(), EncodeError>)
        ensures
            r is Ok <==> all_fields_fit(fs@),
            r is Ok ==> final(self)@ == old(self)@ + fields_bytes(old(self)@.len(), fs@),
            r is Err ==> final(self)@ == old(self)@,
    {
        let start = self.bytes.len();
        let mut i: usize = 0;
        while i < fs.len()
            invariant
                i <= fs@.len(),
                start == old(self)@.len(),
                self.bytes@ == old(self)@ + fields_bytes(start as nat, fs@.take(i as int)),
                all_fields_fit(fs@.take(i as int)),
            decreases fs@.len() - i,
        {
            proof {
                lemma_fields_bytes_step(start as nat, fs@, i as int);
            }
            match self.put_field(&fs[i]) {
                Ok(()) => {},
                Err(e) => {
                    self.bytes.truncate(start);
                    assert(self.bytes@ =~= old(self)@);
                    return Err(e);
                },
            }
            assert(self.bytes@ =~= old(self)@ + fields_bytes(start as nat, fs@.take(i + 1)));
            assert(forall|j: int| 0 <= j < i + 1 ==> #[trigger] fs@.take(i + 1)[j] == fs@.take(i as int)[j] || j == i);
            i = i + 1;
        }
        assert(fs@.take(fs@.len() as int) =~= fs@);
        Ok(())
    }

    /// Appends the header-field array: the byte size of the entries as a
    /// `u32`, padding to 8, the entries. If a value or the entries' size does
    /// not fit the wire format, nothing is written.
    pub fn put_field_array(&mut self, fs: &Vec<(u8, Value)>) -> (r: Result<(), EncodeError>)
        ensures
            r is Ok <==> field_array_fits(old(self)@.len(), fs@),
            r is Ok ==> final(self)@ == old(self)@ + field_array_bytes(old(self)@.len(), fs@),
            r is Err ==> final(self)@ == old(self)@,
    {
        let start = self.bytes.len();
        self.pad_to(4);
        let at = self.bytes.len();
        self.put_le(0, 4);
        proof {
            lemma_le_bytes_len(0, 4);
        }
        self.pad_to(8);
        let es = self.bytes.len();
        let ghost head = self.bytes@;
        assert(es == field_entries_start(start as nat));
        match self.put_fields(fs) {
            Ok(()) => {},
            Err(e) => {
                self.bytes.truncate(start);
                assert(self.bytes@ =~= old(self)@);
                return Err(e);
            },
        }
        let n = self.bytes.len() - es;
        if n as u64 > MAX_WIRE_LEN {
            self.bytes.truncate(start);
            assert(self.bytes@ =~= old(self)@);
            return Err(EncodeError::TooLong);
        }
        let ghost filled = self.bytes@;
        let ghost entries = fields_bytes(es as nat, fs@);
        self.set_u32_at(at, n as u32);
        let ghost pad1 = zeros(padding(start as nat, 4));
        let ghost pad2 = zeros(padding((at + 4) as nat, 8));
        assert(head =~= old(self)@ + pad1 + le_bytes(0, 4) + pad2);
        assert(filled.take(at as int) =~= old(self)@ + pad1);
        assert(filled.skip(at + 4) =~= pad2 + entries);
        assert(final(self)@ =~= old(self)@ + field_array_bytes(start as nat, fs@));
        Ok(())
    }
}

/// The kind of a value.
pub fn value_kind(v: &Value) -> (r: Kind)
    ensures
        r == kind_of(*v),
{
    match v {
        Value::Byte(_) => Kind::Byte,
        Value::Bool(_) => Kind::Bool,
        Value::U32(_) => Kind::U32,
        Value::U64(_) => Kind::U64,
        Value::Str(_) => Kind::Str,
        Value::Path(_) => Kind::Path,
        Value::Sig(_) => Kind::Sig,
    }
}

/// The type code of a value's kind.
pub fn value_type_code(v: &Value) -> (r: u8)
    ensures
        r == type_code(kind_of(*v)),
{
    match v {
        Value::Byte(_) => 0x79,
        Value::Bool(_) => 0x62,
        Value::U32(_) => 0x75,
        Value::U64(_) => 0x74,
        Value::Str(_) => 0x73,
        Value::Path(_) => 0x6f,
        Value::Sig(_) => 0x67,
    }
}

/// The alignment of a kind.
pub fn kind_alignment(k: Kind) -> (r: usize)
    ensures
        r == alignment(k),
{
    match k {
        Kind::Byte => 1,
        Kind::Sig => 1,
        Kind::U64 => 8,
        _ => 4,
    }
}

} // verus!
