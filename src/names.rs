//! D-Bus names: object paths, interface names, bus names and member names.
//! Each is a nul-terminated byte string that satisfies its grammar; a value of
//! one of these types can only be made from bytes that were checked.
use vstd::prelude::*;
use vstd::slice::slice_subrange;

verus! {

/// The longest byte string accepted for a path, an interface or a bus name.
pub const MAX_NAME_LEN: usize = 255;

/// The longest byte string accepted for a member name, terminator included.
pub const MAX_MEMBER_LEN: usize = 256;

/// `/`, the object-path separator.
pub const SLASH: u8 = 0x2f;
/// `.`, the separator of interface and bus names.
pub const DOT: u8 = 0x2e;
/// `:`, which starts a unique bus name.
pub const COLON: u8 = 0x3a;
/// `-`, allowed in bus names.
pub const HYPHEN: u8 = 0x2d;

/// The grammar rule that a byte string breaks.
#[derive(Debug, PartialEq, Eq, Structural)]
pub enum NameError {
    /// Too few bytes for any name of the kind.
    Empty,
    /// More bytes than the kind allows.
    TooLong,
    /// The first byte may not start a name of the kind.
    BadStart,
    /// Two separators next to each other.
    AdjacentSeparators,
    /// An element that is empty (a separator right after the unique-name marker).
    EmptyElement,
    /// An element that starts with a digit where the kind forbids it.
    ElementStartsWithDigit,
    /// A separator just before the terminator.
    TrailingSeparator,
    /// A single element where at least two are needed.
    TooFewElements,
    /// A byte outside the kind's character set.
    InvalidChar,
    /// No nul byte ends the name.
    NotTerminated,
}

/// `[A-Z][a-z]_`: ASCII letters and underscore.
pub open spec fn is_letter(c: u8) -> bool {
    (0x41 <= c && c <= 0x5a) || (0x61 <= c && c <= 0x7a) || c == 0x5f
}

/// `[0-9]`: ASCII digits.
pub open spec fn is_digit(c: u8) -> bool {
    0x30 <= c && c <= 0x39
}

/// `[A-Z][a-z][0-9]_`
pub open spec fn is_word_char(c: u8) -> bool {
    is_letter(c) || is_digit(c)
}

fn letter(c: u8) -> (r: bool)
    ensures
        r == is_letter(c),
{
    (0x41 <= c && c <= 0x5a) || (0x61 <= c && c <= 0x7a) || c == 0x5f
}

fn digit(c: u8) -> (r: bool)
    ensures
        r == is_digit(c),
{
    0x30 <= c && c <= 0x39
}

// ---------------------------------------------------------------- object paths

/// `b` holds a valid object path whose terminating nul is at `n`: `/` first,
/// then elements of `[A-Z][a-z][0-9]_` split by single `/`, and no `/` at the
/// end unless the path is `/` alone.
pub open spec fn object_path_ends_at(b: Seq<u8>, n: int) -> bool {
    &&& 1 <= n < b.len()
    &&& b[n] == 0
    &&& forall|i: int| 1 <= i < n ==> is_word_char(#[trigger] b[i]) || b[i] == SLASH
    &&& forall|i: int| 1 <= i < n && #[trigger] b[i] == SLASH ==> b[i - 1] != SLASH
    &&& b[n - 1] == SLASH ==> n == 1
}

/// `b` is a valid object path, at most 255 bytes long in all.
pub open spec fn is_valid_object_path(b: Seq<u8>) -> bool {
    &&& 1 <= b.len() <= MAX_NAME_LEN
    &&& b[0] == SLASH
    &&& exists|n: int| object_path_ends_at(b, n)
}

/// Byte `i` of `b` may stand where it is in an object path.
pub open spec fn path_byte_ok(b: Seq<u8>, i: int) -> bool {
    is_word_char(b[i]) || (b[i] == SLASH && b[i - 1] != SLASH)
}

/// Checking `b` as an object path stops at `k`: the first byte after the
/// leading `/` that may not stand where it is (the terminator among them).
pub open spec fn path_stops_at(b: Seq<u8>, k: int) -> bool {
    &&& 1 <= k < b.len()
    &&& !path_byte_ok(b, k)
    &&& forall|i: int| 1 <= i < k ==> #[trigger] path_byte_ok(b, i)
}

/// What checking `b` as an object path gives: the first rule it breaks, in
/// the order length, first byte, then the byte where the check stops.
pub open spec fn object_path_check(b: Seq<u8>) -> Result<(), NameError> {
    if b.len() < 1 {
        Err(NameError::Empty)
    } else if b.len() > MAX_NAME_LEN {
        Err(NameError::TooLong)
    } else if b[0] != SLASH {
        Err(NameError::BadStart)
    } else if exists|k: int| path_stops_at(b, k) {
        let k = choose|k: int| path_stops_at(b, k);
        if b[k] == SLASH {
            Err(NameError::AdjacentSeparators)
        } else if b[k] != 0 {
            Err(NameError::InvalidChar)
        } else if b[k - 1] == SLASH && k != 1 {
            Err(NameError::TrailingSeparator)
        } else {
            Ok(())
        }
    } else {
        Err(NameError::NotTerminated)
    }
}

/// Where a valid name's terminator stands, the check of its bytes stops.
proof fn lemma_path_end_is_stop(b: Seq<u8>)
    ensures
        forall|n: int| #[trigger] object_path_ends_at(b, n) ==> path_stops_at(b, n),
{
    assert forall|n: int| #[trigger] object_path_ends_at(b, n) implies path_stops_at(b, n) by {
        assert forall|i: int| 1 <= i < n implies #[trigger] path_byte_ok(b, i) by {
            assert(is_word_char(b[i]) || b[i] == SLASH);
        }
    }
}

proof fn lemma_path_stop_unique(b: Seq<u8>, k: int)
    requires
        path_stops_at(b, k),
    ensures
        forall|j: int| #[trigger] path_stops_at(b, j) ==> j == k,
{
    assert forall|j: int| #[trigger] path_stops_at(b, j) implies j == k by {
        if j < k {
            assert(path_byte_ok(b, j));
        } else if j > k {
            assert(path_byte_ok(b, k));
        }
    }
}

/// `b` is exactly an object path: valid, and its terminating nul is its last byte.
pub open spec fn is_object_path(b: Seq<u8>) -> bool {
    is_valid_object_path(b) && object_path_ends_at(b, b.len() - 1)
}

proof fn lemma_object_path_prefix(b: Seq<u8>, k: int)
    requires
        is_valid_object_path(b),
        object_path_ends_at(b, k),
    ensures
        is_object_path(b.subrange(0, k + 1)),
{
    let c = b.subrange(0, k + 1);
    assert forall|i: int| 1 <= i < k implies is_word_char(#[trigger] c[i]) || c[i] == SLASH by {
        assert(c[i] == b[i]);
    }
    assert forall|i: int| 1 <= i < k && #[trigger] c[i] == SLASH implies c[i - 1] != SLASH by {
        assert(c[i] == b[i] && c[i - 1] == b[i - 1]);
    }
    assert(object_path_ends_at(c, k));
}

/// A valid D-Bus object path, borrowed from its bytes (terminator included).
#[derive(Debug)]
pub struct ObjectPath<'a> {
    inner: &'a [u8],
}

impl<'a> View for ObjectPath<'a> {
    type V = Seq<u8>;

    closed spec fn view(&self) -> Seq<u8> {
        self.inner@
    }
}

impl<'a> ObjectPath<'a> {
    #[verifier::type_invariant]
    spec fn inv(&self) -> bool {
        is_object_path(self.inner@)
    }

    /// Checks `b` against the object-path grammar. The name borrows `b` up to and
    /// including its first nul; any bytes after that are not part of it.
    pub fn from_bytes(b: &'a [u8]) -> (r: Result<ObjectPath<'a>, NameError>)
        ensures
            r is Ok <==> is_valid_object_path(b@),
            r matches Ok(p) ==> object_path_ends_at(b@, p@.len() - 1) && p@ == b@.subrange(0, p@.len() as int),
            r is Ok <==> object_path_check(b@) is Ok,
            r matches Err(e) ==> object_path_check(b@) == Err::<(), NameError>(e),
    {
        let len = b.len();
        if len < 1 {
            return Err(NameError::Empty);
        }
        if len > MAX_NAME_LEN {
            return Err(NameError::TooLong);
        }
        if b[0] != SLASH {
            return Err(NameError::BadStart);
        }
        let mut k: usize = 1;
        while k < len
            invariant
                1 <= k <= len,
                len == b@.len(),
                len <= MAX_NAME_LEN,
                b@[0] == SLASH,
                forall|i: int| 1 <= i < k ==> is_word_char(#[trigger] b@[i]) || b@[i] == SLASH,
                forall|i: int| 1 <= i < k && #[trigger] b@[i] == SLASH ==> b@[i - 1] != SLASH,
                forall|i: int| 1 <= i < k ==> #[trigger] path_byte_ok(b@, i),
            decreases len - k,
        {
            let prev = b[k - 1];
            let c = b[k];
            if c == SLASH && prev == SLASH || !(c == SLASH || letter(c) || digit(c)) {
                assert(path_stops_at(b@, k as int));
                proof {
                    lemma_path_stop_unique(b@, k as int);
                    lemma_path_end_is_stop(b@);
                }
            }
            if c == SLASH {
                if prev == SLASH {
                    return Err(NameError::AdjacentSeparators);
                }
            } else if letter(c) || digit(c) {
            } else if c == 0 {
                if prev == SLASH && k != 1 {
                    return Err(NameError::TrailingSeparator);
                }
                assert(object_path_ends_at(b@, k as int));
                let name = slice_subrange(b, 0, k + 1);
                assert forall|i: int| 0 <= i <= k implies name@[i] == b@[i] by {}
                proof {
                    lemma_object_path_prefix(b@, k as int);
                }
                return Ok(ObjectPath { inner: name });
            } else {
                return Err(NameError::InvalidChar);
            }
            k = k + 1;
        }
        proof {
            lemma_path_end_is_stop(b@);
        }
        assert forall|n: int| !path_stops_at(b@, n) by {
            if path_stops_at(b@, n) {
                assert(path_byte_ok(b@, n));
            }
        }
        Err(NameError::NotTerminated)
    }

    /// Wraps bytes already known to hold a valid object path.
    pub fn from_bytes_unchecked(b: &'a [u8]) -> (r: ObjectPath<'a>)
        requires
            is_object_path(b@),
        ensures
            r@ == b@,
    {
        ObjectPath { inner: b }
    }

    /// The path's bytes, terminator included.
    pub fn as_bytes(&self) -> (r: &'a [u8])
        ensures
            r@ == self@,
            is_object_path(r@),
    {
        proof {
            use_type_invariant(self);
        }
        self.inner
    }
}

// ----------------------------------------------------------- interface names

/// `b` holds a valid interface name whose terminating nul is at `n`:
/// elements of `[A-Z][a-z][0-9]_` split by single `.`, none starting with a
/// digit, at least two of them, and no `.` at the end.
pub open spec fn interface_name_ends_at(b: Seq<u8>, n: int) -> bool {
    &&& 1 <= n < b.len()
    &&& b[n] == 0
    &&& forall|i: int| 1 <= i < n ==> is_word_char(#[trigger] b[i]) || b[i] == DOT
    &&& forall|i: int| 1 <= i < n && #[trigger] b[i] == DOT ==> b[i - 1] != DOT
    &&& forall|i: int| 1 <= i < n && is_digit(#[trigger] b[i]) ==> b[i - 1] != DOT
    &&& b[n - 1] != DOT
    &&& exists|i: int| 1 <= i < n && #[trigger] b[i] == DOT
}

/// `b` is a valid interface name, at most 255 bytes long in all, starting
/// with a letter or `_`.
pub open spec fn is_valid_interface_name(b: Seq<u8>) -> bool {
    &&& 1 <= b.len() <= MAX_NAME_LEN
    &&& is_letter(b[0])
    &&& exists|n: int| interface_name_ends_at(b, n)
}

/// A valid interface name has at least two elements: a `.` stands before
/// its terminating nul.
pub proof fn lemma_interface_name_has_two_elements(b: Seq<u8>)
    requires
        is_valid_interface_name(b),
    ensures
        exists|i: int| 0 < i < b.len() && #[trigger] b[i] == DOT && (forall|j: int| 0 <= j <= i ==> b[j] != 0),
{
    let n = choose|n: int| interface_name_ends_at(b, n);
    let i = choose|i: int| 1 <= i < n && #[trigger] b[i] == DOT;
    assert forall|j: int| 0 <= j <= i implies b[j] != 0 by {
        if j > 0 {
            assert(is_word_char(b[j]) || b[j] == DOT);
        }
    }
}

/// Byte `i` of `b` may stand where it is in an interface name.
pub open spec fn interface_byte_ok(b: Seq<u8>, i: int) -> bool {
    is_letter(b[i]) || (is_digit(b[i]) && b[i - 1] != DOT) || (b[i] == DOT && b[i - 1] != DOT)
}

/// Checking `b` as an interface name stops at `k`: the first byte after the
/// first that may not stand where it is (the terminator among them).
pub open spec fn interface_stops_at(b: Seq<u8>, k: int) -> bool {
    &&& 1 <= k < b.len()
    &&& !interface_byte_ok(b, k)
    &&& forall|i: int| 1 <= i < k ==> #[trigger] interface_byte_ok(b, i)
}

/// What checking `b` as an interface name gives: the first rule it breaks,
/// in the order length, first byte, then the byte where the check stops.
pub open spec fn interface_name_check(b: Seq<u8>) -> Result<(), NameError> {
    if b.len() < 1 {
        Err(NameError::Empty)
    } else if b.len() > MAX_NAME_LEN {
        Err(NameError::TooLong)
    } else if !is_letter(b[0]) {
        Err(NameError::BadStart)
    } else if exists|k: int| interface_stops_at(b, k) {
        let k = choose|k: int| interface_stops_at(b, k);
        if b[k] == DOT {
            Err(NameError::AdjacentSeparators)
        } else if is_digit(b[k]) {
            Err(NameError::ElementStartsWithDigit)
        } else if b[k] != 0 {
            Err(NameError::InvalidChar)
        } else if b[k - 1] == DOT {
            Err(NameError::TrailingSeparator)
        } else if !exists|i: int| 1 <= i < k && #[trigger] b[i] == DOT {
            Err(NameError::TooFewElements)
        } else {
            Ok(())
        }
    } else {
        Err(NameError::NotTerminated)
    }
}

/// Where a valid name's terminator stands, the check of its bytes stops.
proof fn lemma_interface_end_is_stop(b: Seq<u8>)
    ensures
        forall|n: int| #[trigger] interface_name_ends_at(b, n) ==> interface_stops_at(b, n),
{
    assert forall|n: int| #[trigger] interface_name_ends_at(b, n) implies interface_stops_at(b, n) by {
        assert forall|i: int| 1 <= i < n implies #[trigger] interface_byte_ok(b, i) by {
            assert(is_word_char(b[i]) || b[i] == DOT);
        }
    }
}

proof fn lemma_interface_stop_unique(b: Seq<u8>, k: int)
    requires
        interface_stops_at(b, k),
    ensures
        forall|j: int| #[trigger] interface_stops_at(b, j) ==> j == k,
{
    assert forall|j: int| #[trigger] interface_stops_at(b, j) implies j == k by {
        if j < k {
            assert(interface_byte_ok(b, j));
        } else if j > k {
            assert(interface_byte_ok(b, k));
        }
    }
}

/// `b` is exactly an interface name: valid, and its terminating nul is its last byte.
pub open spec fn is_interface_name(b: Seq<u8>) -> bool {
    is_valid_interface_name(b) && interface_name_ends_at(b, b.len() - 1)
}

proof fn lemma_interface_name_prefix(b: Seq<u8>, k: int)
    requires
        is_valid_interface_name(b),
        interface_name_ends_at(b, k),
    ensures
        is_interface_name(b.subrange(0, k + 1)),
{
    let c = b.subrange(0, k + 1);
    assert forall|i: int| 1 <= i < k implies is_word_char(#[trigger] c[i]) || c[i] == DOT by {
        assert(c[i] == b[i]);
    }
    assert forall|i: int| 1 <= i < k && #[trigger] c[i] == DOT implies c[i - 1] != DOT by {
        assert(c[i] == b[i] && c[i - 1] == b[i - 1]);
    }
    assert forall|i: int| 1 <= i < k && is_digit(#[trigger] c[i]) implies c[i - 1] != DOT by {
        assert(c[i] == b[i] && c[i - 1] == b[i - 1]);
    }
    let d = choose|i: int| 1 <= i < k && #[trigger] b[i] == DOT;
    assert(c[d] == DOT);
    assert(interface_name_ends_at(c, k));
}

/// A valid D-Bus interface name, borrowed from its bytes (terminator included).
#[derive(Debug)]
pub struct InterfaceName<'a> {
    inner: &'a [u8],
}

impl<'a> View for InterfaceName<'a> {
    type V = Seq<u8>;

    closed spec fn view(&self) -> Seq<u8> {
        self.inner@
    }
}

impl<'a> InterfaceName<'a> {
    #[verifier::type_invariant]
    spec fn inv(&self) -> bool {
        is_interface_name(self.inner@)
    }

    /// Checks `b` against the interface-name grammar. The name borrows `b` up to and
    /// including its first nul; any bytes after that are not part of it.
    pub fn from_bytes(b: &'a [u8]) -> (r: Result<InterfaceName<'a>, NameError>)
        ensures
            r is Ok <==> is_valid_interface_name(b@),
            r matches Ok(p) ==> interface_name_ends_at(b@, p@.len() - 1) && p@ == b@.subrange(0, p@.len() as int),
            r is Ok <==> interface_name_check(b@) is Ok,
            r matches Err(e) ==> interface_name_check(b@) == Err::<(), NameError>(e),
    {
        let len = b.len();
        if len < 1 {
            return Err(NameError::Empty);
        }
        if len > MAX_NAME_LEN {
            return Err(NameError::TooLong);
        }
        if !letter(b[0]) {
            return Err(NameError::BadStart);
        }
        let mut seen_dot = false;
        let mut k: usize = 1;
        while k < len
            invariant
                1 <= k <= len,
                len == b@.len(),
                len <= MAX_NAME_LEN,
                is_letter(b@[0]),
                forall|i: int| 1 <= i < k ==> is_word_char(#[trigger] b@[i]) || b@[i] == DOT,
                forall|i: int| 1 <= i < k && #[trigger] b@[i] == DOT ==> b@[i - 1] != DOT,
                forall|i: int| 1 <= i < k && is_digit(#[trigger] b@[i]) ==> b@[i - 1] != DOT,
                seen_dot <==> exists|i: int| 1 <= i < k && #[trigger] b@[i] == DOT,
                forall|i: int| 1 <= i < k ==> #[trigger] interface_byte_ok(b@, i),
            decreases len - k,
        {
            let prev = b[k - 1];
            let c = b[k];
            if (c == DOT || digit(c)) && prev == DOT || !(c == DOT || letter(c) || digit(c)) {
                assert(interface_stops_at(b@, k as int));
                proof {
                    lemma_interface_stop_unique(b@, k as int);
                    lemma_interface_end_is_stop(b@);
                }
            }
            if c == DOT {
                if prev == DOT {
                    return Err(NameError::AdjacentSeparators);
                }
                assert(b@[k as int] == DOT);
                seen_dot = true;
            } else if letter(c) {
            } else if digit(c) {
                if prev == DOT {
                    return Err(NameError::ElementStartsWithDigit);
                }
            } else if c == 0 {
                if prev == DOT {
                    return Err(NameError::TrailingSeparator);
                }
                if !seen_dot {
                    return Err(NameError::TooFewElements);
                }
                assert(interface_name_ends_at(b@, k as int));
                let name = slice_subrange(b, 0, k + 1);
                assert forall|i: int| 0 <= i <= k implies name@[i] == b@[i] by {}
                proof {
                    lemma_interface_name_prefix(b@, k as int);
                }
                return Ok(InterfaceName { inner: name });
            } else {
                return Err(NameError::InvalidChar);
            }
            k = k + 1;
        }
        proof {
            lemma_interface_end_is_stop(b@);
        }
        assert forall|n: int| !interface_stops_at(b@, n) by {
            if interface_stops_at(b@, n) {
                assert(interface_byte_ok(b@, n));
            }
        }
        Err(NameError::NotTerminated)
    }

    /// Wraps bytes already known to hold a valid interface name.
    pub fn from_bytes_unchecked(b: &'a [u8]) -> (r: InterfaceName<'a>)
        requires
            is_interface_name(b@),
        ensures
            r@ == b@,
    {
        InterfaceName { inner: b }
    }

    /// The name's bytes, terminator included.
    pub fn as_bytes(&self) -> (r: &'a [u8])
        ensures
            r@ == self@,
            is_interface_name(r@),
    {
        proof {
            use_type_invariant(self);
        }
        self.inner
    }
}

// ---------------------------------------------------------------- bus names

/// `[A-Z][a-z][0-9]_-` or `.`: the bytes that may follow the first of a bus name.
pub open spec fn is_bus_name_char(c: u8) -> bool {
    is_word_char(c) || c == HYPHEN || c == DOT
}

/// `b` holds a valid bus name whose terminating nul is at `n`: elements of
/// `[A-Z][a-z][0-9]_-` split by `.`, none empty, at least two of them, and
/// none starting with a digit unless the name is unique (starts with `:`).
pub open spec fn bus_name_ends_at(b: Seq<u8>, n: int) -> bool {
    &&& 1 <= n < b.len()
    &&& b[n] == 0
    &&& forall|i: int| 1 <= i < n ==> is_bus_name_char(#[trigger] b[i])
    &&& forall|i: int| 1 <= i < n && #[trigger] b[i] == DOT ==> b[i - 1] != DOT && b[i - 1] != COLON
    &&& forall|i: int| 1 <= i < n && is_digit(#[trigger] b[i]) && b[0] != COLON ==> b[i - 1] != DOT
    &&& b[n - 1] != DOT
    &&& exists|i: int| 1 <= i < n && #[trigger] b[i] == DOT
}

/// `b` is a valid bus name, at most 255 bytes long in all, starting with a
/// letter, `_`, `-`, or the `:` of a unique name.
pub open spec fn is_valid_bus_name(b: Seq<u8>) -> bool {
    &&& 1 <= b.len() <= MAX_NAME_LEN
    &&& is_letter(b[0]) || b[0] == HYPHEN || b[0] == COLON
    &&& exists|n: int| bus_name_ends_at(b, n)
}

/// Byte `i` of `b` may stand where it is in a bus name.
pub open spec fn bus_byte_ok(b: Seq<u8>, i: int) -> bool {
    ||| is_letter(b[i]) || b[i] == HYPHEN
    ||| is_digit(b[i]) && !(b[i - 1] == DOT && b[0] != COLON)
    ||| b[i] == DOT && b[i - 1] != DOT && b[i - 1] != COLON
}

/// Checking `b` as a bus name stops at `k`: the first byte after the first
/// that may not stand where it is (the terminator among them).
pub open spec fn bus_stops_at(b: Seq<u8>, k: int) -> bool {
    &&& 1 <= k < b.len()
    &&& !bus_byte_ok(b, k)
    &&& forall|i: int| 1 <= i < k ==> #[trigger] bus_byte_ok(b, i)
}

/// What checking `b` as a bus name gives: the first rule it breaks, in the
/// order length, first byte, then the byte where the check stops.
pub open spec fn bus_name_check(b: Seq<u8>) -> Result<(), NameError> {
    if b.len() < 1 {
        Err(NameError::Empty)
    } else if b.len() > MAX_NAME_LEN {
        Err(NameError::TooLong)
    } else if !(is_letter(b[0]) || b[0] == HYPHEN || b[0] == COLON) {
        Err(NameError::BadStart)
    } else if exists|k: int| bus_stops_at(b, k) {
        let k = choose|k: int| bus_stops_at(b, k);
        if b[k] == DOT {
            Err(NameError::EmptyElement)
        } else if is_digit(b[k]) {
            Err(NameError::ElementStartsWithDigit)
        } else if b[k] != 0 {
            Err(NameError::InvalidChar)
        } else if b[k - 1] == DOT {
            Err(NameError::TrailingSeparator)
        } else if !exists|i: int| 1 <= i < k && #[trigger] b[i] == DOT {
            Err(NameError::TooFewElements)
        } else {
            Ok(())
        }
    } else {
        Err(NameError::NotTerminated)
    }
}

/// Where a valid name's terminator stands, the check of its bytes stops.
proof fn lemma_bus_end_is_stop(b: Seq<u8>)
    ensures
        forall|n: int| #[trigger] bus_name_ends_at(b, n) ==> bus_stops_at(b, n),
{
    assert forall|n: int| #[trigger] bus_name_ends_at(b, n) implies bus_stops_at(b, n) by {
        assert forall|i: int| 1 <= i < n implies #[trigger] bus_byte_ok(b, i) by {
            assert(is_bus_name_char(b[i]));
        }
    }
}

proof fn lemma_bus_stop_unique(b: Seq<u8>, k: int)
    requires
        bus_stops_at(b, k),
    ensures
        forall|j: int| #[trigger] bus_stops_at(b, j) ==> j == k,
{
    assert forall|j: int| #[trigger] bus_stops_at(b, j) implies j == k by {
        if j < k {
            assert(bus_byte_ok(b, j));
        } else if j > k {
            assert(bus_byte_ok(b, k));
        }
    }
}

/// `b` is exactly a bus name: valid, and its terminating nul is its last byte.
pub open spec fn is_bus_name(b: Seq<u8>) -> bool {
    is_valid_bus_name(b) && bus_name_ends_at(b, b.len() - 1)
}

proof fn lemma_bus_name_prefix(b: Seq<u8>, k: int)
    requires
        is_valid_bus_name(b),
        bus_name_ends_at(b, k),
    ensures
        is_bus_name(b.subrange(0, k + 1)),
{
    let c = b.subrange(0, k + 1);
    assert forall|i: int| 1 <= i < k implies is_bus_name_char(#[trigger] c[i]) by {
        assert(c[i] == b[i]);
    }
    assert forall|i: int| 1 <= i < k && #[trigger] c[i] == DOT implies c[i - 1] != DOT && c[i - 1] != COLON by {
        assert(c[i] == b[i] && c[i - 1] == b[i - 1]);
    }
    assert forall|i: int| 1 <= i < k && is_digit(#[trigger] c[i]) && c[0] != COLON implies c[i - 1] != DOT by {
        assert(c[i] == b[i] && c[i - 1] == b[i - 1]);
    }
    let d = choose|i: int| 1 <= i < k && #[trigger] b[i] == DOT;
    assert(c[d] == DOT);
    assert(bus_name_ends_at(c, k));
}

/// A valid D-Bus bus name, borrowed from its bytes (terminator included).
#[derive(Debug)]
pub struct BusName<'a> {
    inner: &'a [u8],
}

impl<'a> View for BusName<'a> {
    type V = Seq<u8>;

    closed spec fn view(&self) -> Seq<u8> {
        self.inner@
    }
}

impl<'a> BusName<'a> {
    #[verifier::type_invariant]
    spec fn inv(&self) -> bool {
        is_bus_name(self.inner@)
    }

    /// Checks `b` against the bus-name grammar. The name borrows `b` up to and
    /// including its first nul; any bytes after that are not part of it.
    pub fn from_bytes(b: &'a [u8]) -> (r: Result<BusName<'a>, NameError>)
        ensures
            r is Ok <==> is_valid_bus_name(b@),
            r matches Ok(p) ==> bus_name_ends_at(b@, p@.len() - 1) && p@ == b@.subrange(0, p@.len() as int),
            r is Ok <==> bus_name_check(b@) is Ok,
            r matches Err(e) ==> bus_name_check(b@) == Err::<(), NameError>(e),
    {
        let len = b.len();
        if len < 1 {
            return Err(NameError::Empty);
        }
        if len > MAX_NAME_LEN {
            return Err(NameError::TooLong);
        }
        let first = b[0];
        let is_unique = first == COLON;
        if !(letter(first) || first == HYPHEN || is_unique) {
            return Err(NameError::BadStart);
        }
        let mut seen_dot = false;
        let mut k: usize = 1;
        while k < len
            invariant
                1 <= k <= len,
                len == b@.len(),
                len <= MAX_NAME_LEN,
                first == b@[0],
                is_unique == (first == COLON),
                is_letter(first) || first == HYPHEN || first == COLON,
                forall|i: int| 1 <= i < k ==> is_bus_name_char(#[trigger] b@[i]),
                forall|i: int| 1 <= i < k && #[trigger] b@[i] == DOT ==> b@[i - 1] != DOT && b@[i - 1] != COLON,
                forall|i: int| 1 <= i < k && is_digit(#[trigger] b@[i]) && first != COLON ==> b@[i - 1] != DOT,
                seen_dot <==> exists|i: int| 1 <= i < k && #[trigger] b@[i] == DOT,
                forall|i: int| 1 <= i < k ==> #[trigger] bus_byte_ok(b@, i),
            decreases len - k,
        {
            let prev = b[k - 1];
            let c = b[k];
            if c == DOT && (prev == DOT || prev == COLON) || digit(c) && prev == DOT && !is_unique || !(
            c == DOT || letter(c) || c == HYPHEN || digit(c)) {
                assert(bus_stops_at(b@, k as int));
                proof {
                    lemma_bus_stop_unique(b@, k as int);
                    lemma_bus_end_is_stop(b@);
                }
            }
            if c == DOT {
                if prev == DOT || prev == COLON {
                    return Err(NameError::EmptyElement);
                }
                assert(b@[k as int] == DOT);
                seen_dot = true;
            } else if letter(c) || c == HYPHEN {
            } else if digit(c) {
                if prev == DOT && !is_unique {
                    return Err(NameError::ElementStartsWithDigit);
                }
            } else if c == 0 {
                if prev == DOT {
                    return Err(NameError::TrailingSeparator);
                }
                if !seen_dot {
                    return Err(NameError::TooFewElements);
                }
                assert(bus_name_ends_at(b@, k as int));
                let name = slice_subrange(b, 0, k + 1);
                assert forall|i: int| 0 <= i <= k implies name@[i] == b@[i] by {}
                proof {
                    lemma_bus_name_prefix(b@, k as int);
                }
                return Ok(BusName { inner: name });
            } else {
                return Err(NameError::InvalidChar);
            }
            k = k + 1;
        }
        proof {
            lemma_bus_end_is_stop(b@);
        }
        assert forall|n: int| !bus_stops_at(b@, n) by {
            if bus_stops_at(b@, n) {
                assert(bus_byte_ok(b@, n));
            }
        }
        Err(NameError::NotTerminated)
    }

    /// Wraps bytes already known to hold a valid bus name.
    pub fn from_bytes_unchecked(b: &'a [u8]) -> (r: BusName<'a>)
        requires
            is_bus_name(b@),
        ensures
            r@ == b@,
    {
        BusName { inner: b }
    }

    /// Whether this is a unique name (one that starts with `:`).
    pub fn is_unique(&self) -> (r: bool)
        ensures
            r == (self@[0] == COLON),
    {
        proof {
            use_type_invariant(self);
        }
        self.inner[0] == COLON
    }

    /// The name's bytes, terminator included.
    pub fn as_bytes(&self) -> (r: &'a [u8])
        ensures
            r@ == self@,
            is_bus_name(r@),
    {
        proof {
            use_type_invariant(self);
        }
        self.inner
    }
}

// ------------------------------------------------------------- member names

/// `b` holds a valid member name whose terminating nul is at `n`: only
/// `[A-Z][a-z][0-9]_` before it, at least one byte.
pub open spec fn member_name_ends_at(b: Seq<u8>, n: int) -> bool {
    &&& 1 <= n < b.len()
    &&& b[n] == 0
    &&& forall|i: int| 0 <= i < n ==> is_word_char(#[trigger] b[i])
}

/// `b` is a valid member name: at least 2 and at most 256 bytes long in all,
/// starting with a letter or `_`, no `.` anywhere.
pub open spec fn is_valid_member_name(b: Seq<u8>) -> bool {
    &&& 2 <= b.len() <= MAX_MEMBER_LEN
    &&& is_letter(b[0])
    &&& exists|n: int| member_name_ends_at(b, n)
}

/// Checking `b` as a member name stops at `k`: the first byte outside
/// `[A-Z][a-z][0-9]_` (the terminator among them).
pub open spec fn member_stops_at(b: Seq<u8>, k: int) -> bool {
    &&& 0 <= k < b.len()
    &&& !is_word_char(b[k])
    &&& forall|i: int| 0 <= i < k ==> is_word_char(#[trigger] b[i])
}

/// What checking `b` as a member name gives: the first rule it breaks, in
/// the order length, first byte, then the byte where the check stops.
pub open spec fn member_name_check(b: Seq<u8>) -> Result<(), NameError> {
    if b.len() < 2 {
        Err(NameError::Empty)
    } else if b.len() > MAX_MEMBER_LEN {
        Err(NameError::TooLong)
    } else if !is_letter(b[0]) {
        Err(NameError::BadStart)
    } else if exists|k: int| member_stops_at(b, k) {
        let k = choose|k: int| member_stops_at(b, k);
        if b[k] != 0 {
            Err(NameError::InvalidChar)
        } else {
            Ok(())
        }
    } else {
        Err(NameError::NotTerminated)
    }
}

/// Where a valid name's terminator stands, the check of its bytes stops.
proof fn lemma_member_end_is_stop(b: Seq<u8>)
    ensures
        forall|n: int| #[trigger] member_name_ends_at(b, n) ==> member_stops_at(b, n),
{
    assert forall|n: int| #[trigger] member_name_ends_at(b, n) implies member_stops_at(b, n) by {}
}

proof fn lemma_member_stop_unique(b: Seq<u8>, k: int)
    requires
        member_stops_at(b, k),
    ensures
        forall|j: int| #[trigger] member_stops_at(b, j) ==> j == k,
{
    assert forall|j: int| #[trigger] member_stops_at(b, j) implies j == k by {
        if j < k {
            assert(is_word_char(b[j]));
        } else if j > k {
            assert(is_word_char(b[k]));
        }
    }
}

/// `b` is exactly a member name: valid, and its terminating nul is its last byte.
pub open spec fn is_member_name(b: Seq<u8>) -> bool {
    is_valid_member_name(b) && member_name_ends_at(b, b.len() - 1)
}

proof fn lemma_member_name_prefix(b: Seq<u8>, k: int)
    requires
        is_valid_member_name(b),
        member_name_ends_at(b, k),
    ensures
        is_member_name(b.subrange(0, k + 1)),
{
    let c = b.subrange(0, k + 1);
    assert forall|i: int| 0 <= i < k implies is_word_char(#[trigger] c[i]) by {
        assert(c[i] == b[i]);
    }
    assert(member_name_ends_at(c, k));
}

/// A valid D-Bus member name, borrowed from its bytes (terminator included).
#[derive(Debug)]
pub struct MemberName<'a> {
    inner: &'a [u8],
}

impl<'a> View for MemberName<'a> {
    type V = Seq<u8>;

    closed spec fn view(&self) -> Seq<u8> {
        self.inner@
    }
}

impl<'a> MemberName<'a> {
    #[verifier::type_invariant]
    spec fn inv(&self) -> bool {
        is_member_name(self.inner@)
    }

    /// Checks `b` against the member-name grammar. The name borrows `b` up to and
    /// including its first nul; any bytes after that are not part of it.
    pub fn from_bytes(b: &'a [u8]) -> (r: Result<MemberName<'a>, NameError>)
        ensures
            r is Ok <==> is_valid_member_name(b@),
            r matches Ok(p) ==> member_name_ends_at(b@, p@.len() - 1) && p@ == b@.subrange(0, p@.len() as int),
            r is Ok <==> member_name_check(b@) is Ok,
            r matches Err(e) ==> member_name_check(b@) == Err::<(), NameError>(e),
    {
        let len = b.len();
        if len < 2 {
            return Err(NameError::Empty);
        }
        if len > MAX_MEMBER_LEN {
            return Err(NameError::TooLong);
        }
        if !letter(b[0]) {
            return Err(NameError::BadStart);
        }
        let mut k: usize = 0;
        while k < len
            invariant
                k <= len,
                len == b@.len(),
                2 <= len <= MAX_MEMBER_LEN,
                is_letter(b@[0]),
                forall|i: int| 0 <= i < k ==> is_word_char(#[trigger] b@[i]),
            decreases len - k,
        {
            let c = b[k];
            if !(letter(c) || digit(c)) {
                assert(member_stops_at(b@, k as int));
                proof {
                    lemma_member_stop_unique(b@, k as int);
                    lemma_member_end_is_stop(b@);
                }
            }
            if letter(c) || digit(c) {
            } else if c == 0 {
                assert(k != 0);
                assert(member_name_ends_at(b@, k as int));
                let name = slice_subrange(b, 0, k + 1);
                assert forall|i: int| 0 <= i <= k implies name@[i] == b@[i] by {}
                proof {
                    lemma_member_name_prefix(b@, k as int);
                }
                return Ok(MemberName { inner: name });
            } else {
                return Err(NameError::InvalidChar);
            }
            k = k + 1;
        }
        proof {
            lemma_member_end_is_stop(b@);
        }
        assert forall|n: int| !member_stops_at(b@, n) by {
            if member_stops_at(b@, n) {
                assert(is_word_char(b@[n]));
            }
        }
        Err(NameError::NotTerminated)
    }

    /// Wraps bytes already known to hold a valid member name.
    pub fn from_bytes_unchecked(b: &'a [u8]) -> (r: MemberName<'a>)
        requires
            is_member_name(b@),
        ensures
            r@ == b@,
    {
        MemberName { inner: b }
    }

    /// The name's bytes, terminator included.
    pub fn as_bytes(&self) -> (r: &'a [u8])
        ensures
            r@ == self@,
            is_member_name(r@),
    {
        proof {
            use_type_invariant(self);
        }
        self.inner
    }
}

/// Checks that `b` is exactly an object path: valid, with its only nul last. Bytes
/// after an earlier nul are reported as an invalid character.
pub fn check_exact_object_path(b: &[u8]) -> (r: Result<(), NameError>)
    ensures
        r is Ok <==> is_object_path(b@),
        r matches Err(e) ==> object_path_check(b@) == Err::<(), NameError>(e) || (object_path_check(b@) is Ok && e
            == NameError::InvalidChar),
{
    match ObjectPath::from_bytes(b) {
        Ok(name) => {
            let m = name.as_bytes().len();
            proof {
                lemma_path_end_is_stop(b@);
                if is_object_path(b@) {
                    lemma_path_stop_unique(b@, b@.len() - 1);
                }
            }
            if m == b.len() {
                assert(b@.subrange(0, m as int) =~= b@);
                Ok(())
            } else {
                Err(NameError::InvalidChar)
            }
        },
        Err(e) => Err(e),
    }
}

/// Checks that `b` is exactly an interface name: valid, with its only nul last. Bytes
/// after an earlier nul are reported as an invalid character.
pub fn check_exact_interface_name(b: &[u8]) -> (r: Result<(), NameError>)
    ensures
        r is Ok <==> is_interface_name(b@),
        r matches Err(e) ==> interface_name_check(b@) == Err::<(), NameError>(e) || (interface_name_check(b@) is Ok && e
            == NameError::InvalidChar),
{
    match InterfaceName::from_bytes(b) {
        Ok(name) => {
            let m = name.as_bytes().len();
            proof {
                lemma_interface_end_is_stop(b@);
                if is_interface_name(b@) {
                    lemma_interface_stop_unique(b@, b@.len() - 1);
                }
            }
            if m == b.len() {
                assert(b@.subrange(0, m as int) =~= b@);
                Ok(())
            } else {
                Err(NameError::InvalidChar)
            }
        },
        Err(e) => Err(e),
    }
}

/// Checks that `b` is exactly a bus name: valid, with its only nul last. Bytes
/// after an earlier nul are reported as an invalid character.
pub fn check_exact_bus_name(b: &[u8]) -> (r: Result<(), NameError>)
    ensures
        r is Ok <==> is_bus_name(b@),
        r matches Err(e) ==> bus_name_check(b@) == Err::<(), NameError>(e) || (bus_name_check(b@) is Ok && e
            == NameError::InvalidChar),
{
    match BusName::from_bytes(b) {
        Ok(name) => {
            let m = name.as_bytes().len();
            proof {
                lemma_bus_end_is_stop(b@);
                if is_bus_name(b@) {
                    lemma_bus_stop_unique(b@, b@.len() - 1);
                }
            }
            if m == b.len() {
                assert(b@.subrange(0, m as int) =~= b@);
                Ok(())
            } else {
                Err(NameError::InvalidChar)
            }
        },
        Err(e) => Err(e),
    }
}

/// Checks that `b` is exactly a member name: valid, with its only nul last. Bytes
/// after an earlier nul are reported as an invalid character.
pub fn check_exact_member_name(b: &[u8]) -> (r: Result<(), NameError>)
    ensures
        r is Ok <==> is_member_name(b@),
        r matches Err(e) ==> member_name_check(b@) == Err::<(), NameError>(e) || (member_name_check(b@) is Ok && e
            == NameError::InvalidChar),
{
    match MemberName::from_bytes(b) {
        Ok(name) => {
            let m = name.as_bytes().len();
            proof {
                lemma_member_end_is_stop(b@);
                if is_member_name(b@) {
                    lemma_member_stop_unique(b@, b@.len() - 1);
                }
            }
            if m == b.len() {
                assert(b@.subrange(0, m as int) =~= b@);
                Ok(())
            } else {
                Err(NameError::InvalidChar)
            }
        },
        Err(e) => Err(e),
    }
}

} // verus!
