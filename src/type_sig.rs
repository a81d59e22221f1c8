//! D-Bus type signatures: strings of type codes, validated in one pass.
use vstd::prelude::*;

verus! {

/// Why a string is not a valid type signature.
#[derive(Debug, PartialEq, Eq, Structural)]
pub enum TypeError {
    /// A character that is no type code.
    Invalid(char),
    /// The signature ended with this many parens still open.
    ParenUnclosed(u64),
    /// An array marker `a` with no element type after it: at the end, or
    /// right before a `)`.
    ElementRequired,
    /// A `)` with no `(` open.
    ParenClosedBeforeOpen,
}

impl TypeError {
    /// A short description of the error.
    pub fn description(&self) -> (r: &'static str)
        ensures
            r@ == type_error_description(*self)@,
    {
        match self {
            TypeError::Invalid(_) => "Type spec contained invalid character",
            TypeError::ParenUnclosed(_) => "Type spec left parens unclosed",
            TypeError::ParenClosedBeforeOpen => "Type spec closed a paren without having any open",
            TypeError::ElementRequired => "Type spec is missing required element for array",
        }
    }
}

/// The description of each error kind.
pub open spec fn type_error_description(e: TypeError) -> &'static str {
    match e {
        TypeError::Invalid(_) => "Type spec contained invalid character",
        TypeError::ParenUnclosed(_) => "Type spec left parens unclosed",
        TypeError::ParenClosedBeforeOpen => "Type spec closed a paren without having any open",
        TypeError::ElementRequired => "Type spec is missing required element for array",
    }
}

/// The codes of the basic types, each a complete type by itself.
pub open spec fn is_basic_code(c: char) -> bool {
    c == 'y' || c == 'b' || c == 'n' || c == 'q' || c == 'i' || c == 'u' || c == 'x'
        || c == 't' || c == 'd' || c == 'h' || c == 's' || c == 'o' || c == 'g'
}

/// One step of the scan: from the paren depth and whether an array element is
/// owed, reading `c`.
pub open spec fn scan_step(depth: nat, element_required: bool, c: char) -> Result<(nat, bool), TypeError> {
    if is_basic_code(c) {
        Ok((depth, false))
    } else if c == 'a' {
        Ok((depth, true))
    } else if c == '(' {
        Ok((depth + 1, false))
    } else if c == ')' {
        if depth == 0 {
            Err(TypeError::ParenClosedBeforeOpen)
        } else if element_required {
            Err(TypeError::ElementRequired)
        } else {
            Ok(((depth - 1) as nat, false))
        }
    } else {
        Err(TypeError::Invalid(c))
    }
}

/// The state of the scan after the first `n` characters of `s`: the paren
/// depth and whether an array element is owed, or the first error met.
pub open spec fn scan_state(s: Seq<char>, n: nat) -> Result<(nat, bool), TypeError>
    decreases n,
{
    if n == 0 {
        Ok((0, false))
    } else {
        match scan_state(s, (n - 1) as nat) {
            Err(e) => Err(e),
            Ok((d, r)) => scan_step(d, r, s[n - 1]),
        }
    }
}

/// What validating the whole of `s` gives: the error met during the scan, or
/// at its end an unclosed paren or a dangling array marker.
pub open spec fn signature_check(s: Seq<char>) -> Result<(), TypeError> {
    match scan_state(s, s.len()) {
        Err(e) => Err(e),
        Ok((d, r)) => if d != 0 {
            Err(TypeError::ParenUnclosed(d as u64))
        } else if r {
            Err(TypeError::ElementRequired)
        } else {
            Ok(())
        },
    }
}

/// Whether `s` is a valid type signature.
pub open spec fn is_valid_signature(s: Seq<char>) -> bool {
    signature_check(s) is Ok
}

proof fn lemma_depth_bounded(s: Seq<char>, n: nat)
    requires
        n <= s.len(),
    ensures
        scan_state(s, n) matches Ok((d, _)) ==> d <= n,
    decreases n,
{
    if n > 0 {
        lemma_depth_bounded(s, (n - 1) as nat);
    }
}

proof fn lemma_error_persists(s: Seq<char>, n: nat, m: nat)
    requires
        n <= m,
        scan_state(s, n) is Err,
    ensures
        scan_state(s, m) == scan_state(s, n),
    decreases m - n,
{
    if n < m {
        lemma_error_persists(s, n, (m - 1) as nat);
    }
}

/// A validated type signature, borrowing its text.
#[derive(Debug)]
pub struct Type<'a> {
    v: &'a str,
}

impl<'a> View for Type<'a> {
    type V = Seq<char>;

    closed spec fn view(&self) -> Seq<char> {
        self.v@
    }
}

impl<'a> Type<'a> {
    #[verifier::type_invariant]
    spec fn inv(&self) -> bool {
        is_valid_signature(self.v@)
    }

    /// Validates `v` as a type signature: basic codes stand alone, `a` needs
    /// a complete type after it, parens must balance. The empty string is valid.
    pub fn from_str(v: &'a str) -> (r: Result<Type<'a>, TypeError>)
        ensures
            match r {
                Ok(t) => signature_check(v@) is Ok && t@ == v@,
                Err(e) => signature_check(v@) == Err::<(), TypeError>(e),
            },
    {
        let n = v.unicode_len();
        let mut depth: u64 = 0;
        let mut element_required = false;
        let mut i: usize = 0;
        while i < n
            invariant
                n == v@.len(),
                i <= n,
                scan_state(v@, i as nat) == Ok::<(nat, bool), TypeError>((depth as nat, element_required)),
            decreases n - i,
        {
            proof {
                lemma_depth_bounded(v@, i as nat);
            }
            let c = v.get_char(i);
            assert(scan_state(v@, (i + 1) as nat) == scan_step(depth as nat, element_required, c));
            if c == 'y' || c == 'b' || c == 'n' || c == 'q' || c == 'i' || c == 'u' || c == 'x'
                || c == 't' || c == 'd' || c == 'h' || c == 's' || c == 'o' || c == 'g' {
                element_required = false;
            } else if c == 'a' {
                element_required = true;
            } else if c == '(' {
                depth = depth + 1;
                element_required = false;
            } else if c == ')' {
                if depth == 0 {
                    proof {
                        lemma_error_persists(v@, (i + 1) as nat, n as nat);
                    }
                    return Err(TypeError::ParenClosedBeforeOpen);
                }
                if element_required {
                    proof {
                        lemma_error_persists(v@, (i + 1) as nat, n as nat);
                    }
                    return Err(TypeError::ElementRequired);
                }
                depth = depth - 1;
                element_required = false;
            } else {
                proof {
                    lemma_error_persists(v@, (i + 1) as nat, n as nat);
                }
                return Err(TypeError::Invalid(c));
            }
            i = i + 1;
        }
        if depth != 0 {
            Err(TypeError::ParenUnclosed(depth))
        } else if element_required {
            Err(TypeError::ElementRequired)
        } else {
            Ok(Type { v })
        }
    }

    /// The signature's text.
    pub fn as_str(&self) -> (r: &'a str)
        ensures
            r@ == self@,
            is_valid_signature(r@),
    {
        proof {
            use_type_invariant(self);
        }
        self.v
    }

    /// Appending a type code is not offered: a signature is a read-only view
    /// of text it borrows, so this always fails and leaves it as it was.
    pub fn append_type_code(&mut self, code: u8) -> (r: Result<(), String>)
        ensures
            r is Err,
            *final(self) == *old(self),
    {
        Err(String::from_str("a type signature borrows its text and cannot be extended"))
    }
}

} // verus!
