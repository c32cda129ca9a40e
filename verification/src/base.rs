//! Status codes and the two error representations.
//!
//! [`Error`] wraps a bare numeric platform status; [`ErrorNew`] unifies that
//! status form with a richer foreign error object into one reporting
//! surface. Message resolution is a platform capability modeled by
//! [`MessageResolver`]: one interface with two interchangeable strategies.

use vstd::prelude::*;
use vstd::string::StringExecFns;

verus! {

/// The platform's numeric status convention: a signed 32-bit code, where
/// zero conventionally denotes success.
pub type OSStatus = i32;

/// The decimal digit character for `d` (meaningful for `0 <= d < 10`).
pub open spec fn digit_char(d: int) -> char {
    if d == 0 {
        '0'
    } else if d == 1 {
        '1'
    } else if d == 2 {
        '2'
    } else if d == 3 {
        '3'
    } else if d == 4 {
        '4'
    } else if d == 5 {
        '5'
    } else if d == 6 {
        '6'
    } else if d == 7 {
        '7'
    } else if d == 8 {
        '8'
    } else {
        '9'
    }
}

/// The decimal digits of `n`, most significant first, without a sign.
pub open spec fn dec_digits(n: nat) -> Seq<char>
    decreases n,
{
    if n < 10 {
        seq![digit_char(n as int)]
    } else {
        dec_digits(n / 10).push(digit_char((n % 10) as int))
    }
}

/// The decimal string form of `n`, with a leading minus sign when negative.
pub open spec fn dec_str(n: int) -> Seq<char> {
    if n < 0 {
        seq!['-'] + dec_digits((-n) as nat)
    } else {
        dec_digits(n as nat)
    }
}

/// The decimal form of a number is never empty.
pub proof fn lemma_dec_str_nonempty(n: int)
    ensures
        dec_str(n).len() > 0,
{
    if n < 0 {
        assert(dec_str(n).len() >= 1);
    }
}

/// The one-character string for the digit `d`.
fn digit_str(d: u64) -> (r: &'static str)
    requires
        d < 10,
    ensures
        r@ == seq![digit_char(d as int)],
{
    let r: &'static str = if d == 0 {
        "0"
    } else if d == 1 {
        "1"
    } else if d == 2 {
        "2"
    } else if d == 3 {
        "3"
    } else if d == 4 {
        "4"
    } else if d == 5 {
        "5"
    } else if d == 6 {
        "6"
    } else if d == 7 {
        "7"
    } else if d == 8 {
        "8"
    } else {
        "9"
    };
    proof {
        reveal_strlit("0");
        reveal_strlit("1");
        reveal_strlit("2");
        reveal_strlit("3");
        reveal_strlit("4");
        reveal_strlit("5");
        reveal_strlit("6");
        reveal_strlit("7");
        reveal_strlit("8");
        reveal_strlit("9");
        assert(r@ =~= seq![digit_char(d as int)]);
    }
    r
}

/// Appends the decimal digits of `n` to `out`, most significant first.
fn push_dec_digits(n: u64, out: &mut String)
    ensures
        final(out)@ == old(out)@ + dec_digits(n as nat),
    decreases n,
{
    if n >= 10 {
        push_dec_digits(n / 10, out);
    }
    let d = digit_str(n % 10);
    out.append(d);
    proof {
        assert(out@ =~= old(out)@ + dec_digits(n as nat));
    }
}

/// The decimal string of a signed 32-bit value.
pub fn i32_dec_string(n: i32) -> (r: String)
    ensures
        r@ == dec_str(n as int),
{
    let mut s = String::new();
    if n < 0 {
        s.append("-");
        let m: u64 = (-(n as i64)) as u64;
        push_dec_digits(m, &mut s);
        proof {
            reveal_strlit("-");
            assert(s@ =~= dec_str(n as int));
        }
    } else {
        push_dec_digits(n as u64, &mut s);
        proof {
            assert(s@ =~= dec_str(n as int));
        }
    }
    s
}

/// The platform message-resolution capability: a single interface with two
/// interchangeable strategies. Targets without native message resolution
/// use [`MessageResolver::Absent`], which never yields a message; targets
/// with it are represented by [`MessageResolver::Table`], a table mapping
/// status codes to their messages.
pub enum MessageResolver {
    /// The strategy for targets without the capability: every lookup yields
    /// no message.
    Absent,
    /// The resolving strategy, backed by a table of known status messages.
    Table(Vec<(i32, String)>),
}

/// The message for `code` in `table`: the first matching entry, if any.
pub open spec fn spec_lookup(table: Seq<(i32, String)>, code: i32) -> Option<Seq<char>>
    decreases table.len(),
{
    if table.len() == 0 {
        None
    } else if table[0].0 == code {
        Some(table[0].1@)
    } else {
        spec_lookup(table.drop_first(), code)
    }
}

impl MessageResolver {
    /// What this strategy resolves `code` to.
    pub open spec fn spec_resolve(self, code: i32) -> Option<Seq<char>> {
        match self {
            MessageResolver::Absent => None,
            MessageResolver::Table(table) => spec_lookup(table@, code),
        }
    }

    /// Resolves `code` to a message, or to `None` when this strategy has
    /// none for it.
    pub fn resolve(&self, code: i32) -> (r: Option<String>)
        ensures
            match r {
                Some(s) => self.spec_resolve(code) == Some(s@),
                None => self.spec_resolve(code) is None,
            },
    {
        match self {
            MessageResolver::Absent => None,
            MessageResolver::Table(table) => {
                let mut i: usize = 0;
                proof {
                    assert(table@.skip(0) =~= table@);
                }
                while i < table.len()
                    invariant
                        i <= table@.len(),
                        self.spec_resolve(code) == spec_lookup(table@, code),
                        spec_lookup(table@, code) == spec_lookup(table@.skip(i as int), code),
                    decreases table@.len() - i,
                {
                    proof {
                        assert(table@.skip(i as int)[0] == table@[i as int]);
                        assert(table@.skip(i as int).drop_first() =~= table@.skip(i + 1));
                    }
                    if table[i].0 == code {
                        proof {
                            assert(spec_lookup(table@.skip(i as int), code)
                                == Some(table@[i as int].1@));
                        }
                        return Some(table[i].1.clone());
                    }
                    i = i + 1;
                }
                proof {
                    assert(table@.skip(i as int).len() == 0);
                }
                None
            },
        }
    }
}

/// A bare platform status error.
///
/// A value type with no identity beyond its numeric code: two values with
/// equal codes are interchangeable.
#[derive(Copy, Clone, Debug)]
pub struct Error {
    code: i32,
}

impl Error {
    /// The numeric status this error wraps.
    pub closed spec fn spec_code(self) -> i32 {
        self.code
    }

    /// The error wrapping `code`.
    pub closed spec fn spec_from_code(code: i32) -> Error {
        Error { code }
    }

    /// What message resolution yields for this error: this build carries no
    /// native message-resolution capability, so the absent strategy applies
    /// and no message is ever available.
    pub open spec fn spec_message(self) -> Option<Seq<char>> {
        MessageResolver::Absent.spec_resolve(self.spec_code())
    }

    /// The display form: the resolved message verbatim when one is
    /// available, otherwise `error code {code}`.
    pub open spec fn spec_display(self) -> Seq<char> {
        match self.spec_message() {
            Some(m) => m,
            None => "error code "@ + dec_str(self.spec_code() as int),
        }
    }

    /// Creates a new `Error` from a status code. Pure construction: any
    /// code is accepted, including success codes; the caller is responsible
    /// for wrapping only actual failures.
    pub fn from_code(code: OSStatus) -> (r: Self)
        ensures
            r == Error::spec_from_code(code),
            r.spec_code() == code,
    {
        Self { code }
    }

    /// Returns a string describing the current error, if available.
    pub fn message(self) -> (r: Option<String>)
        ensures
            r is None,
            self.spec_message() is None,
    {
        self.inner_message()
    }

    /// The strategy selected for this build: no native message resolution
    /// is present, so no message is ever returned.
    fn inner_message(self) -> (r: Option<String>)
        ensures
            r is None,
    {
        let resolver = MessageResolver::Absent;
        resolver.resolve(self.code)
    }

    /// Returns the code of the current error.
    pub fn code(self) -> (r: OSStatus)
        ensures
            r == self.spec_code(),
    {
        self.code
    }

    /// The display form of this error: the resolved message verbatim when
    /// one is available, otherwise `error code {code}`.
    pub fn display_string(self) -> (r: String)
        ensures
            r@ == self.spec_display(),
    {
        match self.message() {
            Some(m) => m,
            None => {
                let digits = i32_dec_string(self.code);
                let s = String::from_str("error code ").concat(digits.as_str());
                proof {
                    assert(s@ =~= self.spec_display());
                }
                s
            },
        }
    }
}

/// The observable content of a foreign framework error object: the numeric
/// code it maps to and the description it carries.
#[derive(Debug)]
pub struct CfError {
    /// The numeric status this foreign error maps to.
    pub code: OSStatus,
    /// The foreign object's own description.
    pub description: String,
}

#[derive(Debug)]
enum ErrorNewImpl {
    CfError(CfError),
    OsStatus(i32),
}

/// An error from either origin — a foreign error object or a bare platform
/// status — behind one reporting surface.
///
/// Every value yields a numeric code and a description, whichever variant
/// it holds.
#[derive(Debug)]
pub struct ErrorNew(ErrorNewImpl);

impl ErrorNew {
    /// Whether this error originates from a bare platform status.
    pub closed spec fn is_native_status(self) -> bool {
        self.0 is OsStatus
    }

    /// Whether this error originates from a foreign error object.
    pub closed spec fn is_foreign(self) -> bool {
        self.0 is CfError
    }

    /// The numeric code this error reports: the stored status, or the
    /// foreign object's mapped code.
    pub closed spec fn spec_code(self) -> i32 {
        match self.0 {
            ErrorNewImpl::CfError(e) => e.code,
            ErrorNewImpl::OsStatus(s) => s,
        }
    }

    /// The description this error reports: the foreign object's own
    /// description, or — since no message resolution is available on this
    /// build — the decimal form of the stored status.
    pub closed spec fn spec_description(self) -> Seq<char> {
        match self.0 {
            ErrorNewImpl::CfError(e) => e.description@,
            ErrorNewImpl::OsStatus(s) => dec_str(s as int),
        }
    }

    /// The error unifying the bare status error `e`.
    pub closed spec fn spec_from_error(e: Error) -> ErrorNew {
        ErrorNew(ErrorNewImpl::OsStatus(e.code))
    }

    /// Wraps a foreign error object.
    pub fn from_cf_error(cf_error: CfError) -> (r: ErrorNew)
        ensures
            r.is_foreign(),
            r.spec_code() == cf_error.code,
            r.spec_description() == cf_error.description@,
    {
        ErrorNew(ErrorNewImpl::CfError(cf_error))
    }

    /// Wraps a bare platform status.
    pub fn from_os_status(os_status: OSStatus) -> (r: ErrorNew)
        ensures
            r.is_native_status(),
            r.spec_code() == os_status,
            r.spec_description() == dec_str(os_status as int),
    {
        ErrorNew(ErrorNewImpl::OsStatus(os_status))
    }

    /// The numeric code of this error.
    pub fn code(&self) -> (r: OSStatus)
        ensures
            r == self.spec_code(),
    {
        match &self.0 {
            ErrorNewImpl::CfError(cf_error) => cf_error.code,
            ErrorNewImpl::OsStatus(os_status) => *os_status,
        }
    }

    /// The description of this error: the foreign object's own description,
    /// or for a bare status its resolved message, falling back to the
    /// decimal form of the code when no message is available.
    pub fn description(&self) -> (r: String)
        ensures
            r@ == self.spec_description(),
    {
        match &self.0 {
            ErrorNewImpl::CfError(cf_error) => cf_error.description.clone(),
            ErrorNewImpl::OsStatus(os_status) => {
                match Error::from_code(*os_status).message() {
                    Some(m) => m,
                    None => i32_dec_string(*os_status),
                }
            },
        }
    }
}

/// A unified error built from a bare status reports a non-empty
/// description, even though no message resolution is available.
pub proof fn lemma_native_description_nonempty(e: ErrorNew)
    requires
        e.is_native_status(),
    ensures
        e.spec_description().len() > 0,
{
    lemma_dec_str_nonempty(e.spec_code() as int);
}

impl From<OSStatus> for Error {
    /// Wraps a status code, as `Error::from_code` does.
    fn from(code: OSStatus) -> (r: Error)
        ensures
            r == Error::spec_from_code(code),
            r.spec_code() == code,
    {
        Error::from_code(code)
    }
}

impl vstd::std_specs::convert::FromSpecImpl<OSStatus> for Error {
    open spec fn obeys_from_spec() -> bool {
        true
    }

    open spec fn from_spec(v: OSStatus) -> Error {
        Error::spec_from_code(v)
    }
}

impl From<ErrorNew> for Error {
    /// Extracts the numeric code only, discarding any foreign description:
    /// this direction of the conversion is deliberately lossy.
    fn from(error: ErrorNew) -> (r: Error)
        ensures
            r == Error::spec_from_code(error.spec_code()),
            r.spec_code() == error.spec_code(),
    {
        Error::from_code(error.code())
    }
}

impl vstd::std_specs::convert::FromSpecImpl<ErrorNew> for Error {
    open spec fn obeys_from_spec() -> bool {
        true
    }

    open spec fn from_spec(v: ErrorNew) -> Error {
        Error::spec_from_code(v.spec_code())
    }
}

impl From<Error> for ErrorNew {
    /// Unifies a bare status error; the code is preserved exactly.
    fn from(error: Error) -> (r: ErrorNew)
        ensures
            r == ErrorNew::spec_from_error(error),
            r.is_native_status(),
            r.spec_code() == error.spec_code(),
            r.spec_description() == dec_str(error.spec_code() as int),
    {
        ErrorNew::from_os_status(error.code())
    }
}

impl vstd::std_specs::convert::FromSpecImpl<Error> for ErrorNew {
    open spec fn obeys_from_spec() -> bool {
        true
    }

    open spec fn from_spec(v: Error) -> ErrorNew {
        ErrorNew::spec_from_error(v)
    }
}

/// Round trip: unifying the bare status error wrapping any code `c`
/// preserves that code exactly. (The description need not round-trip: the
/// unified form derives its own.)
pub proof fn lemma_code_round_trip(c: i32)
    ensures
        ErrorNew::spec_from_error(Error::spec_from_code(c)).spec_code() == c,
        Error::spec_from_code(
            ErrorNew::spec_from_error(Error::spec_from_code(c)).spec_code(),
        ).spec_code() == c,
{
}

} // verus!
