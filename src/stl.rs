//! Asset specification types: ticker, name, details and precision, each
//! checked on construction.
use vstd::prelude::*;

use crate::fieldmap::name_bytes;

verus! {

/// Why a text was refused as an identifier.
#[derive(Clone, Copy, Debug, PartialEq, Eq)]
pub enum InvalidIdent {
    /// The text holds a character outside ASCII.
    NonAsciiChar,
    /// The text is empty.
    Empty,
    /// The text holds this character, which its kind does not allow.
    InvalidChar(u8),
    /// The text has this many bytes, more than the kind's maximum.
    TooLong(usize, usize),
}

/// Characters an identifier may be made of.
#[derive(Clone, Copy, Debug, PartialEq, Eq)]
pub enum CharSet {
    /// Decimal digits and capital Latin letters.
    AlphaCapsNum,
    /// Printable ASCII, space included.
    AsciiPrintable,
}

impl CharSet {
    pub open spec fn spec_allows(self, b: u8) -> bool {
        match self {
            CharSet::AlphaCapsNum => (48 <= b <= 57) || (65 <= b <= 90),
            CharSet::AsciiPrintable => 32 <= b <= 126,
        }
    }

    #[verifier::when_used_as_spec(spec_allows)]
    pub fn allows(self, b: u8) -> (r: bool)
        ensures
            r == self.spec_allows(b),
    {
        match self {
            CharSet::AlphaCapsNum => (48 <= b && b <= 57) || (65 <= b && b <= 90),
            CharSet::AsciiPrintable => 32 <= b && b <= 126,
        }
    }
}

pub open spec fn all_ascii(b: Seq<u8>) -> bool {
    forall|i: int| 0 <= i < b.len() ==> #[trigger] b[i] < 128
}

/// Position of the first byte `set` does not allow (the length if none).
pub open spec fn first_disallowed(b: Seq<u8>, set: CharSet) -> int
    decreases b.len(),
{
    if b.len() == 0 {
        0
    } else if !set.spec_allows(b[0]) {
        0
    } else {
        1 + first_disallowed(b.drop_first(), set)
    }
}

/// What checking the bytes `b` of a text as an identifier of `set` with at
/// most `max` bytes gives: non-ASCII text first, then emptiness, then the
/// first character not allowed, then the length.
pub open spec fn ident_result(b: Seq<u8>, set: CharSet, max: usize) -> Result<(), InvalidIdent> {
    if !all_ascii(b) {
        Err(InvalidIdent::NonAsciiChar)
    } else if b.len() == 0 {
        Err(InvalidIdent::Empty)
    } else if first_disallowed(b, set) < b.len() {
        Err(InvalidIdent::InvalidChar(b[first_disallowed(b, set)]))
    } else if b.len() > max {
        Err(InvalidIdent::TooLong(b.len() as usize, max))
    } else {
        Ok(())
    }
}

proof fn lemma_first_disallowed(b: Seq<u8>, set: CharSet, i: int)
    requires
        0 <= i <= b.len(),
        forall|j: int| 0 <= j < i ==> set.spec_allows(#[trigger] b[j]),
    ensures
        first_disallowed(b, set) >= i,
        i < b.len() && !set.spec_allows(b[i]) ==> first_disallowed(b, set) == i,
        first_disallowed(b, set) <= b.len(),
    decreases b.len(),
{
    if b.len() > 0 && set.spec_allows(b[0]) {
        let t = b.drop_first();
        if i > 0 {
            assert forall|j: int| 0 <= j < i - 1 implies set.spec_allows(#[trigger] t[j]) by {
                assert(t[j] == b[j + 1]);
            }
            lemma_first_disallowed(t, set, i - 1);
        } else {
            lemma_first_disallowed(t, set, 0);
        }
    }
}

/// Checks the bytes of a text as an identifier of `set` with at most `max` bytes.
pub fn check_ident(b: &[u8], set: CharSet, max: usize) -> (r: Result<(), InvalidIdent>)
    ensures
        r == ident_result(b@, set, max),
{
    let mut i: usize = 0;
    while i < b.len()
        invariant
            i <= b@.len(),
            forall|j: int| 0 <= j < i ==> #[trigger] b@[j] < 128,
        decreases b@.len() - i,
    {
        if b[i] >= 128 {
            return Err(InvalidIdent::NonAsciiChar);
        }
        i = i + 1;
    }
    if b.len() == 0 {
        return Err(InvalidIdent::Empty);
    }
    let mut k: usize = 0;
    while k < b.len()
        invariant
            k <= b@.len(),
            all_ascii(b@),
            forall|j: int| 0 <= j < k ==> set.spec_allows(#[trigger] b@[j]),
        decreases b@.len() - k,
    {
        if !set.allows(b[k]) {
            proof {
                lemma_first_disallowed(b@, set, k as int);
            }
            return Err(InvalidIdent::InvalidChar(b[k]));
        }
        k = k + 1;
    }
    proof {
        lemma_first_disallowed(b@, set, k as int);
    }
    if b.len() > max {
        Err(InvalidIdent::TooLong(b.len(), max))
    } else {
        Ok(())
    }
}

/// Most bytes of a ticker.
pub const TICKER_MAX: usize = 8;
/// Most bytes of a contract name.
pub const NAME_MAX: usize = 40;
/// Most bytes of contract details.
pub const DETAILS_MAX: usize = 255;
/// Most bytes of a Ricardian contract text.
pub const RICARDIAN_MAX: usize = 65535;

/// An asset ticker: one to eight digits or capital letters.
#[derive(Clone, Debug, PartialEq, Eq, Hash, PartialOrd, Ord)]
pub struct Ticker(String);

/// A contract name: one to forty printable ASCII characters.
#[derive(Clone, Debug, PartialEq, Eq, Hash, PartialOrd, Ord)]
pub struct Name(String);

/// Contract details: a non-empty text of at most 255 bytes.
#[derive(Clone, Debug, PartialEq, Eq, Hash, PartialOrd, Ord)]
pub struct Details(String);

/// The text of a Ricardian contract: at most 65535 bytes.
#[derive(Clone, Debug, PartialEq, Eq, Hash, Default)]
pub struct RicardianContract(String);

impl View for Ticker {
    type V = Seq<char>;

    closed spec fn view(&self) -> Seq<char> {
        self.0@
    }
}

impl View for Name {
    type V = Seq<char>;

    closed spec fn view(&self) -> Seq<char> {
        self.0@
    }
}

impl View for Details {
    type V = Seq<char>;

    closed spec fn view(&self) -> Seq<char> {
        self.0@
    }
}

impl View for RicardianContract {
    type V = Seq<char>;

    closed spec fn view(&self) -> Seq<char> {
        self.0@
    }
}

/// What checking a text as contract details gives.
pub open spec fn details_result(b: Seq<u8>) -> Result<(), InvalidIdent> {
    if b.len() == 0 {
        Err(InvalidIdent::Empty)
    } else if b.len() > DETAILS_MAX {
        Err(InvalidIdent::TooLong(b.len() as usize, DETAILS_MAX))
    } else {
        Ok(())
    }
}

impl Ticker {
    pub fn from_str(s: &str) -> (r: Result<Ticker, InvalidIdent>)
        ensures
            r is Ok <==> ident_result(name_bytes(s@), CharSet::AlphaCapsNum, TICKER_MAX) is Ok,
            r matches Ok(t) ==> t@ == s@,
            r matches Err(e) ==> ident_result(name_bytes(s@), CharSet::AlphaCapsNum, TICKER_MAX) == Err::<(), InvalidIdent>(e),
    {
        match check_ident(s.as_bytes(), CharSet::AlphaCapsNum, TICKER_MAX) {
            Ok(()) => Ok(Ticker(s.to_owned())),
            Err(e) => Err(e),
        }
    }

    pub fn as_str(&self) -> (r: &str)
        ensures
            r@ == self@,
    {
        self.0.as_str()
    }
}

impl Name {
    pub fn from_str(s: &str) -> (r: Result<Name, InvalidIdent>)
        ensures
            r is Ok <==> ident_result(name_bytes(s@), CharSet::AsciiPrintable, NAME_MAX) is Ok,
            r matches Ok(n) ==> n@ == s@,
            r matches Err(e) ==> ident_result(name_bytes(s@), CharSet::AsciiPrintable, NAME_MAX) == Err::<(), InvalidIdent>(e),
    {
        match check_ident(s.as_bytes(), CharSet::AsciiPrintable, NAME_MAX) {
            Ok(()) => Ok(Name(s.to_owned())),
            Err(e) => Err(e),
        }
    }

    pub fn as_str(&self) -> (r: &str)
        ensures
            r@ == self@,
    {
        self.0.as_str()
    }
}

impl Details {
    pub fn from_str(s: &str) -> (r: Result<Details, InvalidIdent>)
        ensures
            r is Ok <==> details_result(name_bytes(s@)) is Ok,
            r matches Ok(d) ==> d@ == s@,
            r matches Err(e) ==> details_result(name_bytes(s@)) == Err::<(), InvalidIdent>(e),
    {
        let n = s.as_bytes().len();
        if n == 0 {
            Err(InvalidIdent::Empty)
        } else if n > DETAILS_MAX {
            Err(InvalidIdent::TooLong(n, DETAILS_MAX))
        } else {
            Ok(Details(s.to_owned()))
        }
    }

    pub fn as_str(&self) -> (r: &str)
        ensures
            r@ == self@,
    {
        self.0.as_str()
    }
}

impl RicardianContract {
    pub fn from_str(s: &str) -> (r: Result<RicardianContract, InvalidIdent>)
        ensures
            r is Ok <==> name_bytes(s@).len() <= RICARDIAN_MAX,
            r matches Ok(c) ==> c@ == s@,
            r matches Err(e) ==> e == InvalidIdent::TooLong(name_bytes(s@).len() as usize, RICARDIAN_MAX),
    {
        let n = s.as_bytes().len();
        if n > RICARDIAN_MAX {
            Err(InvalidIdent::TooLong(n, RICARDIAN_MAX))
        } else {
            Ok(RicardianContract(s.to_owned()))
        }
    }

    pub fn as_str(&self) -> (r: &str)
        ensures
            r@ == self@,
    {
        self.0.as_str()
    }
}

/// Number of decimal digits after the point in an asset's amounts.
#[derive(Clone, Copy, Debug, PartialEq, Eq, Hash)]
pub enum Precision {
    Indivisible,
    Deci,
    Centi,
    Milli,
    DeciMilli,
    CentiMilli,
    Micro,
    DeciMicro,
    CentiMicro,
    Nano,
    DeciNano,
    CentiNano,
    Pico,
    DeciPico,
    CentiPico,
    Femto,
    DeciFemto,
    CentiFemto,
    Atto,
}

/// The specification of a fungible asset.
#[derive(Clone, Debug, PartialEq, Eq, Hash)]
pub struct AssetSpec {
    pub ticker: Ticker,
    pub name: Name,
    pub details: Option<Details>,
    pub precision: Precision,
}

impl AssetSpec {
    /// An asset specification without details, from a valid ticker and name.
    pub fn new(ticker: &str, name: &str, precision: Precision) -> (r: AssetSpec)
        requires
            ident_result(name_bytes(ticker@), CharSet::AlphaCapsNum, TICKER_MAX) is Ok,
            ident_result(name_bytes(name@), CharSet::AsciiPrintable, NAME_MAX) is Ok,
        ensures
            r.ticker@ == ticker@,
            r.name@ == name@,
            r.details is None,
            r.precision == precision,
    {
        let t = Ticker::from_str(ticker);
        let n = Name::from_str(name);
        match (t, n) {
            (Ok(t), Ok(n)) => AssetSpec { ticker: t, name: n, details: None, precision },
            _ => {
                proof {
                    assert(false);
                }
                AssetSpec { ticker: Ticker(ticker.to_owned()), name: Name(name.to_owned()), details: None, precision }
            },
        }
    }

    /// An asset specification from texts, refused with the first error found
    /// in the ticker, then the name, then the details.
    pub fn with(ticker: &str, name: &str, precision: Precision, details: Option<&str>) -> (r: Result<AssetSpec, InvalidIdent>)
        ensures
            r is Ok <==> {
                &&& ident_result(name_bytes(ticker@), CharSet::AlphaCapsNum, TICKER_MAX) is Ok
                &&& ident_result(name_bytes(name@), CharSet::AsciiPrintable, NAME_MAX) is Ok
                &&& (details matches Some(d) ==> details_result(name_bytes(d@)) is Ok)
            },
            r matches Ok(a) ==> {
                &&& a.ticker@ == ticker@
                &&& a.name@ == name@
                &&& a.precision == precision
                &&& (details matches Some(d) ==> a.details matches Some(x) && x@ == d@)
                &&& (details is None ==> a.details is None)
            },
            r matches Err(e) ==> {
                if ident_result(name_bytes(ticker@), CharSet::AlphaCapsNum, TICKER_MAX) is Err {
                    ident_result(name_bytes(ticker@), CharSet::AlphaCapsNum, TICKER_MAX) == Err::<(), InvalidIdent>(e)
                } else if ident_result(name_bytes(name@), CharSet::AsciiPrintable, NAME_MAX) is Err {
                    ident_result(name_bytes(name@), CharSet::AsciiPrintable, NAME_MAX) == Err::<(), InvalidIdent>(e)
                } else {
                    details matches Some(d) && details_result(name_bytes(d@)) == Err::<(), InvalidIdent>(e)
                }
            },
    {
        let t = match Ticker::from_str(ticker) {
            Ok(t) => t,
            Err(e) => return Err(e),
        };
        let n = match Name::from_str(name) {
            Ok(n) => n,
            Err(e) => return Err(e),
        };
        let d = match details {
            None => None,
            Some(s) => match Details::from_str(s) {
                Ok(d) => Some(d),
                Err(e) => return Err(e),
            },
        };
        Ok(AssetSpec { ticker: t, name: n, details: d, precision })
    }

    pub fn ticker(&self) -> (r: &str)
        ensures
            r@ == self.ticker@,
    {
        self.ticker.as_str()
    }

    pub fn name(&self) -> (r: &str)
        ensures
            r@ == self.name@,
    {
        self.name.as_str()
    }

    pub fn details(&self) -> (r: Option<&str>)
        ensures
            r matches Some(s) ==> self.details matches Some(d) && s@ == d@,
            r is None <==> self.details is None,
    {
        match &self.details {
            Some(d) => Some(d.as_str()),
            None => None,
        }
    }
}

/// A media type, such as `text/plain; charset=utf-8`.
#[derive(Clone, Debug, PartialEq, Eq, Hash)]
pub struct MediaType {
    pub ty: String,
    pub subtype: Option<String>,
    pub charset: Option<String>,
}

/// A file attached to a contract: its media type and its digest.
#[derive(Clone, Debug, PartialEq, Eq, Hash)]
pub struct Attachment {
    pub ty: MediaType,
    pub digest: [u8; 32],
}

/// The terms of an asset: the contract text and an optional attachment.
#[derive(Clone, Debug, PartialEq, Eq, Hash)]
pub struct AssetTerms {
    pub text: RicardianContract,
    pub media: Option<Attachment>,
}

} // verus!
