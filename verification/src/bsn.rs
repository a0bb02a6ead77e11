//! Citizen service numbers (BSN) and their check.

use vstd::prelude::*;
use vstd::string::is_ascii_spec_bytes;
use vstd::string::StringSliceAdditionalSpecFns;

verus! {

/// Why a text is no citizen service number.
#[derive(Clone, Copy, Debug, PartialEq, Eq, Structural)]
pub enum BsnError {
    InvalidBsn,
}

impl BsnError {
    /// The message that goes with the error.
    pub fn fmt_display(&self) -> (text: &'static str)
        ensures
            text@ == "Invalid BSN number"@,
    {
        match self {
            BsnError::InvalidBsn => "Invalid BSN number",
        }
    }
}

/// The weight of position `i`: 9 down to 2 for the first eight digits, and
/// -1 for the ninth.
pub open spec fn weight(i: int) -> int {
    if i == 8 {
        -1
    } else {
        9 - i
    }
}

/// Whether `c` is one of the decimal digits `0` to `9`.
pub open spec fn is_digit(c: char) -> bool {
    '0' <= c <= '9'
}

/// The value of the decimal digit `c`.
pub open spec fn digit_value(c: char) -> int {
    c as int - '0' as int
}

/// The weighted sum of the first `k` digits of `text`.
pub open spec fn weighted_sum(text: Seq<char>, k: int) -> int
    decreases k,
{
    if k <= 0 {
        0
    } else {
        weighted_sum(text, k - 1) + weight(k - 1) * digit_value(text[k - 1])
    }
}

/// The eleven check: 8 or 9 decimal digits whose weighted sum is a multiple
/// of 11.
pub open spec fn valid_bsn(text: Seq<char>) -> bool {
    &&& text.len() == 8 || text.len() == 9
    &&& forall|i: int| 0 <= i < text.len() ==> is_digit(#[trigger] text[i])
    &&& weighted_sum(text, text.len() as int) % 11 == 0
}

/// Represents a valid BSN.
#[derive(Debug, PartialEq, Eq)]
pub struct Bsn {
    inner: String,
}

impl View for Bsn {
    type V = Seq<char>;

    closed spec fn view(&self) -> Seq<char> {
        self.inner@
    }
}

impl Clone for Bsn {
    fn clone(&self) -> (copy: Bsn)
        ensures
            copy@ == self@,
    {
        proof {
            use_type_invariant(self);
        }
        Bsn { inner: self.inner.clone() }
    }
}

impl Bsn {
    #[verifier::type_invariant]
    spec fn inv(self) -> bool {
        valid_bsn(self.inner@)
    }

    /// Whether `bsn` passes the eleven check.
    pub fn validate(bsn: &str) -> (ok: bool)
        ensures
            ok == valid_bsn(bsn@),
    {
        if !bsn.is_ascii() {
            return false;
        }
        proof {
            is_ascii_spec_bytes(bsn);
        }
        let bytes = bsn.as_bytes();
        if bytes.len() != 8 && bytes.len() != 9 {
            return false;
        }
        let mut sum: i32 = 0;
        let mut i: usize = 0;
        while i < bytes.len()
            invariant
                i <= bytes@.len() <= 9,
                bytes@.len() == bsn@.len(),
                forall|k: int| 0 <= k < bytes@.len() ==> bytes@[k] == bsn@[k] as u8,
                forall|k: int| 0 <= k < bsn@.len() ==> '\0' <= #[trigger] bsn@[k] <= '\u{7f}',
                forall|k: int| 0 <= k < i ==> is_digit(#[trigger] bsn@[k]),
                sum == weighted_sum(bsn@, i as int),
                -9 <= sum <= 81 * i,
                i <= 8 ==> 0 <= sum,
            decreases bytes@.len() - i,
        {
            let b = bytes[i];
            if b < 48 || b > 57 {
                return false;
            }
            let digit: i32 = (b - 48) as i32;
            let w: i32 = if i == 8 {
                -1
            } else {
                9 - i as i32
            };
            assert(-9 <= w * digit <= 81 && (w >= 0 ==> w * digit >= 0)) by (nonlinear_arith)
                requires
                    -1 <= w <= 9,
                    0 <= digit <= 9,
            ;
            sum = sum + w * digit;
            i = i + 1;
        }
        sum % 11 == 0
    }

    /// The BSN that `bsn` spells, or `InvalidBsn` if it fails the check.
    pub fn try_new(bsn: &str) -> (r: Result<Bsn, BsnError>)
        ensures
            r is Ok <==> valid_bsn(bsn@),
            r matches Ok(made) ==> made@ == bsn@,
    {
        if Bsn::validate(bsn) {
            Ok(Bsn { inner: bsn.to_owned() })
        } else {
            Err(BsnError::InvalidBsn)
        }
    }

    /// As `try_new`, with the BSN in a box.
    pub fn try_new_boxed(bsn: &str) -> (r: Result<Box<Bsn>, BsnError>)
        ensures
            r is Ok <==> valid_bsn(bsn@),
            r matches Ok(made) ==> made@ == bsn@,
    {
        match Bsn::try_new(bsn) {
            Ok(made) => Ok(Box::new(made)),
            Err(e) => Err(e),
        }
    }

    /// The digits of the BSN, which pass the eleven check.
    pub fn as_str(&self) -> (text: &str)
        ensures
            text@ == self@,
            valid_bsn(text@),
    {
        proof {
            use_type_invariant(self);
        }
        self.inner.as_str()
    }
}

} // verus!
