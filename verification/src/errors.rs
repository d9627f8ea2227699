use vstd::prelude::*;
use vstd::string::StringExecFns;

verus! {

/// The failure kinds of a window evaluation. Every failure is a problem with
/// the caller's input: the rule text did not parse, or one of the two boundary
/// date strings did not resolve to an instant. The boundary errors carry the
/// underlying parse diagnostic and identify the failing parameter by kind.
pub enum RangeError {
    RuleFormat,
    AfterDateFormat(String),
    BeforeDateFormat(String),
}

/// Ghost image of `RangeError`, carrying the diagnostic as a character sequence.
pub enum ErrorModel {
    RuleFormat,
    AfterDateFormat(Seq<char>),
    BeforeDateFormat(Seq<char>),
}

impl View for RangeError {
    type V = ErrorModel;

    open spec fn view(&self) -> ErrorModel {
        match self {
            RangeError::RuleFormat => ErrorModel::RuleFormat,
            RangeError::AfterDateFormat(d) => ErrorModel::AfterDateFormat(d@),
            RangeError::BeforeDateFormat(d) => ErrorModel::BeforeDateFormat(d@),
        }
    }
}

/// The one-line message that each failure kind hands back to the caller.
pub open spec fn error_message(e: ErrorModel) -> Seq<char> {
    match e {
        ErrorModel::RuleFormat => "rrule_str invalid format"@,
        ErrorModel::AfterDateFormat(d) => "after_date_str "@ + d,
        ErrorModel::BeforeDateFormat(d) => "before_date_str "@ + d,
    }
}

impl RangeError {
    /// Renders the error as its diagnostic line.
    pub fn message(self) -> (r: String)
        ensures
            r@ == error_message(self@),
    {
        match self {
            RangeError::RuleFormat => String::from_str("rrule_str invalid format"),
            RangeError::AfterDateFormat(d) => String::from_str("after_date_str ").concat(
                d.as_str(),
            ),
            RangeError::BeforeDateFormat(d) => String::from_str("before_date_str ").concat(
                d.as_str(),
            ),
        }
    }
}

} // verus!
