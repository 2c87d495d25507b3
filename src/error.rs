//! Failures of a fetch or a decode, and their abstract views.
use vstd::prelude::*;

verus! {

/// Why a block could not be fetched or summarised.
#[derive(Debug)]
pub enum BlockFetchErr {
    /// The request could not be sent or its answer read.
    RequestFail(String),
    /// The answer was not a JSON document.
    ConversionFail(String),
    /// A required member is absent; holds its name.
    MissingField(String),
    /// A member holds the wrong kind of value; holds its name.
    FieldTypeFail(String),
    /// A hexadecimal string could not be read; holds the string.
    IntConvertFail(String),
}

/// The abstract value of a `BlockFetchErr`.
pub enum FetchErrView {
    RequestFail(Seq<char>),
    ConversionFail(Seq<char>),
    MissingField(Seq<char>),
    FieldTypeFail(Seq<char>),
    IntConvertFail(Seq<char>),
}

impl View for BlockFetchErr {
    type V = FetchErrView;

    open spec fn view(&self) -> FetchErrView {
        match self {
            BlockFetchErr::RequestFail(s) => FetchErrView::RequestFail(s@),
            BlockFetchErr::ConversionFail(s) => FetchErrView::ConversionFail(s@),
            BlockFetchErr::MissingField(s) => FetchErrView::MissingField(s@),
            BlockFetchErr::FieldTypeFail(s) => FetchErrView::FieldTypeFail(s@),
            BlockFetchErr::IntConvertFail(s) => FetchErrView::IntConvertFail(s@),
        }
    }
}

/// A result seen through the views of its value and of its error.
pub open spec fn result_view<T: View>(r: Result<T, BlockFetchErr>) -> Result<T::V, FetchErrView> {
    match r {
        Ok(v) => Ok(v@),
        Err(e) => Err(e@),
    }
}

/// Why the latest block number could not be had.
#[derive(Debug)]
pub enum BlockNumberFetchErr {
    /// The request could not be sent or its answer read.
    RequestFail(String),
    /// The answer was not a JSON document.
    ConversionFail(String),
    /// The answer holds no `result` that is a 64-bit unsigned integer.
    NumberConvertFail,
}

} // verus!
