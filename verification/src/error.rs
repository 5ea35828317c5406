//! The errors that the gateway reports.

use vstd::prelude::*;

verus! {

/// What can go wrong in serving a stream.
#[derive(Debug)]
pub enum AppError {
    /// The source is H.265 and has to be transcoded.
    H265Required,
    /// Pulling the RTSP source failed.
    Rtsp(String),
    /// The signaling exchange failed.
    Signaling(String),
    /// Anything else.
    Other(String),
}

/// An `AppError` with its text as a sequence of characters.
pub enum AppErrorView {
    H265Required,
    Rtsp(Seq<char>),
    Signaling(Seq<char>),
    Other(Seq<char>),
}

impl View for AppError {
    type V = AppErrorView;

    open spec fn view(&self) -> AppErrorView {
        match self {
            AppError::H265Required => AppErrorView::H265Required,
            AppError::Rtsp(text) => AppErrorView::Rtsp(text@),
            AppError::Signaling(text) => AppErrorView::Signaling(text@),
            AppError::Other(text) => AppErrorView::Other(text@),
        }
    }
}

pub type AppResult<T> = Result<T, AppError>;

/// The view of an error tells its kind and its text.
pub proof fn law_error_view_tells_all(error: AppError)
    ensures
        error is H265Required <==> error@ is H265Required,
        error is Rtsp <==> error@ is Rtsp,
        error is Signaling <==> error@ is Signaling,
        error is Other <==> error@ is Other,
        error matches AppError::Rtsp(text) ==> error@ == AppErrorView::Rtsp(text@),
        error matches AppError::Signaling(text) ==> error@ == AppErrorView::Signaling(text@),
        error matches AppError::Other(text) ==> error@ == AppErrorView::Other(text@),
{
}

} // verus!
