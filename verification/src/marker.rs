//! What can go wrong with the recovery marker: the file that tells a restarted
//! agent that filesystems may be frozen.

use vstd::prelude::*;
use vstd::string::*;

use crate::text;
use crate::text::lossy_text;

verus! {

/// An error of the recovery marker.
#[derive(Debug, PartialEq, Eq)]
pub enum MarkerError {
    /// The pathname cannot name a marker.
    InvalidPath {
        path: Vec<u8>,
    },
    /// The marker to be removed is not there.
    Absent {
        path: Vec<u8>,
    },
    /// It could not be created or removed.
    Io {
        path: Vec<u8>,
        source: String,
    },
}

/// An error of the marker as a mathematical value.
#[verifier::ext_equal]
pub ghost enum MarkerErrorView {
    InvalidPath { path: Seq<u8> },
    Absent { path: Seq<u8> },
    Io { path: Seq<u8>, source: Seq<char> },
}

impl View for MarkerError {
    type V = MarkerErrorView;

    open spec fn view(&self) -> MarkerErrorView {
        match self {
            MarkerError::InvalidPath { path } => MarkerErrorView::InvalidPath { path: path@ },
            MarkerError::Absent { path } => MarkerErrorView::Absent { path: path@ },
            MarkerError::Io { path, source } => MarkerErrorView::Io {
                path: path@,
                source: source@,
            },
        }
    }
}

impl MarkerErrorView {
    /// The error in words.
    pub open spec fn text(self) -> Seq<char> {
        match self {
            MarkerErrorView::InvalidPath { path } => "invalid marker path "@ + text::lossy(path),
            MarkerErrorView::Absent { path } => "marker "@ + text::lossy(path) + " is absent"@,
            MarkerErrorView::Io { path, source } => "marker "@ + text::lossy(path) + ": "@
                + source,
        }
    }
}

impl MarkerError {
    /// The error in words.
    pub fn message(&self) -> (message: String)
        ensures
            message@ == self@.text(),
    {
        match self {
            MarkerError::InvalidPath { path } => "invalid marker path ".to_owned().concat(
                lossy_text(path).as_str(),
            ),
            MarkerError::Absent { path } => "marker ".to_owned().concat(
                lossy_text(path).as_str(),
            ).concat(" is absent"),
            MarkerError::Io { path, source } => "marker ".to_owned().concat(
                lossy_text(path).as_str(),
            ).concat(": ").concat(source.as_str()),
        }
    }
}

/// What came of removing the marker, as a mathematical value.
pub open spec fn removal_view(removed: Result<(), MarkerError>) -> Result<(), MarkerErrorView> {
    match removed {
        Ok(()) => Ok(()),
        Err(err) => Err(err@),
    }
}

/// The marker is not there any more: it was removed, or had been.
pub open spec fn gone(removed: Result<(), MarkerErrorView>) -> bool {
    match removed {
        Ok(()) => true,
        Err(err) => err is Absent,
    }
}

/// Whether the marker is not there any more; otherwise why it could not be
/// removed.
pub fn marker_gone(removed: Result<(), MarkerError>) -> (result: Result<(), MarkerError>)
    ensures
        result is Ok <==> gone(removal_view(removed)),
        result is Err ==> result == removed,
{
    match removed {
        Ok(()) => Ok(()),
        Err(MarkerError::Absent { path }) => Ok(()),
        Err(err) => Err(err),
    }
}

/// The marker counts as gone when it was removed or was not there, and in no
/// other case: while it may be there, what stopped its removal is handed on.
pub proof fn law_when_the_marker_is_gone(
    removed: Result<(), MarkerError>,
    result: Result<(), MarkerError>,
)
    requires
        call_ensures(marker_gone, (removed,), result),
    ensures
        removed is Ok ==> result is Ok,
        removed matches Err(MarkerError::Absent { path }) ==> result is Ok,
        removed matches Err(MarkerError::Io { path, source }) ==> result == removed,
        removed matches Err(MarkerError::InvalidPath { path }) ==> result == removed,
{
}

/// Every error of the marker names its pathname, and one of the system says
/// what the system said.
pub proof fn law_the_words_of_a_marker_error(path: Seq<u8>, source: Seq<char>)
    ensures
        (MarkerErrorView::InvalidPath { path }).text() == "invalid marker path "@ + text::lossy(
            path,
        ),
        (MarkerErrorView::Absent { path }).text() == "marker "@ + text::lossy(path)
            + " is absent"@,
        (MarkerErrorView::Io { path, source }).text() == "marker "@ + text::lossy(path) + ": "@
            + source,
{
}

} // verus!
