//! The ways a parse can fail. Every error aborts the whole parse; the two
//! token errors carry the message of the underlying conversion.
use vstd::prelude::*;

verus! {

#[derive(Debug)]
pub enum Error {
    ParseFloat(String),
    ParseInt(String),
    PositionColorFormat,
    UVFormat,
    NormalFormat,
    FaceIndexFormat,
}

/// The shape of an `Error` in specifications: the same cases, with the
/// carried message as a character sequence.
pub enum ErrView {
    ParseFloat(Seq<char>),
    ParseInt(Seq<char>),
    PositionColorFormat,
    UVFormat,
    NormalFormat,
    FaceIndexFormat,
}

impl View for Error {
    type V = ErrView;

    open spec fn view(&self) -> ErrView {
        match self {
            Error::ParseFloat(s) => ErrView::ParseFloat(s@),
            Error::ParseInt(s) => ErrView::ParseInt(s@),
            Error::PositionColorFormat => ErrView::PositionColorFormat,
            Error::UVFormat => ErrView::UVFormat,
            Error::NormalFormat => ErrView::NormalFormat,
            Error::FaceIndexFormat => ErrView::FaceIndexFormat,
        }
    }
}

/// The text `msg` returns for each case.
pub open spec fn msg_text(e: ErrView) -> Seq<char> {
    match e {
        ErrView::ParseFloat(s) => s,
        ErrView::ParseInt(s) => s,
        ErrView::PositionColorFormat => "Formatting Error: Positions/Vertex Colors are not properly formatted!"@,
        ErrView::UVFormat => "Formatting Error: UVs are not properly formatted!"@,
        ErrView::NormalFormat => "Formatting Error: Normals are not properly formatted!"@,
        ErrView::FaceIndexFormat => "Formatting Error: Face Indeces are not properly formatted!"@,
    }
}

impl Error {
    /// A message fit to show an end user.
    pub fn msg(&self) -> (r: String)
        ensures
            r@ == msg_text(self@),
    {
        match self {
            Error::ParseFloat(s) => s.clone(),
            Error::ParseInt(s) => s.clone(),
            Error::PositionColorFormat => "Formatting Error: Positions/Vertex Colors are not properly formatted!".to_owned(),
            Error::UVFormat => "Formatting Error: UVs are not properly formatted!".to_owned(),
            Error::NormalFormat => "Formatting Error: Normals are not properly formatted!".to_owned(),
            Error::FaceIndexFormat => "Formatting Error: Face Indeces are not properly formatted!".to_owned(),
        }
    }
}

} // verus!
