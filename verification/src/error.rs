//! Errors that can occur parsing XML.
use vstd::prelude::*;
use crate::outside::{position_shows, position_text, reader_error_position, reader_error_text};

verus! {

#[verifier::external_type_specification]
#[verifier::external_body]
pub struct ExReaderError(xml::reader::Error);

/// Errors that can occur parsing XML
#[derive(Debug)]
pub enum ParseError {
    /// The XML is invalid
    MalformedXml(xml::reader::Error),
    /// This library is unable to process this XML. This can occur if, for
    /// example, an end tag does not close the element that is open, or the
    /// document declaration comes after other content.
    CannotParse,
}

/// The message of a malformed-XML error whose reader error reads `text`.
pub fn malformed_message(text: &str) -> (r: String)
    ensures
        r@ == "Malformed XML. "@ + text@,
{
    "Malformed XML. ".to_owned().concat(text)
}

impl ParseError {
    /// A short description of the kind of error.
    pub fn description(&self) -> (r: &'static str)
        ensures
            match self {
                ParseError::MalformedXml(_) => r@ == "Malformed XML"@,
                ParseError::CannotParse => r@ == "Cannot parse"@,
            },
    {
        match self {
            ParseError::MalformedXml(_) => "Malformed XML",
            ParseError::CannotParse => "Cannot parse",
        }
    }

    /// The reader error beneath this error, if there is one.
    pub fn cause(&self) -> (r: Option<&xml::reader::Error>)
        ensures
            match self {
                ParseError::MalformedXml(e) => r == Some(e),
                ParseError::CannotParse => r is None,
            },
    {
        match self {
            ParseError::MalformedXml(e) => Some(e),
            ParseError::CannotParse => None,
        }
    }

    /// The message that describes the error to a reader: "Cannot parse", or
    /// "Malformed XML. " followed by the reader error's own message, as
    /// `malformed_message` builds it from that message; that message starts
    /// with the error's position.
    pub fn message(&self) -> (r: String)
        ensures
            match self {
                ParseError::MalformedXml(e) => position_shows(reader_error_position(*e)) ==> exists|rest: Seq<char>|
                    r@ == "Malformed XML. "@ + position_text(reader_error_position(*e)) + rest,
                ParseError::CannotParse => r@ == "Cannot parse"@,
            },
    {
        match self {
            ParseError::MalformedXml(e) => {
                let text = reader_error_text(e);
                let r = malformed_message(text.as_str());
                proof {
                    if position_shows(reader_error_position(*e)) {
                        let pos = position_text(reader_error_position(*e));
                        let rest = choose|rest: Seq<char>| text@ == pos + rest;
                        assert(r@ =~= "Malformed XML. "@ + pos + rest);
                    }
                }
                r
            },
            ParseError::CannotParse => "Cannot parse".to_owned(),
        }
    }
}

} // verus!
