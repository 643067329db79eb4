//! What the web routes hand to the HTTP layer.

use vstd::prelude::*;
use vstd::string::StringExecFns;
use crate::text::{ascending, sort_texts};

verus! {

/// An SVG document, to be sent with the content type `image/svg+xml`.
#[derive(Debug)]
pub struct Svg(pub String);

/// The content type that an `Svg` is sent with.
pub fn svg_content_type() -> (value: &'static str)
    ensures
        value@ == "image/svg+xml"@,
{
    "image/svg+xml"
}

/// The keywords shown on the start page.
#[derive(Debug)]
pub struct ListKeywords {
    /// The keywords, in the order they are shown in.
    pub keywords: Vec<String>,
}

impl ListKeywords {
    /// Lists the given keywords in ascending order.
    pub fn new(keywords: &Vec<String>) -> (list: Self)
        ensures
            ascending(list.keywords.deep_view()),
            list.keywords.deep_view().to_multiset() == keywords.deep_view().to_multiset(),
            list.keywords.len() == keywords.len(),
    {
        ListKeywords { keywords: sort_texts(keywords) }
    }
}

/// The HTTP status of a failed request.
#[derive(Clone, Copy, Debug, PartialEq, Eq, Structural)]
pub enum Status {
    /// 400: the request cannot be understood.
    BadRequest,
    /// 404: nothing is stored under the keyword asked for.
    NotFound,
    /// 500: any other failure.
    InternalServerError,
}

impl Status {
    /// The numeric status code.
    pub open spec fn spec_code(self) -> u16 {
        match self {
            Status::BadRequest => 400,
            Status::NotFound => 404,
            Status::InternalServerError => 500,
        }
    }

    /// The status code followed by its standard reason phrase.
    pub open spec fn spec_text(self) -> Seq<char> {
        match self {
            Status::BadRequest => "400 Bad Request"@,
            Status::NotFound => "404 Not Found"@,
            Status::InternalServerError => "500 Internal Server Error"@,
        }
    }

    /// The numeric status code.
    pub fn code(self) -> (code: u16)
        ensures
            code == self.spec_code(),
    {
        match self {
            Status::BadRequest => 400,
            Status::NotFound => 404,
            Status::InternalServerError => 500,
        }
    }

    /// The status code followed by its standard reason phrase.
    pub fn text(self) -> (text: &'static str)
        ensures
            text@ == self.spec_text(),
    {
        match self {
            Status::BadRequest => "400 Bad Request",
            Status::NotFound => "404 Not Found",
            Status::InternalServerError => "500 Internal Server Error",
        }
    }
}

/// A failed request: the status to answer with, and a message.
#[derive(Debug)]
pub struct ServerError {
    status_code: Status,
    error_msg: String,
}

impl ServerError {
    /// The status to answer with.
    pub closed spec fn spec_status(&self) -> Status {
        self.status_code
    }

    /// The message to answer with.
    pub closed spec fn spec_msg(&self) -> Seq<char> {
        self.error_msg@
    }

    /// An error that answers with 404.
    pub fn not_found(msg: String) -> (error: Self)
        ensures
            error.spec_status() == Status::NotFound,
            error.spec_msg() == msg@,
    {
        ServerError { status_code: Status::NotFound, error_msg: msg }
    }

    /// An error that answers with 400.
    pub fn bad_request(msg: String) -> (error: Self)
        ensures
            error.spec_status() == Status::BadRequest,
            error.spec_msg() == msg@,
    {
        ServerError { status_code: Status::BadRequest, error_msg: msg }
    }

    /// An error that answers with 500: what any other failure becomes.
    pub fn internal(msg: String) -> (error: Self)
        ensures
            error.spec_status() == Status::InternalServerError,
            error.spec_msg() == msg@,
    {
        ServerError { status_code: Status::InternalServerError, error_msg: msg }
    }

    /// The status to answer with.
    pub fn status_code(&self) -> (status: Status)
        ensures
            status == self.spec_status(),
    {
        self.status_code
    }

    /// The message to answer with.
    pub fn error_msg(&self) -> (msg: &str)
        ensures
            msg@ == self.spec_msg(),
    {
        self.error_msg.as_str()
    }

    /// The error in one line: `Error`, the status with its reason phrase, a
    /// colon, and the message.
    pub fn describe(&self) -> (line: String)
        ensures
            line@ == "Error "@ + self.spec_status().spec_text() + ": "@ + self.spec_msg(),
    {
        let mut line = String::from_str("Error ");
        line.append(self.status_code.text());
        line.append(": ");
        line.append(self.error_msg.as_str());
        line
    }
}

} // verus!
