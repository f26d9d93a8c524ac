use vstd::prelude::*;
use crate::strutil::dec_seq;
use crate::strutil::u32_to_string;

verus! {

/// An argument path does not name a regular file.
#[derive(Debug, Clone)]
pub struct FileNotFoundError(pub String);

/// An input or environment file could not be opened or parsed.
#[derive(Debug, Clone)]
pub struct FileIoError(pub String);

/// An illegal state/line-type combination met while parsing a request
/// file; carries the position and the offending line.
#[derive(Debug, Clone)]
pub struct ParseError {
    pub error: String,
    pub file: String,
    pub line_no: u32,
    pub line: String,
}

pub open spec fn file_not_found_msg(path: Seq<char>) -> Seq<char> {
    "file \""@ + path + "\" not found"@
}

pub open spec fn file_io_msg(what: Seq<char>) -> Seq<char> {
    "error while reading file \""@ + what + "\""@
}

pub open spec fn parse_error_msg(err: &ParseError) -> Seq<char> {
    err.error@ + " while parsing file \""@ + err.file@ + "\" in line #"@ + dec_seq(
        err.line_no as int,
    ) + ":\n"@ + err.line@
}

impl FileNotFoundError {
    /// The report text for this error.
    pub fn message(&self) -> (r: String)
        ensures
            r@ == file_not_found_msg(self.0@),
    {
        let mut r = "file \"".to_owned();
        r.append(self.0.as_str());
        r.append("\" not found");
        proof {
            assert(r@ =~= file_not_found_msg(self.0@));
        }
        r
    }
}

impl FileIoError {
    /// The report text for this error.
    pub fn message(&self) -> (r: String)
        ensures
            r@ == file_io_msg(self.0@),
    {
        let mut r = "error while reading file \"".to_owned();
        r.append(self.0.as_str());
        r.append("\"");
        proof {
            assert(r@ =~= file_io_msg(self.0@));
        }
        r
    }
}

impl ParseError {
    /// The report text for this error: what went wrong, where.
    pub fn message(&self) -> (r: String)
        ensures
            r@ == parse_error_msg(self),
    {
        let mut r = self.error.clone();
        r.append(" while parsing file \"");
        r.append(self.file.as_str());
        r.append("\" in line #");
        let no = u32_to_string(self.line_no);
        r.append(no.as_str());
        r.append(":\n");
        r.append(self.line.as_str());
        proof {
            assert(r@ =~= parse_error_msg(self));
        }
        r
    }
}

} // verus!
