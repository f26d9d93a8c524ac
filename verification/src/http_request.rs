use vstd::prelude::*;

verus! {

/// One parsed request unit, exactly as the file parser emitted it: none of
/// the texts are resolved yet.
#[derive(Debug, Clone, PartialEq, Eq)]
pub struct HttpRequest {
    pub request_no: u32,
    pub name: String,
    pub unresolved_url: String,
    pub unresolved_headers: Vec<String>,
    pub unresolved_body: Vec<String>,
    pub options: Vec<String>,
}

/// The mathematical content of a request record.
#[verifier::ext_equal]
pub ghost struct HttpRequestView {
    pub request_no: u32,
    pub name: Seq<char>,
    pub unresolved_url: Seq<char>,
    pub unresolved_headers: Seq<Seq<char>>,
    pub unresolved_body: Seq<Seq<char>>,
    pub options: Seq<Seq<char>>,
}

impl View for HttpRequest {
    type V = HttpRequestView;

    open spec fn view(&self) -> HttpRequestView {
        HttpRequestView {
            request_no: self.request_no,
            name: self.name@,
            unresolved_url: self.unresolved_url@,
            unresolved_headers: self.unresolved_headers.deep_view(),
            unresolved_body: self.unresolved_body.deep_view(),
            options: self.options.deep_view(),
        }
    }
}

impl Default for HttpRequest {
    /// The empty record: sequence number zero, every text empty.
    fn default() -> (r: Self)
        ensures
            r.request_no == 0,
            r.name@.len() == 0,
            r.unresolved_url@.len() == 0,
            r.unresolved_headers@.len() == 0,
            r.unresolved_body@.len() == 0,
            r.options@.len() == 0,
    {
        HttpRequest {
            request_no: 0,
            name: String::new(),
            unresolved_url: String::new(),
            unresolved_headers: Vec::new(),
            unresolved_body: Vec::new(),
            options: Vec::new(),
        }
    }
}

} // verus!
