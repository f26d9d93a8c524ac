use vstd::prelude::*;
use crate::errors::ParseError;
use crate::http_request::HttpRequest;
use crate::http_request::HttpRequestView;
use crate::strutil::trim_spec;
use crate::strutil::trim_str;

verus! {

/// Parser position as determined by the latest consumed line.
#[derive(Debug, Copy, Clone, Eq, PartialEq, Structural)]
pub enum ParseState {
    Unknown,
    NewRequest,
    Uri,
    Header,
    AfterHeaders,
    Body,
}

/// Classification of a single input line, independent of the current state.
#[derive(Debug, Copy, Clone, Eq, PartialEq, Structural)]
pub enum LineType {
    NewRequest,
    ConfigOption,
    Comment,
    Empty,
    Unknown,
}

/// How a line is classified: `###` starts a request marker, `# @` a
/// configuration option, any other `#` a comment; otherwise a line is
/// empty or ordinary content.
pub open spec fn line_type_spec(l: Seq<char>) -> LineType {
    if l.len() >= 3 && l[0] == '#' && l[1] == '#' && l[2] == '#' {
        LineType::NewRequest
    } else if l.len() >= 3 && l[0] == '#' && l[1] == ' ' && l[2] == '@' {
        LineType::ConfigOption
    } else if l.len() >= 1 && l[0] == '#' {
        LineType::Comment
    } else if l.len() == 0 {
        LineType::Empty
    } else {
        LineType::Unknown
    }
}

pub fn get_line_type(line: &String) -> (r: LineType)
    ensures
        r == line_type_spec(line@),
{
    let s = line.as_str();
    let n = s.unicode_len();
    if n >= 3 && s.get_char(0) == '#' && s.get_char(1) == '#' && s.get_char(2) == '#' {
        LineType::NewRequest
    } else if n >= 3 && s.get_char(0) == '#' && s.get_char(1) == ' ' && s.get_char(2) == '@' {
        LineType::ConfigOption
    } else if n >= 1 && s.get_char(0) == '#' {
        LineType::Comment
    } else if n == 0 {
        LineType::Empty
    } else {
        LineType::Unknown
    }
}

/// The request line as stored in a record: the raw line, trimmed.
pub fn parse_url(line: String) -> (r: String)
    ensures
        r@ == trim_spec(line@),
{
    trim_str(line.as_str())
}

/// The record name on a `###` marker line: everything after the marker,
/// trimmed.
pub fn parse_name(line: String) -> (r: String)
    requires
        line_type_spec(line@) == LineType::NewRequest,
    ensures
        r@ == trim_spec(line@.skip(3)),
{
    let s = line.as_str();
    let n = s.unicode_len();
    let rest = s.substring_char(3, n);
    let r = trim_str(rest);
    proof {
        assert(rest@ =~= line@.skip(3));
    }
    r
}

/// The fatal-error report for a state/line-type combination outside the
/// transition table.
#[verifier::ext_equal]
pub ghost struct ParseErrorView {
    pub state: ParseState,
    pub line_type: LineType,
    pub line_no: int,
    pub line: Seq<char>,
}

/// The whole parser state between two lines: position, the accumulators of
/// the record being assembled, the records already emitted, and the
/// counters.
#[verifier::ext_equal]
pub ghost struct ParserAcc {
    pub state: ParseState,
    pub name: Seq<char>,
    pub url: Seq<char>,
    pub headers: Seq<Seq<char>>,
    pub body: Seq<Seq<char>>,
    pub options: Seq<Seq<char>>,
    pub recs: Seq<HttpRequestView>,
    pub req_no: int,
    pub line_no: int,
}

pub open spec fn init_acc() -> ParserAcc {
    ParserAcc {
        state: ParseState::Unknown,
        name: Seq::empty(),
        url: Seq::empty(),
        headers: Seq::empty(),
        body: Seq::empty(),
        options: Seq::empty(),
        recs: Seq::empty(),
        req_no: 1,
        line_no: 1,
    }
}

/// The record assembled so far, as it would be emitted.
pub open spec fn pending_record(st: ParserAcc) -> HttpRequestView {
    HttpRequestView {
        request_no: st.req_no as u32,
        name: st.name,
        unresolved_url: st.url,
        unresolved_headers: st.headers,
        unresolved_body: st.body,
        options: st.options,
    }
}

/// One step of the line state machine: the transition table of the file
/// format. A combination outside the table is a fatal parse error.
pub open spec fn step_spec(st: ParserAcc, line: Seq<char>) -> Result<ParserAcc, ParseErrorView> {
    let lt = line_type_spec(line);
    let next_line = ParserAcc { line_no: st.line_no + 1, ..st };
    match (st.state, lt) {
        (ParseState::Unknown, LineType::Unknown) => Ok(
            ParserAcc { state: ParseState::Uri, url: trim_spec(line), ..next_line },
        ),
        (ParseState::NewRequest, LineType::Unknown) => Ok(
            ParserAcc { state: ParseState::Uri, url: trim_spec(line), ..next_line },
        ),
        (ParseState::Uri, LineType::Unknown) => Ok(
            ParserAcc { state: ParseState::Header, headers: st.headers.push(line), ..next_line },
        ),
        (ParseState::AfterHeaders, LineType::Unknown) => Ok(
            ParserAcc { state: ParseState::Body, body: st.body.push(line), ..next_line },
        ),
        (ParseState::Body, LineType::Unknown) => Ok(
            ParserAcc { state: ParseState::Body, body: st.body.push(line), ..next_line },
        ),
        (ParseState::Header, LineType::Empty) => Ok(
            ParserAcc { state: ParseState::AfterHeaders, ..next_line },
        ),
        (ParseState::Body, LineType::Empty) => Ok(
            ParserAcc { state: ParseState::Body, body: st.body.push(line), ..next_line },
        ),
        (_, LineType::NewRequest) => if st.url.len() == 0 {
            Ok(
                ParserAcc {
                    state: ParseState::NewRequest,
                    name: trim_spec(line.skip(3)),
                    ..next_line
                },
            )
        } else {
            Ok(
                ParserAcc {
                    state: ParseState::NewRequest,
                    name: trim_spec(line.skip(3)),
                    url: Seq::empty(),
                    headers: Seq::empty(),
                    body: Seq::empty(),
                    options: Seq::empty(),
                    recs: st.recs.push(pending_record(st)),
                    req_no: st.req_no + 1,
                    line_no: st.line_no + 1,
                },
            )
        },
        (_, LineType::ConfigOption) => Ok(
            ParserAcc { options: st.options.push(line), ..next_line },
        ),
        (_, LineType::Comment) => Ok(next_line),
        _ => Err(
            ParseErrorView { state: st.state, line_type: lt, line_no: st.line_no, line },
        ),
    }
}

/// Runs the state machine over `lines[i..]`.
pub open spec fn run_from(lines: Seq<Seq<char>>, i: int, st: ParserAcc) -> Result<
    ParserAcc,
    ParseErrorView,
>
    decreases lines.len() - i,
{
    if i < 0 || i >= lines.len() {
        Ok(st)
    } else {
        match step_spec(st, lines[i]) {
            Ok(st2) => run_from(lines, i + 1, st2),
            Err(e) => Err(e),
        }
    }
}

/// What parsing a whole file yields: the emitted records, in file order,
/// or the first fatal combination.
pub open spec fn parse_spec(lines: Seq<Seq<char>>) -> Result<Seq<HttpRequestView>, ParseErrorView> {
    match run_from(lines, 0, init_acc()) {
        Ok(st) => Ok(st.recs),
        Err(e) => Err(e),
    }
}

pub open spec fn state_name(st: ParseState) -> Seq<char> {
    match st {
        ParseState::Unknown => "Unknown"@,
        ParseState::NewRequest => "NewRequest"@,
        ParseState::Uri => "Uri"@,
        ParseState::Header => "Header"@,
        ParseState::AfterHeaders => "AfterHeaders"@,
        ParseState::Body => "Body"@,
    }
}

pub open spec fn line_type_name(lt: LineType) -> Seq<char> {
    match lt {
        LineType::NewRequest => "NewRequest"@,
        LineType::ConfigOption => "ConfigOption"@,
        LineType::Comment => "Comment"@,
        LineType::Empty => "Empty"@,
        LineType::Unknown => "Unknown"@,
    }
}

/// The text of the fatal-combination report.
pub open spec fn unhandled_msg(st: ParseState, lt: LineType) -> Seq<char> {
    "Unhandled state "@ + state_name(st) + "/"@ + line_type_name(lt)
}

fn state_name_str(st: ParseState) -> (r: &'static str)
    ensures
        r@ == state_name(st),
{
    match st {
        ParseState::Unknown => "Unknown",
        ParseState::NewRequest => "NewRequest",
        ParseState::Uri => "Uri",
        ParseState::Header => "Header",
        ParseState::AfterHeaders => "AfterHeaders",
        ParseState::Body => "Body",
    }
}

fn line_type_name_str(lt: LineType) -> (r: &'static str)
    ensures
        r@ == line_type_name(lt),
{
    match lt {
        LineType::NewRequest => "NewRequest",
        LineType::ConfigOption => "ConfigOption",
        LineType::Comment => "Comment",
        LineType::Empty => "Empty",
        LineType::Unknown => "Unknown",
    }
}

fn unhandled_msg_str(st: ParseState, lt: LineType) -> (r: String)
    ensures
        r@ == unhandled_msg(st, lt),
{
    let mut r = "Unhandled state ".to_owned();
    r.append(state_name_str(st));
    r.append("/");
    r.append(line_type_name_str(lt));
    proof {
        assert(r@ =~= unhandled_msg(st, lt));
    }
    r
}

/// Bundles the executable parser's locals into the abstract state.
pub open spec fn mk_acc(
    state: ParseState,
    name: Seq<char>,
    url: Seq<char>,
    headers: Seq<Seq<char>>,
    body: Seq<Seq<char>>,
    options: Seq<Seq<char>>,
    recs: Seq<HttpRequestView>,
    req_no: int,
    line_no: int,
) -> ParserAcc {
    ParserAcc { state, name, url, headers, body, options, recs, req_no, line_no }
}

/// Segments the lines of a request file into an ordered sequence of
/// request records, assigning 1-based sequence numbers in file order.
/// Content accumulated after the last `###` marker is discarded.
pub fn parse_http_file(lines: &Vec<String>) -> (r: Result<Vec<HttpRequest>, ParseError>)
    requires
        lines@.len() < 0xFFFF_FFFF,
    ensures
        (match r {
            Ok(v) => parse_spec(lines.deep_view()) == Ok::<Seq<HttpRequestView>, ParseErrorView>(
                v@.map_values(|x: HttpRequest| x@),
            ),
            Err(e) => parse_spec(lines.deep_view()) matches Err(ev) && e.line_no as int
                == ev.line_no && e.line@ == ev.line && e.error@ == unhandled_msg(
                ev.state,
                ev.line_type,
            ) && e.file@.len() == 0,
        }),
{
    let ghost dv = lines.deep_view();
    let n = lines.len();
    let mut state = ParseState::Unknown;
    let mut name = String::new();
    let mut url = String::new();
    let mut headers: Vec<String> = Vec::new();
    let mut body: Vec<String> = Vec::new();
    let mut options: Vec<String> = Vec::new();
    let mut recs: Vec<HttpRequest> = Vec::new();
    let mut req_no: u32 = 1;
    let mut line_no: u32 = 1;
    let mut i: usize = 0;
    proof {
        let a0 = mk_acc(
            state,
            name@,
            url@,
            headers.deep_view(),
            body.deep_view(),
            options.deep_view(),
            recs@.map_values(|x: HttpRequest| x@),
            req_no as int,
            line_no as int,
        );
        assert(a0 =~= init_acc());
    }
    while i < n
        invariant
            n == lines@.len(),
            n < 0xFFFF_FFFF,
            dv == lines.deep_view(),
            0 <= i <= n,
            line_no as int == i + 1,
            1 <= req_no as int <= i + 1,
            run_from(dv, 0, init_acc()) == run_from(
                dv,
                i as int,
                mk_acc(
                    state,
                    name@,
                    url@,
                    headers.deep_view(),
                    body.deep_view(),
                    options.deep_view(),
                    recs@.map_values(|x: HttpRequest| x@),
                    req_no as int,
                    line_no as int,
                ),
            ),
        decreases n - i,
    {
        let ghost a = mk_acc(
            state,
            name@,
            url@,
            headers.deep_view(),
            body.deep_view(),
            options.deep_view(),
            recs@.map_values(|x: HttpRequest| x@),
            req_no as int,
            line_no as int,
        );
        let line = &lines[i];
        proof {
            assert(dv[i as int] == line@);
        }
        let lt = get_line_type(line);
        match (state, lt) {
            (ParseState::Unknown, LineType::Unknown) => {
                url = parse_url(line.clone());
                state = ParseState::Uri;
            },
            (ParseState::NewRequest, LineType::Unknown) => {
                url = parse_url(line.clone());
                state = ParseState::Uri;
            },
            (ParseState::Uri, LineType::Unknown) => {
                headers.push(line.clone());
                state = ParseState::Header;
            },
            (ParseState::AfterHeaders, LineType::Unknown) => {
                body.push(line.clone());
                state = ParseState::Body;
            },
            (ParseState::Body, LineType::Unknown) => {
                body.push(line.clone());
            },
            (ParseState::Header, LineType::Empty) => {
                state = ParseState::AfterHeaders;
            },
            (ParseState::Body, LineType::Empty) => {
                body.push(line.clone());
            },
            (_, LineType::NewRequest) => {
                if url.as_str().is_empty() {
                    name = parse_name(line.clone());
                    state = ParseState::NewRequest;
                } else {
                    let rec = HttpRequest {
                        request_no: req_no,
                        name,
                        unresolved_url: url,
                        unresolved_headers: headers,
                        unresolved_body: body,
                        options,
                    };
                    recs.push(rec);
                    req_no = req_no + 1;
                    name = parse_name(line.clone());
                    url = String::new();
                    headers = Vec::new();
                    body = Vec::new();
                    options = Vec::new();
                    state = ParseState::NewRequest;
                }
            },
            (_, LineType::ConfigOption) => {
                options.push(line.clone());
            },
            (_, LineType::Comment) => {},
            _ => {
                let err = ParseError {
                    error: unhandled_msg_str(state, lt),
                    file: String::new(),
                    line_no,
                    line: line.clone(),
                };
                proof {
                    let ev = ParseErrorView {
                        state: a.state,
                        line_type: lt,
                        line_no: a.line_no,
                        line: line@,
                    };
                    assert(step_spec(a, dv[i as int]) == Err::<ParserAcc, ParseErrorView>(ev));
                }
                return Err(err);
            },
        }
        line_no = line_no + 1;
        i = i + 1;
        proof {
            let a2 = mk_acc(
                state,
                name@,
                url@,
                headers.deep_view(),
                body.deep_view(),
                options.deep_view(),
                recs@.map_values(|x: HttpRequest| x@),
                req_no as int,
                line_no as int,
            );
            assert(step_spec(a, dv[i - 1]) matches Ok(b) && b =~= a2);
        }
    }
    proof {
        assert(run_from(dv, n as int, mk_acc(
            state,
            name@,
            url@,
            headers.deep_view(),
            body.deep_view(),
            options.deep_view(),
            recs@.map_values(|x: HttpRequest| x@),
            req_no as int,
            line_no as int,
        )) matches Ok(f) && f.recs == recs@.map_values(|x: HttpRequest| x@));
    }
    Ok(recs)
}

/// Parsing is a pure function of the file content: equal line sequences
/// parse to structurally identical record sequences.
pub proof fn lemma_parse_idempotent(l1: Seq<Seq<char>>, l2: Seq<Seq<char>>)
    requires
        l1 == l2,
    ensures
        parse_spec(l1) == parse_spec(l2),
{
}

/// Records carry ascending 1-based sequence numbers.
pub open spec fn acc_inv(st: ParserAcc) -> bool {
    &&& st.req_no == st.recs.len() + 1
    &&& forall|k: int|
        0 <= k < st.recs.len() ==> (#[trigger] st.recs[k]).request_no as int == k + 1
}

proof fn lemma_run_numbering(lines: Seq<Seq<char>>, i: int, st: ParserAcc)
    requires
        0 <= i <= lines.len(),
        acc_inv(st),
        st.req_no + (lines.len() - i) < 0x1_0000_0000,
        run_from(lines, i, st) is Ok,
    ensures
        acc_inv(run_from(lines, i, st)->Ok_0),
    decreases lines.len() - i,
{
    if i < lines.len() {
        let r = step_spec(st, lines[i]);
        match r {
            Ok(st2) => {
                assert(acc_inv(st2));
                lemma_run_numbering(lines, i + 1, st2);
            },
            Err(_) => {},
        }
    }
}

/// The parser assigns 1-based sequence numbers in file order: the k-th
/// emitted record carries number k + 1.
pub proof fn lemma_records_numbered(lines: Seq<Seq<char>>)
    requires
        lines.len() < 0xFFFF_FFFF,
        parse_spec(lines) is Ok,
    ensures
        forall|k: int|
            0 <= k < parse_spec(lines)->Ok_0.len() ==> (#[trigger] parse_spec(
                lines,
            )->Ok_0[k]).request_no as int == k + 1,
{
    lemma_run_numbering(lines, 0, init_acc());
}

/// Counts the `###` marker lines at or after index `i`.
pub open spec fn marker_count_from(lines: Seq<Seq<char>>, i: int) -> int
    decreases lines.len() - i,
{
    if i < 0 || i >= lines.len() {
        0
    } else {
        (if line_type_spec(lines[i]) == LineType::NewRequest {
            1int
        } else {
            0int
        }) + marker_count_from(lines, i + 1)
    }
}

/// The well-formed walks of the transition table: every combination met
/// lies inside the table, and every `###` marker after the first line
/// arrives with a request line already accumulated, so that it closes a
/// record.
pub open spec fn wf_from(
    lines: Seq<Seq<char>>,
    i: int,
    state: ParseState,
    url_nonempty: bool,
) -> bool
    decreases lines.len() - i,
{
    if i < 0 || i >= lines.len() {
        true
    } else {
        let l = lines[i];
        match (state, line_type_spec(l)) {
            (ParseState::Unknown, LineType::Unknown) => wf_from(
                lines,
                i + 1,
                ParseState::Uri,
                trim_spec(l).len() > 0,
            ),
            (ParseState::NewRequest, LineType::Unknown) => wf_from(
                lines,
                i + 1,
                ParseState::Uri,
                trim_spec(l).len() > 0,
            ),
            (ParseState::Uri, LineType::Unknown) => wf_from(
                lines,
                i + 1,
                ParseState::Header,
                url_nonempty,
            ),
            (ParseState::AfterHeaders, LineType::Unknown) => wf_from(
                lines,
                i + 1,
                ParseState::Body,
                url_nonempty,
            ),
            (ParseState::Body, LineType::Unknown) => wf_from(
                lines,
                i + 1,
                ParseState::Body,
                url_nonempty,
            ),
            (ParseState::Header, LineType::Empty) => wf_from(
                lines,
                i + 1,
                ParseState::AfterHeaders,
                url_nonempty,
            ),
            (ParseState::Body, LineType::Empty) => wf_from(
                lines,
                i + 1,
                ParseState::Body,
                url_nonempty,
            ),
            (_, LineType::NewRequest) => (i == 0 || url_nonempty) && wf_from(
                lines,
                i + 1,
                ParseState::NewRequest,
                false,
            ),
            (_, LineType::ConfigOption) => wf_from(lines, i + 1, state, url_nonempty),
            (_, LineType::Comment) => wf_from(lines, i + 1, state, url_nonempty),
            _ => false,
        }
    }
}

/// A well-formed request file: it opens with a `###` marker line and its
/// lines walk the transition table so that every later marker closes a
/// record.
pub open spec fn well_formed(lines: Seq<Seq<char>>) -> bool {
    &&& lines.len() > 0
    &&& line_type_spec(lines[0]) == LineType::NewRequest
    &&& wf_from(lines, 0, ParseState::Unknown, false)
}

proof fn lemma_wf_run(lines: Seq<Seq<char>>, i: int, st: ParserAcc)
    requires
        1 <= i <= lines.len(),
        wf_from(lines, i, st.state, st.url.len() > 0),
    ensures
        run_from(lines, i, st) is Ok,
        run_from(lines, i, st)->Ok_0.recs.len() == st.recs.len() + marker_count_from(lines, i),
    decreases lines.len() - i,
{
    if i < lines.len() {
        let r = step_spec(st, lines[i]);
        match r {
            Ok(st2) => {
                lemma_wf_run(lines, i + 1, st2);
            },
            Err(_) => {},
        }
    }
}

/// For every well-formed file with N `###` markers after the first, the
/// parser yields exactly N records (content after the last marker is
/// discarded, and the opening marker is the file title).
pub proof fn lemma_marker_record_count(lines: Seq<Seq<char>>)
    requires
        well_formed(lines),
    ensures
        parse_spec(lines) is Ok,
        parse_spec(lines)->Ok_0.len() == marker_count_from(lines, 0) - 1,
{
    let st0 = init_acc();
    let st1 = step_spec(st0, lines[0])->Ok_0;
    assert(step_spec(st0, lines[0]) is Ok);
    lemma_wf_run(lines, 1, st1);
}

} // verus!
