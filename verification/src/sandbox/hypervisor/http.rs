//! The little HTTP that it takes to talk to a hypervisor over its socket.
use vstd::prelude::*;
use vstd::string::*;

use crate::text;

verus! {

/// Why bytes are no text.
#[verifier::external_type_specification]
#[verifier::external_body]
pub struct ExUtf8Error(core::str::Utf8Error);

/// `core::str::from_utf8` gives the text that bytes encode, if they are valid UTF-8.
pub assume_specification<'a>[ core::str::from_utf8 ](bytes: &'a [u8]) -> (result: Result<
    &'a str,
    core::str::Utf8Error,
>)
    ensures
        result is Ok <==> vstd::utf8::valid_utf8(bytes@),
        result matches Ok(text) ==> text@ == vstd::utf8::decode_utf8(bytes@),
;

/// An answer of the hypervisor.
#[derive(Debug)]
pub struct ApiResponse {
    pub status_code: u16,
    pub body: String,
}

impl ApiResponse {
    /// Tells whether the request was granted.
    pub fn success(&self) -> (result: bool)
        ensures
            result == (200 <= self.status_code < 300),
    {
        200 <= self.status_code && self.status_code < 300
    }
}

/// The text of a request.
pub open spec fn request_text(
    method: Seq<char>,
    path: Seq<char>,
    body: Option<Seq<char>>,
) -> Seq<char> {
    let head = method + " /api/v1/"@ + path
        + " HTTP/1.1\r\nHost: localhost\r\nAccept: */*\r\n"@;
    match body {
        Some(body) => head + "Content-Length: "@ + text::decimal(
            vstd::utf8::encode_utf8(body).len(),
        ) + "\r\n"@ + "\r\n"@ + body,
        None => head + "\r\n"@,
    }
}

/// Writes a request.
pub fn api_request(method: &str, path: &str, body: Option<&str>) -> (request: String)
    ensures
        request@ == request_text(
            method@,
            path@,
            match body {
                Some(body) => Some(body@),
                None => None,
            },
        ),
{
    let mut request: String = method.to_owned();
    request.append(" /api/v1/");
    request.append(path);
    request.append(" HTTP/1.1\r\nHost: localhost\r\nAccept: */*\r\n");
    if let Some(body) = body {
        request.append("Content-Length: ");
        let length: String = text::decimal_string(body.as_bytes().len() as u64);
        request.append(length.as_str());
        request.append("\r\n");
    }
    request.append("\r\n");
    if let Some(body) = body {
        request.append(body);
    }
    request
}

/// Whether an empty line ends at the end of the bytes.
pub open spec fn ends_headers(bytes: Seq<u8>) -> bool {
    bytes.len() >= 4 && bytes.skip(bytes.len() - 4) == seq![13u8, 10u8, 13u8, 10u8]
}

/// Where the headers end: before the first empty line.
pub open spec fn header_end(response: Seq<u8>) -> Option<int>
    decreases response.len(),
{
    if response.len() < 4 {
        None
    } else if header_end(response.drop_last()) is Some {
        header_end(response.drop_last())
    } else if ends_headers(response) {
        Some(response.len() - 4)
    } else {
        None
    }
}

/// Finds where the headers end.
fn find_header_end(response: &Vec<u8>) -> (end: Option<usize>)
    ensures
        match end {
            Some(end) => header_end(response@) == Some(end as int) && end + 4 <= response@.len(),
            None => header_end(response@) is None,
        },
{
    let mut at: usize = 0;
    while at < response.len() && 4 <= response.len() - at
        invariant
            at <= response@.len(),
            forall|k: int| 0 <= k < at + 4 && k <= response@.len() ==> header_end(
                #[trigger] response@.take(k),
            ) is None,
        decreases response.len() - at,
    {
        let ghost seen = response@.take(at + 4);
        assert(seen.drop_last() =~= response@.take(at + 3));
        assert(seen.skip(seen.len() - 4) =~= seq![
            response@[at as int],
            response@[at + 1],
            response@[at + 2],
            response@[at + 3],
        ]);
        if response[at] == 13 && response[at + 1] == 10 && response[at + 2] == 13 && response[at
            + 3] == 10 {
            assert(ends_headers(seen));
            assert(header_end(seen) == Some(at as int));
            proof {
                lemma_header_end_stays(seen, response@.skip(at + 4));
                assert(seen + response@.skip(at + 4) =~= response@);
            }
            return Some(at);
        }
        assert(!ends_headers(seen)) by {
            let last = seen.skip(seen.len() - 4);
            let wanted = seq![13u8, 10u8, 13u8, 10u8];
            assert(last[0] == response@[at as int] && last[1] == response@[at + 1] && last[2]
                == response@[at + 2] && last[3] == response@[at + 3]);
            assert(wanted[0] == 13 && wanted[1] == 10 && wanted[2] == 13 && wanted[3] == 10);
        }
        at = at + 1;
    }
    assert(response@.take(response@.len() as int) =~= response@);
    assert(header_end(response@.take(response@.len() as int)) is None);
    None
}

/// More bytes do not move the end of the headers.
pub proof fn lemma_header_end_stays(response: Seq<u8>, more: Seq<u8>)
    requires
        header_end(response) is Some,
    ensures
        header_end(response + more) == header_end(response),
    decreases more.len(),
{
    if more.len() == 0 {
        assert(response + more =~= response);
    } else {
        assert((response + more).drop_last() =~= response + more.drop_last());
        lemma_header_end_stays(response, more.drop_last());
    }
}

/// The headers end inside the response.
proof fn lemma_header_end_inside(response: Seq<u8>)
    ensures
        header_end(response) matches Some(end) ==> 0 <= end && end + 4 <= response.len(),
    decreases response.len(),
{
    if response.len() >= 4 {
        lemma_header_end_inside(response.drop_last());
    }
}

/// The status code in the first line of the headers.
pub open spec fn status_code(headers: Seq<char>) -> Option<nat> {
    let lines = text::lines(headers);
    let words = if lines.len() > 0 { text::words(lines[0]) } else { Seq::empty() };
    if words.len() > 1 {
        text::number(words[1], u16::MAX as nat)
    } else {
        None
    }
}

/// Reads the status code.
pub fn get_status_code(headers: &str) -> (result: Result<u16, String>)
    ensures
        match result {
            Ok(code) => status_code(headers@) == Some(code as nat),
            Err(message) => status_code(headers@) is None && message@
                == "parsing response for status code"@,
        },
{
    let lines: Vec<String> = text::split_lines(headers);
    if lines.len() > 0 {
        assert(text::lines(headers@)[0] == lines@[0]@);
        let words: Vec<String> = text::split_words(lines[0].as_str());
        if words.len() > 1 {
            assert(text::words(lines@[0]@)[1] == words@[1]@);
            if let Some(code) = text::parse_number(words[1].as_str(), 65535) {
                return Ok(code as u16);
            }
        }
    }
    Err("parsing response for status code".to_owned())
}

/// The value of a header in one line, if the line has it.
pub open spec fn header_in_line(line: Seq<char>, header: Seq<char>) -> Option<Seq<char>> {
    match text::split_first(line, ':') {
        Some((name, value)) => if text::lowered(name) == text::lowered(header) {
            Some(text::trimmed(value))
        } else {
            None
        },
        None => None,
    }
}

/// The value of a header in the first of the lines that has it.
pub open spec fn header_in_lines(lines: Seq<Seq<char>>, header: Seq<char>) -> Option<Seq<char>>
    decreases lines.len(),
{
    if lines.len() == 0 {
        None
    } else if header_in_line(lines[0], header) is Some {
        header_in_line(lines[0], header)
    } else {
        header_in_lines(lines.drop_first(), header)
    }
}

/// Finds the value of a header.
pub fn get_header(response: &str, header: &str) -> (value: Option<String>)
    ensures
        match value {
            Some(value) => header_in_lines(text::lines(response@), header@) == Some(value@),
            None => header_in_lines(text::lines(response@), header@) is None,
        },
{
    let lines: Vec<String> = text::split_lines(response);
    let ghost all = text::lines(response@);
    assert(all.skip(0) =~= all);
    for i in 0..lines.len()
        invariant
            text::texts(lines@) == all,
            all == text::lines(response@),
            header_in_lines(all, header@) == header_in_lines(all.skip(i as int), header@),
    {
        assert(all[i as int] == lines@[i as int]@);
        assert(all.skip(i as int).drop_first() =~= all.skip(i + 1));
        if let Some((name, value)) = text::split_once(lines[i].as_str(), ':') {
            if text::same_ignoring_case(name.as_str(), header) {
                return Some(text::trim(value.as_str()));
            }
        }
    }
    None
}

/// How far a response has come.
pub enum Attempt {
    /// The headers are not complete.
    NoHeaders,
    /// The response makes no sense.
    Failed(Seq<char>),
    /// The headers are complete, the body is not.
    NoBody(nat),
    /// All is there.
    Complete(nat, Seq<char>),
}

/// What the headers say of the body, and the body if it is there. `rest` are the bytes
/// behind the headers.
pub open spec fn body_attempt(headers: Seq<char>, code: nat, rest: Seq<u8>) -> Attempt {
    match header_in_lines(text::lines(headers), "Content-Length"@) {
        None => Attempt::Failed("looking for Content-Length header"@),
        Some(value) => match text::number(text::trimmed(value), usize::MAX as nat) {
            None => Attempt::Failed("parsing Content-Length header"@),
            Some(length) => if rest.len() < length {
                Attempt::NoBody(code)
            } else if vstd::utf8::valid_utf8(rest.take(length as int)) {
                Attempt::Complete(code, vstd::utf8::decode_utf8(rest.take(length as int)))
            } else {
                Attempt::Failed("parsing HTTP body as valid UTF-8"@)
            },
        },
    }
}

/// How far a response has come with these bytes.
pub open spec fn attempt(response: Seq<u8>) -> Attempt {
    match header_end(response) {
        None => Attempt::NoHeaders,
        Some(end) => {
            if !vstd::utf8::valid_utf8(response.take(end)) {
                Attempt::Failed("parsing HTTP headers as UTF-8"@)
            } else {
                let headers = vstd::utf8::decode_utf8(response.take(end));
                match status_code(headers) {
                    None => Attempt::Failed("parsing response for status code"@),
                    Some(code) => if code == 204 {
                        Attempt::Complete(code, Seq::empty())
                    } else {
                        body_attempt(headers, code, response.skip(end + 4))
                    },
                }
            }
        },
    }
}

/// A response that is complete or failed stays so, whatever comes behind it.
pub proof fn lemma_attempt_stays(response: Seq<u8>, more: Seq<u8>)
    requires
        attempt(response) is Complete || attempt(response) is Failed,
    ensures
        attempt(response + more) == attempt(response),
{
    lemma_header_end_stays(response, more);
    lemma_header_end_inside(response);
    let end = header_end(response).unwrap();
    assert((response + more).take(end) =~= response.take(end));
    let rest = response.skip(end + 4);
    let longer = (response + more).skip(end + 4);
    assert(longer =~= rest + more);
    let headers = vstd::utf8::decode_utf8(response.take(end));
    if let Some(value) = header_in_lines(text::lines(headers), "Content-Length"@) {
        if let Some(length) = text::number(text::trimmed(value), usize::MAX as nat) {
            if length <= rest.len() {
                assert(longer.take(length as int) =~= rest.take(length as int));
            }
        }
    }
}

/// What one more chunk of a response came to.
pub enum Progress {
    /// Read on.
    More,
    Done(ApiResponse),
    Failed(String),
}

/// Puts a response together from the chunks in which it comes.
pub struct ResponseReader {
    pub response: Vec<u8>,
    pub status_code: u16,
    /// How long the response may be.
    pub limit: Option<usize>,
}

/// The message for a response that is too long.
pub open spec fn limit_message(limit: usize) -> Seq<char> {
    "cloud hypervisor answered with more than "@ + text::decimal(limit as nat) + " bytes"@
}

/// Whether a response is longer than it may be.
pub open spec fn exceeds(response: Seq<u8>, limit: Option<usize>) -> bool {
    limit is Some && response.len() > limit.unwrap()
}

/// Whether `after` and `progress` are what comes of one more chunk.
pub open spec fn is_fed(
    before: ResponseReader,
    chunk: Seq<u8>,
    after: ResponseReader,
    progress: Progress,
) -> bool {
    let response = before.response@ + chunk;
    &&& after.response@ == response
    &&& after.limit == before.limit
    &&& if exceeds(response, before.limit) {
        &&& progress matches Progress::Failed(message) && message@ == limit_message(
            before.limit.unwrap(),
        )
        &&& after.status_code == before.status_code
    } else {
        match attempt(response) {
            Attempt::NoHeaders => progress is More && after.status_code == before.status_code,
            Attempt::Failed(message) => progress matches Progress::Failed(text) && text@
                == message,
            Attempt::NoBody(code) => progress is More && after.status_code == code,
            Attempt::Complete(code, body) => progress matches Progress::Done(response)
                && response.status_code == code && response.body@ == body,
        }
    }
}

/// Whether two chunks came to the same.
pub open spec fn is_same_progress(a: Progress, b: Progress) -> bool {
    match (a, b) {
        (Progress::More, Progress::More) => true,
        (Progress::Done(first), Progress::Done(second)) => first.status_code
            == second.status_code && first.body@ == second.body@,
        (Progress::Failed(first), Progress::Failed(second)) => first@ == second@,
        _ => false,
    }
}

/// It does not matter how a response that is not too long is cut into chunks: reading it in
/// two of them comes to the same as reading it in one, and if the first one is enough the
/// second one would not have changed anything.
pub proof fn lemma_chunks_do_not_matter(
    before: ResponseReader,
    first: Seq<u8>,
    second: Seq<u8>,
    between: ResponseReader,
    after_first: Progress,
    after: ResponseReader,
    after_second: Progress,
    at_once: ResponseReader,
    after_both: Progress,
)
    requires
        !exceeds(before.response@ + first + second, before.limit),
        is_fed(before, first, between, after_first),
        after_first is More ==> is_fed(between, second, after, after_second),
        is_fed(before, first + second, at_once, after_both),
    ensures
        is_same_progress(
            after_both,
            if after_first is More {
                after_second
            } else {
                after_first
            },
        ),
{
    let response = before.response@ + first;
    text::lemma_concat_associative(before.response@, first, second);
    if attempt(response) is Complete || attempt(response) is Failed {
        lemma_attempt_stays(response, second);
    }
}

impl ResponseReader {
    /// A reader that has read nothing.
    pub fn new(limit: Option<usize>) -> (reader: Self)
        ensures
            reader.response@ == Seq::<u8>::empty(),
            reader.status_code == 0,
            reader.limit == limit,
    {
        ResponseReader { response: Vec::new(), status_code: 0, limit }
    }

    /// Takes one more chunk in.
    pub fn feed(&mut self, chunk: &[u8]) -> (progress: Progress)
        ensures
            is_fed(*old(self), chunk@, *final(self), progress),
    {
        text::append_bytes(&mut self.response, chunk);
        if let Some(limit) = self.limit {
            if self.response.len() > limit {
                let mut message: String = "cloud hypervisor answered with more than ".to_owned();
                let number: String = text::decimal_string(limit as u64);
                message.append(number.as_str());
                message.append(" bytes");
                return Progress::Failed(message);
            }
        }
        let end: usize = match find_header_end(&self.response) {
            Some(end) => end,
            None => {
                return Progress::More;
            },
        };
        let bytes: &[u8] = vstd::slice::slice_subrange(self.response.as_slice(), 0, end);
        assert(bytes@ =~= self.response@.take(end as int));
        let headers: &str = match core::str::from_utf8(bytes) {
            Ok(headers) => headers,
            Err(_) => {
                return Progress::Failed("parsing HTTP headers as UTF-8".to_owned());
            },
        };
        let status_code: u16 = match get_status_code(headers) {
            Ok(status_code) => status_code,
            Err(message) => {
                return Progress::Failed(message);
            },
        };
        if status_code == 204 {
            self.status_code = status_code;
            return Progress::Done(ApiResponse { status_code, body: String::new() });
        }
        let value: String = match get_header(headers, "Content-Length") {
            Some(value) => value,
            None => {
                return Progress::Failed("looking for Content-Length header".to_owned());
            },
        };
        let trimmed: String = text::trim(value.as_str());
        let length: usize = match text::parse_number(trimmed.as_str(), usize::MAX as u64) {
            Some(length) => length as usize,
            None => {
                return Progress::Failed("parsing Content-Length header".to_owned());
            },
        };
        self.status_code = status_code;
        assert(end + 4 <= self.response.len());
        let offset: usize = end + 4;
        if self.response.len() - offset < length {
            return Progress::More;
        }
        let bytes: &[u8] = vstd::slice::slice_subrange(
            self.response.as_slice(),
            offset,
            offset + length,
        );
        assert(bytes@ =~= self.response@.skip(end + 4).take(length as int));
        match core::str::from_utf8(bytes) {
            Ok(body) => Progress::Done(ApiResponse { status_code, body: body.to_owned() }),
            Err(_) => Progress::Failed("parsing HTTP body as valid UTF-8".to_owned()),
        }
    }

    /// The response if nothing more comes: what is known of the status, without a body.
    pub fn finish(&self) -> (response: ApiResponse)
        ensures
            response.status_code == self.status_code,
            response.body@ == Seq::<char>::empty(),
    {
        ApiResponse { status_code: self.status_code, body: String::new() }
    }
}

/// What happened while the hypervisor was asked something.
pub enum ExchangeEvent {
    Started,
    Connected { done: bool },
    ReadTimeoutSet { done: bool },
    WriteTimeoutSet { done: bool },
    Sent { done: bool },
    Flushed { done: bool },
    /// Bytes were read, none if the connection was closed, or reading failed.
    Read(Option<Vec<u8>>),
}

/// What to do next.
pub enum ExchangeAction {
    Connect,
    SetReadTimeout,
    SetWriteTimeout,
    /// Send the request.
    Send,
    Flush,
    Read,
    Done(ApiResponse),
    Fail(String),
}

/// One request to the hypervisor and its response.
pub struct Exchange {
    pub request: String,
    pub reader: ResponseReader,
}

/// Whether an action is a failure with this message.
pub open spec fn fails(action: ExchangeAction, message: Seq<char>) -> bool {
    action matches ExchangeAction::Fail(text) && text@ == message
}

/// Whether `action` comes after an event, and `after` is how far the response has come then.
pub open spec fn is_exchanged(
    before: ResponseReader,
    event: ExchangeEvent,
    after: ResponseReader,
    action: ExchangeAction,
) -> bool {
    match event {
        ExchangeEvent::Started => after == before && action is Connect,
        ExchangeEvent::Connected { done } => after == before && if done {
            action is SetReadTimeout
        } else {
            fails(action, "connecting to cloud hypervisor socket"@)
        },
        ExchangeEvent::ReadTimeoutSet { done } => after == before && if done {
            action is SetWriteTimeout
        } else {
            fails(action, "setting a read timeout on the cloud hypervisor socket"@)
        },
        ExchangeEvent::WriteTimeoutSet { done } => after == before && if done {
            action is Send
        } else {
            fails(action, "setting a write timeout on the cloud hypervisor socket"@)
        },
        ExchangeEvent::Sent { done } => after == before && if done {
            action is Flush
        } else {
            fails(action, "sending request to cloud hypervisor"@)
        },
        ExchangeEvent::Flushed { done } => after == before && if done {
            action is Read
        } else {
            fails(action, "flushing request to cloud hypervisor"@)
        },
        ExchangeEvent::Read(None) => after == before && fails(
            action,
            "reading response bytes from cloud hypervisor"@,
        ),
        ExchangeEvent::Read(Some(bytes)) => if bytes@.len() == 0 {
            &&& after == before
            &&& action matches ExchangeAction::Done(response) && response.status_code
                == before.status_code && response.body@ == Seq::<char>::empty()
        } else {
            match action {
                ExchangeAction::Read => is_fed(before, bytes@, after, Progress::More),
                ExchangeAction::Done(response) => is_fed(
                    before,
                    bytes@,
                    after,
                    Progress::Done(response),
                ),
                ExchangeAction::Fail(message) => is_fed(
                    before,
                    bytes@,
                    after,
                    Progress::Failed(message),
                ),
                _ => false,
            }
        },
    }
}

/// Goes on, or fails with a message.
fn go_on(done: bool, next: ExchangeAction, message: &str) -> (action: ExchangeAction)
    ensures
        done ==> action == next,
        !done ==> fails(action, message@),
{
    if done {
        next
    } else {
        ExchangeAction::Fail(message.to_owned())
    }
}

impl Exchange {
    /// Begins to ask the hypervisor something. The response may be as long as `limit`.
    pub fn api(method: &str, path: &str, body: Option<&str>, limit: Option<usize>) -> (exchange:
        Self)
        ensures
            exchange.request@ == request_text(
                method@,
                path@,
                match body {
                    Some(body) => Some(body@),
                    None => None,
                },
            ),
            exchange.reader.response@ == Seq::<u8>::empty(),
            exchange.reader.status_code == 0,
            exchange.reader.limit == limit,
    {
        Exchange { request: api_request(method, path, body), reader: ResponseReader::new(limit) }
    }

    /// Takes an event in and tells what to do next.
    pub fn api_with_timeout(&mut self, event: ExchangeEvent) -> (action: ExchangeAction)
        ensures
            final(self).request == old(self).request,
            is_exchanged(old(self).reader, event, final(self).reader, action),
    {
        match event {
            ExchangeEvent::Started => ExchangeAction::Connect,
            ExchangeEvent::Connected { done } => go_on(
                done,
                ExchangeAction::SetReadTimeout,
                "connecting to cloud hypervisor socket",
            ),
            ExchangeEvent::ReadTimeoutSet { done } => go_on(
                done,
                ExchangeAction::SetWriteTimeout,
                "setting a read timeout on the cloud hypervisor socket",
            ),
            ExchangeEvent::WriteTimeoutSet { done } => go_on(
                done,
                ExchangeAction::Send,
                "setting a write timeout on the cloud hypervisor socket",
            ),
            ExchangeEvent::Sent { done } => go_on(
                done,
                ExchangeAction::Flush,
                "sending request to cloud hypervisor",
            ),
            ExchangeEvent::Flushed { done } => go_on(
                done,
                ExchangeAction::Read,
                "flushing request to cloud hypervisor",
            ),
            ExchangeEvent::Read(bytes) => match bytes {
                None => ExchangeAction::Fail(
                    "reading response bytes from cloud hypervisor".to_owned(),
                ),
                Some(bytes) => {
                    if bytes.len() == 0 {
                        return ExchangeAction::Done(self.reader.finish());
                    }
                    match self.reader.feed(bytes.as_slice()) {
                        Progress::More => ExchangeAction::Read,
                        Progress::Done(response) => ExchangeAction::Done(response),
                        Progress::Failed(message) => ExchangeAction::Fail(message),
                    }
                },
            },
        }
    }
}

/// A request has its method and path in the first line, and its body, if it has one, behind an
/// empty line, with its length in bytes among the headers.
pub proof fn lemma_written_request(method: &str, path: &str, body: Option<&str>, request: String)
    requires
        call_ensures(api_request, (method, path, body), request),
    ensures
        body is None ==> request@ == method@ + " /api/v1/"@ + path@
            + " HTTP/1.1\r\nHost: localhost\r\nAccept: */*\r\n"@ + "\r\n"@,
        body matches Some(body) ==> request@ == method@ + " /api/v1/"@ + path@
            + " HTTP/1.1\r\nHost: localhost\r\nAccept: */*\r\n"@ + "Content-Length: "@
            + text::decimal(vstd::utf8::encode_utf8(body@).len()) + "\r\n"@ + "\r\n"@ + body@,
{
}

/// Whether an empty line stands at a place: two line ends behind each other.
pub open spec fn is_empty_line_at(bytes: Seq<u8>, at: int) -> bool {
    &&& 0 <= at
    &&& at + 4 <= bytes.len()
    &&& bytes[at] == 13
    &&& bytes[at + 1] == 10
    &&& bytes[at + 2] == 13
    &&& bytes[at + 3] == 10
}

/// The headers end where the first empty line stands, and are not complete without one.
pub proof fn lemma_first_empty_line(response: Seq<u8>)
    ensures
        header_end(response) is None <==> forall|at: int| !is_empty_line_at(response, at),
        header_end(response) matches Some(end) ==> is_empty_line_at(response, end) && forall|
            at: int,
        |
            0 <= at < end ==> !is_empty_line_at(response, at),
    decreases response.len(),
{
    if response.len() < 4 {
        assert forall|at: int| !is_empty_line_at(response, at) by {}
    } else {
        let shorter = response.drop_last();
        lemma_first_empty_line(shorter);
        let last: int = response.len() - 4;
        assert forall|at: int| 0 <= at < last implies is_empty_line_at(response, at)
            == #[trigger] is_empty_line_at(shorter, at) by {}
        let end = response.skip(last);
        let wanted = seq![13u8, 10u8, 13u8, 10u8];
        assert(end[0] == response[last] && end[1] == response[last + 1] && end[2] == response[last
            + 2] && end[3] == response[last + 3]);
        assert(wanted[0] == 13 && wanted[1] == 10 && wanted[2] == 13 && wanted[3] == 10);
        if is_empty_line_at(response, last) {
            assert(end =~= wanted);
        }
        assert(ends_headers(response) == is_empty_line_at(response, last));
        if header_end(shorter) is Some {
            let found = header_end(shorter).unwrap();
            lemma_header_end_inside(shorter);
            assert(is_empty_line_at(response, found));
            assert forall|at: int| 0 <= at < found implies !is_empty_line_at(response, at) by {
                assert(!is_empty_line_at(shorter, at));
            }
        } else {
            assert forall|at: int| 0 <= at < last implies !is_empty_line_at(response, at) by {
                assert(!is_empty_line_at(shorter, at));
            }
            if !is_empty_line_at(response, last) {
                assert forall|at: int| !is_empty_line_at(response, at) by {
                    if 0 <= at < last {
                        assert(!is_empty_line_at(shorter, at));
                    }
                }
            }
        }
    }
}

/// The status code is the second word of the first line.
pub proof fn lemma_status_in_first_line(
    version: Seq<char>,
    code: nat,
    reason: Seq<char>,
    rest: Seq<char>,
)
    requires
        version.len() > 0,
        forall|i: int| 0 <= i < version.len() ==> !text::is_space(#[trigger] version[i]),
        !reason.contains('\n'),
        !reason.contains('\r'),
    ensures
        ({
            let line = version + seq![' '] + text::decimal(code) + seq![' '] + reason;
            let found = if code <= 65535 {
                Some(code)
            } else {
                None
            };
            &&& !line.contains('\n') && !line.contains('\r')
            &&& status_code(line) == found
            &&& status_code(line + seq!['\r', '\n'] + rest) == found
        }),
{
    let digits = text::decimal(code);
    let line = version + seq![' '] + digits + seq![' '] + reason;
    text::lemma_decimal_digits(code);
    text::lemma_decimal_is_read_back(code, 65535);
    assert(line =~= version.push(' ') + (digits.push(' ') + reason));
    text::lemma_words(version, ' ', digits.push(' ') + reason);
    text::lemma_words(digits, ' ', reason);
    let words = text::words(line);
    assert(words =~= seq![version] + (seq![digits] + text::words(reason)));
    assert(words[1] == digits);
    assert forall|i: int| 0 <= i < line.len() implies line[i] != '\n' && line[i] != '\r' by {
        if i < version.len() {
            assert(line[i] == version[i]);
        } else if i == version.len() {
        } else if i < version.len() + 1 + digits.len() {
            assert(line[i] == digits[i - version.len() - 1]);
        } else if i == version.len() + 1 + digits.len() {
        } else {
            let k = i - version.len() - 2 - digits.len();
            assert(line[i] == reason[k]);
            assert(reason.contains(reason[k]));
        }
    }
    text::lemma_lines(line, rest);
    assert(line + seq!['\r', '\n'] + rest =~= line.push('\r').push('\n') + rest);
    assert(text::lines(line)[0] == line);
    assert((seq![line] + text::lines(rest))[0] == line);
}

/// A line has a header if that stands before its first colon, whatever the case of its letters.
/// The value is what stands behind it, without the white space around that.
pub proof fn lemma_header_of_line(name: Seq<char>, value: Seq<char>, header: Seq<char>)
    requires
        !name.contains(':'),
    ensures
        header_in_line(name + seq![':'] + value, header) == (if name.len() == header.len() && (
        forall|i: int|
            #![trigger name[i]]
            0 <= i < name.len() ==> name[i] == header[i] || text::is_same_letter(
                name[i],
                header[i],
            )) {
            Some(text::trimmed(value))
        } else {
            None
        }),
        header_in_line(name, header) is None,
{
    assert(name + seq![':'] + value =~= name.push(':') + value);
    text::lemma_split_first(name, ':', value);
    text::lemma_same_but_for_case(name, header);
}

/// Of several lines the first that has a header counts.
pub proof fn lemma_first_header_counts(
    before: Seq<Seq<char>>,
    line: Seq<char>,
    after: Seq<Seq<char>>,
    header: Seq<char>,
)
    requires
        forall|i: int| 0 <= i < before.len() ==> header_in_line(#[trigger] before[i], header) is None,
    ensures
        header_in_line(line, header) is Some ==> header_in_lines(before + seq![line] + after, header)
            == header_in_line(line, header),
        header_in_lines(before, header) is None,
    decreases before.len(),
{
    let all = before + seq![line] + after;
    if before.len() == 0 {
        assert(all[0] == line);
    } else {
        let rest = before.drop_first();
        assert forall|i: int| 0 <= i < rest.len() implies header_in_line(
            #[trigger] rest[i],
            header,
        ) is None by {
            assert(rest[i] == before[i + 1]);
        }
        lemma_first_header_counts(rest, line, after, header);
        assert(header_in_line(before[0], header) is None);
        assert(all[0] == before[0]);
        assert(all.drop_first() =~= rest + seq![line] + after);
    }
}

/// A response is read as it was written: the status of its first line, and as many bytes behind
/// the empty line as it says. What comes behind them does not matter, and as long as they are
/// not all there the body is waited for.
pub proof fn lemma_response_is_read(
    version: Seq<char>,
    code: nat,
    reason: Seq<char>,
    body: Seq<char>,
    bytes: Seq<u8>,
)
    requires
        vstd::utf8::is_ascii_chars(version),
        vstd::utf8::is_ascii_chars(reason),
        version.len() > 0,
        forall|i: int| 0 <= i < version.len() ==> !text::is_space(#[trigger] version[i]),
        !version.contains(':'),
        !reason.contains('\n'),
        !reason.contains('\r'),
        code <= 65535,
        code != 204,
        vstd::utf8::encode_utf8(body).len() <= usize::MAX,
    ensures
        ({
            let sent = vstd::utf8::encode_utf8(body);
            let head = version + seq![' '] + text::decimal(code) + seq![' '] + reason
                + "\r\nContent-Length: "@ + text::decimal(sent.len());
            let start = text::ascii(head) + seq![13u8, 10u8, 13u8, 10u8];
            &&& attempt(start + sent + bytes) == Attempt::Complete(code, body)
            &&& bytes.len() < sent.len() ==> attempt(start + bytes) == Attempt::NoBody(code)
        }),
{
    let sent = vstd::utf8::encode_utf8(body);
    let line = version + seq![' '] + text::decimal(code) + seq![' '] + reason;
    let digits = text::decimal(sent.len());
    let second = "Content-Length: "@ + digits;
    let head = line + "\r\nContent-Length: "@ + digits;
    let encoded = text::ascii(head);
    let gap = seq![13u8, 10u8, 13u8, 10u8];
    reveal_strlit("\r\nContent-Length: ");
    reveal_strlit("Content-Length: ");
    reveal_strlit("Content-Length");
    text::lemma_decimal_digits(code);
    text::lemma_decimal_digits(sent.len());
    assert("\r\nContent-Length: "@ =~= seq!['\r', '\n'] + "Content-Length: "@);
    assert(head =~= line + seq!['\r', '\n'] + second);
    lemma_status_in_first_line(version, code, reason, second);
    assert(line.take(version.len() as int) =~= version);
    lemma_no_length_in_first_line(version, line);
    lemma_length_header(line, sent.len());
    lemma_head_is_ascii(line, sent.len(), version, code, reason);
    vstd::utf8::is_ascii_chars_encode_utf8(head);
    assert(vstd::utf8::encode_utf8(head) =~= encoded);
    vstd::utf8::encode_utf8_valid_utf8(head);
    vstd::utf8::encode_utf8_decode_utf8(head);
    vstd::utf8::encode_utf8_valid_utf8(body);
    vstd::utf8::encode_utf8_decode_utf8(body);
    text::lemma_decimal_is_read_back(sent.len(), usize::MAX as nat);
    let whole = encoded + gap + sent + bytes;
    lemma_end_of_head(line, second, sent + bytes);
    assert(whole =~= encoded + gap + (sent + bytes));
    assert(whole.take(encoded.len() as int) =~= encoded);
    assert(whole.skip(encoded.len() as int + 4) =~= sent + bytes);
    assert((sent + bytes).take(sent.len() as int) =~= sent);
    assert(attempt(whole) == Attempt::Complete(code, body));
    let part = encoded + gap + bytes;
    lemma_end_of_head(line, second, bytes);
    assert(part.take(encoded.len() as int) =~= encoded);
    assert(part.skip(encoded.len() as int + 4) =~= bytes);
}

/// What stands before a colon in the first line has a space in it, so it is not the header that
/// is looked for.
proof fn lemma_no_length_in_first_line(version: Seq<char>, line: Seq<char>)
    requires
        !version.contains(':'),
        line.len() > version.len(),
        line.take(version.len() as int) == version,
        line[version.len() as int] == ' ',
    ensures
        header_in_line(line, "Content-Length"@) is None,
{
    let name = "Content-Length"@;
    reveal_strlit("Content-Length");
    if line.contains(':') {
        line.index_of_first_ensures(':');
        let at = line.index_of_first(':').unwrap();
        let before = line.take(at);
        let after = line.skip(at + 1);
        assert(line =~= before + seq![':'] + after);
        if at < version.len() {
            assert(version[at] == line[at]);
            assert(version.contains(':'));
        }
        let space = version.len() as int;
        assert(before[space] == ' ');
        assert forall|i: int| 0 <= i < before.len() implies before[i] != ':' by {
            assert(before[i] == line[i]);
        }
        lemma_header_of_line(before, after, name);
        if before.len() == name.len() {
            assert(name[space] != ' ' && !text::is_same_letter(' ', name[space])) by {
                assert(space == 0 || space == 1 || space == 2 || space == 3 || space == 4 || space
                    == 5 || space == 6 || space == 7 || space == 8 || space == 9 || space == 10
                    || space == 11 || space == 12 || space == 13);
            }
        }
    }
}

/// The length is found behind the first line.
proof fn lemma_length_header(line: Seq<char>, length: nat)
    requires
        !line.contains('\n'),
        !line.contains('\r'),
        header_in_line(line, "Content-Length"@) is None,
    ensures
        header_in_lines(
            text::lines(line + seq!['\r', '\n'] + ("Content-Length: "@ + text::decimal(length))),
            "Content-Length"@,
        ) == Some(text::decimal(length)),
        text::trimmed(text::decimal(length)) == text::decimal(length),
{
    let digits = text::decimal(length);
    let name = "Content-Length"@;
    let second = "Content-Length: "@ + digits;
    reveal_strlit("Content-Length: ");
    reveal_strlit("Content-Length");
    text::lemma_decimal_digits(length);
    assert forall|i: int| 0 <= i < name.len() implies name[i] != ':' by {
        assert(i == 0 || i == 1 || i == 2 || i == 3 || i == 4 || i == 5 || i == 6 || i == 7 || i == 8
            || i == 9 || i == 10 || i == 11 || i == 12 || i == 13);
    }
    let value = seq![' '] + digits;
    assert(second =~= name + seq![':'] + value);
    lemma_header_of_line(name, value, name);
    lemma_trimmed_digits(seq![' '], digits);
    lemma_trimmed_digits(Seq::empty(), digits);
    assert(Seq::<char>::empty() + digits =~= digits);
    assert forall|i: int| 0 <= i < second.len() implies second[i] != '\n' && second[i] != '\r' by {
        if i < 16 {
            assert(i == 0 || i == 1 || i == 2 || i == 3 || i == 4 || i == 5 || i == 6 || i == 7 || i
                == 8 || i == 9 || i == 10 || i == 11 || i == 12 || i == 13 || i == 14 || i == 15);
        } else {
            assert(second[i] == digits[i - 16]);
        }
    }
    text::lemma_lines(second, Seq::empty());
    text::lemma_lines(line, second);
    assert(line + seq!['\r', '\n'] + second =~= line.push('\r').push('\n') + second);
    let lines = text::lines(line + seq!['\r', '\n'] + second);
    assert(lines =~= seq![line] + seq![second] + Seq::<Seq<char>>::empty());
    lemma_first_header_counts(seq![line], second, Seq::empty(), name);
}

/// Digits are left as they are when the white space before them is taken off.
proof fn lemma_trimmed_digits(space: Seq<char>, digits: Seq<char>)
    requires
        text::is_blank(space),
        digits.len() > 0,
        text::are_digits(digits),
    ensures
        text::trimmed(space + digits) == digits,
{
    let all = space + digits;
    let rest = text::trimmed(all);
    text::lemma_trimmed(all);
    let (start, end) = choose|start: Seq<char>, end: Seq<char>|
        all == #[trigger] (start + rest + end) && text::is_blank(start) && text::is_blank(end);
    assert forall|i: int| 0 <= i < digits.len() implies !text::is_space(#[trigger] digits[i]) by {}
    if end.len() > 0 {
        assert(all[all.len() - 1] == end[end.len() - 1]);
        assert(all[all.len() - 1] == digits[digits.len() - 1]);
        assert(text::is_space(end[end.len() - 1]));
    }
    if start.len() > space.len() {
        assert(all[space.len() as int] == start[space.len() as int]);
        assert(all[space.len() as int] == digits[0]);
    }
    if rest.len() == 0 {
        assert(all.len() == start.len());
    }
    if start.len() < space.len() {
        assert(all[start.len() as int] == rest[0]);
        assert(all[start.len() as int] == space[start.len() as int]);
    }
    assert(start.len() == space.len() && end.len() == 0);
    assert forall|i: int| 0 <= i < rest.len() implies #[trigger] rest[i] == digits[i] by {
        assert(all[start.len() + i] == rest[i]);
        assert(all[space.len() + i] == digits[i]);
    }
    assert(rest =~= digits);
}

/// The first line of a response is made of ASCII characters and is not the header that is
/// looked for.
proof fn lemma_head_is_ascii(
    line: Seq<char>,
    length: nat,
    version: Seq<char>,
    code: nat,
    reason: Seq<char>,
)
    requires
        vstd::utf8::is_ascii_chars(version),
        vstd::utf8::is_ascii_chars(reason),
        line == version + seq![' '] + text::decimal(code) + seq![' '] + reason,
    ensures
        vstd::utf8::is_ascii_chars(line + "\r\nContent-Length: "@ + text::decimal(length)),
{
    let head = line + "\r\nContent-Length: "@ + text::decimal(length);
    let name = "\r\nContent-Length: "@;
    let digits = text::decimal(code);
    reveal_strlit("\r\nContent-Length: ");
    text::lemma_decimal_digits(code);
    text::lemma_decimal_digits(length);
    assert forall|i: int| 0 <= i < line.len() implies line[i] <= '\u{7F}' by {
        if i < version.len() {
            assert(line[i] == version[i]);
        } else if i == version.len() {
        } else if i < version.len() + 1 + digits.len() {
            assert(line[i] == digits[i - version.len() - 1]);
        } else if i == version.len() + 1 + digits.len() {
        } else {
            assert(line[i] == reason[i - version.len() - 2 - digits.len()]);
        }
    }
    assert forall|i: int| 0 <= i < head.len() implies head[i] <= '\u{7F}' by {
        if i < line.len() {
            assert(head[i] == line[i]);
        } else if i < line.len() + 18 {
            let k = i - line.len();
            assert(head[i] == name[k]);
            assert(k == 0 || k == 1 || k == 2 || k == 3 || k == 4 || k == 5 || k == 6 || k == 7 || k
                == 8 || k == 9 || k == 10 || k == 11 || k == 12 || k == 13 || k == 14 || k == 15 || k
                == 16 || k == 17);
        } else {
            assert(head[i] == text::decimal(length)[i - line.len() - 18]);
        }
    }
}

/// Two lines end at the empty line behind them.
proof fn lemma_end_of_head(line: Seq<char>, second: Seq<char>, rest: Seq<u8>)
    requires
        vstd::utf8::is_ascii_chars(line + seq!['\r', '\n'] + second),
        !line.contains('\r'),
        !second.contains('\r'),
        second.len() > 0,
    ensures
        ({
            let head = text::ascii(line + seq!['\r', '\n'] + second);
            header_end(head + seq![13u8, 10u8, 13u8, 10u8] + rest) == Some(head.len() as int)
        }),
{
    let all = line + seq!['\r', '\n'] + second;
    let head = text::ascii(all);
    let gap = seq![13u8, 10u8, 13u8, 10u8];
    let whole = head + gap + rest;
    let end = head.len() as int;
    lemma_first_empty_line(whole);
    assert(whole[end] == gap[0] && whole[end + 1] == gap[1] && whole[end + 2] == gap[2]
        && whole[end + 3] == gap[3]);
    assert(is_empty_line_at(whole, end));
    assert forall|at: int| 0 <= at < end implies !is_empty_line_at(whole, at) by {
        assert(whole[at] == head[at]);
        assert(head[at] == all[at] as u8);
        assert(all[at] <= '\u{7F}');
        if whole[at] == 13 {
            assert(all[at] == '\r');
            if at < line.len() {
                assert(all[at] == line[at]);
                assert(line.contains('\r'));
            } else if at == line.len() {
                assert(whole[at + 2] == head[at + 2]);
                assert(head[at + 2] == all[at + 2] as u8);
                assert(all[at + 2] == second[0]);
                assert(all[at + 2] <= '\u{7F}');
                if second[0] == '\r' {
                    assert(second.contains('\r'));
                }
            } else if at == line.len() + 1 {
            } else {
                assert(all[at] == second[at - line.len() - 2]);
                assert(second.contains('\r'));
            }
        }
    }
}

/// A response that says that there is no content is complete with its headers, and one without
/// a status, or without a length that is a number, makes no sense.
pub proof fn lemma_responses_without_body(response: Seq<u8>, headers: Seq<char>)
    requires
        header_end(response) matches Some(end) && response.take(end) == vstd::utf8::encode_utf8(
            headers,
        ),
    ensures
        status_code(headers) == Some(204nat) ==> attempt(response) == Attempt::Complete(
            204,
            Seq::empty(),
        ),
        status_code(headers) is None ==> attempt(response) == Attempt::Failed(
            "parsing response for status code"@,
        ),
        status_code(headers) is Some && status_code(headers) != Some(204nat) ==> {
            let value = header_in_lines(text::lines(headers), "Content-Length"@);
            &&& value is None ==> attempt(response) == Attempt::Failed(
                "looking for Content-Length header"@,
            )
            &&& value is Some && text::number(text::trimmed(value.unwrap()), usize::MAX as nat)
                is None ==> attempt(response) == Attempt::Failed("parsing Content-Length header"@)
        },
{
    vstd::utf8::encode_utf8_valid_utf8(headers);
    vstd::utf8::encode_utf8_decode_utf8(headers);
}

/// What comes after each event while the hypervisor is asked something. It is connected to, the
/// two timeouts are set, the request is sent and flushed, and then bytes are read. A step that
/// fails ends it with words of its own.
pub proof fn lemma_course_of_exchange(
    before: ResponseReader,
    event: ExchangeEvent,
    after: ResponseReader,
    action: ExchangeAction,
)
    requires
        is_exchanged(before, event, after, action),
    ensures
        action is Connect <==> event is Started,
        action is SetReadTimeout <==> event == (ExchangeEvent::Connected { done: true }),
        action is SetWriteTimeout <==> event == (ExchangeEvent::ReadTimeoutSet { done: true }),
        action is Send <==> event == (ExchangeEvent::WriteTimeoutSet { done: true }),
        action is Flush <==> event == (ExchangeEvent::Sent { done: true }),
        event == (ExchangeEvent::Flushed { done: true }) ==> action is Read,
        event == (ExchangeEvent::Connected { done: false }) ==> (action
            matches ExchangeAction::Fail(message) && message@
            == "connecting to cloud hypervisor socket"@),
        event == (ExchangeEvent::ReadTimeoutSet { done: false }) ==> (action
            matches ExchangeAction::Fail(message) && message@
            == "setting a read timeout on the cloud hypervisor socket"@),
        event == (ExchangeEvent::WriteTimeoutSet { done: false }) ==> (action
            matches ExchangeAction::Fail(message) && message@
            == "setting a write timeout on the cloud hypervisor socket"@),
        event == (ExchangeEvent::Sent { done: false }) ==> (action
            matches ExchangeAction::Fail(message) && message@
            == "sending request to cloud hypervisor"@),
        event == (ExchangeEvent::Flushed { done: false }) ==> (action
            matches ExchangeAction::Fail(message) && message@
            == "flushing request to cloud hypervisor"@),
        event == ExchangeEvent::Read(None) ==> (action matches ExchangeAction::Fail(message)
            && message@ == "reading response bytes from cloud hypervisor"@),
        event !is Read ==> after == before,
{
}

/// What comes after bytes were read. A response that is longer than it may be is refused,
/// whatever it says. Otherwise more is read until it is complete, and a connection that is
/// closed before leaves its status.
pub proof fn lemma_course_of_reading(
    before: ResponseReader,
    bytes: Vec<u8>,
    after: ResponseReader,
    action: ExchangeAction,
)
    requires
        is_exchanged(before, ExchangeEvent::Read(Some(bytes)), after, action),
    ensures
        bytes@.len() == 0 ==> (action matches ExchangeAction::Done(response) && response.status_code
            == before.status_code && response.body@.len() == 0),
        bytes@.len() > 0 ==> {
            let all = before.response@ + bytes@;
            let too_long = before.limit matches Some(limit) && all.len() > limit;
            &&& after.response@ == all
            &&& too_long ==> (action matches ExchangeAction::Fail(message) && message@
                == "cloud hypervisor answered with more than "@ + text::decimal(
                before.limit.unwrap() as nat,
            ) + " bytes"@)
            &&& !too_long ==> {
                &&& action is Read <==> attempt(all) is NoHeaders || attempt(all) is NoBody
                &&& attempt(all) matches Attempt::NoBody(code) ==> after.status_code == code
                &&& attempt(all) is NoHeaders ==> after.status_code == before.status_code
                &&& attempt(all) matches Attempt::Complete(code, body) ==> (action
                    matches ExchangeAction::Done(response) && response.status_code == code
                    && response.body@ == body)
                &&& attempt(all) matches Attempt::Failed(text) ==> (action
                    matches ExchangeAction::Fail(message) && message@ == text)
            }
        },
{
}

/// An exchange begins with its request written and nothing read, and a response that ends too
/// early has no body.
pub proof fn lemma_beginning_and_end_of_exchange(
    method: &str,
    path: &str,
    body: Option<&str>,
    limit: Option<usize>,
    exchange: Exchange,
    request: String,
    reader: &ResponseReader,
    response: ApiResponse,
    granted: bool,
)
    requires
        call_ensures(Exchange::api, (method, path, body, limit), exchange),
        call_ensures(api_request, (method, path, body), request),
        call_ensures(ResponseReader::finish, (reader,), response),
        call_ensures(ApiResponse::success, (&response,), granted),
    ensures
        exchange.request@ == request@,
        exchange.reader.response@.len() == 0,
        exchange.reader.status_code == 0,
        exchange.reader.limit == limit,
        response.status_code == reader.status_code,
        response.body@.len() == 0,
        granted <==> 200 <= reader.status_code <= 299,
{
}

} // verus!
