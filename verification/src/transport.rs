//! Newline-delimited JSON-RPC: cutting input into lines, and deciding what
//! becomes of each message.

use vstd::prelude::*;

use crate::protocol;
use crate::protocol::{
    ErrorData, ErrorObject, ErrorObjectView, IdView, Request, RequestId, JSONRPC_VERSION,
};
use crate::text::text_eq;

verus! {

/// The requests that may run at once unless told otherwise.
pub const DEFAULT_MAX_CONCURRENT_REQUESTS: usize = 64;

/// The longest line, its newline included.
pub const MAX_LINE_BYTES: usize = 8_388_608;

/// Seconds that cancelled or left-over work gets to finish.
pub const CANCELLATION_GRACE: u64 = 5;

/// The byte that ends a line.
pub const NEWLINE: u8 = 10;

/// One line of input.
#[derive(Debug, PartialEq, Eq)]
pub enum ProtocolLine {
    Eof,
    /// A line as read, with its newline unless the input ended first.
    Complete(Vec<u8>),
    TooLarge,
}

/// What a [`ProtocolLine`] says.
pub enum LineView {
    Eof,
    Complete(Seq<u8>),
    TooLarge,
}

impl View for ProtocolLine {
    type V = LineView;

    open spec fn view(&self) -> LineView {
        match *self {
            ProtocolLine::Eof => LineView::Eof,
            ProtocolLine::Complete(line) => LineView::Complete(line@),
            ProtocolLine::TooLarge => LineView::TooLarge,
        }
    }
}

/// The place of the first newline, or the length if there is none.
pub open spec fn newline_at(bytes: Seq<u8>) -> nat
    decreases bytes.len(),
{
    if bytes.len() == 0 || bytes[0] == NEWLINE {
        0
    } else {
        1 + newline_at(bytes.skip(1))
    }
}

proof fn newline_is_first(bytes: Seq<u8>)
    ensures
        newline_at(bytes) <= bytes.len(),
        forall|i: int| 0 <= i < newline_at(bytes) ==> #[trigger] bytes[i] != NEWLINE,
        newline_at(bytes) < bytes.len() ==> bytes[newline_at(bytes) as int] == NEWLINE,
    decreases bytes.len(),
{
    if bytes.len() > 0 && bytes[0] != NEWLINE {
        let rest = bytes.skip(1);
        newline_is_first(rest);
        assert forall|i: int| 0 <= i < newline_at(bytes) implies #[trigger] bytes[i]
            != NEWLINE by {
            if i > 0 {
                assert(rest[i - 1] == bytes[i]);
            }
        }
        if newline_at(bytes) < bytes.len() {
            assert(bytes[newline_at(bytes) as int] == rest[newline_at(rest) as int]);
        }
    }
}

/// The bytes of a chunk that belong to the current line, its newline included.
pub open spec fn line_part(chunk: Seq<u8>) -> Seq<u8> {
    let end = newline_at(chunk) as int;
    if end < chunk.len() {
        chunk.take(end + 1)
    } else {
        chunk
    }
}

/// What is held of a line after more of it was read: nothing once it is too
/// long.
pub open spec fn held_after(held: Option<Seq<u8>>, part: Seq<u8>) -> Option<Seq<u8>> {
    match held {
        Some(line) if line.len() + part.len() <= MAX_LINE_BYTES => Some(line + part),
        _ => None,
    }
}

/// A line that has ended.
pub open spec fn ended(held: Option<Seq<u8>>) -> LineView {
    match held {
        Some(line) => LineView::Complete(line),
        None => LineView::TooLarge,
    }
}

/// Cuts input into lines without ever holding more than the longest line.
/// Oversized input is consumed through its newline, so the next message starts
/// at a clean boundary.
#[derive(Debug)]
pub struct LineReader {
    line: Vec<u8>,
    too_large: bool,
}

impl View for LineReader {
    type V = Option<Seq<u8>>;

    /// What is held of the current line; nothing once it is too long.
    closed spec fn view(&self) -> Option<Seq<u8>> {
        if self.too_large {
            None
        } else {
            Some(self.line@)
        }
    }
}

impl LineReader {
    /// At the start of a line.
    pub fn new() -> (reader: Self)
        ensures
            reader@ == Some(Seq::<u8>::empty()),
    {
        LineReader { line: Vec::new(), too_large: false }
    }

    /// Takes in the next bytes of input. Says how many of them were consumed,
    /// and the line if it ended there; then the next line begins.
    pub fn feed(&mut self, chunk: &Vec<u8>) -> (result: (usize, Option<ProtocolLine>))
        ensures
            result.0 == line_part(chunk@).len(),
            ({
                let held = held_after(old(self)@, line_part(chunk@));
                if newline_at(chunk@) < chunk@.len() {
                    &&& result.1 is Some
                    &&& result.1->0@ == ended(held)
                    &&& final(self)@ == Some(Seq::<u8>::empty())
                } else {
                    &&& result.1 is None
                    &&& final(self)@ == held
                }
            }),
    {
        let ghost all = chunk@;
        let mut end: usize = 0;
        assert(all.skip(0) =~= all);
        while end < chunk.len() && chunk[end] != NEWLINE
            invariant
                all == chunk@,
                end <= all.len(),
                newline_at(all) == end + newline_at(all.skip(end as int)),
            decreases all.len() - end,
        {
            assert(all.skip(end as int)[0] == all[end as int]);
            assert(all.skip(end as int).skip(1) =~= all.skip(end + 1));
            end += 1;
        }
        proof {
            if end < all.len() {
                assert(all.skip(end as int)[0] == all[end as int]);
            }
            assert(newline_at(all) == end);
        }
        let complete: bool = end < chunk.len();
        let consumed: usize = if complete {
            end + 1
        } else {
            end
        };
        assert(line_part(all) =~= all.take(consumed as int));
        if !self.too_large {
            if consumed > MAX_LINE_BYTES || self.line.len() > MAX_LINE_BYTES - consumed {
                self.too_large = true;
                self.line.clear();
            } else {
                let mut i: usize = 0;
                let ghost before = self.line@;
                while i < consumed
                    invariant
                        all == chunk@,
                        i <= consumed <= all.len(),
                        self.line@ == before + all.take(i as int),
                        !self.too_large,
                    decreases consumed - i,
                {
                    self.line.push(chunk[i]);
                    i += 1;
                    assert(self.line@ =~= before + all.take(i as int));
                }
            }
        }
        if !complete {
            return (consumed, None);
        }
        let ended_line = if self.too_large {
            ProtocolLine::TooLarge
        } else {
            let mut line: Vec<u8> = Vec::new();
            std::mem::swap(&mut line, &mut self.line);
            ProtocolLine::Complete(line)
        };
        self.line = Vec::new();
        self.too_large = false;
        (consumed, Some(ended_line))
    }

    /// Takes in the end of the input.
    pub fn finish(&mut self) -> (line: ProtocolLine)
        ensures
            line@ == if old(self)@ == Some(Seq::<u8>::empty()) {
                LineView::Eof
            } else {
                ended(old(self)@)
            },
            final(self)@ == Some(Seq::<u8>::empty()),
    {
        let result = if self.too_large {
            ProtocolLine::TooLarge
        } else if self.line.len() == 0 {
            assert(self.line@ =~= Seq::empty());
            ProtocolLine::Eof
        } else {
            let mut line: Vec<u8> = Vec::new();
            std::mem::swap(&mut line, &mut self.line);
            ProtocolLine::Complete(line)
        };
        self.line = Vec::new();
        self.too_large = false;
        result
    }
}

/// How input is cut into chunks does not matter to a line: reading its start and
/// its rest comes to the same as reading both at once.
pub proof fn chunking_does_not_matter(held: Option<Seq<u8>>, start: Seq<u8>, rest: Seq<u8>)
    requires
        newline_at(start) == start.len(),
    ensures
        newline_at(start + rest) == start.len() + newline_at(rest),
        line_part(start + rest) == start + line_part(rest),
        held_after(held_after(held, line_part(start)), line_part(rest)) == held_after(
            held,
            line_part(start + rest),
        ),
{
    newline_of_both(start, rest);
    newline_is_first(rest);
    let end = newline_at(rest) as int;
    if end < rest.len() {
        assert((start + rest).take(start.len() + end + 1) =~= start + rest.take(end + 1));
    }
    let part = line_part(rest);
    if held is Some {
        assert(held->0 + start + part =~= held->0 + (start + part));
    }
}

proof fn newline_of_both(start: Seq<u8>, rest: Seq<u8>)
    requires
        newline_at(start) == start.len(),
    ensures
        newline_at(start + rest) == start.len() + newline_at(rest),
    decreases start.len(),
{
    if start.len() == 0 {
        assert(start + rest =~= rest);
    } else {
        newline_is_first(start.skip(1));
        newline_of_both(start.skip(1), rest);
        assert((start + rest).skip(1) =~= start.skip(1) + rest);
    }
}

/// No more is ever held of a line than the longest line.
pub proof fn held_input_is_bounded(held: Option<Seq<u8>>, chunk: Seq<u8>)
    ensures
        held_after(held, line_part(chunk)) matches Some(line) ==> line.len() <= MAX_LINE_BYTES,
{
}

/// What serde_json reads from a text: a value, or what is wrong with it.
pub uninterp spec fn json_outcome(bytes: Seq<u8>) -> Result<serde_json::Value, Seq<char>>;

/// Reads a JSON value through `serde_json::from_slice`. Trusted: the value, or
/// what serde_json says is wrong, depends on the bytes alone and is named
/// `json_outcome`.
#[verifier::external_body]
fn read_json(bytes: &Vec<u8>) -> (result: Result<serde_json::Value, String>)
    ensures
        match result {
            Ok(value) => json_outcome(bytes@) == Ok::<serde_json::Value, Seq<char>>(value),
            Err(message) => json_outcome(bytes@) == Err::<serde_json::Value, Seq<char>>(message@),
        },
{
    serde_json::from_slice::<serde_json::Value>(bytes).map_err(|error| error.to_string())
}

/// What becomes of a line.
#[derive(Debug)]
pub enum LineOutcome {
    /// The input has ended.
    End,
    /// The line is answered at once.
    Reply { id: RequestId, error: ErrorObject },
    /// The line is a JSON value, which may be a request.
    Message(serde_json::Value),
}

/// How a line that cannot be read is answered, given what came of reading it as
/// JSON.
pub open spec fn line_fault(
    line: LineView,
    outcome: Result<serde_json::Value, Seq<char>>,
) -> Option<ErrorObjectView> {
    match line {
        LineView::Eof => None,
        LineView::TooLarge => Some(
            protocol::plain_error(
                ErrorObject::INVALID_REQUEST,
                "Request exceeds maximum line length"@,
            ),
        ),
        LineView::Complete(_) => match outcome {
            Err(detail) => Some(
                protocol::detailed_error(ErrorObject::PARSE_ERROR, "Parse error"@, detail),
            ),
            Ok(_) => None,
        },
    }
}

/// The bytes of a line.
pub open spec fn line_bytes(line: LineView) -> Seq<u8> {
    match line {
        LineView::Complete(bytes) => bytes,
        _ => Seq::empty(),
    }
}

/// Reads a line as JSON.
pub fn read_line(line: &ProtocolLine) -> (outcome: LineOutcome)
    ensures
        match outcome {
            LineOutcome::End => line@ is Eof,
            LineOutcome::Reply { id, error } => {
                &&& id@ == IdView::Null
                &&& line_fault(line@, json_outcome(line_bytes(line@))) == Some(error@)
            },
            LineOutcome::Message(value) => {
                &&& line@ is Complete
                &&& json_outcome(line_bytes(line@)) == Ok::<serde_json::Value, Seq<char>>(value)
            },
        },
{
    match line {
        ProtocolLine::Eof => LineOutcome::End,
        ProtocolLine::TooLarge => LineOutcome::Reply {
            id: RequestId::Null,
            error: ErrorObject::invalid_request("Request exceeds maximum line length"),
        },
        ProtocolLine::Complete(bytes) => match read_json(bytes) {
            Ok(value) => LineOutcome::Message(value),
            Err(message) => line_reply(message.as_str()),
        },
    }
}

/// How a line that is no JSON is answered.
pub fn line_reply(detail: &str) -> (outcome: LineOutcome)
    ensures
        outcome matches LineOutcome::Reply { id, error } && id@ == IdView::Null && error@
            == protocol::detailed_error(ErrorObject::PARSE_ERROR, "Parse error"@, detail@),
{
    LineOutcome::Reply { id: RequestId::Null, error: ErrorObject::parse_error(detail) }
}

/// How a JSON value that is no request is answered.
pub fn shape_error(detail: &str) -> (error: ErrorObject)
    ensures
        error@ == protocol::detailed_error(
            ErrorObject::INVALID_REQUEST,
            "Invalid JSON-RPC request"@,
            detail@,
        ),
{
    ErrorObject::invalid_request("Invalid JSON-RPC request").with_data(
        ErrorData::Detail(detail.to_owned()),
    )
}

/// How a JSON value that is no request is answered, and to whom: its identifier
/// cannot be recovered.
pub fn shape_reply(detail: &str) -> (outcome: LineOutcome)
    ensures
        outcome matches LineOutcome::Reply { id, error } && id@ == IdView::Null && error@
            == protocol::detailed_error(
            ErrorObject::INVALID_REQUEST,
            "Invalid JSON-RPC request"@,
            detail@,
        ),
{
    LineOutcome::Reply { id: RequestId::Null, error: shape_error(detail) }
}

/// What becomes of a request.
#[derive(Debug)]
pub enum Admission {
    /// It is answered at once.
    Reply { id: RequestId, error: ErrorObject },
    /// Nothing happens.
    Ignore,
    /// It names a request to cancel.
    Cancel,
    /// It runs.
    Start,
}

/// What an [`Admission`] says.
pub enum AdmissionView {
    Reply { id: IdView, error: ErrorObjectView },
    Ignore,
    Cancel,
    Start,
}

impl View for Admission {
    type V = AdmissionView;

    open spec fn view(&self) -> AdmissionView {
        match *self {
            Admission::Reply { id, error } => AdmissionView::Reply { id: id@, error: error@ },
            Admission::Ignore => AdmissionView::Ignore,
            Admission::Cancel => AdmissionView::Cancel,
            Admission::Start => AdmissionView::Start,
        }
    }
}

/// The requests of a connection: those that are not answered yet, and how many
/// are running.
pub struct ConnectionView {
    pub in_flight: Seq<IdView>,
    pub running: nat,
    pub limit: nat,
}

/// The admission of requests of one connection.
#[derive(Debug)]
pub struct Connection {
    in_flight: Vec<RequestId>,
    running: usize,
    limit: usize,
}

/// The identifiers of requests.
pub open spec fn ids_view(ids: Seq<RequestId>) -> Seq<IdView> {
    ids.map_values(|id: RequestId| id@)
}

impl View for Connection {
    type V = ConnectionView;

    closed spec fn view(&self) -> ConnectionView {
        ConnectionView {
            in_flight: ids_view(self.in_flight@),
            running: self.running as nat,
            limit: self.limit as nat,
        }
    }
}

/// Whether a connection is within its limits and runs no identifier twice.
pub open spec fn orderly(connection: ConnectionView) -> bool {
    &&& connection.limit >= 1
    &&& connection.running <= connection.limit
    &&& connection.in_flight.no_duplicates()
}

/// The identifier to answer to.
pub open spec fn answer_id(id: Option<RequestId>) -> IdView {
    match id {
        Some(given) => given@,
        None => IdView::Null,
    }
}

/// What becomes of a request.
pub open spec fn admission(
    connection: ConnectionView,
    jsonrpc: Seq<char>,
    id: Option<RequestId>,
    method: Seq<char>,
) -> AdmissionView {
    if jsonrpc != JSONRPC_VERSION@ || method.len() == 0 {
        AdmissionView::Reply {
            id: answer_id(id),
            error: protocol::plain_error(
                ErrorObject::INVALID_REQUEST,
                "Expected a JSON-RPC 2.0 request"@,
            ),
        }
    } else if method == "$/cancelRequest"@ {
        AdmissionView::Cancel
    } else if connection.running >= connection.limit {
        if id is Some {
            AdmissionView::Reply {
                id: id->0@,
                error: protocol::plain_error(
                    ErrorObject::SERVER_BUSY,
                    "Too many concurrent requests"@,
                ),
            }
        } else {
            AdmissionView::Ignore
        }
    } else if id is Some && connection.in_flight.contains(id->0@) {
        AdmissionView::Reply {
            id: id->0@,
            error: protocol::plain_error(
                ErrorObject::INVALID_REQUEST,
                "Request ID is already in flight"@,
            ),
        }
    } else {
        AdmissionView::Start
    }
}

/// A connection after a request has been admitted or not.
pub open spec fn after_admission(
    connection: ConnectionView,
    admitted: AdmissionView,
    id: Option<RequestId>,
) -> ConnectionView {
    if admitted is Start {
        ConnectionView {
            in_flight: match id {
                Some(given) => connection.in_flight.push(given@),
                None => connection.in_flight,
            },
            running: connection.running + 1,
            limit: connection.limit,
        }
    } else {
        connection
    }
}

/// The place of a value in a sequence, or the length if it is not there.
pub open spec fn place_of(ids: Seq<IdView>, id: IdView) -> nat
    decreases ids.len(),
{
    if ids.len() == 0 || ids[0] == id {
        0
    } else {
        1 + place_of(ids.skip(1), id)
    }
}

/// The identifiers without one of them.
pub open spec fn without(ids: Seq<IdView>, id: IdView) -> Seq<IdView> {
    let place = place_of(ids, id) as int;
    if place < ids.len() {
        ids.remove(place)
    } else {
        ids
    }
}

proof fn place_is_first(ids: Seq<IdView>, id: IdView)
    ensures
        place_of(ids, id) <= ids.len(),
        forall|i: int| 0 <= i < place_of(ids, id) ==> #[trigger] ids[i] != id,
        place_of(ids, id) < ids.len() ==> ids[place_of(ids, id) as int] == id,
        ids.contains(id) <==> place_of(ids, id) < ids.len(),
    decreases ids.len(),
{
    if ids.len() > 0 && ids[0] != id {
        let rest = ids.skip(1);
        place_is_first(rest, id);
        assert forall|i: int| 0 <= i < place_of(ids, id) implies #[trigger] ids[i] != id by {
            if i > 0 {
                assert(rest[i - 1] == ids[i]);
            }
        }
        if place_of(ids, id) < ids.len() {
            assert(ids[place_of(ids, id) as int] == rest[place_of(rest, id) as int]);
        }
        if ids.contains(id) {
            let i = choose|i: int| 0 <= i < ids.len() && ids[i] == id;
            assert(rest[i - 1] == id);
        }
    }
}

impl Connection {
    #[verifier::type_invariant]
    closed spec fn well_formed(self) -> bool {
        self.limit >= 1 && self.running <= self.limit
    }

    /// A connection that runs at most so many requests at once, at least one.
    pub fn new(max_concurrent_requests: usize) -> (connection: Self)
        ensures
            connection@ == (ConnectionView {
                in_flight: Seq::empty(),
                running: 0,
                limit: if max_concurrent_requests < 1 {
                    1
                } else {
                    max_concurrent_requests as nat
                },
            }),
    {
        let in_flight: Vec<RequestId> = Vec::new();
        assert(ids_view(in_flight@) =~= Seq::empty());
        let limit: usize = if max_concurrent_requests < 1 {
            1
        } else {
            max_concurrent_requests
        };
        Connection { in_flight, running: 0, limit }
    }

    fn find(&self, id: &RequestId) -> (place: usize)
        ensures
            place == place_of(self@.in_flight, id@),
            place <= self.in_flight@.len(),
    {
        let ghost all = ids_view(self.in_flight@);
        let mut i: usize = 0;
        assert(all.skip(0) =~= all);
        assert(all.len() == self.in_flight@.len());
        while i < self.in_flight.len() && !self.in_flight[i].is_same(id)
            invariant
                all == ids_view(self.in_flight@),
                all.len() == self.in_flight@.len(),
                i <= all.len(),
                place_of(all, id@) == i + place_of(all.skip(i as int), id@),
            decreases all.len() - i,
        {
            assert(all.skip(i as int)[0] == self.in_flight@[i as int]@);
            assert(all.skip(i as int).skip(1) =~= all.skip(i + 1));
            i += 1;
        }
        proof {
            if i < all.len() {
                assert(all.skip(i as int)[0] == self.in_flight@[i as int]@);
            }
        }
        i
    }

    /// Decides what becomes of a request.
    pub fn receive(&mut self, request: &Request) -> (result: Admission)
        ensures
            result@ == admission(old(self)@, request.jsonrpc@, request.id, request.method@),
            final(self)@ == after_admission(old(self)@, result@, request.id),
    {
        proof {
            use_type_invariant(&*self);
        }
        if !text_eq(request.jsonrpc.as_str(), JSONRPC_VERSION) || request.method.as_str().is_empty() {
            let id = match &request.id {
                Some(id) => id.clone(),
                None => RequestId::Null,
            };
            return Admission::Reply {
                id,
                error: ErrorObject::invalid_request("Expected a JSON-RPC 2.0 request"),
            };
        }
        if text_eq(request.method.as_str(), "$/cancelRequest") {
            return Admission::Cancel;
        }
        if self.running >= self.limit {
            return match &request.id {
                Some(id) => Admission::Reply {
                    id: id.clone(),
                    error: ErrorObject::new(
                        ErrorObject::SERVER_BUSY,
                        "Too many concurrent requests".to_owned(),
                    ),
                },
                None => Admission::Ignore,
            };
        }
        if let Some(id) = &request.id {
            let place: usize = self.find(id);
            proof {
                place_is_first(self@.in_flight, id@);
                assert(self@.in_flight.len() == self.in_flight@.len());
            }
            if place < self.in_flight.len() {
                return Admission::Reply {
                    id: id.clone(),
                    error: ErrorObject::invalid_request("Request ID is already in flight"),
                };
            }
            let ghost before = self.in_flight@;
            let mut in_flight: Vec<RequestId> = Vec::new();
            std::mem::swap(&mut in_flight, &mut self.in_flight);
            let copy = id.clone();
            in_flight.push(copy);
            self.in_flight = in_flight;
            assert(ids_view(self.in_flight@) =~= ids_view(before).push(id@));
        }
        self.running = self.running + 1;
        Admission::Start
    }

    /// Whether a request can be cancelled: it is not answered yet.
    pub fn can_cancel(&self, id: &RequestId) -> (result: bool)
        ensures
            result == self@.in_flight.contains(id@),
    {
        let place: usize = self.find(id);
        proof {
            place_is_first(self@.in_flight, id@);
            assert(self@.in_flight.len() == self.in_flight@.len());
        }
        place < self.in_flight.len()
    }

    /// Takes in that a request no longer runs; its answer may still be written.
    pub fn release(&mut self)
        ensures
            final(self)@ == (ConnectionView {
                running: if old(self)@.running > 0 {
                    (old(self)@.running - 1) as nat
                } else {
                    0
                },
                ..old(self)@
            }),
    {
        proof {
            use_type_invariant(&*self);
        }
        if self.running > 0 {
            self.running = self.running - 1;
        }
    }

    /// Takes in that a request has been answered.
    pub fn answered(&mut self, id: &RequestId)
        ensures
            final(self)@ == (ConnectionView {
                in_flight: without(old(self)@.in_flight, id@),
                ..old(self)@
            }),
    {
        proof {
            use_type_invariant(&*self);
        }
        let place: usize = self.find(id);
        let ghost before = self.in_flight@;
        assert(self@.in_flight.len() == self.in_flight@.len());
        if place < self.in_flight.len() {
            let mut in_flight: Vec<RequestId> = Vec::new();
            std::mem::swap(&mut in_flight, &mut self.in_flight);
            let _ = in_flight.remove(place);
            self.in_flight = in_flight;
            assert(ids_view(self.in_flight@) =~= ids_view(before).remove(place as int));
        }
    }
}

/// A connection starts orderly and stays so whatever is asked of it.
pub proof fn connections_stay_orderly(
    connection: ConnectionView,
    jsonrpc: Seq<char>,
    id: Option<RequestId>,
    method: Seq<char>,
    done: IdView,
)
    requires
        orderly(connection),
    ensures
        orderly(
            after_admission(connection, admission(connection, jsonrpc, id, method), id),
        ),
        orderly(
            ConnectionView {
                running: if connection.running > 0 {
                    (connection.running - 1) as nat
                } else {
                    0
                },
                ..connection
            },
        ),
        orderly(
            ConnectionView { in_flight: without(connection.in_flight, done), ..connection },
        ),
{
    place_is_first(connection.in_flight, done);
}

/// A request without an identifier is never answered unless it is malformed.
pub proof fn notifications_are_not_answered(
    connection: ConnectionView,
    method: Seq<char>,
)
    requires
        method.len() > 0,
    ensures
        admission(connection, JSONRPC_VERSION@, None, method) !is Reply,
{
}

/// An identifier can be used again once its request has been answered.
pub proof fn answered_identifiers_are_free(connection: ConnectionView, id: IdView)
    requires
        orderly(connection),
    ensures
        !without(connection.in_flight, id).contains(id),
{
    place_is_first(connection.in_flight, id);
    let ids = connection.in_flight;
    let rest = without(ids, id);
    if rest.contains(id) {
        let i = choose|i: int| 0 <= i < rest.len() && rest[i] == id;
        let place = place_of(ids, id) as int;
        if place < ids.len() {
            if i < place {
                assert(ids[i] == id);
            } else {
                assert(ids[i + 1] == id);
                assert(ids[place] == id);
            }
        }
    }
}

/// Something that happens on a connection.
pub enum ConnectionEvent {
    /// A line that is no request was answered.
    Unreadable,
    /// A request was received.
    Received { jsonrpc: Seq<char>, id: Option<RequestId>, method: Seq<char> },
    /// A request no longer runs.
    Released,
    /// A request was answered with what came of it.
    Answered(IdView),
}

/// A connection without requests.
pub open spec fn fresh_connection(limit: nat) -> ConnectionView {
    ConnectionView { in_flight: Seq::empty(), running: 0, limit }
}

/// A connection after an event.
pub open spec fn after_event(connection: ConnectionView, event: ConnectionEvent) -> ConnectionView {
    match event {
        ConnectionEvent::Unreadable => connection,
        ConnectionEvent::Received { jsonrpc, id, method } => after_admission(
            connection,
            admission(connection, jsonrpc, id, method),
            id,
        ),
        ConnectionEvent::Released => ConnectionView {
            running: if connection.running > 0 {
                (connection.running - 1) as nat
            } else {
                0
            },
            ..connection
        },
        ConnectionEvent::Answered(id) => ConnectionView {
            in_flight: without(connection.in_flight, id),
            ..connection
        },
    }
}

/// A connection after a run of events.
pub open spec fn after_events(limit: nat, events: Seq<ConnectionEvent>) -> ConnectionView
    decreases events.len(),
{
    if events.len() == 0 {
        fresh_connection(limit)
    } else {
        after_event(after_events(limit, events.drop_last()), events.last())
    }
}

/// Whether only requests that were admitted and not answered yet are answered.
pub open spec fn possible(limit: nat, events: Seq<ConnectionEvent>) -> bool
    decreases events.len(),
{
    events.len() == 0 || {
        &&& possible(limit, events.drop_last())
        &&& events.last() matches ConnectionEvent::Answered(id) ==> after_events(
            limit,
            events.drop_last(),
        ).in_flight.contains(id)
    }
}

/// Whom a response is owed on account of an event, if anyone: the sender of a
/// line that is no request, of a malformed request, and of a request with an
/// identifier that does not itself cancel one.
pub open spec fn owed_to(event: ConnectionEvent) -> Option<IdView> {
    match event {
        ConnectionEvent::Unreadable => Some(IdView::Null),
        ConnectionEvent::Received { jsonrpc, id, method } => if jsonrpc != JSONRPC_VERSION@
            || method.len() == 0 {
            Some(answer_id(id))
        } else if method == "$/cancelRequest"@ {
            None
        } else {
            match id {
                Some(given) => Some(given@),
                None => None,
            }
        },
        _ => None,
    }
}

/// Whom an event sends a response, if anyone.
pub open spec fn response_to(connection: ConnectionView, event: ConnectionEvent) -> Option<
    IdView,
> {
    match event {
        ConnectionEvent::Unreadable => Some(IdView::Null),
        ConnectionEvent::Received { jsonrpc, id, method } => match admission(
            connection,
            jsonrpc,
            id,
            method,
        ) {
            AdmissionView::Reply { id: answered, .. } => Some(answered),
            _ => None,
        },
        ConnectionEvent::Released => None,
        ConnectionEvent::Answered(id) => Some(id),
    }
}

/// The number of responses that are owed to an identifier.
pub open spec fn owed(events: Seq<ConnectionEvent>, id: IdView) -> nat
    decreases events.len(),
{
    if events.len() == 0 {
        0
    } else if owed_to(events.last()) == Some(id) {
        owed(events.drop_last(), id) + 1
    } else {
        owed(events.drop_last(), id)
    }
}

/// The number of responses that are sent to an identifier.
pub open spec fn sent(limit: nat, events: Seq<ConnectionEvent>, id: IdView) -> nat
    decreases events.len(),
{
    if events.len() == 0 {
        0
    } else {
        let earlier = sent(limit, events.drop_last(), id);
        if response_to(after_events(limit, events.drop_last()), events.last()) == Some(id) {
            earlier + 1
        } else {
            earlier
        }
    }
}

proof fn others_stay(ids: Seq<IdView>, gone: IdView)
    requires
        ids.no_duplicates(),
    ensures
        without(ids, gone).no_duplicates(),
        forall|id: IdView| #[trigger]
            without(ids, gone).contains(id) <==> ids.contains(id) && id != gone,
{
    place_is_first(ids, gone);
    let place = place_of(ids, gone) as int;
    let rest = without(ids, gone);
    assert forall|id: IdView| #[trigger] rest.contains(id) <==> ids.contains(id) && id != gone by {
        if rest.contains(id) {
            let i = choose|i: int| 0 <= i < rest.len() && rest[i] == id;
            if place < ids.len() && i >= place {
                assert(ids[i + 1] == id);
            } else {
                assert(ids[i] == id);
            }
        }
        if ids.contains(id) && id != gone {
            let i = choose|i: int| 0 <= i < ids.len() && ids[i] == id;
            if place < ids.len() && i > place {
                assert(rest[i - 1] == id);
            } else {
                assert(rest[i] == id);
            }
        }
    }
}

/// Over any run of a connection, every identifier has been sent exactly the
/// responses that are owed to it, but for the one that a request in flight still
/// waits for. So once nothing is in flight, every line that calls for a response
/// has got exactly one, under its own identifier, and no other line has got any.
pub proof fn every_request_is_answered_once(
    limit: nat,
    events: Seq<ConnectionEvent>,
    id: IdView,
)
    requires
        limit >= 1,
        possible(limit, events),
    ensures
        orderly(after_events(limit, events)),
        sent(limit, events, id) + (if after_events(limit, events).in_flight.contains(id) {
            1nat
        } else {
            0nat
        }) == owed(events, id),
        after_events(limit, events).in_flight.len() == 0 ==> sent(limit, events, id) == owed(
            events,
            id,
        ),
    decreases events.len(),
{
    if events.len() > 0 {
        let before = events.drop_last();
        let event = events.last();
        every_request_is_answered_once(limit, before, id);
        let connection = after_events(limit, before);
        let next = after_event(connection, event);
        match event {
            ConnectionEvent::Received { jsonrpc, id: given, method } => {
                let admitted = admission(connection, jsonrpc, given, method);
                if admitted is Start && given is Some {
                    let longer = connection.in_flight.push(given->0@);
                    assert(next.in_flight == longer);
                    assert(longer[longer.len() - 1] == given->0@);
                    assert(longer.contains(id) <==> connection.in_flight.contains(id) || id
                        == given->0@) by {
                        if connection.in_flight.contains(id) {
                            let i = choose|i: int|
                                0 <= i < connection.in_flight.len() && connection.in_flight[i]
                                    == id;
                            assert(longer[i] == id);
                        }
                        if longer.contains(id) && id != given->0@ {
                            let i = choose|i: int| 0 <= i < longer.len() && longer[i] == id;
                            assert(connection.in_flight[i] == id);
                        }
                    }
                }
            },
            ConnectionEvent::Answered(done) => {
                others_stay(connection.in_flight, done);
            },
            _ => {},
        }
    }
}

/// A response to a request that has run.
#[derive(Debug)]
pub enum Answer {
    Success { id: RequestId, result: serde_json::Value },
    Failure { id: RequestId, error: ErrorObject },
}

/// The response to a request that has run, given what came of it. There is none
/// to a notification.
pub fn answer_to(id: Option<RequestId>, outcome: Result<serde_json::Value, ErrorObject>) -> (answer:
    Option<Answer>)
    ensures
        match (id, outcome) {
            (None, _) => answer is None,
            (Some(given), Ok(value)) => answer == Some(Answer::Success { id: given, result: value }),
            (Some(given), Err(fault)) => answer == Some(
                Answer::Failure { id: given, error: fault },
            ),
        },
{
    match id {
        None => None,
        Some(id) => Some(
            match outcome {
                Ok(result) => Answer::Success { id, result },
                Err(error) => Answer::Failure { id, error },
            },
        ),
    }
}

/// What a connection does once its input has ended.
#[derive(Clone, Copy, Debug, PartialEq, Eq, Structural)]
pub enum ShutdownStep {
    /// Let the requests that run go on.
    Wait,
    /// Cancel them all and wait for them to end.
    CancelAll,
    /// Nothing runs any more.
    Done,
}

/// What to do with the requests that run once the input has ended. The end
/// commonly follows a one-shot request, so admitted work may finish; only after
/// the grace period is it cancelled.
pub fn shutdown_step(running: usize, grace_passed: bool) -> (step: ShutdownStep)
    ensures
        step == if running == 0 {
            ShutdownStep::Done
        } else if grace_passed {
            ShutdownStep::CancelAll
        } else {
            ShutdownStep::Wait
        },
{
    if running == 0 {
        ShutdownStep::Done
    } else if grace_passed {
        ShutdownStep::CancelAll
    } else {
        ShutdownStep::Wait
    }
}

/// What a cancelled request is answered: its result if it still came to one
/// within the grace period, and else that it was cancelled. `finished` is what
/// came of it, if it finished.
pub fn settle_cancelled<T>(finished: Option<Result<T, ErrorObject>>) -> (answer: Result<
    T,
    ErrorObject,
>)
    ensures
        match finished {
            Some(Ok(result)) => answer == Ok::<T, ErrorObject>(result),
            _ => answer is Err && answer->Err_0@ == protocol::cancelled_error(),
        },
{
    match finished {
        Some(Ok(result)) => Ok(result),
        _ => Err(ErrorObject::cancelled()),
    }
}

} // verus!
