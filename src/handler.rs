//! The endpoint's handlers and the stage that turns every failure into a
//! JSON error envelope.
use vstd::prelude::*;
use crate::body::{
    Cell, ErrorBody, QueryRequest, QueryResponse, cell_known, cell_text, envelope_frame,
    envelope_text, joined, real_text, response_known, response_plain, response_text, row_text,
};
use crate::json::{decimal, in_quotes, json_quoted, plain, quotes_known};

verus! {

/// A reply as it leaves the process: an HTTP status and a body.
pub struct Reply {
    pub status: u16,
    pub body: String,
}

impl View for Reply {
    type V = (u16, Seq<char>);

    open spec fn view(&self) -> (u16, Seq<char>) {
        (self.status, self.body@)
    }
}

pub open spec fn request_view(request: Result<QueryRequest, String>) -> Result<Seq<char>, Seq<char>> {
    match request {
        Ok(q) => Ok(q@),
        Err(m) => Err(m@),
    }
}

pub open spec fn outcome_view(outcome: Result<Reply, ErrorBody>) -> Result<
    (u16, Seq<char>),
    (u16, Seq<char>),
> {
    match outcome {
        Ok(r) => Ok(r@),
        Err(e) => Err(e@),
    }
}

/// The body of every successful query.
pub open spec fn sample_body() -> Seq<char> {
    "{\"headers\":[\"foo\",\"bar\"],\"data\":[[1.0,\"choice\"]]}"@
}

/// The plain-text body sent where an envelope cannot be written.
pub open spec fn envelope_failure_message() -> Seq<char> {
    "Error while serializing error message"@
}

pub open spec fn response_failure_message() -> Seq<char> {
    "Error while serializing response"@
}

pub open spec fn teapot_message() -> Seq<char> {
    "Error Test: I am a teapot"@
}

/// The reply that the error-translating stage makes of an outcome: a
/// success passes as it is; a failure becomes its envelope under its own
/// status, or a 500 where the envelope cannot be written.
pub open spec fn translated(outcome: Result<(u16, Seq<char>), (u16, Seq<char>)>) -> (u16, Seq<char>) {
    match outcome {
        Ok(r) => r,
        Err((status, message)) => match envelope_text(status, message) {
            Some(t) => (status, t),
            None => (500u16, envelope_failure_message()),
        },
    }
}

/// What the query handler makes of a decoded body, or of the decoder's
/// message where decoding failed.
pub open spec fn query_outcome(request: Result<Seq<char>, Seq<char>>) -> Result<
    (u16, Seq<char>),
    (u16, Seq<char>),
> {
    match request {
        Ok(_) => Ok((200u16, sample_body())),
        Err(m) => Err((400u16, m)),
    }
}

/// The reply to a query request.
pub open spec fn query_reply(request: Result<Seq<char>, Seq<char>>) -> (u16, Seq<char>) {
    translated(query_outcome(request))
}

/// The demonstration table: columns `foo` and `bar`, one row `[1.0, "choice"]`.
pub open spec fn is_sample(r: QueryResponse) -> bool {
    &&& r.headers@.len() == 2
    &&& r.headers@[0]@ == "foo"@
    &&& r.headers@[1]@ == "bar"@
    &&& r.data@.len() == 1
    &&& r.data@[0]@.len() == 2
    &&& r.data@[0]@[0] == Cell::Real(1)
    &&& match r.data@[0]@[1] {
        Cell::Text(s) => s@ == "choice"@,
        _ => false,
    }
}

/// The demonstration table that every successful query gets.
pub fn sample_response() -> (r: QueryResponse)
    ensures
        is_sample(r),
{
    let foo = String::from_str("foo");
    let bar = String::from_str("bar");
    let choice = String::from_str("choice");
    let headers = vec![foo, bar];
    let row = vec![Cell::Real(1), Cell::Text(choice)];
    assert(row@[1] == Cell::Text(choice));
    let r = QueryResponse { headers, data: vec![row] };
    assert(r.data@[0]@[1] == Cell::Text(choice));
    assert(r.headers@[0]@ == "foo"@);
    r
}

proof fn lemma_sample_text(r: QueryResponse)
    requires
        is_sample(r),
        response_known(r),
    ensures
        response_text(r) == Some(sample_body()),
{
    reveal_strlit("foo");
    reveal_strlit("bar");
    reveal_strlit("choice");
    reveal_strlit("{\"headers\":");
    reveal_strlit(",\"data\":");
    reveal_strlit("}");
    reveal_strlit("{\"headers\":[\"foo\",\"bar\"],\"data\":[[1.0,\"choice\"]]}");
    assert(plain(r.headers@[0]@));
    assert(plain(r.headers@[1]@));
    assert(quotes_known(r.headers@[0]@));
    assert(quotes_known(r.headers@[1]@));
    assert(cell_known(r.data@[0]@[1]));
    assert(quotes_known("choice"@));
    assert(decimal(1) == seq!['1']);
    let hs = r.headers@.map_values(|h: String| json_quoted(h@));
    assert(hs.drop_last() =~= seq![hs[0]]);
    assert(hs[0] == Some(in_quotes("foo"@)));
    assert(hs[1] == Some(in_quotes("bar"@)));
    reveal_with_fuel(joined, 2);
    assert(joined(hs) == Some(in_quotes("foo"@) + seq![','] + in_quotes("bar"@)));
    let cs = r.data@[0]@.map_values(|c: Cell| cell_text(c));
    assert(cs.drop_last() =~= seq![cs[0]]);
    assert(cs[0] == Some(real_text(1)));
    assert(real_text(1) =~= seq!['1', '.', '0']);
    assert(cs[1] == Some(in_quotes("choice"@)));
    assert(joined(cs) == Some(seq!['1', '.', '0'] + seq![','] + in_quotes("choice"@)));
    let rs = r.data@.map_values(|w: Vec<Cell>| row_text(w@));
    assert(rs[0] == row_text(r.data@[0]@));
    assert(joined(rs) == rs[0]);
    assert(response_text(r)->Some_0 =~= sample_body());
}

/// The query handler: a decoded request gets the demonstration table with
/// status 200; a body that did not decode gets a 400 failure with the
/// decoder's message.
pub fn sample_data(request: Result<QueryRequest, String>) -> (r: Result<Reply, ErrorBody>)
    ensures
        outcome_view(r) == query_outcome(request_view(request)),
{
    match request {
        Err(message) => Err(ErrorBody::with_status(400, message)),
        Ok(_) => {
            let table = sample_response();
            assert(response_plain(table)) by {
                reveal_strlit("foo");
                reveal_strlit("bar");
                reveal_strlit("choice");
            }
            match table.to_json() {
                Some(body) => {
                    proof { lemma_sample_text(table); }
                    Ok(Reply { status: 200, body })
                },
                None => Err(ErrorBody::new(String::from_str("Error while serializing response"))),
            }
        },
    }
}

/// A handler that always fails, with status 418.
pub fn test_error() -> (r: Result<Reply, ErrorBody>)
    ensures
        outcome_view(r) == Err::<(u16, Seq<char>), (u16, Seq<char>)>((418u16, teapot_message())),
{
    Err(ErrorBody::with_status(418, String::from_str("Error Test: I am a teapot")))
}

/// The error-translating stage: a success passes as it is; a failure is
/// written as its JSON envelope under its own status, or, where that cannot
/// be written, as a plain 500.
pub fn pretty_error_middleware(outcome: Result<Reply, ErrorBody>) -> (r: Reply)
    ensures
        r@ == translated(outcome_view(outcome)),
        outcome is Err ==> quotes_known(outcome->Err_0.message@),
{
    match outcome {
        Ok(reply) => reply,
        Err(e) => match e.to_json() {
            Some(body) => Reply { status: e.status, body },
            None => Reply {
                status: 500,
                body: String::from_str("Error while serializing error message"),
            },
        },
    }
}

/// The body of the teapot failure's envelope.
pub open spec fn teapot_body() -> Seq<char> {
    "{\"status\":418,\"message\":\"Error Test: I am a teapot\"}"@
}

impl QueryResponse {
    /// This table as a reply: its JSON object with status 200, or an empty
    /// 500 where it has none.
    pub fn into_reply(&self) -> (r: Reply)
        ensures
            match response_text(*self) {
                Some(t) => r@ == (200u16, t),
                None => r@ == (500u16, Seq::<char>::empty()),
            },
    {
        match self.to_json() {
            Some(body) => Reply { status: 200, body },
            None => Reply { status: 500, body: String::new() },
        }
    }
}

/// Answers a query request, given its decoded body or the decoder's message.
pub fn handle_query(request: Result<QueryRequest, String>) -> (r: Reply)
    ensures
        r@ == query_reply(request_view(request)),
        request is Ok ==> r@ == (200u16, sample_body()),
        request is Err && plain(request->Err_0@) ==> r@ == (
            400u16,
            envelope_frame(decimal(400), in_quotes(request->Err_0@)),
        ),
{
    let outcome = sample_data(request);
    pretty_error_middleware(outcome)
}

/// Answers the auxiliary route, which always fails with the teapot status.
pub fn handle_error_test() -> (r: Reply)
    ensures
        r@ == translated(Err((418u16, teapot_message()))),
        r@ == (418u16, teapot_body()),
{
    let outcome = test_error();
    let r = pretty_error_middleware(outcome);
    proof {
        reveal_strlit("Error Test: I am a teapot");
        reveal_strlit("{\"status\":");
        reveal_strlit(",\"message\":");
        reveal_strlit("}");
        reveal_strlit("{\"status\":418,\"message\":\"Error Test: I am a teapot\"}");
        assert(plain(teapot_message()));
        reveal_with_fuel(decimal, 3);
        assert(decimal(418) =~= seq!['4', '1', '8']);
        assert(envelope_frame(decimal(418), in_quotes(teapot_message())) =~= teapot_body());
    }
    r
}

/// Every well-formed request, whatever its query, is answered with status
/// 200 and the demonstration table.
pub proof fn lemma_valid_request_succeeds(query: Seq<char>)
    ensures
        query_reply(Ok(query)) == (200u16, sample_body()),
{
}

/// A body that did not decode is answered with status 400 and an envelope
/// that holds status 400 and the decoder's message, wherever that message
/// can be written as a JSON string.
pub proof fn lemma_invalid_request_rejected(message: Seq<char>)
    requires
        json_quoted(message) is Some,
    ensures
        query_reply(Err(message)).0 == 400,
        query_reply(Err(message)).1 == "{\"status\":400,\"message\":"@ + json_quoted(message)->Some_0
            + "}"@,
{
    reveal_strlit("{\"status\":");
    reveal_strlit("{\"status\":400,\"message\":");
    reveal_strlit(",\"message\":");
    reveal_with_fuel(decimal, 3);
    assert(decimal(400) =~= seq!['4', '0', '0']);
    assert(query_reply(Err(message)).1 =~= "{\"status\":400,\"message\":"@ + json_quoted(message)->Some_0
        + "}"@);
}

/// The reply to a well-formed request does not depend on the query or on
/// earlier requests: any two are equal.
pub proof fn lemma_success_idempotent(first: Seq<char>, second: Seq<char>)
    ensures
        query_reply(Ok(first)) == query_reply(Ok(second)),
{
}

} // verus!
