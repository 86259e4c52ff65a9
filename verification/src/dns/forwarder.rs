//! The way to a plain upstream server: over UDP and, where that fails, over TCP.

use crate::dns::message::{self, codec_problem, decoded_head, rewritten, HeadView, MessageHead};
use std::collections::VecDeque;
use vstd::prelude::*;

verus! {

broadcast use vstd::string::group_string_axioms;

/// Why an upstream server gave no answer.
#[derive(Debug)]
pub enum ForwardError {
    /// The query could not be written.
    Encode(String),
    /// The response could not be read.
    Decode(String),
    /// The network failed.
    Io(String),
    /// The time was over.
    Timeout,
    /// The encrypted connection failed.
    Dot(String),
    /// The forwarder was not started.
    NotInitialized,
    /// The response is for another question.
    ResponseMismatch,
}

impl ForwardError {
    /// The error as people read it.
    pub open spec fn text(self) -> Seq<char> {
        match self {
            ForwardError::Encode(m) => "Query encoding failed: "@ + m@,
            ForwardError::Decode(m) => "Response decoding failed: "@ + m@,
            ForwardError::Io(m) => "I/O error: "@ + m@,
            ForwardError::Timeout => "Timeout"@,
            ForwardError::Dot(m) => "DoT error: "@ + m@,
            ForwardError::NotInitialized => "Forwarder not initialized"@,
            ForwardError::ResponseMismatch => "Response question does not match query"@,
        }
    }

    /// The error as a line for people.
    pub fn message(&self) -> (r: String)
        ensures
            r@ == self.text(),
    {
        match self {
            ForwardError::Encode(m) => {
                let mut s = "Query encoding failed: ".to_owned();
                s.append(m.as_str());
                s
            },
            ForwardError::Decode(m) => {
                let mut s = "Response decoding failed: ".to_owned();
                s.append(m.as_str());
                s
            },
            ForwardError::Io(m) => {
                let mut s = "I/O error: ".to_owned();
                s.append(m.as_str());
                s
            },
            ForwardError::Timeout => "Timeout".to_owned(),
            ForwardError::Dot(m) => {
                let mut s = "DoT error: ".to_owned();
                s.append(m.as_str());
                s
            },
            ForwardError::NotInitialized => "Forwarder not initialized".to_owned(),
            ForwardError::ResponseMismatch => "Response question does not match query".to_owned(),
        }
    }
}

/// Sockets that are not in use. A socket serves one query at a time, so that the answers to two
/// queries cannot be mixed up.
pub struct SocketPool<S> {
    idle: VecDeque<S>,
}

impl<S> View for SocketPool<S> {
    type V = Seq<S>;

    closed spec fn view(&self) -> Seq<S> {
        self.idle@
    }
}

impl<S> SocketPool<S> {
    /// A pool without sockets.
    pub fn new() -> (r: SocketPool<S>)
        ensures
            r@ == Seq::<S>::empty(),
    {
        SocketPool { idle: VecDeque::new() }
    }

    /// Takes the socket that has been idle for longest; none where none is idle.
    pub fn acquire(&mut self) -> (r: Option<S>)
        ensures
            match r {
                Some(s) => old(self)@.len() > 0 && s == old(self)@[0] && final(self)@
                    == old(self)@.subrange(1, old(self)@.len() as int),
                None => old(self)@.len() == 0 && final(self)@ == old(self)@,
            },
    {
        self.idle.pop_front()
    }

    /// Gives a socket back.
    pub fn release(&mut self, socket: S)
        ensures
            final(self)@ == old(self)@.push(socket),
    {
        self.idle.push_back(socket);
    }
}

/// Whether the response says that it was cut down.
pub fn response_has_tc(response: &MessageHead) -> (r: bool)
    ensures
        r == response@.truncated,
{
    response.truncated
}

/// The byte as a small letter, where it is a capital one.
pub open spec fn small(b: u8) -> u8 {
    if 65 <= b <= 90 {
        (b + 32) as u8
    } else {
        b
    }
}

/// The labels are the same but for the case of their letters.
pub open spec fn same_label(a: Seq<u8>, b: Seq<u8>) -> bool {
    &&& a.len() == b.len()
    &&& forall|i: int| 0 <= i < a.len() ==> small(#[trigger] a[i]) == small(b[i])
}

/// The names are the same but for the case of their letters.
pub open spec fn same_name(a: Seq<Seq<u8>>, b: Seq<Seq<u8>>) -> bool {
    &&& a.len() == b.len()
    &&& forall|i: int| 0 <= i < a.len() ==> same_label(#[trigger] a[i], b[i])
}

/// Both have a question, and the first ones ask for the same name and type.
pub open spec fn answers_question(query: HeadView, response: HeadView) -> bool {
    &&& query.questions.len() > 0
    &&& response.questions.len() > 0
    &&& same_name(query.questions[0].name, response.questions[0].name)
    &&& query.questions[0].qtype == response.questions[0].qtype
}

fn to_small(b: u8) -> (r: u8)
    ensures
        r == small(b),
{
    if 65 <= b && b <= 90 {
        b + 32
    } else {
        b
    }
}

fn is_same_label(a: &Vec<u8>, b: &Vec<u8>) -> (r: bool)
    ensures
        r == same_label(a@, b@),
{
    if a.len() != b.len() {
        return false;
    }
    let mut i: usize = 0;
    while i < a.len()
        invariant
            i <= a@.len(),
            a@.len() == b@.len(),
            forall|k: int| 0 <= k < i ==> small(#[trigger] a@[k]) == small(b@[k]),
        decreases a@.len() - i,
    {
        if to_small(a[i]) != to_small(b[i]) {
            return false;
        }
        i += 1;
    }
    true
}

fn is_same_name(a: &Vec<Vec<u8>>, b: &Vec<Vec<u8>>) -> (r: bool)
    ensures
        r == same_name(message::labels(a@), message::labels(b@)),
{
    if a.len() != b.len() {
        return false;
    }
    let ghost x = message::labels(a@);
    let ghost y = message::labels(b@);
    let mut i: usize = 0;
    while i < a.len()
        invariant
            i <= a@.len(),
            a@.len() == b@.len(),
            x == message::labels(a@),
            y == message::labels(b@),
            forall|k: int| 0 <= k < i ==> same_label(#[trigger] x[k], y[k]),
        decreases a@.len() - i,
    {
        if !is_same_label(&a[i], &b[i]) {
            assert(!same_label(x[i as int], y[i as int]));
            return false;
        }
        i += 1;
    }
    true
}

/// Holds a response against its query: the first questions must ask for the same name and type, so
/// that an answer to another query is neither cached nor handed on.
pub fn validate_response_question(
    query: &MessageHead,
    response: &MessageHead,
) -> (r: Result<(), ForwardError>)
    ensures
        match r {
            Ok(_) => answers_question(query@, response@),
            Err(e) => !answers_question(query@, response@) && e is ResponseMismatch,
        },
{
    assert(query@.questions.len() == query.questions@.len());
    assert(response@.questions.len() == response.questions@.len());
    if query.questions.len() == 0 || response.questions.len() == 0 {
        return Err(ForwardError::ResponseMismatch);
    }
    assert(query@.questions[0] == query.questions@[0]@);
    assert(response@.questions[0] == response.questions@[0]@);
    if !is_same_name(&query.questions[0].name, &response.questions[0].name)
        || query.questions[0].qtype != response.questions[0].qtype {
        return Err(ForwardError::ResponseMismatch);
    }
    Ok(())
}

/// The query in the form in which it is sent.
pub fn outgoing_query(query: &[u8]) -> (r: Result<Vec<u8>, ForwardError>)
    ensures
        match r {
            Ok(b) => rewritten(query@) == Some(b@),
            Err(e) => rewritten(query@) is None && (e matches ForwardError::Encode(m)
                && codec_problem(query@) == m@),
        },
{
    match message::rewrite(query) {
        Some(b) => Ok(b),
        None => Err(ForwardError::Encode(message::codec_error(query))),
    }
}

/// The response is a message.
pub open spec fn readable(response: Seq<u8>) -> bool {
    decoded_head(response) is Some
}

/// Whether a response over UDP is taken as it is. Where it is missing, cannot be read or was cut
/// down, the query is sent again over TCP.
pub fn udp_response_suffices(response: Option<&[u8]>) -> (r: bool)
    ensures
        r == (response matches Some(d) && readable(d@) && !decoded_head(d@)->0.truncated),
{
    match response {
        None => false,
        Some(d) => match message::decode_head(d) {
            None => false,
            Some(head) => !response_has_tc(&head),
        },
    }
}

/// Takes the response to a query: it must be a message that answers the query's question.
pub fn accept_response(query: &[u8], response: &[u8]) -> (r: Result<(), ForwardError>)
    ensures
        match r {
            Ok(_) => readable(query@) && readable(response@) && answers_question(
                decoded_head(query@)->0,
                decoded_head(response@)->0,
            ),
            Err(ForwardError::Decode(m)) => !readable(response@) && codec_problem(response@)
                == m@,
            Err(e) => readable(response@) && e is ResponseMismatch && !(readable(query@)
                && answers_question(decoded_head(query@)->0, decoded_head(response@)->0)),
        },
{
    match message::decode_head(response) {
        None => Err(ForwardError::Decode(message::codec_error(response))),
        Some(answer) => match message::decode_head(query) {
            None => Err(ForwardError::ResponseMismatch),
            Some(asked) => validate_response_question(&asked, &answer),
        },
    }
}

/// Names that are equal label by label match, and matching does not depend on which name comes
/// first.
pub proof fn law_names_match_in_both_directions(a: Seq<Seq<u8>>, b: Seq<Seq<u8>>)
    ensures
        same_name(a, a),
        same_name(a, b) == same_name(b, a),
{
    assert forall|x: Seq<u8>, y: Seq<u8>| same_label(x, y) implies same_label(y, x) by {
        assert forall|i: int| 0 <= i < y.len() implies small(#[trigger] y[i]) == small(x[i]) by {
            assert(small(x[i]) == small(y[i]));
        }
    }
    if same_name(a, b) {
        assert forall|i: int| 0 <= i < b.len() implies same_label(#[trigger] b[i], a[i]) by {
            assert(same_label(a[i], b[i]));
        }
    }
    if same_name(b, a) {
        assert forall|i: int| 0 <= i < a.len() implies same_label(#[trigger] a[i], b[i]) by {
            assert(same_label(b[i], a[i]));
        }
    }
}

/// Two bytes are the same but for the case of a letter.
pub open spec fn same_but_for_case(x: u8, y: u8) -> bool {
    ||| x == y
    ||| 65 <= x <= 90 && y == x + 32
    ||| 65 <= y <= 90 && x == y + 32
}

/// A response answers a query exactly where both have a question and the first ones ask for the same:
/// the same type, and names of the same labels, byte by byte the same but for the case of letters.
pub proof fn law_answers_are_to_the_same_question(query: HeadView, response: HeadView)
    ensures
        answers_question(query, response) <==> {
            let (q, r) = (query.questions[0], response.questions[0]);
            &&& query.questions.len() > 0 && response.questions.len() > 0
            &&& q.qtype == r.qtype
            &&& q.name.len() == r.name.len()
            &&& forall|i: int|
                0 <= i < q.name.len() ==> (#[trigger] q.name[i]).len() == r.name[i].len()
            &&& forall|i: int, j: int|
                0 <= i < q.name.len() && 0 <= j < q.name[i].len() ==> same_but_for_case(
                    #[trigger] q.name[i][j],
                    r.name[i][j],
                )
        },
{
    let (q, r) = (query.questions[0], response.questions[0]);
    assert forall|x: u8, y: u8| small(x) == small(y) <==> #[trigger] same_but_for_case(x, y) by {}
    let bytes_match = forall|i: int, j: int|
        0 <= i < q.name.len() && 0 <= j < q.name[i].len() ==> same_but_for_case(
            #[trigger] q.name[i][j],
            r.name[i][j],
        );
    let lengths_match = forall|i: int|
        0 <= i < q.name.len() ==> (#[trigger] q.name[i]).len() == r.name[i].len();
    if q.name.len() == r.name.len() && lengths_match && bytes_match {
        assert forall|i: int| 0 <= i < q.name.len() implies same_label(#[trigger] q.name[i], r.name[i]) by {
            assert forall|j: int| 0 <= j < q.name[i].len() implies small(#[trigger] q.name[i][j])
                == small(r.name[i][j]) by {
                assert(same_but_for_case(q.name[i][j], r.name[i][j]));
            }
        }
    }
    if same_name(q.name, r.name) {
        assert forall|i: int, j: int|
            0 <= i < q.name.len() && 0 <= j < q.name[i].len() implies same_but_for_case(
            #[trigger] q.name[i][j],
            r.name[i][j],
        ) by {
            assert(same_label(q.name[i], r.name[i]));
            assert(small(q.name[i][j]) == small(r.name[i][j]));
        }
        assert forall|i: int| 0 <= i < q.name.len() implies (#[trigger] q.name[i]).len()
            == r.name[i].len() by {
            assert(same_label(q.name[i], r.name[i]));
        }
    }
}

/// A response over UDP is enough where it can be read and was not cut down; else the query goes over TCP.
pub proof fn law_cut_responses_are_asked_for_again(response: Option<&[u8]>, r: bool)
    requires
        udp_response_suffices.ensures((response,), r),
    ensures
        response is None ==> !r,
        response matches Some(d) ==> (r <==> decoded_head(d@) is Some && !decoded_head(
            d@,
        )->0.truncated),
{
}

/// A response is accepted only where it can be read and answers the question of the query.
pub proof fn law_only_answers_are_accepted(
    query: &[u8],
    response: &[u8],
    r: Result<(), ForwardError>,
)
    requires
        accept_response.ensures((query, response), r),
    ensures
        r is Ok <==> decoded_head(query@) is Some && decoded_head(response@) is Some
            && answers_question(decoded_head(query@)->0, decoded_head(response@)->0),
        decoded_head(response@) is None ==> r is Err && r->Err_0 is Decode,
        r is Err && decoded_head(response@) is Some ==> r->Err_0 is ResponseMismatch,
{
}

/// An error says what failed, and why.
pub proof fn law_forwarding_errors_say_what_failed(e: &ForwardError, r: String)
    requires
        ForwardError::message.ensures((e,), r),
    ensures
        e matches ForwardError::Encode(m) ==> r@ == "Query encoding failed: "@ + m@,
        e matches ForwardError::Decode(m) ==> r@ == "Response decoding failed: "@ + m@,
        e matches ForwardError::Io(m) ==> r@ == "I/O error: "@ + m@,
        e is Timeout ==> r@ == "Timeout"@,
        e matches ForwardError::Dot(m) ==> r@ == "DoT error: "@ + m@,
        e is NotInitialized ==> r@ == "Forwarder not initialized"@,
        e is ResponseMismatch ==> r@ == "Response question does not match query"@,
{
}

/// A query is sent in the form that the message crate writes it in, and in no other.
pub proof fn law_queries_are_sent_as_written(query: &[u8], r: Result<Vec<u8>, ForwardError>)
    requires
        outgoing_query.ensures((query,), r),
    ensures
        r is Ok <==> rewritten(query@) is Some,
        r is Ok ==> r->Ok_0@ == rewritten(query@)->0,
        r is Err ==> r->Err_0 is Encode,
{
}

} // verus!
