//! Judging the answers to HTTP requests.

use crate::request::{header_views, Header};
use crate::text::view_of;
use vstd::prelude::*;

verus! {

/// The method of a request.
#[derive(Debug, Clone, Copy, PartialEq, Eq, Structural)]
pub enum RequestMethod {
    GET,
    HEAD,
}

impl RequestMethod {
    /// The method's name.
    pub open spec fn name(self) -> Seq<char> {
        match self {
            RequestMethod::GET => "GET"@,
            RequestMethod::HEAD => "HEAD"@,
        }
    }

    /// The method's name.
    pub fn as_str(&self) -> (r: &'static str)
        ensures
            r@ == self.name(),
    {
        match self {
            RequestMethod::GET => "GET",
            RequestMethod::HEAD => "HEAD",
        }
    }
}

/// What [`Verdict`] stands for.
pub enum VerdictView {
    Accept,
    Refuse(Seq<char>),
    RefuseWithBody,
}

/// What to make of a response.
#[derive(Debug, PartialEq)]
pub enum Verdict {
    /// The request succeeded.
    Accept,
    /// The request failed, with this message.
    Refuse(String),
    /// The request failed, and the message is in the body: see [`body_error`].
    RefuseWithBody,
}

impl View for Verdict {
    type V = VerdictView;

    open spec fn view(&self) -> VerdictView {
        match self {
            Verdict::Accept => VerdictView::Accept,
            Verdict::Refuse(message) => VerdictView::Refuse(message@),
            Verdict::RefuseWithBody => VerdictView::RefuseWithBody,
        }
    }
}

/// A message about a request.
pub open spec fn request_message(method: RequestMethod, url: Seq<char>, text: Seq<char>) -> Seq<
    char,
> {
    method.name() + " "@ + url + ": "@ + text
}

/// What to make of a response with this status. A status below 400 is a success, and so is a
/// 401 for a caller that looks for one. Everything else is a failed request, and the body
/// nothing but an error page.
pub open spec fn response_verdict(
    method: RequestMethod,
    url: Seq<char>,
    status: u16,
    status_text: Seq<char>,
    ignore_401: bool,
) -> VerdictView {
    if status < 400 || (status == 401 && ignore_401) {
        VerdictView::Accept
    } else if status == 404 {
        VerdictView::Refuse(request_message(method, url, "Not found!"@))
    } else if status == 401 {
        VerdictView::Refuse(
            request_message(
                method,
                url,
                "Unauthorized! Please configure authentication for this registry or if you have already done so, please make sure it is correct."@,
            ),
        )
    } else if status == 403 {
        VerdictView::Refuse(
            request_message(
                method,
                url,
                "Forbidden! If you've configured authentication for this registry, make sure it is correct. Otherwise there is a chance that the registry is down and a proxy is returning an error."@,
            ),
        )
    } else if status == 502 || status == 503 {
        VerdictView::Refuse(
            request_message(
                method,
                url,
                "The registry is currently unavailabile (returned status code "@ + status_text
                    + ")."@,
            ),
        )
    } else if status == 429 {
        VerdictView::Refuse(
            request_message(
                method,
                url,
                "Rate limited by the registry (returned status code 429). Skipping this check."@,
            ),
        )
    } else if method == RequestMethod::GET {
        VerdictView::RefuseWithBody
    } else {
        VerdictView::Refuse(
            request_message(
                method,
                url,
                "Unexpected error: Received status code "@ + status_text,
            ),
        )
    }
}

fn message_about(method: RequestMethod, url: &str, text: &str) -> (r: String)
    ensures
        r@ == request_message(method, url@, text@),
{
    let mut r = method.as_str().to_owned();
    r.append(" ");
    r.append(url);
    r.append(": ");
    r.append(text);
    r
}

/// Judges a response by its status. `status_text` is the status as it is written for a reader.
pub fn judge_response(
    method: RequestMethod,
    url: &str,
    status: u16,
    status_text: &str,
    ignore_401: bool,
) -> (r: Verdict)
    ensures
        r@ == response_verdict(method, url@, status, status_text@, ignore_401),
{
    if status < 400 || (status == 401 && ignore_401) {
        Verdict::Accept
    } else if status == 404 {
        Verdict::Refuse(message_about(method, url, "Not found!"))
    } else if status == 401 {
        Verdict::Refuse(
            message_about(
                method,
                url,
                "Unauthorized! Please configure authentication for this registry or if you have already done so, please make sure it is correct.",
            ),
        )
    } else if status == 403 {
        Verdict::Refuse(
            message_about(
                method,
                url,
                "Forbidden! If you've configured authentication for this registry, make sure it is correct. Otherwise there is a chance that the registry is down and a proxy is returning an error.",
            ),
        )
    } else if status == 502 || status == 503 {
        let mut text = "The registry is currently unavailabile (returned status code ".to_owned();
        text.append(status_text);
        text.append(").");
        Verdict::Refuse(message_about(method, url, text.as_str()))
    } else if status == 429 {
        Verdict::Refuse(
            message_about(
                method,
                url,
                "Rate limited by the registry (returned status code 429). Skipping this check.",
            ),
        )
    } else {
        match method {
            RequestMethod::GET => Verdict::RefuseWithBody,
            RequestMethod::HEAD => {
                let mut text = "Unexpected error: Received status code ".to_owned();
                text.append(status_text);
                Verdict::Refuse(message_about(method, url, text.as_str()))
            },
        }
    }
}

/// The message of a request that failed with an explanation in the body.
pub open spec fn body_failure(method: RequestMethod, url: Seq<char>, body: Seq<char>) -> Seq<char> {
    request_message(method, url, "Unexpected error: "@ + body)
}

/// The message of a request that failed with an explanation in the body.
pub fn body_error(method: RequestMethod, url: &str, body: &str) -> (r: String)
    ensures
        r@ == body_failure(method, url@, body@),
{
    let mut text = "Unexpected error: ".to_owned();
    text.append(body);
    message_about(method, url, text.as_str())
}

/// Why no response came.
#[derive(Debug, PartialEq)]
pub struct TransportError {
    /// No connection could be established.
    pub connect: bool,
    /// Time ran out.
    pub timeout: bool,
    /// The retries were used up.
    pub middleware: bool,
    /// The error, as it is written for a reader.
    pub text: String,
}

/// What to make of a request without a response.
#[derive(Debug, PartialEq)]
pub enum Failure {
    /// The request failed, with this message.
    Report(String),
    /// Nothing is known that could go on from here.
    Fatal(String),
}

/// What [`Failure`] stands for.
pub enum FailureView {
    Report(Seq<char>),
    Fatal(Seq<char>),
}

impl View for Failure {
    type V = FailureView;

    open spec fn view(&self) -> FailureView {
        match self {
            Failure::Report(message) => FailureView::Report(message@),
            Failure::Fatal(message) => FailureView::Fatal(message@),
        }
    }
}

/// What to make of a request without a response. A failed connection is reported as such even
/// where time ran out over it.
pub open spec fn failure_verdict(
    method: RequestMethod,
    url: Seq<char>,
    error: TransportError,
) -> FailureView {
    if error.connect {
        FailureView::Report(request_message(method, url, "Connection failed!"@))
    } else if error.timeout {
        FailureView::Report(request_message(method, url, "Connection timed out!"@))
    } else if error.middleware {
        FailureView::Report(
            request_message(method, url, "Connection failed after 3 retries!"@),
        )
    } else {
        FailureView::Fatal(request_message(method, url, "Unexpected error: "@ + error.text@))
    }
}

/// Judges a request without a response.
pub fn judge_failure(method: RequestMethod, url: &str, error: &TransportError) -> (r: Failure)
    ensures
        r@ == failure_verdict(method, url@, *error),
{
    if error.connect {
        Failure::Report(message_about(method, url, "Connection failed!"))
    } else if error.timeout {
        Failure::Report(message_about(method, url, "Connection timed out!"))
    } else if error.middleware {
        Failure::Report(message_about(method, url, "Connection failed after 3 retries!"))
    } else {
        let mut text = "Unexpected error: ".to_owned();
        text.append(error.text.as_str());
        Failure::Fatal(message_about(method, url, text.as_str()))
    }
}

/// The headers that have a value, in order.
pub open spec fn valued(headers: Seq<(Seq<char>, Option<Seq<char>>)>) -> Seq<
    (Seq<char>, Seq<char>),
>
    decreases headers.len(),
{
    if headers.len() == 0 {
        Seq::empty()
    } else {
        let rest = valued(headers.drop_last());
        match headers.last().1 {
            Some(value) => rest.push((headers.last().0, value)),
            None => rest,
        }
    }
}

/// Names and values of the headers to send.
pub fn sent_headers(headers: &Vec<Header>) -> (r: Vec<(String, String)>)
    ensures
        r@.map_values(|header: (String, String)| (header.0@, header.1@)) == valued(
            header_views(headers@),
        ),
{
    let mut r: Vec<(String, String)> = Vec::new();
    let ghost all = header_views(headers@);
    let ghost pair = |header: (String, String)| (header.0@, header.1@);
    let mut i: usize = 0;
    assert(r@.map_values(pair) =~= valued(all.take(0)));
    while i < headers.len()
        invariant
            i <= headers@.len(),
            all == header_views(headers@),
            pair == (|header: (String, String)| (header.0@, header.1@)),
            r@.map_values(pair) == valued(all.take(i as int)),
        decreases headers@.len() - i,
    {
        let header = &headers[i];
        assert(all.take(i + 1).drop_last() =~= all.take(i as int));
        assert(all.take(i + 1).last() == (header.0@, view_of(header.1)));
        if let Some(value) = &header.1 {
            let ghost earlier = r@;
            r.push((header.0.clone(), value.clone()));
            assert(r@.map_values(pair) =~= earlier.map_values(pair).push((header.0@, value@)));
        }
        i += 1;
    }
    assert(all.take(headers@.len() as int) =~= all);
    r
}

/// A response is accepted exactly if its status is below 400, or is a 401 that the caller looks
/// for: no error page is handed on as an answer.
pub proof fn law_only_successes_are_accepted(
    method: RequestMethod,
    url: Seq<char>,
    status: u16,
    status_text: Seq<char>,
    ignore_401: bool,
)
    ensures
        response_verdict(method, url, status, status_text, ignore_401) is Accept <==> (status < 400
            || (status == 401 && ignore_401)),
{
}

/// What is said of a refused request: the method and the address, and what the status means. A
/// GET that failed in another way is explained by its body.
pub proof fn law_refusals(
    method: RequestMethod,
    url: Seq<char>,
    status: u16,
    status_text: Seq<char>,
    ignore_401: bool,
)
    ensures
        ({
            let verdict = response_verdict(method, url, status, status_text, ignore_401);
            let about = (match method {
                RequestMethod::GET => "GET "@,
                RequestMethod::HEAD => "HEAD "@,
            }) + url + ": "@;
            &&& status == 404 ==> verdict == VerdictView::Refuse(about + "Not found!"@)
            &&& status == 401 && !ignore_401 ==> verdict == VerdictView::Refuse(
                about
                    + "Unauthorized! Please configure authentication for this registry or if you have already done so, please make sure it is correct."@,
            )
            &&& status == 403 ==> verdict == VerdictView::Refuse(
                about
                    + "Forbidden! If you've configured authentication for this registry, make sure it is correct. Otherwise there is a chance that the registry is down and a proxy is returning an error."@,
            )
            &&& status == 502 || status == 503 ==> verdict == VerdictView::Refuse(
                about + ("The registry is currently unavailabile (returned status code "@
                    + status_text + ")."@),
            )
            &&& status == 429 ==> verdict == VerdictView::Refuse(
                about
                    + "Rate limited by the registry (returned status code 429). Skipping this check."@,
            )
            &&& status >= 400 && status != 401 && status != 403 && status != 404 && status != 429
                && status != 502 && status != 503 ==> match method {
                RequestMethod::GET => verdict is RefuseWithBody,
                RequestMethod::HEAD => verdict == VerdictView::Refuse(
                    about + ("Unexpected error: Received status code "@ + status_text),
                ),
            }
        }),
{
    lemma_about(method, url);
}

proof fn lemma_about(method: RequestMethod, url: Seq<char>)
    ensures
        method.name() + " "@ + url + ": "@ == (match method {
            RequestMethod::GET => "GET "@,
            RequestMethod::HEAD => "HEAD "@,
        }) + url + ": "@,
{
    reveal_strlit("GET");
    reveal_strlit("HEAD");
    reveal_strlit("GET ");
    reveal_strlit("HEAD ");
    reveal_strlit(" ");
    assert("GET"@ + " "@ =~= "GET "@);
    assert("HEAD"@ + " "@ =~= "HEAD "@);
}

/// A request without a response is only the end of everything if it is neither a failed
/// connection, nor a timeout, nor a failure of all retries.
pub proof fn law_failures(method: RequestMethod, url: Seq<char>, error: TransportError)
    ensures
        ({
            let verdict = failure_verdict(method, url, error);
            let about = (match method {
                RequestMethod::GET => "GET "@,
                RequestMethod::HEAD => "HEAD "@,
            }) + url + ": "@;
            &&& error.connect ==> verdict == FailureView::Report(about + "Connection failed!"@)
            &&& !error.connect && error.timeout ==> verdict == FailureView::Report(
                about + "Connection timed out!"@,
            )
            &&& !error.connect && !error.timeout && error.middleware ==> verdict
                == FailureView::Report(about + "Connection failed after 3 retries!"@)
            &&& !error.connect && !error.timeout && !error.middleware ==> verdict
                == FailureView::Fatal(about + ("Unexpected error: "@ + error.text@))
        }),
{
    lemma_about(method, url);
}

/// Every header that has a value is sent, with that value and in order, and no other is.
pub proof fn law_sent_headers(
    front: Seq<(Seq<char>, Option<Seq<char>>)>,
    name: Seq<char>,
    value: Seq<char>,
    back: Seq<(Seq<char>, Option<Seq<char>>)>,
)
    ensures
        valued(front + back) == valued(front) + valued(back),
        valued(seq![(name, Some(value))]) == seq![(name, value)],
        valued(seq![(name, None)]).len() == 0,
    decreases back.len(),
{
    if back.len() == 0 {
        assert(front + back =~= front);
        assert(valued(front) + valued(back) =~= valued(front));
    } else {
        assert((front + back).drop_last() =~= front + back.drop_last());
        law_sent_headers(front, name, value, back.drop_last());
        assert(valued(front + back) =~= valued(front) + valued(back));
    }
    let one = seq![(name, Some(value))];
    assert(one.drop_last() =~= Seq::<(Seq<char>, Option<Seq<char>>)>::empty());
    assert(valued(one.drop_last()) =~= Seq::<(Seq<char>, Seq<char>)>::empty());
    assert(one.last() == (name, Some(value)));
    assert(valued(one) =~= seq![(name, value)]);
    let none = seq![(name, None::<Seq<char>>)];
    assert(none.drop_last() =~= Seq::<(Seq<char>, Option<Seq<char>>)>::empty());
    assert(none.last() == (name, None::<Seq<char>>));
    assert(valued(none.drop_last()) =~= Seq::<(Seq<char>, Seq<char>)>::empty());
}

/// A request that failed with an explanation in the body is reported with that explanation.
pub proof fn law_body_failures(url: Seq<char>, body: Seq<char>)
    ensures
        body_failure(RequestMethod::GET, url, body) == "GET "@ + url + ": "@ + (
        "Unexpected error: "@ + body),
        body_failure(RequestMethod::HEAD, url, body) == "HEAD "@ + url + ": "@ + (
        "Unexpected error: "@ + body),
{
    lemma_about(RequestMethod::GET, url);
    lemma_about(RequestMethod::HEAD, url);
}

} // verus!
