//! What a connection's request leads to. Answering a request alternates
//! reading files with deciding; the decisions are here, one step at a
//! time, and the caller performs each step's reading or writing.

use vstd::prelude::*;
use crate::request::{parse_request, HttpHeader, RequestType, RequestView};
use crate::response::{
    create_response, not_found_response, ok_response, NOT_FOUND_HEAD, OK_HEAD,
};
use crate::text::{chars_of, string_of};

verus! {

/// The next thing to do for a connection.
pub enum Step {
    /// Read the file at this path and report what came of it.
    ReadFile(String),
    /// Read the not-found page and send the not-found response.
    ReadNotFoundPage,
    /// Send these bytes, then close the connection.
    Send(String),
}

/// A step, as values.
pub enum StepView {
    ReadFile(Seq<char>),
    ReadNotFoundPage,
    Send(Seq<char>),
}

impl View for Step {
    type V = StepView;

    open spec fn view(&self) -> StepView {
        match self {
            Step::ReadFile(p) => StepView::ReadFile(p@),
            Step::ReadNotFoundPage => StepView::ReadNotFoundPage,
            Step::Send(s) => StepView::Send(s@),
        }
    }
}

/// The file a URI names: the URI without its leading slash.
pub open spec fn file_path(uri: Seq<char>) -> Seq<char> {
    if uri.len() > 0 && uri[0] == '/' {
        uri.drop_first()
    } else {
        uri
    }
}

/// The first step for a request, or for text that held none: a GET reads
/// the file its URI names; anything else is not found.
pub open spec fn first_step(request: Option<RequestView>) -> StepView {
    match request {
        Some(r) => if r.request_type == RequestType::Get {
            StepView::ReadFile(file_path(r.uri))
        } else {
            StepView::ReadNotFoundPage
        },
        None => StepView::ReadNotFoundPage,
    }
}

/// The step after reading a requested file: its contents are served;
/// a file that could not be read is not found.
pub open spec fn step_after_read(content: Option<Seq<char>>) -> StepView {
    match content {
        Some(c) => StepView::Send(ok_response(c)),
        None => StepView::ReadNotFoundPage,
    }
}

/// The request as values, if there is one.
pub open spec fn request_view(request: &Option<HttpHeader>) -> Option<RequestView> {
    match request {
        Some(h) => Some(h@),
        None => None,
    }
}

/// The first step for a parsed request, or for none.
pub fn dispatch(request: &Option<HttpHeader>) -> (r: Step)
    ensures
        r@ == first_step(request_view(request)),
{
    match request {
        Some(h) => match h.request_type {
            RequestType::Get => {
                let uri = chars_of(h.uri.as_str());
                let lo: usize = if uri.len() > 0 && uri[0] == '/' {
                    1
                } else {
                    0
                };
                let path = string_of(&uri, lo, uri.len());
                assert(path@ =~= file_path(h.uri@));
                Step::ReadFile(path)
            },
            _ => Step::ReadNotFoundPage,
        },
        None => Step::ReadNotFoundPage,
    }
}

/// The step after reading the requested file: `Some` with its contents,
/// or `None` where it could not be read as text.
pub fn after_file_read(content: Option<String>) -> (r: Step)
    ensures
        r@ == step_after_read(
            match content {
                Some(c) => Some(c@),
                None => None,
            },
        ),
{
    match content {
        Some(c) => Step::Send(create_response(c.as_str())),
        None => Step::ReadNotFoundPage,
    }
}

/// The first step for the text of a request.
pub fn handle_request(text: &str) -> (r: Step)
    ensures
        r@ == first_step(parse_request(text@)),
{
    let request = HttpHeader::parse(text);
    dispatch(&request)
}

/// A GET request for a file that can be read is answered with the 200
/// status line, and the response ends with exactly the file's contents.
pub proof fn lemma_get_serves_file(text: Seq<char>, content: Seq<char>)
    requires
        parse_request(text) is Some,
        parse_request(text)->0.request_type == RequestType::Get,
    ensures
        first_step(parse_request(text)) == StepView::ReadFile(
            file_path(parse_request(text)->0.uri),
        ),
        step_after_read(Some(content)) == StepView::Send(ok_response(content)),
        ok_response(content).take(OK_HEAD@.len() as int) == OK_HEAD@,
        ok_response(content).skip(ok_response(content).len() - content.len()) == content,
{
    let r = ok_response(content);
    assert(r.take(OK_HEAD@.len() as int) =~= OK_HEAD@);
    assert(r.skip(r.len() - content.len()) =~= content);
}

/// A GET request for a file that cannot be read leads to the not-found
/// page, and the not-found response is its status line followed by exactly
/// that page.
pub proof fn lemma_get_missing_file(text: Seq<char>, page: Seq<char>)
    requires
        parse_request(text) is Some,
        parse_request(text)->0.request_type == RequestType::Get,
    ensures
        first_step(parse_request(text)) is ReadFile,
        step_after_read(None) == StepView::ReadNotFoundPage,
        not_found_response(page).take(NOT_FOUND_HEAD@.len() as int) == NOT_FOUND_HEAD@,
        not_found_response(page).skip(NOT_FOUND_HEAD@.len() as int) == page,
{
    let r = not_found_response(page);
    assert(r.take(NOT_FOUND_HEAD@.len() as int) =~= NOT_FOUND_HEAD@);
    assert(r.skip(NOT_FOUND_HEAD@.len() as int) =~= page);
}

/// A PUT or POST request, whatever its URI and body, goes straight to the
/// not-found response: no file is read for it.
pub proof fn lemma_put_post_not_found(text: Seq<char>)
    requires
        parse_request(text) is Some,
        parse_request(text)->0.request_type != RequestType::Get,
    ensures
        first_step(parse_request(text)) == StepView::ReadNotFoundPage,
{
}

} // verus!
