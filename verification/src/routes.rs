//! The route table, its handlers and the guards that run before them.
//!
//! A handler decides; it does not touch the file system. Where an answer needs
//! a file, the handler hands out an [`Action`] that says what to read or write,
//! and [`file_read`] or [`file_written`] turns what came of it into the answer.

use vstd::prelude::*;

use crate::error::Error;
use crate::fields::{stored_all, value_of};
use crate::path::{contained, is_contained};
use crate::prelude::{Content, ContentView, Method, MimeType, StatusCode};
use crate::request::{answer, Request, RequestView};
use crate::response::{Response, ResponseView};
use crate::router::{segments_of, Context, RouteHandler, Router, Tree};

verus! {

/// What is to be done for a request.
#[derive(Debug)]
pub enum Action {
    /// Send the response.
    Respond(Response),
    /// Report the failure to the operator, then send the response.
    Fail(Error, Response),
    /// Read the file at the path and hand what came of it to `file_read`.
    ReadFile(String),
    /// Write the text to the file at the path, replacing what it held, and hand
    /// what came of it to `file_written`.
    WriteFile(String, String),
}

/// What an `Action` holds.
pub enum ActionView {
    Respond(ResponseView),
    Fail(Error, ResponseView),
    ReadFile(Seq<char>),
    WriteFile(Seq<char>, Seq<char>),
}

impl View for Action {
    type V = ActionView;

    open spec fn view(&self) -> ActionView {
        match self {
            Action::Respond(r) => ActionView::Respond(r@),
            Action::Fail(e, r) => ActionView::Fail(*e, r@),
            Action::ReadFile(path) => ActionView::ReadFile(path@),
            Action::WriteFile(path, text) => ActionView::WriteFile(path@, text@),
        }
    }
}

/// What came of reading a file.
#[derive(Debug)]
pub enum FileRead {
    /// There is no such file.
    Missing,
    /// The file could not be read as text.
    Failed,
    /// The text of the file.
    Contents(String),
}

/// What a `FileRead` holds.
pub enum FileReadView {
    Missing,
    Failed,
    Contents(Seq<char>),
}

impl View for FileRead {
    type V = FileReadView;

    open spec fn view(&self) -> FileReadView {
        match self {
            FileRead::Missing => FileReadView::Missing,
            FileRead::Failed => FileReadView::Failed,
            FileRead::Contents(text) => FileReadView::Contents(text@),
        }
    }
}

/// What came of writing a file.
#[derive(Clone, Copy, Debug, PartialEq, Eq, Structural)]
pub enum FileWrite {
    /// The file was written.
    Done,
    /// The file could not be written.
    Failed,
}

/// What a handler returned, as a value.
pub open spec fn reply_view(r: Result<Response, Error>) -> Result<ResponseView, Error> {
    match r {
        Ok(response) => Ok(response@),
        Err(e) => Err(e),
    }
}

/// What a handler that may ask for a file returned, as a value.
pub open spec fn action_view(r: Result<Action, Error>) -> Result<ActionView, Error> {
    match r {
        Ok(action) => Ok(action@),
        Err(e) => Err(e),
    }
}

/// The route table of the server.
pub open spec fn route_table() -> Seq<(&'static str, RouteHandler)> {
    seq![
        ("/", RouteHandler::Home),
        ("/echo/{(?<message>\\w+)}", RouteHandler::Echo),
        ("/user-agent", RouteHandler::UserAgent),
        ("/files/{(?<filename>[\\w\\-_\\.]+)}", RouteHandler::Files),
    ]
}

/// The route table of the server.
pub fn routes() -> (table: Vec<(&'static str, RouteHandler)>)
    ensures
        table@ == route_table(),
{
    let table = vec![
        ("/", RouteHandler::Home),
        ("/echo/{(?<message>\\w+)}", RouteHandler::Echo),
        ("/user-agent", RouteHandler::UserAgent),
        ("/files/{(?<filename>[\\w\\-_\\.]+)}", RouteHandler::Files),
    ];
    table
}

/// The answer of the method guard: `405 Method Not Allowed` for a request whose
/// method is not among `allowed`, nothing for any other.
pub open spec fn method_refusal(rq: RequestView, allowed: Seq<Method>) -> Option<ResponseView> {
    if allowed.contains(rq.method) {
        None
    } else {
        Some(answer(rq, StatusCode::MethodNotAllowed, None))
    }
}

/// The answer of the path guard: `403 Forbidden` for a path that does not stay
/// inside `root`, nothing for any other.
pub open spec fn path_refusal(rq: RequestView, root: Seq<char>, path: Seq<char>) -> Option<
    ResponseView,
> {
    if contained(root, path) {
        None
    } else {
        Some(answer(rq, StatusCode::Forbidden, None))
    }
}

/// What `/` answers: `200`, without content, to a `GET`.
pub open spec fn home_reply(rq: RequestView) -> Result<ResponseView, Error> {
    match method_refusal(rq, seq![Method::Get]) {
        Some(refusal) => Ok(refusal),
        None => Ok(answer(rq, StatusCode::Okay, None)),
    }
}

/// What `/echo/{message}` answers: `200` with the captured message as plain
/// text, to a `GET`.
pub open spec fn echo_reply(rq: RequestView, cx: Seq<(Seq<char>, Seq<char>)>) -> Result<
    ResponseView,
    Error,
> {
    match method_refusal(rq, seq![Method::Get]) {
        Some(refusal) => Ok(refusal),
        None => match value_of(cx, "message"@) {
            Some(message) => Ok(
                answer(
                    rq,
                    StatusCode::Okay,
                    Some(ContentView { mime_type: MimeType::PlainText, body: message }),
                ),
            ),
            None => Err(Error::MissingMessage),
        },
    }
}

/// What `/user-agent` answers: `200` with the request's `User-Agent` header as
/// plain text, to a `GET`.
pub open spec fn user_agent_reply(rq: RequestView) -> Result<ResponseView, Error> {
    match method_refusal(rq, seq![Method::Get]) {
        Some(refusal) => Ok(refusal),
        None => match value_of(rq.headers, "User-Agent"@) {
            Some(agent) => Ok(
                answer(
                    rq,
                    StatusCode::Okay,
                    Some(ContentView { mime_type: MimeType::PlainText, body: agent }),
                ),
            ),
            None => Err(Error::MissingUserAgent),
        },
    }
}

/// What a `GET` for `/files/{filename}` decides: the file to read, which is
/// the captured name; `403` instead if that name does not stay inside `root`.
/// Nothing is read before the name is found to stay inside.
pub open spec fn serve_action(
    rq: RequestView,
    cx: Seq<(Seq<char>, Seq<char>)>,
    root: Seq<char>,
) -> Result<ActionView, Error> {
    match value_of(cx, "filename"@) {
        None => Err(Error::MissingFilename),
        Some(name) => match path_refusal(rq, root, name) {
            Some(refusal) => Ok(ActionView::Respond(refusal)),
            None => Ok(ActionView::ReadFile(name)),
        },
    }
}

/// What a `POST` to `/files/{filename}` decides: the file to write, which is
/// the captured name, with the body of the request as its text; `403` instead
/// if that name does not stay inside `root`. A request without a captured name
/// or without content fails, and nothing is written for it.
pub open spec fn upload_action(
    rq: RequestView,
    cx: Seq<(Seq<char>, Seq<char>)>,
    root: Seq<char>,
) -> Result<ActionView, Error> {
    match value_of(cx, "filename"@) {
        None => Err(Error::MissingFilename),
        Some(name) => match path_refusal(rq, root, name) {
            Some(refusal) => Ok(ActionView::Respond(refusal)),
            None => match rq.content {
                Some(content) => Ok(ActionView::WriteFile(name, content.body)),
                None => Err(Error::MissingContent),
            },
        },
    }
}

/// What `/files/{filename}` decides: what a download decides for a `GET`, what
/// an upload decides for a `POST`.
pub open spec fn files_action(
    rq: RequestView,
    cx: Seq<(Seq<char>, Seq<char>)>,
    root: Seq<char>,
) -> Result<ActionView, Error> {
    match rq.method {
        Method::Get => serve_action(rq, cx, root),
        Method::Post => upload_action(rq, cx, root),
    }
}

/// The answer to a `GET` for a file once the file was read: `200` with its
/// text as a byte stream, or `404` if there is no such file.
pub open spec fn read_reply(rq: RequestView, outcome: FileReadView) -> Result<
    ResponseView,
    Error,
> {
    match outcome {
        FileReadView::Missing => Ok(answer(rq, StatusCode::NotFound, None)),
        FileReadView::Failed => Err(Error::Io),
        FileReadView::Contents(text) => Ok(
            answer(
                rq,
                StatusCode::Okay,
                Some(ContentView { mime_type: MimeType::OctetStream, body: text }),
            ),
        ),
    }
}

/// The answer to a `POST` of a file once the file was written: `201`.
pub open spec fn write_reply(rq: RequestView, outcome: FileWrite) -> Result<ResponseView, Error> {
    match outcome {
        FileWrite::Done => Ok(answer(rq, StatusCode::Created, None)),
        FileWrite::Failed => Err(Error::Io),
    }
}

/// What the handler `handler` decides for the request `rq` with the captured
/// text `cx`.
pub open spec fn dispatched(
    handler: RouteHandler,
    rq: RequestView,
    cx: Seq<(Seq<char>, Seq<char>)>,
    root: Seq<char>,
) -> Result<ActionView, Error> {
    match handler {
        RouteHandler::Home => match home_reply(rq) {
            Ok(r) => Ok(ActionView::Respond(r)),
            Err(e) => Err(e),
        },
        RouteHandler::Echo => match echo_reply(rq, cx) {
            Ok(r) => Ok(ActionView::Respond(r)),
            Err(e) => Err(e),
        },
        RouteHandler::UserAgent => match user_agent_reply(rq) {
            Ok(r) => Ok(ActionView::Respond(r)),
            Err(e) => Err(e),
        },
        RouteHandler::Files => files_action(rq, cx, root),
    }
}

/// What becomes of a handler's result: the response to send, and the failure
/// to report if there was one. A failure is answered with `500 Internal Error`.
pub open spec fn settled(rq: RequestView, result: Result<ResponseView, Error>) -> (
    ResponseView,
    Option<Error>,
) {
    match result {
        Ok(r) => (r, None),
        Err(e) => (answer(rq, StatusCode::InternalError, None), Some(e)),
    }
}

/// Refuses a request whose method is not among `methods`.
pub fn method_guard(rq: &Request, methods: &[Method]) -> (r: Option<Result<Response, Error>>)
    ensures
        match r {
            Some(refusal) => method_refusal(rq@, methods@) matches Some(v) && reply_view(refusal)
                == Ok::<_, Error>(v),
            None => method_refusal(rq@, methods@) is None,
        },
{
    let mut i: usize = 0;
    while i < methods.len()
        invariant
            i <= methods@.len(),
            forall|j: int| 0 <= j < i ==> methods@[j] != rq.method,
        decreases methods@.len() - i,
    {
        if methods[i] == rq.method {
            return None;
        }
        i += 1;
    }
    Some(rq.response(StatusCode::MethodNotAllowed, None))
}

/// Refuses a request for a path that does not stay inside the directory `root`.
pub fn path_guard(rq: &Request, root: &str, path: &str) -> (r: Option<Result<Response, Error>>)
    ensures
        match r {
            Some(refusal) => path_refusal(rq@, root@, path@) matches Some(v) && reply_view(refusal)
                == Ok::<_, Error>(v),
            None => path_refusal(rq@, root@, path@) is None,
        },
{
    if is_contained(root, path) {
        None
    } else {
        Some(rq.response(StatusCode::Forbidden, None))
    }
}

/// Answers a request for `/`.
pub fn home(rq: &Request, _cx: Context) -> (r: Result<Response, Error>)
    ensures
        reply_view(r) == home_reply(rq@),
{
    let allowed = [Method::Get];
    assert(allowed@ =~= seq![Method::Get]);
    if let Some(refusal) = method_guard(rq, allowed.as_slice()) {
        return refusal;
    }
    rq.response(StatusCode::Okay, None)
}

/// Answers a request for `/echo/{message}`.
pub fn echo(rq: &Request, cx: Context) -> (r: Result<Response, Error>)
    ensures
        reply_view(r) == echo_reply(rq@, cx@),
{
    let allowed = [Method::Get];
    assert(allowed@ =~= seq![Method::Get]);
    if let Some(refusal) = method_guard(rq, allowed.as_slice()) {
        return refusal;
    }
    if let Some(message) = cx.get("message") {
        let content = Content::new(MimeType::PlainText, message.as_str());
        rq.response(StatusCode::Okay, Some(content))
    } else {
        Err(Error::MissingMessage)
    }
}

/// Answers a request for `/user-agent`.
pub fn user_agent(rq: &Request, _cx: Context) -> (r: Result<Response, Error>)
    ensures
        reply_view(r) == user_agent_reply(rq@),
{
    let allowed = [Method::Get];
    assert(allowed@ =~= seq![Method::Get]);
    if let Some(refusal) = method_guard(rq, allowed.as_slice()) {
        return refusal;
    }
    if let Some(agent) = rq.headers.get("User-Agent") {
        let content = Content::new(MimeType::PlainText, agent.as_str());
        rq.response(StatusCode::Okay, Some(content))
    } else {
        Err(Error::MissingUserAgent)
    }
}

/// Decides what to do for a request for `/files/{filename}`, where files are
/// kept in the directory `root`.
pub fn files(rq: &Request, cx: Context, root: &str) -> (r: Result<Action, Error>)
    ensures
        action_view(r) == files_action(rq@, cx@, root@),
{
    match rq.method {
        Method::Get => serve_file(rq, cx, root),
        Method::Post => upload_file(rq, cx, root),
    }
}

/// Decides what to do for a download: which file to read, once the captured
/// name has passed the path guard.
pub fn serve_file(rq: &Request, cx: Context, root: &str) -> (r: Result<Action, Error>)
    ensures
        action_view(r) == serve_action(rq@, cx@, root@),
{
    let name = match cx.get("filename") {
        Some(name) => name,
        None => {
            return Err(Error::MissingFilename);
        },
    };
    if let Some(refusal) = path_guard(rq, root, name.as_str()) {
        return match refusal {
            Ok(response) => Ok(Action::Respond(response)),
            Err(e) => Err(e),
        };
    }
    Ok(Action::ReadFile(name.clone()))
}

/// Decides what to do for an upload: which file to write and with what text,
/// once the captured name has passed the path guard.
pub fn upload_file(rq: &Request, cx: Context, root: &str) -> (r: Result<Action, Error>)
    ensures
        action_view(r) == upload_action(rq@, cx@, root@),
{
    let name = match cx.get("filename") {
        Some(name) => name,
        None => {
            return Err(Error::MissingFilename);
        },
    };
    if let Some(refusal) = path_guard(rq, root, name.as_str()) {
        return match refusal {
            Ok(response) => Ok(Action::Respond(response)),
            Err(e) => Err(e),
        };
    }
    match &rq.content {
        Some(content) => Ok(Action::WriteFile(name.clone(), content.body.clone())),
        None => Err(Error::MissingContent),
    }
}

/// Answers a download, given what came of reading the file.
pub fn file_read(rq: &Request, outcome: FileRead) -> (r: Result<Response, Error>)
    ensures
        reply_view(r) == read_reply(rq@, outcome@),
{
    match outcome {
        FileRead::Missing => rq.response(StatusCode::NotFound, None),
        FileRead::Failed => Err(Error::Io),
        FileRead::Contents(text) => {
            let content = Content::new(MimeType::OctetStream, text.as_str());
            rq.response(StatusCode::Okay, Some(content))
        },
    }
}

/// Answers an upload, given what came of writing the file.
pub fn file_written(rq: &Request, outcome: FileWrite) -> (r: Result<Response, Error>)
    ensures
        reply_view(r) == write_reply(rq@, outcome),
{
    match outcome {
        FileWrite::Done => rq.response(StatusCode::Created, None),
        FileWrite::Failed => Err(Error::Io),
    }
}

/// Runs the handler `handler` on the request `rq` with the captured text `cx`.
pub fn dispatch(handler: RouteHandler, rq: &Request, cx: Context, root: &str) -> (r: Result<
    Action,
    Error,
>)
    ensures
        action_view(r) == dispatched(handler, rq@, cx@, root@),
{
    match handler {
        RouteHandler::Home => match home(rq, cx) {
            Ok(response) => Ok(Action::Respond(response)),
            Err(e) => Err(e),
        },
        RouteHandler::Echo => match echo(rq, cx) {
            Ok(response) => Ok(Action::Respond(response)),
            Err(e) => Err(e),
        },
        RouteHandler::UserAgent => match user_agent(rq, cx) {
            Ok(response) => Ok(Action::Respond(response)),
            Err(e) => Err(e),
        },
        RouteHandler::Files => files(rq, cx, root),
    }
}

/// Turns the result of a handler into the response to send and the failure to
/// report, if there was one. A failure is answered with `500 Internal Error`.
pub fn settle(rq: &Request, result: Result<Response, Error>) -> (r: (Response, Option<Error>))
    ensures
        (r.0@, r.1) == settled(rq@, reply_view(result)),
{
    match result {
        Ok(response) => (response, None),
        Err(e) => (rq.reply(StatusCode::InternalError, None), Some(e)),
    }
}

/// What is to be done for the request `rq` by a server with the routing tree
/// `tree` that keeps its files in `root`: `404 Not Found` if the path of the
/// request leads to no handler, and what the handler decides if it does, its
/// failure becoming `500 Internal Error`.
pub open spec fn handled(tree: Tree, rq: RequestView, root: Seq<char>) -> ActionView {
    match tree.found(segments_of(rq.uri)) {
        None => ActionView::Respond(answer(rq, StatusCode::NotFound, None)),
        Some((handler, captured)) => match dispatched(
            handler,
            rq,
            stored_all(Seq::empty(), captured),
            root,
        ) {
            Ok(action) => action,
            Err(e) => ActionView::Fail(e, answer(rq, StatusCode::InternalError, None)),
        },
    }
}

/// A request whose path leads to no handler is answered with `404 Not Found`.
pub proof fn lemma_unrouted_is_not_found(tree: Tree, rq: RequestView, root: Seq<char>)
    requires
        tree.found(segments_of(rq.uri)) is None,
    ensures
        handled(tree, rq, root) == ActionView::Respond(answer(rq, StatusCode::NotFound, None)),
{
}

/// A request with another method than `GET` whose path leads to a handler that
/// serves `GET` alone is answered with `405 Method Not Allowed`.
pub proof fn lemma_other_method_is_refused(tree: Tree, rq: RequestView, root: Seq<char>)
    requires
        tree.found(segments_of(rq.uri)) matches Some((handler, _)) && handler
            != RouteHandler::Files,
        rq.method != Method::Get,
    ensures
        handled(tree, rq, root) == ActionView::Respond(
            answer(rq, StatusCode::MethodNotAllowed, None),
        ),
{
}

/// A `GET` whose path leads to the echo handler with a captured message is
/// answered with `200` and the message as plain text.
pub proof fn lemma_echo_answers_with_message(
    tree: Tree,
    rq: RequestView,
    root: Seq<char>,
    message: Seq<char>,
)
    requires
        rq.method == Method::Get,
        tree.found(segments_of(rq.uri)) matches Some((handler, captured)) && handler
            == RouteHandler::Echo && value_of(stored_all(Seq::empty(), captured), "message"@)
            == Some(message),
    ensures
        handled(tree, rq, root) == ActionView::Respond(
            answer(
                rq,
                StatusCode::Okay,
                Some(ContentView { mime_type: MimeType::PlainText, body: message }),
            ),
        ),
{
    assert(seq![Method::Get][0] == rq.method);
}

/// A request for a file whose name does not stay inside the root is answered
/// with `403 Forbidden`, whatever its method: no file is read or written for
/// it, so the answer does not depend on what files there are.
pub proof fn lemma_escaping_file_is_forbidden(
    tree: Tree,
    rq: RequestView,
    root: Seq<char>,
    name: Seq<char>,
)
    requires
        tree.found(segments_of(rq.uri)) matches Some((handler, captured)) && handler
            == RouteHandler::Files && value_of(stored_all(Seq::empty(), captured), "filename"@)
            == Some(name),
        !contained(root, name),
    ensures
        handled(tree, rq, root) == ActionView::Respond(answer(rq, StatusCode::Forbidden, None)),
{
}

/// An upload and a download of the same path: the upload asks for the captured
/// name to be written with the body of the request and is answered with `201`
/// once that is done; the download asks for the same name to be read, and is
/// answered with `200` and that body as a byte stream if the file that is read
/// holds what was written.
pub proof fn lemma_upload_then_download(
    tree: Tree,
    root: Seq<char>,
    post: RequestView,
    get: RequestView,
    name: Seq<char>,
    content: ContentView,
)
    requires
        post.method == Method::Post,
        post.content == Some(content),
        get.method == Method::Get,
        get.uri == post.uri,
        tree.found(segments_of(post.uri)) matches Some((handler, captured)) && handler
            == RouteHandler::Files && value_of(stored_all(Seq::empty(), captured), "filename"@)
            == Some(name),
        contained(root, name),
    ensures
        handled(tree, post, root) == ActionView::WriteFile(name, content.body),
        settled(post, write_reply(post, FileWrite::Done)) == (
            answer(post, StatusCode::Created, None),
            None::<Error>,
        ),
        handled(tree, get, root) == ActionView::ReadFile(name),
        settled(get, read_reply(get, FileReadView::Contents(content.body))) == (
            answer(
                get,
                StatusCode::Okay,
                Some(ContentView { mime_type: MimeType::OctetStream, body: content.body }),
            ),
            None::<Error>,
        ),
{
}

impl Router {
    /// Decides what is to be done for the request `rq`, where files are kept in
    /// the directory `root`.
    pub fn handle(&self, rq: &Request, root: &str) -> (action: Action)
        ensures
            action@ == handled(self@, rq@, root@),
    {
        match self.get(rq.uri.as_str()) {
            Some((handler, context)) => match dispatch(handler, rq, context, root) {
                Ok(action) => action,
                Err(e) => Action::Fail(e, rq.reply(StatusCode::InternalError, None)),
            },
            None => Action::Respond(rq.reply(StatusCode::NotFound, None)),
        }
    }
}

} // verus!
