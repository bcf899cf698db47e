//! The requests a client sends to the daemon and the responses it gets back.

use vstd::prelude::*;
use vstd::string::*;
use crate::json::{
    json_string_literal, json_string_array, join, printable, read_string_literal, read_string_array,
    lemma_join_printable, lemma_literal_printable, lemma_read_string_literal, lemma_read_string_array,
    quote, join_strings,
};
use crate::daemon::{SOCKET_ADDR, nul_free};

verus! {

/// The level at which a response is logged.
pub type LogLevel = &'static str;

/// Level of a response that reports success.
pub const LOG_INFO: LogLevel = "info";

/// Level of a response that reports a failure.
pub const LOG_ERROR: LogLevel = "error";

/// A request from the command line to the daemon.
#[derive(Debug, PartialEq, Eq)]
pub enum Command {
    /// Start syncing the given files.
    Add(Vec<String>),
    /// Show every synced gist.
    Show,
    /// Stop the daemon.
    Kill,
}

/// The daemon's answer to a request.
#[derive(Debug, PartialEq, Eq)]
pub enum Response {
    Info(String),
    Error(String),
}

/// A request as a mathematical value.
pub enum CommandView {
    Add(Seq<Seq<char>>),
    Show,
    Kill,
}

/// A response as a mathematical value.
pub enum ResponseView {
    Info(Seq<char>),
    Error(Seq<char>),
}

impl View for Command {
    type V = CommandView;

    open spec fn view(&self) -> CommandView {
        match self {
            Command::Add(files) => CommandView::Add(files@.map_values(|f: String| f@)),
            Command::Show => CommandView::Show,
            Command::Kill => CommandView::Kill,
        }
    }
}

impl View for Response {
    type V = ResponseView;

    open spec fn view(&self) -> ResponseView {
        match self {
            Response::Info(p) => ResponseView::Info(p@),
            Response::Error(p) => ResponseView::Error(p@),
        }
    }
}

/// The response that `with_log_level` builds: `Info` for the level
/// `"info"`, `Error` for any other level.
pub open spec fn leveled(level: Seq<char>, payload: Seq<char>) -> ResponseView {
    if level == LOG_INFO@ {
        ResponseView::Info(payload)
    } else {
        ResponseView::Error(payload)
    }
}

/// The level a response is logged at.
pub open spec fn level_of(r: ResponseView) -> Seq<char> {
    match r {
        ResponseView::Info(_) => LOG_INFO@,
        ResponseView::Error(_) => LOG_ERROR@,
    }
}

/// The text a response carries.
pub open spec fn payload_of(r: ResponseView) -> Seq<char> {
    match r {
        ResponseView::Info(p) => p,
        ResponseView::Error(p) => p,
    }
}

/// The JSON text of a response: an object with one member named after the
/// variant, whose value is the payload as a string literal.
pub open spec fn response_json(r: ResponseView) -> Seq<char> {
    match r {
        ResponseView::Info(p) => "{\"Info\":"@ + json_string_literal(p) + "}"@,
        ResponseView::Error(p) => "{\"Error\":"@ + json_string_literal(p) + "}"@,
    }
}

/// The JSON text of a request: the bare variant name as a string for
/// `Show` and `Kill`, an object `{"Add":[...]}` holding the file names for
/// `Add`.
pub open spec fn command_json(c: CommandView) -> Seq<char> {
    match c {
        CommandView::Add(files) => "{\"Add\":"@ + json_string_array(files) + "}"@,
        CommandView::Show => "\"Show\""@,
        CommandView::Kill => "\"Kill\""@,
    }
}

/// Reads a response back from its JSON text by JSON's rules for string
/// literals: `{"Info":` or `{"Error":`, a string literal, and `}`.
pub open spec fn response_from_json(t: Seq<char>) -> Option<ResponseView> {
    let info = "{\"Info\":"@;
    let error = "{\"Error\":"@;
    if t.len() >= info.len() && t.take(info.len() as int) == info {
        match read_string_literal(t.skip(info.len() as int)) {
            Some((p, rest)) => if rest == "}"@ {
                Some(ResponseView::Info(p))
            } else {
                None
            },
            None => None,
        }
    } else if t.len() >= error.len() && t.take(error.len() as int) == error {
        match read_string_literal(t.skip(error.len() as int)) {
            Some((p, rest)) => if rest == "}"@ {
                Some(ResponseView::Error(p))
            } else {
                None
            },
            None => None,
        }
    } else {
        None
    }
}

/// Reads a request back from its JSON text by JSON's rules for string
/// literals and arrays: `"Show"`, `"Kill"`, or `{"Add":`, an array of
/// string literals, and `}`.
pub open spec fn command_from_json(t: Seq<char>) -> Option<CommandView> {
    let add = "{\"Add\":"@;
    if t == "\"Show\""@ {
        Some(CommandView::Show)
    } else if t == "\"Kill\""@ {
        Some(CommandView::Kill)
    } else if t.len() >= add.len() && t.take(add.len() as int) == add {
        match read_string_array(t.skip(add.len() as int)) {
            Some((files, rest)) => if rest == "}"@ {
                Some(CommandView::Add(files))
            } else {
                None
            },
            None => None,
        }
    } else {
        None
    }
}

/// The text the daemon writes carries the whole response: reading it back
/// by JSON's rules gives the same variant and the same payload.
pub proof fn lemma_response_text_round_trip(r: ResponseView)
    ensures
        response_from_json(response_json(r)) == Some(r),
{
    reveal_strlit("{\"Info\":");
    reveal_strlit("{\"Error\":");
    reveal_strlit("}");
    let t = response_json(r);
    match r {
        ResponseView::Info(p) => {
            let info = "{\"Info\":"@;
            assert(t.take(info.len() as int) =~= info);
            assert(t.skip(info.len() as int) =~= json_string_literal(p) + "}"@);
            lemma_read_string_literal(p, "}"@);
        },
        ResponseView::Error(p) => {
            let info = "{\"Info\":"@;
            let error = "{\"Error\":"@;
            assert(t[2] == 'E');
            assert(t.take(info.len() as int)[2] != info[2]);
            assert(t.take(error.len() as int) =~= error);
            assert(t.skip(error.len() as int) =~= json_string_literal(p) + "}"@);
            lemma_read_string_literal(p, "}"@);
        },
    }
}

/// The text a client writes carries the whole request: reading it back by
/// JSON's rules gives the same variant and, for `Add`, the same file names
/// in the same order.
pub proof fn lemma_command_text_round_trip(c: CommandView)
    ensures
        command_from_json(command_json(c)) == Some(c),
{
    reveal_strlit("{\"Add\":");
    reveal_strlit("}");
    reveal_strlit("\"Show\"");
    reveal_strlit("\"Kill\"");
    let t = command_json(c);
    let add = "{\"Add\":"@;
    match c {
        CommandView::Add(files) => {
            assert(t[0] == '{');
            assert(t != "\"Show\""@ && t != "\"Kill\""@) by {
                assert("\"Show\""@[0] != t[0]);
                assert("\"Kill\""@[0] != t[0]);
            }
            assert(t.take(add.len() as int) =~= add);
            assert(t.skip(add.len() as int) =~= json_string_array(files) + "}"@);
            lemma_read_string_array(files, "}"@);
        },
        CommandView::Show => {},
        CommandView::Kill => {
            assert("\"Kill\""@[1] != "\"Show\""@[1]);
        },
    }
}

/// `with_info` and `with_error` are `with_log_level` at the levels
/// `"info"` and `"error"`: the first builds an `Info`, the second an
/// `Error`, for every payload.
pub proof fn lemma_named_levels(payload: Seq<char>)
    ensures
        leveled(LOG_INFO@, payload) == ResponseView::Info(payload),
        leveled(LOG_ERROR@, payload) == ResponseView::Error(payload),
{
    reveal_strlit("info");
    reveal_strlit("error");
    assert(LOG_ERROR@.len() != LOG_INFO@.len());
}

/// The level `"info"` builds an `Info` response and every other level an
/// `Error` response, each carrying the payload unchanged.
pub proof fn lemma_level_decides_variant(level: Seq<char>, payload: Seq<char>)
    ensures
        level == "info"@ ==> leveled(level, payload) == ResponseView::Info(payload),
        level != "info"@ ==> leveled(level, payload) == ResponseView::Error(payload),
{
    reveal_strlit("info");
}

/// A response is logged at the level it was built with, and the payload it
/// was built from is what gets logged: `"info"` for the level `"info"`,
/// `"error"` for any other level.
pub proof fn lemma_logged_as_built(level: Seq<char>, payload: Seq<char>)
    ensures
        level_of(leveled(level, payload)) == (if level == LOG_INFO@ {
            LOG_INFO@
        } else {
            LOG_ERROR@
        }),
        payload_of(leveled(level, payload)) == payload,
{
}

/// The JSON text of every request holds only characters at or above
/// U+0020, so no NUL: file names are written as string literals, which
/// escape every control character.
pub proof fn lemma_command_json_printable(c: CommandView)
    ensures
        printable(command_json(c)),
        nul_free(command_json(c)),
{
    reveal_strlit("{\"Add\":");
    reveal_strlit("}");
    reveal_strlit("\"Show\"");
    reveal_strlit("\"Kill\"");
    if let CommandView::Add(files) = c {
        let lits = files.map_values(|s: Seq<char>| json_string_literal(s));
        assert forall|i: int| 0 <= i < lits.len() implies printable(#[trigger] lits[i]) by {
            lemma_literal_printable(files[i]);
        }
        lemma_join_printable(lits, seq![',']);
        let inner = join(lits, seq![',']);
        let arr = json_string_array(files);
        assert forall|i: int| 0 <= i < arr.len() implies (#[trigger] arr[i] as u32) >= 0x20 by {
            if 1 <= i < arr.len() - 1 {
                assert(arr[i] == inner[i - 1]);
            }
        }
        let whole = command_json(c);
        let pre = "{\"Add\":"@;
        assert forall|i: int| 0 <= i < whole.len() implies (#[trigger] whole[i] as u32) >= 0x20 by {
            if i < pre.len() {
                assert(whole[i] == pre[i]);
            } else if i < pre.len() + arr.len() {
                assert(whole[i] == arr[i - pre.len()]);
            }
        }
    }
}

impl Response {
    /// A response reporting success.
    pub fn with_info(payload: &str) -> (r: Self)
        ensures
            r@ == ResponseView::Info(payload@),
            r@ == leveled(LOG_INFO@, payload@),
    {
        Response::with_log_level(LOG_INFO, payload)
    }

    /// A response reporting a failure.
    pub fn with_error(payload: &str) -> (r: Self)
        ensures
            r@ == ResponseView::Error(payload@),
            r@ == leveled(LOG_ERROR@, payload@),
    {
        proof {
            lemma_named_levels(payload@);
        }
        Response::with_log_level(LOG_ERROR, payload)
    }

    /// A response at the given level: `Info` when the level is `"info"`,
    /// `Error` for every other level.
    pub fn with_log_level(log_level: LogLevel, payload: &str) -> (r: Self)
        ensures
            r@ == leveled(log_level@, payload@),
            log_level@ == "info"@ ==> r@ == ResponseView::Info(payload@),
            log_level@ != "info"@ ==> r@ == ResponseView::Error(payload@),
    {
        proof {
            reveal_strlit("info");
        }
        let level = log_level.to_owned();
        let info = LOG_INFO.to_owned();
        if level == info {
            Response::Info(payload.to_owned())
        } else {
            Response::Error(payload.to_owned())
        }
    }

    /// The JSON text of the response, as the daemon writes it to a client.
    pub fn to_string(&self) -> (r: String)
        ensures
            r@ == response_json(self@),
    {
        match self {
            Response::Info(p) => {
                let mut r = "{\"Info\":".to_owned();
                r.append(quote(p.as_str()).as_str());
                r.append("}");
                r
            },
            Response::Error(p) => {
                let mut r = "{\"Error\":".to_owned();
                r.append(quote(p.as_str()).as_str());
                r.append("}");
                r
            },
        }
    }

    /// The level at which the response is logged.
    pub fn log_level(&self) -> (l: LogLevel)
        ensures
            l@ == level_of(self@),
    {
        match self {
            Response::Info(_) => LOG_INFO,
            Response::Error(_) => LOG_ERROR,
        }
    }

    /// The text the response carries.
    pub fn payload(&self) -> (p: &str)
        ensures
            p@ == payload_of(self@),
    {
        match self {
            Response::Info(p) => p.as_str(),
            Response::Error(p) => p.as_str(),
        }
    }
}

impl Command {
    /// The JSON text of the request, as a client writes it to the daemon.
    /// The text holds no NUL character, so the daemon reads it back whole
    /// (see `daemon::lemma_request_round_trip`).
    pub fn to_json(&self) -> (r: String)
        ensures
            r@ == command_json(self@),
            printable(r@),
            nul_free(r@),
    {
        match self {
            Command::Add(files) => {
                let mut quoted: Vec<String> = Vec::new();
                let mut i: usize = 0;
                while i < files.len()
                    invariant
                        i <= files.len(),
                        quoted@.len() == i,
                        forall|j: int|
                            0 <= j < i ==> #[trigger] quoted@[j]@ == json_string_literal(
                                files@[j]@,
                            ),
                    decreases files.len() - i,
                {
                    quoted.push(quote(files[i].as_str()));
                    i = i + 1;
                }
                let ghost names = files@.map_values(|f: String| f@);
                assert(quoted@.map_values(|p: String| p@) =~= names.map_values(
                    |s: Seq<char>| json_string_literal(s),
                ));
                let mut r = "{\"Add\":[".to_owned();
                r.append(join_strings(&quoted, ",").as_str());
                r.append("]}");
                proof {
                    reveal_strlit("{\"Add\":[");
                    reveal_strlit("{\"Add\":");
                    reveal_strlit("]}");
                    reveal_strlit("}");
                    reveal_strlit(",");
                    assert(","@ =~= seq![',']);
                    let joined = join(quoted@.map_values(|p: String| p@), ","@);
                    assert(r@ =~= "{\"Add\":["@ + joined + "]}"@);
                    assert(json_string_array(names) =~= seq!['['] + joined + seq![']']);
                    assert(r@ =~= command_json(self@));
                    lemma_command_json_printable(self@);
                }
                r
            },
            Command::Show => {
                proof {
                    reveal_strlit("\"Show\"");
                    lemma_command_json_printable(self@);
                }
                "\"Show\"".to_owned()
            },
            Command::Kill => {
                proof {
                    reveal_strlit("\"Kill\"");
                    lemma_command_json_printable(self@);
                }
                "\"Kill\"".to_owned()
            },
        }
    }
}

/// The client side of the daemon's socket.
#[derive(Debug)]
pub struct Client {
    socket: &'static str,
}

impl Client {
    /// A client of the daemon's socket.
    pub fn new() -> (c: Self)
        ensures
            c.socket_path()@ == SOCKET_ADDR@,
    {
        Client { socket: SOCKET_ADDR }
    }

    /// The path of the socket the client connects to.
    pub closed spec fn socket_path(&self) -> &'static str {
        self.socket
    }

    /// The path of the socket the client connects to.
    pub fn socket(&self) -> (s: &'static str)
        ensures
            s == self.socket_path(),
    {
        self.socket
    }
}

} // verus!
