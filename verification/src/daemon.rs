//! The daemon: where it listens, how it reads a request off its socket, and
//! what it does with each request.

use vstd::prelude::*;
use vstd::utf8::*;
use crate::client::{
    Command, CommandView, Response, ResponseView, response_json, command_json, command_from_json,
    lemma_command_json_printable, lemma_command_text_round_trip,
};
use crate::handler::{FileHandler, FileHandlerView, WatchFileView, gist_ids};
use crate::json::lemma_escape_free_literal;

verus! {

/// Path of the daemon's socket.
pub const SOCKET_ADDR: &'static str = "/tmp/sync-memo.sock";

/// Path of the daemon's pid file.
pub const PID_FILE: &'static str = "/tmp/sync-memo.pid";

/// Size of the buffer a request is read into; the buffer starts out zeroed.
pub const REQUEST_BUFFER_SIZE: usize = 1000;

/// What the daemon says to a client that asked it to stop.
pub const KILL_MESSAGE: &'static str = "daemon killed";

/// The status the daemon exits with when asked to stop.
pub const KILL_EXIT_CODE: i32 = 1;

/// The bytes of a request that the daemon keeps: every non-zero byte.
pub open spec fn payload_byte() -> spec_fn(u8) -> bool {
    |b: u8| b > 0
}

/// The text of a request read into a zeroed buffer: the non-zero bytes,
/// decoded as UTF-8, or nothing when they are not valid UTF-8.
pub open spec fn request_text(buffer: Seq<u8>) -> Option<Seq<char>> {
    let kept = buffer.filter(payload_byte());
    if valid_utf8(kept) {
        Some(decode_utf8(kept))
    } else {
        None
    }
}

/// Decodes bytes as UTF-8 with `String::from_utf8`, which fails exactly on
/// bytes that are not valid UTF-8 and otherwise keeps the bytes as they are.
#[verifier::external_body]
fn utf8_string(bytes: Vec<u8>) -> (r: Option<String>)
    ensures
        r is Some <==> valid_utf8(bytes@),
        r matches Some(s) ==> s@ == decode_utf8(bytes@),
{
    String::from_utf8(bytes).ok()
}

/// The non-zero bytes of `buffer`, in order.
pub fn strip_padding(buffer: &[u8]) -> (r: Vec<u8>)
    ensures
        r@ == buffer@.filter(payload_byte()),
{
    let mut r: Vec<u8> = Vec::new();
    let mut i: usize = 0;
    while i < buffer.len()
        invariant
            i <= buffer.len(),
            r@ == buffer@.take(i as int).filter(payload_byte()),
        decreases buffer.len() - i,
    {
        proof {
            reveal(Seq::filter);
            assert(buffer@.take(i as int + 1).drop_last() =~= buffer@.take(i as int));
        }
        if buffer[i] > 0 {
            r.push(buffer[i]);
        }
        i = i + 1;
    }
    assert(buffer@.take(buffer.len() as int) =~= buffer@);
    r
}

/// The text of a request read into a zeroed buffer: its non-zero bytes
/// decoded as UTF-8; `None` when they are not valid UTF-8.
pub fn command_text(buffer: &[u8]) -> (r: Option<String>)
    ensures
        r is Some <==> request_text(buffer@) is Some,
        r matches Some(s) ==> request_text(buffer@) == Some(s@),
{
    utf8_string(strip_padding(buffer))
}

/// What the daemon does with a request.
#[derive(Debug, PartialEq, Eq)]
pub enum DaemonAction {
    /// Create a gist for each file, record it in the settings file and
    /// start watching it.
    AddFiles(Vec<String>),
    /// Fetch each of these gists and log it.
    ShowGists(Vec<String>),
    /// Write `reply` back to the client, then exit with `exit_code`.
    Shutdown { reply: String, exit_code: i32 },
}

/// What the daemon does, as a mathematical value.
pub enum DaemonActionView {
    AddFiles(Seq<Seq<char>>),
    ShowGists(Seq<Seq<char>>),
    Shutdown { reply: Seq<char>, exit_code: i32 },
}

impl View for DaemonAction {
    type V = DaemonActionView;

    open spec fn view(&self) -> DaemonActionView {
        match self {
            DaemonAction::AddFiles(files) => DaemonActionView::AddFiles(
                files@.map_values(|f: String| f@),
            ),
            DaemonAction::ShowGists(ids) => DaemonActionView::ShowGists(
                ids@.map_values(|s: String| s@),
            ),
            DaemonAction::Shutdown { reply, exit_code } => DaemonActionView::Shutdown {
                reply: reply@,
                exit_code: *exit_code,
            },
        }
    }
}

/// The daemon's answer to each request: `Add` adds and watches the named
/// files; `Show` fetches the gist of every synced file; `Kill` replies
/// with the info response "daemon killed" and stops with status 1.
pub open spec fn daemon_step(handler: FileHandlerView, command: CommandView) -> DaemonActionView {
    match command {
        CommandView::Add(files) => DaemonActionView::AddFiles(files),
        CommandView::Show => DaemonActionView::ShowGists(gist_ids(handler.files)),
        CommandView::Kill => DaemonActionView::Shutdown {
            reply: response_json(ResponseView::Info(KILL_MESSAGE@)),
            exit_code: KILL_EXIT_CODE,
        },
    }
}

/// Decides what the daemon does with a request.
pub fn handle_command(handler: &FileHandler, command: Command) -> (a: DaemonAction)
    ensures
        a@ == daemon_step(handler@, command@),
        command@ matches CommandView::Add(files) ==> a@ == DaemonActionView::AddFiles(files),
        command@ is Show ==> a@ == DaemonActionView::ShowGists(
            handler@.files.map_values(|w: WatchFileView| w.gist_id),
        ),
        command@ is Kill ==> a@ == (DaemonActionView::Shutdown {
            reply: "{\"Info\":\"daemon killed\"}"@,
            exit_code: 1,
        }),
{
    proof {
        lemma_kill_replies_and_exits(handler@);
    }
    match command {
        Command::Add(files) => DaemonAction::AddFiles(files),
        Command::Show => DaemonAction::ShowGists(handler.get_file_ids()),
        Command::Kill => {
            let response = Response::with_info(KILL_MESSAGE);
            DaemonAction::Shutdown { reply: response.to_string(), exit_code: KILL_EXIT_CODE }
        },
    }
}

/// An `Add` request makes the daemon add exactly the files it names: all
/// of them, in the order given.
pub proof fn lemma_add_adds_every_named_file(handler: FileHandlerView, files: Seq<Seq<char>>)
    ensures
        daemon_step(handler, CommandView::Add(files)) is AddFiles,
        daemon_step(handler, CommandView::Add(files))->AddFiles_0.len() == files.len(),
        forall|i: int|
            0 <= i < files.len() ==> #[trigger] daemon_step(
                handler,
                CommandView::Add(files),
            )->AddFiles_0[i] == files[i],
{
}

/// A `Show` request fetches the gist of every synced file: one per file,
/// in the order of the settings.
pub proof fn lemma_show_fetches_every_gist(handler: FileHandlerView)
    ensures
        daemon_step(handler, CommandView::Show) is ShowGists,
        daemon_step(handler, CommandView::Show)->ShowGists_0.len() == handler.files.len(),
        forall|i: int|
            0 <= i < handler.files.len() ==> #[trigger] daemon_step(
                handler,
                CommandView::Show,
            )->ShowGists_0[i] == handler.files[i].gist_id,
{
}

/// A `Kill` request makes the daemon reply `{"Info":"daemon killed"}` and
/// exit with status 1.
pub proof fn lemma_kill_replies_and_exits(handler: FileHandlerView)
    ensures
        daemon_step(handler, CommandView::Kill) == (DaemonActionView::Shutdown {
            reply: "{\"Info\":\"daemon killed\"}"@,
            exit_code: 1,
        }),
{
    reveal_strlit("daemon killed");
    reveal_strlit("{\"Info\":");
    reveal_strlit("}");
    reveal_strlit("{\"Info\":\"daemon killed\"}");
    lemma_escape_free_literal("daemon killed"@);
    assert(response_json(ResponseView::Info(KILL_MESSAGE@)) =~= "{\"Info\":\"daemon killed\"}"@);
}

/// True when no character of `text` is NUL.
pub open spec fn nul_free(text: Seq<char>) -> bool {
    forall|i: int| 0 <= i < text.len() ==> (text[i] as u32) != 0
}

/// `n` zero bytes: the part of the request buffer the read left untouched.
pub open spec fn zeros(n: nat) -> Seq<u8> {
    Seq::new(n, |_i: int| 0u8)
}

/// No byte of the UTF-8 encoding of a character other than NUL is zero.
proof fn lemma_scalar_bytes_nonzero(c: char)
    requires
        (c as u32) != 0,
    ensures
        forall|i: int|
            0 <= i < encode_scalar(c as u32).len() ==> #[trigger] encode_scalar(c as u32)[i] > 0,
{
    let v = c as u32;
    char_is_scalar(c);
    if has_width_1_encoding(v) {
        assert(leading_byte_width_1(v) > 0) by (bit_vector)
            requires
                0 < v <= 0x7F,
        ;
    } else {
        assert(leading_byte_width_2(v) > 0) by (bit_vector);
        assert(leading_byte_width_3(v) > 0) by (bit_vector);
        assert(leading_byte_width_4(v) > 0) by (bit_vector);
        assert(last_continuation_byte(v) > 0) by (bit_vector);
        assert(second_last_continuation_byte(v) > 0) by (bit_vector);
        assert(third_last_continuation_byte(v) > 0) by (bit_vector);
    }
}

/// No byte of the UTF-8 encoding of NUL-free text is zero.
proof fn lemma_encoding_nonzero(text: Seq<char>)
    requires
        nul_free(text),
    ensures
        forall|i: int| 0 <= i < encode_utf8(text).len() ==> #[trigger] encode_utf8(text)[i] > 0,
    decreases text.len(),
{
    if text.len() > 0 {
        lemma_scalar_bytes_nonzero(text[0]);
        lemma_encoding_nonzero(text.drop_first());
        let head = encode_scalar(text[0] as u32);
        let tail = encode_utf8(text.drop_first());
        assert(encode_utf8(text) == head + tail);
        assert forall|i: int| 0 <= i < (head + tail).len() implies #[trigger] (head + tail)[i] > 0 by {
            if i >= head.len() {
                assert((head + tail)[i] == tail[i - head.len()]);
            }
        }
    }
}

/// Filtering keeps a sequence of non-zero bytes whole.
proof fn lemma_filter_keeps_nonzero(s: Seq<u8>)
    requires
        forall|i: int| 0 <= i < s.len() ==> s[i] > 0,
    ensures
        s.filter(payload_byte()) == s,
    decreases s.len(),
{
    reveal(Seq::filter);
    if s.len() > 0 {
        lemma_filter_keeps_nonzero(s.drop_last());
        assert(s.drop_last().push(s.last()) =~= s);
    }
}

/// Filtering removes every zero byte of padding.
proof fn lemma_filter_drops_zeros(n: nat)
    ensures
        zeros(n).filter(payload_byte()) == Seq::<u8>::empty(),
    decreases n,
{
    reveal(Seq::filter);
    if n > 0 {
        lemma_filter_drops_zeros((n - 1) as nat);
        assert(zeros(n).drop_last() =~= zeros((n - 1) as nat));
    }
}

/// What a client writes is what the daemon reads: NUL-free text, encoded
/// as UTF-8 and followed by any number of zero bytes of padding, is read
/// back as the same text.
pub proof fn lemma_request_round_trip(text: Seq<char>, padding: nat)
    requires
        nul_free(text),
    ensures
        request_text(encode_utf8(text) + zeros(padding)) == Some(text),
{
    let bytes = encode_utf8(text);
    Seq::filter_distributes_over_add(bytes, zeros(padding), payload_byte());
    lemma_encoding_nonzero(text);
    lemma_filter_keeps_nonzero(bytes);
    lemma_filter_drops_zeros(padding);
    assert(bytes.filter(payload_byte()) + Seq::<u8>::empty() =~= bytes);
    encode_utf8_valid_utf8(text);
    encode_utf8_decode_utf8(text);
}

/// Every request a client can send reaches the daemon whole: the JSON text
/// of any command, encoded as UTF-8 and padded with zero bytes, is read
/// back as the same text, and that text reads back as the same command.
pub proof fn lemma_command_reaches_daemon(command: CommandView, padding: nat)
    ensures
        request_text(encode_utf8(command_json(command)) + zeros(padding)) == Some(
            command_json(command),
        ),
        command_from_json(command_json(command)) == Some(command),
{
    lemma_command_json_printable(command);
    lemma_request_round_trip(command_json(command), padding);
    lemma_command_text_round_trip(command);
}

} // verus!
