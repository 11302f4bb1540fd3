//! Read-only command access for context lookups.
//!
//! The configured command is split by shell-word rules, runs with the query as its
//! last argument, and is bounded in time and in the text that it returns.
use vstd::prelude::*;
use vstd::string::*;

use crate::text;

verus! {

/// Time budget for one lookup, in milliseconds.
pub const CONTEXT_LOOKUP_TIMEOUT_MS: u64 = 10_000;

/// Largest result, in bytes, with the marker of a cut.
pub const MAX_CONTEXT_LOOKUP_RESULT_BYTES: usize = 4_096;

/// Bytes that are kept of an output: enough to tell that it is too long, and to
/// complete a character that the bound cuts.
pub const CAPTURE_BYTES: usize = 4_100;

/// The marker of a cut.
pub open spec fn marker() -> Seq<char> {
    "\n[context lookup output truncated]"@
}

/// The words that `shlex::split` splits a command line into.
pub uninterp spec fn shell_words(command: Seq<char>) -> Option<Seq<Seq<char>>>;

/// The texts of optional words.
pub open spec fn opt_texts(words: Option<Vec<String>>) -> Option<Seq<Seq<char>>> {
    match words {
        Some(words) => Some(text::texts(words@)),
        None => None,
    }
}

/// Calls `shlex::split`: the words of a command line by the rules of a shell, and
/// `None` where a quote or an escape is not ended.
#[verifier::external_body]
fn split_words(command: &str) -> (r: Option<Vec<String>>)
    ensures
        opt_texts(r) == shell_words(command@),
{
    shlex::split(command)
}

/// The text of the error that `str::from_utf8` gives for bytes that are not UTF-8.
pub uninterp spec fn utf8_failure(bytes: Seq<u8>) -> Seq<char>;

/// How bytes fail to be UTF-8.
pub struct Utf8Failure {
    /// The length of the longest prefix that is UTF-8.
    pub valid_up_to: usize,
    /// Whether the bytes end within a character.
    pub cut_short: bool,
    /// The text of the error.
    pub message: String,
}

impl Utf8Failure {
    /// Whether `bytes` are UTF-8 up to where this says, and no further.
    pub open spec fn is_of(self, bytes: Seq<u8>) -> bool {
        &&& self.valid_up_to < bytes.len()
        &&& vstd::utf8::valid_utf8(bytes.take(self.valid_up_to as int))
        &&& forall|k: int|
            self.valid_up_to < k <= bytes.len() ==> !vstd::utf8::valid_utf8(
                #[trigger] bytes.take(k),
            )
    }
}

/// Whether bytes are the start of a text in UTF-8.
pub open spec fn starts_a_text(bytes: Seq<u8>) -> bool {
    exists|more: Seq<u8>| vstd::utf8::valid_utf8(#[trigger] (bytes + more))
}

/// Calls `str::from_utf8` and takes what its error says: up to where the bytes are
/// UTF-8, the longest such prefix; whether the input ended unexpectedly, which is at
/// most three bytes behind that and is so exactly of the start of a text, whose last
/// character more bytes could complete; and the error's text.
#[verifier::external_body]
fn check_utf8(bytes: &Vec<u8>) -> (r: Option<Utf8Failure>)
    ensures
        match r {
            Some(failure) => failure.is_of(bytes@) && failure.message@ == utf8_failure(bytes@)
                && failure.cut_short == starts_a_text(bytes@) && (failure.cut_short
                ==> bytes@.len() - failure.valid_up_to <= 3),
            None => vstd::utf8::valid_utf8(bytes@),
        },
{
    match std::str::from_utf8(bytes) {
        Ok(_) => None,
        Err(error) => Some(
            Utf8Failure {
                valid_up_to: error.valid_up_to(),
                cut_short: error.error_len().is_none(),
                message: error.to_string(),
            },
        ),
    }
}

/// The command that answers context lookups.
#[derive(Debug)]
pub struct CommandContextProvider {
    pub program: String,
    pub args: Vec<String>,
    pub timeout_ms: u64,
}

impl CommandContextProvider {
    /// Whether this runs these words with this time budget.
    pub open spec fn runs(self, words: Seq<Seq<char>>, timeout_ms: u64) -> bool {
        &&& words.len() > 0
        &&& self.program@ == words[0]
        &&& text::texts(self.args@) == words.skip(1)
        &&& self.timeout_ms == timeout_ms
    }

    /// The provider that runs the words of a command, the first of which names the
    /// program.
    pub fn from_words(words: Option<Vec<String>>, timeout_ms: u64) -> (r: Result<Self, String>)
        ensures
            match opt_texts(words) {
                None => r matches Err(message) && message@
                    == "context command contains an unmatched quote or escape"@,
                Some(words) => if words.len() == 0 {
                    r matches Err(message) && message@ == "context command must name a program"@
                } else {
                    r matches Ok(provider) && provider.runs(words, timeout_ms)
                },
            },
    {
        let words = match words {
            Some(words) => words,
            None => {
                return Err("context command contains an unmatched quote or escape".to_owned());
            },
        };
        proof {
            assert(text::texts(words@).len() == words@.len());
        }
        if words.len() == 0 {
            return Err("context command must name a program".to_owned());
        }
        let program = words[0].clone();
        let mut args: Vec<String> = Vec::new();
        let ghost all = text::texts(words@);
        let mut i: usize = 1;
        while i < words.len()
            invariant
                1 <= i <= words@.len(),
                all == text::texts(words@),
                text::texts(args@) == all.subrange(1, i as int),
            decreases words@.len() - i,
        {
            let ghost before = text::texts(args@);
            args.push(words[i].clone());
            proof {
                assert(text::texts(args@) =~= before.push(words@[i as int]@));
                assert(all.subrange(1, i + 1) =~= all.subrange(1, i as int).push(all[i as int]));
            }
            i += 1;
        }
        proof {
            assert(all.subrange(1, i as int) =~= all.skip(1));
            assert(all[0] == words@[0]@);
        }
        Ok(CommandContextProvider { program, args, timeout_ms })
    }

    /// Parses a command line into its program and fixed arguments.
    pub fn new(command: &str) -> (r: Result<Self, String>)
        ensures
            match shell_words(command@) {
                None => r matches Err(message) && message@
                    == "context command contains an unmatched quote or escape"@,
                Some(words) => if words.len() == 0 {
                    r matches Err(message) && message@ == "context command must name a program"@
                } else {
                    r matches Ok(provider) && provider.runs(words, CONTEXT_LOOKUP_TIMEOUT_MS)
                },
            },
    {
        CommandContextProvider::from_words(split_words(command), CONTEXT_LOOKUP_TIMEOUT_MS)
    }

    /// As [`CommandContextProvider::new`], with another time budget.
    pub fn with_timeout(command: &str, timeout_ms: u64) -> (r: Result<Self, String>)
        ensures
            match shell_words(command@) {
                None => r matches Err(message) && message@
                    == "context command contains an unmatched quote or escape"@,
                Some(words) => if words.len() == 0 {
                    r matches Err(message) && message@ == "context command must name a program"@
                } else {
                    r matches Ok(provider) && provider.runs(words, timeout_ms)
                },
            },
    {
        CommandContextProvider::from_words(split_words(command), timeout_ms)
    }

    /// The arguments of a lookup: the fixed ones, and the query as the last.
    pub fn arguments(&self, query: &str) -> (r: Vec<String>)
        ensures
            text::texts(r@) == text::texts(self.args@).push(query@),
    {
        let mut out = text::copy_texts(&self.args);
        let ghost before = text::texts(out@);
        out.push(query.to_owned());
        proof {
            assert(text::texts(out@) =~= before.push(query@));
        }
        out
    }
}

/// The first bytes of `bytes`, as many as are kept.
pub open spec fn captured_of(bytes: Seq<u8>) -> Seq<u8> {
    if bytes.len() > CAPTURE_BYTES {
        bytes.take(CAPTURE_BYTES as int)
    } else {
        bytes
    }
}

/// Keeps of the next chunk of an output what still fits; the rest is dropped.
pub fn drain_capped(captured: &mut Vec<u8>, chunk: &[u8])
    requires
        old(captured)@.len() <= CAPTURE_BYTES,
    ensures
        final(captured)@ == captured_of(old(captured)@ + chunk@),
        final(captured)@.len() <= CAPTURE_BYTES,
{
    let ghost before = captured@;
    let remaining: usize = CAPTURE_BYTES - captured.len();
    let kept: usize = if chunk.len() < remaining {
        chunk.len()
    } else {
        remaining
    };
    let mut i: usize = 0;
    while i < kept
        invariant
            i <= kept <= chunk@.len(),
            captured@ == before + chunk@.take(i as int),
        decreases kept - i,
    {
        captured.push(chunk[i]);
        proof {
            assert(chunk@.take(i + 1) =~= chunk@.take(i as int).push(chunk@[i as int]));
            assert(before + chunk@.take(i + 1) =~= (before + chunk@.take(i as int)).push(
                chunk@[i as int],
            ));
        }
        i += 1;
    }
    proof {
        assert(captured@ =~= captured_of(before + chunk@));
    }
}

/// Draining an output chunk by chunk keeps the start of the whole output, however it
/// was cut into chunks.
pub proof fn draining_keeps_the_start(read: Seq<u8>, chunk: Seq<u8>)
    ensures
        captured_of(captured_of(read) + chunk) == captured_of(read + chunk),
{
    assert(captured_of(captured_of(read) + chunk) =~= captured_of(read + chunk));
}

/// The last place at or before `end` where a text can be cut.
pub open spec fn cut_before(s: Seq<char>, end: int) -> int
    decreases end,
{
    if end <= 0 || text::cuts_at(s, end) {
        end
    } else {
        cut_before(s, end - 1)
    }
}

/// A text too long to return: its start and the marker, within the bound.
pub open spec fn cut_text(s: Seq<char>) -> Seq<char> {
    let bytes = vstd::utf8::encode_utf8(s);
    let room = MAX_CONTEXT_LOOKUP_RESULT_BYTES - vstd::utf8::encode_utf8(marker()).len();
    let end = if room < bytes.len() {
        room
    } else {
        bytes.len() as int
    };
    text::byte_prefix(s, cut_before(s, end)) + marker()
}

/// The text that is returned of an output, or the error: an output within the bound
/// as it is; of a longer one, which the bound may have cut within a character, its
/// start and the marker.
pub open spec fn bounded(bytes: Seq<u8>, stream: Seq<char>) -> Result<Seq<char>, Seq<char>> {
    let long = bytes.len() > MAX_CONTEXT_LOOKUP_RESULT_BYTES;
    let prefix = bytes.take(valid_length(bytes));
    if vstd::utf8::valid_utf8(bytes) {
        if long {
            Ok(cut_text(vstd::utf8::decode_utf8(bytes)))
        } else {
            Ok(vstd::utf8::decode_utf8(bytes))
        }
    } else if long && starts_a_text(bytes) {
        Ok(cut_text(vstd::utf8::decode_utf8(prefix)))
    } else {
        Err("context command emitted non-UTF-8 "@ + stream + ": "@ + utf8_failure(bytes))
    }
}

/// The length of the longest prefix that is UTF-8.
pub open spec fn valid_length(bytes: Seq<u8>) -> int {
    longest_valid(bytes, bytes.len() as int)
}

/// The length of the longest prefix of at most `k` bytes that is UTF-8.
pub open spec fn longest_valid(bytes: Seq<u8>, k: int) -> int
    decreases k,
{
    if k <= 0 || vstd::utf8::valid_utf8(bytes.take(k)) {
        k
    } else {
        longest_valid(bytes, k - 1)
    }
}

proof fn longest_valid_is(bytes: Seq<u8>, n: int, k: int)
    requires
        0 <= n <= k <= bytes.len(),
        vstd::utf8::valid_utf8(bytes.take(n)),
        forall|j: int|
            n < j <= k ==> !vstd::utf8::valid_utf8(#[trigger] bytes.take(j)),
    ensures
        longest_valid(bytes, k) == n,
    decreases k,
{
    if k > n {
        assert(!vstd::utf8::valid_utf8(bytes.take(k)));
        longest_valid_is(bytes, n, k - 1);
    }
}

fn write_cut(s: &str) -> (r: String)
    ensures
        r@ == cut_text(s@),
{
    let length: usize = s.as_bytes().len();
    let mark: usize = "\n[context lookup output truncated]".as_bytes().len();
    proof {
        reveal_strlit("\n[context lookup output truncated]");
        assert(vstd::utf8::is_ascii_chars(marker()));
        vstd::utf8::is_ascii_chars_encode_utf8(marker());
        assert(mark == marker().len());
        vstd::utf8::encode_utf8_valid_utf8(s@);
    }
    let room: usize = MAX_CONTEXT_LOOKUP_RESULT_BYTES - mark;
    let mut end: usize = if room < length {
        room
    } else {
        length
    };
    let ghost start = end as int;
    while !s.is_char_boundary(end)
        invariant
            cut_before(s@, start) == cut_before(s@, end as int),
            vstd::utf8::valid_utf8(s.spec_bytes()),
        decreases end,
    {
        proof {
            assert(end > 0);
        }
        end -= 1;
    }
    let mut out = text::prefix_bytes(s, end);
    out.append("\n[context lookup output truncated]");
    out
}

/// Whether bytes can be what is kept of an output that is a text: the text itself, or
/// the start of one that is too long to return.
pub open spec fn captures_a_text(bytes: Seq<u8>) -> bool {
    vstd::utf8::valid_utf8(bytes) || (bytes.len() > MAX_CONTEXT_LOOKUP_RESULT_BYTES
        && starts_a_text(bytes))
}

/// What is kept of a text is returned, however long the text is and wherever the cut
/// falls: a command that prints a text is never refused for it.
pub proof fn captured_texts_are_returned(output: Seq<u8>, stream: Seq<char>)
    requires
        vstd::utf8::valid_utf8(output),
    ensures
        captures_a_text(captured_of(output)),
        bounded(captured_of(output), stream) is Ok,
{
    if output.len() > CAPTURE_BYTES {
        let rest = output.skip(CAPTURE_BYTES as int);
        assert(captured_of(output) + rest =~= output);
    }
}

/// The text that is returned of an output, or the error.
pub fn bounded_text(bytes: Vec<u8>, stream: &str) -> (r: Result<String, String>)
    ensures
        match bounded(bytes@, stream@) {
            Ok(s) => r matches Ok(t) && t@ == s,
            Err(s) => r matches Err(t) && t@ == s,
        },
        r is Ok <==> captures_a_text(bytes@),
{
    let ghost all = bytes@;
    let long: bool = bytes.len() > MAX_CONTEXT_LOOKUP_RESULT_BYTES;
    let mut kept = bytes;
    if let Some(failure) = check_utf8(&kept) {
        proof {
            assert(all.take(all.len() as int) =~= all);
            longest_valid_is(all, failure.valid_up_to as int, all.len() as int);
            assert(!vstd::utf8::valid_utf8(all));
        }
        if !long || !failure.cut_short {
            let mut message = "context command emitted non-UTF-8 ".to_owned();
            message.append(stream);
            message.append(": ");
            message.append(failure.message.as_str());
            return Err(message);
        }
        kept.truncate(failure.valid_up_to);
        proof {
            assert(kept@ =~= all.take(valid_length(all)));
        }
    }
    let s = text::utf8_text(kept).unwrap();
    if long {
        Ok(write_cut(s.as_str()))
    } else {
        Ok(s)
    }
}

proof fn cut_is_a_cut(s: Seq<char>, end: int)
    requires
        0 <= end,
    ensures
        0 <= cut_before(s, end) <= end,
        text::cuts_at(s, cut_before(s, end)),
    decreases end,
{
    vstd::utf8::encode_utf8_valid_utf8(s);
    if end > 0 && !text::cuts_at(s, end) {
        cut_is_a_cut(s, end - 1);
    }
}

/// Whatever a command prints, the text that is returned has no more bytes than the
/// bound.
pub proof fn returned_texts_are_bounded(bytes: Seq<u8>, stream: Seq<char>)
    ensures
        bounded(bytes, stream) matches Ok(s) ==> vstd::utf8::encode_utf8(s).len()
            <= MAX_CONTEXT_LOOKUP_RESULT_BYTES,
{
    if let Ok(s) = bounded(bytes, stream) {
        if bytes.len() > MAX_CONTEXT_LOOKUP_RESULT_BYTES {
            let whole = if vstd::utf8::valid_utf8(bytes) {
                vstd::utf8::decode_utf8(bytes)
            } else {
                vstd::utf8::decode_utf8(bytes.take(valid_length(bytes)))
            };
            let room = MAX_CONTEXT_LOOKUP_RESULT_BYTES - vstd::utf8::encode_utf8(marker()).len();
            let length = vstd::utf8::encode_utf8(whole).len() as int;
            let end = if room < length {
                room
            } else {
                length
            };
            reveal_strlit("\n[context lookup output truncated]");
            assert(vstd::utf8::is_ascii_chars(marker()));
            vstd::utf8::is_ascii_chars_encode_utf8(marker());
            cut_is_a_cut(whole, end);
            text::bytes_of_a_prefix(whole, cut_before(whole, end));
            text::bytes_of_a_concatenation(
                text::byte_prefix(whole, cut_before(whole, end)),
                marker(),
            );
        } else {
            vstd::utf8::decode_utf8_encode_utf8(bytes);
        }
    }
}

/// What is known of the running command.
#[derive(Clone, Copy, Debug, PartialEq, Eq, Structural)]
pub enum ChildState {
    /// It has ended.
    Ended,
    /// It runs.
    Running,
    /// Its state could not be read.
    Unreadable,
}

/// What is done about the running command.
#[derive(Clone, Copy, Debug, PartialEq, Eq, Structural)]
pub enum PollStep {
    /// Its output is collected.
    Collect,
    /// It is waited for.
    Wait,
    /// It is ended, and the lookup fails for time.
    TimeOut,
    /// It is ended, and the lookup fails.
    Fail,
}

/// Decides what is done about the running command: it may run until the deadline.
pub fn poll_step(state: ChildState, past_deadline: bool) -> (r: PollStep)
    ensures
        r == match state {
            ChildState::Ended => PollStep::Collect,
            ChildState::Running => if past_deadline {
                PollStep::TimeOut
            } else {
                PollStep::Wait
            },
            ChildState::Unreadable => PollStep::Fail,
        },
{
    match state {
        ChildState::Ended => PollStep::Collect,
        ChildState::Running => if past_deadline {
            PollStep::TimeOut
        } else {
            PollStep::Wait
        },
        ChildState::Unreadable => PollStep::Fail,
    }
}

/// What a failed command said: its trimmed error output, where there is any.
pub open spec fn failure_detail(stderr: Seq<char>) -> Seq<char> {
    if text::trimmed(stderr).len() == 0 {
        "no error output"@
    } else {
        text::trimmed(stderr)
    }
}

/// What comes of a command that ended: its bounded output where it succeeded, and
/// otherwise the error with what it said.
pub open spec fn concluded(
    success: bool,
    status: Seq<char>,
    stdout: Seq<u8>,
    stderr: Seq<u8>,
) -> Result<Seq<char>, Seq<char>> {
    if success {
        bounded(stdout, "stdout"@)
    } else {
        match bounded(stderr, "stderr"@) {
            Ok(said) => Err(
                "context command failed with "@ + status + ": "@ + failure_detail(said),
            ),
            Err(error) => Err(error),
        }
    }
}

/// Concludes the lookup once the command has ended and its outputs were read.
pub fn conclude(success: bool, status: &str, stdout: Vec<u8>, stderr: Vec<u8>) -> (r: Result<
    String,
    String,
>)
    ensures
        match concluded(success, status@, stdout@, stderr@) {
            Ok(s) => r matches Ok(t) && t@ == s,
            Err(s) => r matches Err(t) && t@ == s,
        },
        r is Ok <==> success && captures_a_text(stdout@),
{
    if success {
        return bounded_text(stdout, "stdout");
    }
    match bounded_text(stderr, "stderr") {
        Ok(said) => {
            let detail = text::trim(said.as_str());
            let mut message = "context command failed with ".to_owned();
            message.append(status);
            message.append(": ");
            if detail.as_str().is_empty() {
                message.append("no error output");
            } else {
                message.append(detail.as_str());
            }
            Err(message)
        },
        Err(error) => Err(error),
    }
}

/// What is kept of an output is its start: all of it up to the bound, and the bytes up to
/// there of a longer one.
pub proof fn captures_are_the_start(bytes: Seq<u8>)
    ensures
        captured_of(bytes).len() == (if bytes.len() <= 4_100 {
            bytes.len() as int
        } else {
            4_100
        }),
        captured_of(bytes) == bytes.take(captured_of(bytes).len() as int),
{
    assert(captured_of(bytes) =~= bytes.take(captured_of(bytes).len() as int));
}

/// A short output is returned as it was printed. A long one is returned as its start and
/// the marker: what stands before the marker is what was printed first, and where all of
/// it was a text, nothing more of it fits before the bound.
pub proof fn returned_texts_are_what_was_printed(bytes: Seq<u8>, stream: Seq<char>)
    ensures
        bounded(bytes, stream) matches Ok(s) ==> {
            &&& bytes.len() <= 4_096 ==> vstd::utf8::encode_utf8(s) == bytes
            &&& bytes.len() > 4_096 ==> {
                let kept = s.len() - marker().len();
                &&& 0 <= kept
                &&& s.skip(kept) == "\n[context lookup output truncated]"@
                &&& vstd::utf8::encode_utf8(s.take(kept)).len() <= bytes.len()
                &&& vstd::utf8::encode_utf8(s.take(kept)) == bytes.take(
                    vstd::utf8::encode_utf8(s.take(kept)).len() as int,
                )
                &&& vstd::utf8::valid_utf8(bytes) ==> (forall|j: int|
                    vstd::utf8::encode_utf8(s.take(kept)).len() < j <= 4_096
                        - vstd::utf8::encode_utf8(marker()).len()
                        ==> !#[trigger] vstd::utf8::is_char_boundary(bytes, j))
            }
        },
        bounded(bytes, stream) is Err ==> !vstd::utf8::valid_utf8(bytes),
        vstd::utf8::valid_utf8(bytes) ==> bounded(bytes, stream) is Ok,
{
    if let Ok(s) = bounded(bytes, stream) {
        if bytes.len() > MAX_CONTEXT_LOOKUP_RESULT_BYTES {
            let n = valid_length(bytes);
            longest_valid_lies_within(bytes, bytes.len() as int);
            let part = if vstd::utf8::valid_utf8(bytes) {
                bytes
            } else {
                bytes.take(n)
            };
            assert(part == bytes.take(part.len() as int)) by {
                assert(bytes.take(bytes.len() as int) =~= bytes);
            }
            assert(vstd::utf8::valid_utf8(part));
            let whole = vstd::utf8::decode_utf8(part);
            vstd::utf8::decode_utf8_encode_utf8(part);
            let room = MAX_CONTEXT_LOOKUP_RESULT_BYTES - vstd::utf8::encode_utf8(marker()).len();
            let end = if room < part.len() {
                room
            } else {
                part.len() as int
            };
            reveal_strlit("\n[context lookup output truncated]");
            assert(vstd::utf8::is_ascii_chars(marker()));
            vstd::utf8::is_ascii_chars_encode_utf8(marker());
            cut_is_a_cut(whole, end);
            let cut = cut_before(whole, end);
            text::bytes_of_a_prefix(whole, cut);
            let kept = s.len() - marker().len();
            assert(s.take(kept) =~= text::byte_prefix(whole, cut));
            assert(s.skip(kept) =~= marker());
            assert(part.take(cut) =~= bytes.take(cut));
            cut_is_the_last(whole, end);
        } else {
            vstd::utf8::decode_utf8_encode_utf8(bytes);
        }
    }
}

proof fn longest_valid_lies_within(bytes: Seq<u8>, k: int)
    requires
        0 <= k <= bytes.len(),
    ensures
        0 <= longest_valid(bytes, k) <= k,
        vstd::utf8::valid_utf8(bytes.take(longest_valid(bytes, k))),
    decreases k,
{
    if k == 0 {
        assert(bytes.take(0) =~= Seq::empty());
    } else if !vstd::utf8::valid_utf8(bytes.take(k)) {
        longest_valid_lies_within(bytes, k - 1);
    }
}

/// A command that succeeded gives what it printed, and its error output does not matter.
/// One that failed gives an error, with its status and what it said of it, where it said
/// anything.
pub proof fn failed_commands_give_no_text(
    success: bool,
    status: Seq<char>,
    stdout: Seq<u8>,
    stderr: Seq<u8>,
    other: Seq<u8>,
)
    ensures
        success ==> concluded(success, status, stdout, stderr) == concluded(
            success,
            status,
            stdout,
            other,
        ) && concluded(success, status, stdout, stderr) == bounded(stdout, "stdout"@),
        !success ==> concluded(success, status, stdout, stderr) is Err && concluded(
            success,
            status,
            stdout,
            stderr,
        ) == concluded(success, status, other, stderr),
        !success ==> (bounded(stderr, "stderr"@) matches Ok(said) ==> (concluded(
            success,
            status,
            stdout,
            stderr,
        ) matches Err(message) && message == "context command failed with "@ + status + ": "@ + (
        if text::trimmed(said).len() > 0 {
            text::trimmed(said)
        } else {
            "no error output"@
        }))),
{
}

proof fn cut_is_the_last(s: Seq<char>, end: int)
    ensures
        forall|j: int| cut_before(s, end) < j <= end ==> !#[trigger] text::cuts_at(s, j),
        forall|j: int|
            cut_before(s, end) < j <= end ==> !#[trigger] vstd::utf8::is_char_boundary(
                vstd::utf8::encode_utf8(s),
                j,
            ),
    decreases end,
{
    if end > 0 && !text::cuts_at(s, end) {
        cut_is_the_last(s, end - 1);
    }
}

} // verus!
