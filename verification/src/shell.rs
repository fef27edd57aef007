//! The shell tool: what it accepts, how long it may run, what is kept of a
//! command's output, and what the model is told of it.
//!
//! Output is captured per stream: the head and the tail are kept, with a
//! note between them, so that memory stays bounded whatever a command
//! prints. Text that is not UTF-8 degrades instead of failing.

use std::collections::VecDeque;

use vstd::prelude::*;
use vstd::utf8::{decode_utf8, valid_utf8};

use crate::compact::omission_note;
use crate::json::{no_members, Json, JsonView};
use crate::seqs::{group_views, opt_view, views};
use crate::text::{
    begins_with,
    contains,
    copy_of,
    decimal,
    decimal_i64,
    decimal_int,
    decimal_u64,
    ends_with,
    finishes_with,
    holds,
    join2,
    join3,
    lower,
    lowered,
    split,
    split_by,
    starts_with,
    trim,
    trimmed,
};
use crate::traits::{ToolOutput, ToolOutputView};

verus! {

broadcast use group_views;

pub const DEFAULT_TIMEOUT_SECS: u64 = 120;

pub const MAX_TIMEOUT_SECS: u64 = 600;

/// Bytes kept of each of a command's two streams.
pub const MAX_CAPTURE_BYTES: usize = 1_048_576;

/// Bytes of output that are shown while a command runs.
pub const MAX_LIVE_BYTES: usize = 262_144;

/// The arguments of a call.
#[derive(Debug, PartialEq)]
pub struct ShellArgs {
    pub command: String,
    pub workdir: Option<String>,
    pub timeout_ms: Option<u64>,
}

/// The shell tool's configuration.
#[derive(Debug)]
pub struct ShellTool {
    pub bash_path: Option<String>,
    pub default_timeout_ms: u64,
}

/// The smaller of two numbers.
pub open spec fn least(a: int, b: int) -> int {
    if a < b {
        a
    } else {
        b
    }
}

/// The time that a call may take, in milliseconds: what it asks for or the
/// default, at most the maximum and at least a tenth of a second.
pub open spec fn time_limit(default_ms: u64, asked: Option<u64>) -> int {
    let wanted = match asked {
        Some(ms) => ms,
        None => default_ms,
    };
    let capped = least(wanted as int, MAX_TIMEOUT_SECS * 1000);
    if capped < 100 {
        100
    } else {
        capped
    }
}

/// Whatever a call asks for, it may take between a tenth of a second and ten
/// minutes; what it asks for within that is kept to the millisecond.
pub proof fn law_time_limit_is_bounded(default_ms: u64, asked: Option<u64>)
    ensures
        100 <= time_limit(default_ms, asked) <= 600_000,
        match asked {
            Some(ms) => 100 <= ms <= 600_000 ==> time_limit(default_ms, asked) == ms,
            None => 100 <= default_ms <= 600_000 ==> time_limit(default_ms, asked) == default_ms,
        },
{
}

/// Whether a variable of the environment may hold a secret, and is kept
/// from commands: its name mentions an API key, ends in `_TOKEN` or begins
/// with `FORGE_`. Case does not count.
pub open spec fn is_sensitive(name: Seq<char>) -> bool {
    let n = lowered(name);
    holds(n, "api_key"@) || finishes_with(n, "_token"@) || begins_with(n, "forge_"@)
}

/// Whether a variable of the environment is kept from commands.
pub fn is_sensitive_variable(name: &str) -> (r: bool)
    ensures
        r == is_sensitive(name@),
{
    let n = lower(name);
    contains(&n, "api_key") || ends_with(&n, "_token") || starts_with(&n, "forge_")
}

/// Where Git for Windows usually puts the shell.
pub open spec fn usual_places() -> Seq<Seq<char>> {
    seq![
        "C:\\Program Files\\Git\\bin\\bash.exe"@,
        "C:\\Program Files\\Git\\usr\\bin\\bash.exe"@,
        "C:\\Program Files (x86)\\Git\\bin\\bash.exe"@,
    ]
}

/// The places where the shell is looked for, in order: the configured path,
/// the first line of what the search of the path printed, and the usual
/// places.
pub open spec fn places(
    configured: Option<Seq<char>>,
    search: Option<Seq<char>>,
) -> Seq<Seq<char>> {
    let first = match configured {
        Some(p) => seq![p],
        None => Seq::empty(),
    };
    let second = match search {
        Some(s) => if s.len() == 0 {
            Seq::empty()
        } else {
            seq![trimmed(split_by(s, '\n')[0])]
        },
        None => Seq::empty(),
    };
    first + second + usual_places()
}

/// The JSON schema of one argument.
pub open spec fn property(kind: Seq<char>, description: Seq<char>) -> JsonView {
    no_members().plus("type"@, JsonView::Str(kind)).plus(
        "description"@,
        JsonView::Str(description),
    )
}

/// The JSON schema of the arguments.
pub open spec fn schema() -> JsonView {
    no_members().plus("type"@, JsonView::Str("object"@)).plus(
        "properties"@,
        no_members().plus(
            "command"@,
            property("string"@, "The shell command to execute."@),
        ).plus(
            "workdir"@,
            property("string"@, "Optional working directory (Windows path)."@),
        ).plus(
            "timeout_ms"@,
            property("integer"@, "Optional timeout in milliseconds (max 600000)."@),
        ),
    ).plus("required"@, JsonView::Array(seq![JsonView::Str("command"@)]))
}

fn to_property(kind: &str, description: &str) -> (r: Json)
    ensures
        r@ == property(kind@, description@),
{
    Json::object().with("type", Json::string(kind)).with("description", Json::string(description))
}

impl ShellTool {
    /// A tool that runs the shell at `bash_path`, or one that it finds.
    pub fn new(bash_path: Option<String>, timeout_secs: u64) -> (r: ShellTool)
        ensures
            r.bash_path == bash_path,
            r.default_timeout_ms == least(timeout_secs as int, MAX_TIMEOUT_SECS as int) * 1000,
    {
        let secs: u64 = if timeout_secs < MAX_TIMEOUT_SECS {
            timeout_secs
        } else {
            MAX_TIMEOUT_SECS
        };
        ShellTool { bash_path, default_timeout_ms: secs * 1000 }
    }

    pub fn with_defaults() -> (r: ShellTool)
        ensures
            r.bash_path is None,
            r.default_timeout_ms == 120_000,
    {
        ShellTool::new(None, DEFAULT_TIMEOUT_SECS)
    }

    pub fn name(&self) -> (r: &str)
        ensures
            r@ == "shell"@,
    {
        "shell"
    }

    pub fn description(&self) -> (r: &str)
        ensures
            r@
                == "Executes a shell command (Git Bash) and returns its output. Use this for reading files (cat/ls), searching (grep/find), editing via command-line tools, running builds and tests. Prefer focused commands; avoid interactive ones."@,
    {
        "Executes a shell command (Git Bash) and returns its output. Use this for reading files (cat/ls), searching (grep/find), editing via command-line tools, running builds and tests. Prefer focused commands; avoid interactive ones."
    }

    /// The JSON schema of the arguments.
    pub fn parameters_schema(&self) -> (r: Json)
        ensures
            r@ == schema(),
    {
        let properties = Json::object().with(
            "command",
            to_property("string", "The shell command to execute."),
        ).with("workdir", to_property("string", "Optional working directory (Windows path).")).with(
            "timeout_ms",
            to_property("integer", "Optional timeout in milliseconds (max 600000)."),
        );
        Json::object().with("type", Json::string("object")).with("properties", properties).with(
            "required",
            Json::array1(Json::string("command")),
        )
    }

    /// The time that a call may take, in milliseconds.
    pub fn timeout_ms(&self, args: &ShellArgs) -> (r: u64)
        ensures
            r == time_limit(self.default_timeout_ms, args.timeout_ms),
    {
        let wanted: u64 = match args.timeout_ms {
            Some(ms) => ms,
            None => self.default_timeout_ms,
        };
        let capped: u64 = if wanted < MAX_TIMEOUT_SECS * 1000 {
            wanted
        } else {
            MAX_TIMEOUT_SECS * 1000
        };
        if capped < 100 {
            100
        } else {
            capped
        }
    }

    /// The places where the shell is looked for, in order; `search` is what
    /// the search of the path printed, where it succeeded.
    pub fn resolve_bash(&self, search: Option<&str>) -> (r: Vec<String>)
        ensures
            views(r@) == places(opt_view(self.bash_path), opt_view(search)),
    {
        let mut r: Vec<String> = Vec::new();
        if let Some(p) = &self.bash_path {
            r.push(copy_of(p));
        }
        if let Some(s) = search {
            if !s.is_empty() {
                let lines = split(s, '\n');
                proof {
                    crate::text::lemma_split_nonempty(s@, '\n');
                    assert(views(lines@).len() == lines@.len());
                }
                r.push(trim(&lines[0]));
            }
        }
        r.push(copy_of("C:\\Program Files\\Git\\bin\\bash.exe"));
        r.push(copy_of("C:\\Program Files\\Git\\usr\\bin\\bash.exe"));
        r.push(copy_of("C:\\Program Files (x86)\\Git\\bin\\bash.exe"));
        assert(views(r@) =~= places(opt_view(self.bash_path), opt_view(search)));
        r
    }
}

/// Bytes kept at the head of a stream, and as many at its tail.
pub const HALF_CAPTURE: usize = 524_288;

/// What is kept of one stream.
pub struct Capture {
    head: Vec<u8>,
    tail: VecDeque<u8>,
    /// How many bytes between head and tail were dropped.
    dropped: u64,
    /// Everything that came out of the stream.
    seen: Ghost<Seq<u8>>,
}

/// The head that is kept of a stream.
pub open spec fn kept_head(all: Seq<u8>) -> Seq<u8> {
    all.take(least(all.len() as int, HALF_CAPTURE as int))
}

/// The tail that is kept of a stream: the last bytes behind the head.
pub open spec fn kept_tail(all: Seq<u8>) -> Seq<u8> {
    let rest = all.skip(kept_head(all).len() as int);
    rest.skip(rest.len() - least(rest.len() as int, HALF_CAPTURE as int))
}

/// How many bytes are dropped between head and tail.
pub open spec fn dropped_bytes(all: Seq<u8>) -> int {
    all.len() - kept_head(all).len() - kept_tail(all).len()
}

/// The text that `String::from_utf8_lossy` gives for bytes.
pub uninterp spec fn lossy_text(bytes: Seq<u8>) -> Seq<char>;

/// `String::from_utf8_lossy`: the text is a function of the bytes, and
/// bytes that are UTF-8 give what they encode.
#[verifier::external_body]
fn from_utf8_lossy(bytes: &[u8]) -> (r: String)
    ensures
        r@ == lossy_text(bytes@),
        valid_utf8(bytes@) ==> r@ == decode_utf8(bytes@),
{
    String::from_utf8_lossy(bytes).into_owned()
}

/// Decodes output; what is not UTF-8 is replaced.
pub fn decode_lossy(bytes: &[u8]) -> (r: String)
    ensures
        r@ == lossy_text(bytes@),
        valid_utf8(bytes@) ==> r@ == decode_utf8(bytes@),
{
    from_utf8_lossy(bytes)
}

/// The text kept of a stream, given the texts of all its bytes, of its head
/// and of its tail.
pub open spec fn kept_text(
    all: Seq<u8>,
    whole: Seq<char>,
    head: Seq<char>,
    tail: Seq<char>,
) -> Seq<char> {
    if dropped_bytes(all) == 0 {
        whole
    } else {
        head + omission_note(dropped_bytes(all) as nat) + tail
    }
}

/// The text kept of a stream.
pub open spec fn captured_text(all: Seq<u8>) -> Seq<char> {
    kept_text(all, lossy_text(all), lossy_text(kept_head(all)), lossy_text(kept_tail(all)))
}

/// What is decoded of a stream is UTF-8: all of it where nothing is dropped,
/// else its head and its tail.
pub open spec fn kept_is_utf8(all: Seq<u8>) -> bool {
    if dropped_bytes(all) == 0 {
        valid_utf8(all)
    } else {
        valid_utf8(kept_head(all)) && valid_utf8(kept_tail(all))
    }
}

/// The text kept of a stream whose kept parts are UTF-8: what they encode.
pub open spec fn decoded_text(all: Seq<u8>) -> Seq<char> {
    kept_text(all, decode_utf8(all), decode_utf8(kept_head(all)), decode_utf8(kept_tail(all)))
}

impl Capture {
    /// Everything that came out of the stream.
    pub closed spec fn all(&self) -> Seq<u8> {
        self.seen@
    }

    /// What is kept is the head and the tail of the stream.
    pub closed spec fn well_formed(&self) -> bool {
        &&& self.head@ == kept_head(self.seen@)
        &&& self.tail@ == kept_tail(self.seen@)
        &&& self.dropped == dropped_bytes(self.seen@)
    }

    /// The capture of a stream that has brought nothing yet.
    pub fn new() -> (r: Capture)
        ensures
            r.well_formed(),
            r.all() == Seq::<u8>::empty(),
    {
        let r = Capture {
            head: Vec::new(),
            tail: VecDeque::new(),
            dropped: 0,
            seen: Ghost(Seq::empty()),
        };
        assert(r.head@ =~= kept_head(r.seen@));
        assert(r.tail@ =~= kept_tail(r.seen@));
        r
    }

    fn push_byte(&mut self, b: u8)
        requires
            old(self).well_formed(),
            old(self).all().len() < u64::MAX,
        ensures
            final(self).well_formed(),
            final(self).all() == old(self).all().push(b),
    {
        let ghost before = self.seen@;
        let ghost after = before.push(b);
        if self.head.len() < HALF_CAPTURE {
            self.head.push(b);
            self.seen = Ghost(after);
            assert(self.head@ =~= kept_head(after));
            assert(self.tail@ =~= kept_tail(after));
        } else {
            assert(kept_head(after) =~= kept_head(before));
            let ghost old_tail = self.tail@;
            if self.tail.len() >= HALF_CAPTURE {
                let _ = self.tail.pop_front();
                assert(dropped_bytes(after) == dropped_bytes(before) + 1);
                self.dropped = self.dropped + 1;
                self.tail.push_back(b);
                self.seen = Ghost(after);
                assert(self.tail@ =~= kept_tail(after));
            } else {
                self.tail.push_back(b);
                self.seen = Ghost(after);
                assert(self.tail@ =~= kept_tail(after));
            }
        }
    }

    /// Takes one chunk of the stream.
    pub fn push(&mut self, chunk: &[u8])
        requires
            old(self).well_formed(),
            old(self).all().len() + chunk@.len() <= u64::MAX,
        ensures
            final(self).well_formed(),
            final(self).all() == old(self).all() + chunk@,
    {
        let n: usize = chunk.len();
        let ghost before = self.all();
        assert(before + chunk@.take(0) =~= before);
        for i in 0..n
            invariant
                n == chunk@.len(),
                self.well_formed(),
                before.len() + chunk@.len() <= u64::MAX,
                self.all() == before + chunk@.take(i as int),
        {
            self.push_byte(chunk[i]);
            assert(before + chunk@.take(i + 1) =~= (before + chunk@.take(i as int)).push(
                chunk@[i as int],
            ));
        }
        assert(chunk@.take(n as int) =~= chunk@);
    }

    /// Whether the stream has brought nothing.
    pub fn is_empty(&self) -> (r: bool)
        requires
            self.well_formed(),
        ensures
            r == (self.all().len() == 0),
    {
        self.head.len() == 0
    }

    /// The bytes that are kept, at most so many.
    pub fn kept_len(&self) -> (n: usize)
        requires
            self.well_formed(),
        ensures
            n == kept_head(self.all()).len() + kept_tail(self.all()).len(),
            n <= MAX_CAPTURE_BYTES,
    {
        self.head.len() + self.tail.len()
    }

    /// The text kept of the stream.
    pub fn text(&self) -> (r: String)
        requires
            self.well_formed(),
        ensures
            r@ == captured_text(self.all()),
            valid_utf8(self.all()) && dropped_bytes(self.all()) == 0 ==> r@ == decode_utf8(
                self.all(),
            ),
            kept_is_utf8(self.all()) ==> r@ == decoded_text(self.all()),
    {
        let mut tail: Vec<u8> = Vec::new();
        let n: usize = self.tail.len();
        for i in 0..n
            invariant
                n == self.tail@.len(),
                tail@ == self.tail@.take(i as int),
        {
            tail.push(self.tail[i]);
            assert(tail@ =~= self.tail@.take(i + 1));
        }
        assert(tail@ =~= self.tail@);
        if self.dropped == 0 {
            let mut whole: Vec<u8> = Vec::new();
            let m: usize = self.head.len();
            for i in 0..m
                invariant
                    m == self.head@.len(),
                    whole@ == self.head@.take(i as int),
            {
                whole.push(self.head[i]);
                assert(whole@ =~= self.head@.take(i + 1));
            }
            whole.append(&mut tail);
            assert(whole@ =~= self.all());
            decode_lossy(whole.as_slice())
        } else {
            let note = join3(
                "\n\u{2026}",
                &decimal_u64(self.dropped),
                " bytes truncated\u{2026}\n",
            );
            join3(
                &decode_lossy(self.head.as_slice()),
                &note,
                &decode_lossy(tail.as_slice()),
            )
        }
    }
}

/// Memory stays bounded whatever a command prints: of each stream at most
/// so many bytes are kept. A stream that fits is kept whole.
pub proof fn law_capture_is_bounded(all: Seq<u8>)
    ensures
        kept_head(all).len() + kept_tail(all).len() <= MAX_CAPTURE_BYTES,
        all.len() <= MAX_CAPTURE_BYTES ==> kept_head(all) + kept_tail(all) == all,
        dropped_bytes(all) >= 0,
        dropped_bytes(all) == 0 <==> all.len() <= MAX_CAPTURE_BYTES,
{
    if all.len() <= MAX_CAPTURE_BYTES {
        assert(kept_head(all) + kept_tail(all) =~= all);
    }
}

/// Output that is shown while a command runs, within a budget.
pub struct LiveBudget {
    left: usize,
}

impl LiveBudget {
    /// How much may still be shown.
    pub closed spec fn remaining(&self) -> nat {
        self.left as nat
    }

    pub fn new() -> (r: LiveBudget)
        ensures
            r.remaining() == MAX_LIVE_BYTES,
    {
        LiveBudget { left: MAX_LIVE_BYTES }
    }

    /// How much of a chunk of `n` bytes is shown.
    pub fn take(&mut self, n: usize) -> (shown: usize)
        ensures
            shown == least(n as int, old(self).remaining() as int),
            final(self).remaining() == old(self).remaining() - shown,
    {
        let shown: usize = if n < self.left {
            n
        } else {
            self.left
        };
        self.left = self.left - shown;
        shown
    }
}

/// The last line of a result: the exit code, or that there is none.
pub open spec fn exit_line(exit_code: Option<i32>) -> Seq<char> {
    "exit code: "@ + match exit_code {
        Some(c) => decimal_int(c as int),
        None => "signal"@,
    }
}

/// The merged text of a result, given the texts of the two streams.
pub open spec fn merged(
    timed_out_after: Option<u64>,
    err_empty: bool,
    err: Seq<char>,
    out: Seq<char>,
    exit_code: Option<i32>,
) -> Seq<char> {
    let first = match timed_out_after {
        Some(ms) => "command timed out after "@ + decimal(ms as nat) + " ms\n"@,
        None => Seq::empty(),
    };
    let second = if err_empty {
        Seq::empty()
    } else {
        "stderr:\n"@ + err + "\n"@
    };
    first + second + ("stdout:\n"@ + out + "\n"@) + exit_line(exit_code)
}

/// Merges the texts of the two streams into the text of a result.
pub fn merge_output(
    timed_out_after: Option<u64>,
    err_empty: bool,
    err: &str,
    out: &str,
    exit_code: Option<i32>,
) -> (r: String)
    ensures
        r@ == merged(timed_out_after, err_empty, err@, out@, exit_code),
{
    let first = match timed_out_after {
        Some(ms) => join3("command timed out after ", &decimal_u64(ms), " ms\n"),
        None => String::new(),
    };
    let second = if err_empty {
        String::new()
    } else {
        join3("stderr:\n", err, "\n")
    };
    let third = join3("stdout:\n", out, "\n");
    let last = match exit_code {
        Some(c) => join2("exit code: ", &decimal_i64(c as i64)),
        None => join2("exit code: ", "signal"),
    };
    let r = join2(&join3(&first, &second, &third), &last);
    assert(r@ =~= merged(timed_out_after, err_empty, err@, out@, exit_code));
    r
}

/// The result of a command. Output that arrived before a timeout is kept;
/// a command that timed out has no exit code.
pub fn finish(
    stdout: &Capture,
    stderr: &Capture,
    exit_code: Option<i32>,
    timed_out_after: Option<u64>,
    duration_ms: u64,
) -> (r: ToolOutput)
    requires
        stdout.well_formed(),
        stderr.well_formed(),
    ensures
        r@ == (ToolOutputView {
            content: merged(
                timed_out_after,
                stderr.all().len() == 0,
                captured_text(stderr.all()),
                captured_text(stdout.all()),
                if timed_out_after is Some {
                    None
                } else {
                    exit_code
                },
            ),
            exit_code: if timed_out_after is Some {
                None
            } else {
                exit_code
            },
            timed_out: timed_out_after is Some,
            duration_ms,
        }),
        valid_utf8(stdout.all()) && dropped_bytes(stdout.all()) == 0 ==> r@.content == merged(
            timed_out_after,
            stderr.all().len() == 0,
            captured_text(stderr.all()),
            decode_utf8(stdout.all()),
            r@.exit_code,
        ),
        kept_is_utf8(stdout.all()) && kept_is_utf8(stderr.all()) ==> r@.content == merged(
            timed_out_after,
            stderr.all().len() == 0,
            decoded_text(stderr.all()),
            decoded_text(stdout.all()),
            r@.exit_code,
        ),
{
    let code = if timed_out_after.is_some() {
        None
    } else {
        exit_code
    };
    ToolOutput {
        content: merge_output(
            timed_out_after,
            stderr.is_empty(),
            &stderr.text(),
            &stdout.text(),
            code,
        ),
        exit_code: code,
        timed_out: timed_out_after.is_some(),
        duration_ms,
    }
}

/// Of a stream that does not fit, the first and the last bytes are kept, as
/// many of the one as of the other, and the gap is counted exactly.
pub proof fn law_capture_keeps_both_ends(all: Seq<u8>)
    requires
        all.len() > MAX_CAPTURE_BYTES,
    ensures
        kept_head(all) == all.take(524_288),
        kept_tail(all) == all.skip(all.len() - 524_288),
        dropped_bytes(all) == all.len() - 1_048_576,
        captured_text(all) == lossy_text(all.take(524_288)) + omission_note(
            (all.len() - 1_048_576) as nat,
        ) + lossy_text(all.skip(all.len() - 524_288)),
{
    assert(kept_head(all) =~= all.take(524_288));
    assert(kept_tail(all) =~= all.skip(all.len() - 524_288));
}

/// Of a stream that fits, the text is that of all its bytes.
pub proof fn law_short_output_is_kept_whole(all: Seq<u8>)
    requires
        all.len() <= MAX_CAPTURE_BYTES,
    ensures
        captured_text(all) == lossy_text(all),
{
    law_capture_is_bounded(all);
}

/// The result of a command tells, in this order and nothing else, that it
/// timed out, what it wrote as errors where it wrote any, what it wrote,
/// and how it ended.
pub proof fn law_result_tells_everything(
    ms: u64,
    err: Seq<char>,
    out: Seq<char>,
    code: i32,
)
    ensures
        merged(None, true, err, out, Some(code)) == "stdout:\n"@ + out + "\n"@ + "exit code: "@
            + decimal_int(code as int),
        merged(None, false, err, out, Some(code)) == "stderr:\n"@ + err + "\n"@ + merged(
            None,
            true,
            err,
            out,
            Some(code),
        ),
        merged(None, true, err, out, None) == "stdout:\n"@ + out + "\n"@ + "exit code: "@
            + "signal"@,
        merged(None, false, err, out, None) == "stderr:\n"@ + err + "\n"@ + merged(
            None,
            true,
            err,
            out,
            None,
        ),
        forall|e: bool| #[trigger]
            merged(Some(ms), e, err, out, None) == "command timed out after "@ + decimal(
                ms as nat,
            ) + " ms\n"@ + merged(None, e, err, out, None),
{
    assert(merged(None, true, err, out, Some(code)) =~= "stdout:\n"@ + out + "\n"@
        + "exit code: "@ + decimal_int(code as int));
    assert(merged(None, false, err, out, Some(code)) =~= "stderr:\n"@ + err + "\n"@ + merged(
        None,
        true,
        err,
        out,
        Some(code),
    ));
    assert(merged(None, true, err, out, None) =~= "stdout:\n"@ + out + "\n"@ + "exit code: "@
        + "signal"@);
    assert(merged(None, false, err, out, None) =~= "stderr:\n"@ + err + "\n"@ + merged(
        None,
        true,
        err,
        out,
        None,
    ));
    assert forall|e: bool| #[trigger] merged(Some(ms), e, err, out, None)
        == "command timed out after "@ + decimal(ms as nat) + " ms\n"@ + merged(
        None,
        e,
        err,
        out,
        None,
    ) by {
        assert(merged(Some(ms), e, err, out, None) =~= "command timed out after "@ + decimal(
            ms as nat,
        ) + " ms\n"@ + merged(None, e, err, out, None));
    }
}

/// A variable is kept from commands wherever its name, in whatever case,
/// mentions an API key, ends like a token or begins like one of the
/// program's own.
pub proof fn law_secrets_are_kept_from_commands(
    name: Seq<char>,
    before: Seq<char>,
    after: Seq<char>,
)
    ensures
        lowered(name) == before + "api_key"@ + after ==> is_sensitive(name),
        lowered(name) == before + "_token"@ ==> is_sensitive(name),
        lowered(name) == "forge_"@ + after ==> is_sensitive(name),
        is_sensitive(name) ==> {
            ||| exists|i: int| #[trigger] crate::text::holds_at(lowered(name), "api_key"@, i)
            ||| finishes_with(lowered(name), "_token"@)
            ||| begins_with(lowered(name), "forge_"@)
        },
{
    let n = lowered(name);
    if n == before + "api_key"@ + after {
        let k = before.len() as int;
        assert(n.subrange(k, k + "api_key"@.len()) =~= "api_key"@);
        assert(crate::text::holds_at(n, "api_key"@, k));
    }
    if n == before + "_token"@ {
        assert(n.skip(n.len() - "_token"@.len()) =~= "_token"@);
    }
    if n == "forge_"@ + after {
        assert(n.take("forge_"@.len() as int) =~= "forge_"@);
    }
}

/// A configured shell is looked for first, then the one that the search of
/// the path found, and the usual places last, always.
pub proof fn law_configured_shell_comes_first(
    configured: Option<Seq<char>>,
    search: Option<Seq<char>>,
)
    ensures
        ({
            let r = places(configured, search);
            let n = r.len();
            &&& n >= 3
            &&& r.skip(n - 3) == usual_places()
            &&& configured matches Some(p) ==> r[0] == p
            &&& search matches Some(s) ==> s.len() > 0 ==> r[n - 4] == trimmed(
                split_by(s, '\n')[0],
            )
            &&& n == 3 + (if configured is Some {
                1int
            } else {
                0int
            }) + (if search is Some && search->0.len() > 0 {
                1int
            } else {
                0int
            })
        }),
{
    let r = places(configured, search);
    assert(r.skip(r.len() - 3) =~= usual_places());
}

/// The schema tells the model what the tool takes: a command, which it must
/// give, a directory and a time limit, each with its type.
pub proof fn law_schema_names_the_arguments()
    ensures
        ({
            let p = schema().member("properties"@);
            &&& schema().text_at("type"@) == Some("object"@)
            &&& p matches Some(props) && {
                &&& props.text_at2("command"@, "type"@) == Some("string"@)
                &&& props.text_at2("workdir"@, "type"@) == Some("string"@)
                &&& props.text_at2("timeout_ms"@, "type"@) == Some("integer"@)
                &&& props.text_at2("command"@, "description"@) is Some
            }
            &&& schema().member("required"@) matches Some(r) && r.items() == Some(
                seq![JsonView::Str("command"@)],
            )
        }),
{
    broadcast use crate::json::law_added_member_is_found;

    reveal_strlit("type");
    reveal_strlit("description");
    reveal_strlit("properties");
    reveal_strlit("required");
    reveal_strlit("command");
    reveal_strlit("workdir");
    reveal_strlit("timeout_ms");
    assert("type"@.len() == 4 && "description"@.len() == 11 && "properties"@.len() == 10
        && "required"@.len() == 8 && "command"@.len() == 7 && "workdir"@.len() == 7
        && "timeout_ms"@.len() == 10);
    assert("command"@[0] == 'c' && "workdir"@[0] == 'w');
}

} // verus!
