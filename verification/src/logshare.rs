//! Log sharing: the settings, the records of shared logs, the upload body, and the
//! server-sent-event stream of the log analysis.
use vstd::prelude::*;
use vstd::utf8::{decode_utf8, valid_utf8};

use crate::error::{other_error, ErrorKind};
use crate::json_tree::{json_parse_result, json_view, parse_json_text, JsonTree, JsonView};
use crate::text::{
    chars_of, index_of_from, join_spec, join_strings, lemma_index_of_from, find_char_from,
    starts_with_spec, str_eq, str_starts_with, string_from_chars, to_owned_string, trim_spec,
    trim_start_spec, trim_start_string, trim_string,
};

verus! {

/// The LogShare service.
pub const LOGSHARE_BASE_URL: &'static str = "https://api.logshare.cn";

/// Seconds the analysis stream may stay silent.
pub const LOGSHARE_AI_READ_TIMEOUT_SECS: u64 = 300;

/// The start of the source identifier sent with uploads.
pub const LOGSHARE_SOURCE_PREFIX: &'static str = "axolotl";

/// Characters of an error response kept in a message.
pub const RESPONSE_EXCERPT_CHARS: usize = 500;

/// How logs are shared and analysed.
#[derive(Clone, Debug, PartialEq, Eq)]
pub struct LogShareSettings {
    pub share_provider: String,
    pub ai_source: String,
    pub auto_upload: bool,
    pub multi_file: bool,
    pub no_storage: bool,
    pub show_progress: bool,
}

impl Default for LogShareSettings {
    fn default() -> (s: Self)
        ensures
            s.share_provider@ == "logshare"@,
            s.ai_source@ == "logshare"@,
            s.auto_upload,
            s.multi_file,
            !s.no_storage,
            s.show_progress,
    {
        LogShareSettings {
            share_provider: to_owned_string("logshare"),
            ai_source: to_owned_string("logshare"),
            auto_upload: true,
            multi_file: true,
            no_storage: false,
            show_progress: true,
        }
    }
}

/// A log that was shared.
#[derive(Clone, Debug, PartialEq, Eq)]
pub struct SharedLog {
    pub id: String,
    pub url: String,
    pub raw: String,
    pub token: String,
    pub provider: String,
    pub instance_id: Option<String>,
    pub instance_name: Option<String>,
    pub truncated: bool,
    pub created_at: i64,
}

/// What LogShare answers to an upload.
#[derive(Clone, Debug, PartialEq, Eq)]
pub struct LogShareUploadResponse {
    pub success: bool,
    pub id: String,
    pub url: String,
    pub raw: String,
    pub token: String,
}

/// What LogShare answers to a deletion.
#[derive(Clone, Debug, PartialEq, Eq)]
pub struct LogShareDeleteResponse {
    pub success: bool,
    pub deleted: Vec<String>,
    pub failed: Vec<String>,
}

/// Settings as they are stored: a provider other than LogShare means mclo.gs, an AI
/// source other than LogShare means a custom one.
pub fn normalize_settings(settings: LogShareSettings) -> (r: LogShareSettings)
    ensures
        r.share_provider@ == if settings.share_provider@ == "logshare"@ {
            "logshare"@
        } else {
            "mclogs"@
        },
        r.ai_source@ == if settings.ai_source@ == "logshare"@ {
            "logshare"@
        } else {
            "custom"@
        },
        r.auto_upload == settings.auto_upload,
        r.multi_file == settings.multi_file,
        r.no_storage == settings.no_storage,
        r.show_progress == settings.show_progress,
{
    let mut settings = settings;
    if !str_eq(settings.share_provider.as_str(), "logshare") {
        settings.share_provider = to_owned_string("mclogs");
    }
    if !str_eq(settings.ai_source.as_str(), "logshare") {
        settings.ai_source = to_owned_string("custom");
    }
    settings
}

/// Seconds since the Unix epoch (`SystemTime::now` since `UNIX_EPOCH`, 0 for a clock
/// set before it). Nothing is stated of the value: it is the machine's time.
#[verifier::external_body]
fn now_seconds() -> i64 {
    match std::time::UNIX_EPOCH.elapsed() {
        Ok(elapsed) => elapsed.as_secs() as i64,
        Err(_) => 0,
    }
}

/// When a shared log is recorded: its own time, unless that lies before `now`.
pub fn recorded_created_at(created_at: i64, now: i64) -> (r: i64)
    ensures
        r == if created_at >= now {
            created_at
        } else {
            now
        },
{
    if created_at >= now {
        created_at
    } else {
        now
    }
}

/// A shared log as it is recorded: the same log, created no earlier than now (by the
/// machine's clock) and never earlier than it says.
pub fn shared_log_to_record(log: SharedLog) -> (r: SharedLog)
    ensures
        r.created_at >= log.created_at,
        r == (SharedLog { created_at: r.created_at, ..log }),
{
    let now = now_seconds();
    let created_at = recorded_created_at(log.created_at, now);
    SharedLog { created_at, ..log }
}

/// The source identifier sent with uploads: `axolotl/<version>`.
pub fn source_identifier(version: &str) -> (r: String)
    ensures
        r@ == LOGSHARE_SOURCE_PREFIX@ + "/"@ + version@,
{
    let mut r = to_owned_string(LOGSHARE_SOURCE_PREFIX);
    r.append("/");
    r.append(version);
    r
}

/// A file of an upload.
#[derive(Clone, Debug, PartialEq, Eq)]
pub struct UploadFile {
    pub name: String,
    pub content: String,
}

/// A metadata entry of an upload.
#[derive(Clone, Debug, PartialEq, Eq)]
pub struct UploadMetadata {
    pub key: String,
    pub value: String,
}

/// What is uploaded for a crash: either the combined log or its files, metadata, and
/// the source identifier.
#[derive(Clone, Debug, PartialEq, Eq)]
pub struct UploadBody {
    pub content: String,
    pub files: Vec<UploadFile>,
    pub metadata: Vec<UploadMetadata>,
    pub source: String,
}

/// The views of upload files.
pub open spec fn upload_file_views(files: Seq<UploadFile>) -> Seq<(Seq<char>, Seq<char>)> {
    files.map_values(|f: UploadFile| (f.name@, f.content@))
}

/// The views of strings.
pub open spec fn string_views(v: Seq<String>) -> Seq<Seq<char>> {
    v.map_values(|s: String| s@)
}

/// Builds the upload of a crash: with several files allowed and some sources, the
/// sources are sent as files and the combined log is left empty; otherwise the combined
/// log is sent alone. The metadata names the launcher and the mods the analysis matched.
pub fn upload_body(
    combined_log: &str,
    multi_file: bool,
    sources: &Vec<UploadFile>,
    matched_mods: &Vec<String>,
    source: String,
) -> (r: UploadBody)
    ensures
        multi_file ==> upload_file_views(r.files@) == upload_file_views(sources@),
        !multi_file ==> r.files@.len() == 0,
        r.files@.len() == 0 ==> r.content@ == combined_log@,
        r.files@.len() > 0 ==> r.content@.len() == 0,
        r.metadata@.len() == 2,
        r.metadata@[0].key@ == "launcher"@ && r.metadata@[0].value@ == "axolotl"@,
        r.metadata@[1].key@ == "matched_mods"@ && r.metadata@[1].value@ == join_spec(
            string_views(matched_mods@),
            ", "@,
        ),
        r.source == source,
{
    let mut files: Vec<UploadFile> = Vec::new();
    if multi_file {
        let mut i: usize = 0;
        while i < sources.len()
            invariant
                i <= sources.len(),
                files@.len() == i,
                forall|j: int|
                    0 <= j < i ==> #[trigger] files@[j].name@ == sources@[j].name@ && files@[j].content@
                        == sources@[j].content@,
            decreases sources.len() - i,
        {
            files.push(UploadFile { name: sources[i].name.clone(), content: sources[i].content.clone() });
            i = i + 1;
        }
        assert(upload_file_views(files@) =~= upload_file_views(sources@));
    }
    let content = if files.len() == 0 {
        to_owned_string(combined_log)
    } else {
        String::new()
    };
    let mods = join_strings(matched_mods.as_slice(), ", ");
    let mut metadata: Vec<UploadMetadata> = Vec::new();
    metadata.push(UploadMetadata { key: to_owned_string("launcher"), value: to_owned_string("axolotl") });
    metadata.push(UploadMetadata { key: to_owned_string("matched_mods"), value: mods });
    UploadBody { content, files, metadata, source }
}

/// The first `n` characters of `s`.
pub open spec fn excerpt(s: Seq<char>, n: nat) -> Seq<char> {
    if s.len() <= n {
        s
    } else {
        s.take(n as int)
    }
}

/// The first characters of a response, for an error message.
pub fn response_excerpt(text: &str) -> (r: String)
    ensures
        r@ == excerpt(text@, RESPONSE_EXCERPT_CHARS as nat),
{
    let chars = chars_of(text);
    if chars.len() <= RESPONSE_EXCERPT_CHARS {
        to_owned_string(text)
    } else {
        proof {
            assert(chars@.subrange(0, RESPONSE_EXCERPT_CHARS as int) =~= text@.take(RESPONSE_EXCERPT_CHARS as int));
        }
        string_from_chars(&chars, 0, RESPONSE_EXCERPT_CHARS)
    }
}

/// The JSON text parses as one value (`serde_json::from_str::<Value>`).
pub uninterp spec fn json_parses(text: Seq<char>) -> bool;

/// The string at a JSON pointer of a JSON text, if the text parses and holds a string
/// there (`Value::pointer` then `Value::as_str`).
pub uninterp spec fn json_string_at(text: Seq<char>, pointer: Seq<char>) -> Option<Seq<char>>;

/// The boolean at a JSON pointer of a JSON text, if the text parses and holds a
/// boolean there (`Value::pointer` then `Value::as_bool`).
pub uninterp spec fn json_bool_at(text: Seq<char>, pointer: Seq<char>) -> Option<bool>;

/// The view of an optional string.
pub open spec fn opt_string_view(s: Option<String>) -> Option<Seq<char>> {
    match s {
        Some(v) => Some(v@),
        None => None,
    }
}

/// A parsed JSON value (`serde_json::Value`), carried through opaquely.
#[verifier::external_type_specification]
#[verifier::external_body]
pub struct ExJsonValue(serde_json::Value);

/// Parses JSON text with `serde_json::from_str::<Value>`; it succeeds exactly when
/// `json_parses` holds of the text. What the value holds is left unsaid: the value is
/// opaque to the library, which only carries it through.
#[verifier::external_body]
fn parse_json_value(text: &str) -> (r: Option<serde_json::Value>)
    ensures
        r is Some <==> json_parses(text@),
{
    serde_json::from_str::<serde_json::Value>(text).ok()
}

/// Parses JSON text with `serde_json::from_str::<Value>` and reads the string at a JSON
/// pointer (`Value::pointer`, `Value::as_str`); the result is `json_string_at`, and
/// nothing when the text does not parse.
#[verifier::external_body]
pub(crate) fn json_text_string_at(text: &str, pointer: &str) -> (r: Option<String>)
    ensures
        opt_string_view(r) == json_string_at(text@, pointer@),
        !json_parses(text@) ==> r is None,
{
    serde_json::from_str::<serde_json::Value>(text).ok().and_then(
        |value| value.pointer(pointer).and_then(serde_json::Value::as_str).map(str::to_string),
    )
}

/// Parses JSON text with `serde_json::from_str::<Value>` and reads the boolean at a
/// JSON pointer (`Value::pointer`, `Value::as_bool`); the result is `json_bool_at`, and
/// nothing when the text does not parse.
#[verifier::external_body]
fn json_text_bool_at(text: &str, pointer: &str) -> (r: Option<bool>)
    ensures
        r == json_bool_at(text@, pointer@),
        !json_parses(text@) ==> r is None,
{
    serde_json::from_str::<serde_json::Value>(text).ok().and_then(
        |value| value.pointer(pointer).and_then(serde_json::Value::as_bool),
    )
}

/// `prefix` followed by `rest`.
fn concat(prefix: &str, rest: &str) -> (r: String)
    ensures
        r@ == prefix@ + rest@,
{
    let mut r = to_owned_string(prefix);
    r.append(rest);
    r
}

/// The string at `pointer`, or the empty string.
pub open spec fn string_or_empty(text: Seq<char>, pointer: Seq<char>) -> Seq<char> {
    match json_string_at(text, pointer) {
        Some(s) => s,
        None => Seq::empty(),
    }
}

/// Reads LogShare's answer to an upload: a failed HTTP status is an error quoting the
/// start of the body; a body that is not JSON, or whose `success` is not `true`, is an
/// error (quoting its `error` string); otherwise the link fields are read, empty when
/// absent.
pub fn upload_response(status_ok: bool, status: &str, text: &str) -> (r: Result<LogShareUploadResponse, ErrorKind>)
    ensures
        !status_ok ==> (r matches Err(ErrorKind::OtherError(m)) && m@ == "LogShare upload failed with HTTP "@
            + status@ + ": "@ + excerpt(text@, RESPONSE_EXCERPT_CHARS as nat)),
        status_ok && !json_parses(text@) ==> (r matches Err(ErrorKind::OtherError(m)) && m@
            == "LogShare returned invalid JSON"@),
        status_ok && json_parses(text@) && json_bool_at(text@, "/success"@) != Some(true) ==> (r matches Err(
            ErrorKind::OtherError(m),
        ) && m@ == "LogShare upload failed: "@ + match json_string_at(text@, "/error"@) {
            Some(e) => e,
            None => "unknown error"@,
        }),
        status_ok && json_parses(text@) && json_bool_at(text@, "/success"@) == Some(true) ==> (r matches Ok(
            resp,
        ) && resp.success && resp.id@ == string_or_empty(text@, "/id"@) && resp.url@ == string_or_empty(
            text@,
            "/url"@,
        ) && resp.raw@ == string_or_empty(text@, "/raw"@) && resp.token@ == string_or_empty(
            text@,
            "/token"@,
        )),
{
    if !status_ok {
        let mut m = to_owned_string("LogShare upload failed with HTTP ");
        m.append(status);
        m.append(": ");
        let ex = response_excerpt(text);
        m.append(ex.as_str());
        return Err(ErrorKind::OtherError(m));
    }
    if parse_json_value(text).is_none() {
        return Err(other_error("LogShare returned invalid JSON"));
    }
    match json_text_bool_at(text, "/success") {
        Some(true) => {},
        _ => {
            let reason = match json_text_string_at(text, "/error") {
                Some(e) => e,
                None => to_owned_string("unknown error"),
            };
            return Err(ErrorKind::OtherError(concat("LogShare upload failed: ", reason.as_str())));
        },
    }
    let id = match json_text_string_at(text, "/id") {
        Some(s) => s,
        None => String::new(),
    };
    let url = match json_text_string_at(text, "/url") {
        Some(s) => s,
        None => String::new(),
    };
    let raw = match json_text_string_at(text, "/raw") {
        Some(s) => s,
        None => String::new(),
    };
    let token = match json_text_string_at(text, "/token") {
        Some(s) => s,
        None => String::new(),
    };
    Ok(LogShareUploadResponse { success: true, id, url, raw, token })
}

/// `needle` occurs in `haystack` at `p`.
pub open spec fn bytes_at(haystack: Seq<u8>, needle: Seq<u8>, p: int) -> bool {
    0 <= p && p + needle.len() <= haystack.len() && haystack.subrange(p, p + needle.len()) == needle
}

/// The first position at or after `from` where `needle` occurs in `haystack`, or `-1`.
pub open spec fn first_match(haystack: Seq<u8>, needle: Seq<u8>, from: int) -> int
    decreases haystack.len() + 1 - from,
{
    if from < 0 || from + needle.len() > haystack.len() {
        -1
    } else if bytes_at(haystack, needle, from) {
        from
    } else {
        first_match(haystack, needle, from + 1)
    }
}

/// What `first_match` finds.
pub(crate) proof fn lemma_first_match(haystack: Seq<u8>, needle: Seq<u8>, from: int)
    requires
        0 <= from,
    ensures
        first_match(haystack, needle, from) == -1 || (from <= first_match(haystack, needle, from)
            && bytes_at(haystack, needle, first_match(haystack, needle, from))),
        first_match(haystack, needle, from) == -1 ==> forall|q: int|
            from <= q ==> !bytes_at(haystack, needle, q),
    decreases haystack.len() + 1 - from,
{
    if from + needle.len() <= haystack.len() && !bytes_at(haystack, needle, from) {
        lemma_first_match(haystack, needle, from + 1);
        assert forall|q: int| from <= q && first_match(haystack, needle, from) == -1 implies !bytes_at(
            haystack,
            needle,
            q,
        ) by {
            if q == from {
            }
        }
    }
}

/// The first position of a non-empty `needle` in `haystack`.
pub fn find_bytes(haystack: &[u8], needle: &[u8]) -> (r: Option<usize>)
    requires
        needle@.len() > 0,
    ensures
        r matches Some(p) ==> p as int == first_match(haystack@, needle@, 0),
        r is None ==> first_match(haystack@, needle@, 0) == -1,
{
    if needle.len() > haystack.len() {
        return None;
    }
    let last = haystack.len() - needle.len();
    let mut p: usize = 0;
    while p <= last
        invariant
            0 < needle@.len() <= haystack@.len() <= usize::MAX,
            last == haystack@.len() - needle@.len(),
            p <= last + 1,
            first_match(haystack@, needle@, 0) == first_match(haystack@, needle@, p as int),
        decreases last + 1 - p,
    {
        let mut j: usize = 0;
        let mut same = true;
        assert(p + needle@.len() <= haystack@.len());
        while j < needle.len()
            invariant
                p + needle@.len() <= haystack@.len() <= usize::MAX,
                j <= needle@.len(),
                same == forall|k: int| 0 <= k < j ==> haystack@[p + k] == needle@[k],
            decreases needle.len() - j,
        {
            if haystack[p + j] != needle[j] {
                same = false;
            }
            j = j + 1;
        }
        proof {
            if same {
                assert(haystack@.subrange(p as int, p + needle@.len()) =~= needle@);
            } else {
                if bytes_at(haystack@, needle@, p as int) {
                    let k = choose|k: int| 0 <= k < needle@.len() && haystack@[p + k] != needle@[k];
                    assert(haystack@.subrange(p as int, p + needle@.len())[k] == haystack@[p + k]);
                }
            }
        }
        if same {
            return Some(p);
        }
        p = p + 1;
    }
    None
}

/// Where the next event of a stream buffer ends: the earlier of a blank line (`\n\n`)
/// and a CRLF blank line (`\r\n\r\n`), with the separator's length.
pub open spec fn next_separator(buffer: Seq<u8>) -> Option<(int, int)> {
    let lf = first_match(buffer, seq![10u8, 10u8], 0);
    let crlf = first_match(buffer, seq![13u8, 10u8, 13u8, 10u8], 0);
    if lf >= 0 && crlf >= 0 && crlf < lf {
        Some((crlf, 4))
    } else if lf >= 0 {
        Some((lf, 2))
    } else if crlf >= 0 {
        Some((crlf, 4))
    } else {
        None
    }
}

/// The complete event blocks of a stream buffer, in order, and what is left after them.
pub open spec fn split_blocks(buffer: Seq<u8>) -> (Seq<Seq<u8>>, Seq<u8>)
    decreases buffer.len(),
{
    match next_separator(buffer) {
        Some((pos, len)) => if 0 <= pos && 0 < len && pos + len <= buffer.len() {
            let rest = split_blocks(buffer.skip(pos + len));
            (seq![buffer.take(pos)] + rest.0, rest.1)
        } else {
            (Seq::empty(), buffer)
        },
        None => (Seq::empty(), buffer),
    }
}

/// The text of bytes as `String::from_utf8_lossy` decodes them.
pub uninterp spec fn utf8_lossy(bytes: Seq<u8>) -> Seq<char>;

/// Decodes bytes with `String::from_utf8_lossy`: the result is `utf8_lossy` of the
/// bytes, and the bytes' own text when they are valid UTF-8.
#[verifier::external_body]
fn decode_utf8_lossy(bytes: &[u8]) -> (r: String)
    ensures
        r@ == utf8_lossy(bytes@),
        valid_utf8(bytes@) ==> r@ == decode_utf8(bytes@),
{
    String::from_utf8_lossy(bytes).into_owned()
}

/// The lines of a text as `str::lines` yields them: split at `\n`, with a `\r` right
/// before a `\n` dropped, and no empty line after a final `\n`.
pub open spec fn lines_spec(s: Seq<char>) -> Seq<Seq<char>>
    decreases s.len(),
{
    if s.len() == 0 {
        Seq::empty()
    } else {
        let k = index_of_from(s, '\n', 0);
        if k < 0 || k >= s.len() {
            seq![s]
        } else {
            let line = s.take(k);
            let line = if line.len() > 0 && line.last() == '\r' {
                line.drop_last()
            } else {
                line
            };
            seq![line] + lines_spec(s.skip(k + 1))
        }
    }
}

/// The event name (last `event:` line, trimmed) and data lines (`data:` lines, leading
/// whitespace trimmed) of the lines of an event block.
pub open spec fn sse_fields(lines: Seq<Seq<char>>) -> (Option<Seq<char>>, Seq<Seq<char>>)
    decreases lines.len(),
{
    if lines.len() == 0 {
        (None, Seq::empty())
    } else {
        let prev = sse_fields(lines.drop_last());
        let line = lines.last();
        if starts_with_spec(line, "event:"@) {
            (Some(trim_spec(line.skip(6))), prev.1)
        } else if starts_with_spec(line, "data:"@) {
            (prev.0, prev.1.push(trim_start_spec(line.skip(5))))
        } else {
            prev
        }
    }
}

/// An analysis stream event: its text delta, status type, whether it ends the stream,
/// and its error message.
pub type SseEventView = (Option<Seq<char>>, Option<(Seq<char>, JsonView)>, bool, Option<Seq<char>>);

/// The event of a block: none without an event name or data; `done` ends the stream;
/// `error` carries the data's `error` string (or the data itself); `status` carries the
/// data's `type` (or `status`) and the data read as JSON, when the data is JSON; any
/// other event carries the text at `/choices/0/delta/content` when the data is JSON.
pub open spec fn parse_sse_block_spec(block: Seq<char>) -> Option<SseEventView> {
    let fields = sse_fields(lines_spec(block));
    if fields.0 is None && fields.1.len() == 0 {
        None
    } else {
        let data = join_spec(fields.1, "\n"@);
        let name = match fields.0 {
            Some(n) => n,
            None => "message"@,
        };
        if name == "done"@ {
            Some((None, None, true, None))
        } else if name == "error"@ {
            Some(
                (
                    None,
                    None,
                    false,
                    Some(
                        match json_string_at(data, "/error"@) {
                            Some(e) => e,
                            None => data,
                        },
                    ),
                ),
            )
        } else if name == "status"@ {
            match json_parse_result(data) {
                Ok(v) => Some(
                    (
                        None,
                        Some(
                            (
                                match json_string_at(data, "/type"@) {
                                    Some(t) => t,
                                    None => "status"@,
                                },
                                v,
                            ),
                        ),
                        false,
                        None,
                    ),
                ),
                Err(_) => None,
            }
        } else {
            if json_parse_result(data) is Ok {
                Some((json_string_at(data, "/choices/0/delta/content"@), None, false, None))
            } else {
                None
            }
        }
    }
}

/// A status event of the analysis stream: its type, and its data read as JSON.
#[derive(Debug)]
pub struct ParsedStatusEvent {
    pub event_type: String,
    pub data: JsonTree,
}

/// One event of the analysis stream.
#[derive(Debug)]
pub struct ParsedEvent {
    pub content: Option<String>,
    pub status_event: Option<ParsedStatusEvent>,
    pub done: bool,
    pub error: Option<String>,
}

/// What an event says, as plain values.
pub open spec fn event_view(e: ParsedEvent) -> SseEventView {
    (
        opt_string_view(e.content),
        match e.status_event {
            Some(s) => Some((s.event_type@, json_view(s.data))),
            None => None,
        },
        e.done,
        opt_string_view(e.error),
    )
}

proof fn lemma_index_of_from_skip(s: Seq<char>, c: char, p: int, j: int)
    requires
        0 <= p <= s.len(),
        0 <= j,
    ensures
        index_of_from(s.skip(p), c, j) == if index_of_from(s, c, p + j) == -1 {
            -1
        } else {
            index_of_from(s, c, p + j) - p
        },
    decreases s.len() - p - j,
{
    if p + j < s.len() {
        assert(s.skip(p)[j] == s[p + j]);
        if s[p + j] != c {
            lemma_index_of_from_skip(s, c, p, j + 1);
        }
    }
}

/// Whether `chars[a..b]` starts with `pat`.
fn range_starts_with(chars: &Vec<char>, a: usize, b: usize, pat: &str) -> (r: bool)
    requires
        a <= b <= chars.len(),
    ensures
        r == starts_with_spec(chars@.subrange(a as int, b as int), pat@),
{
    let part = string_from_chars(chars, a, b);
    str_starts_with(part.as_str(), pat)
}

/// Parses one event block of the analysis stream (see `parse_sse_block_spec`).
pub fn parse_sse_block(block: &str) -> (r: Option<ParsedEvent>)
    ensures
        match parse_sse_block_spec(block@) {
            None => r is None,
            Some(v) => r matches Some(e) && event_view(e) == v,
        },
{
    proof {
        reveal_strlit("event:");
        reveal_strlit("data:");
    }
    let chars = chars_of(block);
    let n = chars.len();
    let mut event_name: Option<String> = None;
    let mut data_lines: Vec<String> = Vec::new();
    let ghost mut done: Seq<Seq<char>> = Seq::empty();
    let mut pos: usize = 0;
    proof {
        assert(chars@.skip(0) =~= chars@);
        assert(done + lines_spec(chars@.skip(0)) =~= lines_spec(chars@));
    }
    assert("event:"@.len() == 6 && "data:"@.len() == 5);
    while pos < n
        invariant
            pos <= n == chars@.len(),
            "event:"@.len() == 6,
            "data:"@.len() == 5,
            chars@ == block@,
            done + lines_spec(chars@.skip(pos as int)) == lines_spec(chars@),
            opt_string_view(event_name) == sse_fields(done).0,
            string_views(data_lines@) == sse_fields(done).1,
        decreases n - pos,
    {
        let ghost rest = chars@.skip(pos as int);
        proof {
            lemma_index_of_from(chars@, '\n', pos as int);
            lemma_index_of_from_skip(chars@, '\n', pos as int, 0);
        }
        let (a, b, next) = match find_char_from(&chars, '\n', pos) {
            Some(k) => {
                if k > pos && chars[k - 1] == '\r' {
                    (pos, k - 1, k + 1)
                } else {
                    (pos, k, k + 1)
                }
            },
            None => (pos, n, n),
        };
        let ghost line = chars@.subrange(a as int, b as int);
        proof {
            let k = index_of_from(rest, '\n', 0);
            if next < n || (next == n && b + 1 == n) || index_of_from(chars@, '\n', pos as int) != -1 {
                assert(rest.take(k) =~= chars@.subrange(pos as int, pos + k));
                if pos + k > pos && chars@[pos + k - 1] == '\r' {
                    assert(rest.take(k).drop_last() =~= line);
                } else {
                    assert(rest.take(k) =~= line);
                }
                assert(rest.skip(k + 1) =~= chars@.skip(next as int));
                assert(lines_spec(rest) == seq![line] + lines_spec(chars@.skip(next as int)));
            } else {
                assert(rest =~= line);
                assert(chars@.skip(next as int) =~= Seq::<char>::empty());
                assert(lines_spec(rest) == seq![line]);
            }
            assert(done.push(line) + lines_spec(chars@.skip(next as int)) =~= done + lines_spec(rest));
            assert(done.push(line).drop_last() =~= done);
        }
        if range_starts_with(&chars, a, b, "event:") {
            let value = string_from_chars(&chars, a + 6, b);
            proof {
                assert(chars@.subrange(a + 6, b as int) =~= line.skip(6));
            }
            event_name = Some(trim_string(value.as_str()));
        } else if range_starts_with(&chars, a, b, "data:") {
            let value = string_from_chars(&chars, a + 5, b);
            proof {
                assert(chars@.subrange(a + 5, b as int) =~= line.skip(5));
            }
            let ghost before = data_lines@;
            data_lines.push(trim_start_string(value.as_str()));
            proof {
                assert(string_views(data_lines@) =~= string_views(before).push(trim_start_spec(line.skip(5))));
            }
        }
        proof {
            done = done.push(line);
        }
        pos = next;
    }
    proof {
        assert(chars@.skip(n as int) =~= Seq::<char>::empty());
        assert(done + Seq::<Seq<char>>::empty() =~= done);
    }
    if event_name.is_none() && data_lines.len() == 0 {
        return None;
    }
    let data = join_strings(data_lines.as_slice(), "\n");
    let name = match event_name {
        Some(n) => n,
        None => to_owned_string("message"),
    };
    if str_eq(name.as_str(), "done") {
        return Some(ParsedEvent { content: None, status_event: None, done: true, error: None });
    }
    if str_eq(name.as_str(), "error") {
        let message = match json_text_string_at(data.as_str(), "/error") {
            Some(e) => e,
            None => data,
        };
        return Some(ParsedEvent { content: None, status_event: None, done: false, error: Some(message) });
    }
    let value = match parse_json_text(data.as_str()) {
        Ok(v) => v,
        Err(_) => return None,
    };
    if str_eq(name.as_str(), "status") {
        let event_type = match json_text_string_at(data.as_str(), "/type") {
            Some(t) => t,
            None => to_owned_string("status"),
        };
        return Some(
            ParsedEvent {
                content: None,
                status_event: Some(ParsedStatusEvent { event_type, data: value }),
                done: false,
                error: None,
            },
        );
    }
    let content = json_text_string_at(data.as_str(), "/choices/0/delta/content");
    Some(ParsedEvent { content, status_event: None, done: false, error: None })
}

/// The events of event blocks, in order, skipping blocks that carry none.
pub open spec fn events_of_blocks(blocks: Seq<Seq<u8>>) -> Seq<SseEventView>
    decreases blocks.len(),
{
    if blocks.len() == 0 {
        Seq::empty()
    } else {
        let rest = events_of_blocks(blocks.drop_last());
        match parse_sse_block_spec(utf8_lossy(blocks.last())) {
            Some(e) => rest.push(e),
            None => rest,
        }
    }
}

/// The events of a stream, as plain values.
pub open spec fn event_views(events: Seq<ParsedEvent>) -> Seq<SseEventView> {
    events.map_values(|e: ParsedEvent| event_view(e))
}

/// Splits the analysis stream into events as bytes arrive.
#[derive(Debug)]
pub struct SseParser {
    buffer: Vec<u8>,
}

impl SseParser {
    /// The bytes received but not yet part of a complete event.
    pub closed spec fn pending(&self) -> Seq<u8> {
        self.buffer@
    }

    /// A parser that has received nothing.
    pub fn new() -> (p: Self)
        ensures
            p.pending() == Seq::<u8>::empty(),
    {
        SseParser { buffer: Vec::new() }
    }

    /// Adds received bytes and returns the events they complete; the bytes after the
    /// last complete event wait for more.
    pub fn feed(&mut self, chunk: &[u8]) -> (events: Vec<ParsedEvent>)
        ensures
            final(self).pending() == split_blocks(old(self).pending() + chunk@).1,
            event_views(events@) == events_of_blocks(split_blocks(old(self).pending() + chunk@).0),
    {
        let ghost all = self.buffer@ + chunk@;
        let mut i: usize = 0;
        while i < chunk.len()
            invariant
                i <= chunk@.len(),
                self.buffer@ == old(self).buffer@ + chunk@.take(i as int),
            decreases chunk.len() - i,
        {
            self.buffer.push(chunk[i]);
            i = i + 1;
            assert(self.buffer@ =~= old(self).buffer@ + chunk@.take(i as int));
        }
        assert(chunk@.take(chunk@.len() as int) =~= chunk@);
        let ghost mut blocks: Seq<Seq<u8>> = Seq::empty();
        let mut events: Vec<ParsedEvent> = Vec::new();
        let lf: [u8; 2] = [10u8, 10u8];
        let crlf: [u8; 4] = [13u8, 10u8, 13u8, 10u8];
        assert(lf@ =~= seq![10u8, 10u8]);
        assert(crlf@ =~= seq![13u8, 10u8, 13u8, 10u8]);
        assert(self.buffer@ == all);
        assert(split_blocks(all).0 =~= Seq::<Seq<u8>>::empty() + split_blocks(self.buffer@).0);
        loop
            invariant
                lf@ == seq![10u8, 10u8],
                crlf@ == seq![13u8, 10u8, 13u8, 10u8],
                split_blocks(all).1 == split_blocks(self.buffer@).1,
                split_blocks(all).0 == blocks + split_blocks(self.buffer@).0,
                event_views(events@) == events_of_blocks(blocks),
            ensures
                split_blocks(all).1 == self.buffer@,
                event_views(events@) == events_of_blocks(split_blocks(all).0),
            decreases self.buffer@.len(),
        {
            proof {
                lemma_first_match(self.buffer@, lf@, 0);
                lemma_first_match(self.buffer@, crlf@, 0);
            }
            let buffer_slice = self.buffer.as_slice();
            let lf_slice = lf.as_slice();
            let crlf_slice = crlf.as_slice();
            assert(buffer_slice@ == self.buffer@);
            assert(lf_slice@ == lf@);
            assert(crlf_slice@ == crlf@);
            let lf_pos = find_bytes(buffer_slice, lf_slice);
            let crlf_pos = find_bytes(buffer_slice, crlf_slice);
            let (pos, separator_len) = match (lf_pos, crlf_pos) {
                (Some(l), Some(c)) => if c < l {
                    (c, 4usize)
                } else {
                    (l, 2usize)
                },
                (Some(l), None) => (l, 2usize),
                (None, Some(c)) => (c, 4usize),
                (None, None) => {
                    proof {
                        assert(next_separator(self.buffer@) is None);
                        assert(blocks + Seq::<Seq<u8>>::empty() =~= blocks);
                    }
                    break;
                },
            };
            let ghost buf = self.buffer@;
            proof {
                if separator_len == 2 {
                    assert(bytes_at(self.buffer@, lf@, pos as int));
                } else {
                    assert(bytes_at(self.buffer@, crlf@, pos as int));
                }
            }
            let buffer_len = self.buffer.len();
            assert(pos + separator_len <= buffer_len);
            let rest = self.buffer.split_off(pos + separator_len);
            let mut block_bytes = rest;
            std::mem::swap(&mut block_bytes, &mut self.buffer);
            let _separator = block_bytes.split_off(pos);
            let text = decode_utf8_lossy(block_bytes.as_slice());
            proof {
                assert(block_bytes@ =~= buf.take(pos as int));
                assert(self.buffer@ =~= buf.skip(pos + separator_len));
                assert(split_blocks(buf).0 == seq![buf.take(pos as int)] + split_blocks(self.buffer@).0);
                assert(blocks + split_blocks(buf).0 =~= blocks.push(buf.take(pos as int)) + split_blocks(
                    self.buffer@,
                ).0);
                assert(blocks.push(buf.take(pos as int)).drop_last() =~= blocks);
            }
            let ghost before = events@;
            match parse_sse_block(text.as_str()) {
                Some(event) => {
                    events.push(event);
                    proof {
                        assert(event_views(events@) =~= event_views(before).push(event_view(event)));
                    }
                },
                None => {},
            }
            proof {
                blocks = blocks.push(buf.take(pos as int));
            }
        }
        events
    }
}

/// How the analysis stream goes on after an event.
#[derive(Debug, PartialEq, Eq)]
pub enum AiStreamNext {
    Continue,
    /// The analysis failed with this message.
    Fail(String),
    /// The analysis is complete.
    Done,
}

/// What to do with one event of the analysis stream.
#[derive(Debug, PartialEq, Eq)]
pub struct AiStreamStep {
    /// Show the text delta as it arrives.
    pub emit_delta: bool,
    /// Show the status event.
    pub emit_status: bool,
    pub next: AiStreamNext,
}

/// Handles one event of the analysis stream: a text delta is added to the output (and
/// shown when progress is shown); a status event is shown when progress is shown or it
/// says the request is queued; an error fails the analysis; `done` completes it.
pub fn ai_stream_event(output: &mut String, event: &ParsedEvent, show_progress: bool) -> (step: AiStreamStep)
    ensures
        final(output)@ == old(output)@ + match event.content {
            Some(d) => d@,
            None => Seq::empty(),
        },
        step.emit_delta == (event.content is Some && show_progress),
        step.emit_status == (event.status_event matches Some(s) && (show_progress || s.event_type@
            == "queued"@)),
        event.error matches Some(m) ==> (step.next matches AiStreamNext::Fail(f) && f@
            == "LogAgent analysis failed: "@ + m@),
        event.error is None && event.done ==> step.next == AiStreamNext::Done,
        event.error is None && !event.done ==> step.next == AiStreamNext::Continue,
{
    let mut emit_delta = false;
    match &event.content {
        Some(delta) => {
            output.append(delta.as_str());
            emit_delta = show_progress;
        },
        None => {
            proof {
                assert(output@ + Seq::<char>::empty() =~= output@);
            }
        },
    }
    let emit_status = match &event.status_event {
        Some(status) => show_progress || str_eq(status.event_type.as_str(), "queued"),
        None => false,
    };
    let next = match &event.error {
        Some(message) => AiStreamNext::Fail(concat("LogAgent analysis failed: ", message.as_str())),
        None => if event.done {
            AiStreamNext::Done
        } else {
            AiStreamNext::Continue
        },
    };
    AiStreamStep { emit_delta, emit_status, next }
}

/// The result of a stream that ended without `done`: its output, unless there is none.
pub fn ai_stream_end(output: String) -> (r: Result<String, ErrorKind>)
    ensures
        output@.len() == 0 ==> (r matches Err(ErrorKind::OtherError(m)) && m@
            == "LogAgent analysis ended without output"@),
        output@.len() > 0 ==> (r matches Ok(o) && o@ == output@),
{
    if output.as_str().is_empty() {
        Err(other_error("LogAgent analysis ended without output"))
    } else {
        Ok(output)
    }
}

/// The error of an analysis request that failed: a full queue (HTTP 429), or the
/// status with the start of the response body.
pub fn ai_stream_http_error(status_code: u16, status: &str, body: &str) -> (r: ErrorKind)
    ensures
        status_code == 429 ==> (r matches ErrorKind::OtherError(m) && m@
            == "LogAgent queue is full, please retry later"@),
        status_code != 429 ==> (r matches ErrorKind::OtherError(m) && m@
            == "LogAgent analysis failed with HTTP "@ + status@ + ": "@ + excerpt(
            body@,
            RESPONSE_EXCERPT_CHARS as nat,
        )),
{
    if status_code == 429 {
        return other_error("LogAgent queue is full, please retry later");
    }
    let mut m = to_owned_string("LogAgent analysis failed with HTTP ");
    m.append(status);
    m.append(": ");
    let ex = response_excerpt(body);
    m.append(ex.as_str());
    ErrorKind::OtherError(m)
}

/// The error of a request that failed: `<what> failed with HTTP <status>: <body start>`.
pub fn http_failure(what: &str, status: &str, body: &str) -> (r: ErrorKind)
    ensures
        r matches ErrorKind::OtherError(m) && m@ == what@ + " failed with HTTP "@ + status@ + ": "@
            + excerpt(body@, RESPONSE_EXCERPT_CHARS as nat),
{
    let mut m = to_owned_string(what);
    m.append(" failed with HTTP ");
    m.append(status);
    m.append(": ");
    let ex = response_excerpt(body);
    m.append(ex.as_str());
    ErrorKind::OtherError(m)
}

/// The address of a LogShare endpoint.
pub fn logshare_url(path: &str) -> (r: String)
    ensures
        r@ == LOGSHARE_BASE_URL@ + path@,
{
    concat(LOGSHARE_BASE_URL, path)
}

} // verus!
