//! Console output handling for managed servers: ANSI stripping, PTY line
//! splitting, log line classification and exit-reason analysis.
use vstd::prelude::*;
use vstd::string::StringSliceAdditionalSpecFns;
use crate::text::{chars_of, push_char, str_contains, contains_spec, starts_with_spec, str_starts_with, str_eq, string_from_chars, to_owned_string};
use vstd::utf8::encode_utf8;

verus! {

/// Longest PTY line, in bytes, that is kept as a console line.
pub const MAX_PTY_LINE_BYTES: usize = 262144;
/// Longest server log line, in bytes, including the truncation marker.
pub const MAX_SERVER_LOG_LINE_BYTES: usize = 65536;
/// How many lines at the end of a server's output are inspected when
/// classifying why it exited.
pub const EXIT_ANALYSIS_TAIL_LINES: usize = 50;

/// The escape character.
pub open spec fn esc() -> char { '\u{1b}' }

/// Index just past the end of a CSI sequence whose parameters start at `j`:
/// the first character in `@..=~` ends it; an unterminated one runs to the end.
pub open spec fn csi_end(s: Seq<char>, j: int) -> int
    decreases s.len() - j,
{
    if j >= s.len() {
        s.len() as int
    } else if '\u{40}' <= s[j] && s[j] <= '\u{7e}' {
        j + 1
    } else {
        csi_end(s, j + 1)
    }
}

/// Index just past the end of an OSC sequence whose payload starts at `j`:
/// BEL, or ESC followed by `\`, ends it.
pub open spec fn osc_end(s: Seq<char>, j: int, saw_escape: bool) -> int
    decreases s.len() - j,
{
    if j >= s.len() {
        s.len() as int
    } else if s[j] == '\u{7}' || (saw_escape && s[j] == '\\') {
        j + 1
    } else {
        osc_end(s, j + 1, s[j] == esc())
    }
}

/// The text of `s` from position `i` on with ANSI escape sequences removed:
/// CSI (`ESC [` ... final byte) and OSC (`ESC ]` ... BEL or ST) sequences are
/// dropped whole, and any other escape character is dropped alone.
pub open spec fn strip_ansi_from(s: Seq<char>, i: int) -> Seq<char>
    decreases s.len() - i, 1int,
{
    if i < 0 || i >= s.len() {
        Seq::empty()
    } else if s[i] != esc() {
        seq![s[i]] + strip_ansi_from(s, i + 1)
    } else if i + 1 < s.len() && s[i + 1] == '[' {
        proof { lemma_csi_end_bounds(s, i + 2); }
        strip_ansi_from(s, csi_end(s, i + 2))
    } else if i + 1 < s.len() && s[i + 1] == ']' {
        proof { lemma_osc_end_bounds(s, i + 2, false); }
        strip_ansi_from(s, osc_end(s, i + 2, false))
    } else {
        strip_ansi_from(s, i + 1)
    }
}

/// A text without its terminal escape sequences.
pub open spec fn strip_ansi_spec(s: Seq<char>) -> Seq<char> {
    strip_ansi_from(s, 0)
}

/// Where a control sequence ends.
pub proof fn lemma_csi_end_bounds(s: Seq<char>, j: int)
    requires
        0 <= j,
    ensures
        j <= csi_end(s, j) || csi_end(s, j) == s.len(),
        csi_end(s, j) <= s.len() || j > s.len(),
        j <= s.len() ==> j <= csi_end(s, j) <= s.len(),
    decreases s.len() - j,
{
    if j < s.len() && !('\u{40}' <= s[j] && s[j] <= '\u{7e}') {
        lemma_csi_end_bounds(s, j + 1);
    }
}

/// Where an operating system command ends.
pub proof fn lemma_osc_end_bounds(s: Seq<char>, j: int, saw: bool)
    requires
        0 <= j,
    ensures
        j <= s.len() ==> j <= osc_end(s, j, saw) <= s.len(),
        j > s.len() ==> osc_end(s, j, saw) == s.len(),
    decreases s.len() - j,
{
    if j < s.len() && !(s[j] == '\u{7}' || (saw && s[j] == '\\')) {
        lemma_osc_end_bounds(s, j + 1, s[j] == esc());
    }
}

/// Removes ANSI escape sequences (SGR colors, cursor control, OSC titles) that
/// servers emit when they assume an interactive terminal is attached.
pub fn strip_ansi(input: &str) -> (out: String)
    ensures
        out@ == strip_ansi_spec(input@),
{
    let chars = chars_of(input);
    let n = chars.len();
    let mut out = String::new();
    let mut i: usize = 0;
    while i < n
        invariant
            n == chars.len(),
            i <= n,
            out@ + strip_ansi_from(chars@, i as int) == strip_ansi_spec(chars@),
        decreases n - i,
    {
        let c = chars[i];
        if c != '\u{1b}' {
            proof {
                assert(out@.push(c) + strip_ansi_from(chars@, i + 1) =~= out@ + strip_ansi_from(chars@, i as int));
            }
            push_char(&mut out, c);
            i = i + 1;
        } else if i + 1 < n && chars[i + 1] == '[' {
            let mut j = i + 2;
            while j < n && !('\u{40}' <= chars[j] && chars[j] <= '\u{7e}')
                invariant
                    i + 2 <= j <= n,
                    n == chars.len(),
                    csi_end(chars@, j as int) == csi_end(chars@, i + 2),
                decreases n - j,
            {
                j = j + 1;
            }
            if j < n {
                j = j + 1;
            }
            i = j;
        } else if i + 1 < n && chars[i + 1] == ']' {
            let mut j = i + 2;
            let mut saw = false;
            let ghost target = osc_end(chars@, i + 2, false);
            while j < n && !(chars[j] == '\u{7}' || (saw && chars[j] == '\\'))
                invariant
                    i + 2 <= j <= n,
                    n == chars.len(),
                    osc_end(chars@, j as int, saw) == target,
                decreases n - j,
            {
                saw = chars[j] == '\u{1b}';
                j = j + 1;
            }
            if j < n {
                j = j + 1;
            }
            i = j;
        } else {
            i = i + 1;
        }
    }
    proof {
        assert(out@ + Seq::<char>::empty() =~= out@);
    }
    out
}

/// Nothing that `strip_ansi` returns holds an escape character.
pub proof fn lemma_strip_ansi_removes_escapes(s: Seq<char>, i: int)
    ensures
        !strip_ansi_from(s, i).contains(esc()),
    decreases s.len() - i,
{
    if 0 <= i < s.len() {
        if s[i] != esc() {
            lemma_strip_ansi_removes_escapes(s, i + 1);
            let r = strip_ansi_from(s, i + 1);
            assert forall|k: int| 0 <= k < (seq![s[i]] + r).len() implies (seq![s[i]] + r)[k] != esc() by {
                if k > 0 {
                    assert((seq![s[i]] + r)[k] == r[k - 1]);
                }
            }
        } else if i + 1 < s.len() && s[i + 1] == '[' {
            lemma_csi_end_bounds(s, i + 2);
            lemma_strip_ansi_removes_escapes(s, csi_end(s, i + 2));
        } else if i + 1 < s.len() && s[i + 1] == ']' {
            lemma_osc_end_bounds(s, i + 2, false);
            lemma_strip_ansi_removes_escapes(s, osc_end(s, i + 2, false));
        } else {
            lemma_strip_ansi_removes_escapes(s, i + 1);
        }
    }
}

/// Text without escape characters passes through `strip_ansi` unchanged.
pub proof fn lemma_strip_ansi_keeps_plain_text(s: Seq<char>, i: int)
    requires
        0 <= i <= s.len(),
        !s.contains(esc()),
    ensures
        strip_ansi_from(s, i) == s.subrange(i, s.len() as int),
    decreases s.len() - i,
{
    if i < s.len() {
        assert(s[i] != esc());
        lemma_strip_ansi_keeps_plain_text(s, i + 1);
        assert(seq![s[i]] + s.subrange(i + 1, s.len() as int) =~= s.subrange(i, s.len() as int));
    } else {
        assert(s.subrange(i, s.len() as int) =~= Seq::<char>::empty());
    }
}

/// Stripping ANSI sequences twice gives the same text as stripping once, and
/// the result never holds an escape character.
pub proof fn law_strip_ansi_idempotent(s: Seq<char>)
    ensures
        !strip_ansi_spec(s).contains(esc()),
        strip_ansi_spec(strip_ansi_spec(s)) == strip_ansi_spec(s),
{
    lemma_strip_ansi_removes_escapes(s, 0);
    let t = strip_ansi_spec(s);
    lemma_strip_ansi_keeps_plain_text(t, 0);
    assert(t.subrange(0, t.len() as int) =~= t);
}

/// `idx` places each character of `a` at a position of `b` holding it, in increasing
/// order.
pub open spec fn embeds(a: Seq<char>, b: Seq<char>, idx: Seq<int>) -> bool {
    &&& idx.len() == a.len()
    &&& forall|k: int| 0 <= k < idx.len() ==> 0 <= #[trigger] idx[k] < b.len() && b[idx[k]] == a[k]
    &&& forall|k: int, l: int| 0 <= k < l < idx.len() ==> #[trigger] idx[k] < #[trigger] idx[l]
}

/// `a` is a subsequence of `b`: `b` with some characters left out.
pub open spec fn is_subsequence(a: Seq<char>, b: Seq<char>) -> bool {
    exists|idx: Seq<int>| embeds(a, b, idx)
}

proof fn lemma_strip_from_embeds(s: Seq<char>, i: int) -> (idx: Seq<int>)
    requires
        0 <= i,
    ensures
        embeds(strip_ansi_from(s, i), s, idx),
        forall|k: int| 0 <= k < idx.len() ==> i <= #[trigger] idx[k],
    decreases s.len() - i,
{
    if i >= s.len() {
        Seq::empty()
    } else if s[i] != esc() {
        let rest = lemma_strip_from_embeds(s, i + 1);
        let r = strip_ansi_from(s, i);
        let idx = seq![i] + rest;
        assert(r == seq![s[i]] + strip_ansi_from(s, i + 1));
        assert forall|k: int| 0 <= k < idx.len() implies 0 <= #[trigger] idx[k] < s.len() && s[idx[k]] == r[k] by {
            if k > 0 {
                assert(idx[k] == rest[k - 1]);
            }
        }
        assert forall|k: int, l: int| 0 <= k < l < idx.len() implies #[trigger] idx[k] < #[trigger] idx[l] by {
            if k > 0 {
                assert(idx[k] == rest[k - 1]);
            }
            assert(idx[l] == rest[l - 1]);
        }
        assert forall|k: int| 0 <= k < idx.len() implies i <= #[trigger] idx[k] by {
            if k > 0 {
                assert(idx[k] == rest[k - 1]);
            }
        }
        idx
    } else if i + 1 < s.len() && s[i + 1] == '[' {
        lemma_csi_end_bounds(s, i + 2);
        lemma_strip_from_embeds(s, csi_end(s, i + 2))
    } else if i + 1 < s.len() && s[i + 1] == ']' {
        lemma_osc_end_bounds(s, i + 2, false);
        lemma_strip_from_embeds(s, osc_end(s, i + 2, false))
    } else {
        lemma_strip_from_embeds(s, i + 1)
    }
}

/// Stripping ANSI sequences only leaves characters out: the result is a subsequence of
/// the text.
pub proof fn law_strip_ansi_subsequence(s: Seq<char>)
    ensures
        is_subsequence(strip_ansi_spec(s), s),
{
    let idx = lemma_strip_from_embeds(s, 0);
    assert(embeds(strip_ansi_spec(s), s, idx));
}

/// Matches the native abort of the known JNA (< 5.13.0) macOS bug (JNA issue
/// #1452): a failed library load overflows JNA's fixed error buffer and the
/// JVM dies with SIGABRT before any Java-level exception can be reported.
pub fn is_jna_macos_assertion(line: &str) -> (r: bool)
    ensures
        r == (contains_spec(line@, "Assertion failed:"@)
            && contains_spec(line@, "snprintf() output has been truncated"@)
            && contains_spec(line@, "dispatch.c"@)),
{
    str_contains(line, "Assertion failed:") && str_contains(
        line,
        "snprintf() output has been truncated",
    ) && str_contains(line, "dispatch.c")
}

/// The vanilla server's refusal to boot before its EULA has been accepted.
pub open spec fn is_eula_refusal_spec(line: Seq<char>) -> bool {
    contains_spec(line, "need to agree to the EULA"@)
}

/// Matches the vanilla server's refusal to boot before the EULA has been
/// accepted; the process then writes `eula.txt` and exits immediately.
pub fn is_eula_refusal(line: &str) -> (r: bool)
    ensures
        r == is_eula_refusal_spec(line@),
{
    str_contains(line, "need to agree to the EULA")
}

/// An ASCII digit.
pub open spec fn is_ascii_digit_byte(b: u8) -> bool {
    48 <= b && b <= 57
}

/// A `[HH:MM:SS` prefix, judged on the line's UTF-8 bytes.
pub open spec fn has_timestamp_prefix(b: Seq<u8>) -> bool {
    &&& b.len() >= 9
    &&& b[0] == 91u8
    &&& is_ascii_digit_byte(b[1])
    &&& is_ascii_digit_byte(b[2])
    &&& b[3] == 58u8
    &&& is_ascii_digit_byte(b[4])
    &&& is_ascii_digit_byte(b[5])
    &&& b[6] == 58u8
    &&& is_ascii_digit_byte(b[7])
    &&& is_ascii_digit_byte(b[8])
}

/// Detects a server log4j line by its leading `[HH:MM:SS]` timestamp, covering
/// both console (`[HH:MM:SS INFO]:`) and file (`[HH:MM:SS] [Thread/INFO]:`)
/// formats.
pub fn is_timestamped_log_line(line: &str) -> (r: bool)
    ensures
        r == has_timestamp_prefix(line.spec_bytes()),
{
    let b = line.as_bytes();
    b.len() >= 9 && b[0] == 91u8 && 48 <= b[1] && b[1] <= 57 && 48 <= b[2] && b[2] <= 57
        && b[3] == 58u8 && 48 <= b[4] && b[4] <= 57 && 48 <= b[5] && b[5] <= 57 && b[6] == 58u8
        && 48 <= b[7] && b[7] <= 57 && 48 <= b[8] && b[8] <= 57
}

/// Why a server exited on its own, as classified from its console output.
#[derive(PartialEq, Eq, Structural, Clone, Copy, Debug)]
pub enum ExitReason {
    Eula,
}

/// Whether one of the last `EXIT_ANALYSIS_TAIL_LINES` lines is a EULA refusal.
pub open spec fn tail_has_eula_refusal(lines: Seq<Seq<char>>) -> bool {
    exists|i: int|
        lines.len() - EXIT_ANALYSIS_TAIL_LINES <= i < lines.len() && 0 <= i
            && is_eula_refusal_spec(#[trigger] lines[i])
}

/// Classifies why a server exited on its own by scanning the tail of its
/// console output, newest lines first. Returns `None` when nothing matches.
pub fn analyze_exit_reason(lines: &[String]) -> (r: Option<ExitReason>)
    ensures
        r == (if tail_has_eula_refusal(lines@.map_values(|l: String| l@)) {
            Some(ExitReason::Eula)
        } else {
            None
        }),
{
    let ghost views = lines@.map_values(|l: String| l@);
    let n = lines.len();
    let mut k: usize = 0;
    while k < n && k < EXIT_ANALYSIS_TAIL_LINES
        invariant
            n == lines.len(),
            k <= n,
            k <= EXIT_ANALYSIS_TAIL_LINES,
            views == lines@.map_values(|l: String| l@),
            forall|i: int| n - k <= i < n ==> !is_eula_refusal_spec(#[trigger] views[i]),
        decreases n - k,
    {
        let line = &lines[n - 1 - k];
        if is_eula_refusal(line.as_str()) {
            assert(views[n - 1 - k] == line@);
            return Some(ExitReason::Eula);
        }
        assert(views[n - 1 - k] == line@);
        k = k + 1;
    }
    assert forall|i: int|
        lines.len() - EXIT_ANALYSIS_TAIL_LINES <= i < lines.len() && 0 <= i
        implies !is_eula_refusal_spec(#[trigger] views[i]) by {}
    None
}

/// Index of the last newline byte in `s`, or `-1` when there is none.
pub open spec fn last_newline(s: Seq<u8>) -> int
    decreases s.len(),
{
    if s.len() == 0 {
        -1
    } else if s.last() == 10u8 {
        s.len() - 1
    } else {
        last_newline(s.drop_last())
    }
}

/// Index just past the first newline byte at or after `j`, or `s.len()`.
pub open spec fn newline_end(s: Seq<u8>, j: int) -> int
    decreases s.len() - j,
{
    if j >= s.len() {
        s.len() as int
    } else if s[j] == 10u8 {
        j + 1
    } else {
        newline_end(s, j + 1)
    }
}

/// Where the line through `j` ends.
pub proof fn lemma_newline_end_bounds(s: Seq<u8>, j: int)
    requires
        0 <= j < s.len(),
    ensures
        j < newline_end(s, j) <= s.len(),
        forall|k: int| j <= k < newline_end(s, j) - 1 ==> s[k] != 10u8,
        newline_end(s, j) < s.len() || s[newline_end(s, j) - 1] == 10u8 || newline_end(s, j) == s.len(),
    decreases s.len() - j,
{
    if s[j] != 10u8 {
        if j + 1 < s.len() {
            lemma_newline_end_bounds(s, j + 1);
        } else {
            assert(newline_end(s, j + 1) == s.len());
        }
        assert forall|k: int| j <= k < newline_end(s, j) - 1 implies s[k] != 10u8 by {
            if k > j {
                assert(j + 1 <= k < newline_end(s, j + 1) - 1);
            }
        }
    }
}

/// The lines of `s` from `j` on, each keeping its newline
/// (`slice::split_inclusive` on `\n`).
pub open spec fn inclusive_lines_from(s: Seq<u8>, j: int) -> Seq<Seq<u8>>
    decreases s.len() - j,
{
    if j < 0 || j >= s.len() {
        Seq::empty()
    } else {
        proof { lemma_newline_end_bounds(s, j); }
        seq![s.subrange(j, newline_end(s, j))] + inclusive_lines_from(s, newline_end(s, j))
    }
}

/// The lines of `lines` no longer than `MAX_PTY_LINE_BYTES`, in order.
pub open spec fn keep_bounded(lines: Seq<Seq<u8>>) -> Seq<Seq<u8>>
    decreases lines.len(),
{
    if lines.len() == 0 {
        Seq::empty()
    } else if lines[0].len() <= MAX_PTY_LINE_BYTES {
        seq![lines[0]] + keep_bounded(lines.drop_first())
    } else {
        keep_bounded(lines.drop_first())
    }
}

/// The concatenation of `lines`.
pub open spec fn concat_lines(lines: Seq<Seq<u8>>) -> Seq<u8>
    decreases lines.len(),
{
    if lines.len() == 0 {
        Seq::empty()
    } else {
        lines[0] + concat_lines(lines.drop_first())
    }
}

/// What splitting `all` (the pending bytes followed by the new chunk) gives:
/// the complete lines that fit the bound, and the unterminated remainder,
/// which is dropped when it has grown past the bound.
pub open spec fn pty_split(all: Seq<u8>) -> (Seq<Seq<u8>>, Seq<u8>) {
    let k = last_newline(all);
    if k < 0 {
        if all.len() > MAX_PTY_LINE_BYTES {
            (Seq::empty(), Seq::empty())
        } else {
            (Seq::empty(), all)
        }
    } else {
        (keep_bounded(inclusive_lines_from(all.take(k + 1), 0)), all.skip(k + 1))
    }
}

/// What the last newline search finds.
pub proof fn lemma_last_newline(s: Seq<u8>)
    ensures
        -1 <= last_newline(s) < s.len(),
        last_newline(s) >= 0 ==> s[last_newline(s)] == 10u8,
        forall|i: int| last_newline(s) < i < s.len() ==> s[i] != 10u8,
    decreases s.len(),
{
    if s.len() > 0 && s.last() != 10u8 {
        lemma_last_newline(s.drop_last());
        assert forall|i: int| last_newline(s) < i < s.len() implies s[i] != 10u8 by {
            if i < s.len() - 1 {
                assert(s[i] == s.drop_last()[i]);
            }
        }
    }
}

proof fn lemma_last_newline_take(s: Seq<u8>, k: int)
    requires
        0 <= k <= s.len(),
        forall|i: int| k <= i < s.len() ==> s[i] != 10u8,
    ensures
        last_newline(s) == last_newline(s.take(k)),
    decreases s.len() - k,
{
    if k < s.len() {
        assert(s.drop_last().take(k) =~= s.take(k));
        lemma_last_newline_take(s.drop_last(), k);
    } else {
        assert(s.take(k) =~= s);
    }
}

proof fn lemma_keep_bounded_step(lines: Seq<Seq<u8>>, line: Seq<u8>)
    ensures
        keep_bounded(seq![line] + lines) == if line.len() <= MAX_PTY_LINE_BYTES {
            seq![line] + keep_bounded(lines)
        } else {
            keep_bounded(lines)
        },
{
    assert((seq![line] + lines).drop_first() =~= lines);
}

/// Appends `bytes` to the pending partial line, then returns every complete
/// line (newline included) that fits the bound; the unterminated tail stays
/// pending, or is discarded once it exceeds the bound.
pub fn take_complete_pty_lines(pending: &mut Vec<u8>, bytes: &[u8]) -> (lines: Vec<Vec<u8>>)
    ensures
        lines@.map_values(|l: Vec<u8>| l@) == pty_split(old(pending)@ + bytes@).0,
        final(pending)@ == pty_split(old(pending)@ + bytes@).1,
{
    let ghost all = old(pending)@ + bytes@;
    let mut i: usize = 0;
    while i < bytes.len()
        invariant
            i <= bytes.len(),
            pending@ == old(pending)@ + bytes@.take(i as int),
        decreases bytes.len() - i,
    {
        pending.push(bytes[i]);
        i = i + 1;
        assert(pending@ =~= old(pending)@ + bytes@.take(i as int));
    }
    assert(bytes@.take(bytes.len() as int) =~= bytes@);
    assert(pending@ == all);
    let mut k = pending.len();
    while k > 0 && pending[k - 1] != 10u8
        invariant
            k <= pending.len(),
            pending@ == all,
            forall|j: int| k <= j < pending.len() ==> pending@[j] != 10u8,
        decreases k,
    {
        k = k - 1;
    }
    proof {
        lemma_last_newline_take(all, k as int);
        if k > 0 {
            assert(all.take(k as int).last() == 10u8);
        } else {
            assert(all.take(0) =~= Seq::<u8>::empty());
        }
    }
    if k == 0 {
        if pending.len() > MAX_PTY_LINE_BYTES {
            pending.clear();
        }
        let empty: Vec<Vec<u8>> = Vec::new();
        assert(empty@.map_values(|l: Vec<u8>| l@) =~= Seq::<Seq<u8>>::empty());
        return empty;
    }
    let remainder = pending.split_off(k);
    let mut completed = remainder;
    std::mem::swap(pending, &mut completed);
    assert(completed@ =~= all.take(k as int));
    assert(pending@ =~= all.skip(k as int));
    let ghost s = completed@;
    let mut lines: Vec<Vec<u8>> = Vec::new();
    let mut j: usize = 0;
    let n = completed.len();
    while j < n
        invariant
            n == completed.len(),
            s == completed@,
            j <= n,
            lines@.map_values(|l: Vec<u8>| l@) + keep_bounded(inclusive_lines_from(s, j as int))
                == keep_bounded(inclusive_lines_from(s, 0)),
        decreases n - j,
    {
        let mut e = j;
        while e < n && completed[e] != 10u8
            invariant
                j <= e <= n,
                n == completed.len(),
                s == completed@,
                newline_end(s, e as int) == newline_end(s, j as int),
            decreases n - e,
        {
            e = e + 1;
        }
        if e < n {
            e = e + 1;
        }
        proof { lemma_newline_end_bounds(s, j as int); }
        assert(e == newline_end(s, j as int));
        let ghost line = s.subrange(j as int, e as int);
        proof {
            lemma_keep_bounded_step(inclusive_lines_from(s, e as int), line);
        }
        if e - j <= MAX_PTY_LINE_BYTES {
            let mut piece: Vec<u8> = Vec::new();
            let mut t = j;
            while t < e
                invariant
                    j <= t <= e <= n,
                    n == completed.len(),
                    piece@ == completed@.subrange(j as int, t as int),
                decreases e - t,
            {
                piece.push(completed[t]);
                t = t + 1;
                assert(piece@ =~= completed@.subrange(j as int, t as int));
            }
            let ghost before = lines@.map_values(|l: Vec<u8>| l@);
            lines.push(piece);
            assert(lines@.map_values(|l: Vec<u8>| l@) =~= before.push(line));
            assert(before.push(line) + keep_bounded(inclusive_lines_from(s, e as int)) =~= before + (seq![line] + keep_bounded(inclusive_lines_from(s, e as int))));
        }
        j = e;
    }
    assert(keep_bounded(inclusive_lines_from(s, n as int)) =~= Seq::<Seq<u8>>::empty());
    assert(lines@.map_values(|l: Vec<u8>| l@) + Seq::<Seq<u8>>::empty() =~= lines@.map_values(|l: Vec<u8>| l@));
    lines
}

proof fn lemma_concat_lines_from(s: Seq<u8>, j: int)
    requires
        0 <= j <= s.len(),
    ensures
        concat_lines(inclusive_lines_from(s, j)) == s.subrange(j, s.len() as int),
    decreases s.len() - j,
{
    if j < s.len() {
        lemma_newline_end_bounds(s, j);
        let e = newline_end(s, j);
        lemma_concat_lines_from(s, e);
        let ls = inclusive_lines_from(s, j);
        assert(ls.drop_first() =~= inclusive_lines_from(s, e));
        assert(s.subrange(j, e) + s.subrange(e, s.len() as int) =~= s.subrange(j, s.len() as int));
    } else {
        assert(s.subrange(j, s.len() as int) =~= Seq::<u8>::empty());
    }
}

proof fn lemma_keep_bounded_all_fit(lines: Seq<Seq<u8>>)
    requires
        forall|i: int| 0 <= i < lines.len() ==> (#[trigger] lines[i]).len() <= MAX_PTY_LINE_BYTES,
    ensures
        keep_bounded(lines) == lines,
    decreases lines.len(),
{
    if lines.len() > 0 {
        assert(lines[0].len() <= MAX_PTY_LINE_BYTES);
        assert forall|i: int| 0 <= i < lines.drop_first().len() implies (#[trigger] lines.drop_first()[i]).len() <= MAX_PTY_LINE_BYTES by {
            assert(lines.drop_first()[i] == lines[i + 1]);
        }
        lemma_keep_bounded_all_fit(lines.drop_first());
        assert(seq![lines[0]] + lines.drop_first() =~= lines);
    }
}

proof fn lemma_newline_end_take(s: Seq<u8>, k: int, j: int)
    requires
        0 <= j <= k < s.len(),
        s[k] == 10u8,
    ensures
        newline_end(s.take(k + 1), j) == newline_end(s, j),
    decreases k - j,
{
    assert(s.take(k + 1)[j] == s[j]);
    if s[j] != 10u8 {
        lemma_newline_end_take(s, k, j + 1);
    }
}

/// The lines of `s` up to a newline at `k` are the first lines of `s`.
proof fn lemma_lines_take(s: Seq<u8>, k: int, j: int)
    requires
        0 <= k < s.len(),
        s[k] == 10u8,
        0 <= j <= k + 1,
    ensures
        inclusive_lines_from(s.take(k + 1), j).len() <= inclusive_lines_from(s, j).len(),
        forall|i: int|
            0 <= i < inclusive_lines_from(s.take(k + 1), j).len() ==> #[trigger] inclusive_lines_from(
                s.take(k + 1),
                j,
            )[i] == inclusive_lines_from(s, j)[i],
    decreases k + 1 - j,
{
    let t = s.take(k + 1);
    if j <= k {
        lemma_newline_end_take(s, k, j);
        lemma_newline_end_bounds(t, j);
        lemma_newline_end_bounds(s, j);
        let e = newline_end(s, j);
        lemma_lines_take(s, k, e);
        assert(t.subrange(j, e) =~= s.subrange(j, e));
        let a = inclusive_lines_from(t, j);
        let b = inclusive_lines_from(s, j);
        assert forall|i: int| 0 <= i < a.len() implies #[trigger] a[i] == b[i] by {
            if i > 0 {
                assert(a[i] == inclusive_lines_from(t, e)[i - 1]);
                assert(b[i] == inclusive_lines_from(s, e)[i - 1]);
            }
        }
    }
}

proof fn lemma_newline_end_hits(t: Seq<u8>, j: int)
    requires
        0 <= j < t.len(),
        t[t.len() - 1] == 10u8,
    ensures
        j < newline_end(t, j) <= t.len(),
        t[newline_end(t, j) - 1] == 10u8,
    decreases t.len() - j,
{
    if t[j] != 10u8 {
        lemma_newline_end_hits(t, j + 1);
    }
}

/// Every line of a text that ends in a newline ends in a newline.
proof fn lemma_lines_end_in_newline(t: Seq<u8>, j: int)
    requires
        0 <= j,
        t.len() > 0,
        t[t.len() - 1] == 10u8,
    ensures
        forall|i: int|
            0 <= i < inclusive_lines_from(t, j).len() ==> (#[trigger] inclusive_lines_from(t, j)[i]).len() > 0
                && inclusive_lines_from(t, j)[i].last() == 10u8,
    decreases t.len() - j,
{
    if j < t.len() {
        lemma_newline_end_hits(t, j);
        let e = newline_end(t, j);
        lemma_lines_end_in_newline(t, e);
        let ls = inclusive_lines_from(t, j);
        assert forall|i: int| 0 <= i < ls.len() implies (#[trigger] ls[i]).len() > 0 && ls[i].last() == 10u8 by {
            if i > 0 {
                assert(ls[i] == inclusive_lines_from(t, e)[i - 1]);
            } else {
                assert(ls[0] == t.subrange(j, e));
            }
        }
    }
}

/// No console byte is lost while every line stays within the bound: when each complete
/// line of the old pending bytes followed by the new chunk is at most
/// `MAX_PTY_LINE_BYTES` long (and, when they hold no newline at all, so are they), the
/// lines taken out, followed by what remains pending, are exactly those bytes, and what
/// remains pending holds no newline, however long it is.
pub proof fn law_pty_split_loses_no_bytes(pending: Seq<u8>, bytes: Seq<u8>)
    requires
        forall|i: int|
            0 <= i < inclusive_lines_from(pending + bytes, 0).len() && (#[trigger] inclusive_lines_from(
                pending + bytes,
                0,
            )[i]).len() > 0 && inclusive_lines_from(pending + bytes, 0)[i].last() == 10u8
                ==> inclusive_lines_from(pending + bytes, 0)[i].len() <= MAX_PTY_LINE_BYTES,
        last_newline(pending + bytes) < 0 ==> (pending + bytes).len() <= MAX_PTY_LINE_BYTES,
    ensures
        concat_lines(pty_split(pending + bytes).0) + pty_split(pending + bytes).1 == pending + bytes,
        forall|m: int|
            0 <= m < pty_split(pending + bytes).1.len() ==> #[trigger] pty_split(pending + bytes).1[m]
                != 10u8,
{
    let all = pending + bytes;
    lemma_last_newline(all);
    let k = last_newline(all);
    if k >= 0 {
        let s = all.take(k + 1);
        lemma_concat_lines_from(s, 0);
        assert(s.subrange(0, s.len() as int) =~= s);
        let ls = inclusive_lines_from(s, 0);
        lemma_lines_take(all, k, 0);
        assert(s[s.len() - 1] == 10u8);
        lemma_lines_end_in_newline(s, 0);
        assert forall|i: int| 0 <= i < ls.len() implies (#[trigger] ls[i]).len() <= MAX_PTY_LINE_BYTES by {
            assert(ls[i] == inclusive_lines_from(all, 0)[i]);
            assert(ls[i].len() > 0 && ls[i].last() == 10u8);
        }
        lemma_keep_bounded_all_fit(ls);
        assert(s + all.skip(k + 1) =~= all);
        assert forall|m: int| 0 <= m < all.skip(k + 1).len() implies #[trigger] all.skip(k + 1)[m] != 10u8 by {
            assert(all.skip(k + 1)[m] == all[k + 1 + m]);
        }
    } else {
        assert(concat_lines(Seq::<Seq<u8>>::empty()) =~= Seq::<u8>::empty());
        assert(Seq::<u8>::empty() + all =~= all);
    }
}

/// `s` without its trailing carriage returns and newlines
/// (`str::trim_end_matches(['\r', '\n'])`).
pub open spec fn trim_end_crlf(s: Seq<char>) -> Seq<char>
    decreases s.len(),
{
    if s.len() > 0 && (s.last() == '\r' || s.last() == '\n') {
        trim_end_crlf(s.drop_last())
    } else {
        s
    }
}

/// `s` without its trailing carriage returns and newlines.
pub fn trim_end_crlf_string(s: &str) -> (out: String)
    ensures
        out@ == trim_end_crlf(s@),
{
    let chars = chars_of(s);
    let mut j = chars.len();
    assert(chars@.take(j as int) =~= chars@);
    while j > 0 && (chars[j - 1] == '\r' || chars[j - 1] == '\n')
        invariant
            j <= chars.len(),
            trim_end_crlf(chars@) == trim_end_crlf(chars@.take(j as int)),
        decreases j,
    {
        assert(chars@.take(j as int).drop_last() =~= chars@.take(j - 1));
        j = j - 1;
    }
    assert(chars@.take(j as int).subrange(0, j as int) =~= chars@.take(j as int));
    assert(chars@.take(j as int) =~= chars@.subrange(0, j as int));
    string_from_chars(&chars, 0, j)
}

/// Whether a cleaned console line is shown: empty lines, timestamped log4j
/// lines (they arrive through the log file instead) and echoed `> ` prompts
/// are not.
pub open spec fn shows_console_line(cleaned: Seq<char>) -> bool {
    !(cleaned.len() == 0 || has_timestamp_prefix(encode_utf8(cleaned))
        || starts_with_spec(cleaned, "> "@))
}

/// What to do with one line of process output.
pub struct OutputLineDecision {
    /// The cleaned line to push to the console buffer and emit, if any.
    pub record: Option<String>,
    /// Whether the JNA crash hint lines follow it.
    pub emit_jna_hint: bool,
}

/// Decides what one raw line of server process output turns into. The JNA
/// crash hint is announced at most once per output stream.
pub fn process_server_output_line(raw_line: &str, jna_hint_emitted: &mut bool) -> (d:
    OutputLineDecision)
    ensures
        ({
            let cleaned = strip_ansi_spec(raw_line@);
            &&& d.record is Some <==> shows_console_line(cleaned)
            &&& d.record matches Some(line) ==> line@ == cleaned
            &&& d.emit_jna_hint == (shows_console_line(cleaned) && !*old(jna_hint_emitted)
                && contains_spec(raw_line@, "Assertion failed:"@)
                && contains_spec(raw_line@, "snprintf() output has been truncated"@)
                && contains_spec(raw_line@, "dispatch.c"@))
            &&& *final(jna_hint_emitted) == (*old(jna_hint_emitted) || d.emit_jna_hint)
        }),
{
    let cleaned = strip_ansi(raw_line);
    if cleaned.as_str().is_empty() || is_timestamped_log_line(cleaned.as_str()) || str_starts_with(
        cleaned.as_str(),
        "> ",
    ) {
        return OutputLineDecision { record: None, emit_jna_hint: false };
    }
    let emit = !*jna_hint_emitted && is_jna_macos_assertion(raw_line);
    if emit {
        *jna_hint_emitted = true;
    }
    OutputLineDecision { record: Some(cleaned), emit_jna_hint: emit }
}

/// The hint lines shown after a JNA macOS assertion crash.
pub fn jna_crash_hint_lines() -> (lines: Vec<String>)
    ensures
        lines@.map_values(|s: String| s@) == seq![
            "[Axolotl] This crash matches a known JNA bug on macOS (java-native-access#1452):"@,
            "[Axolotl] mods bundling JNA below 5.13.0 abort when a native library fails to load."@,
            "[Axolotl] Update or remove the affected mod, or ask the modpack author to bump JNA to 5.13.0+."@,
        ],
{
    let mut lines: Vec<String> = Vec::new();
    lines.push(to_owned_string("[Axolotl] This crash matches a known JNA bug on macOS (java-native-access#1452):"));
    lines.push(to_owned_string("[Axolotl] mods bundling JNA below 5.13.0 abort when a native library fails to load."));
    lines.push(to_owned_string("[Axolotl] Update or remove the affected mod, or ask the modpack author to bump JNA to 5.13.0+."));
    assert(lines@.map_values(|s: String| s@) =~= seq![
        "[Axolotl] This crash matches a known JNA bug on macOS (java-native-access#1452):"@,
        "[Axolotl] mods bundling JNA below 5.13.0 abort when a native library fails to load."@,
        "[Axolotl] Update or remove the affected mod, or ask the modpack author to bump JNA to 5.13.0+."@,
    ]);
    lines
}

/// The console line that a line read from `logs/latest.log` contributes: its
/// line ending and ANSI sequences removed, unless it is empty or already in
/// the console buffer.
pub fn tailed_log_line_to_record(line: &str, buffer: &[String]) -> (r: Option<String>)
    ensures
        ({
            let cleaned = strip_ansi_spec(trim_end_crlf(line@));
            &&& r is Some <==> (cleaned.len() > 0 && !buffer@.map_values(|b: String| b@).contains(cleaned))
            &&& r matches Some(out) ==> out@ == cleaned
        }),
{
    let trimmed = trim_end_crlf_string(line);
    let cleaned = strip_ansi(trimmed.as_str());
    let ghost views = buffer@.map_values(|b: String| b@);
    let mut i: usize = 0;
    while i < buffer.len()
        invariant
            i <= buffer.len(),
            views == buffer@.map_values(|b: String| b@),
            cleaned@ == strip_ansi_spec(trim_end_crlf(line@)),
            forall|k: int| 0 <= k < i ==> views[k] != cleaned@,
        decreases buffer.len() - i,
    {
        if str_eq(buffer[i].as_str(), cleaned.as_str()) {
            assert(views.len() == buffer.len());
            assert(views[i as int] == cleaned@);
            assert(views.contains(cleaned@));
            return None;
        }
        i = i + 1;
    }
    if cleaned.as_str().is_empty() {
        return None;
    }
    Some(cleaned)
}

/// The UTF-8 encoding of " … [log output truncated by Axolotl] … ".
pub open spec fn truncation_marker_bytes_spec() -> Seq<u8> {
    seq![32u8, 226, 128, 166, 32, 91, 108, 111, 103, 32, 111, 117, 116, 112, 117, 116, 32, 116,
        114, 117, 110, 99, 97, 116, 101, 100, 32, 98, 121, 32, 65, 120, 111, 108, 111, 116, 108,
        93, 32, 226, 128, 166, 32]
}

/// The bytes appended after a truncated server log line.
pub fn truncation_marker_bytes() -> (m: Vec<u8>)
    ensures
        m@ == truncation_marker_bytes_spec(),
        m.len() == 43,
{
    vec![32u8, 226, 128, 166, 32, 91, 108, 111, 103, 32, 111, 117, 116, 112, 117, 116, 32, 116,
        114, 117, 110, 99, 97, 116, 101, 100, 32, 98, 121, 32, 65, 120, 111, 108, 111, 116, 108,
        93, 32, 226, 128, 166, 32]
}

/// Bytes of line content kept before a line is truncated: room is left for
/// the marker and the final newline.
pub const MAX_SERVER_LOG_CONTENT_BYTES: usize = 65492;

/// `s` without its trailing carriage return and newline bytes.
pub open spec fn trim_end_crlf_bytes(s: Seq<u8>) -> Seq<u8>
    decreases s.len(),
{
    if s.len() > 0 && (s.last() == 13u8 || s.last() == 10u8) {
        trim_end_crlf_bytes(s.drop_last())
    } else {
        s
    }
}

/// Trimming line ends never lengthens bytes.
pub proof fn lemma_trim_end_crlf_bytes_len(s: Seq<u8>)
    ensures
        trim_end_crlf_bytes(s).len() <= s.len(),
    decreases s.len(),
{
    if s.len() > 0 && (s.last() == 13u8 || s.last() == 10u8) {
        lemma_trim_end_crlf_bytes_len(s.drop_last());
    }
}

/// The line that the bytes `seen` (one line, consumed from a buffered reader)
/// become: kept whole when they fit, otherwise cut to the content bound and
/// ended with the marker and a newline.
pub open spec fn bounded_line_spec(seen: Seq<u8>, marker: Seq<u8>) -> Seq<u8> {
    if seen.len() > MAX_SERVER_LOG_CONTENT_BYTES {
        trim_end_crlf_bytes(seen.take(MAX_SERVER_LOG_CONTENT_BYTES as int)) + marker + seq![10u8]
    } else {
        seen
    }
}

/// Reads one server log line from successive buffered chunks, keeping at
/// most `MAX_SERVER_LOG_CONTENT_BYTES` of it while still consuming the whole
/// line from the reader.
pub struct BoundedLineReader {
    line: Vec<u8>,
    saw_bytes: bool,
    truncated: bool,
    seen: Ghost<Seq<u8>>,
}

impl BoundedLineReader {
    /// The bytes of the current line consumed so far.
    pub closed spec fn seen_bytes(&self) -> Seq<u8> {
        self.seen@
    }

    /// The reader holds the bounded prefix of the bytes seen, and knows whether it cut any.
    pub closed spec fn wf(&self) -> bool {
        &&& self.line@ == self.seen@.take(
            if self.seen@.len() > MAX_SERVER_LOG_CONTENT_BYTES {
                MAX_SERVER_LOG_CONTENT_BYTES as int
            } else {
                self.seen@.len() as int
            },
        )
        &&& self.truncated == (self.seen@.len() > MAX_SERVER_LOG_CONTENT_BYTES)
        &&& self.saw_bytes == (self.seen@.len() > 0)
    }

    /// A reader at the start of a line.
    pub fn new() -> (r: Self)
        ensures
            r.wf(),
            r.seen_bytes() == Seq::<u8>::empty(),
    {
        let r = BoundedLineReader { line: Vec::new(), saw_bytes: false, truncated: false, seen: Ghost(Seq::empty()) };
        assert(r.seen@.take(0) =~= r.line@);
        r
    }

    /// Whether any byte of the current line has been consumed.
    pub fn saw_bytes(&self) -> (b: bool)
        requires
            self.wf(),
        ensures
            b == (self.seen_bytes().len() > 0),
    {
        self.saw_bytes
    }

    /// Takes in the bytes the reader has buffered (never empty); returns how
    /// many of them belong to this line and whether the line ended.
    pub fn feed(&mut self, available: &[u8]) -> (r: (usize, bool))
        requires
            old(self).wf(),
            available.len() > 0,
        ensures
            final(self).wf(),
            0 < r.0 <= available.len(),
            final(self).seen_bytes() == old(self).seen_bytes() + available@.take(r.0 as int),
            r.1 == (available@[r.0 - 1] == 10u8),
            forall|k: int| 0 <= k < r.0 - 1 ==> available@[k] != 10u8,
            !r.1 ==> r.0 == available.len(),
    {
        let mut consumed: usize = 0;
        while consumed < available.len() && available[consumed] != 10u8
            invariant
                consumed <= available.len(),
                forall|k: int| 0 <= k < consumed ==> available@[k] != 10u8,
            decreases available.len() - consumed,
        {
            consumed = consumed + 1;
        }
        if consumed < available.len() {
            consumed = consumed + 1;
        }
        let remaining = if self.line.len() >= MAX_SERVER_LOG_CONTENT_BYTES {
            0
        } else {
            MAX_SERVER_LOG_CONTENT_BYTES - self.line.len()
        };
        let copied = if remaining < consumed { remaining } else { consumed };
        let ghost before = self.line@;
        let mut t: usize = 0;
        while t < copied
            invariant
                t <= copied <= consumed <= available.len(),
                self.line@ == before + available@.take(t as int),
                self.seen == old(self).seen,
                self.truncated == old(self).truncated,
                self.saw_bytes == old(self).saw_bytes,
                before == old(self).line@,
            decreases copied - t,
        {
            self.line.push(available[t]);
            t = t + 1;
            assert(self.line@ =~= before + available@.take(t as int));
        }
        proof {
            let old_seen = self.seen@;
            self.seen = Ghost(old_seen + available@.take(consumed as int));
            let ns = self.seen@;
            assert(available@.take(copied as int) =~= available@.take(consumed as int).take(copied as int));
            if ns.len() > MAX_SERVER_LOG_CONTENT_BYTES {
                assert(self.line@ =~= ns.take(MAX_SERVER_LOG_CONTENT_BYTES as int));
            } else {
                assert(self.line@ =~= ns.take(ns.len() as int));
            }
        }
        self.truncated = self.truncated || copied < consumed;
        self.saw_bytes = true;
        (consumed, available[consumed - 1] == 10u8)
    }

    /// The finished line: the bytes seen, or their bounded prefix with the
    /// truncation marker and a newline.
    pub fn finish(self) -> (out: Vec<u8>)
        requires
            self.wf(),
        ensures
            out@ == bounded_line_spec(self.seen_bytes(), truncation_marker_bytes_spec()),
            out.len() <= MAX_SERVER_LOG_LINE_BYTES,
    {
        let mut line = self.line;
        if self.truncated {
            while line.len() > 0 && (line[line.len() - 1] == 13u8 || line[line.len() - 1] == 10u8)
                invariant
                    trim_end_crlf_bytes(line@) == trim_end_crlf_bytes(self.seen@.take(MAX_SERVER_LOG_CONTENT_BYTES as int)),
                    line.len() <= MAX_SERVER_LOG_CONTENT_BYTES,
                decreases line.len(),
            {
                assert(line@.drop_last() == line@.subrange(0, line.len() - 1));
                line.pop();
            }
            proof { lemma_trim_end_crlf_bytes_len(self.seen@.take(MAX_SERVER_LOG_CONTENT_BYTES as int)); }
            let marker = truncation_marker_bytes();
            let ghost trimmed = line@;
            let mut t: usize = 0;
            while t < marker.len()
                invariant
                    t <= marker.len(),
                    marker.len() == 43,
                    trimmed.len() <= MAX_SERVER_LOG_CONTENT_BYTES,
                    line@ == trimmed + marker@.take(t as int),
                decreases marker.len() - t,
            {
                line.push(marker[t]);
                t = t + 1;
                assert(line@ =~= trimmed + marker@.take(t as int));
            }
            line.push(10u8);
            proof {
                assert(marker@.take(43) =~= marker@);
                assert(marker@ == truncation_marker_bytes_spec());
            }
        }
        line
    }
}

} // verus!
