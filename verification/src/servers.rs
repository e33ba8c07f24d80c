//! Dedicated servers: which transport a server uses, what is written to its console,
//! how it is launched, and how its exit is judged.
use base64::Engine;
use vstd::prelude::*;
use vstd::string::StringSliceAdditionalSpecFns;

use crate::curseforge::{extension_spec, find_last_char, last_index_of, lemma_last_index_of};
use crate::error::{input_error, ErrorKind};
use crate::server_logs::{analyze_exit_reason, tail_has_eula_refusal, ExitReason};
use crate::text::{
    chars_of, decimal_spec, decimal_string, find_char_from, index_of_from, lemma_index_of_from,
    str_eq, str_starts_with, string_from_chars, to_owned_string, trim_spec, trim_string,
};

verus! {

/// Memory given to a server when nothing else is set (MiB).
pub const DEFAULT_MEMORY_MB: u32 = 2048;

/// Seconds a stopping server gets before it is killed.
pub const STOP_TIMEOUT_SECS: u64 = 60;

/// Most console rows a server's terminal can have.
pub const MAX_CONSOLE_ROWS: u16 = 8192;

/// Most bytes one raw console input may carry.
pub const MAX_CONSOLE_INPUT_BYTES: usize = 65536;

/// Only Forge servers run behind a terminal; the others use plain pipes.
pub fn uses_pty_transport(server_type: &str) -> (r: bool)
    ensures
        r == (server_type@ == "forge"@),
{
    str_eq(server_type, "forge")
}

/// The bytes written to a server's console for a command: the command as UTF-8 and
/// one newline.
pub fn command_bytes(command: &str) -> (r: Vec<u8>)
    ensures
        r@ == command.spec_bytes().push(10u8),
{
    let bytes = command.as_bytes();
    let mut r: Vec<u8> = Vec::new();
    let mut i: usize = 0;
    while i < bytes.len()
        invariant
            i <= bytes@.len(),
            bytes@ == command.spec_bytes(),
            r@ == bytes@.take(i as int),
        decreases bytes.len() - i,
    {
        r.push(bytes[i]);
        i = i + 1;
        assert(r@ =~= bytes@.take(i as int));
    }
    assert(bytes@.take(bytes@.len() as int) =~= bytes@);
    r.push(10u8);
    r
}

/// The servers the launcher runs, and those being started.
#[derive(Debug)]
pub struct ServerSlots {
    running: Vec<String>,
    starting: Vec<String>,
}

/// `ids` holds `id`.
pub open spec fn holds_id(ids: Seq<String>, id: Seq<char>) -> bool {
    exists|i: int| 0 <= i < ids.len() && #[trigger] ids[i]@ == id
}

/// Position of `id` in `ids`.
fn position_of(ids: &Vec<String>, id: &str) -> (r: Option<usize>)
    ensures
        r matches Some(i) ==> i < ids@.len() && ids@[i as int]@ == id@,
        r is None ==> !holds_id(ids@, id@),
{
    let mut i: usize = 0;
    while i < ids.len()
        invariant
            i <= ids.len(),
            forall|j: int| 0 <= j < i ==> #[trigger] ids@[j]@ != id@,
        decreases ids.len() - i,
    {
        if str_eq(ids[i].as_str(), id) {
            return Some(i);
        }
        i = i + 1;
    }
    None
}

impl ServerSlots {
    /// The ids of the running servers.
    pub closed spec fn running_ids(&self) -> Set<Seq<char>> {
        self.running@.map_values(|s: String| s@).to_set()
    }

    /// The ids of the servers being started.
    pub closed spec fn starting_ids(&self) -> Set<Seq<char>> {
        self.starting@.map_values(|s: String| s@).to_set()
    }

    /// No server runs or starts.
    pub fn new() -> (s: Self)
        ensures
            s.running_ids() == Set::<Seq<char>>::empty(),
            s.starting_ids() == Set::<Seq<char>>::empty(),
    {
        let s = ServerSlots { running: Vec::new(), starting: Vec::new() };
        proof {
            assert(s.running@.map_values(|x: String| x@).to_set() =~= Set::<Seq<char>>::empty());
            assert(s.starting@.map_values(|x: String| x@).to_set() =~= Set::<Seq<char>>::empty());
        }
        s
    }

    /// Whether the server runs.
    pub fn is_running(&self, server_id: &str) -> (r: bool)
        ensures
            r == self.running_ids().contains(server_id@),
    {
        proof {
            lemma_ids_set(self.running@, server_id@);
        }
        position_of(&self.running, server_id).is_some()
    }

    /// Reserves the start of a server before anything else is done, so that two starts
    /// of one server cannot both proceed: refused while it runs or is being started.
    pub fn begin_start(&mut self, server_id: &str) -> (r: Result<(), ErrorKind>)
        ensures
            (old(self).running_ids().contains(server_id@) || old(self).starting_ids().contains(
                server_id@,
            )) ==> r is Err && final(self).running_ids() == old(self).running_ids()
                && final(self).starting_ids() == old(self).starting_ids(),
            !(old(self).running_ids().contains(server_id@) || old(self).starting_ids().contains(
                server_id@,
            )) ==> r is Ok && final(self).running_ids() == old(self).running_ids()
                && final(self).starting_ids() == old(self).starting_ids().insert(server_id@),
            r matches Err(e) ==> e matches ErrorKind::InputError(m) && m@
                == "Server is already running"@,
    {
        proof {
            lemma_ids_set(self.running@, server_id@);
            lemma_ids_set(self.starting@, server_id@);
        }
        if position_of(&self.running, server_id).is_some() || position_of(
            &self.starting,
            server_id,
        ).is_some() {
            return Err(input_error("Server is already running"));
        }
        let ghost before = self.starting@;
        self.starting.push(to_owned_string(server_id));
        proof {
            assert(self.starting@.map_values(|s: String| s@) =~= before.map_values(|s: String| s@).push(server_id@));
            lemma_push_to_set(before.map_values(|s: String| s@), server_id@);
        }
        Ok(())
    }

    /// Ends a start: the server is no longer being started, and runs if it came up.
    pub fn finish_start(&mut self, server_id: &str, started: bool)
        ensures
            final(self).starting_ids() == old(self).starting_ids().remove(server_id@),
            started ==> final(self).running_ids() == old(self).running_ids().insert(server_id@),
            !started ==> final(self).running_ids() == old(self).running_ids(),
    {
        remove_id(&mut self.starting, server_id);
        if started && position_of(&self.running, server_id).is_none() {
            let ghost before = self.running@;
            self.running.push(to_owned_string(server_id));
            proof {
                assert(self.running@.map_values(|s: String| s@) =~= before.map_values(|s: String| s@).push(server_id@));
                lemma_push_to_set(before.map_values(|s: String| s@), server_id@);
            }
        } else if started {
            proof {
                lemma_ids_set(self.running@, server_id@);
                assert(self.running_ids().insert(server_id@) =~= self.running_ids());
            }
        }
    }

    /// Notes that the server's process has exited.
    pub fn mark_exited(&mut self, server_id: &str)
        ensures
            final(self).running_ids() == old(self).running_ids().remove(server_id@),
            final(self).starting_ids() == old(self).starting_ids(),
    {
        remove_id(&mut self.running, server_id);
    }
}

proof fn lemma_ids_set(ids: Seq<String>, id: Seq<char>)
    ensures
        ids.map_values(|s: String| s@).to_set().contains(id) == holds_id(ids, id),
{
    let views = ids.map_values(|s: String| s@);
    if holds_id(ids, id) {
        let i = choose|i: int| 0 <= i < ids.len() && #[trigger] ids[i]@ == id;
        assert(views[i] == id);
    }
    if views.to_set().contains(id) {
        let i = choose|i: int| 0 <= i < views.len() && views[i] == id;
        assert(ids[i]@ == id);
    }
}

proof fn lemma_push_to_set(views: Seq<Seq<char>>, id: Seq<char>)
    ensures
        views.push(id).to_set() == views.to_set().insert(id),
{
    assert forall|x: Seq<char>| views.push(id).to_set().contains(x) == views.to_set().insert(id).contains(x) by {
        if views.push(id).to_set().contains(x) {
            let i = choose|i: int| 0 <= i < views.push(id).len() && views.push(id)[i] == x;
            if i < views.len() {
                assert(views[i] == x);
            }
        }
        if views.to_set().contains(x) {
            let i = choose|i: int| 0 <= i < views.len() && views[i] == x;
            assert(views.push(id)[i] == x);
        }
        if x == id {
            assert(views.push(id)[views.len() as int] == id);
        }
    }
    assert(views.push(id).to_set() =~= views.to_set().insert(id));
}

/// Removes every entry equal to `id`.
fn remove_id(ids: &mut Vec<String>, id: &str)
    ensures
        final(ids)@.map_values(|s: String| s@).to_set() == old(ids)@.map_values(|s: String| s@).to_set().remove(id@),
{
    let ghost initial = old(ids)@.map_values(|s: String| s@).to_set();
    let mut kept: Vec<String> = Vec::new();
    let mut i: usize = 0;
    while i < ids.len()
        invariant
            i <= ids.len(),
            ids@ == old(ids)@,
            initial == old(ids)@.map_values(|s: String| s@).to_set(),
            kept@.map_values(|s: String| s@).to_set() == ids@.take(i as int).map_values(
                |s: String| s@,
            ).to_set().remove(id@),
        decreases ids.len() - i,
    {
        let ghost prev = kept@;
        let ghost done = ids@.take(i as int).map_values(|s: String| s@);
        let ghost next = ids@.take(i + 1).map_values(|s: String| s@);
        proof {
            assert(next =~= done.push(ids@[i as int]@));
            lemma_push_to_set(done, ids@[i as int]@);
        }
        if !str_eq(ids[i].as_str(), id) {
            kept.push(ids[i].clone());
            proof {
                assert(kept@.map_values(|s: String| s@) =~= prev.map_values(|s: String| s@).push(ids@[i as int]@));
                lemma_push_to_set(prev.map_values(|s: String| s@), ids@[i as int]@);
                assert(done.to_set().insert(ids@[i as int]@).remove(id@) =~= done.to_set().remove(id@).insert(ids@[i as int]@));
            }
        } else {
            proof {
                assert(done.to_set().insert(ids@[i as int]@).remove(id@) =~= done.to_set().remove(id@));
            }
        }
        i = i + 1;
    }
    proof {
        assert(ids@.take(ids@.len() as int) =~= ids@);
        assert(ids@.take(ids@.len() as int).map_values(|s: String| s@) =~= ids@.map_values(|s: String| s@));
    }
    *ids = kept;
}

/// The columns and rows brought within 20 to 500 columns and 4 to 8192 rows.
pub open spec fn console_size_spec(cols: u16, rows: u16) -> (u16, u16) {
    (
        if cols < 20 {
            20
        } else if cols > 500 {
            500
        } else {
            cols
        },
        if rows < 4 {
            4
        } else if rows > MAX_CONSOLE_ROWS {
            MAX_CONSOLE_ROWS
        } else {
            rows
        },
    )
}

/// A console size within what the terminal accepts: 4 to 8192 rows, 20 to 500 columns.
pub fn console_size(cols: u16, rows: u16) -> (r: (u16, u16))
    ensures
        r == console_size_spec(cols, rows),
{
    let cols = if cols < 20 {
        20
    } else if cols > 500 {
        500
    } else {
        cols
    };
    let rows = if rows < 4 {
        4
    } else if rows > MAX_CONSOLE_ROWS {
        MAX_CONSOLE_ROWS
    } else {
        rows
    };
    (cols, rows)
}

/// The size a console is resized to: a server that is not running, or runs without a
/// terminal (only Forge servers have one), is refused; otherwise the size is brought
/// within what the terminal accepts (see `console_size`).
pub fn resize_console_size(running: bool, has_terminal: bool, cols: u16, rows: u16) -> (r: Result<(u16, u16), ErrorKind>)
    ensures
        !running ==> (r matches Err(ErrorKind::InputError(m)) && m@ == "Server is not running"@),
        running && !has_terminal ==> (r matches Err(ErrorKind::InputError(m)) && m@
            == "Console resizing is only available for Forge servers"@),
        running && has_terminal ==> (r matches Ok(size) && size == console_size_spec(cols, rows)),
{
    if !running {
        return Err(input_error("Server is not running"));
    }
    if !has_terminal {
        return Err(input_error("Console resizing is only available for Forge servers"));
    }
    Ok(console_size(cols, rows))
}

/// What the standard Base64 alphabet (with padding) decodes `data` to, or the message
/// (`Display`) of the error it reports.
pub uninterp spec fn base64_standard_decode(data: Seq<char>) -> Result<Seq<u8>, Seq<char>>;

/// Decodes `data` with base64's `STANDARD` engine; the result, or the text of its error,
/// is `base64_standard_decode`.
#[verifier::external_body]
fn decode_base64_standard(data: &str) -> (r: Result<Vec<u8>, String>)
    ensures
        match base64_standard_decode(data@) {
            Ok(bytes) => r matches Ok(v) && v@ == bytes,
            Err(m) => r matches Err(x) && x@ == m,
        },
{
    match base64::engine::general_purpose::STANDARD.decode(data) {
        Ok(bytes) => Ok(bytes),
        Err(e) => Err(e.to_string()),
    }
}

/// Checks decoded console input: a decoding failure is refused with its reason, and
/// input over 64 KiB is refused.
pub fn check_console_input(decoded: Result<Vec<u8>, String>) -> (r: Result<Vec<u8>, ErrorKind>)
    ensures
        match decoded {
            Err(reason) => r matches Err(ErrorKind::InputError(m)) && m@ == "Invalid console input: "@
                + reason@,
            Ok(bytes) => if bytes@.len() > MAX_CONSOLE_INPUT_BYTES {
                r matches Err(ErrorKind::InputError(m)) && m@ == "Console input exceeds 64 KiB"@
            } else {
                r matches Ok(v) && v@ == bytes@
            },
        },
{
    match decoded {
        Err(reason) => {
            let mut m = to_owned_string("Invalid console input: ");
            m.append(reason.as_str());
            Err(ErrorKind::InputError(m))
        },
        Ok(bytes) => {
            if bytes.len() > MAX_CONSOLE_INPUT_BYTES {
                Err(input_error("Console input exceeds 64 KiB"))
            } else {
                Ok(bytes)
            }
        },
    }
}

/// The raw bytes to write to a Forge console from Base64 console input.
pub fn decode_console_input(data: &str) -> (r: Result<Vec<u8>, ErrorKind>)
    ensures
        match base64_standard_decode(data@) {
            Ok(bytes) => if bytes.len() > MAX_CONSOLE_INPUT_BYTES {
                r matches Err(ErrorKind::InputError(m)) && m@ == "Console input exceeds 64 KiB"@
            } else {
                r matches Ok(v) && v@ == bytes
            },
            Err(reason) => r matches Err(ErrorKind::InputError(m)) && m@ == "Invalid console input: "@ + reason,
        },
{
    let decoded = decode_base64_standard(data);
    check_console_input(decoded)
}

/// The Java command and memory of a start: the request's, else the server's, else
/// `java` and the default memory.
pub fn launch_settings(
    java_path: Option<String>,
    memory_mb: Option<u32>,
    manifest_java_path: Option<String>,
    manifest_memory_mb: Option<u32>,
) -> (r: (String, u32))
    ensures
        r.0@ == match java_path {
            Some(j) => j@,
            None => match manifest_java_path {
                Some(j) => j@,
                None => "java"@,
            },
        },
        r.1 == match memory_mb {
            Some(m) => m,
            None => match manifest_memory_mb {
                Some(m) => m,
                None => DEFAULT_MEMORY_MB,
            },
        },
{
    let java = match java_path {
        Some(j) => j,
        None => match manifest_java_path {
            Some(j) => j,
            None => to_owned_string("java"),
        },
    };
    let memory = match memory_mb {
        Some(m) => m,
        None => match manifest_memory_mb {
            Some(m) => m,
            None => DEFAULT_MEMORY_MB,
        },
    };
    (java, memory)
}

/// Appends copies of `items` to `out`.
fn extend_strings(out: &mut Vec<String>, items: &Vec<String>)
    ensures
        final(out)@ == old(out)@ + items@,
{
    let mut i: usize = 0;
    while i < items.len()
        invariant
            i <= items.len(),
            out@ == old(out)@ + items@.take(i as int),
        decreases items.len() - i,
    {
        out.push(items[i].clone());
        i = i + 1;
        assert(out@ =~= old(out)@ + items@.take(i as int));
    }
    assert(items@.take(items@.len() as int) =~= items@);
}

/// The views of a list of strings.
pub open spec fn views(v: Seq<String>) -> Seq<Seq<char>> {
    v.map_values(|s: String| s@)
}

/// The JVM arguments of a start: the heap size, the console tweak of terminal servers,
/// the JVM arguments, then the launch arguments.
pub fn server_jvm_args(
    memory_mb: u32,
    pty: bool,
    jvm_args: &Vec<String>,
    launch_args: &Vec<String>,
) -> (r: Vec<String>)
    ensures
        views(r@) == seq!["-Xmx"@ + decimal_spec(memory_mb as nat) + "M"@] + (if pty {
            seq!["-Dorg.jline.reader.props.list-max=0"@]
        } else {
            Seq::empty()
        }) + views(jvm_args@) + views(launch_args@),
{
    let mut heap = to_owned_string("-Xmx");
    let digits = decimal_string(memory_mb as u64);
    heap.append(digits.as_str());
    heap.append("M");
    let mut r: Vec<String> = Vec::new();
    r.push(heap);
    if pty {
        r.push(to_owned_string("-Dorg.jline.reader.props.list-max=0"));
    }
    let ghost head = r@;
    extend_strings(&mut r, jvm_args);
    extend_strings(&mut r, launch_args);
    proof {
        assert(views(r@) =~= views(head) + views(jvm_args@) + views(launch_args@));
    }
    r
}

/// Launch arguments of a server run from a jar: `-jar <jar> nogui`.
pub fn jar_launch_args(jar_name: &str) -> (r: Vec<String>)
    ensures
        views(r@) == seq!["-jar"@, jar_name@, "nogui"@],
{
    let mut r: Vec<String> = Vec::new();
    r.push(to_owned_string("-jar"));
    r.push(to_owned_string(jar_name));
    r.push(to_owned_string("nogui"));
    proof {
        assert(views(r@) =~= seq!["-jar"@, jar_name@, "nogui"@]);
    }
    r
}

/// Launch arguments of a modern Forge server: the user's JVM argument file when it
/// exists, Forge's argument file, then `nogui`.
pub fn forge_args_file_launch_args(has_user_jvm_args: bool, args_file: &str) -> (r: Vec<String>)
    ensures
        views(r@) == (if has_user_jvm_args {
            seq!["@user_jvm_args.txt"@]
        } else {
            Seq::empty()
        }) + seq!["@"@ + args_file@, "nogui"@],
{
    let mut r: Vec<String> = Vec::new();
    if has_user_jvm_args {
        r.push(to_owned_string("@user_jvm_args.txt"));
    }
    let mut file = to_owned_string("@");
    file.append(args_file);
    r.push(file);
    r.push(to_owned_string("nogui"));
    proof {
        assert(views(r@) =~= (if has_user_jvm_args {
            seq!["@user_jvm_args.txt"@]
        } else {
            Seq::empty()
        }) + seq!["@"@ + args_file@, "nogui"@]);
    }
    r
}

/// A file name that is a legacy Forge server jar: it starts with `forge-` and its
/// extension is `jar`.
pub open spec fn is_forge_jar_name(name: Seq<char>) -> bool {
    &&& name.len() >= 6 && name.take(6) == "forge-"@
    &&& extension_spec(name) == Some("jar"@)
}

/// Whether a file name is a legacy Forge server jar.
pub fn is_forge_jar(name: &str) -> (r: bool)
    ensures
        r == is_forge_jar_name(name@),
{
    proof {
        reveal_strlit("forge-");
        reveal_strlit("jar");
    }
    if !str_starts_with(name, "forge-") {
        return false;
    }
    let chars = chars_of(name);
    proof {
        lemma_last_index_of(chars@.take(chars@.len() as int), '.');
        assert(chars@.take(chars@.len() as int) =~= chars@);
    }
    match find_last_char(&chars, '.', chars.len()) {
        Some(j) => {
            if j == 0 || (chars.len() == 2 && chars[0] == '.' && chars[1] == '.') {
                return false;
            }
            let ext = string_from_chars(&chars, j + 1, chars.len());
            str_eq(ext.as_str(), "jar")
        },
        None => false,
    }
}

/// The first legacy Forge jar among the names of a server folder.
pub fn find_forge_jar(names: &[String]) -> (r: Option<String>)
    ensures
        match r {
            Some(n) => exists|i: int|
                0 <= i < names@.len() && names@[i]@ == n@ && is_forge_jar_name(n@) && forall|j: int|
                    0 <= j < i ==> !is_forge_jar_name(#[trigger] names@[j]@),
            None => forall|i: int| 0 <= i < names@.len() ==> !is_forge_jar_name(#[trigger] names@[i]@),
        },
{
    let mut i: usize = 0;
    while i < names.len()
        invariant
            i <= names.len(),
            forall|j: int| 0 <= j < i ==> !is_forge_jar_name(#[trigger] names@[j]@),
        decreases names.len() - i,
    {
        if is_forge_jar(names[i].as_str()) {
            return Some(names[i].clone());
        }
        i = i + 1;
    }
    None
}

/// Whether `e` is `true` in any ASCII case.
pub open spec fn is_true_ignoring_case(e: Seq<char>) -> bool {
    &&& e.len() == 4
    &&& (e[0] == 't' || e[0] == 'T')
    &&& (e[1] == 'r' || e[1] == 'R')
    &&& (e[2] == 'u' || e[2] == 'U')
    &&& (e[3] == 'e' || e[3] == 'E')
}

/// The EULA is accepted in `eula.txt` text when the first line holding `=` reads
/// `eula = true` (key and value trimmed, the value in any ASCII case).
pub open spec fn eula_accepted_spec(text: Seq<char>) -> bool {
    let e = index_of_from(text, '=', 0);
    let start = last_index_of(text.take(e), '\n') + 1;
    let end = if index_of_from(text, '\n', e) == -1 {
        text.len() as int
    } else {
        index_of_from(text, '\n', e)
    };
    &&& e >= 0
    &&& trim_spec(text.subrange(start, e)) == "eula"@
    &&& is_true_ignoring_case(trim_spec(text.subrange(e + 1, end)))
}

/// Whether `eula.txt` text accepts the EULA.
pub fn eula_accepted_in(text: &str) -> (r: bool)
    ensures
        r == eula_accepted_spec(text@),
{
    let chars = chars_of(text);
    proof {
        lemma_index_of_from(chars@, '=', 0);
    }
    let e = match find_char_from(&chars, '=', 0) {
        Some(e) => e,
        None => return false,
    };
    proof {
        lemma_last_index_of(chars@.take(e as int), '\n');
        lemma_index_of_from(chars@, '\n', e as int);
    }
    let start = match find_last_char(&chars, '\n', e) {
        Some(k) => k + 1,
        None => 0,
    };
    let end = match find_char_from(&chars, '\n', e) {
        Some(k) => k,
        None => chars.len(),
    };
    let key_text = string_from_chars(&chars, start, e);
    let value_text = string_from_chars(&chars, e + 1, end);
    let key = trim_string(key_text.as_str());
    let value = trim_string(value_text.as_str());
    let v = chars_of(value.as_str());
    let is_true = v.len() == 4 && (v[0] == 't' || v[0] == 'T') && (v[1] == 'r' || v[1] == 'R') && (
    v[2] == 'u' || v[2] == 'U') && (v[3] == 'e' || v[3] == 'E');
    str_eq(key.as_str(), "eula") && is_true
}

/// How a server run ended: whether it crashed, and why it stopped on its own.
pub open spec fn crashed_spec(exit_success: Option<bool>, stop_requested: bool, eula_accepted: bool) -> bool {
    match exit_success {
        Some(success) => !success && !stop_requested && eula_accepted,
        None => false,
    }
}

/// Judges the end of a server run: it crashed when it exited unsuccessfully without
/// being asked to stop while the EULA was accepted; a run that was not asked to stop
/// is classified from the tail of its console.
pub fn judge_server_exit(
    exit_success: Option<bool>,
    stop_requested: bool,
    eula_accepted: bool,
    log_lines: &[String],
) -> (r: (bool, Option<ExitReason>))
    ensures
        r.0 == crashed_spec(exit_success, stop_requested, eula_accepted),
        stop_requested ==> r.1 is None,
        !stop_requested ==> r.1 == (if tail_has_eula_refusal(log_lines@.map_values(|l: String| l@)) {
            Some(ExitReason::Eula)
        } else {
            None
        }),
{
    let crashed = match exit_success {
        Some(success) => !success && !stop_requested && eula_accepted,
        None => false,
    };
    let reason = if stop_requested {
        None
    } else {
        analyze_exit_reason(log_lines)
    };
    (crashed, reason)
}

} // verus!
