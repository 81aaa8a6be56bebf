//! System commands typed into the launcher: launching an item, killing a
//! process by name, and the power commands.  Running the programs is the
//! caller's business; this module decides what to run and what to answer.
use vstd::prelude::*;

use crate::text::{
    chars_ends_with, chars_of, chars_starts_with, seq_ends_with, seq_starts_with, str_eq,
    str_to_lowercase, str_trim, string_of, to_lowercase, trim,
};

verus! {

/// `a` followed by `b`, as a new string.
fn concat(a: &str, b: &str) -> (r: String)
    ensures
        r@ == a@ + b@,
{
    let mut v = chars_of(a);
    let w = chars_of(b);
    let mut i: usize = 0;
    let ghost v0 = v@;
    while i < w.len()
        invariant
            i <= w@.len(),
            v@ == v0 + w@.take(i as int),
        decreases w@.len() - i,
    {
        v.push(w[i]);
        proof {
            assert(v@ =~= v0 + w@.take(i + 1));
        }
        i = i + 1;
    }
    proof {
        assert(w@.take(i as int) =~= w@);
    }
    string_of(v.as_slice())
}

// ---------------------------------------------------------------------------
// Launching
// ---------------------------------------------------------------------------
/// Whether a launch target is a web address (opened without looking for a
/// file).
pub open spec fn is_web_address(path: Seq<char>) -> bool {
    seq_starts_with(path, "http://"@) || seq_starts_with(path, "https://"@)
}

/// Whether `path` may be launched: web addresses always; other paths when
/// `path_exists` says they exist, else the error `Path not found: <path>`.
pub fn check_launch_target<F: Fn(&str) -> bool>(path: &str, path_exists: F) -> (r: Result<
    (),
    String,
>)
    requires
        path_exists.requires((path,)),
    ensures
        is_web_address(path@) ==> r is Ok,
        !is_web_address(path@) ==> exists|found: bool|
            path_exists.ensures((path,), found) && match r {
                Ok(_) => found,
                Err(msg) => !found && msg@ == "Path not found: "@ + path@,
            },
{
    let p = chars_of(path);
    let http = chars_of("http://");
    let https = chars_of("https://");
    if chars_starts_with(p.as_slice(), http.as_slice()) || chars_starts_with(
        p.as_slice(),
        https.as_slice(),
    ) {
        return Ok(());
    }
    let found = path_exists(path);
    if found {
        Ok(())
    } else {
        Err(concat("Path not found: ", path))
    }
}

// ---------------------------------------------------------------------------
// Killing a process
// ---------------------------------------------------------------------------
/// The image name killed for a typed name: trimmed, with `.exe` added
/// unless it already ends so (in any case).
pub open spec fn image_name(name: Seq<char>) -> Seq<char> {
    let t = str_trim(name);
    if seq_ends_with(str_to_lowercase(t), ".exe"@) {
        t
    } else {
        t + ".exe"@
    }
}

/// The image name to kill for a typed name (see `image_name`).
pub fn process_image_name(name: &str) -> (r: String)
    ensures
        r@ == image_name(name@),
{
    let t = trim(name);
    let lower = to_lowercase(t);
    let l = chars_of(lower.as_str());
    let suffix = chars_of(".exe");
    if chars_ends_with(l.as_slice(), suffix.as_slice()) {
        string_of(chars_of(t).as_slice())
    } else {
        concat(t, ".exe")
    }
}

/// The answer to a kill request for `image`: `Killed <image>` when the
/// kill command succeeded, else the error `Failed to kill process`.
pub fn kill_result(image: &str, succeeded: bool) -> (r: Result<String, String>)
    ensures
        succeeded ==> (r matches Ok(m) && m@ == "Killed "@ + image@),
        !succeeded ==> (r matches Err(m) && m@ == "Failed to kill process"@),
{
    if succeeded {
        Ok(concat("Killed ", image))
    } else {
        Err(string_of(chars_of("Failed to kill process").as_slice()))
    }
}

// ---------------------------------------------------------------------------
// Power commands
// ---------------------------------------------------------------------------
/// The power commands.
#[derive(Clone, Copy, Debug, PartialEq, Eq, Structural)]
pub enum PowerCommand {
    Sleep,
    Shutdown,
    Restart,
}

/// The power command a typed text names: trimmed and lowercased, it is
/// `sleep`, `shutdown` or `restart`.
pub open spec fn power_command_of(command: Seq<char>) -> Option<PowerCommand> {
    let c = str_to_lowercase(str_trim(command));
    if c == "sleep"@ {
        Some(PowerCommand::Sleep)
    } else if c == "shutdown"@ {
        Some(PowerCommand::Shutdown)
    } else if c == "restart"@ {
        Some(PowerCommand::Restart)
    } else {
        None
    }
}

/// Reads a power command (see `power_command_of`); for any other text the
/// error `Unknown power command: <text>`, with the text as typed.
pub fn parse_power_command(command: &str) -> (r: Result<PowerCommand, String>)
    ensures
        match power_command_of(command@) {
            Some(c) => r == Ok::<PowerCommand, String>(c),
            None => (r matches Err(m) && m@ == "Unknown power command: "@ + command@),
        },
{
    let t = trim(command);
    let c = to_lowercase(t);
    let cs = c.as_str();
    if str_eq(cs, "sleep") {
        Ok(PowerCommand::Sleep)
    } else if str_eq(cs, "shutdown") {
        Ok(PowerCommand::Shutdown)
    } else if str_eq(cs, "restart") {
        Ok(PowerCommand::Restart)
    } else {
        Err(concat("Unknown power command: ", command))
    }
}

/// The program and arguments run for a power command: `shutdown` with
/// `/s` or `/r` and no delay, and for sleep the `SetSuspendState` entry
/// point through `rundll32.exe` (used when the direct call fails).
pub fn power_command_args(c: PowerCommand) -> (r: Vec<String>)
    ensures
        texts_of(r@) == match c {
            PowerCommand::Shutdown => seq!["shutdown"@, "/s"@, "/t"@, "0"@],
            PowerCommand::Restart => seq!["shutdown"@, "/r"@, "/t"@, "0"@],
            PowerCommand::Sleep => seq!["rundll32.exe"@, "powrprof.dll,SetSuspendState"@, "0,1,0"@],
        },
{
    let mut r: Vec<String> = Vec::new();
    match c {
        PowerCommand::Shutdown => {
            r.push(String::from_str("shutdown"));
            r.push(String::from_str("/s"));
            r.push(String::from_str("/t"));
            r.push(String::from_str("0"));
        },
        PowerCommand::Restart => {
            r.push(String::from_str("shutdown"));
            r.push(String::from_str("/r"));
            r.push(String::from_str("/t"));
            r.push(String::from_str("0"));
        },
        PowerCommand::Sleep => {
            r.push(String::from_str("rundll32.exe"));
            r.push(String::from_str("powrprof.dll,SetSuspendState"));
            r.push(String::from_str("0,1,0"));
        },
    }
    proof {
        assert(texts_of(r@) =~= match c {
            PowerCommand::Shutdown => seq!["shutdown"@, "/s"@, "/t"@, "0"@],
            PowerCommand::Restart => seq!["shutdown"@, "/r"@, "/t"@, "0"@],
            PowerCommand::Sleep => seq!["rundll32.exe"@, "powrprof.dll,SetSuspendState"@, "0,1,0"@],
        });
    }
    r
}

/// The texts of a list of strings.
pub open spec fn texts_of(v: Seq<String>) -> Seq<Seq<char>> {
    v.map_values(|s: String| s@)
}

/// The answer once a power command ran: `Executed: <command>` with the
/// command trimmed and lowercased.
pub fn power_executed_message(command: &str) -> (r: String)
    ensures
        r@ == "Executed: "@ + str_to_lowercase(str_trim(command@)),
{
    let c = to_lowercase(trim(command));
    concat("Executed: ", c.as_str())
}

} // verus!
