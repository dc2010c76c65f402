//! The one table of global command-line flags: each flag's spellings and
//! whether it consumes a following value. Both the settings parser and the
//! argument stripper read flags through `lookup_flag`, so they cannot
//! disagree on which tokens are flags or how many tokens each one takes.
use vstd::prelude::*;

verus! {

/// Relies on `str`'s equality: two string slices are equal exactly when
/// they hold the same characters.
pub assume_specification[ <str as PartialEq>::eq ](a: &str, b: &str) -> (r: bool)
    ensures
        r == (a@ == b@),
;

/// A global flag, independent of the spelling that named it.
#[derive(Clone, Copy, Debug, PartialEq, Eq, Structural)]
pub enum GlobalFlag {
    Json,
    Full,
    Headed,
    Debug,
    IgnoreHttpsErrors,
    AllowFileAccess,
    AutoConnect,
    Session,
    Headers,
    ExecutablePath,
    Cdp,
    Extension,
    Profile,
    State,
    Proxy,
    ProxyBypass,
    Args,
    UserAgent,
    Provider,
    Device,
    SessionName,
}

/// Which global flag a token spells, if any.
pub open spec fn flag_of(t: Seq<char>) -> Option<GlobalFlag> {
    if t == "--json"@ {
        Some(GlobalFlag::Json)
    } else if t == "--full"@ || t == "-f"@ {
        Some(GlobalFlag::Full)
    } else if t == "--headed"@ {
        Some(GlobalFlag::Headed)
    } else if t == "--debug"@ {
        Some(GlobalFlag::Debug)
    } else if t == "--ignore-https-errors"@ {
        Some(GlobalFlag::IgnoreHttpsErrors)
    } else if t == "--allow-file-access"@ {
        Some(GlobalFlag::AllowFileAccess)
    } else if t == "--auto-connect"@ {
        Some(GlobalFlag::AutoConnect)
    } else if t == "--session"@ {
        Some(GlobalFlag::Session)
    } else if t == "--headers"@ {
        Some(GlobalFlag::Headers)
    } else if t == "--executable-path"@ {
        Some(GlobalFlag::ExecutablePath)
    } else if t == "--cdp"@ {
        Some(GlobalFlag::Cdp)
    } else if t == "--extension"@ {
        Some(GlobalFlag::Extension)
    } else if t == "--profile"@ {
        Some(GlobalFlag::Profile)
    } else if t == "--state"@ {
        Some(GlobalFlag::State)
    } else if t == "--proxy"@ {
        Some(GlobalFlag::Proxy)
    } else if t == "--proxy-bypass"@ {
        Some(GlobalFlag::ProxyBypass)
    } else if t == "--args"@ {
        Some(GlobalFlag::Args)
    } else if t == "--user-agent"@ {
        Some(GlobalFlag::UserAgent)
    } else if t == "-p"@ || t == "--provider"@ {
        Some(GlobalFlag::Provider)
    } else if t == "--device"@ {
        Some(GlobalFlag::Device)
    } else if t == "--session-name"@ {
        Some(GlobalFlag::SessionName)
    } else {
        None
    }
}

/// Whether a flag consumes the token that follows it.
pub open spec fn takes_value(f: GlobalFlag) -> bool {
    !(f is Json || f is Full || f is Headed || f is Debug || f is IgnoreHttpsErrors
        || f is AllowFileAccess || f is AutoConnect)
}

/// Looks a token up in the flag table.
pub fn lookup_flag(t: &str) -> (r: Option<GlobalFlag>)
    ensures
        r == flag_of(t@),
{
    if <str as PartialEq>::eq(t, "--json") {
        Some(GlobalFlag::Json)
    } else if <str as PartialEq>::eq(t, "--full") || <str as PartialEq>::eq(t, "-f") {
        Some(GlobalFlag::Full)
    } else if <str as PartialEq>::eq(t, "--headed") {
        Some(GlobalFlag::Headed)
    } else if <str as PartialEq>::eq(t, "--debug") {
        Some(GlobalFlag::Debug)
    } else if <str as PartialEq>::eq(t, "--ignore-https-errors") {
        Some(GlobalFlag::IgnoreHttpsErrors)
    } else if <str as PartialEq>::eq(t, "--allow-file-access") {
        Some(GlobalFlag::AllowFileAccess)
    } else if <str as PartialEq>::eq(t, "--auto-connect") {
        Some(GlobalFlag::AutoConnect)
    } else if <str as PartialEq>::eq(t, "--session") {
        Some(GlobalFlag::Session)
    } else if <str as PartialEq>::eq(t, "--headers") {
        Some(GlobalFlag::Headers)
    } else if <str as PartialEq>::eq(t, "--executable-path") {
        Some(GlobalFlag::ExecutablePath)
    } else if <str as PartialEq>::eq(t, "--cdp") {
        Some(GlobalFlag::Cdp)
    } else if <str as PartialEq>::eq(t, "--extension") {
        Some(GlobalFlag::Extension)
    } else if <str as PartialEq>::eq(t, "--profile") {
        Some(GlobalFlag::Profile)
    } else if <str as PartialEq>::eq(t, "--state") {
        Some(GlobalFlag::State)
    } else if <str as PartialEq>::eq(t, "--proxy") {
        Some(GlobalFlag::Proxy)
    } else if <str as PartialEq>::eq(t, "--proxy-bypass") {
        Some(GlobalFlag::ProxyBypass)
    } else if <str as PartialEq>::eq(t, "--args") {
        Some(GlobalFlag::Args)
    } else if <str as PartialEq>::eq(t, "--user-agent") {
        Some(GlobalFlag::UserAgent)
    } else if <str as PartialEq>::eq(t, "-p") || <str as PartialEq>::eq(t, "--provider") {
        Some(GlobalFlag::Provider)
    } else if <str as PartialEq>::eq(t, "--device") {
        Some(GlobalFlag::Device)
    } else if <str as PartialEq>::eq(t, "--session-name") {
        Some(GlobalFlag::SessionName)
    } else {
        None
    }
}

/// Whether a flag consumes the token that follows it.
pub fn flag_takes_value(f: GlobalFlag) -> (r: bool)
    ensures
        r == takes_value(f),
{
    match f {
        GlobalFlag::Json | GlobalFlag::Full | GlobalFlag::Headed | GlobalFlag::Debug
        | GlobalFlag::IgnoreHttpsErrors | GlobalFlag::AllowFileAccess
        | GlobalFlag::AutoConnect => false,
        _ => true,
    }
}

/// One unit of a token stream as the left-to-right scan reads it: a global
/// flag with the value it consumed (none for a value-less flag, or for a
/// value-taking flag that ends the stream), or a token that is no global flag.
pub enum Segment {
    Flag(GlobalFlag, Option<Seq<char>>),
    Plain(Seq<char>),
}

/// The token stream cut into segments, scanning from the left.
pub open spec fn segments(t: Seq<Seq<char>>) -> Seq<Segment>
    decreases t.len(),
{
    if t.len() == 0 {
        Seq::empty()
    } else {
        match flag_of(t[0]) {
            Some(f) => if takes_value(f) {
                if t.len() >= 2 {
                    seq![Segment::Flag(f, Some(t[1]))] + segments(t.subrange(2, t.len() as int))
                } else {
                    seq![Segment::Flag(f, None)]
                }
            } else {
                seq![Segment::Flag(f, None)] + segments(t.subrange(1, t.len() as int))
            },
            None => seq![Segment::Plain(t[0])] + segments(t.subrange(1, t.len() as int)),
        }
    }
}

/// The views of a list of strings.
pub open spec fn views(v: Seq<String>) -> Seq<Seq<char>> {
    v.map_values(|s: String| s@)
}

/// The view of an optional string.
pub open spec fn opt_view(o: Option<String>) -> Option<Seq<char>> {
    match o {
        Some(s) => Some(s@),
        None => None,
    }
}

} // verus!
