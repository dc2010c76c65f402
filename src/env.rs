//! The environment layer: the values the tool's environment variables
//! supply, read once and handed in, and the extension list such a variable
//! holds.
use vstd::prelude::*;
use vstd::string::StrSliceExecFns;
use crate::table::views;

verus! {

/// What the tool's environment variables hold. A flag-like variable counts
/// by its presence alone; each other one is its value where it is set.
pub struct EnvVars {
    pub headed: bool,
    pub session: Option<String>,
    pub executable_path: Option<String>,
    pub extensions: Option<String>,
    pub profile: Option<String>,
    pub state: Option<String>,
    pub proxy: Option<String>,
    pub proxy_bypass: Option<String>,
    pub args: Option<String>,
    pub user_agent: Option<String>,
    pub provider: Option<String>,
    pub allow_file_access: bool,
    pub device: Option<String>,
    pub auto_connect: bool,
    pub session_name: Option<String>,
}

impl EnvVars {
    /// An environment in which none of the variables is set.
    pub fn empty() -> (r: EnvVars)
        ensures
            !r.headed && !r.allow_file_access && !r.auto_connect,
            r.session is None && r.executable_path is None && r.extensions is None,
            r.profile is None && r.state is None && r.proxy is None,
            r.proxy_bypass is None && r.args is None && r.user_agent is None,
            r.provider is None && r.device is None && r.session_name is None,
    {
        EnvVars {
            headed: false,
            session: None,
            executable_path: None,
            extensions: None,
            profile: None,
            state: None,
            proxy: None,
            proxy_bypass: None,
            args: None,
            user_agent: None,
            provider: None,
            allow_file_access: false,
            device: None,
            auto_connect: false,
            session_name: None,
        }
    }
}

/// A character with the Unicode White_Space property, as
/// `char::is_whitespace` has it.
pub open spec fn is_white_space(c: char) -> bool {
    let u = c as u32;
    (0x9 <= u <= 0xD) || u == 0x20 || u == 0x85 || u == 0xA0 || u == 0x1680 || (0x2000 <= u
        <= 0x200A) || u == 0x2028 || u == 0x2029 || u == 0x202F || u == 0x205F || u == 0x3000
}

/// A string without its leading and trailing white space.
pub open spec fn trimmed(s: Seq<char>) -> Seq<char>
    decreases s.len(),
{
    if s.len() > 0 && is_white_space(s[0]) {
        trimmed(s.drop_first())
    } else if s.len() > 0 && is_white_space(s.last()) {
        trimmed(s.drop_last())
    } else {
        s
    }
}

/// Relies on `str::trim`: the string without its leading and trailing
/// characters that have the White_Space property.
#[verifier::external_body]
fn trim_str(s: &str) -> (r: String)
    ensures
        r@ == trimmed(s@),
{
    s.trim().to_string()
}

/// The pieces of a string between its commas, in order; a string with no
/// comma is one piece.
pub open spec fn split_commas(s: Seq<char>) -> Seq<Seq<char>>
    decreases s.len(),
{
    if s.len() == 0 {
        seq![Seq::empty()]
    } else {
        let p = split_commas(s.drop_last());
        if s.last() == ',' {
            p.push(Seq::empty())
        } else {
            p.update(p.len() - 1, p.last().push(s.last()))
        }
    }
}

/// The trimmed pieces that are not empty, in order.
pub open spec fn kept_pieces(p: Seq<Seq<char>>) -> Seq<Seq<char>>
    decreases p.len(),
{
    if p.len() == 0 {
        Seq::empty()
    } else {
        let rest = kept_pieces(p.drop_last());
        let t = trimmed(p.last());
        if t.len() == 0 {
            rest
        } else {
            rest.push(t)
        }
    }
}

/// The extensions a comma-separated list names: its pieces, trimmed, with
/// empty ones dropped.
pub open spec fn extension_list(s: Seq<char>) -> Seq<Seq<char>> {
    kept_pieces(split_commas(s))
}

/// Splits a comma-separated list, trims each piece and drops the empty ones.
pub fn split_extension_list(s: &str) -> (r: Vec<String>)
    ensures
        views(r@) == extension_list(s@),
{
    let n = s.unicode_len();
    let mut out: Vec<String> = Vec::new();
    let mut start: usize = 0;
    let mut j: usize = 0;
    let ghost mut done: Seq<Seq<char>> = Seq::empty();
    proof {
        assert(s@.subrange(0, 0) =~= Seq::<char>::empty());
        assert(split_commas(s@.subrange(0, 0)) =~= done.push(s@.subrange(0, 0)));
    }
    while j < n
        invariant
            n == s@.len(),
            start <= j <= n,
            split_commas(s@.subrange(0, j as int)) == done.push(s@.subrange(start as int, j as int)),
            views(out@) == kept_pieces(done),
        decreases n - j,
    {
        let c = s.get_char(j);
        proof {
            assert(s@.subrange(0, j + 1).drop_last() =~= s@.subrange(0, j as int));
            assert(s@.subrange(0, j + 1).last() == c);
        }
        if c == ',' {
            let piece = trim_str(s.substring_char(start, j));
            let ghost old_done = done;
            proof {
                done = done.push(s@.subrange(start as int, j as int));
                assert(done.drop_last() =~= old_done);
            }
            if piece.unicode_len() > 0 {
                out.push(piece);
            }
            start = j + 1;
            j = j + 1;
            proof {
                assert(s@.subrange(start as int, j as int) =~= Seq::<char>::empty());
                assert(views(out@) =~= kept_pieces(done));
            }
        } else {
            j = j + 1;
            proof {
                let prev = split_commas(s@.subrange(0, j - 1));
                assert(prev.len() - 1 == done.len());
                assert(s@.subrange(start as int, j as int) =~= s@.subrange(
                    start as int,
                    j - 1,
                ).push(c));
                assert(split_commas(s@.subrange(0, j as int)) =~= done.push(
                    s@.subrange(start as int, j as int),
                ));
            }
        }
    }
    let last = trim_str(s.substring_char(start, n));
    let ghost old_done = done;
    proof {
        done = done.push(s@.subrange(start as int, n as int));
        assert(done.drop_last() =~= old_done);
        assert(s@.subrange(0, n as int) =~= s@);
    }
    if last.unicode_len() > 0 {
        out.push(last);
    }
    proof {
        assert(views(out@) =~= kept_pieces(done));
    }
    out
}

} // verus!
