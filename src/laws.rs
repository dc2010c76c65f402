//! Laws that relate the stripper, the config merge and the settings
//! resolution.
use vstd::prelude::*;
use crate::table::{GlobalFlag, Segment, segments, flag_of, takes_value, opt_view};
use crate::strip::{plain_tokens, stripped};
use crate::config::{ConfigValue, lookup, overlay_lookup};
use crate::env::EnvVars;
use crate::settings::{Flags, settles, base_settings, last_value, values_of, occurs, env_extensions, lemma_push_segment};

verus! {

/// `a` is `b` with some tokens left out, the rest in their order.
pub open spec fn is_subsequence(a: Seq<Seq<char>>, b: Seq<Seq<char>>) -> bool
    decreases b.len(),
{
    if a.len() == 0 {
        true
    } else if b.len() == 0 {
        false
    } else if a[0] == b[0] {
        is_subsequence(a.subrange(1, a.len() as int), b.subrange(1, b.len() as int))
    } else {
        is_subsequence(a, b.subrange(1, b.len() as int))
    }
}

/// No token is a global flag.
pub open spec fn has_no_flag(t: Seq<Seq<char>>) -> bool {
    forall|i: int| 0 <= i < t.len() ==> flag_of(#[trigger] t[i]) is None
}

proof fn lemma_plain_concat(a: Seq<Segment>, b: Seq<Segment>)
    ensures
        plain_tokens(a + b) == plain_tokens(a) + plain_tokens(b),
    decreases b.len(),
{
    if b.len() == 0 {
        assert(a + b =~= a);
        assert(plain_tokens(a) + plain_tokens(b) =~= plain_tokens(a));
    } else {
        lemma_plain_concat(a, b.drop_last());
        assert((a + b).drop_last() =~= a + b.drop_last());
        assert((a + b).last() == b.last());
        match b.last() {
            Segment::Plain(x) => {
                assert(plain_tokens(a) + plain_tokens(b.drop_last()).push(x) =~= (plain_tokens(a)
                    + plain_tokens(b.drop_last())).push(x));
            },
            _ => {},
        }
    }
}

/// Stripping takes the first segment, then strips the rest.
proof fn lemma_stripped_front(t: Seq<Seq<char>>)
    requires
        t.len() > 0,
    ensures
        match flag_of(t[0]) {
            Some(f) => if takes_value(f) && t.len() >= 2 {
                stripped(t) == stripped(t.subrange(2, t.len() as int))
            } else if takes_value(f) {
                stripped(t) == Seq::<Seq<char>>::empty()
            } else {
                stripped(t) == stripped(t.subrange(1, t.len() as int))
            },
            None => stripped(t) == seq![t[0]] + stripped(t.subrange(1, t.len() as int)),
        },
{
    reveal_with_fuel(plain_tokens, 2);
    match flag_of(t[0]) {
        Some(f) => {
            if takes_value(f) && t.len() >= 2 {
                lemma_plain_concat(seq![Segment::Flag(f, Some(t[1]))], segments(t.subrange(2, t.len() as int)));
                assert(plain_tokens(seq![Segment::Flag(f, Some(t[1]))]) =~= Seq::<Seq<char>>::empty()) by {
                    assert(seq![Segment::Flag(f, Some(t[1]))].drop_last() =~= Seq::<Segment>::empty());
                }
                assert(Seq::<Seq<char>>::empty() + stripped(t.subrange(2, t.len() as int)) =~= stripped(t.subrange(2, t.len() as int)));
            } else if takes_value(f) {
                assert(seq![Segment::Flag(f, None)].drop_last() =~= Seq::<Segment>::empty());
            } else {
                lemma_plain_concat(seq![Segment::Flag(f, None)], segments(t.subrange(1, t.len() as int)));
                assert(plain_tokens(seq![Segment::Flag(f, None)]) =~= Seq::<Seq<char>>::empty()) by {
                    assert(seq![Segment::Flag(f, None)].drop_last() =~= Seq::<Segment>::empty());
                }
                assert(Seq::<Seq<char>>::empty() + stripped(t.subrange(1, t.len() as int)) =~= stripped(t.subrange(1, t.len() as int)));
            }
        },
        None => {
            lemma_plain_concat(seq![Segment::Plain(t[0])], segments(t.subrange(1, t.len() as int)));
            assert(plain_tokens(seq![Segment::Plain(t[0])]) =~= seq![t[0]]) by {
                assert(seq![Segment::Plain(t[0])].drop_last() =~= Seq::<Segment>::empty());
            }
        },
    }
}

/// What stripping leaves holds no global flag, and is a subsequence of
/// the tokens it came from.
pub proof fn lemma_stripped_is_clean_subsequence(t: Seq<Seq<char>>)
    ensures
        has_no_flag(stripped(t)),
        is_subsequence(stripped(t), t),
    decreases t.len(),
{
    if t.len() == 0 {
        assert(stripped(t) =~= Seq::<Seq<char>>::empty());
    } else {
        lemma_stripped_front(t);
        let r1 = t.subrange(1, t.len() as int);
        lemma_stripped_is_clean_subsequence(r1);
        match flag_of(t[0]) {
            Some(f) => {
                if takes_value(f) && t.len() >= 2 {
                    let r2 = t.subrange(2, t.len() as int);
                    lemma_stripped_is_clean_subsequence(r2);
                    assert(r1.subrange(1, r1.len() as int) =~= r2);
                    lemma_subsequence_extend(stripped(r2), r1);
                    lemma_subsequence_extend(stripped(r2), t);
                } else if takes_value(f) {
                } else {
                    lemma_subsequence_extend(stripped(r1), t);
                }
            },
            None => {
                let s = stripped(t);
                assert(s[0] == t[0]);
                assert(s.subrange(1, s.len() as int) =~= stripped(r1));
                assert forall|i: int| 0 <= i < s.len() implies flag_of(#[trigger] s[i]) is None by {
                    if i > 0 {
                        assert(s[i] == stripped(r1)[i - 1]);
                    }
                }
            },
        }
    }
}

/// Leaving out the first token of a sequence that `a` is a subsequence of
/// keeps `a` a subsequence of the longer one.
proof fn lemma_subsequence_extend(a: Seq<Seq<char>>, b: Seq<Seq<char>>)
    requires
        b.len() > 0,
        is_subsequence(a, b.subrange(1, b.len() as int)),
    ensures
        is_subsequence(a, b),
    decreases 2 * b.len(),
{
    if a.len() > 0 && a[0] == b[0] {
        lemma_subsequence_drop_first(a, b.subrange(1, b.len() as int));
    }
}

proof fn lemma_subsequence_drop_first(a: Seq<Seq<char>>, c: Seq<Seq<char>>)
    requires
        a.len() > 0,
        is_subsequence(a, c),
    ensures
        is_subsequence(a.subrange(1, a.len() as int), c),
    decreases 2 * c.len() + 1,
{
    if c.len() > 0 {
        let c1 = c.subrange(1, c.len() as int);
        if a[0] != c[0] {
            lemma_subsequence_drop_first(a, c1);
        }
        lemma_subsequence_extend(a.subrange(1, a.len() as int), c);
    }
}

/// Tokens that hold no global flag pass through stripping unchanged.
pub proof fn lemma_strip_keeps_clean_tokens(t: Seq<Seq<char>>)
    requires
        has_no_flag(t),
    ensures
        stripped(t) == t,
    decreases t.len(),
{
    if t.len() == 0 {
        assert(stripped(t) =~= t);
    } else {
        lemma_stripped_front(t);
        let r1 = t.subrange(1, t.len() as int);
        assert(flag_of(t[0]) is None);
        assert forall|i: int| 0 <= i < r1.len() implies flag_of(#[trigger] r1[i]) is None by {
            assert(r1[i] == t[i + 1]);
        }
        lemma_strip_keeps_clean_tokens(r1);
        assert(seq![t[0]] + r1 =~= t);
    }
}

/// Stripping twice strips no more than stripping once.
pub proof fn lemma_strip_idempotent(t: Seq<Seq<char>>)
    ensures
        stripped(stripped(t)) == stripped(t),
{
    lemma_stripped_is_clean_subsequence(t);
    lemma_strip_keeps_clean_tokens(stripped(t));
}

/// Laying a project layer over a user layer: a key of the project layer
/// takes the project's value, and a key that only the user layer has keeps
/// the user's.
pub proof fn lemma_project_overrides_user(
    user: Seq<(String, ConfigValue)>,
    project: Seq<(String, ConfigValue)>,
    k: Seq<char>,
)
    ensures
        lookup(project, k) is Some ==> overlay_lookup(user, project, k) == lookup(project, k),
        lookup(project, k) is None ==> overlay_lookup(user, project, k) == lookup(user, k),
{
}

/// Where an option's environment variable is set and no command-line flag
/// gave the option a value, the environment's value is the one in force,
/// whatever the config tree holds.
pub proof fn lemma_environment_wins(
    r: Flags,
    c: Seq<(String, ConfigValue)>,
    env: EnvVars,
    t: Seq<Seq<char>>,
)
    requires
        settles(r, base_settings(c, env), segments(t)),
    ensures
        env.headed ==> r.headed,
        env.allow_file_access ==> r.allow_file_access,
        env.auto_connect ==> r.auto_connect,
        env.session is Some && last_value(segments(t), GlobalFlag::Session) is None ==> Some(
            r.session@,
        ) == opt_view(env.session),
        env.executable_path is Some && last_value(segments(t), GlobalFlag::ExecutablePath) is None
            ==> opt_view(r.executable_path) == opt_view(env.executable_path),
        env_extensions(env).len() > 0 && values_of(segments(t), GlobalFlag::Extension).len() == 0
            ==> crate::table::views(r.extensions@) == env_extensions(env),
        env.profile is Some && last_value(segments(t), GlobalFlag::Profile) is None ==> opt_view(
            r.profile,
        ) == opt_view(env.profile),
        env.state is Some && last_value(segments(t), GlobalFlag::State) is None ==> opt_view(
            r.state,
        ) == opt_view(env.state),
        env.proxy is Some && last_value(segments(t), GlobalFlag::Proxy) is None ==> opt_view(
            r.proxy,
        ) == opt_view(env.proxy),
        env.proxy_bypass is Some && last_value(segments(t), GlobalFlag::ProxyBypass) is None
            ==> opt_view(r.proxy_bypass) == opt_view(env.proxy_bypass),
        env.args is Some && last_value(segments(t), GlobalFlag::Args) is None ==> opt_view(r.args)
            == opt_view(env.args),
        env.user_agent is Some && last_value(segments(t), GlobalFlag::UserAgent) is None
            ==> opt_view(r.user_agent) == opt_view(env.user_agent),
        env.provider is Some && last_value(segments(t), GlobalFlag::Provider) is None ==> opt_view(
            r.provider,
        ) == opt_view(env.provider),
        env.device is Some && last_value(segments(t), GlobalFlag::Device) is None ==> opt_view(
            r.device,
        ) == opt_view(env.device),
        env.session_name is Some && last_value(segments(t), GlobalFlag::SessionName) is None
            ==> opt_view(r.session_name) == opt_view(env.session_name),
{
    let e = values_of(segments(t), GlobalFlag::Extension);
    if e.len() == 0 {
        assert(base_settings(c, env).extensions + e =~= base_settings(c, env).extensions);
    }
}

/// A segment of flag `f` that took a value.
pub open spec fn gives_value(seg: Segment, f: GlobalFlag) -> bool {
    match seg {
        Segment::Flag(g, Some(_)) => g == f,
        _ => false,
    }
}

/// A flag has a last value exactly where one of its segments took a value.
pub proof fn lemma_last_value_some(s: Seq<Segment>, f: GlobalFlag)
    ensures
        last_value(s, f) is Some <==> exists|i: int|
            0 <= i < s.len() && gives_value(s[i], f),
    decreases s.len(),
{
    reveal(last_value);
    if s.len() > 0 {
        lemma_last_value_some(s.drop_last(), f);
        if exists|i: int| 0 <= i < s.len() && gives_value(s[i], f) {
            let i = choose|i: int| 0 <= i < s.len() && gives_value(s[i], f);
            if i < s.len() - 1 {
                assert(s.drop_last()[i] == s[i]);
            }
        }
        if exists|i: int| 0 <= i < s.drop_last().len() && gives_value(s.drop_last()[i], f) {
            let i = choose|i: int| 0 <= i < s.drop_last().len() && gives_value(s.drop_last()[i], f);
            assert(s[i] == s.drop_last()[i]);
        }
    }
}

/// The executable path is marked as given on the command line exactly where
/// `--executable-path` occurs with a following token; an environment or
/// config value alone leaves the mark off.
pub proof fn lemma_executable_path_provenance(
    r: Flags,
    c: Seq<(String, ConfigValue)>,
    env: EnvVars,
    t: Seq<Seq<char>>,
)
    requires
        settles(r, base_settings(c, env), segments(t)),
    ensures
        r.cli_executable_path <==> exists|i: int|
            0 <= i < segments(t).len() && gives_value(segments(t)[i], GlobalFlag::ExecutablePath),
{
    lemma_last_value_some(segments(t), GlobalFlag::ExecutablePath);
}

/// The tokens do not end in a value-taking flag that is still waiting for
/// its value.
pub open spec fn ends_cleanly(t: Seq<Seq<char>>) -> bool {
    segments(t).len() == 0 || !(segments(t).last() matches Segment::Flag(f, None) && takes_value(f))
}

/// Tokens that end cleanly are cut into segments on their own, and what
/// follows them is cut as it would be alone.
pub proof fn lemma_segments_append(t1: Seq<Seq<char>>, t2: Seq<Seq<char>>)
    requires
        ends_cleanly(t1),
    ensures
        segments(t1 + t2) == segments(t1) + segments(t2),
    decreases t1.len(),
{
    let t = t1 + t2;
    if t1.len() == 0 {
        assert(t =~= t2);
        assert(segments(t1) + segments(t2) =~= segments(t2));
    } else {
        assert(t[0] == t1[0]);
        match flag_of(t1[0]) {
            Some(f) => {
                if takes_value(f) {
                    if t1.len() >= 2 {
                        let r = t1.subrange(2, t1.len() as int);
                        assert(t[1] == t1[1]);
                        assert(t.subrange(2, t.len() as int) =~= r + t2);
                        if segments(r).len() > 0 {
                            assert(segments(t1).last() == segments(r).last());
                        }
                        lemma_segments_append(r, t2);
                        assert(segments(t) =~= segments(t1) + segments(t2));
                    } else {
                        assert(segments(t1) =~= seq![Segment::Flag(f, None)]);
                    }
                } else {
                    let r = t1.subrange(1, t1.len() as int);
                    assert(t.subrange(1, t.len() as int) =~= r + t2);
                    if segments(r).len() > 0 {
                        assert(segments(t1).last() == segments(r).last());
                    }
                    lemma_segments_append(r, t2);
                    assert(segments(t) =~= segments(t1) + segments(t2));
                }
            },
            None => {
                let r = t1.subrange(1, t1.len() as int);
                assert(t.subrange(1, t.len() as int) =~= r + t2);
                if segments(r).len() > 0 {
                    assert(segments(t1).last() == segments(r).last());
                }
                lemma_segments_append(r, t2);
                assert(segments(t) =~= segments(t1) + segments(t2));
            },
        }
    }
}

/// A value-taking flag followed by a token sets its option to that token,
/// whatever came before: a later occurrence replaces an earlier value, and
/// each occurrence adds its value to the flag's values in order (so
/// `--extension a --extension b` gives `[a, b]`).
pub proof fn lemma_later_value_wins(t1: Seq<Seq<char>>, name: Seq<char>, v: Seq<char>)
    requires
        ends_cleanly(t1),
        flag_of(name) matches Some(f) && takes_value(f),
    ensures
        ({
            let f = flag_of(name).unwrap();
            let s = segments(t1 + seq![name, v]);
            &&& last_value(s, f) == Some(v)
            &&& values_of(s, f) == values_of(segments(t1), f).push(v)
        }),
{
    let f = flag_of(name).unwrap();
    let tail = seq![name, v];
    lemma_segments_append(t1, tail);
    assert(tail[0] == name && tail[1] == v);
    assert(tail.subrange(2, 2) =~= Seq::<Seq<char>>::empty());
    assert(segments(tail) =~= seq![Segment::Flag(f, Some(v))]) by {
        reveal_with_fuel(segments, 2);
        assert(seq![Segment::Flag(f, Some(v))] + Seq::<Segment>::empty() =~= seq![Segment::Flag(f, Some(v))]);
    }
    assert(segments(t1) + segments(tail) =~= segments(t1).push(Segment::Flag(f, Some(v))));
    lemma_push_segment(segments(t1), Segment::Flag(f, Some(v)));
}

/// A value-taking flag as the last token changes no option: no flag's last
/// value, values or occurrence as a switch moves, and it is the only token
/// consumed.
pub proof fn lemma_trailing_flag_ignored(t1: Seq<Seq<char>>, name: Seq<char>, g: GlobalFlag)
    requires
        ends_cleanly(t1),
        flag_of(name) matches Some(f) && takes_value(f),
    ensures
        last_value(segments(t1.push(name)), g) == last_value(segments(t1), g),
        values_of(segments(t1.push(name)), g) == values_of(segments(t1), g),
        !takes_value(g) ==> occurs(segments(t1.push(name)), g) == occurs(segments(t1), g),
        stripped(t1.push(name)) == stripped(t1),
{
    let f = flag_of(name).unwrap();
    let tail = seq![name];
    assert(t1 + tail =~= t1.push(name));
    lemma_segments_append(t1, tail);
    assert(tail[0] == name);
    assert(segments(tail) =~= seq![Segment::Flag(f, None)]);
    assert(segments(t1) + segments(tail) =~= segments(t1).push(Segment::Flag(f, None)));
    lemma_push_segment(segments(t1), Segment::Flag(f, None));
    assert(segments(t1).push(Segment::Flag(f, None)).drop_last() =~= segments(t1));
}

} // verus!
