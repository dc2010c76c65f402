//! The resolved settings of one invocation: environment over project
//! config over user config over built-in defaults, then the command-line
//! flags on top, scanned once from the left.
use vstd::prelude::*;
use vstd::string::StringExecFns;
use crate::table::{GlobalFlag, Segment, segments, views, opt_view, lookup_flag, flag_takes_value};
use crate::config::{ConfigTree, ConfigValue, config_str, config_bool, config_strings};
use crate::env::{EnvVars, extension_list, split_extension_list};

verus! {

/// The settings of one invocation, with, for the launch options that a
/// later session may have stored, whether the command line supplied them.
pub struct Flags {
    pub json: bool,
    pub full: bool,
    pub headed: bool,
    pub debug: bool,
    pub session: String,
    pub headers: Option<String>,
    pub executable_path: Option<String>,
    pub cdp: Option<String>,
    pub extensions: Vec<String>,
    pub profile: Option<String>,
    pub state: Option<String>,
    pub proxy: Option<String>,
    pub proxy_bypass: Option<String>,
    pub args: Option<String>,
    pub user_agent: Option<String>,
    pub provider: Option<String>,
    pub ignore_https_errors: bool,
    pub allow_file_access: bool,
    pub device: Option<String>,
    pub auto_connect: bool,
    pub session_name: Option<String>,
    pub cli_executable_path: bool,
    pub cli_extensions: bool,
    pub cli_profile: bool,
    pub cli_state: bool,
    pub cli_args: bool,
    pub cli_user_agent: bool,
    pub cli_proxy: bool,
    pub cli_proxy_bypass: bool,
    pub cli_allow_file_access: bool,
}

/// `Flags` with each string seen as its characters.
pub struct SettingsView {
    pub json: bool,
    pub full: bool,
    pub headed: bool,
    pub debug: bool,
    pub session: Seq<char>,
    pub headers: Option<Seq<char>>,
    pub executable_path: Option<Seq<char>>,
    pub cdp: Option<Seq<char>>,
    pub extensions: Seq<Seq<char>>,
    pub profile: Option<Seq<char>>,
    pub state: Option<Seq<char>>,
    pub proxy: Option<Seq<char>>,
    pub proxy_bypass: Option<Seq<char>>,
    pub args: Option<Seq<char>>,
    pub user_agent: Option<Seq<char>>,
    pub provider: Option<Seq<char>>,
    pub ignore_https_errors: bool,
    pub allow_file_access: bool,
    pub device: Option<Seq<char>>,
    pub auto_connect: bool,
    pub session_name: Option<Seq<char>>,
    pub cli_executable_path: bool,
    pub cli_extensions: bool,
    pub cli_profile: bool,
    pub cli_state: bool,
    pub cli_args: bool,
    pub cli_user_agent: bool,
    pub cli_proxy: bool,
    pub cli_proxy_bypass: bool,
    pub cli_allow_file_access: bool,
}

impl View for Flags {
    type V = SettingsView;

    open spec fn view(&self) -> SettingsView {
        SettingsView {
            json: self.json,
            full: self.full,
            headed: self.headed,
            debug: self.debug,
            session: self.session@,
            headers: opt_view(self.headers),
            executable_path: opt_view(self.executable_path),
            cdp: opt_view(self.cdp),
            extensions: views(self.extensions@),
            profile: opt_view(self.profile),
            state: opt_view(self.state),
            proxy: opt_view(self.proxy),
            proxy_bypass: opt_view(self.proxy_bypass),
            args: opt_view(self.args),
            user_agent: opt_view(self.user_agent),
            provider: opt_view(self.provider),
            ignore_https_errors: self.ignore_https_errors,
            allow_file_access: self.allow_file_access,
            device: opt_view(self.device),
            auto_connect: self.auto_connect,
            session_name: opt_view(self.session_name),
            cli_executable_path: self.cli_executable_path,
            cli_extensions: self.cli_extensions,
            cli_profile: self.cli_profile,
            cli_state: self.cli_state,
            cli_args: self.cli_args,
            cli_user_agent: self.cli_user_agent,
            cli_proxy: self.cli_proxy,
            cli_proxy_bypass: self.cli_proxy_bypass,
            cli_allow_file_access: self.cli_allow_file_access,
        }
    }
}

/// The first of two optional values that is present.
pub open spec fn first_of(a: Option<Seq<char>>, b: Option<Seq<char>>) -> Option<Seq<char>> {
    match a {
        Some(x) => Some(x),
        None => b,
    }
}

/// The extensions the environment names; empty where the variable is unset.
pub open spec fn env_extensions(env: EnvVars) -> Seq<Seq<char>> {
    match env.extensions {
        Some(s) => extension_list(s@),
        None => Seq::empty(),
    }
}

/// The settings before the command line is read: each option from its
/// environment variable, else from the config tree, else its default.
pub open spec fn base_settings(c: Seq<(String, ConfigValue)>, env: EnvVars) -> SettingsView {
    SettingsView {
        json: false,
        full: false,
        headed: env.headed || config_bool(c, "headed"@),
        debug: false,
        session: match first_of(opt_view(env.session), config_str(c, "session"@)) {
            Some(s) => s,
            None => "default"@,
        },
        headers: None,
        executable_path: first_of(opt_view(env.executable_path), config_str(c, "executablePath"@)),
        cdp: None,
        extensions: if env_extensions(env).len() > 0 {
            env_extensions(env)
        } else {
            config_strings(c, "extensions"@)
        },
        profile: first_of(opt_view(env.profile), config_str(c, "profile"@)),
        state: first_of(opt_view(env.state), config_str(c, "state"@)),
        proxy: first_of(opt_view(env.proxy), config_str(c, "proxy"@)),
        proxy_bypass: first_of(opt_view(env.proxy_bypass), config_str(c, "proxyBypass"@)),
        args: first_of(opt_view(env.args), config_str(c, "args"@)),
        user_agent: first_of(opt_view(env.user_agent), config_str(c, "userAgent"@)),
        provider: first_of(opt_view(env.provider), config_str(c, "provider"@)),
        ignore_https_errors: config_bool(c, "ignoreHttpsErrors"@),
        allow_file_access: env.allow_file_access || config_bool(c, "allowFileAccess"@),
        device: first_of(opt_view(env.device), config_str(c, "device"@)),
        auto_connect: env.auto_connect || config_bool(c, "autoConnect"@),
        session_name: first_of(opt_view(env.session_name), config_str(c, "sessionName"@)),
        cli_executable_path: false,
        cli_extensions: false,
        cli_profile: false,
        cli_state: false,
        cli_args: false,
        cli_user_agent: false,
        cli_proxy: false,
        cli_proxy_bypass: false,
        cli_allow_file_access: false,
    }
}

/// The value of the last segment of flag `f` that consumed one.
#[verifier::opaque]
pub open spec fn last_value(s: Seq<Segment>, f: GlobalFlag) -> Option<Seq<char>>
    decreases s.len(),
{
    if s.len() == 0 {
        None
    } else {
        match s.last() {
            Segment::Flag(g, Some(v)) if g == f => Some(v),
            _ => last_value(s.drop_last(), f),
        }
    }
}

/// The values that the segments of flag `f` consumed, in order.
#[verifier::opaque]
pub open spec fn values_of(s: Seq<Segment>, f: GlobalFlag) -> Seq<Seq<char>>
    decreases s.len(),
{
    if s.len() == 0 {
        Seq::empty()
    } else {
        match s.last() {
            Segment::Flag(g, Some(v)) if g == f => values_of(s.drop_last(), f).push(v),
            _ => values_of(s.drop_last(), f),
        }
    }
}

/// Whether a segment of flag `f` occurs.
#[verifier::opaque]
pub open spec fn occurs(s: Seq<Segment>, f: GlobalFlag) -> bool
    decreases s.len(),
{
    if s.len() == 0 {
        false
    } else {
        match s.last() {
            Segment::Flag(g, _) if g == f => true,
            _ => occurs(s.drop_last(), f),
        }
    }
}

/// With no segments, no flag has a value or occurs.
pub proof fn lemma_no_segments()
    ensures
        forall|g: GlobalFlag| #[trigger] last_value(Seq::<Segment>::empty(), g) is None,
        forall|g: GlobalFlag| #[trigger] values_of(Seq::<Segment>::empty(), g) == Seq::<Seq<char>>::empty(),
        forall|g: GlobalFlag| !#[trigger] occurs(Seq::<Segment>::empty(), g),
{
    reveal(last_value);
    reveal(values_of);
    reveal(occurs);
}

/// One more segment changes each flag's record only by that segment.
pub proof fn lemma_push_segment(s: Seq<Segment>, seg: Segment)
    ensures
        forall|g: GlobalFlag| #[trigger] last_value(s.push(seg), g) == match seg {
            Segment::Flag(h, Some(v)) if h == g => Some(v),
            _ => last_value(s, g),
        },
        forall|g: GlobalFlag| #[trigger] values_of(s.push(seg), g) == match seg {
            Segment::Flag(h, Some(v)) if h == g => values_of(s, g).push(v),
            _ => values_of(s, g),
        },
        forall|g: GlobalFlag| #[trigger] occurs(s.push(seg), g) == match seg {
            Segment::Flag(h, _) if h == g => true,
            _ => occurs(s, g),
        },
{
    reveal(last_value);
    reveal(values_of);
    reveal(occurs);
    assert(s.push(seg).drop_last() =~= s);
}

/// `r` holds the settings that the flags of `s` give over `b`: a switch
/// turns its option on, a value-taking flag's last value replaces the
/// option's value, each extension value is appended, and a launch option is
/// marked as given on the command line where one of its flags took a value.
pub open spec fn settles(r: Flags, b: SettingsView, s: Seq<Segment>) -> bool {
    &&& r.json == (b.json || occurs(s, GlobalFlag::Json))
    &&& r.full == (b.full || occurs(s, GlobalFlag::Full))
    &&& r.headed == (b.headed || occurs(s, GlobalFlag::Headed))
    &&& r.debug == (b.debug || occurs(s, GlobalFlag::Debug))
    &&& r.session@ == match last_value(s, GlobalFlag::Session) {
        Some(v) => v,
        None => b.session,
    }
    &&& opt_view(r.headers) == first_of(last_value(s, GlobalFlag::Headers), b.headers)
    &&& opt_view(r.executable_path) == first_of(last_value(s, GlobalFlag::ExecutablePath), b.executable_path)
    &&& opt_view(r.cdp) == first_of(last_value(s, GlobalFlag::Cdp), b.cdp)
    &&& views(r.extensions@) == b.extensions + values_of(s, GlobalFlag::Extension)
    &&& opt_view(r.profile) == first_of(last_value(s, GlobalFlag::Profile), b.profile)
    &&& opt_view(r.state) == first_of(last_value(s, GlobalFlag::State), b.state)
    &&& opt_view(r.proxy) == first_of(last_value(s, GlobalFlag::Proxy), b.proxy)
    &&& opt_view(r.proxy_bypass) == first_of(last_value(s, GlobalFlag::ProxyBypass), b.proxy_bypass)
    &&& opt_view(r.args) == first_of(last_value(s, GlobalFlag::Args), b.args)
    &&& opt_view(r.user_agent) == first_of(last_value(s, GlobalFlag::UserAgent), b.user_agent)
    &&& opt_view(r.provider) == first_of(last_value(s, GlobalFlag::Provider), b.provider)
    &&& r.ignore_https_errors == (b.ignore_https_errors || occurs(s, GlobalFlag::IgnoreHttpsErrors))
    &&& r.allow_file_access == (b.allow_file_access || occurs(s, GlobalFlag::AllowFileAccess))
    &&& opt_view(r.device) == first_of(last_value(s, GlobalFlag::Device), b.device)
    &&& r.auto_connect == (b.auto_connect || occurs(s, GlobalFlag::AutoConnect))
    &&& opt_view(r.session_name) == first_of(last_value(s, GlobalFlag::SessionName), b.session_name)
    &&& r.cli_executable_path == (b.cli_executable_path || last_value(s, GlobalFlag::ExecutablePath) is Some)
    &&& r.cli_extensions == (b.cli_extensions || values_of(s, GlobalFlag::Extension).len() > 0)
    &&& r.cli_profile == (b.cli_profile || last_value(s, GlobalFlag::Profile) is Some)
    &&& r.cli_state == (b.cli_state || last_value(s, GlobalFlag::State) is Some)
    &&& r.cli_args == (b.cli_args || last_value(s, GlobalFlag::Args) is Some)
    &&& r.cli_user_agent == (b.cli_user_agent || last_value(s, GlobalFlag::UserAgent) is Some)
    &&& r.cli_proxy == (b.cli_proxy || last_value(s, GlobalFlag::Proxy) is Some)
    &&& r.cli_proxy_bypass == (b.cli_proxy_bypass || last_value(s, GlobalFlag::ProxyBypass) is Some)
    &&& r.cli_allow_file_access == (b.cli_allow_file_access || occurs(s, GlobalFlag::AllowFileAccess))
}

/// The value from the environment where it is set, else the string stored
/// under `key` in the config tree.
fn env_or_config(v: &Option<String>, config: &ConfigTree, key: &str) -> (r: Option<String>)
    requires
        config.wf(),
    ensures
        opt_view(r) == first_of(opt_view(*v), config_str(config.entries@, key@)),
{
    match v {
        Some(s) => Some(s.clone()),
        None => config.get_str(key),
    }
}

/// Resolves every option from the environment, then the config tree, then
/// its default; no command-line flag is read yet.
pub fn base_flags(config: &ConfigTree, env: &EnvVars) -> (r: Flags)
    requires
        config.wf(),
    ensures
        r@ == base_settings(config.entries@, *env),
{
    let session = match env_or_config(&env.session, config, "session") {
        Some(s) => s,
        None => String::from_str("default"),
    };
    let from_env = match &env.extensions {
        Some(s) => split_extension_list(s.as_str()),
        None => Vec::new(),
    };
    proof {
        if env.extensions is None {
            assert(views(from_env@) =~= env_extensions(*env));
        }
    }
    let extensions = if from_env.len() > 0 {
        from_env
    } else {
        config.get_strings("extensions")
    };
    Flags {
        json: false,
        full: false,
        headed: env.headed || config.get_bool("headed"),
        debug: false,
        session,
        headers: None,
        executable_path: env_or_config(&env.executable_path, config, "executablePath"),
        cdp: None,
        extensions,
        profile: env_or_config(&env.profile, config, "profile"),
        state: env_or_config(&env.state, config, "state"),
        proxy: env_or_config(&env.proxy, config, "proxy"),
        proxy_bypass: env_or_config(&env.proxy_bypass, config, "proxyBypass"),
        args: env_or_config(&env.args, config, "args"),
        user_agent: env_or_config(&env.user_agent, config, "userAgent"),
        provider: env_or_config(&env.provider, config, "provider"),
        ignore_https_errors: config.get_bool("ignoreHttpsErrors"),
        allow_file_access: env.allow_file_access || config.get_bool("allowFileAccess"),
        device: env_or_config(&env.device, config, "device"),
        auto_connect: env.auto_connect || config.get_bool("autoConnect"),
        session_name: env_or_config(&env.session_name, config, "sessionName"),
        cli_executable_path: false,
        cli_extensions: false,
        cli_profile: false,
        cli_state: false,
        cli_args: false,
        cli_user_agent: false,
        cli_proxy: false,
        cli_proxy_bypass: false,
        cli_allow_file_access: false,
    }
}

/// The command line's last value for an option where it gave one, else the
/// value resolved before it.
fn or_base(cli: Option<String>, base: Option<String>) -> (r: Option<String>)
    ensures
        opt_view(r) == first_of(opt_view(cli), opt_view(base)),
{
    match cli {
        Some(v) => Some(v),
        None => base,
    }
}

/// Resolves the settings of one invocation: each option from the
/// environment, else the config tree, else its default; then the global
/// flags among the arguments, read once from the left, are laid over that.
pub fn parse_flags(args: &[String], config: &ConfigTree, env: &EnvVars) -> (r: Flags)
    requires
        config.wf(),
    ensures
        settles(r, base_settings(config.entries@, *env), segments(views(args@))),
{
    let base = base_flags(config, env);
    let ghost t = views(args@);
    let ghost mut done: Seq<Segment> = Seq::empty();
    let mut session: Option<String> = None;
    let mut headers: Option<String> = None;
    let mut executable_path: Option<String> = None;
    let mut cdp: Option<String> = None;
    let mut added: Vec<String> = Vec::new();
    let mut profile: Option<String> = None;
    let mut state: Option<String> = None;
    let mut proxy: Option<String> = None;
    let mut proxy_bypass: Option<String> = None;
    let mut cli_args: Option<String> = None;
    let mut user_agent: Option<String> = None;
    let mut provider: Option<String> = None;
    let mut device: Option<String> = None;
    let mut session_name: Option<String> = None;
    let mut json = false;
    let mut full = false;
    let mut headed = false;
    let mut debug = false;
    let mut ignore_https_errors = false;
    let mut allow_file_access = false;
    let mut auto_connect = false;
    let mut i: usize = 0;
    proof {
        assert(t.subrange(0, t.len() as int) =~= t);
        lemma_no_segments();
        assert(views(added@) =~= values_of(done, GlobalFlag::Extension));
    }
    while i < args.len()
        invariant
            t == views(args@),
            i <= args@.len(),
            segments(t) == done + segments(t.subrange(i as int, t.len() as int)),
            opt_view(session) == last_value(done, GlobalFlag::Session),
            opt_view(headers) == last_value(done, GlobalFlag::Headers),
            opt_view(executable_path) == last_value(done, GlobalFlag::ExecutablePath),
            opt_view(cdp) == last_value(done, GlobalFlag::Cdp),
            views(added@) == values_of(done, GlobalFlag::Extension),
            opt_view(profile) == last_value(done, GlobalFlag::Profile),
            opt_view(state) == last_value(done, GlobalFlag::State),
            opt_view(proxy) == last_value(done, GlobalFlag::Proxy),
            opt_view(proxy_bypass) == last_value(done, GlobalFlag::ProxyBypass),
            opt_view(cli_args) == last_value(done, GlobalFlag::Args),
            opt_view(user_agent) == last_value(done, GlobalFlag::UserAgent),
            opt_view(provider) == last_value(done, GlobalFlag::Provider),
            opt_view(device) == last_value(done, GlobalFlag::Device),
            opt_view(session_name) == last_value(done, GlobalFlag::SessionName),
            json == occurs(done, GlobalFlag::Json),
            full == occurs(done, GlobalFlag::Full),
            headed == occurs(done, GlobalFlag::Headed),
            debug == occurs(done, GlobalFlag::Debug),
            ignore_https_errors == occurs(done, GlobalFlag::IgnoreHttpsErrors),
            allow_file_access == occurs(done, GlobalFlag::AllowFileAccess),
            auto_connect == occurs(done, GlobalFlag::AutoConnect),
        decreases args@.len() - i,
    {
        proof {
            crate::strip::lemma_segments_step(t, i as int);
        }
        let ghost seg: Segment;
        let ghost added_before = views(added@);
        match lookup_flag(args[i].as_str()) {
            Some(g) => {
                if flag_takes_value(g) {
                    if i + 1 < args.len() {
                        let v = args[i + 1].clone();
                        proof {
                            seg = Segment::Flag(g, Some(t[i + 1]));
                        }
                        match g {
                            GlobalFlag::Session => session = Some(v),
                            GlobalFlag::Headers => headers = Some(v),
                            GlobalFlag::ExecutablePath => executable_path = Some(v),
                            GlobalFlag::Cdp => cdp = Some(v),
                            GlobalFlag::Extension => {
                                added.push(v);
                                proof {
                                    assert(views(added@) =~= added_before.push(t[i + 1]));
                                }
                            },
                            GlobalFlag::Profile => profile = Some(v),
                            GlobalFlag::State => state = Some(v),
                            GlobalFlag::Proxy => proxy = Some(v),
                            GlobalFlag::ProxyBypass => proxy_bypass = Some(v),
                            GlobalFlag::Args => cli_args = Some(v),
                            GlobalFlag::UserAgent => user_agent = Some(v),
                            GlobalFlag::Provider => provider = Some(v),
                            GlobalFlag::Device => device = Some(v),
                            _ => session_name = Some(v),
                        }
                        i = i + 2;
                    } else {
                        proof {
                            seg = Segment::Flag(g, None);
                        }
                        i = i + 1;
                    }
                } else {
                    proof {
                        seg = Segment::Flag(g, None);
                    }
                    match g {
                        GlobalFlag::Json => json = true,
                        GlobalFlag::Full => full = true,
                        GlobalFlag::Headed => headed = true,
                        GlobalFlag::Debug => debug = true,
                        GlobalFlag::IgnoreHttpsErrors => ignore_https_errors = true,
                        GlobalFlag::AllowFileAccess => allow_file_access = true,
                        _ => auto_connect = true,
                    }
                    i = i + 1;
                }
            },
            None => {
                proof {
                    seg = Segment::Plain(t[i as int]);
                }
                i = i + 1;
            },
        }
        proof {
            lemma_push_segment(done, seg);
            done = done.push(seg);
            if i == args.len() {
                assert(t.subrange(i as int, t.len() as int) =~= Seq::<Seq<char>>::empty());
            }
            assert(segments(t) =~= done + segments(t.subrange(i as int, t.len() as int)));
        }
    }
    proof {
        assert(t.subrange(i as int, t.len() as int) =~= Seq::<Seq<char>>::empty());
        assert(done + Seq::<Segment>::empty() =~= done);
    }
    let cli_extensions = added.len() > 0;
    let mut extensions = base.extensions;
    let ghost ext_base = views(extensions@);
    let mut k: usize = 0;
    while k < added.len()
        invariant
            k <= added@.len(),
            views(extensions@) == ext_base + views(added@).subrange(0, k as int),
        decreases added@.len() - k,
    {
        let ghost before = views(extensions@);
        extensions.push(added[k].clone());
        proof {
            assert(views(extensions@) =~= before.push(added@[k as int]@));
            assert(views(added@).subrange(0, k + 1) =~= views(added@).subrange(0, k as int).push(
                added@[k as int]@,
            ));
        }
        k = k + 1;
        proof {
            assert(views(extensions@) =~= ext_base + views(added@).subrange(0, k as int));
        }
    }
    proof {
        assert(views(added@).subrange(0, k as int) =~= views(added@));
    }
    Flags {
        json: base.json || json,
        full: base.full || full,
        headed: base.headed || headed,
        debug: base.debug || debug,
        session: match session {
            Some(s) => s,
            None => base.session,
        },
        headers: or_base(headers, base.headers),
        cli_executable_path: executable_path.is_some(),
        executable_path: or_base(executable_path, base.executable_path),
        cdp: or_base(cdp, base.cdp),
        extensions,
        cli_profile: profile.is_some(),
        profile: or_base(profile, base.profile),
        cli_state: state.is_some(),
        state: or_base(state, base.state),
        cli_proxy: proxy.is_some(),
        proxy: or_base(proxy, base.proxy),
        cli_proxy_bypass: proxy_bypass.is_some(),
        proxy_bypass: or_base(proxy_bypass, base.proxy_bypass),
        cli_args: cli_args.is_some(),
        args: or_base(cli_args, base.args),
        cli_user_agent: user_agent.is_some(),
        user_agent: or_base(user_agent, base.user_agent),
        provider: or_base(provider, base.provider),
        ignore_https_errors: base.ignore_https_errors || ignore_https_errors,
        allow_file_access: base.allow_file_access || allow_file_access,
        device: or_base(device, base.device),
        auto_connect: base.auto_connect || auto_connect,
        session_name: or_base(session_name, base.session_name),
        cli_extensions,
        cli_allow_file_access: base.cli_allow_file_access || allow_file_access,
    }
}

} // verus!
