//! What a session is started with: channels, patterns, options and exit
//! codes.

use crate::cli::args;
use crate::cli::args::Args;
use crate::cli::args::RC_ERROR;
use crate::cli::args::RC_INTERRUPT;
use crate::cli::args::RC_OK;
use crate::cli::args::RC_USAGE;
use crate::cli::validate::PluginInfo;
use crate::cli::validate::Validation;
use crate::com::ChannelHandle;
use crate::com::ComChannel;
use crate::com::Plugin;
use crate::dict;
use crate::errors::ErrorView;
use crate::errors::KirkError;
use crate::ltx::channel;
use crate::ltx::channel::ChannelView;
use crate::ltx::channel::LtxChannel;
use crate::pattern;
use crate::qemu;
use crate::qemu::channel::QemuChannel;
use crate::qemu::channel::QemuView;
use crate::qemu::config::HostPaths;
use crate::scheduler::test_sched;
use crate::session;
use crate::session::RunOptions;
use crate::session::SessionConfig;
use crate::shell::ShellChannel;
use crate::shell::ShellView;
use crate::ssh;
use crate::ssh::SshChannel;
use crate::ssh::SshView;
use crate::text;
use crate::textmap::TextMap;
use vstd::prelude::*;
use vstd::string::*;

verus! {

/// Which console to use.
#[derive(Debug, Clone, Copy, PartialEq, Eq, Structural)]
pub enum UiKind {
    /// More than one worker.
    Parallel,
    /// Verbose mode with a single worker.
    Verbose,
    /// A single worker.
    Simple,
}

/// Pick the console from the number of workers and the verbosity.
pub fn select_ui(workers: usize, verbose: bool) -> (r: UiKind)
    ensures
        r == if workers > 1 {
            UiKind::Parallel
        } else if verbose {
            UiKind::Verbose
        } else {
            UiKind::Simple
        },
{
    if workers > 1 {
        UiKind::Parallel
    } else if verbose {
        UiKind::Verbose
    } else {
        UiKind::Simple
    }
}

/// A channel of any kind.
pub enum Channel {
    /// Local processes.
    Shell(ShellChannel),
    /// Commands over SSH.
    Ssh(SshChannel),
    /// Serial console of a virtual machine.
    Qemu(QemuChannel),
    /// LTX executor.
    Ltx(LtxChannel),
}

/// What a channel of any kind holds.
pub enum AnyView {
    /// Local processes.
    Shell(ShellView),
    /// Commands over SSH.
    Ssh(SshView),
    /// Serial console of a virtual machine.
    Qemu(QemuView),
    /// LTX executor.
    Ltx(ChannelView),
}

impl View for Channel {
    type V = AnyView;

    open spec fn view(&self) -> AnyView {
        match *self {
            Channel::Shell(c) => AnyView::Shell(c@),
            Channel::Ssh(c) => AnyView::Ssh(c@),
            Channel::Qemu(c) => AnyView::Qemu(c@),
            Channel::Ltx(c) => AnyView::Ltx(c@),
        }
    }
}

/// Name of a channel.
pub open spec fn channel_name(v: AnyView) -> Seq<char> {
    match v {
        AnyView::Shell(c) => c.name,
        AnyView::Ssh(c) => c.name,
        AnyView::Qemu(c) => c.name,
        AnyView::Ltx(c) => c.name,
    }
}

/// A channel of the same kind under another name: it keeps the configuration,
/// and is not in use.
pub open spec fn renamed_view(v: AnyView, name: Seq<char>) -> AnyView {
    match v {
        AnyView::Shell(_) => AnyView::Shell(
            ShellView { name, active: false, pids: Seq::empty() },
        ),
        AnyView::Ssh(c) => AnyView::Ssh(
            SshView {
                name,
                config: c.config,
                connected: false,
                max_sessions: ssh::DEFAULT_MAX_SESSIONS,
            },
        ),
        AnyView::Qemu(c) => AnyView::Qemu(qemu::channel::idle(name, c.config)),
        AnyView::Ltx(c) => AnyView::Ltx(channel::unused(name, c.infile, c.outfile)),
    }
}

impl Plugin for Channel {
    open spec fn plugin_name(&self) -> Seq<char> {
        channel_name(self@)
    }

    fn name(&self) -> &str {
        match self {
            Channel::Shell(c) => c.name(),
            Channel::Ssh(c) => c.name(),
            Channel::Qemu(c) => c.name(),
            Channel::Ltx(c) => c.name(),
        }
    }

    fn config_help(&self) -> (r: TextMap)
        ensures
            r@ == (match self@ {
                AnyView::Shell(_) => Map::<Seq<char>, Seq<char>>::empty(),
                AnyView::Ssh(_) => ssh::option_help(),
                AnyView::Qemu(_) => qemu::channel::option_help(),
                AnyView::Ltx(_) => channel::option_help(),
            }),
    {
        match self {
            Channel::Shell(c) => c.config_help(),
            Channel::Ssh(c) => c.config_help(),
            Channel::Qemu(c) => c.config_help(),
            Channel::Ltx(c) => c.config_help(),
        }
    }

    fn renamed(&self, name: &str) -> (r: Self)
        ensures
            r@ == renamed_view(self@, name@),
    {
        match self {
            Channel::Shell(c) => Channel::Shell(c.renamed(name)),
            Channel::Ssh(c) => Channel::Ssh(c.renamed(name)),
            Channel::Qemu(c) => Channel::Qemu(c.renamed(name)),
            Channel::Ltx(c) => Channel::Ltx(c.renamed(name)),
        }
    }
}

impl ComChannel for Channel {
    open spec fn is_parallel(&self) -> bool {
        !(self@ is Qemu)
    }

    open spec fn is_communicating(&self) -> bool {
        match *self {
            Channel::Shell(c) => c.is_communicating(),
            Channel::Ssh(c) => c.is_communicating(),
            Channel::Qemu(c) => c.is_communicating(),
            Channel::Ltx(c) => c.is_communicating(),
        }
    }

    fn parallel_execution(&self) -> bool {
        match self {
            Channel::Shell(c) => c.parallel_execution(),
            Channel::Ssh(c) => c.parallel_execution(),
            Channel::Qemu(c) => c.parallel_execution(),
            Channel::Ltx(c) => c.parallel_execution(),
        }
    }

    fn active(&self) -> bool {
        match self {
            Channel::Shell(c) => c.active(),
            Channel::Ssh(c) => c.active(),
            Channel::Qemu(c) => c.active(),
            Channel::Ltx(c) => c.active(),
        }
    }

    fn concurrent_handle(&self) -> Option<ChannelHandle> {
        match self {
            Channel::Shell(c) => c.concurrent_handle(),
            Channel::Ssh(c) => c.concurrent_handle(),
            Channel::Qemu(c) => c.concurrent_handle(),
            Channel::Ltx(c) => c.concurrent_handle(),
        }
    }
}

/// What the host has at the paths that a channel is configured with.
#[derive(Debug, Clone, Copy, PartialEq, Eq, Structural)]
pub struct SetupFacts {
    /// Paths of a virtual machine.
    pub host: HostPaths,
    /// Whether the file that requests are written to exists.
    pub infile_exists: bool,
    /// Whether the file that frames are read from exists.
    pub outfile_exists: bool,
}

/// A channel after its setup, or the error of the setup.
pub open spec fn set_up(
    v: AnyView,
    cfg: Map<Seq<char>, Seq<char>>,
    facts: SetupFacts,
    home: Option<Seq<char>>,
) -> Result<AnyView, ErrorView> {
    match v {
        AnyView::Shell(c) => Ok(AnyView::Shell(c)),
        AnyView::Ssh(c) => match ssh::config_of(cfg, home) {
            Ok(config) => Ok(AnyView::Ssh(SshView { config, ..c })),
            Err(e) => Err(e),
        },
        AnyView::Qemu(c) => match qemu::config::config_of(cfg, facts.host) {
            Ok(config) => Ok(AnyView::Qemu(QemuView { config: Some(config), ..c })),
            Err(e) => Err(e),
        },
        AnyView::Ltx(c) => {
            let infile = channel::config_text(cfg, "infile"@);
            let outfile = channel::config_text(cfg, "outfile"@);
            if infile.len() == 0 || !facts.infile_exists {
                Err(ErrorView::Communication("'"@ + infile + "' input file doesn't exist"@))
            } else if outfile.len() == 0 || !facts.outfile_exists {
                Err(ErrorView::Communication("'"@ + outfile + "' output file doesn't exist"@))
            } else {
                Ok(AnyView::Ltx(ChannelView { infile, outfile, ..c }))
            }
        },
    }
}

impl Channel {
    /// Set up the channel, given what the host has at the configured paths and
    /// the home directory of the user.
    pub fn setup(&mut self, cfg: &TextMap, facts: SetupFacts, home: Option<&str>) -> (r: Result<
        (),
        KirkError,
    >)
        ensures
            match set_up(old(self)@, cfg@, facts, text::opt_str(home)) {
                Ok(v) => r is Ok && final(self)@ == v,
                Err(x) => {
                    &&& r matches Err(e)
                    &&& e@ == x
                    &&& final(self)@ == old(self)@
                },
            },
    {
        match self {
            Channel::Shell(c) => c.setup(cfg),
            Channel::Ssh(c) => c.setup(cfg, home),
            Channel::Qemu(c) => c.setup(cfg, facts.host),
            Channel::Ltx(c) => c.setup(cfg, facts.infile_exists, facts.outfile_exists),
        }
    }
}

/// A channel of a kind, by the name of the kind.
pub open spec fn template(name: Seq<char>, home: Option<Seq<char>>) -> Option<AnyView> {
    if name == "shell"@ {
        Some(AnyView::Shell(ShellView { name: "shell"@, active: false, pids: Seq::empty() }))
    } else if name == "ssh"@ {
        Some(
            AnyView::Ssh(
                SshView {
                    name: "ssh"@,
                    config: match ssh::config_of(Map::empty(), home) {
                        Ok(c) => c,
                        Err(_) => ssh::fallback_config(),
                    },
                    connected: false,
                    max_sessions: ssh::DEFAULT_MAX_SESSIONS,
                },
            ),
        )
    } else if name == "qemu"@ {
        Some(AnyView::Qemu(qemu::channel::idle("qemu"@, None)))
    } else if name == "ltx"@ {
        Some(AnyView::Ltx(channel::unused("ltx"@, Seq::empty(), Seq::empty())))
    } else {
        None
    }
}

/// Build a channel of a kind, by the name of the kind, under another name.
pub fn builtin_template(name: &str, id: &str, home: Option<&str>) -> (r: Option<Channel>)
    ensures
        match template(name@, text::opt_str(home)) {
            Some(v) => r matches Some(c) && c@ == renamed_view(v, id@),
            None => r is None,
        },
{
    let template = if text::same(name, "shell") {
        Channel::Shell(ShellChannel::new())
    } else if text::same(name, "ssh") {
        Channel::Ssh(SshChannel::new("ssh", home))
    } else if text::same(name, "qemu") {
        Channel::Qemu(QemuChannel::new())
    } else if text::same(name, "ltx") {
        Channel::Ltx(LtxChannel::new())
    } else {
        return None;
    };
    Some(template.renamed(id))
}

/// Views of channels.
pub open spec fn channel_views(v: Seq<Channel>) -> Seq<AnyView> {
    v.map_values(|c: Channel| c@)
}

/// First channel with the given name, if any.
pub open spec fn channel_named(channels: Seq<AnyView>, name: Seq<char>) -> Option<AnyView>
    decreases channels.len(),
{
    if channels.len() == 0 {
        None
    } else if channel_name(channels[0]) == name {
        Some(channels[0])
    } else {
        channel_named(channels.skip(1), name)
    }
}

/// Channel to copy for the given name: one that is there already, or else one
/// of the kind of that name.
pub open spec fn source_of(
    channels: Seq<AnyView>,
    name: Seq<char>,
    home: Option<Seq<char>>,
) -> Result<AnyView, ErrorView> {
    match channel_named(channels, name) {
        Some(v) => Ok(v),
        None => match template(name, home) {
            Some(v) => Ok(v),
            None => Err(ErrorView::Plugin("Can't find plugin '"@ + name + "'"@)),
        },
    }
}

/// Copy the channel for the given name under another name.
pub fn lookup_template(name: &str, id: &str, instances: &Vec<Channel>, home: Option<&str>) -> (r:
    Result<Channel, KirkError>)
    ensures
        match source_of(channel_views(instances@), name@, text::opt_str(home)) {
            Ok(v) => r matches Ok(c) && c@ == renamed_view(v, id@),
            Err(x) => r matches Err(e) && e@ == x,
        },
{
    let ghost all = channel_views(instances@);
    let mut i: usize = 0;
    assert(all.skip(0) =~= all);
    while i < instances.len()
        invariant
            i <= instances@.len(),
            all == channel_views(instances@),
            channel_named(all, name@) == channel_named(all.skip(i as int), name@),
        decreases instances@.len() - i,
    {
        proof {
            assert(all.skip(i as int)[0] == instances@[i as int]@);
            assert(all.skip(i as int).skip(1) =~= all.skip(i + 1));
        }
        if text::same(instances[i].name(), name) {
            return Ok(instances[i].renamed(id));
        }
        i = i + 1;
    }
    match builtin_template(name, id, home) {
        Some(c) => Ok(c),
        None => Err(KirkError::Plugin(text::cat3("Can't find plugin '", name, "'"))),
    }
}

/// Name that a configured channel gets: its identifier, or else that of its
/// kind.
pub open spec fn channel_id(cfg: Map<Seq<char>, Seq<char>>) -> Seq<char> {
    if cfg.dom().contains("id"@) {
        cfg["id"@]
    } else {
        args::config_name(cfg)
    }
}

/// Channel for a configuration, given those that are there already.
pub open spec fn channel_for(
    channels: Seq<AnyView>,
    cfg: Map<Seq<char>, Seq<char>>,
    tmpdir: Seq<char>,
    facts: SetupFacts,
    home: Option<Seq<char>>,
) -> Result<AnyView, ErrorView> {
    match source_of(channels, args::config_name(cfg), home) {
        Err(e) => Err(e),
        Ok(v) => set_up(
            renamed_view(v, channel_id(cfg)),
            cfg.insert("tmpdir"@, tmpdir),
            facts,
            home,
        ),
    }
}

/// Channels for the first `n` configurations.
pub open spec fn channels_for(
    configs: Seq<TextMap>,
    tmpdir: Seq<char>,
    facts: Seq<SetupFacts>,
    home: Option<Seq<char>>,
    n: nat,
) -> Result<Seq<AnyView>, ErrorView>
    decreases n,
{
    if n == 0 {
        Ok(Seq::empty())
    } else {
        match channels_for(configs, tmpdir, facts, home, (n - 1) as nat) {
            Err(e) => Err(e),
            Ok(before) => match channel_for(before, configs[n - 1]@, tmpdir, facts[n - 1], home) {
                Err(e) => Err(e),
                Ok(v) => Ok(before.push(v)),
            },
        }
    }
}

proof fn channels_error_stays(
    configs: Seq<TextMap>,
    tmpdir: Seq<char>,
    facts: Seq<SetupFacts>,
    home: Option<Seq<char>>,
    k: nat,
    n: nat,
)
    requires
        k <= n,
        channels_for(configs, tmpdir, facts, home, k) is Err,
    ensures
        channels_for(configs, tmpdir, facts, home, n) == channels_for(
            configs,
            tmpdir,
            facts,
            home,
            k,
        ),
    decreases n,
{
    if k < n {
        channels_error_stays(configs, tmpdir, facts, home, k, (n - 1) as nat);
    }
}

/// Channels of a session: one for each configuration, or a shell where there
/// is none.
pub open spec fn session_channels(
    configs: Seq<TextMap>,
    tmpdir: Seq<char>,
    facts: Seq<SetupFacts>,
    home: Option<Seq<char>>,
) -> Result<Seq<AnyView>, ErrorView> {
    if configs.len() == 0 {
        Ok(seq![AnyView::Shell(ShellView { name: "shell"@, active: false, pids: Seq::empty() })])
    } else {
        channels_for(configs, tmpdir, facts, home, configs.len())
    }
}

/// Every configuration gets a channel, in order, under its identifier.
pub proof fn channels_have_their_names(
    configs: Seq<TextMap>,
    tmpdir: Seq<char>,
    facts: Seq<SetupFacts>,
    home: Option<Seq<char>>,
    n: nat,
)
    requires
        n <= configs.len(),
    ensures
        channels_for(configs, tmpdir, facts, home, n) matches Ok(v) ==> {
            &&& v.len() == n
            &&& forall|i: int|
                0 <= i < n ==> channel_name(#[trigger] v[i]) == channel_id(configs[i]@)
        },
    decreases n,
{
    if n > 0 {
        channels_have_their_names(configs, tmpdir, facts, home, (n - 1) as nat);
    }
}

fn build_channel(
    instances: &Vec<Channel>,
    cfg: &TextMap,
    tmpdir: &str,
    facts: SetupFacts,
    home: Option<&str>,
) -> (r: Result<Channel, KirkError>)
    ensures
        match channel_for(
            channel_views(instances@),
            cfg@,
            tmpdir@,
            facts,
            text::opt_str(home),
        ) {
            Ok(v) => r matches Ok(c) && c@ == v,
            Err(x) => r matches Err(e) && e@ == x,
        },
{
    let name = args::name_of(cfg);
    let id = match cfg.get("id") {
        Some(id) => id,
        None => name,
    };
    let mut full = cfg.clone();
    full.insert("tmpdir", tmpdir);
    match lookup_template(name, id, instances, home) {
        Err(e) => Err(e),
        Ok(mut c) => match c.setup(&full, facts, home) {
            Ok(_) => Ok(c),
            Err(e) => Err(e),
        },
    }
}

/// Build the channels of a session, given for each what the host has at its
/// configured paths.
pub fn setup_channels(
    configs: &Vec<TextMap>,
    tmpdir: &str,
    facts: &Vec<SetupFacts>,
    home: Option<&str>,
) -> (r: Result<Vec<Channel>, KirkError>)
    requires
        facts@.len() == configs@.len(),
    ensures
        match session_channels(configs@, tmpdir@, facts@, text::opt_str(home)) {
            Ok(v) => r matches Ok(c) && channel_views(c@) == v,
            Err(x) => r matches Err(e) && e@ == x,
        },
{
    let mut instances: Vec<Channel> = Vec::new();
    if configs.len() == 0 {
        let shell = Channel::Shell(ShellChannel::new());
        instances.push(shell);
        assert(channel_views(instances@) =~= seq![shell@]);
        return Ok(instances);
    }
    let ghost h = text::opt_str(home);
    let mut i: usize = 0;
    assert(channel_views(instances@) =~= Seq::<AnyView>::empty());
    while i < configs.len()
        invariant
            i <= configs@.len(),
            configs@.len() > 0,
            facts@.len() == configs@.len(),
            h == text::opt_str(home),
            channels_for(configs@, tmpdir@, facts@, h, i as nat) == Ok::<Seq<AnyView>, ErrorView>(
                channel_views(instances@),
            ),
        decreases configs@.len() - i,
    {
        match build_channel(&instances, &configs[i], tmpdir, facts[i], home) {
            Err(e) => {
                proof {
                    channels_error_stays(
                        configs@,
                        tmpdir@,
                        facts@,
                        h,
                        (i + 1) as nat,
                        configs@.len(),
                    );
                }
                return Err(e);
            },
            Ok(c) => {
                let ghost before = instances@;
                instances.push(c);
                assert(channel_views(instances@) =~= channel_views(before).push(c@));
            },
        }
        i = i + 1;
    }
    Ok(instances)
}

/// Plugins that are always there: the channels and the default system under
/// test.
pub fn builtin_plugins(home: Option<&str>) -> (r: (Vec<PluginInfo>, Vec<PluginInfo>))
    ensures
        r.0@.len() == 4,
        r.0@[0].name@ == "shell"@,
        r.0@[0].config_help@ == Map::<Seq<char>, Seq<char>>::empty(),
        r.0@[1].name@ == "ssh"@,
        r.0@[1].config_help@ == ssh::option_help(),
        r.0@[2].name@ == "qemu"@,
        r.0@[2].config_help@ == qemu::channel::option_help(),
        r.0@[3].name@ == "ltx"@,
        r.0@[3].config_help@ == channel::option_help(),
        r.1@.len() == 1,
        r.1@[0].name@ == "default"@,
        r.1@[0].config_help@ == Map::<Seq<char>, Seq<char>>::empty().insert(
            "com"@,
            "Communication channel name (default: shell)"@,
        ),
{
    let shell = ShellChannel::new();
    let ssh = SshChannel::new("ssh", home);
    let qemu = QemuChannel::new();
    let ltx = LtxChannel::new();
    let mut coms: Vec<PluginInfo> = Vec::new();
    coms.push(PluginInfo { name: shell.name().to_owned(), config_help: shell.config_help() });
    coms.push(PluginInfo { name: ssh.name().to_owned(), config_help: ssh.config_help() });
    coms.push(PluginInfo { name: qemu.name().to_owned(), config_help: qemu.config_help() });
    coms.push(PluginInfo { name: ltx.name().to_owned(), config_help: ltx.config_help() });
    let mut help = TextMap::new();
    help.insert("com", "Communication channel name (default: shell)");
    let mut suts: Vec<PluginInfo> = Vec::new();
    suts.push(PluginInfo { name: text::owned("default"), config_help: help });
    (coms, suts)
}

/// Lines of a skip file that are no comment and not blank, trimmed.
pub open spec fn skip_lines(lines: Seq<Seq<char>>) -> Seq<Seq<char>>
    decreases lines.len(),
{
    if lines.len() == 0 {
        Seq::empty()
    } else {
        let before = skip_lines(lines.drop_last());
        let line = text::trimmed(lines.last());
        if line.len() == 0 || line[0] == '#' {
            before
        } else {
            before.push(line)
        }
    }
}

/// Pattern of the tests to skip: each line of the skip file, or the pattern of
/// the option.
pub open spec fn skip_pattern(option: Option<Seq<char>>, file: Option<Seq<char>>) -> Seq<char> {
    let lines = match file {
        Some(content) => skip_lines(text::lines_of(content)),
        None => Seq::empty(),
    };
    let first = if lines.len() > 0 {
        seq![text::joined(lines, "|"@)]
    } else {
        Seq::empty()
    };
    let second = match session::given(option) {
        Some(skip) => seq![skip],
        None => Seq::empty(),
    };
    text::joined(first + second, "|"@)
}

fn read_skip_lines(content: &str) -> (r: Vec<String>)
    ensures
        text::texts(r@) == skip_lines(text::lines_of(content@)),
        r@.len() == skip_lines(text::lines_of(content@)).len(),
{
    broadcast use text::texts_push;

    let lines = text::lines(content);
    let ghost all = text::lines_of(content@);
    let mut r: Vec<String> = Vec::new();
    let mut i: usize = 0;
    assert(text::texts(r@) =~= skip_lines(all.take(0)));
    while i < lines.len()
        invariant
            i <= lines@.len(),
            text::texts(lines@) == all,
            text::texts(r@) == skip_lines(all.take(i as int)),
        decreases lines@.len() - i,
    {
        proof {
            assert(all.take(i + 1).drop_last() =~= all.take(i as int));
            assert(all.take(i + 1).last() == lines@[i as int]@);
        }
        let line = text::trim(lines[i].as_str());
        let c = text::chars_of(line.as_str());
        if !(c.len() == 0 || c[0] == '#') {
            r.push(line);
        }
        i = i + 1;
    }
    assert(all.take(all.len() as int) =~= all);
    assert(text::texts(r@).len() == r@.len());
    r
}

/// Combine the pattern of tests to skip with the content of a skip file.
pub fn get_skip_tests(skip_tests: Option<&str>, skip_file: Option<&str>) -> (r: String)
    ensures
        r@ == skip_pattern(text::opt_str(skip_tests), text::opt_str(skip_file)),
{
    broadcast use text::texts_push;

    let mut parts: Vec<String> = Vec::new();
    assert(text::texts(parts@) =~= Seq::<Seq<char>>::empty());
    match skip_file {
        Some(content) => {
            let lines = read_skip_lines(content);
            if lines.len() > 0 {
                parts.push(text::join(&lines, "|"));
            }
        },
        None => {},
    }
    let ghost first = text::texts(parts@);
    match skip_tests {
        Some(skip) => {
            if !skip.is_empty() {
                parts.push(skip.to_owned());
            }
        },
        None => {},
    }
    proof {
        let second = match session::given(text::opt_str(skip_tests)) {
            Some(skip) => seq![skip],
            None => Seq::empty(),
        };
        assert(text::texts(parts@) =~= first + second);
    }
    text::join(&parts, "|")
}

/// Error of a skip file that cannot be read.
pub fn skip_file_error() -> (e: KirkError)
    ensures
        e@ == ErrorView::Session("can't read skip file"@),
{
    KirkError::Session(text::owned("can't read skip file"))
}

/// Error for a pattern that is no regular expression.
pub open spec fn bad_pattern(pattern: Seq<char>) -> ErrorView {
    ErrorView::Session("'"@ + pattern + "' is not a valid regular expression"@)
}

/// Whether a pattern can be used, given whether it is a regular expression.
pub fn judge_pattern(pattern: &str, valid: bool) -> (r: Result<(), KirkError>)
    ensures
        match r {
            Ok(_) => valid,
            Err(e) => !valid && e@ == bad_pattern(pattern@),
        },
{
    if valid {
        Ok(())
    } else {
        Err(
            KirkError::Session(text::cat3("'", pattern, "' is not a valid regular expression")),
        )
    }
}

/// Check the patterns of a session: that of the tests to skip, unless it is
/// empty, and that of the tests to run.
pub fn check_patterns(skip_tests: &str, run_pattern: Option<&str>) -> (r: Result<(), KirkError>)
    ensures
        if skip_tests@.len() > 0 && pattern::pattern_error(skip_tests@) is Some {
            r matches Err(e) && e@ == bad_pattern(skip_tests@)
        } else if run_pattern matches Some(p) && pattern::pattern_error(p@) is Some {
            r matches Err(e) && e@ == bad_pattern(run_pattern->0@)
        } else {
            r is Ok
        },
{
    if !skip_tests.is_empty() {
        let valid = pattern::check_pattern(skip_tests).is_none();
        match judge_pattern(skip_tests, valid) {
            Ok(_) => {},
            Err(e) => {
                return Err(e);
            },
        }
    }
    match run_pattern {
        Some(p) => {
            let valid = pattern::check_pattern(p).is_none();
            judge_pattern(p, valid)
        },
        None => Ok(()),
    }
}

/// Folder of the session to restore, given where the path leads to, where it
/// leads to a folder.
pub fn resolve_restore(path: Option<&str>, folder: Option<&str>) -> (r: Result<
    Option<String>,
    KirkError,
>)
    ensures
        match session::given(text::opt_str(path)) {
            None => r matches Ok(None),
            Some(p) => match text::opt_str(folder) {
                Some(f) => r matches Ok(Some(s)) && s@ == f,
                None => r matches Err(e) && e@ == ErrorView::Session(
                    "Can't restore '"@ + p + "'. Folder doesn't exist"@,
                ),
            },
        },
{
    match path {
        None => Ok(None),
        Some(p) => {
            if p.is_empty() {
                return Ok(None);
            }
            match folder {
                Some(f) => Ok(Some(f.to_owned())),
                None => Err(
                    KirkError::Session(
                        text::cat3("Can't restore '", p, "'. Folder doesn't exist"),
                    ),
                ),
            }
        },
    }
}

/// Seconds as the bits of a double.
fn secs(value: u64) -> (r: u64)
    ensures
        r == dict::nearest_double(value as int),
        test_sched::in_force(r) == (value > 0),
{
    dict::integer_to_double(value as i128)
}

/// Parameters of the session that the arguments ask for.
pub fn session_config(a: &Args) -> (r: SessionConfig)
    ensures
        r == (SessionConfig {
            exec_timeout: dict::nearest_double(a.exec_timeout as int),
            suite_timeout: dict::nearest_double(a.suite_timeout as int),
            workers: a.workers,
            force_parallel: a.force_parallel,
        }),
        test_sched::in_force(r.exec_timeout) == (a.exec_timeout > 0),
        test_sched::in_force(r.suite_timeout) == (a.suite_timeout > 0),
{
    SessionConfig {
        exec_timeout: secs(a.exec_timeout),
        suite_timeout: secs(a.suite_timeout),
        workers: a.workers,
        force_parallel: a.force_parallel,
    }
}

/// Options of the run that the arguments ask for, with the pattern of tests to
/// skip and the folder of the session to restore.
pub fn run_options(a: &Args, skip_tests: &str, restore: Option<String>) -> (r: RunOptions)
    ensures
        text::opt_text(r.command) == text::opt_text(a.run_command),
        text::texts(r.suites@) == (match a.run_suite {
            Some(v) => text::texts(v@),
            None => Seq::empty(),
        }),
        text::opt_text(r.pattern) == text::opt_text(a.run_pattern),
        text::opt_text(r.skip_tests) == session::given(Some(skip_tests@)),
        text::opt_text(r.report_path) == text::opt_text(a.json_report),
        r.restore_path == restore,
        r.suite_iterate == a.suite_iterate,
        r.randomize == a.randomize,
        r.runtime == dict::nearest_double(a.runtime as int),
        test_sched::in_force(r.runtime) == (a.runtime > 0),
        r.fault_prob == a.fault_injection,
        r.fault_interval == a.fault_interval,
        r.dry_run == a.dry_run,
{
    let suites = match &a.run_suite {
        Some(v) => text::copy_texts(v),
        None => Vec::new(),
    };
    assert(a.run_suite is None ==> text::texts(suites@) =~= Seq::<Seq<char>>::empty());
    RunOptions {
        command: text::copy_opt(&a.run_command),
        suites,
        pattern: text::copy_opt(&a.run_pattern),
        skip_tests: if skip_tests.is_empty() {
            None
        } else {
            Some(skip_tests.to_owned())
        },
        report_path: text::copy_opt(&a.json_report),
        restore_path: restore,
        suite_iterate: a.suite_iterate,
        randomize: a.randomize,
        runtime: secs(a.runtime),
        fault_prob: a.fault_injection,
        fault_interval: a.fault_interval,
        dry_run: a.dry_run,
    }
}

/// How a session ended.
#[derive(Debug, Clone, Copy, PartialEq, Eq, Structural)]
pub enum SessionEnd {
    /// It succeeded.
    Success,
    /// It failed.
    Failure,
    /// It was interrupted.
    Interrupted,
}

/// Exit code of a session.
pub fn exit_code(end: SessionEnd) -> (r: i32)
    ensures
        r == (match end {
            SessionEnd::Success => RC_OK,
            SessionEnd::Failure => RC_ERROR,
            SessionEnd::Interrupted => RC_INTERRUPT,
        }),
{
    match end {
        SessionEnd::Success => RC_OK,
        SessionEnd::Failure => RC_ERROR,
        SessionEnd::Interrupted => RC_INTERRUPT,
    }
}

/// Exit code of the program, from the check of its arguments and the session
/// that ran, if one did. Arguments that are refused, and a session that could
/// not be set up, are usage errors; help is a success; a session that was
/// called for and did not run is a failure.
pub fn exit_status(
    validation: &Result<Validation, KirkError>,
    session: Option<&Result<i32, KirkError>>,
) -> (r: i32)
    ensures
        r == (match *validation {
            Err(_) => RC_USAGE,
            Ok(Validation::ComHelp) => RC_OK,
            Ok(Validation::SutHelp) => RC_OK,
            Ok(Validation::Proceed) => match session {
                Some(Ok(code)) => *code,
                Some(Err(_)) => RC_USAGE,
                None => RC_ERROR,
            },
        }),
{
    match validation {
        Err(_) => RC_USAGE,
        Ok(Validation::ComHelp) => RC_OK,
        Ok(Validation::SutHelp) => RC_OK,
        Ok(Validation::Proceed) => match session {
            Some(Ok(code)) => *code,
            Some(Err(_)) => RC_USAGE,
            None => RC_ERROR,
        },
    }
}

/// Blank lines and comments of a skip file count for nothing; every other line
/// counts, in order, without the white space around it.
pub proof fn skip_lines_are_read(
    before: Seq<char>,
    core: Seq<char>,
    after: Seq<char>,
    rest: Seq<Seq<char>>,
)
    requires
        text::all_space(before),
        text::all_space(after),
        core.len() > 0 ==> !text::is_space(core[0]) && !text::is_space(core.last()),
    ensures
        core.len() == 0 || core[0] == '#' ==> skip_lines(seq![before + core + after] + rest)
            == skip_lines(rest),
        core.len() > 0 && core[0] != '#' ==> skip_lines(seq![before + core + after] + rest)
            == seq![core] + skip_lines(rest),
    decreases rest.len(),
{
    let line = before + core + after;
    let all = seq![line] + rest;
    text::trimming_leaves_the_core(before, core, after);
    if rest.len() == 0 {
        assert(all.drop_last() =~= rest);
        assert(all.last() == line);
        assert(skip_lines(rest).push(core) =~= seq![core] + skip_lines(rest));
    } else {
        skip_lines_are_read(before, core, after, rest.drop_last());
        assert(all.drop_last() =~= seq![line] + rest.drop_last());
        assert(all.last() == rest.last());
        if core.len() == 0 || core[0] == '#' {
        } else {
            assert(skip_lines(all) =~= seq![core] + skip_lines(rest));
        }
    }
}

/// A test is skipped for any line of the skip file and for the option: all of
/// them are alternatives of one pattern, the option last.
pub proof fn skip_patterns_are_alternatives(option: Seq<char>, file: Seq<char>)
    requires
        option.len() > 0,
    ensures
        skip_pattern(Some(option), None) == option,
        skip_pattern(None, None).len() == 0,
        skip_pattern(Some(Seq::empty()), Some(file)) == skip_pattern(None, Some(file)),
        skip_pattern(None, Some(file)) == text::joined(skip_lines(text::lines_of(file)), "|"@),
        skip_lines(text::lines_of(file)).len() > 0 ==> skip_pattern(Some(option), Some(file))
            == text::joined(skip_lines(text::lines_of(file)), "|"@) + "|"@ + option,
        skip_lines(text::lines_of(file)).len() == 0 ==> skip_pattern(Some(option), Some(file))
            == option,
{
    let lines = skip_lines(text::lines_of(file));
    let none = Seq::<Seq<char>>::empty();
    let one = text::joined(lines, "|"@);
    assert(none + seq![option] =~= seq![option]);
    assert(none + none =~= none);
    assert(seq![one] + none =~= seq![one]);
    assert(seq![one] + seq![option] =~= seq![one, option]);
    assert(seq![one, option].drop_last() =~= seq![one]);
    assert(text::joined(seq![one], "|"@) == one);
    assert(text::joined(seq![option], "|"@) == option);
    assert(text::joined(none, "|"@) == Seq::<char>::empty());
    let both = seq![one, option];
    assert(both.len() == 2 && both.last() == option);
    assert(text::joined(both, "|"@) == text::joined(both.drop_last(), "|"@) + "|"@ + both.last());
}

/// A channel that is there under the name is copied before a kind of channel;
/// a name that is neither is an error that names it.
pub proof fn names_find_their_channels(
    channels: Seq<AnyView>,
    name: Seq<char>,
    home: Option<Seq<char>>,
    i: int,
)
    ensures
        0 <= i < channels.len() && channel_name(channels[i]) == name && (forall|j: int|
            0 <= j < i ==> channel_name(#[trigger] channels[j]) != name) ==> source_of(
            channels,
            name,
            home,
        ) == Ok::<AnyView, ErrorView>(channels[i]),
        (forall|j: int| 0 <= j < channels.len() ==> channel_name(#[trigger] channels[j]) != name)
            ==> (match source_of(channels, name, home) {
            Ok(v) => channel_name(v) == name && (match v {
                AnyView::Shell(_) => name == "shell"@,
                AnyView::Ssh(_) => name == "ssh"@,
                AnyView::Qemu(_) => name == "qemu"@,
                AnyView::Ltx(_) => name == "ltx"@,
            }),
            Err(e) => {
                &&& e == ErrorView::Plugin("Can't find plugin '"@ + name + "'"@)
                &&& name != "shell"@ && name != "ssh"@ && name != "qemu"@ && name != "ltx"@
            },
        }),
    decreases channels.len(),
{
    kinds_have_names();
    if channels.len() > 0 && channel_name(channels[0]) != name {
        let rest = channels.skip(1);
        names_find_their_channels(rest, name, home, i - 1);
        assert forall|j: int| 0 <= j < rest.len() implies #[trigger] rest[j] == channels[j + 1] by {
        }
        if 0 <= i < channels.len() && channel_name(channels[i]) == name && (forall|j: int|
            0 <= j < i ==> channel_name(#[trigger] channels[j]) != name) {
            assert(rest[i - 1] == channels[i]);
            assert(forall|j: int| 0 <= j < i - 1 ==> channel_name(#[trigger] rest[j]) != name);
        }
        if forall|j: int|
            0 <= j < channels.len() ==> channel_name(#[trigger] channels[j]) != name {
            assert(forall|j: int|
                0 <= j < rest.len() ==> channel_name(#[trigger] rest[j]) != name);
        }
    } else if channels.len() > 0 {
        assert(channel_name(channels[0]) == name);
    }
}

proof fn kinds_have_names()
    ensures
        "shell"@ != "ssh"@,
        "shell"@ != "qemu"@,
        "shell"@ != "ltx"@,
        "ssh"@ != "qemu"@,
        "ssh"@ != "ltx"@,
        "qemu"@ != "ltx"@,
{
    reveal_strlit("shell");
    reveal_strlit("ssh");
    reveal_strlit("qemu");
    reveal_strlit("ltx");
    assert("shell"@.len() == 5 && "qemu"@.len() == 4 && "ssh"@.len() == 3 && "ltx"@.len() == 3);
    assert("ssh"@[0] != "ltx"@[0]);
}

/// Setting up a channel keeps its kind and its name, and gives every channel
/// its own configuration; a shell needs none.
pub proof fn setup_keeps_the_channel(
    v: AnyView,
    cfg: Map<Seq<char>, Seq<char>>,
    facts: SetupFacts,
    home: Option<Seq<char>>,
)
    ensures
        v is Shell ==> set_up(v, cfg, facts, home) == Ok::<AnyView, ErrorView>(v),
        set_up(v, cfg, facts, home) matches Ok(w) ==> channel_name(w) == channel_name(v),
        set_up(v, cfg, facts, home) matches Ok(w) ==> (match w {
            AnyView::Shell(_) => v is Shell,
            AnyView::Ssh(c) => v is Ssh && ssh::config_of(cfg, home) == Ok::<_, ErrorView>(c.config)
                && c.max_sessions == v->Ssh_0.max_sessions,
            AnyView::Qemu(c) => v is Qemu && c.config is Some && qemu::config::config_of(
                cfg,
                facts.host,
            ) == Ok::<_, ErrorView>(c.config->0),
            AnyView::Ltx(c) => {
                &&& v is Ltx
                &&& facts.infile_exists && facts.outfile_exists
                &&& cfg.dom().contains("infile"@) && c.infile == cfg["infile"@]
                &&& cfg.dom().contains("outfile"@) && c.outfile == cfg["outfile"@]
            },
        }),
        v is Ltx && set_up(v, cfg, facts, home) is Err ==> !facts.infile_exists
            || !facts.outfile_exists || !cfg.dom().contains("infile"@) || cfg["infile"@].len() == 0
            || !cfg.dom().contains("outfile"@) || cfg["outfile"@].len() == 0,
{
}

/// Without a configuration a session has a shell alone; every configuration
/// gets its temporary directory and its identifier.
pub proof fn configured_channels_are_set_up(
    channels: Seq<AnyView>,
    cfg: Map<Seq<char>, Seq<char>>,
    tmpdir: Seq<char>,
    facts: SetupFacts,
    home: Option<Seq<char>>,
)
    ensures
        session_channels(Seq::empty(), tmpdir, Seq::empty(), home) matches Ok(v) && v.len() == 1
            && v[0] is Shell && channel_name(v[0]) == "shell"@,
        channel_for(channels, cfg, tmpdir, facts, home) matches Ok(v) ==> {
            &&& cfg.dom().contains("id"@) ==> channel_name(v) == cfg["id"@]
            &&& !cfg.dom().contains("id"@) && cfg.dom().contains("name"@) ==> channel_name(v)
                == cfg["name"@]
        },
        source_of(channels, args::config_name(cfg), home) is Err ==> channel_for(
            channels,
            cfg,
            tmpdir,
            facts,
            home,
        ) is Err,
{
}

} // verus!
