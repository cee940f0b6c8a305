//! QEMU communication channel: the commands it types on the serial console
//! and what their replies mean.

use crate::com::ChannelHandle;
use crate::com::CmdResult;
use crate::com::ComChannel;
use crate::com::Plugin;
use crate::errors::ErrorView;
use crate::errors::KirkError;
use crate::qemu::config;
use crate::qemu::config::HostPaths;
use crate::qemu::config::QemuConfig;
use crate::qemu::config::QemuConfigView;
use crate::qemu::expect;
use crate::qemu::expect::ExpectState;
use crate::qemu::expect::MAX_TRANSPORT_BYTES;
use crate::text;
use crate::textmap::EntryView;
use crate::textmap::TextMap;
use crate::words;
use vstd::prelude::*;
use vstd::string::*;

verus! {

/// Number of characters in the code that marks the end of a reply.
pub const CODE_LEN: usize = 10;

/// Error of the channel.
fn communication(message: &str) -> (e: KirkError)
    ensures
        e@ == ErrorView::Communication(message@),
{
    KirkError::Communication(text::owned(message))
}

/// Whether `c` is an ASCII letter or digit.
pub open spec fn is_code_char(c: char) -> bool {
    'a' <= c <= 'z' || 'A' <= c <= 'Z' || '0' <= c <= '9'
}

/// `rand::Rng::sample` of `rand::distr::Alphanumeric` with the generator of
/// the thread: an ASCII letter or digit, chosen at random.
#[verifier::external_body]
fn random_alphanumeric() -> (c: char)
    ensures
        is_code_char(c),
{
    let byte: u8 = rand::Rng::sample(&mut rand::rng(), rand::distr::Alphanumeric);
    char::from(byte)
}

/// Random code that marks the end of a reply.
pub fn generate_code() -> (code: String)
    ensures
        code@.len() == CODE_LEN,
        forall|i: int| 0 <= i < code@.len() ==> is_code_char(#[trigger] code@[i]),
{
    let mut code = String::new();
    let mut i: usize = 0;
    while i < CODE_LEN
        invariant
            i <= CODE_LEN,
            code@.len() == i,
            forall|i: int| 0 <= i < code@.len() ==> is_code_char(#[trigger] code@[i]),
        decreases CODE_LEN - i,
    {
        code.push(random_alphanumeric());
        i = i + 1;
    }
    code
}

/// Line typed on the serial to run `command`: the shell prints the return
/// code, a dash and `code` when it has ended.
pub open spec fn typed_line(command: Seq<char>, code: Seq<char>) -> Seq<char> {
    let mark = "echo $?-"@ + code + "\n"@;
    if text::trimmed_end(command).len() == 0 {
        mark
    } else {
        command + ";"@ + mark
    }
}

/// Line typed on the serial to run a command.
pub fn exec_line(command: &str, code: &str) -> (r: String)
    ensures
        r@ == typed_line(command@, code@),
{
    let mark = text::cat3("echo $?-", code, "\n");
    if text::trim_end(command).as_str().is_empty() {
        mark
    } else {
        text::cat3(command, ";", mark.as_str())
    }
}

/// A step of the login.
#[derive(Debug)]
pub enum LoginStep {
    /// Wait for a message on the serial; `shown` tells whether the output
    /// goes to the user.
    Wait {
        /// Message to wait for.
        message: String,
        /// Whether the output goes to the user.
        shown: bool,
    },
    /// Type a line.
    Type(String),
    /// Let the guest settle.
    Settle,
    /// Run a command; a return code other than zero is this error.
    Run {
        /// Command to run.
        command: String,
        /// Message of the error.
        refusal: String,
    },
}

/// What a step of the login does.
pub enum LoginView {
    /// Wait for a message.
    Wait {
        /// Message to wait for.
        message: Seq<char>,
        /// Whether the output goes to the user.
        shown: bool,
    },
    /// Type a line.
    Type(Seq<char>),
    /// Let the guest settle.
    Settle,
    /// Run a command that has to succeed.
    Run {
        /// Command to run.
        command: Seq<char>,
        /// Message of the error.
        refusal: Seq<char>,
    },
}

impl View for LoginStep {
    type V = LoginView;

    open spec fn view(&self) -> LoginView {
        match *self {
            LoginStep::Wait { message, shown } => LoginView::Wait { message: message@, shown },
            LoginStep::Type(line) => LoginView::Type(line@),
            LoginStep::Settle => LoginView::Settle,
            LoginStep::Run { command, refusal } => LoginView::Run {
                command: command@,
                refusal: refusal@,
            },
        }
    }
}

/// Views of steps.
pub open spec fn login_views(v: Seq<LoginStep>) -> Seq<LoginView> {
    v.map_values(|s: LoginStep| s@)
}

/// Steps that name the user, and the password where there is one.
pub open spec fn user_script(c: QemuConfigView) -> Seq<LoginView> {
    match c.user {
        None => Seq::empty(),
        Some(user) => seq![
            LoginView::Wait { message: "login:"@, shown: true },
            LoginView::Type(user + "\n"@),
        ] + match c.password {
            None => Seq::empty(),
            Some(password) => seq![
                LoginView::Wait { message: "Password:"@, shown: true },
                LoginView::Type(password + "\n"@),
            ],
        } + seq![LoginView::Settle],
    }
}

/// Steps that prepare the console.
pub open spec fn console_script(c: QemuConfigView) -> Seq<LoginView> {
    seq![
        LoginView::Wait { message: c.prompt, shown: true },
        LoginView::Settle,
        LoginView::Type("stty -echo; stty cols 1024\n"@),
        LoginView::Wait { message: c.prompt, shown: false },
        LoginView::Type("dmesg -D\n"@),
        LoginView::Wait { message: c.prompt, shown: false },
        LoginView::Run { command: "export PS1=''"@, refusal: "Can't setup prompt string"@ },
    ]
}

/// Steps that mount the shared directory, where there is one.
pub open spec fn mount_script(c: QemuConfigView) -> Seq<LoginView> {
    match c.virtfs {
        None => Seq::empty(),
        Some(_) => seq![
            LoginView::Run {
                command: "mount -t 9p -o trans=virtio host0 /mnt"@,
                refusal: "Failed to mount virtfs"@,
            },
        ],
    }
}

/// The whole login.
pub open spec fn login_script(c: QemuConfigView) -> Seq<LoginView> {
    user_script(c) + console_script(c) + mount_script(c)
}

fn wait_step(message: &str, shown: bool) -> (s: LoginStep)
    ensures
        s@ == (LoginView::Wait { message: message@, shown }),
{
    LoginStep::Wait { message: message.to_owned(), shown }
}

fn run_step(command: &str, refusal: &str) -> (s: LoginStep)
    ensures
        s@ == (LoginView::Run { command: command@, refusal: refusal@ }),
{
    LoginStep::Run { command: command.to_owned(), refusal: refusal.to_owned() }
}

/// Steps of the login with a configuration.
pub fn login_steps(c: &QemuConfig) -> (v: Vec<LoginStep>)
    ensures
        login_views(v@) == login_script(c@),
{
    let mut v: Vec<LoginStep> = Vec::new();
    match &c.user {
        None => {},
        Some(user) => {
            v.push(wait_step("login:", true));
            v.push(LoginStep::Type(text::cat2(user.as_str(), "\n")));
            match &c.password {
                None => {},
                Some(password) => {
                    v.push(wait_step("Password:", true));
                    v.push(LoginStep::Type(text::cat2(password.as_str(), "\n")));
                },
            }
            v.push(LoginStep::Settle);
        },
    }
    assert(login_views(v@) =~= user_script(c@));
    v.push(wait_step(c.prompt.as_str(), true));
    v.push(LoginStep::Settle);
    v.push(LoginStep::Type(text::owned("stty -echo; stty cols 1024\n")));
    v.push(wait_step(c.prompt.as_str(), false));
    v.push(LoginStep::Type(text::owned("dmesg -D\n")));
    v.push(wait_step(c.prompt.as_str(), false));
    v.push(run_step("export PS1=''", "Can't setup prompt string"));
    assert(login_views(v@) =~= user_script(c@) + console_script(c@));
    match &c.virtfs {
        None => {},
        Some(_) => {
            v.push(run_step("mount -t 9p -o trans=virtio host0 /mnt", "Failed to mount virtfs"));
        },
    }
    assert(login_views(v@) =~= login_script(c@));
    v
}

/// Whether a command of the login succeeded.
pub fn login_outcome(refusal: &str, retcode: i32) -> (r: Result<(), KirkError>)
    ensures
        match r {
            Ok(_) => retcode == 0,
            Err(e) => retcode != 0 && e@ == ErrorView::Communication(refusal@),
        },
{
    if retcode != 0 {
        return Err(communication(refusal));
    }
    Ok(())
}

/// A command that prepares the shell for another one.
#[derive(Debug)]
pub struct SetupStep {
    /// Command to run.
    pub command: String,
    /// Start of the message where it fails; the output follows.
    pub refusal: String,
}

/// The command of the step with the number `i` that prepares the shell, and
/// the start of the message where it fails: the change of directory, then one
/// export for each variable, in the order of their names. `None` where there
/// is no such step; an error where the name of the variable is invalid.
pub open spec fn setup_script(
    cwd: Option<Seq<char>>,
    env: Seq<EntryView>,
    i: int,
) -> Option<Result<(Seq<char>, Seq<char>), ErrorView>> {
    let first: int = if cwd is Some {
        1
    } else {
        0
    };
    if i < first {
        Some(
            Ok(
                (
                    "cd -- "@ + words::single_quoted(cwd->0),
                    "Can't setup current working directory: "@,
                ),
            ),
        )
    } else if i - first < env.len() {
        let (key, value) = env[i - first];
        if words::is_variable_name(key) {
            Some(
                Ok(
                    (
                        "export "@ + key + "="@ + words::single_quoted(value),
                        "Can't setup env "@ + key + "="@ + value + ": "@,
                    ),
                ),
            )
        } else {
            Some(Err(expect::env_key_error(key)))
        }
    } else {
        None
    }
}

/// Variables of an optional environment, sorted.
pub open spec fn env_list(env: Option<&TextMap>) -> Seq<EntryView> {
    match env {
        Some(env) => env.list(),
        None => Seq::empty(),
    }
}

fn export_step(key: &str, value: &str) -> (r: Result<SetupStep, KirkError>)
    ensures
        if words::is_variable_name(key@) {
            &&& r matches Ok(s)
            &&& s.command@ == "export "@ + key@ + "="@ + words::single_quoted(value@)
            &&& s.refusal@ == "Can't setup env "@ + key@ + "="@ + value@ + ": "@
        } else {
            r matches Err(e) && e@ == expect::env_key_error(key@)
        },
{
    match expect::validate_env_key(key) {
        Err(e) => Err(e),
        Ok(_) => {
            let quoted = expect::shell_quote(value);
            Ok(
                SetupStep {
                    command: text::cat4("export ", key, "=", quoted.as_str()),
                    refusal: text::cat5("Can't setup env ", key, "=", value, ": "),
                },
            )
        },
    }
}

/// The step with the number `i` that prepares the shell.
pub fn setup_step(cwd: Option<&str>, env: Option<&TextMap>, i: usize) -> (r: Option<
    Result<SetupStep, KirkError>,
>)
    ensures
        match setup_script(text::opt_str(cwd), env_list(env), i as int) {
            None => r is None,
            Some(Err(x)) => r matches Some(Err(e)) && e@ == x,
            Some(Ok((command, refusal))) => {
                &&& r matches Some(Ok(s))
                &&& s.command@ == command
                &&& s.refusal@ == refusal
            },
        },
{
    let mut at: usize = i;
    match cwd {
        Some(cwd) => {
            if i == 0 {
                let quoted = expect::shell_quote(cwd);
                return Some(
                    Ok(
                        SetupStep {
                            command: text::cat2("cd -- ", quoted.as_str()),
                            refusal: text::owned("Can't setup current working directory: "),
                        },
                    ),
                );
            }
            at = i - 1;
        },
        None => {},
    }
    match env {
        None => None,
        Some(env) => {
            if at < env.len() {
                Some(export_step(env.key_at(at), env.value_at(at)))
            } else {
                None
            }
        },
    }
}

impl SetupStep {
    /// Whether the step succeeded.
    pub fn outcome(&self, stdout: &str, retcode: i32) -> (r: Result<(), KirkError>)
        ensures
            match r {
                Ok(_) => retcode == 0,
                Err(e) => retcode != 0 && e@ == ErrorView::Communication(self.refusal@ + stdout@),
            },
    {
        if retcode != 0 {
            return Err(KirkError::Communication(text::cat2(self.refusal.as_str(), stdout)));
        }
        Ok(())
    }
}

/// Check the number of transport bytes to read, given the size of the
/// transport file and where the last read ended.
pub fn check_transport_size(size: u64, pos: u64) -> (r: Result<(), KirkError>)
    ensures
        match r {
            Ok(_) => size - pos <= MAX_TRANSPORT_BYTES,
            Err(e) => size - pos > MAX_TRANSPORT_BYTES && e@ == transport_error(),
        },
{
    if size > pos && size - pos > MAX_TRANSPORT_BYTES {
        return Err(communication("Transport file exceeds size cap"));
    }
    Ok(())
}

/// Error for a transport file that grew too large.
pub open spec fn transport_error() -> ErrorView {
    ErrorView::Communication("Transport file exceeds size cap"@)
}

/// Where a read of `len` transport bytes from `pos` on ends.
pub fn transport_end(pos: u64, len: u64) -> (r: Result<u64, KirkError>)
    requires
        pos + len <= u64::MAX,
    ensures
        match r {
            Ok(end) => len <= MAX_TRANSPORT_BYTES && end == pos + len,
            Err(e) => len > MAX_TRANSPORT_BYTES && e@ == transport_error(),
        },
{
    if len > MAX_TRANSPORT_BYTES {
        return Err(communication("Transport file exceeds size cap"));
    }
    Ok(pos + len)
}

/// How far a shutdown has come.
#[derive(Debug, Clone, Copy, PartialEq, Eq, Structural)]
pub enum StopStage {
    /// It was asked for.
    Asked,
    /// The running command is interrupted.
    Interrupt,
    /// The guest is powered off.
    PowerOff,
    /// The virtual machine is killed.
    Kill,
    /// Nothing is left to do.
    Finished,
}

impl StopStage {
    /// What is typed on the serial at this stage.
    pub fn typed(self) -> (r: Option<&'static str>)
        ensures
            text::opt_str(r) == (match self {
                StopStage::Interrupt => Some("\x03"@),
                StopStage::PowerOff => Some("poweroff; poweroff -f\n"@),
                _ => None,
            }),
    {
        match self {
            StopStage::Interrupt => Some("\x03"),
            StopStage::PowerOff => Some("poweroff; poweroff -f\n"),
            _ => None,
        }
    }
}

/// QEMU communication channel.
#[derive(Debug)]
pub struct QemuChannel {
    name: String,
    config: Option<QemuConfig>,
    running: bool,
    stopping: bool,
    panicked: bool,
    logged_in: bool,
    last_read: String,
    last_pos: u64,
}

/// What a channel holds.
#[verifier::ext_equal]
pub struct QemuView {
    /// Name of the channel.
    pub name: Seq<char>,
    /// Configuration, once set up.
    pub config: Option<QemuConfigView>,
    /// Whether the virtual machine was last seen running.
    pub running: bool,
    /// Whether a shutdown is in progress.
    pub stopping: bool,
    /// Whether the last wait saw a kernel panic.
    pub panicked: bool,
    /// Whether the login has succeeded.
    pub logged_in: bool,
    /// Serial text that no wait has used yet.
    pub last_read: Seq<char>,
    /// Where the last read of the transport file ended.
    pub last_pos: u64,
}

/// A channel that has not been started.
pub open spec fn idle(name: Seq<char>, config: Option<QemuConfigView>) -> QemuView {
    QemuView {
        name,
        config,
        running: false,
        stopping: false,
        panicked: false,
        logged_in: false,
        last_read: Seq::empty(),
        last_pos: 0,
    }
}

/// View of an optional configuration.
pub open spec fn opt_config(c: Option<QemuConfig>) -> Option<QemuConfigView> {
    match c {
        Some(c) => Some(c@),
        None => None,
    }
}

impl View for QemuChannel {
    type V = QemuView;

    closed spec fn view(&self) -> QemuView {
        QemuView {
            name: self.name@,
            config: opt_config(self.config),
            running: self.running,
            stopping: self.stopping,
            panicked: self.panicked,
            logged_in: self.logged_in,
            last_read: self.last_read@,
            last_pos: self.last_pos,
        }
    }
}

impl Default for QemuChannel {
    fn default() -> (r: Self)
        ensures
            r@ == idle("qemu"@, None),
    {
        QemuChannel::new()
    }
}

/// Help on each configuration option.
pub open spec fn option_help() -> Map<Seq<char>, Seq<char>> {
    map![
        "image"@ => "qemu image location"@,
        "kernel"@ => "kernel image location"@,
        "initrd"@ => "initrd image location"@,
        "user"@ => "user name (default: '')"@,
        "password"@ => "user password (default: '')"@,
        "prompt"@ => "prompt string (default: '#')"@,
        "system"@ => "system architecture (default: x86_64)"@,
        "ram"@ => "RAM of the VM (default: 2G)"@,
        "smp"@ => "number of CPUs (default: 2)"@,
        "serial"@ => "type of serial protocol. isa|virtio (default: isa)"@,
        "virtfs"@ => "directory to mount inside VM"@,
        "options"@ => "user defined options"@,
    ]
}

impl Plugin for QemuChannel {
    open spec fn plugin_name(&self) -> Seq<char> {
        self@.name
    }

    fn name(&self) -> &str {
        self.name.as_str()
    }

    fn config_help(&self) -> (r: TextMap)
        ensures
            r@ == option_help(),
    {
        let mut help = TextMap::new();
        help.insert("image", "qemu image location");
        help.insert("kernel", "kernel image location");
        help.insert("initrd", "initrd image location");
        help.insert("user", "user name (default: '')");
        help.insert("password", "user password (default: '')");
        help.insert("prompt", "prompt string (default: '#')");
        help.insert("system", "system architecture (default: x86_64)");
        help.insert("ram", "RAM of the VM (default: 2G)");
        help.insert("smp", "number of CPUs (default: 2)");
        help.insert("serial", "type of serial protocol. isa|virtio (default: isa)");
        help.insert("virtfs", "directory to mount inside VM");
        help.insert("options", "user defined options");
        help
    }

    fn renamed(&self, name: &str) -> (r: Self)
        ensures
            r@ == idle(name@, self@.config),
    {
        let config = match &self.config {
            Some(c) => Some(c.clone()),
            None => None,
        };
        QemuChannel {
            name: name.to_owned(),
            config,
            running: false,
            stopping: false,
            panicked: false,
            logged_in: false,
            last_read: String::new(),
            last_pos: 0,
        }
    }
}

impl ComChannel for QemuChannel {
    open spec fn is_parallel(&self) -> bool {
        false
    }

    open spec fn is_communicating(&self) -> bool {
        self@.running
    }

    fn parallel_execution(&self) -> bool {
        false
    }

    fn active(&self) -> bool {
        self.running
    }

    fn concurrent_handle(&self) -> Option<ChannelHandle> {
        None
    }
}

/// The stage that follows `stage` in a shutdown, given whether a command or a
/// fetch is in flight. After a kernel panic nothing is typed any more.
pub open spec fn stop_after(c: QemuView, stage: StopStage, busy: bool) -> StopStage {
    match stage {
        StopStage::Asked => if !c.running {
            StopStage::Finished
        } else if !c.panicked && busy {
            StopStage::Interrupt
        } else if !c.panicked && c.logged_in {
            StopStage::PowerOff
        } else {
            StopStage::Kill
        },
        StopStage::Interrupt => if c.logged_in {
            StopStage::PowerOff
        } else if c.running {
            StopStage::Kill
        } else {
            StopStage::Finished
        },
        StopStage::PowerOff => if c.running {
            StopStage::Kill
        } else {
            StopStage::Finished
        },
        _ => StopStage::Finished,
    }
}

/// Stages that can still follow.
pub open spec fn stop_rank(stage: StopStage) -> nat {
    match stage {
        StopStage::Asked => 4,
        StopStage::Interrupt => 3,
        StopStage::PowerOff => 2,
        StopStage::Kill => 1,
        StopStage::Finished => 0,
    }
}

/// A shutdown ends: each stage leads closer to its end, and before a machine
/// that still runs is given up, it is killed.
pub proof fn stop_ends(c: QemuView, stage: StopStage, busy: bool)
    requires
        stage != StopStage::Finished,
    ensures
        stop_rank(stop_after(c, stage, busy)) < stop_rank(stage),
        c.running && stop_after(c, stage, busy) == StopStage::Finished ==> stage
            == StopStage::Kill,
{
}

impl QemuChannel {
    /// Build an unconfigured channel named `qemu`.
    pub fn new() -> (r: Self)
        ensures
            r@ == idle("qemu"@, None),
    {
        QemuChannel {
            name: text::owned("qemu"),
            config: None,
            running: false,
            stopping: false,
            panicked: false,
            logged_in: false,
            last_read: String::new(),
            last_pos: 0,
        }
    }

    /// Set up the channel, given what the host has at the configured paths. A
    /// refused configuration changes nothing.
    pub fn setup(&mut self, cfg: &TextMap, host: HostPaths) -> (r: Result<(), KirkError>)
        ensures
            match config::config_of(cfg@, host) {
                Ok(c) => r is Ok && final(self)@ == (QemuView { config: Some(c), ..old(self)@ }),
                Err(x) => {
                    &&& r matches Err(e)
                    &&& e@ == x
                    &&& final(self)@ == old(self)@
                },
            },
    {
        match QemuConfig::from_map(cfg, host) {
            Ok(c) => {
                self.config = Some(c);
                Ok(())
            },
            Err(e) => Err(e),
        }
    }

    /// The configuration.
    pub fn configured(&self) -> (r: Result<&QemuConfig, KirkError>)
        ensures
            match self@.config {
                Some(c) => r matches Ok(v) && v@ == c,
                None => r matches Err(e) && e@ == ErrorView::Communication(
                    "QEMU channel is not configured"@,
                ),
            },
    {
        match &self.config {
            Some(c) => Ok(c),
            None => Err(communication("QEMU channel is not configured")),
        }
    }

    /// Note whether the virtual machine runs.
    pub fn observe(&mut self, running: bool)
        ensures
            final(self)@ == (QemuView { running, ..old(self)@ }),
    {
        self.running = running;
    }

    /// Start to communicate: gives the program to spawn and its arguments.
    pub fn communicate(&mut self, pid: u32) -> (r: Result<(String, Vec<String>), KirkError>)
        ensures
            match old(self)@.config {
                None => {
                    &&& r matches Err(e)
                    &&& e@ == ErrorView::Communication("QEMU channel is not configured"@)
                    &&& final(self)@ == old(self)@
                },
                Some(c) => if old(self)@.running {
                    &&& r matches Err(e)
                    &&& e@ == ErrorView::Communication("Virtual machine is already running"@)
                    &&& final(self)@ == old(self)@
                } else {
                    &&& final(self)@ == idle(old(self)@.name, old(self)@.config)
                    &&& match config::guest_args(c, pid) {
                        Ok(args) => {
                            &&& r matches Ok((program, v))
                            &&& program@ == "qemu-system-"@ + c.system
                            &&& text::texts(v@) == args
                        },
                        Err(x) => r matches Err(e) && e@ == x,
                    }
                },
            },
    {
        match &self.config {
            None => Err(communication("QEMU channel is not configured")),
            Some(c) => {
                if self.running {
                    return Err(communication("Virtual machine is already running"));
                }
                let argv = c.build_argv(pid);
                self.logged_in = false;
                self.panicked = false;
                self.stopping = false;
                self.last_read = String::new();
                self.last_pos = 0;
                argv
            },
        }
    }

    /// Error of a virtual machine that could not be spawned.
    pub fn spawn_error(program: &str, not_found: bool, reason: &str) -> (e: KirkError)
        ensures
            e@ == ErrorView::Communication(
                if not_found {
                    "Command not found: "@ + program@
                } else {
                    reason@
                },
            ),
    {
        if not_found {
            KirkError::Communication(text::cat2("Command not found: ", program))
        } else {
            communication(reason)
        }
    }

    /// Note how the login ended. Tells whether the machine has to be stopped:
    /// after a communication error, unless a shutdown is in progress.
    pub fn logged_in(&mut self, outcome: &Result<(), KirkError>) -> (stop: bool)
        ensures
            stop == (!old(self)@.stopping && (match *outcome {
                Ok(_) => false,
                Err(e) => e@ is Communication,
            })),
            final(self)@ == (QemuView {
                logged_in: old(self)@.logged_in || *outcome is Ok,
                ..old(self)@
            }),
    {
        match outcome {
            Ok(_) => {
                self.logged_in = true;
                false
            },
            Err(KirkError::Communication(_)) => !self.stopping,
            Err(_) => false,
        }
    }

    /// Whether a stop is under way.
    pub fn stopping(&self) -> (r: bool)
        ensures
            r == self@.stopping,
    {
        self.stopping
    }

    /// Take the serial text that no wait has used yet, to start another wait.
    pub fn begin_wait(&mut self) -> (state: ExpectState)
        ensures
            state.pending@ == old(self)@.last_read,
            !state.panicked,
            final(self)@ == (QemuView { last_read: Seq::empty(), ..old(self)@ }),
    {
        let mut pending = String::new();
        std::mem::swap(&mut pending, &mut self.last_read);
        ExpectState { pending, panicked: false }
    }

    /// Keep what a wait left over.
    pub fn end_wait(&mut self, state: ExpectState)
        ensures
            final(self)@ == (QemuView {
                last_read: state.pending@,
                panicked: state.panicked,
                ..old(self)@
            }),
    {
        self.last_read = state.pending;
        self.panicked = state.panicked;
    }

    /// What a failed write to the serial comes to: a pipe that breaks during
    /// a shutdown is no failure.
    pub fn write_failed(&self, broken_pipe: bool, reason: &str) -> (r: Result<(), KirkError>)
        ensures
            match r {
                Ok(_) => broken_pipe && self@.stopping,
                Err(e) => !(broken_pipe && self@.stopping) && e@ == ErrorView::Communication(
                    reason@,
                ),
            },
    {
        if broken_pipe && self.stopping {
            Ok(())
        } else {
            Err(communication(reason))
        }
    }

    /// What the reply to a command comes to: its output and return code. During
    /// a shutdown the return code is not read.
    pub fn exec_outcome(&self, stdout: &str, code: &str) -> (r: Result<(String, i32), KirkError>)
        ensures
            if self@.stopping {
                expect::reply_view(r) == Ok::<(Seq<char>, int), ErrorView>((stdout@, -1))
            } else {
                expect::reads_reply(stdout@, code@, expect::reply_view(r))
            },
    {
        if self.stopping {
            return Ok((stdout.to_owned(), -1));
        }
        expect::parse_reply(stdout, code)
    }

    /// Check that the guest can be pinged; gives the command to run.
    pub fn admit_ping(&self) -> (r: Result<&'static str, KirkError>)
        ensures
            match r {
                Ok(command) => self@.running && command@ == "test ."@,
                Err(e) => !self@.running && e@ == ErrorView::Communication("Qemu is not running"@),
            },
    {
        if !self.running {
            return Err(communication("Qemu is not running"));
        }
        Ok("test .")
    }

    /// Check that a command can run.
    pub fn admit_command(&self, command: &str) -> (r: Result<(), KirkError>)
        ensures
            if command@.len() == 0 {
                r matches Err(e) && e@ == ErrorView::Communication("command is empty"@)
            } else if !self@.running {
                r matches Err(e) && e@ == ErrorView::Communication(
                    "Virtual machine is not running"@,
                )
            } else {
                r is Ok
            },
    {
        if command.is_empty() {
            return Err(communication("command is empty"));
        }
        if !self.running {
            return Err(communication("Virtual machine is not running"));
        }
        Ok(())
    }

    /// Result of a command.
    pub fn command_result(command: &str, reply: (String, i32), exec_time: u64) -> (r: CmdResult)
        ensures
            r.command@ == command@,
            r.stdout@ == reply.0@,
            r.returncode == reply.1,
            r.exec_time == exec_time,
    {
        CmdResult { command: command.to_owned(), returncode: reply.1, stdout: reply.0, exec_time }
    }

    /// Check that a file can be fetched; gives the command that looks for it.
    pub fn admit_fetch(&self, target_path: &str) -> (r: Result<String, KirkError>)
        ensures
            if target_path@.len() == 0 {
                r matches Err(e) && e@ == ErrorView::Communication("target path is empty"@)
            } else if !self@.running {
                r matches Err(e) && e@ == ErrorView::Communication(
                    "Virtual machine is not running"@,
                )
            } else {
                r matches Ok(command) && command@ == "test -f "@ + words::single_quoted(
                    target_path@,
                )
            },
    {
        if target_path.is_empty() {
            return Err(communication("target path is empty"));
        }
        if !self.running {
            return Err(communication("Virtual machine is not running"));
        }
        let quoted = expect::shell_quote(target_path);
        Ok(text::cat2("test -f ", quoted.as_str()))
    }

    /// Command that sends a file to the host, and where the host finds it,
    /// given the return code of the command that looked for the file.
    pub fn send_command(&self, target_path: &str, found: i32, pid: u32) -> (r: Result<
        (String, String),
        KirkError,
    >)
        ensures
            if found != 0 {
                r matches Err(e) && e@ == ErrorView::Communication(
                    "'"@ + target_path@ + "' doesn't exist"@,
                )
            } else {
                match self@.config {
                    None => r matches Err(e) && e@ == ErrorView::Communication(
                        "QEMU channel is not configured"@,
                    ),
                    Some(c) => {
                        &&& r matches Ok((command, path))
                        &&& command@ == "cat "@ + words::single_quoted(target_path@) + " > "@
                            + config::transport_node(c.serial)
                        &&& path@ == config::transport_path(c, pid)
                    },
                }
            },
    {
        if found != 0 {
            return Err(KirkError::Communication(text::cat3("'", target_path, "' doesn't exist")));
        }
        match self.configured() {
            Err(e) => Err(e),
            Ok(c) => {
                let quoted = expect::shell_quote(target_path);
                let (dev, path) = c.transport(pid);
                Ok((text::cat4("cat ", quoted.as_str(), " > ", dev), path))
            },
        }
    }

    /// Whether the file that was sent can be read on the host, given the reply
    /// of the command that sent it. During a shutdown there is nothing to
    /// read. The return codes 1 and 9 are tolerated: the reader may be torn
    /// down with the guest.
    pub fn sent(&self, dev: &str, stdout: &str, retcode: i32) -> (r: Result<bool, KirkError>)
        ensures
            if self@.stopping {
                r == Ok::<bool, KirkError>(false)
            } else if retcode == 0 || retcode == 1 || retcode == 9 {
                r == Ok::<bool, KirkError>(true)
            } else {
                r matches Err(e) && e@ == ErrorView::Communication(
                    "Can't send file to "@ + dev@ + ": "@ + stdout@,
                )
            },
    {
        if self.stopping {
            return Ok(false);
        }
        if !(retcode == 0 || retcode == 1 || retcode == 9) {
            return Err(
                KirkError::Communication(text::cat4("Can't send file to ", dev, ": ", stdout)),
            );
        }
        Ok(true)
    }

    /// Where the last read of the transport file ended.
    pub fn last_pos(&self) -> (r: u64)
        ensures
            r == self@.last_pos,
    {
        self.last_pos
    }

    /// Note where a read of the transport file ended.
    pub fn read_until(&mut self, pos: u64)
        ensures
            final(self)@ == (QemuView { last_pos: pos, ..old(self)@ }),
    {
        self.last_pos = pos;
    }

    /// Go on with a shutdown, given whether a command or a fetch is in flight.
    pub fn stop(&mut self, stage: StopStage, busy: bool) -> (r: StopStage)
        requires
            stage != StopStage::Finished,
        ensures
            r == stop_after(old(self)@, stage, busy),
            final(self)@ == (QemuView {
                stopping: if stage == StopStage::Asked && !old(self)@.running {
                    old(self)@.stopping
                } else {
                    r != StopStage::Finished
                },
                ..old(self)@
            }),
    {
        let next = match stage {
            StopStage::Asked => {
                if !self.running {
                    return StopStage::Finished;
                }
                if !self.panicked && busy {
                    StopStage::Interrupt
                } else if !self.panicked && self.logged_in {
                    StopStage::PowerOff
                } else {
                    StopStage::Kill
                }
            },
            StopStage::Interrupt => {
                if self.logged_in {
                    StopStage::PowerOff
                } else if self.running {
                    StopStage::Kill
                } else {
                    StopStage::Finished
                }
            },
            StopStage::PowerOff => {
                if self.running {
                    StopStage::Kill
                } else {
                    StopStage::Finished
                }
            },
            _ => StopStage::Finished,
        };
        self.stopping = next != StopStage::Finished;
        next
    }
}

/// Every line that is typed asks for the return code at its end, under the
/// code of the command; a command stands in front of it, whole.
pub proof fn typed_commands_are_marked(command: Seq<char>, code: Seq<char>)
    ensures
        text::all_space(command) ==> typed_line(command, code) == "echo $?-"@ + code + "\n"@,
        !text::all_space(command) ==> typed_line(command, code) == command + ";"@ + ("echo $?-"@
            + code + "\n"@),
{
    end_of_blank(command);
}

proof fn end_of_blank(s: Seq<char>)
    ensures
        text::trimmed_end(s).len() == 0 <==> text::all_space(s),
    decreases s.len(),
{
    if s.len() > 0 {
        if text::is_space(s.last()) {
            let front = s.drop_last();
            end_of_blank(front);
            if text::all_space(front) {
                assert forall|i: int| 0 <= i < s.len() implies text::is_space(#[trigger] s[i]) by {
                    if i < front.len() {
                        assert(front[i] == s[i]);
                    }
                }
            }
            if text::all_space(s) {
                assert forall|i: int| 0 <= i < front.len() implies text::is_space(
                    #[trigger] front[i],
                ) by {
                    assert(front[i] == s[i]);
                }
            }
        } else {
            assert(!text::is_space(s[s.len() - 1]));
        }
    }
}

/// The login names the user where one is given, and gives the password only
/// when it is asked for; then it waits for the prompt, and at the end mounts
/// the shared directory where there is one.
pub proof fn logins_go_step_by_step(c: QemuConfigView)
    ensures
        ({
            let s = login_script(c);
            let user: int = if c.user is Some {
                3
            } else {
                0
            };
            let password: int = if c.user is Some && c.password is Some {
                2
            } else {
                0
            };
            let at = user + password;
            &&& c.user is Some ==> {
                &&& s[0] == (LoginView::Wait { message: "login:"@, shown: true })
                &&& s[1] == LoginView::Type(c.user->0 + "\n"@)
                &&& s[at - 1] == LoginView::Settle
            }
            &&& c.user is Some && c.password is Some ==> {
                &&& s[2] == (LoginView::Wait { message: "Password:"@, shown: true })
                &&& s[3] == LoginView::Type(c.password->0 + "\n"@)
            }
            &&& s[at] == (LoginView::Wait { message: c.prompt, shown: true })
            &&& s[at + 2] == LoginView::Type("stty -echo; stty cols 1024\n"@)
            &&& s[at + 3] == (LoginView::Wait { message: c.prompt, shown: false })
            &&& s[at + 4] == LoginView::Type("dmesg -D\n"@)
            &&& s[at + 5] == (LoginView::Wait { message: c.prompt, shown: false })
            &&& s[at + 6] == (LoginView::Run {
                command: "export PS1=''"@,
                refusal: "Can't setup prompt string"@,
            })
            &&& c.virtfs is Some ==> s[at + 7] == (LoginView::Run {
                command: "mount -t 9p -o trans=virtio host0 /mnt"@,
                refusal: "Failed to mount virtfs"@,
            })
            &&& s.len() == at + 7 + (if c.virtfs is Some {
                1int
            } else {
                0
            })
        }),
{
}

/// The directory of a command is entered before any variable is set, and the
/// variables are set one after the other; a bad name stops at its place.
pub proof fn setups_go_step_by_step(
    dir: Seq<char>,
    key: Seq<char>,
    value: Seq<char>,
    env: Seq<EntryView>,
    i: int,
)
    requires
        0 <= i,
    ensures
        setup_script(Some(dir), env, 0) == Some(
            Ok::<(Seq<char>, Seq<char>), ErrorView>(
                (
                    "cd -- "@ + words::single_quoted(dir),
                    "Can't setup current working directory: "@,
                ),
            ),
        ),
        setup_script(Some(dir), env, i + 1) == setup_script(None, env, i),
        setup_script(None, seq![(key, value)] + env, i + 1) == setup_script(None, env, i),
        words::is_variable_name(key) ==> setup_script(None, seq![(key, value)] + env, 0) == Some(
            Ok::<(Seq<char>, Seq<char>), ErrorView>(
                (
                    "export "@ + key + "="@ + words::single_quoted(value),
                    "Can't setup env "@ + key + "="@ + value + ": "@,
                ),
            ),
        ),
        !words::is_variable_name(key) ==> (setup_script(None, seq![(key, value)] + env, 0) matches Some(
            r,
        ) && r is Err),
        setup_script(None, Seq::empty(), i) is None,
{
    let all = seq![(key, value)] + env;
    assert(all[0] == (key, value));
    if i < env.len() {
        assert(all[i + 1] == env[i]);
    }
}

/// A machine that does not run needs no shutdown. One that does is first
/// interrupted where something is in flight, powered off where someone is
/// logged in, and killed at last; after a kernel panic it is killed at once.
pub proof fn shutdowns_are_gentle_first(c: QemuView, busy: bool)
    ensures
        !c.running ==> stop_after(c, StopStage::Asked, busy) == StopStage::Finished,
        c.running && c.panicked ==> stop_after(c, StopStage::Asked, busy) == StopStage::Kill,
        c.running && !c.panicked && busy ==> stop_after(c, StopStage::Asked, busy)
            == StopStage::Interrupt,
        c.running && !c.panicked && !busy && c.logged_in ==> stop_after(c, StopStage::Asked, busy)
            == StopStage::PowerOff,
        c.logged_in ==> stop_after(c, StopStage::Interrupt, busy) == StopStage::PowerOff,
        c.running ==> stop_after(c, StopStage::PowerOff, busy) == StopStage::Kill,
        !c.running ==> stop_after(c, StopStage::PowerOff, busy) == StopStage::Finished,
        stop_after(c, StopStage::Kill, busy) == StopStage::Finished,
{
}

} // verus!
