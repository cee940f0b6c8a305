//! Validated QEMU channel configuration.
//!
//! The guest is always spawned as a program with arguments; this module
//! builds them and never joins them into a shell string.

use crate::errors::ErrorView;
use crate::errors::KirkError;
use crate::qemu::expect;
use crate::text;
use crate::textmap::TextMap;
use vstd::prelude::*;
use vstd::string::*;

verus! {

/// Serial transport type (the `serial` option).
#[derive(Debug, Clone, Copy, PartialEq, Eq, Structural)]
pub enum SerialType {
    /// ISA serial transport (`/dev/ttyS1`).
    Isa,
    /// `VirtIO` serial transport (`/dev/vport1p1`).
    Virtio,
}

impl Default for SerialType {
    fn default() -> (r: Self)
        ensures
            r == SerialType::Isa,
    {
        SerialType::Isa
    }
}

/// Option spelling of a serial type.
pub open spec fn serial_name(t: SerialType) -> Seq<char> {
    match t {
        SerialType::Isa => "isa"@,
        SerialType::Virtio => "virtio"@,
    }
}

/// Serial type that a text names, or the error it gives.
pub open spec fn serial_of(value: Seq<char>) -> Result<SerialType, ErrorView> {
    if value == "isa"@ {
        Ok(SerialType::Isa)
    } else if value == "virtio"@ {
        Ok(SerialType::Virtio)
    } else {
        Err(
            ErrorView::Communication(
                "Serial protocol must be isa or virtio, got '"@ + value + "'"@,
            ),
        )
    }
}

/// Guest device node used for file transport.
pub open spec fn transport_node(t: SerialType) -> Seq<char> {
    match t {
        SerialType::Isa => "/dev/ttyS1"@,
        SerialType::Virtio => "/dev/vport1p1"@,
    }
}

/// Guest console name.
pub open spec fn console_name(t: SerialType) -> Seq<char> {
    match t {
        SerialType::Isa => "ttyS0"@,
        SerialType::Virtio => "hvc0"@,
    }
}

impl SerialType {
    /// Parse the `serial` option value.
    pub fn parse(value: &str) -> (r: Result<Self, KirkError>)
        ensures
            match serial_of(value@) {
                Ok(t) => r == Ok::<SerialType, KirkError>(t),
                Err(x) => r matches Err(e) && e@ == x,
            },
    {
        if text::same(value, "isa") {
            Ok(SerialType::Isa)
        } else if text::same(value, "virtio") {
            Ok(SerialType::Virtio)
        } else {
            Err(
                KirkError::Communication(
                    text::cat3("Serial protocol must be isa or virtio, got '", value, "'"),
                ),
            )
        }
    }

    /// Option spelling.
    pub fn as_str(self) -> (r: &'static str)
        ensures
            r@ == serial_name(self),
    {
        match self {
            SerialType::Isa => "isa",
            SerialType::Virtio => "virtio",
        }
    }

    /// Guest device node used for file transport.
    pub fn transport_dev(self) -> (r: &'static str)
        ensures
            r@ == transport_node(self),
    {
        match self {
            SerialType::Isa => "/dev/ttyS1",
            SerialType::Virtio => "/dev/vport1p1",
        }
    }

    /// Guest console name.
    pub fn console(self) -> (r: &'static str)
        ensures
            r@ == console_name(self),
    {
        match self {
            SerialType::Isa => "ttyS0",
            SerialType::Virtio => "hvc0",
        }
    }
}

/// The spelling of a serial type is read back as that type.
pub proof fn serial_round_trip(t: SerialType)
    ensures
        serial_of(serial_name(t)) == Ok::<SerialType, ErrorView>(t),
{
    reveal_strlit("isa");
    reveal_strlit("virtio");
    assert("isa"@.len() != "virtio"@.len());
}

/// Validated QEMU channel configuration.
#[derive(Debug, PartialEq, Eq)]
pub struct QemuConfig {
    /// Host directory for `ttyS0` logs and transport files.
    pub tmpdir: String,
    /// Guest disk image.
    pub image: Option<String>,
    /// Guest kernel image.
    pub kernel: Option<String>,
    /// Guest initrd image.
    pub initrd: Option<String>,
    /// Login user (no login step when `None`).
    pub user: Option<String>,
    /// Login password.
    pub password: Option<String>,
    /// Shell prompt to expect after login.
    pub prompt: String,
    /// Guest architecture (`qemu-system-<system>`).
    pub system: String,
    /// Guest RAM (e.g. `2G`).
    pub ram: String,
    /// Guest CPU count.
    pub smp: String,
    /// Serial transport type.
    pub serial: SerialType,
    /// Host directory shared via `virtfs`.
    pub virtfs: Option<String>,
    /// Extra user-defined QEMU options, split into words.
    pub options: Option<String>,
}

/// What a configuration says.
#[verifier::ext_equal]
pub struct QemuConfigView {
    /// Host directory for logs and transport files.
    pub tmpdir: Seq<char>,
    /// Guest disk image.
    pub image: Option<Seq<char>>,
    /// Guest kernel image.
    pub kernel: Option<Seq<char>>,
    /// Guest initrd image.
    pub initrd: Option<Seq<char>>,
    /// Login user.
    pub user: Option<Seq<char>>,
    /// Login password.
    pub password: Option<Seq<char>>,
    /// Shell prompt.
    pub prompt: Seq<char>,
    /// Guest architecture.
    pub system: Seq<char>,
    /// Guest RAM.
    pub ram: Seq<char>,
    /// Guest CPU count.
    pub smp: Seq<char>,
    /// Serial transport type.
    pub serial: SerialType,
    /// Shared host directory.
    pub virtfs: Option<Seq<char>>,
    /// Extra options.
    pub options: Option<Seq<char>>,
}

impl View for QemuConfig {
    type V = QemuConfigView;

    open spec fn view(&self) -> QemuConfigView {
        QemuConfigView {
            tmpdir: self.tmpdir@,
            image: text::opt_text(self.image),
            kernel: text::opt_text(self.kernel),
            initrd: text::opt_text(self.initrd),
            user: text::opt_text(self.user),
            password: text::opt_text(self.password),
            prompt: self.prompt@,
            system: self.system@,
            ram: self.ram@,
            smp: self.smp@,
            serial: self.serial,
            virtfs: text::opt_text(self.virtfs),
            options: text::opt_text(self.options),
        }
    }
}

impl Clone for QemuConfig {
    fn clone(&self) -> (r: Self)
        ensures
            r@ == self@,
    {
        QemuConfig {
            tmpdir: self.tmpdir.clone(),
            image: text::copy_opt(&self.image),
            kernel: text::copy_opt(&self.kernel),
            initrd: text::copy_opt(&self.initrd),
            user: text::copy_opt(&self.user),
            password: text::copy_opt(&self.password),
            prompt: self.prompt.clone(),
            system: self.system.clone(),
            ram: self.ram.clone(),
            smp: self.smp.clone(),
            serial: self.serial,
            virtfs: text::copy_opt(&self.virtfs),
            options: text::copy_opt(&self.options),
        }
    }
}

/// What the host has at the configured paths.
#[derive(Debug, Clone, Copy, PartialEq, Eq, Structural)]
pub struct HostPaths {
    /// Whether `tmpdir` is a directory.
    pub tmpdir_is_dir: bool,
    /// Whether `image` is a file.
    pub image_is_file: bool,
    /// Whether `kernel` is a file.
    pub kernel_is_file: bool,
    /// Whether `initrd` is a file.
    pub initrd_is_file: bool,
    /// Whether `virtfs` is a directory.
    pub virtfs_is_dir: bool,
}

/// Value of an option, or the default.
pub open spec fn given_or(
    cfg: Map<Seq<char>, Seq<char>>,
    key: Seq<char>,
    default: Seq<char>,
) -> Seq<char> {
    if cfg.dom().contains(key) {
        cfg[key]
    } else {
        default
    }
}

/// Value of an option that is given and not empty.
pub open spec fn given_text(cfg: Map<Seq<char>, Seq<char>>, key: Seq<char>) -> Option<Seq<char>> {
    if cfg.dom().contains(key) && cfg[key].len() > 0 {
        Some(cfg[key])
    } else {
        None
    }
}

/// Configuration that the options give, before it is checked.
pub open spec fn read_config(
    cfg: Map<Seq<char>, Seq<char>>,
    serial: SerialType,
) -> QemuConfigView {
    QemuConfigView {
        tmpdir: given_or(cfg, "tmpdir"@, Seq::empty()),
        image: given_text(cfg, "image"@),
        kernel: given_text(cfg, "kernel"@),
        initrd: given_text(cfg, "initrd"@),
        user: given_text(cfg, "user"@),
        password: given_text(cfg, "password"@),
        prompt: given_or(cfg, "prompt"@, "#"@),
        system: given_or(cfg, "system"@, "x86_64"@),
        ram: given_or(cfg, "ram"@, "2G"@),
        smp: given_or(cfg, "smp"@, "2"@),
        serial,
        virtfs: given_text(cfg, "virtfs"@),
        options: given_text(cfg, "options"@),
    }
}

/// Why a configuration is refused, if it is.
pub open spec fn config_error(c: QemuConfigView, host: HostPaths) -> Option<ErrorView> {
    if c.tmpdir.len() == 0 || !host.tmpdir_is_dir {
        Some(ErrorView::Communication("Temporary directory doesn't exist: "@ + c.tmpdir))
    } else if c.image is Some && !host.image_is_file {
        Some(ErrorView::Communication("Image location doesn't exist: "@ + c.image->0))
    } else if c.kernel is Some && !host.kernel_is_file {
        Some(ErrorView::Communication("Kernel location doesn't exist: "@ + c.kernel->0))
    } else if c.initrd is Some && !host.initrd_is_file {
        Some(ErrorView::Communication("initrd location doesn't exist: "@ + c.initrd->0))
    } else if c.ram.len() == 0 {
        Some(ErrorView::Communication("RAM is not defined"@))
    } else if c.smp.len() == 0 {
        Some(ErrorView::Communication("CPU is not defined"@))
    } else if c.virtfs is Some && !host.virtfs_is_dir {
        Some(ErrorView::Communication("Virtual FS directory doesn't exist: "@ + c.virtfs->0))
    } else {
        None
    }
}

/// Configuration that the options give, or the first error among them.
pub open spec fn config_of(cfg: Map<Seq<char>, Seq<char>>, host: HostPaths) -> Result<
    QemuConfigView,
    ErrorView,
> {
    match serial_of(given_or(cfg, "serial"@, "isa"@)) {
        Err(e) => Err(e),
        Ok(serial) => {
            let c = read_config(cfg, serial);
            match config_error(c, host) {
                Some(e) => Err(e),
                None => Ok(c),
            }
        },
    }
}

fn get_or(cfg: &TextMap, key: &str, default: &str) -> (r: String)
    ensures
        r@ == given_or(cfg@, key@, default@),
{
    match cfg.get(key) {
        Some(v) => v.to_owned(),
        None => default.to_owned(),
    }
}

fn non_empty(cfg: &TextMap, key: &str) -> (r: Option<String>)
    ensures
        text::opt_text(r) == given_text(cfg@, key@),
{
    match cfg.get(key) {
        Some(v) => if v.is_empty() {
            None
        } else {
            Some(v.to_owned())
        },
        None => None,
    }
}

/// Arguments for a serial type.
pub open spec fn serial_args(t: SerialType) -> Seq<Seq<char>> {
    match t {
        SerialType::Isa => seq!["-serial"@, "chardev:tty"@, "-serial"@, "chardev:transport"@],
        SerialType::Virtio => seq![
            "-device"@,
            "virtio-serial"@,
            "-device"@,
            "virtconsole,chardev=tty"@,
            "-device"@,
            "virtserialport,chardev=transport"@,
        ],
    }
}

/// An option with its value, where there is one.
pub open spec fn optional_args(flag: Seq<char>, value: Option<Seq<char>>) -> Seq<Seq<char>> {
    match value {
        Some(v) => seq![flag, v],
        None => Seq::empty(),
    }
}

/// Text between `before` and `after`, where there is one.
pub open spec fn wrapped(
    before: Seq<char>,
    value: Option<Seq<char>>,
    after: Seq<char>,
) -> Option<Seq<char>> {
    match value {
        Some(v) => Some(before + v + after),
        None => None,
    }
}

/// Host file that fetched files are written to, one per process.
pub open spec fn transport_path(c: QemuConfigView, pid: u32) -> Seq<char> {
    c.tmpdir + "/transport-"@ + text::decimal_text(pid as nat)
}

/// Arguments for the machine and its devices.
pub open spec fn device_part(c: QemuConfigView, pid: u32) -> Seq<Seq<char>> {
    seq![
        "-enable-kvm"@,
        "-display"@,
        "none"@,
        "-m"@,
        c.ram,
        "-smp"@,
        c.smp,
        "-device"@,
        "virtio-rng-pci"@,
        "-chardev"@,
        "stdio,id=tty,logfile="@ + (c.tmpdir + "/ttyS0-"@ + text::decimal_text(pid as nat)
            + ".log"@),
    ] + serial_args(c.serial) + seq![
        "-chardev"@,
        "file,id=transport,path="@ + transport_path(c, pid),
    ]
}

/// Arguments for what the guest boots from.
pub open spec fn boot_part(c: QemuConfigView) -> Seq<Seq<char>> {
    optional_args(
        "-virtfs"@,
        wrapped(
            "local,path="@,
            c.virtfs,
            ",mount_tag=host0,security_model=mapped-xattr,readonly=on"@,
        ),
    ) + optional_args("-drive"@, wrapped("if=virtio,cache=unsafe,file="@, c.image, ""@))
        + optional_args("-initrd"@, c.initrd) + match c.kernel {
        Some(kernel) => seq![
            "-append"@,
            "console="@ + console_name(c.serial) + " ignore_loglevel"@,
            "-kernel"@,
            kernel,
        ],
        None => Seq::empty(),
    }
}

/// Arguments before the user's own.
pub open spec fn fixed_args(c: QemuConfigView, pid: u32) -> Seq<Seq<char>> {
    device_part(c, pid) + boot_part(c)
}

/// Program and arguments of a guest, or the error that its options give.
pub open spec fn guest_args(c: QemuConfigView, pid: u32) -> Result<Seq<Seq<char>>, ErrorView> {
    match c.options {
        None => Ok(fixed_args(c, pid)),
        Some(options) => match expect::options_of(options) {
            Ok(words) => Ok(fixed_args(c, pid) + words),
            Err(e) => Err(e),
        },
    }
}

fn push_text(args: &mut Vec<String>, s: &str)
    ensures
        text::texts(final(args)@) == text::texts(old(args)@).push(s@),
{
    broadcast use text::texts_push;

    args.push(s.to_owned());
}

fn push_pair(args: &mut Vec<String>, flag: &str, value: &str)
    ensures
        text::texts(final(args)@) == text::texts(old(args)@) + seq![flag@, value@],
{
    let ghost before = text::texts(args@);
    push_text(args, flag);
    push_text(args, value);
    assert(text::texts(args@) =~= before + seq![flag@, value@]);
}

impl QemuConfig {
    /// Build from options, given what the host has at the configured paths.
    pub fn from_map(cfg: &TextMap, host: HostPaths) -> (r: Result<Self, KirkError>)
        ensures
            match config_of(cfg@, host) {
                Ok(c) => r matches Ok(v) && v@ == c,
                Err(x) => r matches Err(e) && e@ == x,
            },
    {
        proof {
            reveal_strlit("");
            assert(""@ =~= Seq::<char>::empty());
        }
        let serial = get_or(cfg, "serial", "isa");
        let serial = match SerialType::parse(serial.as_str()) {
            Ok(serial) => serial,
            Err(e) => {
                return Err(e);
            },
        };
        let config = QemuConfig {
            tmpdir: get_or(cfg, "tmpdir", ""),
            image: non_empty(cfg, "image"),
            kernel: non_empty(cfg, "kernel"),
            initrd: non_empty(cfg, "initrd"),
            user: non_empty(cfg, "user"),
            password: non_empty(cfg, "password"),
            prompt: get_or(cfg, "prompt", "#"),
            system: get_or(cfg, "system", "x86_64"),
            ram: get_or(cfg, "ram", "2G"),
            smp: get_or(cfg, "smp", "2"),
            serial,
            virtfs: non_empty(cfg, "virtfs"),
            options: non_empty(cfg, "options"),
        };
        config.validate(host)
    }

    fn validate(self, host: HostPaths) -> (r: Result<Self, KirkError>)
        ensures
            match config_error(self@, host) {
                Some(x) => r matches Err(e) && e@ == x,
                None => r matches Ok(v) && v@ == self@,
            },
    {
        if self.tmpdir.as_str().is_empty() || !host.tmpdir_is_dir {
            return Err(
                KirkError::Communication(
                    text::cat2("Temporary directory doesn't exist: ", self.tmpdir.as_str()),
                ),
            );
        }
        match &self.image {
            Some(path) => if !host.image_is_file {
                return Err(
                    KirkError::Communication(
                        text::cat2("Image location doesn't exist: ", path.as_str()),
                    ),
                );
            },
            None => {},
        }
        match &self.kernel {
            Some(path) => if !host.kernel_is_file {
                return Err(
                    KirkError::Communication(
                        text::cat2("Kernel location doesn't exist: ", path.as_str()),
                    ),
                );
            },
            None => {},
        }
        match &self.initrd {
            Some(path) => if !host.initrd_is_file {
                return Err(
                    KirkError::Communication(
                        text::cat2("initrd location doesn't exist: ", path.as_str()),
                    ),
                );
            },
            None => {},
        }
        if self.ram.as_str().is_empty() {
            return Err(KirkError::Communication(text::owned("RAM is not defined")));
        }
        if self.smp.as_str().is_empty() {
            return Err(KirkError::Communication(text::owned("CPU is not defined")));
        }
        match &self.virtfs {
            Some(path) => if !host.virtfs_is_dir {
                return Err(
                    KirkError::Communication(
                        text::cat2("Virtual FS directory doesn't exist: ", path.as_str()),
                    ),
                );
            },
            None => {},
        }
        Ok(self)
    }

    /// `qemu-system-<arch>` binary name.
    pub fn qemu_cmd(&self) -> (r: String)
        ensures
            r@ == "qemu-system-"@ + self@.system,
    {
        text::cat2("qemu-system-", self.system.as_str())
    }

    /// Guest device and host file that fetched files go through, for the
    /// given host pid.
    pub fn transport(&self, pid: u32) -> (r: (&'static str, String))
        ensures
            r.0@ == transport_node(self@.serial),
            r.1@ == transport_path(self@, pid),
    {
        let pid = text::decimal(pid as u64);
        (
            self.serial.transport_dev(),
            text::cat3(self.tmpdir.as_str(), "/transport-", pid.as_str()),
        )
    }

    /// Program and arguments for spawning QEMU directly.
    pub fn build_argv(&self, pid: u32) -> (r: Result<(String, Vec<String>), KirkError>)
        ensures
            match guest_args(self@, pid) {
                Ok(args) => {
                    &&& r matches Ok((program, v))
                    &&& program@ == "qemu-system-"@ + self@.system
                    &&& text::texts(v@) == args
                },
                Err(x) => r matches Err(e) && e@ == x,
            },
    {
        let mut args = self.device_args(pid);
        self.push_boot_args(&mut args);
        match &self.options {
            Some(options) => match expect::split_options(options.as_str()) {
                Ok(mut words) => {
                    let ghost a = args@;
                    let ghost b = words@;
                    args.append(&mut words);
                    assert(text::texts(args@) =~= text::texts(a) + text::texts(b));
                },
                Err(e) => {
                    return Err(e);
                },
            },
            None => {},
        }
        Ok((self.qemu_cmd(), args))
    }

    fn device_args(&self, pid: u32) -> (args: Vec<String>)
        ensures
            text::texts(args@) == device_part(self@, pid),
    {
        let (_, transport_file) = self.transport(pid);
        let number = text::decimal(pid as u64);
        let tty_log = text::cat4(self.tmpdir.as_str(), "/ttyS0-", number.as_str(), ".log");
        let logfile = text::cat2("stdio,id=tty,logfile=", tty_log.as_str());
        let mut args: Vec<String> = Vec::new();
        assert(text::texts(args@) =~= Seq::<Seq<char>>::empty());
        push_text(&mut args, "-enable-kvm");
        push_text(&mut args, "-display");
        push_text(&mut args, "none");
        push_text(&mut args, "-m");
        push_text(&mut args, self.ram.as_str());
        push_text(&mut args, "-smp");
        push_text(&mut args, self.smp.as_str());
        push_text(&mut args, "-device");
        push_text(&mut args, "virtio-rng-pci");
        push_text(&mut args, "-chardev");
        push_text(&mut args, logfile.as_str());
        let ghost head = text::texts(args@);
        match self.serial {
            SerialType::Isa => {
                push_text(&mut args, "-serial");
                push_text(&mut args, "chardev:tty");
                push_text(&mut args, "-serial");
                push_text(&mut args, "chardev:transport");
            },
            SerialType::Virtio => {
                push_text(&mut args, "-device");
                push_text(&mut args, "virtio-serial");
                push_text(&mut args, "-device");
                push_text(&mut args, "virtconsole,chardev=tty");
                push_text(&mut args, "-device");
                push_text(&mut args, "virtserialport,chardev=transport");
            },
        }
        assert(text::texts(args@) =~= head + serial_args(self.serial));
        let transport = text::cat2("file,id=transport,path=", transport_file.as_str());
        push_pair(&mut args, "-chardev", transport.as_str());
        assert(text::texts(args@) =~= device_part(self@, pid));
        args
    }

    fn push_boot_args(&self, args: &mut Vec<String>)
        ensures
            text::texts(final(args)@) == text::texts(old(args)@) + boot_part(self@),
    {
        let ghost start = text::texts(args@);
        match &self.virtfs {
            Some(virtfs) => {
                let value = text::cat3(
                    "local,path=",
                    virtfs.as_str(),
                    ",mount_tag=host0,security_model=mapped-xattr,readonly=on",
                );
                push_pair(args, "-virtfs", value.as_str());
            },
            None => {},
        }
        match &self.image {
            Some(image) => {
                let value = text::cat3("if=virtio,cache=unsafe,file=", image.as_str(), "");
                push_pair(args, "-drive", value.as_str());
            },
            None => {},
        }
        match &self.initrd {
            Some(initrd) => {
                push_pair(args, "-initrd", initrd.as_str());
            },
            None => {},
        }
        match &self.kernel {
            Some(kernel) => {
                let console = text::cat3("console=", self.serial.console(), " ignore_loglevel");
                push_pair(args, "-append", console.as_str());
                push_pair(args, "-kernel", kernel.as_str());
            },
            None => {},
        }
        assert(text::texts(args@) =~= start + boot_part(self@));
    }
}

/// Every option stands under its own name; one that is not given has its
/// default.
pub proof fn options_apply(cfg: Map<Seq<char>, Seq<char>>, host: HostPaths)
    requires
        config_of(cfg, host) is Ok,
    ensures
        ({
            let c = config_of(cfg, host)->Ok_0;
            let given = |key: Seq<char>| cfg.dom().contains(key);
            let filled = |key: Seq<char>| cfg.dom().contains(key) && cfg[key].len() > 0;
            &&& given("tmpdir"@) && c.tmpdir == cfg["tmpdir"@] && c.tmpdir.len() > 0
            &&& filled("image"@) ==> c.image == Some(cfg["image"@])
            &&& !filled("image"@) ==> c.image is None
            &&& filled("kernel"@) ==> c.kernel == Some(cfg["kernel"@])
            &&& !filled("kernel"@) ==> c.kernel is None
            &&& filled("initrd"@) ==> c.initrd == Some(cfg["initrd"@])
            &&& !filled("initrd"@) ==> c.initrd is None
            &&& filled("user"@) ==> c.user == Some(cfg["user"@])
            &&& !filled("user"@) ==> c.user is None
            &&& filled("password"@) ==> c.password == Some(cfg["password"@])
            &&& !filled("password"@) ==> c.password is None
            &&& filled("virtfs"@) ==> c.virtfs == Some(cfg["virtfs"@])
            &&& !filled("virtfs"@) ==> c.virtfs is None
            &&& filled("options"@) ==> c.options == Some(cfg["options"@])
            &&& !filled("options"@) ==> c.options is None
            &&& c.prompt == (if given("prompt"@) { cfg["prompt"@] } else { "#"@ })
            &&& c.system == (if given("system"@) { cfg["system"@] } else { "x86_64"@ })
            &&& c.ram == (if given("ram"@) { cfg["ram"@] } else { "2G"@ })
            &&& c.smp == (if given("smp"@) { cfg["smp"@] } else { "2"@ })
            &&& given("serial"@) ==> cfg["serial"@] == serial_name(c.serial)
            &&& !given("serial"@) ==> c.serial == SerialType::Isa
        }),
{
}

/// A configuration is taken exactly where its paths are there, and the serial
/// type, the memory and the number of processors are.
pub proof fn good_configurations_are_taken(cfg: Map<Seq<char>, Seq<char>>, host: HostPaths)
    ensures
        config_of(cfg, host) is Ok <==> {
            let filled = |key: Seq<char>| cfg.dom().contains(key) && cfg[key].len() > 0;
            &&& filled("tmpdir"@) && host.tmpdir_is_dir
            &&& filled("image"@) ==> host.image_is_file
            &&& filled("kernel"@) ==> host.kernel_is_file
            &&& filled("initrd"@) ==> host.initrd_is_file
            &&& filled("virtfs"@) ==> host.virtfs_is_dir
            &&& cfg.dom().contains("ram"@) ==> cfg["ram"@].len() > 0
            &&& cfg.dom().contains("smp"@) ==> cfg["smp"@].len() > 0
            &&& cfg.dom().contains("serial"@) ==> cfg["serial"@] == "isa"@ || cfg["serial"@]
                == "virtio"@
        },
        config_of(cfg, host) matches Err(e) ==> e is Communication,
{
    reveal_strlit("2G");
    reveal_strlit("2");
    assert("2G"@.len() == 2 && "2"@.len() == 1);
}

/// Whether an option stands in a row of arguments, with its value behind it.
pub open spec fn has_option(args: Seq<Seq<char>>, flag: Seq<char>, value: Seq<char>) -> bool {
    exists|i: int|
        0 <= i < args.len() - 1 && #[trigger] args[i] == flag && args[i + 1] == value
}

proof fn option_stays(
    before: Seq<Seq<char>>,
    args: Seq<Seq<char>>,
    after: Seq<Seq<char>>,
    flag: Seq<char>,
    value: Seq<char>,
    at: int,
)
    requires
        0 <= at < args.len() - 1,
        args[at] == flag,
        args[at + 1] == value,
    ensures
        has_option(before + args + after, flag, value),
{
    let all = before + args + after;
    let k = before.len() + at;
    assert(all[k] == flag);
    assert(all[k + 1] == value);
}

/// A guest gets the memory, the processors, the disk image, the initial RAM
/// disk, the kernel and the shared directory of its configuration, and nothing
/// in place of those that are not given.
pub proof fn guests_are_configured(c: QemuConfigView, pid: u32)
    ensures
        has_option(fixed_args(c, pid), "-m"@, c.ram),
        has_option(fixed_args(c, pid), "-smp"@, c.smp),
        has_option(
            fixed_args(c, pid),
            "-chardev"@,
            "file,id=transport,path="@ + transport_path(c, pid),
        ),
        c.image is Some ==> has_option(
            fixed_args(c, pid),
            "-drive"@,
            "if=virtio,cache=unsafe,file="@ + c.image->0,
        ),
        c.initrd is Some ==> has_option(fixed_args(c, pid), "-initrd"@, c.initrd->0),
        c.kernel is Some ==> has_option(fixed_args(c, pid), "-kernel"@, c.kernel->0),
        c.kernel is Some && c.serial is Isa ==> has_option(
            fixed_args(c, pid),
            "-append"@,
            "console="@ + "ttyS0"@ + " ignore_loglevel"@,
        ),
        c.kernel is Some && c.serial is Virtio ==> has_option(
            fixed_args(c, pid),
            "-append"@,
            "console="@ + "hvc0"@ + " ignore_loglevel"@,
        ),
        c.virtfs is Some ==> has_option(
            fixed_args(c, pid),
            "-virtfs"@,
            "local,path="@ + c.virtfs->0
                + ",mount_tag=host0,security_model=mapped-xattr,readonly=on"@,
        ),
        fixed_args(c, pid).len() == 13 + (if c.serial is Isa {
            4int
        } else {
            6
        }) + (if c.image is Some {
            2int
        } else {
            0
        }) + (if c.initrd is Some {
            2int
        } else {
            0
        }) + (if c.virtfs is Some {
            2int
        } else {
            0
        }) + (if c.kernel is Some {
            4int
        } else {
            0
        }),
{
    reveal_strlit("");
    let none = Seq::<Seq<char>>::empty();
    let boot = boot_part(c);
    let device = device_part(c, pid);
    assert(none + device + boot =~= fixed_args(c, pid));
    assert(device + boot + none =~= fixed_args(c, pid));
    option_stays(none, device, boot, "-m"@, c.ram, 3);
    option_stays(none, device, boot, "-smp"@, c.smp, 5);
    let path = "file,id=transport,path="@ + transport_path(c, pid);
    option_stays(none, device, boot, "-chardev"@, path, device.len() - 2);
    let shared = optional_args(
        "-virtfs"@,
        wrapped(
            "local,path="@,
            c.virtfs,
            ",mount_tag=host0,security_model=mapped-xattr,readonly=on"@,
        ),
    );
    let drive = optional_args("-drive"@, wrapped("if=virtio,cache=unsafe,file="@, c.image, ""@));
    let initrd = optional_args("-initrd"@, c.initrd);
    if c.virtfs is Some {
        option_stays(device, boot, none, shared[0], shared[1], 0);
    }
    if c.image is Some {
        assert("if=virtio,cache=unsafe,file="@ + c.image->0 + ""@
            =~= "if=virtio,cache=unsafe,file="@ + c.image->0);
        option_stays(device, boot, none, drive[0], drive[1], shared.len() as int);
    }
    if c.initrd is Some {
        option_stays(
            device,
            boot,
            none,
            initrd[0],
            initrd[1],
            (shared.len() + drive.len()) as int,
        );
    }
    if c.kernel is Some {
        let at = (shared.len() + drive.len() + initrd.len()) as int;
        option_stays(device, boot, none, "-kernel"@, c.kernel->0, at + 2);
        option_stays(device, boot, none, "-append"@, boot[at + 1], at);
    }
}

/// The user's own options stand behind the others, as the words that they are.
pub proof fn own_options_come_last(c: QemuConfigView, pid: u32, own: Seq<Seq<char>>)
    ensures
        c.options is None ==> guest_args(c, pid) == Ok::<Seq<Seq<char>>, ErrorView>(
            fixed_args(c, pid),
        ),
        c.options is Some && expect::options_of(c.options->0) == Ok::<Seq<Seq<char>>, ErrorView>(
            own,
        ) ==> guest_args(c, pid) == Ok::<Seq<Seq<char>>, ErrorView>(fixed_args(c, pid) + own),
        c.options is Some && expect::options_of(c.options->0) is Err ==> guest_args(c, pid) is Err,
{
}

/// The guest answers on the device that fits its serial type.
pub proof fn serial_devices_differ()
    ensures
        transport_node(SerialType::Isa) == "/dev/ttyS1"@,
        transport_node(SerialType::Virtio) == "/dev/vport1p1"@,
        forall|value: Seq<char>|
            #![auto]
            value != "isa"@ && value != "virtio"@ ==> serial_of(value) is Err,
{
}

} // verus!
