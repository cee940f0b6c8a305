//! Validation of the command line, and the help on plugins.

use crate::cli::args;
use crate::cli::args::Args;
use crate::cli::args::MAX_COM_INSTANCES;
use crate::errors::ErrorView;
use crate::errors::KirkError;
use crate::text;
use crate::textmap::EntryView;
use crate::textmap::TextMap;
use vstd::prelude::*;
use vstd::string::*;

verus! {

/// Outcome of [`validate`].
#[derive(Debug, Clone, Copy, PartialEq, Eq, Structural)]
pub enum Validation {
    /// Arguments are usable; start the session.
    Proceed,
    /// Help on communication channels was asked for.
    ComHelp,
    /// Help on systems under test was asked for.
    SutHelp,
}

/// Name and configuration options of a plugin.
#[derive(Debug)]
pub struct PluginInfo {
    /// Name of the plugin.
    pub name: String,
    /// Help on each configuration option.
    pub config_help: TextMap,
}

/// What the host has at the paths that the arguments name.
#[derive(Debug, Clone, Copy, PartialEq, Eq, Structural)]
pub struct HostFacts {
    /// Whether the plugins directory is a directory.
    pub plugins_is_dir: bool,
    /// Whether the JSON report exists.
    pub report_exists: bool,
    /// Whether the skip file is a file.
    pub skip_is_file: bool,
    /// Whether the temporary directory is a directory.
    pub tmp_is_dir: bool,
}

/// Whether a plugin has the given name.
pub open spec fn is_plugin(plugins: Seq<PluginInfo>, name: Seq<char>) -> bool {
    exists|i: int| 0 <= i < plugins.len() && (#[trigger] plugins[i]).name@ == name
}

/// Whether a configuration asks for help.
pub open spec fn asks_help(configs: Seq<TextMap>) -> bool {
    exists|i: int| 0 <= i < configs.len() && (#[trigger] configs[i])@.dom().contains("help"@)
}

/// Name of the first configuration that names no plugin, if any.
pub open spec fn unknown_name(configs: Seq<TextMap>, plugins: Seq<PluginInfo>) -> Option<Seq<char>>
    decreases configs.len(),
{
    if configs.len() == 0 {
        None
    } else if !is_plugin(plugins, args::config_name(configs[0]@)) {
        Some(args::config_name(configs[0]@))
    } else {
        unknown_name(configs.skip(1), plugins)
    }
}

/// Whether suites are given.
pub open spec fn has_suites(a: Args) -> bool {
    a.run_suite matches Some(v) && v@.len() > 0
}

/// Checks on the plugins, and requests for help.
pub open spec fn plugin_checks(
    a: Args,
    coms: Seq<PluginInfo>,
    suts: Seq<PluginInfo>,
    host: HostFacts,
) -> Option<Result<Validation, ErrorView>> {
    let sut = args::config_name(a.sut@);
    if a.plugins matches Some(dir) && !host.plugins_is_dir {
        Some(Err(ErrorView::Session("'"@ + a.plugins->0@ + "' plugins directory doesn't exist"@)))
    } else if asks_help(a.com@) {
        Some(Ok(Validation::ComHelp))
    } else if a.com@.len() >= MAX_COM_INSTANCES {
        Some(
            Err(ErrorView::Session("Maximum number of communication objects is 128"@)),
        )
    } else if unknown_name(a.com@, coms) is Some {
        Some(
            Err(
                ErrorView::Session(
                    "Can't find communication handler with name '"@ + unknown_name(
                        a.com@,
                        coms,
                    )->0 + "'"@,
                ),
            ),
        )
    } else if a.sut@.dom().contains("help"@) {
        Some(Ok(Validation::SutHelp))
    } else if !is_plugin(suts, sut) {
        Some(Err(ErrorView::Session("'"@ + sut + "' SUT is not available"@)))
    } else {
        None
    }
}

/// Checks on what is to run, and on the paths.
pub open spec fn run_checks(a: Args, host: HostFacts) -> Option<ErrorView> {
    if a.json_report is Some && host.report_exists {
        Some(ErrorView::Session("JSON report file already exists: "@ + a.json_report->0@))
    } else if a.run_pattern is Some && !has_suites(a) {
        Some(ErrorView::Session("--run-pattern must be used with --run-suite"@))
    } else if !has_suites(a) && a.run_command is None {
        Some(ErrorView::Session("--run-suite/--run-command are required"@))
    } else if a.skip_file is Some && !host.skip_is_file {
        Some(ErrorView::Session("'"@ + a.skip_file->0@ + "' skip file doesn't exist"@))
    } else if a.tmp_dir@.len() > 0 && !host.tmp_is_dir {
        Some(ErrorView::Session("'"@ + a.tmp_dir@ + "' temporary folder doesn't exist"@))
    } else {
        None
    }
}

/// What the arguments come to: the first check that fails, or the first
/// request for help, in the order of the checks.
pub open spec fn validation(
    a: Args,
    coms: Seq<PluginInfo>,
    suts: Seq<PluginInfo>,
    host: HostFacts,
) -> Result<Validation, ErrorView> {
    match plugin_checks(a, coms, suts, host) {
        Some(r) => r,
        None => match run_checks(a, host) {
            Some(e) => Err(e),
            None => Ok(Validation::Proceed),
        },
    }
}

/// A session that starts has something to run, a known system under test,
/// known channels, and does not overwrite a report.
pub proof fn proceed_is_runnable(
    a: Args,
    coms: Seq<PluginInfo>,
    suts: Seq<PluginInfo>,
    host: HostFacts,
)
    requires
        validation(a, coms, suts, host) == Ok::<Validation, ErrorView>(Validation::Proceed),
    ensures
        has_suites(a) || a.run_command is Some,
        a.run_pattern is Some ==> has_suites(a),
        is_plugin(suts, args::config_name(a.sut@)),
        a.com@.len() < MAX_COM_INSTANCES,
        forall|i: int|
            0 <= i < a.com@.len() ==> is_plugin(
                coms,
                args::config_name((#[trigger] a.com@[i])@),
            ),
        a.json_report is Some ==> !host.report_exists,
{
    all_known(a.com@, coms);
}

proof fn all_known(configs: Seq<TextMap>, plugins: Seq<PluginInfo>)
    requires
        unknown_name(configs, plugins) is None,
    ensures
        forall|i: int|
            0 <= i < configs.len() ==> is_plugin(
                plugins,
                args::config_name((#[trigger] configs[i])@),
            ),
    decreases configs.len(),
{
    if configs.len() > 0 {
        all_known(configs.skip(1), plugins);
        assert forall|i: int| 0 <= i < configs.len() implies is_plugin(
            plugins,
            args::config_name((#[trigger] configs[i])@),
        ) by {
            if i > 0 {
                assert(configs.skip(1)[i - 1] == configs[i]);
            }
        }
    }
}

fn session(message: String) -> (e: KirkError)
    ensures
        e@ == ErrorView::Session(message@),
{
    KirkError::Session(message)
}

fn find_plugin(plugins: &Vec<PluginInfo>, name: &str) -> (r: bool)
    ensures
        r == is_plugin(plugins@, name@),
{
    let mut i: usize = 0;
    while i < plugins.len()
        invariant
            i <= plugins@.len(),
            forall|j: int| 0 <= j < i ==> (#[trigger] plugins@[j]).name@ != name@,
        decreases plugins@.len() - i,
    {
        if text::same(plugins[i].name.as_str(), name) {
            return true;
        }
        i = i + 1;
    }
    false
}

fn any_help(configs: &Vec<TextMap>) -> (r: bool)
    ensures
        r == asks_help(configs@),
{
    let mut i: usize = 0;
    while i < configs.len()
        invariant
            i <= configs@.len(),
            forall|j: int| 0 <= j < i ==> !(#[trigger] configs@[j])@.dom().contains("help"@),
        decreases configs@.len() - i,
    {
        if configs[i].contains_key("help") {
            return true;
        }
        i = i + 1;
    }
    false
}

fn find_unknown<'a>(configs: &'a Vec<TextMap>, plugins: &Vec<PluginInfo>) -> (r: Option<&'a str>)
    ensures
        text::opt_str(r) == unknown_name(configs@, plugins@),
{
    let mut i: usize = 0;
    assert(configs@.skip(0) =~= configs@);
    while i < configs.len()
        invariant
            i <= configs@.len(),
            unknown_name(configs@, plugins@) == unknown_name(configs@.skip(i as int), plugins@),
        decreases configs@.len() - i,
    {
        proof {
            assert(configs@.skip(i as int)[0] == configs@[i as int]);
            assert(configs@.skip(i as int).skip(1) =~= configs@.skip(i + 1));
        }
        let name = args::name_of(&configs[i]);
        if !find_plugin(plugins, name) {
            return Some(name);
        }
        i = i + 1;
    }
    None
}

fn check_plugins(
    a: &Args,
    coms: &Vec<PluginInfo>,
    suts: &Vec<PluginInfo>,
    host: HostFacts,
) -> (r: Option<Result<Validation, KirkError>>)
    ensures
        match plugin_checks(*a, coms@, suts@, host) {
            None => r is None,
            Some(Ok(v)) => r == Some(Ok::<Validation, KirkError>(v)),
            Some(Err(x)) => r matches Some(Err(e)) && e@ == x,
        },
{
    match &a.plugins {
        Some(dir) => {
            if !host.plugins_is_dir {
                return Some(
                    Err(
                        session(
                            text::cat3("'", dir.as_str(), "' plugins directory doesn't exist"),
                        ),
                    ),
                );
            }
        },
        None => {},
    }
    if any_help(&a.com) {
        return Some(Ok(Validation::ComHelp));
    }
    if a.com.len() >= MAX_COM_INSTANCES {
        return Some(
            Err(session(text::owned("Maximum number of communication objects is 128"))),
        );
    }
    match find_unknown(&a.com, coms) {
        Some(name) => {
            return Some(
                Err(
                    session(
                        text::cat3("Can't find communication handler with name '", name, "'"),
                    ),
                ),
            );
        },
        None => {},
    }
    if a.sut.contains_key("help") {
        return Some(Ok(Validation::SutHelp));
    }
    let sut = args::name_of(&a.sut);
    if !find_plugin(suts, sut) {
        return Some(Err(session(text::cat3("'", sut, "' SUT is not available"))));
    }
    None
}

fn check_run(a: &Args, host: HostFacts) -> (r: Option<KirkError>)
    ensures
        match run_checks(*a, host) {
            None => r is None,
            Some(x) => r matches Some(e) && e@ == x,
        },
{
    let suites = match &a.run_suite {
        Some(v) => v.len() > 0,
        None => false,
    };
    match &a.json_report {
        Some(report) => {
            if host.report_exists {
                return Some(
                    session(text::cat2("JSON report file already exists: ", report.as_str())),
                );
            }
        },
        None => {},
    }
    if a.run_pattern.is_some() && !suites {
        return Some(session(text::owned("--run-pattern must be used with --run-suite")));
    }
    if !suites && a.run_command.is_none() {
        return Some(session(text::owned("--run-suite/--run-command are required")));
    }
    match &a.skip_file {
        Some(skip) => {
            if !host.skip_is_file {
                return Some(session(text::cat3("'", skip.as_str(), "' skip file doesn't exist")));
            }
        },
        None => {},
    }
    if !a.tmp_dir.as_str().is_empty() && !host.tmp_is_dir {
        return Some(
            session(text::cat3("'", a.tmp_dir.as_str(), "' temporary folder doesn't exist")),
        );
    }
    None
}

/// Validate the arguments, given what the host has at the paths they name.
pub fn validate(
    a: &Args,
    coms: &Vec<PluginInfo>,
    suts: &Vec<PluginInfo>,
    host: HostFacts,
) -> (r: Result<Validation, KirkError>)
    ensures
        match validation(*a, coms@, suts@, host) {
            Ok(v) => r == Ok::<Validation, KirkError>(v),
            Err(x) => r matches Err(e) && e@ == x,
        },
{
    match check_plugins(a, coms, suts, host) {
        Some(r) => r,
        None => match check_run(a, host) {
            Some(e) => Err(e),
            None => Ok(Validation::Proceed),
        },
    }
}

/// List of the names of plugins.
pub open spec fn names_text(plugins: Seq<PluginInfo>) -> Seq<char>
    decreases plugins.len(),
{
    if plugins.len() == 0 {
        Seq::empty()
    } else {
        names_text(plugins.drop_last()) + plugins.last().name@ + " | "@
    }
}

/// Help on configuration options, one on a line.
pub open spec fn options_text(options: Seq<EntryView>) -> Seq<char>
    decreases options.len(),
{
    if options.len() == 0 {
        Seq::empty()
    } else {
        options_text(options.drop_last()) + ("\t"@ + options.last().0 + ": "@ + options.last().1
            + "\n"@)
    }
}

/// Help on a plugin.
pub open spec fn section_text(plugin: PluginInfo) -> Seq<char> {
    if plugin.config_help.list().len() == 0 {
        "\n"@ + plugin.name@ + " has not configuration\n"@
    } else {
        "\n"@ + plugin.name@ + " configuration:\n"@ + options_text(plugin.config_help.list())
    }
}

/// Help on plugins.
pub open spec fn sections_text(plugins: Seq<PluginInfo>) -> Seq<char>
    decreases plugins.len(),
{
    if plugins.len() == 0 {
        Seq::empty()
    } else {
        sections_text(plugins.drop_last()) + section_text(plugins.last())
    }
}

/// Help on the plugins of an option.
pub open spec fn help_text(opt_name: Seq<char>, plugins: Seq<PluginInfo>) -> Seq<char> {
    opt_name + " option supports the following syntax:\n"@
        + "\n\t<name>:<param1>=<value1>:<param2>=<value2>:..\n"@ + "\nSupported plugins: | "@
        + names_text(plugins) + "\n"@ + sections_text(plugins)
}

fn write_section(plugin: &PluginInfo) -> (r: String)
    ensures
        r@ == section_text(*plugin),
{
    let options = &plugin.config_help;
    if options.len() == 0 {
        return text::cat3("\n", plugin.name.as_str(), " has not configuration\n");
    }
    let head = text::cat3("\n", plugin.name.as_str(), " configuration:\n");
    let ghost all = options.list();
    let mut lines = String::new();
    let mut i: usize = 0;
    assert(lines@ =~= options_text(all.take(0)));
    while i < options.len()
        invariant
            i <= all.len(),
            all == options.list(),
            lines@ == options_text(all.take(i as int)),
        decreases all.len() - i,
    {
        proof {
            assert(all.take(i + 1).drop_last() =~= all.take(i as int));
            assert(all.take(i + 1).last() == all[i as int]);
        }
        let line = text::cat5("\t", options.key_at(i), ": ", options.value_at(i), "\n");
        lines.append(line.as_str());
        i = i + 1;
    }
    assert(all.take(all.len() as int) =~= all);
    text::cat2(head.as_str(), lines.as_str())
}

/// Render the help on the plugins of an option.
pub fn plugin_help(opt_name: &str, plugins: &Vec<PluginInfo>) -> (r: String)
    ensures
        r@ == help_text(opt_name@, plugins@),
{
    let mut names = String::new();
    let mut sections = String::new();
    let mut i: usize = 0;
    assert(names@ =~= names_text(plugins@.take(0)));
    assert(sections@ =~= sections_text(plugins@.take(0)));
    while i < plugins.len()
        invariant
            i <= plugins@.len(),
            names@ == names_text(plugins@.take(i as int)),
            sections@ == sections_text(plugins@.take(i as int)),
        decreases plugins@.len() - i,
    {
        proof {
            assert(plugins@.take(i + 1).drop_last() =~= plugins@.take(i as int));
            assert(plugins@.take(i + 1).last() == plugins@[i as int]);
        }
        names.append(plugins[i].name.as_str());
        names.append(" | ");
        let section = write_section(&plugins[i]);
        sections.append(section.as_str());
        i = i + 1;
    }
    assert(plugins@.take(plugins@.len() as int) =~= plugins@);
    let head = text::cat4(
        opt_name,
        " option supports the following syntax:\n",
        "\n\t<name>:<param1>=<value1>:<param2>=<value2>:..\n",
        "\nSupported plugins: | ",
    );
    text::cat4(head.as_str(), names.as_str(), "\n", sections.as_str())
}

/// Arguments that meet every condition start a session.
pub proof fn good_arguments_proceed(
    a: Args,
    coms: Seq<PluginInfo>,
    suts: Seq<PluginInfo>,
    host: HostFacts,
)
    requires
        a.plugins is Some ==> host.plugins_is_dir,
        a.com@.len() <= 127,
        forall|i: int|
            0 <= i < a.com@.len() ==> !(#[trigger] a.com@[i])@.dom().contains("help"@)
                && is_plugin(coms, args::config_name(a.com@[i]@)),
        !a.sut@.dom().contains("help"@),
        is_plugin(suts, args::config_name(a.sut@)),
        a.json_report is Some ==> !host.report_exists,
        has_suites(a) || (a.run_command is Some && a.run_pattern is None),
        a.skip_file is Some ==> host.skip_is_file,
        a.tmp_dir@.len() > 0 ==> host.tmp_is_dir,
    ensures
        validation(a, coms, suts, host) == Ok::<Validation, ErrorView>(Validation::Proceed),
{
    if unknown_name(a.com@, coms) is Some {
        unknown_is_there(a.com@, coms);
    }
}

proof fn unknown_is_there(configs: Seq<TextMap>, plugins: Seq<PluginInfo>)
    requires
        unknown_name(configs, plugins) is Some,
    ensures
        exists|i: int|
            0 <= i < configs.len() && !is_plugin(
                plugins,
                args::config_name((#[trigger] configs[i])@),
            ),
    decreases configs.len(),
{
    if !is_plugin(plugins, args::config_name(configs[0]@)) {
    } else {
        let rest = configs.skip(1);
        unknown_is_there(rest, plugins);
        let i = choose|i: int|
            0 <= i < rest.len() && !is_plugin(plugins, args::config_name((#[trigger] rest[i])@));
        assert(configs[i + 1] == rest[i]);
    }
}

/// The first configuration that names no plugin is the one that is told of.
pub proof fn first_unknown_is_named(configs: Seq<TextMap>, plugins: Seq<PluginInfo>, i: int)
    requires
        0 <= i < configs.len(),
        !is_plugin(plugins, args::config_name(configs[i]@)),
        forall|j: int|
            0 <= j < i ==> is_plugin(plugins, args::config_name((#[trigger] configs[j])@)),
    ensures
        unknown_name(configs, plugins) == Some(args::config_name(configs[i]@)),
    decreases i,
{
    if i > 0 {
        let rest = configs.skip(1);
        assert(rest[i - 1] == configs[i]);
        assert forall|j: int| 0 <= j < i - 1 implies is_plugin(
            plugins,
            args::config_name((#[trigger] rest[j])@),
        ) by {
            assert(rest[j] == configs[j + 1]);
        }
        first_unknown_is_named(rest, plugins, i - 1);
    }
}

/// What is wrong is told: a missing directory of plugins before anything else,
/// and everything else only where no help is asked for.
pub proof fn bad_arguments_are_told(
    a: Args,
    coms: Seq<PluginInfo>,
    suts: Seq<PluginInfo>,
    host: HostFacts,
)
    ensures
        a.plugins is Some && !host.plugins_is_dir ==> validation(a, coms, suts, host)
            == Err::<Validation, ErrorView>(
            ErrorView::Session("'"@ + a.plugins->0@ + "' plugins directory doesn't exist"@),
        ),
        (a.plugins is None || host.plugins_is_dir) && (exists|i: int|
            0 <= i < a.com@.len() && (#[trigger] a.com@[i])@.dom().contains("help"@))
            ==> validation(a, coms, suts, host) == Ok::<Validation, ErrorView>(Validation::ComHelp),
        a.com@.len() >= 128 && validation(a, coms, suts, host) is Ok ==> validation(
            a,
            coms,
            suts,
            host,
        ) == Ok::<Validation, ErrorView>(Validation::ComHelp),
        plugin_checks(a, coms, suts, host) is None && a.json_report is Some && host.report_exists
            ==> validation(a, coms, suts, host) == Err::<Validation, ErrorView>(
            ErrorView::Session("JSON report file already exists: "@ + a.json_report->0@),
        ),
        validation(a, coms, suts, host) == Ok::<Validation, ErrorView>(Validation::Proceed) ==> {
            &&& a.skip_file is Some ==> host.skip_is_file
            &&& a.tmp_dir@.len() > 0 ==> host.tmp_is_dir
            &&& a.plugins is Some ==> host.plugins_is_dir
            &&& !a.sut@.dom().contains("help"@)
        },
        validation(a, coms, suts, host) == Ok::<Validation, ErrorView>(Validation::SutHelp) ==> {
            &&& a.sut@.dom().contains("help"@)
            &&& !asks_help(a.com@)
        },
{
    all_known_unless_named(a.com@, coms);
}

proof fn all_known_unless_named(configs: Seq<TextMap>, plugins: Seq<PluginInfo>)
    ensures
        unknown_name(configs, plugins) is None ==> forall|i: int|
            0 <= i < configs.len() ==> is_plugin(
                plugins,
                args::config_name((#[trigger] configs[i])@),
            ),
{
    if unknown_name(configs, plugins) is None {
        all_known(configs, plugins);
    }
}

/// Help names every plugin and every option, in order.
pub proof fn help_keeps_order(
    p: PluginInfo,
    plugins: Seq<PluginInfo>,
    name: Seq<char>,
    help: Seq<char>,
    options: Seq<EntryView>,
)
    ensures
        names_text(seq![p] + plugins) == p.name@ + " | "@ + names_text(plugins),
        sections_text(seq![p] + plugins) == section_text(p) + sections_text(plugins),
        options_text(seq![(name, help)] + options) == "\t"@ + name + ": "@ + help + "\n"@
            + options_text(options),
        p.config_help.list().len() == 0 ==> section_text(p) == "\n"@ + p.name@
            + " has not configuration\n"@,
{
    names_from_the_front(p, plugins);
    options_from_the_front((name, help), options);
    assert("\t"@ + name + ": "@ + help + "\n"@ + options_text(options) =~= ("\t"@ + name + ": "@
        + help + "\n"@) + options_text(options));
}

proof fn names_from_the_front(p: PluginInfo, plugins: Seq<PluginInfo>)
    ensures
        names_text(seq![p] + plugins) == p.name@ + " | "@ + names_text(plugins),
        sections_text(seq![p] + plugins) == section_text(p) + sections_text(plugins),
    decreases plugins.len(),
{
    let all = seq![p] + plugins;
    if plugins.len() == 0 {
        assert(all.drop_last() =~= plugins);
        assert(names_text(all) =~= p.name@ + " | "@ + names_text(plugins));
        assert(sections_text(all) =~= section_text(p) + sections_text(plugins));
    } else {
        names_from_the_front(p, plugins.drop_last());
        assert(all.drop_last() =~= seq![p] + plugins.drop_last());
        assert(all.last() == plugins.last());
        assert(names_text(all) =~= p.name@ + " | "@ + names_text(plugins));
        assert(sections_text(all) =~= section_text(p) + sections_text(plugins));
    }
}

proof fn options_from_the_front(o: EntryView, options: Seq<EntryView>)
    ensures
        options_text(seq![o] + options) == ("\t"@ + o.0 + ": "@ + o.1 + "\n"@) + options_text(
            options,
        ),
    decreases options.len(),
{
    let all = seq![o] + options;
    if options.len() == 0 {
        assert(all.drop_last() =~= options);
        assert(options_text(all) =~= ("\t"@ + o.0 + ": "@ + o.1 + "\n"@) + options_text(options));
    } else {
        options_from_the_front(o, options.drop_last());
        assert(all.drop_last() =~= seq![o] + options.drop_last());
        assert(all.last() == options.last());
        assert(options_text(all) =~= ("\t"@ + o.0 + ": "@ + o.1 + "\n"@) + options_text(options));
    }
}

} // verus!
