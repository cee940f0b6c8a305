//! What communication channels have in common: plugins and their registry,
//! the result of a command, and the attempts to start communication.

use crate::errors::ErrorView;
use crate::errors::KirkError;
use crate::text;
use crate::textmap::TextMap;
use vstd::prelude::*;
use vstd::string::*;

verus! {

/// Outcome of running a command.
#[derive(Debug, Clone, PartialEq, Eq)]
pub struct CmdResult {
    /// Command that was executed.
    pub command: String,
    /// Process return code.
    pub returncode: i32,
    /// Captured stdout.
    pub stdout: String,
    /// Execution time in seconds, as the bits of an IEEE 754 double.
    pub exec_time: u64,
}

/// Generic plugin.
pub trait Plugin: Sized {
    /// Name of the plugin, as a sequence of characters.
    spec fn plugin_name(&self) -> Seq<char>;

    /// Unique name identifier of the plugin.
    fn name(&self) -> (r: &str)
        ensures
            r@ == self.plugin_name(),
    ;

    /// Map each configuration option to its help message.
    fn config_help(&self) -> TextMap;

    /// Copy the plugin under the given name.
    fn renamed(&self, name: &str) -> (r: Self)
        ensures
            r.plugin_name() == name@,
    ;
}

/// A further handle to a channel; commands run through it at the same time
/// as through the channel itself.
#[derive(Debug, Clone, PartialEq, Eq)]
pub struct ChannelHandle {
    /// Name of the channel.
    pub channel: String,
}

/// Communication channel plugin.
pub trait ComChannel: Plugin {
    /// Whether commands can run in parallel.
    spec fn is_parallel(&self) -> bool;

    /// Whether communication is active, as the channel knows it.
    spec fn is_communicating(&self) -> bool;

    /// Whether the channel supports parallel command execution.
    fn parallel_execution(&self) -> (r: bool)
        ensures
            r == self.is_parallel(),
    ;

    /// Report whether communication is active.
    fn active(&self) -> (r: bool)
        ensures
            r == self.is_communicating(),
    ;

    /// A further handle to the channel; a channel that claims parallel
    /// execution always has one.
    fn concurrent_handle(&self) -> (r: Option<ChannelHandle>)
        ensures
            r is Some <==> self.is_parallel(),
            r matches Some(h) ==> h.channel@ == self.plugin_name(),
    ;
}

/// Names of plugins, in order.
pub open spec fn plugin_names<P: Plugin>(v: Seq<P>) -> Seq<Seq<char>> {
    v.map_values(|p: P| p.plugin_name())
}

/// Owned set of channels.
pub struct Registry<P: Plugin> {
    channels: Vec<P>,
}

impl<P: Plugin> Registry<P> {
    /// Registered channels, in order.
    pub closed spec fn listed(self) -> Seq<P> {
        self.channels@
    }

    /// Build an empty registry.
    pub fn new() -> (r: Self)
        ensures
            r.listed() == Seq::<P>::empty(),
    {
        Registry { channels: Vec::new() }
    }

    /// Register a channel.
    pub fn register(&mut self, channel: P)
        ensures
            final(self).listed() == old(self).listed().push(channel),
    {
        self.channels.push(channel);
    }

    /// Borrow the registered channels.
    pub fn get_channels(&self) -> (r: &[P])
        ensures
            r@ == self.listed(),
    {
        self.channels.as_slice()
    }

    /// Names of the registered channels, in registry order.
    pub fn names(&self) -> (r: Vec<String>)
        ensures
            text::texts(r@) == plugin_names(self.listed()),
    {
        broadcast use text::texts_push;

        let mut r: Vec<String> = Vec::new();
        let mut i: usize = 0;
        assert(text::texts(r@) =~= plugin_names(self.channels@).take(0));
        while i < self.channels.len()
            invariant
                i <= self.channels@.len(),
                text::texts(r@) == plugin_names(self.channels@).take(i as int),
            decreases self.channels@.len() - i,
        {
            r.push(self.channels[i].name().to_owned());
            assert(plugin_names(self.channels@).take(i + 1) =~= plugin_names(self.channels@).take(
                i as int,
            ).push(self.channels@[i as int].plugin_name()));
            i = i + 1;
        }
        assert(plugin_names(self.channels@).take(self.channels@.len() as int) =~= plugin_names(
            self.channels@,
        ));
        r
    }

    /// Clone the first channel called `name` under `new_name` and register
    /// the copy.
    pub fn clone_channel(&mut self, name: &str, new_name: &str) -> (r: Result<(), KirkError>)
        ensures
            match r {
                Ok(_) => {
                    &&& plugin_names(old(self).listed()).contains(name@)
                    &&& final(self).listed().len() == old(self).listed().len() + 1
                    &&& final(self).listed().drop_last() == old(self).listed()
                    &&& final(self).listed().last().plugin_name() == new_name@
                    &&& call_ensures(
                        P::renamed,
                        (&old(self).listed()[first_named(old(self).listed(), name@)], new_name),
                        final(self).listed().last(),
                    )
                },
                Err(e) => {
                    &&& !plugin_names(old(self).listed()).contains(name@)
                    &&& e@ == ErrorView::Plugin("Can't find plugin '"@ + name@ + "'"@)
                    &&& final(self).listed() == old(self).listed()
                },
            },
    {
        let ghost all = self.channels@;
        let mut i: usize = 0;
        while i < self.channels.len()
            invariant
                i <= self.channels@.len(),
                self.channels@ == all,
                old(self).listed() == all,
                forall|j: int| 0 <= j < i ==> (#[trigger] all[j]).plugin_name() != name@,
            decreases self.channels@.len() - i,
        {
            if text::same(self.channels[i].name(), name) {
                assert(plugin_names(all)[i as int] == name@);
                assert(first_named(all, name@) == i) by {
                    let k = first_named(all, name@);
                    assert(all[i as int].plugin_name() == name@);
                }
                let copy = self.channels[i].renamed(new_name);
                self.channels.push(copy);
                assert(self.channels@.drop_last() =~= all);
                return Ok(());
            }
            i = i + 1;
        }
        assert forall|j: int| 0 <= j < all.len() implies plugin_names(all)[j] != name@ by {
            assert(all[j].plugin_name() != name@);
        }
        Err(KirkError::Plugin(text::cat3("Can't find plugin '", name, "'")))
    }
}

/// Position of the first plugin called `name`.
pub open spec fn first_named<P: Plugin>(v: Seq<P>, name: Seq<char>) -> int {
    choose|i: int|
        0 <= i < v.len() && (#[trigger] v[i]).plugin_name() == name && forall|j: int|
            0 <= j < i ==> (#[trigger] v[j]).plugin_name() != name
}

/// What to do after an attempt to start communication.
#[derive(Debug, Clone, Copy, PartialEq, Eq, Structural)]
pub enum Attempt {
    /// Communication has started.
    Done,
    /// Stop the channel, then try again.
    StopAndRetry,
    /// Give up with the error of this attempt.
    GiveUp,
}

/// Attempts to start communication: at least one, at most as many as asked
/// for, with the channel stopped between two of them.
#[derive(Debug, Clone, Copy)]
pub struct Attempts {
    allowed: u32,
    made: u32,
    stops: u32,
}

impl Attempts {
    /// Number of attempts allowed.
    pub closed spec fn allowed_spec(self) -> nat {
        self.allowed as nat
    }

    /// Number of attempts made.
    pub closed spec fn made_spec(self) -> nat {
        self.made as nat
    }

    /// Number of stops between attempts.
    pub closed spec fn stops_spec(self) -> nat {
        self.stops as nat
    }

    /// Whether another attempt is due: the channel was stopped after every
    /// attempt so far.
    pub open spec fn due(self) -> bool {
        self.made_spec() == self.stops_spec() && self.made_spec() < self.allowed_spec()
    }

    /// Whether another attempt is due.
    pub fn is_due(&self) -> (r: bool)
        ensures
            r == self.due(),
    {
        self.made == self.stops && self.made < self.allowed
    }

    /// Start with up to `retries` attempts.
    pub fn new(retries: u32) -> (r: Self)
        ensures
            r.allowed_spec() == if retries == 0 {
                1nat
            } else {
                retries as nat
            },
            r.made_spec() == 0,
            r.stops_spec() == 0,
            r.due(),
    {
        Attempts {
            allowed: if retries == 0 {
                1
            } else {
                retries
            },
            made: 0,
            stops: 0,
        }
    }

    /// Record an attempt.
    pub fn record(&mut self, started: bool) -> (r: Attempt)
        requires
            old(self).due(),
        ensures
            final(self).allowed_spec() == old(self).allowed_spec(),
            final(self).made_spec() == old(self).made_spec() + 1,
            r == if started {
                Attempt::Done
            } else if final(self).made_spec() >= old(self).allowed_spec() {
                Attempt::GiveUp
            } else {
                Attempt::StopAndRetry
            },
            final(self).stops_spec() == old(self).stops_spec() + if r == Attempt::StopAndRetry {
                1nat
            } else {
                0nat
            },
            final(self).due() <==> r == Attempt::StopAndRetry,
    {
        self.made = self.made + 1;
        if started {
            Attempt::Done
        } else if self.made >= self.allowed {
            Attempt::GiveUp
        } else {
            self.stops = self.stops + 1;
            Attempt::StopAndRetry
        }
    }

    /// Number of attempts made.
    pub fn made(&self) -> (n: u32)
        ensures
            n == self.made_spec(),
    {
        self.made
    }

    /// Number of stops between attempts.
    pub fn stops(&self) -> (n: u32)
        ensures
            n == self.stops_spec(),
    {
        self.stops
    }
}

} // verus!
