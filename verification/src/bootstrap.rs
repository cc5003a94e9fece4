//! Startup model of the application shell.
//!
//! The shell registers four capability plugins in a fixed order, installs a
//! command table with a single entry, and only then starts the run loop. The
//! [`Bootstrapper`] records that progress and its contracts force the order,
//! so a running shell is always fully initialized.

use vstd::prelude::*;

verus! {

/// The four capability plugins the shell registers, in the order they appear
/// in [`plugin_order`].
#[derive(Clone, Copy, Debug, PartialEq, Eq, Structural)]
pub enum PluginKind {
    /// Native dialog prompts.
    Dialog,
    /// External shell invocation.
    Shell,
    /// Filesystem access.
    Fs,
    /// Opening resources with the system handler.
    Opener,
}

/// The commands the shell exposes to its presentation layer.
#[derive(Clone, Copy, Debug, PartialEq, Eq, Structural)]
pub enum Command {
    /// The project-directory resolver.
    GetProjectDir,
}

/// The fixed order in which the plugins are registered.
pub open spec fn plugin_order() -> Seq<PluginKind> {
    seq![PluginKind::Dialog, PluginKind::Shell, PluginKind::Fs, PluginKind::Opener]
}

/// The full command table: exactly one entry.
pub open spec fn command_order() -> Seq<Command> {
    seq![Command::GetProjectDir]
}

/// Records startup progress: which plugins are registered so far, whether the
/// command table is installed, and whether the run loop has started.
pub struct Bootstrapper {
    registered: Vec<PluginKind>,
    commands: Vec<Command>,
    running: bool,
}

impl Bootstrapper {
    /// The plugins registered so far, in registration order.
    pub closed spec fn plugins(&self) -> Seq<PluginKind> {
        self.registered@
    }

    /// The installed command table.
    pub closed spec fn commands(&self) -> Seq<Command> {
        self.commands@
    }

    /// Whether the run loop has started.
    pub closed spec fn is_running(&self) -> bool {
        self.running
    }

    /// Startup is well formed: the registered plugins are a prefix of the
    /// fixed order, the command table is installed — whole — only once every
    /// plugin is registered, and the run loop starts only after the command
    /// table is in place.
    pub open spec fn wf(&self) -> bool {
        &&& self.plugins().len() <= plugin_order().len()
        &&& self.plugins() == plugin_order().take(self.plugins().len() as int)
        &&& (self.commands().len() > 0 ==> self.plugins() == plugin_order())
        &&& (self.commands().len() > 0 ==> self.commands() == command_order())
        &&& (self.is_running() ==> self.commands().len() > 0)
    }

    /// A fresh shell: nothing registered, nothing installed, not running.
    pub fn new() -> (b: Bootstrapper)
        ensures
            b.wf(),
            b.plugins() == Seq::<PluginKind>::empty(),
            b.commands() == Seq::<Command>::empty(),
            !b.is_running(),
    {
        let b = Bootstrapper { registered: Vec::new(), commands: Vec::new(), running: false };
        proof {
            assert(b.plugins() =~= plugin_order().take(0));
        }
        b
    }

    /// Hand out — and record — the next plugin to register, following the
    /// fixed order; `None` once all four are registered.
    pub fn register_next_plugin(&mut self) -> (r: Option<PluginKind>)
        requires
            old(self).wf(),
            !old(self).is_running(),
            old(self).commands().len() == 0,
        ensures
            final(self).wf(),
            !final(self).is_running(),
            final(self).commands().len() == 0,
            match r {
                Some(p) => {
                    &&& old(self).plugins().len() < plugin_order().len()
                    &&& p == plugin_order()[old(self).plugins().len() as int]
                    &&& final(self).plugins() == old(self).plugins().push(p)
                },
                None => {
                    &&& old(self).plugins() == plugin_order()
                    &&& final(self).plugins() == old(self).plugins()
                },
            },
    {
        let n = self.registered.len();
        let next = if n == 0 {
            Some(PluginKind::Dialog)
        } else if n == 1 {
            Some(PluginKind::Shell)
        } else if n == 2 {
            Some(PluginKind::Fs)
        } else if n == 3 {
            Some(PluginKind::Opener)
        } else {
            None
        };
        match next {
            Some(p) => {
                self.registered.push(p);
                proof {
                    assert(final(self).plugins() =~= plugin_order().take(n as int + 1));
                }
                Some(p)
            },
            None => {
                proof {
                    assert(old(self).plugins() =~= plugin_order());
                }
                None
            },
        }
    }

    /// Install the command table: its single entry is the resolver command.
    /// Every plugin must already be registered.
    pub fn install_command_table(&mut self)
        requires
            old(self).wf(),
            old(self).plugins() == plugin_order(),
            old(self).commands().len() == 0,
            !old(self).is_running(),
        ensures
            final(self).wf(),
            final(self).plugins() == old(self).plugins(),
            final(self).commands() == command_order(),
            !final(self).is_running(),
    {
        self.commands.push(Command::GetProjectDir);
        proof {
            assert(final(self).commands() =~= command_order());
        }
    }

    /// Start the run loop. The command table — and with it, by [`Self::wf`],
    /// the full plugin set — must be in place first.
    pub fn start_run_loop(&mut self)
        requires
            old(self).wf(),
            old(self).commands() == command_order(),
            !old(self).is_running(),
        ensures
            final(self).wf(),
            final(self).is_running(),
            final(self).plugins() == plugin_order(),
            final(self).commands() == command_order(),
    {
        self.running = true;
    }

    /// The plugins registered so far, in registration order, as a fresh
    /// vector.
    pub fn registered_plugins(&self) -> (v: Vec<PluginKind>)
        ensures
            v@ == self.plugins(),
    {
        let mut v: Vec<PluginKind> = Vec::new();
        let mut i: usize = 0;
        while i < self.registered.len()
            invariant
                i <= self.registered@.len(),
                v@ == self.registered@.take(i as int),
            decreases self.registered@.len() - i,
        {
            v.push(self.registered[i]);
            proof {
                assert(self.registered@.take(i as int).push(self.registered@[i as int]) =~= self
                    .registered@.take(i as int + 1));
            }
            i += 1;
        }
        proof {
            assert(self.registered@.take(i as int) =~= self.registered@);
        }
        v
    }

    /// The installed command table, as a fresh vector; empty until
    /// [`Self::install_command_table`] has run.
    pub fn command_table(&self) -> (v: Vec<Command>)
        ensures
            v@ == self.commands(),
    {
        let mut v: Vec<Command> = Vec::new();
        let mut i: usize = 0;
        while i < self.commands.len()
            invariant
                i <= self.commands@.len(),
                v@ == self.commands@.take(i as int),
            decreases self.commands@.len() - i,
        {
            v.push(self.commands[i]);
            proof {
                assert(self.commands@.take(i as int).push(self.commands@[i as int]) =~= self
                    .commands@.take(i as int + 1));
            }
            i += 1;
        }
        proof {
            assert(self.commands@.take(i as int) =~= self.commands@);
        }
        v
    }

    /// Whether the run loop has started.
    pub fn has_started(&self) -> (b: bool)
        ensures
            b == self.is_running(),
    {
        self.running
    }

    /// Ordering law: a shell whose run loop is running has every plugin
    /// registered, in the fixed order, and the command table installed, so
    /// every command executes in a fully initialized runtime.
    pub proof fn lemma_running_implies_initialized(&self)
        requires
            self.wf(),
            self.is_running(),
        ensures
            self.plugins() == plugin_order(),
            self.commands() == command_order(),
    {
    }
}

} // verus!
