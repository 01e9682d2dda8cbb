use vstd::prelude::*;

verus! {

/// Why installing the logger into the process-wide slot failed.
#[derive(Clone, Copy, PartialEq, Eq, Structural, Debug)]
pub enum InstallError {
    /// A logger is already installed; it is not silently replaced.
    AlreadyInstalled,
}

/// The process-wide logger slot, modelled as explicit state with an
/// install-once lifecycle: at most one dispatch-channel/writer pair may be
/// active per slot, and a second installation attempt fails rather than
/// replacing the first.
pub struct InstallGuard {
    installed: bool,
}

impl InstallGuard {
    pub closed spec fn spec_installed(&self) -> bool {
        self.installed
    }

    pub fn new() -> (g: InstallGuard)
        ensures
            !g.spec_installed(),
    {
        InstallGuard { installed: false }
    }

    /// Claims the slot. Succeeds exactly once: the first call installs,
    /// every later call fails and leaves the slot as it was.
    pub fn install(&mut self) -> (r: Result<(), InstallError>)
        ensures
            final(self).spec_installed(),
            r == if old(self).spec_installed() {
                Err::<(), InstallError>(InstallError::AlreadyInstalled)
            } else {
                Ok::<(), InstallError>(())
            },
    {
        if self.installed {
            Err(InstallError::AlreadyInstalled)
        } else {
            self.installed = true;
            Ok(())
        }
    }

    /// Releases the slot at teardown, after the installed logger has been
    /// shut down; a fresh installation may follow.
    pub fn uninstall(&mut self)
        ensures
            !final(self).spec_installed(),
    {
        self.installed = false;
    }

    pub fn is_installed(&self) -> (b: bool)
        ensures
            b == self.spec_installed(),
    {
        self.installed
    }
}

} // verus!
