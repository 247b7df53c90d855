//! What the menu asks the host to do: launch an application, open a
//! system tool, perform a power action.
//!
//! The library only decides the command lines and arguments; spawning
//! processes and calling the session bus stay with the host shell.

use vstd::prelude::*;

use crate::model::ApplicationEntry;

verus! {

/// Which popup the panel button opens.
#[derive(Clone, Copy, Debug, PartialEq, Eq, Structural)]
pub enum PopupType {
    MainMenu,
    ContextMenu,
}

impl Default for PopupType {
    fn default() -> (r: Self)
        ensures
            r == PopupType::MainMenu,
    {
        PopupType::MainMenu
    }
}

/// An external tool offered by the context menu.
#[derive(Clone, Copy, Debug, PartialEq, Eq, Structural)]
pub enum SystemTool {
    AppletSettings,
    SystemSettings,
    SystemMonitor,
    DiskManagement,
}

impl SystemTool {
    /// The executable that opens the tool outside a sandbox; the
    /// settings of the applet itself are a desktop launch, not a plain
    /// process, and have no entry here.
    pub open spec fn plain_exec_spec(self) -> Option<Seq<char>> {
        match self {
            SystemTool::AppletSettings => Option::None,
            SystemTool::SystemSettings => Option::Some("cosmic-settings"@),
            SystemTool::SystemMonitor => Option::Some("gnome-system-monitor"@),
            SystemTool::DiskManagement => Option::Some("gnome-disks"@),
        }
    }

    /// The command line that opens the tool: the tool's own executable,
    /// or a sandbox escape through flatpak-spawn when sandboxed.
    pub open spec fn command_spec(self, is_flatpak: bool) -> Option<(Seq<char>, Seq<Seq<char>>)> {
        match self.plain_exec_spec() {
            Option::Some(tool) => if is_flatpak {
                Option::Some(("flatpak-spawn"@, seq!["--host"@, tool]))
            } else {
                Option::Some((tool, Seq::empty()))
            },
            Option::None => Option::None,
        }
    }

    /// The process to spawn for the tool, with its arguments; `None`
    /// for the applet's own settings, which launch as a desktop entry.
    pub fn command(&self, is_flatpak: bool) -> (r: Option<(String, Vec<String>)>)
        ensures
            match r {
                Option::Some(c) => self.command_spec(is_flatpak) matches Option::Some(s) && c.0@
                    == s.0 && c.1.deep_view() == s.1,
                Option::None => self.command_spec(is_flatpak) is None,
            },
    {
        let tool: &'static str = match self {
            SystemTool::AppletSettings => {
                return Option::None;
            },
            SystemTool::SystemSettings => "cosmic-settings",
            SystemTool::SystemMonitor => "gnome-system-monitor",
            SystemTool::DiskManagement => "gnome-disks",
        };
        if is_flatpak {
            let mut args: Vec<String> = Vec::new();
            args.push(String::from_str("--host"));
            args.push(String::from_str(tool));
            proof {
                let s = self.command_spec(is_flatpak)->Some_0;
                assert(args.deep_view() =~= s.1);
            }
            Option::Some((String::from_str("flatpak-spawn"), args))
        } else {
            let args: Vec<String> = Vec::new();
            proof {
                let s = self.command_spec(is_flatpak)->Some_0;
                assert(args.deep_view() =~= s.1);
            }
            Option::Some((String::from_str(tool), args))
        }
    }
}

/// A session power action.
#[derive(Clone, Copy, Debug, PartialEq, Eq, Structural)]
pub enum PowerAction {
    Shutdown,
    Logout,
    Lock,
    Reboot,
    Suspend,
}

impl PowerAction {
    /// The argument the on-screen-display helper takes for the action;
    /// locking and suspending have none and go straight to the session
    /// bus.
    pub open spec fn osd_arg_spec(self) -> Option<Seq<char>> {
        match self {
            PowerAction::Logout => Option::Some("log-out"@),
            PowerAction::Reboot => Option::Some("restart"@),
            PowerAction::Shutdown => Option::Some("shutdown"@),
            PowerAction::Lock => Option::None,
            PowerAction::Suspend => Option::None,
        }
    }

    /// The argument to hand the on-screen-display helper, when the
    /// action goes through it.
    pub fn osd_argument(&self) -> (r: Option<&'static str>)
        ensures
            match r {
                Option::Some(a) => self.osd_arg_spec() == Option::Some(a@),
                Option::None => self.osd_arg_spec() is None,
            },
    {
        match self {
            PowerAction::Logout => Option::Some("log-out"),
            PowerAction::Reboot => Option::Some("restart"),
            PowerAction::Shutdown => Option::Some("shutdown"),
            PowerAction::Lock => Option::None,
            PowerAction::Suspend => Option::None,
        }
    }
}

/// Launching a record without a command is a caller error, not a fault.
#[derive(Clone, Copy, Debug, PartialEq, Eq, Structural)]
pub enum LaunchError {
    Unlaunchable,
}

impl ApplicationEntry {
    /// The command to hand the process launcher, together with the
    /// terminal flag; a record without a launch command is refused.
    /// The sandbox rewrite already happened when the record was built.
    pub fn launch_command(&self) -> (r: Result<(String, bool), LaunchError>)
        ensures
            match self@.exec_command {
                Option::Some(e) => r matches Result::Ok(c) && c.0@ == e && c.1
                    == self@.is_terminal,
                Option::None => r == Result::<(String, bool), LaunchError>::Err(
                    LaunchError::Unlaunchable,
                ),
            },
    {
        match &self.exec_command {
            Option::Some(e) => Result::Ok((e.clone(), self.is_terminal)),
            Option::None => Result::Err(LaunchError::Unlaunchable),
        }
    }
}

} // verus!
