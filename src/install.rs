use vstd::prelude::*;
use vstd::string::StringExecFns;

verus! {

/// How long an install button stays disabled after a press.
pub const COOLDOWN_SECONDS: u32 = 2;

/// The state of one install button.
#[derive(Clone, Copy, PartialEq, Eq, Structural)]
pub enum InstallControl {
    Ready,
    CoolingDown,
}

impl InstallControl {
    /// A press launches an install only while the button is ready; either
    /// way the button is then cooling down.
    pub fn press(&mut self) -> (launch: bool)
        ensures
            launch == (*old(self) == InstallControl::Ready),
            *final(self) == InstallControl::CoolingDown,
    {
        let launch = *self == InstallControl::Ready;
        *self = InstallControl::CoolingDown;
        launch
    }

    /// The cool-down is over: the button is ready again, whatever became of
    /// the launched install.
    pub fn cooldown_elapsed(&mut self)
        ensures
            *final(self) == InstallControl::Ready,
    {
        *self = InstallControl::Ready;
    }

    /// Whether the button takes presses.
    pub fn is_enabled(&self) -> (r: bool)
        ensures
            r == (*self == InstallControl::Ready),
    {
        *self == InstallControl::Ready
    }

    /// The button's text.
    pub fn label(&self, installed: bool) -> (r: String)
        ensures
            *self == InstallControl::CoolingDown ==> r@ == "Opening terminal..."@,
            *self == InstallControl::Ready && installed ==> r@ == "Reinstall"@,
            *self == InstallControl::Ready && !installed ==> r@ == "Install"@,
    {
        match self {
            InstallControl::CoolingDown => String::from_str("Opening terminal..."),
            InstallControl::Ready => if installed {
                String::from_str("Reinstall")
            } else {
                String::from_str("Install")
            },
        }
    }
}

/// The shell command run in the terminal: install `name` with yay, then
/// wait for Enter before the terminal closes.
pub fn install_script(name: &str) -> (r: String)
    ensures
        r@ == "yay -S --needed "@ + name@ + "; echo '\nPress Enter to close...'; read"@,
{
    let mut r = String::from_str("yay -S --needed ");
    r.append(name);
    r.append("; echo '\nPress Enter to close...'; read");
    r
}

/// The terminal emulators that can run the install, in order of preference.
#[derive(Clone, Copy, PartialEq, Eq, Structural)]
pub enum Terminal {
    Alacritty,
    Kitty,
    Wezterm,
    Konsole,
    GnomeTerminal,
    Xterm,
}

/// The number of terminal emulators tried.
pub const TERMINAL_COUNT: usize = 6;

/// The terminal emulator at rank `i` of the order of preference.
pub open spec fn terminal_at(i: int) -> Terminal {
    if i == 0 {
        Terminal::Alacritty
    } else if i == 1 {
        Terminal::Kitty
    } else if i == 2 {
        Terminal::Wezterm
    } else if i == 3 {
        Terminal::Konsole
    } else if i == 4 {
        Terminal::GnomeTerminal
    } else {
        Terminal::Xterm
    }
}

/// The arguments that make the terminal run a shell command, before the command.
pub open spec fn lead_args(t: Terminal) -> Seq<Seq<char>> {
    match t {
        Terminal::Wezterm => seq!["start"@, "--"@, "sh"@, "-c"@],
        Terminal::GnomeTerminal => seq!["--"@, "sh"@, "-c"@],
        _ => seq!["-e"@, "sh"@, "-c"@],
    }
}

/// The terminal emulator at rank `i` of the order of preference.
pub fn terminal_candidate(i: usize) -> (r: Terminal)
    requires
        i < TERMINAL_COUNT,
    ensures
        r == terminal_at(i as int),
{
    if i == 0 {
        Terminal::Alacritty
    } else if i == 1 {
        Terminal::Kitty
    } else if i == 2 {
        Terminal::Wezterm
    } else if i == 3 {
        Terminal::Konsole
    } else if i == 4 {
        Terminal::GnomeTerminal
    } else {
        Terminal::Xterm
    }
}

impl Terminal {
    /// The program to start.
    pub fn program(&self) -> (r: String)
        ensures
            *self == Terminal::Alacritty ==> r@ == "alacritty"@,
            *self == Terminal::Kitty ==> r@ == "kitty"@,
            *self == Terminal::Wezterm ==> r@ == "wezterm"@,
            *self == Terminal::Konsole ==> r@ == "konsole"@,
            *self == Terminal::GnomeTerminal ==> r@ == "gnome-terminal"@,
            *self == Terminal::Xterm ==> r@ == "xterm"@,
    {
        match self {
            Terminal::Alacritty => String::from_str("alacritty"),
            Terminal::Kitty => String::from_str("kitty"),
            Terminal::Wezterm => String::from_str("wezterm"),
            Terminal::Konsole => String::from_str("konsole"),
            Terminal::GnomeTerminal => String::from_str("gnome-terminal"),
            Terminal::Xterm => String::from_str("xterm"),
        }
    }

    /// The arguments that make this terminal run `script`.
    pub fn launch_args(&self, script: &str) -> (r: Vec<String>)
        ensures
            r@.map_values(|s: String| s@) == lead_args(*self).push(script@),
    {
        let mut r: Vec<String> = Vec::new();
        match self {
            Terminal::Wezterm => {
                r.push(String::from_str("start"));
                r.push(String::from_str("--"));
            },
            Terminal::GnomeTerminal => {
                r.push(String::from_str("--"));
            },
            _ => {
                r.push(String::from_str("-e"));
            },
        }
        r.push(String::from_str("sh"));
        r.push(String::from_str("-c"));
        r.push(String::from_str(script));
        assert(r@.map_values(|s: String| s@) =~= lead_args(*self).push(script@));
        r
    }
}

} // verus!
