//! What the terminal that the game runs in can draw.

use vstd::prelude::*;

verus! {

/// The operating systems the game is built for.
#[derive(Copy, Clone, Debug, PartialEq, Eq, Structural)]
pub enum TargetOs {
    Windows,
    Linux,
    MacOs,
}

/// Whether the terminal draws emoji: the modern Windows Terminal does (it sets
/// `WT_SESSION`, which WSL inherits); the legacy Windows console does not, nor
/// does WSL running inside it (`WSL_DISTRO_NAME` without `WT_SESSION`); native
/// Linux terminals and macOS terminals do.
pub open spec fn emoji_support(os: TargetOs, has_wt_session: bool, has_wsl_distro_name: bool) -> bool {
    match os {
        TargetOs::Windows => has_wt_session,
        TargetOs::Linux => has_wt_session || !has_wsl_distro_name,
        TargetOs::MacOs => true,
    }
}

/// Whether the terminal draws emoji, from the operating system and from
/// whether the variables `WT_SESSION` and `WSL_DISTRO_NAME` are set.
pub fn has_emoji_support(os: TargetOs, has_wt_session: bool, has_wsl_distro_name: bool) -> (supported: bool)
    ensures
        supported == emoji_support(os, has_wt_session, has_wsl_distro_name),
{
    match os {
        TargetOs::Windows => {
            // Modern Windows Terminal
            if has_wt_session {
                return true;
            }
            // Legacy Windows cmd and PowerShell
            false
        },
        TargetOs::Linux => {
            // WSL inside the modern Windows Terminal inherits WT_SESSION
            if has_wt_session {
                return true;
            }
            // WSL inside the legacy Windows cmd or PowerShell
            if has_wsl_distro_name {
                return false;
            }
            // Native Linux terminal emulators
            true
        },
        TargetOs::MacOs => true,
    }
}

} // verus!
