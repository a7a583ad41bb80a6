//! The vault's operational settings. They are kept in the clear: they are
//! no secrets.

use vstd::prelude::*;
use vstd::string::StringExecFns;
use crate::crypto::KeyDerivationStrength;
use crate::item::{clone_opt_text, same_text};
use crate::time::Timestamp;

verus! {

/// The policy against guessing the passphrase.
#[derive(Clone, Copy, Debug, PartialEq, Eq, Structural)]
pub struct BruteForceConfig {
    pub enabled: bool,
    pub max_attempts: u32,
    pub lockout_duration_minutes: u32,
}

impl Default for BruteForceConfig {
    fn default() -> (config: Self)
        ensures
            config == (BruteForceConfig {
                enabled: true,
                max_attempts: 5,
                lockout_duration_minutes: 5,
            }),
    {
        BruteForceConfig { enabled: true, max_attempts: 5, lockout_duration_minutes: 5 }
    }
}

/// The policy of a fresh vault.
pub open spec fn default_brute_force_config() -> BruteForceConfig {
    BruteForceConfig { enabled: true, max_attempts: 5, lockout_duration_minutes: 5 }
}

/// The settings table. A field that is `None` was never written; reading it
/// gives the default.
#[derive(Debug)]
pub struct VaultSettings {
    pub kdf_strength: Option<KeyDerivationStrength>,
    pub brute_force: Option<BruteForceConfig>,
    pub failed_attempts: Option<u32>,
    pub last_failed_attempt: Option<Timestamp>,
    pub theme: Option<String>,
}

/// The mathematical content of the settings.
pub struct SettingsView {
    pub kdf_strength: Option<KeyDerivationStrength>,
    pub brute_force: Option<BruteForceConfig>,
    pub failed_attempts: Option<u32>,
    pub last_failed_attempt: Option<Timestamp>,
    pub theme: Option<Seq<char>>,
}

impl DeepView for VaultSettings {
    type V = SettingsView;

    open spec fn deep_view(&self) -> SettingsView {
        SettingsView {
            kdf_strength: self.kdf_strength,
            brute_force: self.brute_force,
            failed_attempts: self.failed_attempts,
            last_failed_attempt: self.last_failed_attempt,
            theme: self.theme.deep_view(),
        }
    }
}

impl View for VaultSettings {
    type V = SettingsView;

    open spec fn view(&self) -> SettingsView {
        self.deep_view()
    }
}

impl SettingsView {
    /// Settings in which nothing was written yet.
    pub open spec fn empty() -> SettingsView {
        SettingsView {
            kdf_strength: None,
            brute_force: None,
            failed_attempts: None,
            last_failed_attempt: None,
            theme: None,
        }
    }

    /// A stored instant is one the vault can store.
    pub open spec fn wf(self) -> bool {
        self.last_failed_attempt matches Some(t) ==> t.wf()
    }

    /// The derivation strength in force.
    pub open spec fn strength(self) -> KeyDerivationStrength {
        match self.kdf_strength {
            Some(s) => s,
            None => KeyDerivationStrength::Recommended,
        }
    }

    /// The policy in force.
    pub open spec fn policy(self) -> BruteForceConfig {
        match self.brute_force {
            Some(c) => c,
            None => default_brute_force_config(),
        }
    }

    /// The count of failed unlocks.
    pub open spec fn attempts(self) -> u32 {
        match self.failed_attempts {
            Some(n) => n,
            None => 0,
        }
    }

    /// The theme in force.
    pub open spec fn theme_name(self) -> Seq<char> {
        match self.theme {
            Some(t) => t,
            None => "dark"@,
        }
    }
}

impl VaultSettings {
    /// Settings in which nothing was written yet.
    pub fn new() -> (s: VaultSettings)
        ensures
            s@ == SettingsView::empty(),
    {
        VaultSettings {
            kdf_strength: None,
            brute_force: None,
            failed_attempts: None,
            last_failed_attempt: None,
            theme: None,
        }
    }

    /// A copy of the settings.
    pub fn duplicate(&self) -> (c: VaultSettings)
        ensures
            c@ == self@,
    {
        VaultSettings {
            kdf_strength: self.kdf_strength,
            brute_force: self.brute_force,
            failed_attempts: self.failed_attempts,
            last_failed_attempt: self.last_failed_attempt,
            theme: clone_opt_text(&self.theme),
        }
    }
}

/// The name under which a derivation strength is persisted.
pub open spec fn strength_name(strength: KeyDerivationStrength) -> Seq<char> {
    match strength {
        KeyDerivationStrength::Fast => "Fast"@,
        KeyDerivationStrength::Recommended => "Recommended"@,
        KeyDerivationStrength::Paranoid => "Paranoid"@,
    }
}

/// The strength that a persisted name stands for: `Recommended` for
/// every name but `Fast` and `Paranoid`, and where no name is stored.
pub open spec fn strength_named(name: Option<Seq<char>>) -> KeyDerivationStrength {
    match name {
        Some(n) => if n == "Fast"@ {
            KeyDerivationStrength::Fast
        } else if n == "Paranoid"@ {
            KeyDerivationStrength::Paranoid
        } else {
            KeyDerivationStrength::Recommended
        },
        None => KeyDerivationStrength::Recommended,
    }
}

/// The name under which a derivation strength is persisted.
pub fn strength_to_text(strength: KeyDerivationStrength) -> (name: String)
    ensures
        name@ == strength_name(strength),
{
    match strength {
        KeyDerivationStrength::Fast => String::from_str("Fast"),
        KeyDerivationStrength::Recommended => String::from_str("Recommended"),
        KeyDerivationStrength::Paranoid => String::from_str("Paranoid"),
    }
}

/// The strength that a persisted name stands for.
pub fn strength_from_text(name: Option<&str>) -> (strength: KeyDerivationStrength)
    ensures
        strength == strength_named(
            match name {
                Some(n) => Some(n@),
                None => None,
            },
        ),
{
    match name {
        Some(n) => {
            if same_text(n, "Fast") {
                KeyDerivationStrength::Fast
            } else if same_text(n, "Paranoid") {
                KeyDerivationStrength::Paranoid
            } else {
                KeyDerivationStrength::Recommended
            }
        },
        None => KeyDerivationStrength::Recommended,
    }
}

} // verus!
