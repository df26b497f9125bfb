//! The mount option model: symbolic option tokens and the flag set they
//! resolve to.
//!
//! Tokens are applied strictly left to right. Each token assigns one flag,
//! except `default`, which sets the four flags of the safe baseline. The last
//! assignment to a flag wins, and a token that is not recognized is an error:
//! it is never skipped.

use vstd::prelude::*;
use crate::text::{chars_of, spells};

verus! {

/// The normalized flags of one bind mount. All clear is the starting point of
/// every resolution.
#[derive(Clone, Copy, Debug, PartialEq, Eq, Structural)]
pub struct MountOptions {
    pub nodiratime: bool,
    pub nodev: bool,
    pub dirsync: bool,
    pub noexec: bool,
    pub mandlock: bool,
    pub relatime: bool,
    pub strictatime: bool,
    pub nosuid: bool,
    pub synchronous: bool,
    pub rdonly: bool,
}

/// The name of one flag of `MountOptions`.
#[derive(Clone, Copy, Debug, PartialEq, Eq, Structural)]
pub enum Flag {
    NoDirAtime,
    NoDev,
    DirSync,
    NoExec,
    MandLock,
    RelAtime,
    StrictAtime,
    NoSuid,
    Synchronous,
    ReadOnly,
}

/// What one recognized token does to the flags.
#[derive(Clone, Copy, Debug, PartialEq, Eq, Structural)]
pub enum Setting {
    /// Give one flag a value.
    Assign(Flag, bool),
    /// Set read-only, no-suid, no-exec and synchronous; touch nothing else.
    Baseline,
}

/// A token that no rule recognizes, with its position in the token list.
#[derive(Clone, Debug, PartialEq, Eq)]
pub struct UnsupportedOption {
    pub index: usize,
    pub token: String,
}

impl Setting {
    /// The value that this setting gives to `flag`, if it assigns it at all.
    pub open spec fn assigns(self, flag: Flag) -> Option<bool> {
        match self {
            Setting::Assign(f, v) => if f == flag {
                Some(v)
            } else {
                None
            },
            Setting::Baseline => if flag == Flag::ReadOnly || flag == Flag::NoSuid || flag
                == Flag::NoExec || flag == Flag::Synchronous {
                Some(true)
            } else {
                None
            },
        }
    }
}

impl MountOptions {
    /// Every flag clear.
    pub open spec fn none() -> MountOptions {
        MountOptions {
            nodiratime: false,
            nodev: false,
            dirsync: false,
            noexec: false,
            mandlock: false,
            relatime: false,
            strictatime: false,
            nosuid: false,
            synchronous: false,
            rdonly: false,
        }
    }

    /// The value of one flag.
    pub open spec fn get(self, flag: Flag) -> bool {
        match flag {
            Flag::NoDirAtime => self.nodiratime,
            Flag::NoDev => self.nodev,
            Flag::DirSync => self.dirsync,
            Flag::NoExec => self.noexec,
            Flag::MandLock => self.mandlock,
            Flag::RelAtime => self.relatime,
            Flag::StrictAtime => self.strictatime,
            Flag::NoSuid => self.nosuid,
            Flag::Synchronous => self.synchronous,
            Flag::ReadOnly => self.rdonly,
        }
    }

    /// These flags with `flag` given the value `v` and every other flag kept.
    pub open spec fn with(self, flag: Flag, v: bool) -> MountOptions {
        match flag {
            Flag::NoDirAtime => MountOptions { nodiratime: v, ..self },
            Flag::NoDev => MountOptions { nodev: v, ..self },
            Flag::DirSync => MountOptions { dirsync: v, ..self },
            Flag::NoExec => MountOptions { noexec: v, ..self },
            Flag::MandLock => MountOptions { mandlock: v, ..self },
            Flag::RelAtime => MountOptions { relatime: v, ..self },
            Flag::StrictAtime => MountOptions { strictatime: v, ..self },
            Flag::NoSuid => MountOptions { nosuid: v, ..self },
            Flag::Synchronous => MountOptions { synchronous: v, ..self },
            Flag::ReadOnly => MountOptions { rdonly: v, ..self },
        }
    }

    /// These flags after one setting: a flag that the setting assigns takes
    /// the assigned value, every other flag keeps its own.
    pub open spec fn apply(self, setting: Setting) -> MountOptions {
        match setting {
            Setting::Assign(flag, v) => self.with(flag, v),
            Setting::Baseline => MountOptions {
                rdonly: true,
                nosuid: true,
                noexec: true,
                synchronous: true,
                ..self
            },
        }
    }

    /// All flags clear.
    pub fn new() -> (r: MountOptions)
        ensures
            r == MountOptions::none(),
    {
        MountOptions {
            nodiratime: false,
            nodev: false,
            dirsync: false,
            noexec: false,
            mandlock: false,
            relatime: false,
            strictatime: false,
            nosuid: false,
            synchronous: false,
            rdonly: false,
        }
    }

    /// These flags with `flag` given the value `v`.
    pub fn assign(self, flag: Flag, v: bool) -> (r: MountOptions)
        ensures
            r == self.with(flag, v),
    {
        let mut r = self;
        match flag {
            Flag::NoDirAtime => r.nodiratime = v,
            Flag::NoDev => r.nodev = v,
            Flag::DirSync => r.dirsync = v,
            Flag::NoExec => r.noexec = v,
            Flag::MandLock => r.mandlock = v,
            Flag::RelAtime => r.relatime = v,
            Flag::StrictAtime => r.strictatime = v,
            Flag::NoSuid => r.nosuid = v,
            Flag::Synchronous => r.synchronous = v,
            Flag::ReadOnly => r.rdonly = v,
        }
        r
    }

    /// These flags with one setting applied.
    pub fn set(self, setting: Setting) -> (r: MountOptions)
        ensures
            r == self.apply(setting),
    {
        match setting {
            Setting::Assign(flag, v) => self.assign(flag, v),
            Setting::Baseline => {
                let mut r = self;
                r.rdonly = true;
                r.nosuid = true;
                r.noexec = true;
                r.synchronous = true;
                r
            },
        }
    }
}

impl Default for MountOptions {
    fn default() -> (r: MountOptions)
        ensures
            r == MountOptions::none(),
    {
        MountOptions::new()
    }
}

/// The setting that a token stands for; `None` for a token that is not one of
/// the twenty-one recognized words.
pub open spec fn meaning(token: Seq<char>) -> Option<Setting> {
    if token == "diratime"@ {
        Some(Setting::Assign(Flag::NoDirAtime, false))
    } else if token == "nodiratime"@ {
        Some(Setting::Assign(Flag::NoDirAtime, true))
    } else if token == "dev"@ {
        Some(Setting::Assign(Flag::NoDev, false))
    } else if token == "nodev"@ {
        Some(Setting::Assign(Flag::NoDev, true))
    } else if token == "dirsync"@ {
        Some(Setting::Assign(Flag::DirSync, true))
    } else if token == "nodirsync"@ {
        Some(Setting::Assign(Flag::DirSync, false))
    } else if token == "exec"@ {
        Some(Setting::Assign(Flag::NoExec, false))
    } else if token == "noexec"@ {
        Some(Setting::Assign(Flag::NoExec, true))
    } else if token == "mand"@ {
        Some(Setting::Assign(Flag::MandLock, true))
    } else if token == "nomand"@ {
        Some(Setting::Assign(Flag::MandLock, false))
    } else if token == "relatime"@ {
        Some(Setting::Assign(Flag::RelAtime, true))
    } else if token == "norelatime"@ {
        Some(Setting::Assign(Flag::RelAtime, false))
    } else if token == "strictatime"@ {
        Some(Setting::Assign(Flag::StrictAtime, true))
    } else if token == "nostrictatime"@ {
        Some(Setting::Assign(Flag::StrictAtime, false))
    } else if token == "suid"@ {
        Some(Setting::Assign(Flag::NoSuid, false))
    } else if token == "nosuid"@ {
        Some(Setting::Assign(Flag::NoSuid, true))
    } else if token == "sync"@ {
        Some(Setting::Assign(Flag::Synchronous, true))
    } else if token == "nosync"@ {
        Some(Setting::Assign(Flag::Synchronous, false))
    } else if token == "ro"@ {
        Some(Setting::Assign(Flag::ReadOnly, true))
    } else if token == "rw"@ {
        Some(Setting::Assign(Flag::ReadOnly, false))
    } else if token == "default"@ {
        Some(Setting::Baseline)
    } else {
        None
    }
}

/// Every token of the list is recognized.
pub open spec fn all_known(tokens: Seq<Seq<char>>) -> bool {
    forall|i: int| 0 <= i < tokens.len() ==> meaning(#[trigger] tokens[i]) is Some
}

/// `token` is the first token of the list that is not recognized.
pub open spec fn first_unknown(tokens: Seq<Seq<char>>, token: Seq<char>) -> bool {
    exists|k: int|
        0 <= k < tokens.len() && #[trigger] tokens[k] == token && meaning(token) is None
            && all_known(tokens.take(k))
}

/// The flags after the recognized tokens of the list were applied, left to
/// right, to a set with every flag clear.
pub open spec fn resolved(tokens: Seq<Seq<char>>) -> MountOptions
    decreases tokens.len(),
{
    if tokens.len() == 0 {
        MountOptions::none()
    } else {
        match meaning(tokens.last()) {
            Some(setting) => resolved(tokens.drop_last()).apply(setting),
            None => resolved(tokens.drop_last()),
        }
    }
}

/// Reads one token.
pub fn interpret(token: &str) -> (r: Option<Setting>)
    ensures
        r == meaning(token@),
{
    let t = chars_of(token);
    if spells(&t, "diratime") {
        Some(Setting::Assign(Flag::NoDirAtime, false))
    } else if spells(&t, "nodiratime") {
        Some(Setting::Assign(Flag::NoDirAtime, true))
    } else if spells(&t, "dev") {
        Some(Setting::Assign(Flag::NoDev, false))
    } else if spells(&t, "nodev") {
        Some(Setting::Assign(Flag::NoDev, true))
    } else if spells(&t, "dirsync") {
        Some(Setting::Assign(Flag::DirSync, true))
    } else if spells(&t, "nodirsync") {
        Some(Setting::Assign(Flag::DirSync, false))
    } else if spells(&t, "exec") {
        Some(Setting::Assign(Flag::NoExec, false))
    } else if spells(&t, "noexec") {
        Some(Setting::Assign(Flag::NoExec, true))
    } else if spells(&t, "mand") {
        Some(Setting::Assign(Flag::MandLock, true))
    } else if spells(&t, "nomand") {
        Some(Setting::Assign(Flag::MandLock, false))
    } else if spells(&t, "relatime") {
        Some(Setting::Assign(Flag::RelAtime, true))
    } else if spells(&t, "norelatime") {
        Some(Setting::Assign(Flag::RelAtime, false))
    } else if spells(&t, "strictatime") {
        Some(Setting::Assign(Flag::StrictAtime, true))
    } else if spells(&t, "nostrictatime") {
        Some(Setting::Assign(Flag::StrictAtime, false))
    } else if spells(&t, "suid") {
        Some(Setting::Assign(Flag::NoSuid, false))
    } else if spells(&t, "nosuid") {
        Some(Setting::Assign(Flag::NoSuid, true))
    } else if spells(&t, "sync") {
        Some(Setting::Assign(Flag::Synchronous, true))
    } else if spells(&t, "nosync") {
        Some(Setting::Assign(Flag::Synchronous, false))
    } else if spells(&t, "ro") {
        Some(Setting::Assign(Flag::ReadOnly, true))
    } else if spells(&t, "rw") {
        Some(Setting::Assign(Flag::ReadOnly, false))
    } else if spells(&t, "default") {
        Some(Setting::Baseline)
    } else {
        None
    }
}

/// Resolves a token list to its flag set.
///
/// Succeeds exactly when every token is recognized, with the flags that the
/// tokens give when applied in order. Otherwise the error names the first
/// token that is not recognized.
pub fn resolve(tokens: &Vec<String>) -> (r: Result<MountOptions, UnsupportedOption>)
    ensures
        match r {
            Ok(flags) => all_known(tokens.deep_view()) && flags == resolved(tokens.deep_view()),
            Err(e) => {
                &&& e.index < tokens.len()
                &&& e.token@ == tokens[e.index as int]@
                &&& meaning(tokens[e.index as int]@) is None
                &&& all_known(tokens.deep_view().take(e.index as int))
            },
        },
{
    let ghost all = tokens.deep_view();
    let mut flags = MountOptions::new();
    let mut i: usize = 0;
    while i < tokens.len()
        invariant
            i <= tokens.len(),
            all == tokens.deep_view(),
            all.len() == tokens.len(),
            forall|k: int| 0 <= k < all.len() ==> all[k] == #[trigger] tokens[k]@,
            all_known(all.take(i as int)),
            flags == resolved(all.take(i as int)),
        decreases tokens.len() - i,
    {
        let ghost seen = all.take(i as int);
        let ghost next = all.take(i + 1);
        assert(next.drop_last() =~= seen);
        match interpret(tokens[i].as_str()) {
            Some(setting) => {
                flags = flags.set(setting);
            },
            None => {
                return Err(UnsupportedOption { index: i, token: tokens[i].clone() });
            },
        }
        i += 1;
    }
    assert(all.take(i as int) =~= all);
    Ok(flags)
}

/// The last assignment to a flag wins: where token `i` assigns `flag` and no
/// later token does, the resolved set holds the value that token `i` gives.
pub proof fn lemma_last_assignment_wins(tokens: Seq<Seq<char>>, i: int, flag: Flag)
    requires
        0 <= i < tokens.len(),
        meaning(tokens[i]) is Some,
        meaning(tokens[i])->0.assigns(flag) is Some,
        forall|j: int|
            i < j < tokens.len() ==> match meaning(#[trigger] tokens[j]) {
                Some(s) => s.assigns(flag) is None,
                None => true,
            },
    ensures
        resolved(tokens).get(flag) == meaning(tokens[i])->0.assigns(flag)->0,
    decreases tokens.len(),
{
    if i < tokens.len() - 1 {
        let init = tokens.drop_last();
        lemma_last_assignment_wins(init, i, flag);
    }
}

/// A flag that no token assigns stays clear.
pub proof fn lemma_unassigned_flag_is_clear(tokens: Seq<Seq<char>>, flag: Flag)
    requires
        forall|j: int|
            0 <= j < tokens.len() ==> match meaning(#[trigger] tokens[j]) {
                Some(s) => s.assigns(flag) is None,
                None => true,
            },
    ensures
        !resolved(tokens).get(flag),
    decreases tokens.len(),
{
    if tokens.len() > 0 {
        let init = tokens.drop_last();
        lemma_unassigned_flag_is_clear(init, flag);
    }
}

/// An explicit token after `default` overrides the baseline: whatever comes
/// before, a list that ends in `default` and then a token that assigns a flag
/// resolves to that token's value for the flag.
pub proof fn lemma_explicit_token_overrides_default(
    before: Seq<Seq<char>>,
    token: Seq<char>,
    flag: Flag,
    value: bool,
)
    requires
        meaning(token) == Some(Setting::Assign(flag, value)),
    ensures
        resolved(before.push("default"@).push(token)).get(flag) == value,
{
    let tokens = before.push("default"@).push(token);
    lemma_last_assignment_wins(tokens, tokens.len() - 1, flag);
}

} // verus!
