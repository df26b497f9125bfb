//! The launcher's configuration and the rule by which one configuration is
//! laid over another.

use vstd::prelude::*;
use crate::mounts::live_root;
use crate::sorting::{dedup_sorted, sort_texts, strictly_ascending};
use crate::text::{copy_strings, strings_of, texts_of};

verus! {

/// What the launcher is told to do. Each source of configuration gives one
/// such value; they are combined with `overlay`.
#[derive(Clone, Debug, PartialEq, Eq)]
pub struct Config {
    /// The program to run.
    pub exe: Option<String>,
    /// The directory that becomes the root of the jail.
    pub root_dir: Option<String>,
    /// The names of the environment variables that the program may keep.
    pub keep_env: Option<Vec<String>>,
    /// The user as whom the program runs.
    pub user: Option<String>,
    /// The arguments handed to the program.
    pub exe_args: Vec<String>,
    /// The bind-mount directives, one line each.
    pub bind_mounts: Vec<String>,
}

/// A configuration as plain text.
pub struct ConfigView {
    pub exe: Option<Seq<char>>,
    pub root_dir: Option<Seq<char>>,
    pub keep_env: Option<Seq<Seq<char>>>,
    pub user: Option<Seq<char>>,
    pub exe_args: Seq<Seq<char>>,
    pub bind_mounts: Seq<Seq<char>>,
}

impl View for Config {
    type V = ConfigView;

    open spec fn view(&self) -> ConfigView {
        ConfigView {
            exe: self.exe.deep_view(),
            root_dir: self.root_dir.deep_view(),
            keep_env: self.keep_env.deep_view(),
            user: self.user.deep_view(),
            exe_args: self.exe_args.deep_view(),
            bind_mounts: self.bind_mounts.deep_view(),
        }
    }
}

/// The later value where there is one, else the earlier.
pub open spec fn later<T>(earlier: Option<T>, later: Option<T>) -> Option<T> {
    if later is Some {
        later
    } else {
        earlier
    }
}

/// How two lists of variable names combine into `merged`. Where both sides
/// give a list, `merged` holds every name of either list once, in ascending
/// order; where one side gives none, `merged` is the other side's.
pub open spec fn names_merged(
    ours: Option<Seq<Seq<char>>>,
    theirs: Option<Seq<Seq<char>>>,
    merged: Option<Seq<Seq<char>>>,
) -> bool {
    match (ours, theirs) {
        (Some(k), Some(l)) => merged matches Some(m) && strictly_ascending(m) && m.to_set() == (k
            + l).to_set(),
        (Some(k), None) => merged == Some(k),
        (None, _) => merged == theirs,
    }
}

/// The program to run and the arguments to hand to it. Where no program is
/// named, the first argument is the program, and it is taken off the
/// arguments where more follow it. There is no command where neither a
/// program nor an argument is given.
pub open spec fn command_of(c: ConfigView) -> Option<(Seq<char>, Seq<Seq<char>>)> {
    match c.exe {
        Some(exe) => Some((exe, c.exe_args)),
        None => if c.exe_args.len() == 0 {
            None
        } else if c.exe_args.len() == 1 {
            Some((c.exe_args[0], c.exe_args))
        } else {
            Some((c.exe_args[0], c.exe_args.skip(1)))
        },
    }
}

/// The later value where there is one, else the earlier.
fn pick(earlier: Option<String>, later_one: Option<String>) -> (r: Option<String>)
    ensures
        r.deep_view() == later(earlier.deep_view(), later_one.deep_view()),
{
    match later_one {
        Some(value) => Some(value),
        None => earlier,
    }
}

impl Config {
    /// The configuration that says nothing: no program, no root, no user, no
    /// list of variables, no arguments, no directives.
    pub fn new() -> (r: Config)
        ensures
            r@.exe is None,
            r@.root_dir is None,
            r@.keep_env is None,
            r@.user is None,
            r@.exe_args.len() == 0,
            r@.bind_mounts.len() == 0,
    {
        Config {
            exe: None,
            root_dir: None,
            keep_env: None,
            user: None,
            exe_args: Vec::new(),
            bind_mounts: Vec::new(),
        }
    }

    /// The configuration that every launch starts from, before any source
    /// was read: the live root, no variable kept, and nothing else.
    pub fn defaults() -> (r: Config)
        ensures
            r@.exe is None,
            r@.root_dir == Some(live_root()),
            r@.keep_env == Some(Seq::<Seq<char>>::empty()),
            r@.user is None,
            r@.exe_args.len() == 0,
            r@.bind_mounts.len() == 0,
    {
        proof {
            reveal_strlit("/");
        }
        let r = Config {
            exe: None,
            root_dir: Some("/".to_owned()),
            keep_env: Some(Vec::new()),
            user: None,
            exe_args: Vec::new(),
            bind_mounts: Vec::new(),
        };
        assert(r@.root_dir->0 =~= live_root());
        assert(r@.keep_env->0 =~= Seq::<Seq<char>>::empty());
        r
    }

    /// The jail root: the live root where none is configured.
    pub fn root(&self) -> (r: String)
        ensures
            r@ == match self@.root_dir {
                Some(dir) => dir,
                None => live_root(),
            },
    {
        proof {
            reveal_strlit("/");
        }
        match &self.root_dir {
            Some(dir) => dir.clone(),
            None => {
                let r = "/".to_owned();
                assert(r@ =~= live_root());
                r
            },
        }
    }

    /// The name of the user to run as: empty where none is configured.
    pub fn user_name(&self) -> (r: String)
        ensures
            r@ == match self@.user {
                Some(name) => name,
                None => Seq::<char>::empty(),
            },
    {
        match &self.user {
            Some(name) => name.clone(),
            None => String::new(),
        }
    }

    /// The environment variables to keep: none where no list is configured.
    pub fn kept_env(&self) -> (r: Vec<String>)
        ensures
            r.deep_view() == match self@.keep_env {
                Some(names) => names,
                None => Seq::<Seq<char>>::empty(),
            },
    {
        match &self.keep_env {
            Some(names) => copy_strings(names),
            None => {
                let r: Vec<String> = Vec::new();
                assert(r.deep_view() =~= Seq::<Seq<char>>::empty());
                r
            },
        }
    }

    /// The program to run and its arguments, as `command_of` says.
    pub fn command(&self) -> (r: Option<(String, Vec<String>)>)
        ensures
            match r {
                Some((exe, args)) => command_of(self@) == Some((exe@, args.deep_view())),
                None => command_of(self@) is None,
            },
    {
        match &self.exe {
            Some(exe) => Some((exe.clone(), copy_strings(&self.exe_args))),
            None => {
                if self.exe_args.len() == 0 {
                    None
                } else {
                    let exe = self.exe_args[0].clone();
                    let mut args = copy_strings(&self.exe_args);
                    if self.exe_args.len() > 1 {
                        let ghost all = args.deep_view();
                        args.remove(0);
                        assert(args.deep_view() =~= all.skip(1));
                    }
                    Some((exe, args))
                }
            },
        }
    }

    /// This configuration with `other` laid over it.
    ///
    /// A single value of `other` replaces ours; where `other` has none, ours
    /// stays. The arguments and the directives of `other` are appended to
    /// ours. The lists of variables are merged as `names_merged` says.
    pub fn overlay(self, other: Config) -> (r: Config)
        ensures
            r@.exe == later(self@.exe, other@.exe),
            r@.root_dir == later(self@.root_dir, other@.root_dir),
            r@.user == later(self@.user, other@.user),
            r@.exe_args == self@.exe_args + other@.exe_args,
            r@.bind_mounts == self@.bind_mounts + other@.bind_mounts,
            names_merged(self@.keep_env, other@.keep_env, r@.keep_env),
    {
        let Config { exe, root_dir, keep_env, user, exe_args, bind_mounts } = self;
        let Config {
            exe: other_exe,
            root_dir: other_root_dir,
            keep_env: other_keep_env,
            user: other_user,
            exe_args: other_exe_args,
            bind_mounts: other_bind_mounts,
        } = other;
        let keep_env = match keep_env {
            Some(k) => match other_keep_env {
                Some(l) => Some(merge_names(k, l)),
                None => Some(k),
            },
            None => other_keep_env,
        };
        let mut exe_args = exe_args;
        let mut other_exe_args = other_exe_args;
        exe_args.append(&mut other_exe_args);
        let mut bind_mounts = bind_mounts;
        let mut other_bind_mounts = other_bind_mounts;
        bind_mounts.append(&mut other_bind_mounts);
        Config {
            exe: pick(exe, other_exe),
            root_dir: pick(root_dir, other_root_dir),
            keep_env,
            user: pick(user, other_user),
            exe_args,
            bind_mounts,
        }
    }
}

impl Default for Config {
    fn default() -> (r: Config)
        ensures
            r@.exe is None,
            r@.root_dir is None,
            r@.keep_env is None,
            r@.user is None,
            r@.exe_args.len() == 0,
            r@.bind_mounts.len() == 0,
    {
        Config::new()
    }
}

/// Every name of either list once, in ascending order.
pub fn merge_names(ours: Vec<String>, theirs: Vec<String>) -> (r: Vec<String>)
    ensures
        strictly_ascending(r.deep_view()),
        r.deep_view().to_set() == (ours.deep_view() + theirs.deep_view()).to_set(),
{
    let mut all = texts_of(&ours);
    let mut more = texts_of(&theirs);
    let ghost first = all.deep_view();
    let ghost second = more.deep_view();
    all.append(&mut more);
    let ghost both = all.deep_view();
    assert(both =~= first + second);
    let sorted = sort_texts(all);
    let ghost up = sorted.deep_view();
    let names = dedup_sorted(sorted);
    proof {
        broadcast use vstd::seq_lib::group_to_multiset_ensures;

        assert forall|t: Seq<char>| up.to_set().contains(t) <==> both.to_set().contains(t) by {
            assert(up.contains(t) <==> up.to_multiset().count(t) > 0);
        }
    }
    strings_of(&names)
}

} // verus!
