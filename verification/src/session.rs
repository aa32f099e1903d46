//! A terminal tab's state: its working directory, environment, history,
//! last exit status and mock package list. No file system access here.

use vstd::prelude::*;
use crate::fs_abstraction::SandboxPath;
use crate::mock_packages::MockPackage;
use crate::parser::Env;
use crate::ids::{encode_ulid, fresh_ulid, ulid_text};
use crate::text::{chars_of, push_str, string_from_chars};

verus! {

/// A session's identifier: the 128-bit value of a ULID.
#[derive(Debug, Clone, Copy, PartialEq, Eq, Structural)]
pub struct SessionId(pub u128);

impl SessionId {
    /// A fresh identifier.
    pub fn new() -> (id: Self) {
        SessionId(fresh_ulid())
    }

    /// The identifier as shown: `sess_` and its ULID text.
    pub fn display(&self) -> (s: String)
        ensures
            s@ == "sess_"@ + ulid_text(self.0),
    {
        let mut out = chars_of("sess_");
        let text = encode_ulid(self.0);
        push_str(&mut out, text.as_str());
        string_from_chars(out.as_slice())
    }
}

/// The environment a new session starts with.
pub open spec fn default_env() -> Map<Seq<char>, Seq<char>> {
    map![
        "HOME"@ => "/home/user"@,
        "USER"@ => "user"@,
        "SHELL"@ => "/bin/safeshell"@,
        "LANG"@ => "en_US.UTF-8"@,
        "PWD"@ => "/"@,
        "PATH"@ => "/usr/bin:/bin"@,
    ]
}

/// One terminal tab's state.
pub struct TerminalSession {
    pub id: SessionId,
    cwd: SandboxPath,
    env: Env,
    history: Vec<String>,
    pub last_exit_status: i32,
    pub packages: Vec<MockPackage>,
}

impl TerminalSession {
    /// The working directory.
    pub closed spec fn cwd_view(&self) -> Seq<char> {
        self.cwd@
    }

    /// The environment's variables.
    pub closed spec fn env_view(&self) -> Map<Seq<char>, Seq<char>> {
        self.env@
    }

    /// The command lines entered so far, oldest first.
    pub closed spec fn history_view(&self) -> Seq<Seq<char>> {
        self.history@.map_values(|s: String| s@)
    }

    /// The names of the set environment variables, in the order they were
    /// first set.
    pub closed spec fn env_names_view(&self) -> Seq<Seq<char>> {
        self.env.names_view()
    }

    /// The installed mock packages, in installation order.
    pub closed spec fn packages_view(&self) -> Seq<MockPackage> {
        self.packages@
    }

    /// The exit status of the last command.
    pub closed spec fn exit_status_view(&self) -> i32 {
        self.last_exit_status
    }

    /// The session's identifier.
    pub closed spec fn id_view(&self) -> SessionId {
        self.id
    }

    /// A new session at the root, with the default environment, no
    /// history, exit status 0 and no packages.
    pub fn new() -> (s: Self)
        ensures
            s.cwd_view() == Seq::<char>::empty(),
            s.env_view() == default_env(),
            s.history_view().len() == 0,
            s.exit_status_view() == 0,
            s.packages_view().len() == 0,
    {
        let mut env = Env::new();
        env.set("HOME".to_string(), "/home/user".to_string());
        env.set("USER".to_string(), "user".to_string());
        env.set("SHELL".to_string(), "/bin/safeshell".to_string());
        env.set("LANG".to_string(), "en_US.UTF-8".to_string());
        env.set("PWD".to_string(), "/".to_string());
        env.set("PATH".to_string(), "/usr/bin:/bin".to_string());
        let cwd = SandboxPath::root();
        let s = TerminalSession {
            id: SessionId::new(),
            cwd,
            env,
            history: Vec::new(),
            last_exit_status: 0,
            packages: Vec::new(),
        };
        assert(s.env_view() =~= default_env());
        assert(s.history_view() =~= Seq::<Seq<char>>::empty());
        s
    }

    /// The working directory.
    pub fn cwd(&self) -> (p: &SandboxPath)
        ensures
            p@ == self.cwd_view(),
    {
        &self.cwd
    }

    /// Moves to `path` and keeps `PWD` equal to it, written from the root.
    /// The caller has checked that `path` is a directory.
    pub fn set_cwd(&mut self, path: SandboxPath)
        ensures
            final(self).cwd_view() == path@,
            final(self).env_view() == old(self).env_view().insert("PWD"@, seq!['/'] + path@),
            final(self).history_view() == old(self).history_view(),
            final(self).packages_view() == old(self).packages_view(),
            final(self).exit_status_view() == old(self).exit_status_view(),
            final(self).id_view() == old(self).id_view(),
    {
        let shown = path.display();
        self.env.set("PWD".to_string(), shown);
        self.cwd = path;
    }

    /// The environment, as `$NAME` expansion reads it.
    pub fn env(&self) -> (e: &Env)
        ensures
            e@ == self.env_view(),
            e.names_view() == self.env_names_view(),
    {
        &self.env
    }

    /// Sets an environment variable.
    pub fn export(&mut self, key: String, value: String)
        ensures
            final(self).env_view() == old(self).env_view().insert(key@, value@),
            final(self).cwd_view() == old(self).cwd_view(),
            final(self).history_view() == old(self).history_view(),
            final(self).packages_view() == old(self).packages_view(),
            final(self).exit_status_view() == old(self).exit_status_view(),
            final(self).id_view() == old(self).id_view(),
    {
        self.env.set(key, value);
    }

    /// The value of an environment variable, if set.
    pub fn get_env(&self, key: &str) -> (r: Option<String>)
        ensures
            match r {
                Some(v) => self.env_view().contains_key(key@) && v@ == self.env_view()[key@],
                None => !self.env_view().contains_key(key@),
            },
    {
        self.env.get(key)
    }

    /// Appends a command line to the history.
    pub fn record_history(&mut self, line: String)
        ensures
            final(self).history_view() == old(self).history_view().push(line@),
            final(self).env_view() == old(self).env_view(),
            final(self).cwd_view() == old(self).cwd_view(),
            final(self).packages_view() == old(self).packages_view(),
            final(self).exit_status_view() == old(self).exit_status_view(),
            final(self).id_view() == old(self).id_view(),
    {
        let ghost before = self.history_view();
        let ghost lv = line@;
        self.history.push(line);
        assert(self.history_view() =~= before.push(lv));
    }

    /// The installed mock packages, in installation order.
    pub fn packages(&self) -> (ps: &Vec<MockPackage>)
        ensures
            ps@ == self.packages_view(),
    {
        &self.packages
    }

    /// Adds a package after the installed ones.
    pub fn add_package(&mut self, package: MockPackage)
        ensures
            final(self).packages_view() == old(self).packages_view().push(package),
            final(self).env_view() == old(self).env_view(),
            final(self).cwd_view() == old(self).cwd_view(),
            final(self).history_view() == old(self).history_view(),
            final(self).exit_status_view() == old(self).exit_status_view(),
            final(self).id_view() == old(self).id_view(),
    {
        self.packages.push(package);
    }

    /// Removes the package at position `i`, giving it back.
    pub fn remove_package(&mut self, i: usize) -> (p: MockPackage)
        requires
            i < old(self).packages_view().len(),
        ensures
            p == old(self).packages_view()[i as int],
            final(self).packages_view() == old(self).packages_view().remove(i as int),
            final(self).env_view() == old(self).env_view(),
            final(self).cwd_view() == old(self).cwd_view(),
            final(self).history_view() == old(self).history_view(),
            final(self).exit_status_view() == old(self).exit_status_view(),
            final(self).id_view() == old(self).id_view(),
    {
        self.packages.remove(i)
    }

    /// The command lines entered so far, oldest first.
    pub fn history(&self) -> (h: &[String])
        ensures
            h@.map_values(|s: String| s@) == self.history_view(),
    {
        self.history.as_slice()
    }
}

impl Clone for TerminalSession {
    /// A copy with the same directory, environment, history, status and
    /// packages (a simulation runs against such a copy).
    fn clone(&self) -> (r: Self)
        ensures
            r.cwd_view() == self.cwd_view(),
            r.env_view() == self.env_view(),
            r.history_view() == self.history_view(),
            r.packages_view() == self.packages_view(),
            r.exit_status_view() == self.exit_status_view(),
            r.id_view() == self.id_view(),
    {
        let mut history: Vec<String> = Vec::new();
        let mut i: usize = 0;
        while i < self.history.len()
            invariant
                i <= self.history@.len(),
                history@.len() == i,
                forall|k: int| 0 <= k < i ==> #[trigger] history@[k]@ == self.history@[k]@,
            decreases self.history.len() - i,
        {
            history.push(self.history[i].clone());
            i = i + 1;
        }
        let mut packages: Vec<MockPackage> = Vec::new();
        let mut j: usize = 0;
        while j < self.packages.len()
            invariant
                j <= self.packages@.len(),
                packages@ == self.packages@.take(j as int),
            decreases self.packages.len() - j,
        {
            packages.push(self.packages[j].clone());
            j = j + 1;
            assert(packages@ =~= self.packages@.take(j as int));
        }
        assert(self.packages@.take(j as int) =~= self.packages@);
        let r = TerminalSession {
            id: self.id,
            cwd: self.cwd.clone(),
            env: self.env.clone(),
            history,
            last_exit_status: self.last_exit_status,
            packages,
        };
        assert(r.history_view() =~= self.history_view());
        r
    }
}

} // verus!
