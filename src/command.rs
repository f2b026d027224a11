//! A command received from a client, and typed access to its arguments.

use vstd::prelude::*;

use crate::path::{resolve_outcome, resolve_path, string_views};
use crate::text::{chars_eq, chars_of, string_of};

verus! {

/// An argument value, as far as the tasks read it.
pub enum ArgValue {
    Str(String),
    /// An array whose items are all strings.
    StrArray(Vec<String>),
    /// An object, with its members in order.
    Object(Vec<(String, ArgValue)>),
    /// Anything else: a number, a boolean, null, or an array that holds
    /// something other than strings.
    Other,
}

/// A command: its id, the frame (`a` or `b`) it was sent from, that frame's
/// directory, the task's name and the arguments, each key once.
pub struct Command {
    pub id: String,
    pub frame: String,
    pub cwd: String,
    pub name: String,
    pub args: Vec<(String, ArgValue)>,
}

/// The index of the first argument named `key`, if any.
pub open spec fn arg_index(args: Seq<(String, ArgValue)>, key: Seq<char>) -> Option<int> {
    if exists|i: int| 0 <= i < args.len() && #[trigger] args[i].0@ == key {
        Some(choose|i: int| 0 <= i < args.len() && #[trigger] args[i].0@ == key && forall|j: int| 0 <= j < i ==> args[j].0@ != key)
    } else {
        None
    }
}

/// The string argument `key`, if there is one.
pub open spec fn arg_str_view(args: Seq<(String, ArgValue)>, key: Seq<char>) -> Option<Seq<char>> {
    match arg_index(args, key) {
        Some(i) => match args[i].1 {
            ArgValue::Str(s) => Some(s@),
            _ => None,
        },
        None => None,
    }
}

/// The string-array argument `key`, if there is one.
pub open spec fn arg_str_array_view(args: Seq<(String, ArgValue)>, key: Seq<char>) -> Option<Seq<Seq<char>>> {
    match arg_index(args, key) {
        Some(i) => match args[i].1 {
            ArgValue::StrArray(v) => Some(string_views(v@)),
            _ => None,
        },
        None => None,
    }
}

/// The index of the first member named `key`.
fn find_arg(args: &Vec<(String, ArgValue)>, key: &str) -> (r: Option<usize>)
    ensures
        r matches Some(i) ==> i < args@.len(),
        match arg_index(args@, key@) {
            Some(i) => r matches Some(j) && j as int == i,
            None => r is None,
        },
{
    let kc = chars_of(key);
    let mut i: usize = 0;
    while i < args.len()
        invariant
            i <= args@.len(),
            kc@ == key@,
            forall|j: int| 0 <= j < i ==> args@[j].0@ != key@,
        decreases args@.len() - i,
    {
        if chars_eq(&chars_of(args[i].0.as_str()), &kc) {
            proof {
                let a = args@;
                assert(a[i as int].0@ == key@);
                assert(0 <= i < a.len() && a[i as int].0@ == key@ && forall|j: int| 0 <= j < i ==> a[j].0@ != key@);
                let c = choose|c: int| 0 <= c < a.len() && #[trigger] a[c].0@ == key@ && forall|j: int| 0 <= j < c ==> a[j].0@ != key@;
                if c < i {
                } else if c > i {
                    assert(a[i as int].0@ != key@);
                }
            }
            return Some(i);
        }
        i += 1;
    }
    None
}

/// The string member `key` of an object's members.
fn member_str(members: &Vec<(String, ArgValue)>, key: &str) -> (r: Option<String>)
    ensures
        match arg_str_view(members@, key@) {
            Some(s) => r matches Some(x) && x@ == s,
            None => r is None,
        },
{
    match find_arg(members, key) {
        Some(i) => match &members[i].1 {
            ArgValue::Str(s) => Some(string_of(&chars_of(s.as_str()))),
            _ => None,
        },
        None => None,
    }
}

/// The shell templates of a progress task: the command, and the command
/// that counts what it will do.
pub struct ProgressTaskConfig {
    pub cmd: String,
    pub total: String,
}

/// The shell template of a plain shell task.
pub struct ShTaskConfig {
    pub cmd: String,
}

/// The members of the object argument `key`, if it is one.
pub open spec fn arg_object_view(args: Seq<(String, ArgValue)>, key: Seq<char>) -> Option<Seq<(String, ArgValue)>> {
    match arg_index(args, key) {
        Some(i) => match args[i].1 {
            ArgValue::Object(m) => Some(m@),
            _ => None,
        },
        None => None,
    }
}

impl ProgressTaskConfig {
    /// The `config` argument's `cmd` and `total` strings, when both are
    /// there.
    pub fn from_command(cmd: &Command) -> (r: Option<ProgressTaskConfig>)
        ensures
            match arg_object_view(cmd.args@, "config"@) {
                Some(m) => match (arg_str_view(m, "cmd"@), arg_str_view(m, "total"@)) {
                    (Some(c), Some(t)) => r matches Some(x) && x.cmd@ == c && x.total@ == t,
                    _ => r is None,
                },
                None => r is None,
            },
    {
        match cmd.arg("config") {
            Some(ArgValue::Object(m)) => {
                match (member_str(m, "cmd"), member_str(m, "total")) {
                    (Some(c), Some(t)) => Some(ProgressTaskConfig { cmd: c, total: t }),
                    _ => None,
                }
            },
            _ => None,
        }
    }
}

impl ShTaskConfig {
    /// The `config` argument's `cmd` string, when it is there.
    pub fn from_command(cmd: &Command) -> (r: Option<ShTaskConfig>)
        ensures
            match arg_object_view(cmd.args@, "config"@) {
                Some(m) => match arg_str_view(m, "cmd"@) {
                    Some(c) => r matches Some(x) && x.cmd@ == c,
                    None => r is None,
                },
                None => r is None,
            },
    {
        match cmd.arg("config") {
            Some(ArgValue::Object(m)) => match member_str(m, "cmd") {
                Some(c) => Some(ShTaskConfig { cmd: c }),
                None => None,
            },
            _ => None,
        }
    }
}

impl Command {
    fn find(&self, key: &str) -> (r: Option<usize>)
        ensures
            r matches Some(i) ==> i < self.args@.len(),
            match arg_index(self.args@, key@) {
                Some(i) => r matches Some(j) && j as int == i,
                None => r is None,
            },
    {
        find_arg(&self.args, key)
    }

    /// The argument `key`, if there is one.
    pub fn arg(&self, key: &str) -> (r: Option<&ArgValue>)
        ensures
            match arg_index(self.args@, key@) {
                Some(i) => r == Some(&self.args@[i].1),
                None => r is None,
            },
    {
        match self.find(key) {
            Some(i) => Some(&self.args[i].1),
            None => None,
        }
    }

    /// The argument `key` when it is a string.
    pub fn arg_as_str(&self, key: &str) -> (r: Option<&str>)
        ensures
            match arg_str_view(self.args@, key@) {
                Some(s) => r matches Some(x) && x@ == s,
                None => r is None,
            },
    {
        match self.arg(key) {
            Some(ArgValue::Str(s)) => Some(s.as_str()),
            _ => None,
        }
    }

    /// The argument `key` when it is an array of strings.
    pub fn arg_as_str_array(&self, key: &str) -> (r: Option<Vec<String>>)
        ensures
            match arg_str_array_view(self.args@, key@) {
                Some(s) => r matches Some(x) && string_views(x@) == s,
                None => r is None,
            },
    {
        match self.arg(key) {
            Some(ArgValue::StrArray(v)) => {
                let mut r: Vec<String> = Vec::new();
                let mut i: usize = 0;
                while i < v.len()
                    invariant
                        i <= v@.len(),
                        string_views(r@) == string_views(v@).subrange(0, i as int),
                    decreases v@.len() - i,
                {
                    let ghost before = r@;
                    r.push(string_of(&chars_of(v[i].as_str())));
                    assert(string_views(r@) =~= string_views(before).push(v@[i as int]@));
                    i += 1;
                    assert(string_views(r@) =~= string_views(v@).subrange(0, i as int));
                }
                assert(string_views(v@).subrange(0, v@.len() as int) =~= string_views(v@));
                Some(r)
            },
            _ => None,
        }
    }

    /// The argument `key` as an absolute, normalised path: it must be a
    /// string; a leading `~` is the home directory and a relative path is
    /// joined onto `cwd`. None when it is no string, or when it is relative
    /// and `cwd` is empty or relative.
    pub fn arg_as_path(&self, key: &str, cwd: &str) -> (r: Option<String>)
        ensures
            match arg_str_view(self.args@, key@) {
                Some(p) => resolve_outcome(p, cwd@, match r {
                    Some(s) => Some(s@),
                    None => None,
                }),
                None => r is None,
            },
    {
        match self.arg_as_str(key) {
            Some(p) => resolve_path(p, cwd),
            None => None,
        }
    }

    /// The argument `key` as a list of absolute, normalised paths, each as
    /// `arg_as_path` makes it. None when it is no array of strings, or when
    /// any of them stands for no path.
    pub fn arg_as_path_array(&self, key: &str, cwd: &str) -> (r: Option<Vec<String>>)
        ensures
            arg_str_array_view(self.args@, key@) is None ==> r is None,
            r matches Some(v) ==> arg_str_array_view(self.args@, key@) matches Some(ps) && v@.len() == ps.len()
                && forall|i: int| 0 <= i < ps.len() ==> resolve_outcome(ps[i], cwd@, Some(#[trigger] v@[i]@)),
            (r is None && arg_str_array_view(self.args@, key@) is Some) ==> exists|i: int|
                0 <= i < arg_str_array_view(self.args@, key@)->Some_0.len() && resolve_outcome(
                    #[trigger] arg_str_array_view(self.args@, key@)->Some_0[i],
                    cwd@,
                    None,
                ),
    {
        let arr = match self.arg_as_str_array(key) {
            Some(a) => a,
            None => return None,
        };
        let ghost ps = string_views(arr@);
        let mut res: Vec<String> = Vec::new();
        let mut i: usize = 0;
        while i < arr.len()
            invariant
                i <= arr@.len(),
                ps == string_views(arr@),
                arg_str_array_view(self.args@, key@) == Some(ps),
                res@.len() == i,
                forall|j: int| 0 <= j < i ==> resolve_outcome(ps[j], cwd@, Some(#[trigger] res@[j]@)),
            decreases arr@.len() - i,
        {
            assert(ps[i as int] == arr@[i as int]@);
            match resolve_path(arr[i].as_str(), cwd) {
                Some(p) => {
                    res.push(p);
                },
                None => {
                    assert(arg_str_array_view(self.args@, key@) == Some(ps));
                    assert(resolve_outcome(ps[i as int], cwd@, None));
                    assert(resolve_outcome(arg_str_array_view(self.args@, key@)->Some_0[i as int], cwd@, None));
                    return None;
                },
            }
            i += 1;
        }
        Some(res)
    }
}

} // verus!
