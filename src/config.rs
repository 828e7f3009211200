//! Where the registry lives and which helper programs to run.
use vstd::prelude::*;
use crate::codec::{chars_of, push_char, push_str};
use crate::command::{Error, same_text};

verus! {

/// `dir` with `name` appended as one more path component.
pub open spec fn join_spec(dir: Seq<char>, name: Seq<char>) -> Seq<char> {
    if dir.len() > 0 && dir.last() == '/' {
        dir + name
    } else {
        dir + seq!['/'] + name
    }
}

/// `dir` with `name` appended as one more path component.
pub fn join(dir: &str, name: &str) -> (r: String)
    ensures
        r@ == join_spec(dir@, name@),
{
    let mut out = String::new();
    push_str(&mut out, dir);
    let c = chars_of(dir);
    if !(c.len() > 0 && c[c.len() - 1] == '/') {
        push_char(&mut out, '/');
    }
    push_str(&mut out, name);
    assert(c@ == dir@);
    assert(out@ =~= join_spec(dir@, name@));
    out
}

/// The places and programs the tool works with.
#[derive(Debug)]
pub struct Config {
    root: String,
    history: String,
    lock: String,
    registry: String,
    ls_cmd: &'static str,
    fzf_cmd: &'static str,
}

impl Config {
    pub closed spec fn root_spec(&self) -> Seq<char> {
        self.root@
    }

    pub closed spec fn history_spec(&self) -> Seq<char> {
        self.history@
    }

    pub closed spec fn registry_spec(&self) -> Seq<char> {
        self.registry@
    }

    pub closed spec fn ls_spec(&self) -> &'static str {
        self.ls_cmd
    }

    pub closed spec fn fzf_spec(&self) -> &'static str {
        self.fzf_cmd
    }

    /// The layout under `root`: the log is `root/history`, the registry
    /// `root/registry`, the lock `root/lock`.
    pub fn new(root: String, ls_cmd: &'static str, fzf_cmd: &'static str) -> (r: Config)
        ensures
            r.root_spec() == root@,
            r.history_spec() == join_spec(root@, "history"@),
            r.registry_spec() == join_spec(root@, "registry"@),
            r.ls_spec() == ls_cmd,
            r.fzf_spec() == fzf_cmd,
    {
        let history = join(root.as_str(), "history");
        let lock = join(root.as_str(), "lock");
        let registry = join(root.as_str(), "registry");
        Config { root, history, lock, registry, ls_cmd, fzf_cmd }
    }

    pub fn root(&self) -> (r: &str)
        ensures
            r@ == self.root_spec(),
    {
        self.root.as_str()
    }

    pub fn history(&self) -> (r: &str)
        ensures
            r@ == self.history_spec(),
    {
        self.history.as_str()
    }

    pub fn registry(&self) -> (r: &str)
        ensures
            r@ == self.registry_spec(),
    {
        self.registry.as_str()
    }

    pub fn fzf_cmd(&self) -> (r: &'static str)
        ensures
            r == self.fzf_spec(),
    {
        self.fzf_cmd
    }

    pub fn ls_cmd(&self) -> (r: &'static str)
        ensures
            r == self.ls_spec(),
    {
        self.ls_cmd
    }
}

/// The lister when none is asked for: `exa` where it is installed.
pub fn default_ls_cmd(exa_exists: bool) -> (r: &'static str)
    ensures
        r == (if exa_exists {
            "exa"
        } else {
            "ls"
        }),
{
    if exa_exists {
        "exa"
    } else {
        "ls"
    }
}

/// The lister, given what `$REM_LS` holds and whether `exa` is installed;
/// with the error to show when the variable names no usable lister.
pub fn get_ls_cmd(var: Option<&str>, exa_exists: bool) -> (r: (&'static str, Option<Error>))
    ensures
        match var {
            None => r.0 == default_ls_cmd_spec(exa_exists) && r.1 is None,
            Some(v) => if v@ == "ls"@ {
                r.0 == "ls" && r.1 is None
            } else if v@ == "exa"@ && exa_exists {
                r.0 == "exa" && r.1 is None
            } else {
                r.0 == default_ls_cmd_spec(exa_exists) && (r.1 matches Some(Error::InvalidVarLs(t))
                    && t@ == v@)
            },
        },
{
    match var {
        None => (default_ls_cmd(exa_exists), None),
        Some(v) => if same_text(v, "ls") {
            ("ls", None)
        } else if same_text(v, "exa") && exa_exists {
            ("exa", None)
        } else {
            (default_ls_cmd(exa_exists), Some(Error::InvalidVarLs(v.to_owned())))
        },
    }
}

pub open spec fn default_ls_cmd_spec(exa_exists: bool) -> &'static str {
    if exa_exists {
        "exa"
    } else {
        "ls"
    }
}

pub open spec fn default_fzf_cmd_spec(sk_exists: bool, fzf_exists: bool) -> &'static str {
    if sk_exists {
        "sk"
    } else if fzf_exists {
        "fzf"
    } else {
        "sk"
    }
}

/// The picker when none is asked for: `sk`, else `fzf`; with a notice when
/// neither is installed.
pub fn default_fzf_cmd(sk_exists: bool, fzf_exists: bool) -> (r: (&'static str, Option<Error>))
    ensures
        r.0 == default_fzf_cmd_spec(sk_exists, fzf_exists),
        r.1 is Some <==> !sk_exists && !fzf_exists,
        r.1 matches Some(e) ==> e is NoInstalledFzf,
{
    if sk_exists {
        ("sk", None)
    } else if fzf_exists {
        ("fzf", None)
    } else {
        ("sk", Some(Error::NoInstalledFzf))
    }
}

/// `$REM_FZF` holds something other than an installed `fzf` or `sk`.
pub open spec fn fzf_var_rejected(var: Option<&str>, fzf_exists: bool, sk_exists: bool) -> bool {
    match var {
        Some(v) => !(v@ == "fzf"@ && fzf_exists) && !(v@ == "sk"@ && sk_exists),
        None => false,
    }
}

/// The picker, given what `$REM_FZF` holds and which pickers are installed;
/// with the errors to show on the way: the rejected variable first, then
/// the notice that no picker is installed.
pub fn get_fzf_cmd(var: Option<&str>, fzf_exists: bool, sk_exists: bool) -> (r: (&'static str, Vec<Error>))
    ensures
        r.0 == (match var {
            Some(v) => if v@ == "fzf"@ && fzf_exists {
                "fzf"
            } else if v@ == "sk"@ && sk_exists {
                "sk"
            } else {
                default_fzf_cmd_spec(sk_exists, fzf_exists)
            },
            None => default_fzf_cmd_spec(sk_exists, fzf_exists),
        }),
        ({
            let rejected = fzf_var_rejected(var, fzf_exists, sk_exists);
            let missing = (var is None || rejected) && !sk_exists && !fzf_exists;
            &&& r.1@.len() == (if rejected {
                1int
            } else {
                0int
            }) + (if missing {
                1int
            } else {
                0int
            })
            &&& rejected ==> (r.1@[0] matches Error::InvalidVarFzf(t) && t@ == var->0@)
            &&& missing ==> r.1@.last() is NoInstalledFzf
        }),
{
    let mut notes: Vec<Error> = Vec::new();
    let chosen = match var {
        Some(v) => if same_text(v, "fzf") && fzf_exists {
            "fzf"
        } else if same_text(v, "sk") && sk_exists {
            "sk"
        } else {
            notes.push(Error::InvalidVarFzf(v.to_owned()));
            let (d, note) = default_fzf_cmd(sk_exists, fzf_exists);
            match note {
                Some(n) => notes.push(n),
                None => {},
            }
            d
        },
        None => {
            let (d, note) = default_fzf_cmd(sk_exists, fzf_exists);
            match note {
                Some(n) => notes.push(n),
                None => {},
            }
            d
        },
    };
    (chosen, notes)
}

} // verus!
