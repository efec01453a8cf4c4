//! Path construction for the installation procedure.
//!
//! Installation itself is file I/O and stays outside the library; what is
//! decided here is where everything goes: the destination directories under
//! a fake root, and which shell-completion directories are wanted.

use vstd::prelude::*;
use vstd::string::StringExecFns;
use vstd::string::StrSliceExecFns;

verus! {

/// Join two paths: a bare root prefix disappears, an absolute second path is
/// appended as it stands, a relative one after a separator.
pub open spec fn spec_concat_paths(a: Seq<char>, b: Seq<char>) -> Seq<char> {
    if a == seq!['/'] {
        b
    } else if b.len() > 0 && b[0] == '/' {
        a + b
    } else {
        a + seq!['/'] + b
    }
}

/// Join two paths.
pub fn concat_paths(a: &str, b: &str) -> (r: String)
    ensures
        r@ == spec_concat_paths(a@, b@),
{
    let a_is_root = a.unicode_len() == 1 && a.get_char(0) == '/';
    if a_is_root {
        proof {
            assert(a@ =~= seq!['/']);
        }
        return String::from_str(b);
    }
    proof {
        assert(a@ != seq!['/']);
    }
    let mut r = String::from_str(a);
    let b_abs = b.unicode_len() > 0 && b.get_char(0) == '/';
    if !b_abs {
        r.append("/");
        proof {
            reveal_strlit("/");
            assert(("/")@ =~= seq!['/']);
        }
    }
    r.append(b);
    r
}

/// Where the installation procedure puts everything: the directories for
/// the launcher binary and the interception module, and the directories for
/// the shell completions that were asked for.
pub struct InstallPlan {
    pub bindir: String,
    pub libdir: String,
    pub bashdir: Option<String>,
    pub zshdir: Option<String>,
    pub fishdir: Option<String>,
}

/// Compute the installation plan for a destination root.
pub fn install_plan(destdir: &str, bash: bool, zsh: bool, fish: bool) -> (r: InstallPlan)
    ensures
        r.bindir@ == spec_concat_paths(destdir@, ("/usr/local/bin")@),
        r.libdir@ == spec_concat_paths(destdir@, ("/usr/local/lib")@),
        match r.bashdir {
            Some(d) => bash && d@ == spec_concat_paths(
                spec_concat_paths(destdir@, ("/usr/local/share")@),
                ("bash-completion/completions")@,
            ),
            None => !bash,
        },
        match r.zshdir {
            Some(d) => zsh && d@ == spec_concat_paths(
                spec_concat_paths(destdir@, ("/usr/local/share")@),
                ("zsh/site-functions")@,
            ),
            None => !zsh,
        },
        match r.fishdir {
            Some(d) => fish && d@ == spec_concat_paths(
                spec_concat_paths(destdir@, ("/usr/local/share")@),
                ("fish/vendor_completions.d")@,
            ),
            None => !fish,
        },
{
    let bindir = concat_paths(destdir, crate::config::bindir());
    let libdir = concat_paths(destdir, crate::config::libdir());
    let datadir = concat_paths(destdir, crate::config::datadir());
    let bashdir = if bash {
        Some(concat_paths(datadir.as_str(), "bash-completion/completions"))
    } else {
        None
    };
    let zshdir = if zsh {
        Some(concat_paths(datadir.as_str(), "zsh/site-functions"))
    } else {
        None
    };
    let fishdir = if fish {
        Some(concat_paths(datadir.as_str(), "fish/vendor_completions.d"))
    } else {
        None
    };
    InstallPlan { bindir, libdir, bashdir, zshdir, fishdir }
}

} // verus!
