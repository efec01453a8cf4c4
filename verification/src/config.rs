//! Installation-prefix configuration and the names of the environment
//! variables the launcher and the interception module share.

use vstd::prelude::*;

verus! {

/// The environment variable carrying the encoded option list.
pub const OPT_ENV_VAR: &'static str = "CURL_INJECT_OPT";

/// The environment variable that switches on debug output in the
/// interception module.
pub const DEBUG_ENV_VAR: &'static str = "CURL_INJECT_OPT_DEBUG";

/// The environment variable holding the preload-chain entry the
/// interception module strips out of the chain it hands on to children.
pub const NO_INHERIT_ENV_VAR: &'static str = "CURL_INJECT_OPT_NO_INHERIT";

/// The dynamic loader's preload-chain variable.
pub const PRELOAD_ENV_VAR: &'static str = "LD_PRELOAD";

/// The file name of the interception module.
pub const PRELOAD_LIB_NAME: &'static str = "libcurl_inject_opt_preload.so";

/// The configured installation prefix.
pub fn prefix_raw() -> (r: &'static str)
    ensures
        r@ == ("/usr/local")@,
{
    "/usr/local"
}

/// The library directory, relative to the prefix.
pub fn libdir_raw() -> (r: &'static str)
    ensures
        r@ == ("lib")@,
{
    "lib"
}

/// The binary directory, relative to the prefix.
pub fn bindir_raw() -> (r: &'static str)
    ensures
        r@ == ("bin")@,
{
    "bin"
}

/// The data directory, relative to the prefix.
pub fn datadir_raw() -> (r: &'static str)
    ensures
        r@ == ("share")@,
{
    "share"
}

/// Whether the launcher relies on the loader's own library search instead of
/// an absolute path to the interception module.
pub fn rely_on_search() -> (r: bool)
    ensures
        r == false,
{
    false
}

/// The configured installation prefix.
pub fn prefix() -> (r: &'static str)
    ensures
        r@ == ("/usr/local")@,
{
    "/usr/local"
}

/// The resolved library directory: the prefix joined with the relative
/// library directory.
pub fn libdir() -> (r: &'static str)
    ensures
        r@ == ("/usr/local/lib")@,
        r@ == crate::install::spec_concat_paths(("/usr/local")@, ("lib")@),
{
    proof {
        reveal_strlit("/usr/local/lib");
        reveal_strlit("/usr/local");
        reveal_strlit("lib");
        reveal_strlit("/");
        assert(("/usr/local")@ + seq!['/'] + ("lib")@ =~= ("/usr/local/lib")@);
    }
    "/usr/local/lib"
}

/// The resolved binary directory: the prefix joined with the relative
/// binary directory.
pub fn bindir() -> (r: &'static str)
    ensures
        r@ == ("/usr/local/bin")@,
        r@ == crate::install::spec_concat_paths(("/usr/local")@, ("bin")@),
{
    proof {
        reveal_strlit("/usr/local/bin");
        reveal_strlit("/usr/local");
        reveal_strlit("bin");
        reveal_strlit("/");
        assert(("/usr/local")@ + seq!['/'] + ("bin")@ =~= ("/usr/local/bin")@);
    }
    "/usr/local/bin"
}

/// The resolved data directory: the prefix joined with the relative data
/// directory.
pub fn datadir() -> (r: &'static str)
    ensures
        r@ == ("/usr/local/share")@,
        r@ == crate::install::spec_concat_paths(("/usr/local")@, ("share")@),
{
    proof {
        reveal_strlit("/usr/local/share");
        reveal_strlit("/usr/local");
        reveal_strlit("share");
        reveal_strlit("/");
        assert(("/usr/local")@ + seq!['/'] + ("share")@ =~= ("/usr/local/share")@);
    }
    "/usr/local/share"
}

} // verus!
