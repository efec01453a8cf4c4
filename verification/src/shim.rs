//! The interception module's decision logic.
//!
//! The module itself lives in the target process: a load-time hook resolves
//! the real library's entry points, reads the environment, and stores the
//! outcome; every intercepted entry point then applies the configured
//! options, in order, to the request handle before delegating.  All of those
//! decisions are made here over plain values; the process-global state, the
//! symbol resolution and the actual foreign calls stay outside the library.

use vstd::prelude::*;

use crate::codec::opts_view;
use crate::codec::spec_parse_options;
use crate::error::DecodeError;
use crate::error::DecodeErrorV;
use crate::options::SetOption;
use crate::options::SetOptionV;
use crate::options::eq_ignore_ascii_case_bytes;
use crate::options::spec_eq_ci;
use crate::preload::spec_strip_preload;
use crate::preload::strip_preload_entry;

verus! {

/// Which of the real library's entry points the loader found.
#[derive(Clone, Copy, Debug, PartialEq, Eq, Structural)]
pub struct ResolvedEntryPoints {
    pub easy_perform: bool,
    pub easy_setopt: bool,
    pub multi_add_handle: bool,
}

impl ResolvedEntryPoints {
    /// All entry points were found.
    pub open spec fn spec_complete(self) -> bool {
        self.easy_perform && self.easy_setopt && self.multi_add_handle
    }
}

/// Why initialization failed.  A failed module cannot safely delegate, so a
/// later intercepted call aborts the process rather than silently bypassing
/// the interception the operator asked for.
#[derive(Debug)]
pub enum InitError {
    /// Some entry point of the real library could not be resolved.
    MissingSymbol,
    /// The encoded option list in the environment does not decode.
    BadOptionString(DecodeError),
}

/// Mathematical model of `InitError`.
pub enum InitErrorV {
    MissingSymbol,
    BadOptionString(DecodeErrorV),
}

impl View for InitError {
    type V = InitErrorV;

    open spec fn view(&self) -> InitErrorV {
        match self {
            InitError::MissingSymbol => InitErrorV::MissingSymbol,
            InitError::BadOptionString(e) => InitErrorV::BadOptionString(e@),
        }
    }
}

/// The context a successfully initialized module keeps for the process's
/// lifetime: the decoded option list and the debug flag.  It is created once
/// and never changed afterwards.
#[derive(Debug)]
pub struct ShimContext {
    pub options: Vec<SetOption>,
    pub debug: bool,
}

/// A byte string that counts as false: `0`, `false` or `off`, ignoring
/// ASCII case.
pub open spec fn spec_falsy_word(s: Seq<u8>) -> bool {
    spec_eq_ci(s, seq![48u8]) || spec_eq_ci(s, seq![102u8, 97u8, 108u8, 115u8, 101u8])
        || spec_eq_ci(s, seq![111u8, 102u8, 102u8])
}

/// Truthiness of an environment value: absent or a falsy word means false,
/// any other present value means true.
pub open spec fn spec_env_truthy(v: Option<Seq<u8>>) -> bool {
    match v {
        None => false,
        Some(s) => !spec_falsy_word(s),
    }
}

/// Is this environment value truthy?
pub fn env_bool(value: Option<&Vec<u8>>) -> (r: bool)
    ensures
        r == spec_env_truthy(
            match value {
                Some(s) => Some(s@),
                None => None::<Seq<u8>>,
            },
        ),
{
    match value {
        None => false,
        Some(s) => {
            let zero: Vec<u8> = vec![48u8];
            let word_false: Vec<u8> = vec![102u8, 97u8, 108u8, 115u8, 101u8];
            let word_off: Vec<u8> = vec![111u8, 102u8, 102u8];
            let falsy = eq_ignore_ascii_case_bytes(s.as_slice(), zero.as_slice())
                || eq_ignore_ascii_case_bytes(s.as_slice(), word_false.as_slice())
                || eq_ignore_ascii_case_bytes(s.as_slice(), word_off.as_slice());
            !falsy
        },
    }
}

/// The option list the environment carries: empty when the variable is
/// absent, decoded otherwise.
pub open spec fn spec_env_options(v: Option<Seq<u8>>) -> Result<Seq<SetOptionV>, DecodeErrorV> {
    match v {
        None => Ok(Seq::empty()),
        Some(s) => spec_parse_options(s),
    }
}

/// One-time initialization: decode the option list from the environment,
/// read the debug flag, and check that every entry point was resolved.  A
/// bad option string is a protocol error and wins over a missing symbol;
/// either way the module ends up failed rather than half-configured.
pub fn shim_init(
    resolved: ResolvedEntryPoints,
    opt_env: Option<&Vec<u8>>,
    debug_env: Option<&Vec<u8>>,
) -> (r: Result<ShimContext, InitError>)
    ensures
        ({
            let parsed = spec_env_options(
                match opt_env {
                    Some(s) => Some(s@),
                    None => None::<Seq<u8>>,
                },
            );
            match parsed {
                Err(ev) => r matches Err(ie) && ie@ == InitErrorV::BadOptionString(ev),
                Ok(sv) => if resolved.spec_complete() {
                    r matches Ok(ctx) && opts_view(ctx.options@) == sv && ctx.debug
                        == spec_env_truthy(
                        match debug_env {
                            Some(s) => Some(s@),
                            None => None::<Seq<u8>>,
                        },
                    )
                } else {
                    r matches Err(ie) && ie@ == InitErrorV::MissingSymbol
                },
            }
        }),
{
    let options = match opt_env {
        Some(s) => match crate::codec::parse_options(s.as_slice()) {
            Ok(v) => v,
            Err(e) => {
                return Err(InitError::BadOptionString(e));
            },
        },
        None => {
            let empty: Vec<SetOption> = Vec::new();
            proof {
                assert(opts_view(empty@) =~= Seq::<SetOptionV>::empty());
            }
            empty
        },
    };
    if !(resolved.easy_perform && resolved.easy_setopt && resolved.multi_add_handle) {
        return Err(InitError::MissingSymbol);
    }
    Ok(ShimContext { options, debug: env_bool(debug_env) })
}

/// The preload chain to hand on to child processes when self-propagation is
/// switched off: the current chain with the module's own entry removed.
/// `None` means the chain is left untouched.
pub fn preload_without_self(no_inherit: Option<&Vec<u8>>, ld_preload: Option<&Vec<u8>>) -> (r:
    Option<Vec<u8>>)
    ensures
        match (no_inherit, ld_preload) {
            (Some(marker), Some(chain)) => r matches Some(c) && c@ == spec_strip_preload(
                chain@,
                marker@,
            ),
            _ => r is None,
        },
{
    match (no_inherit, ld_preload) {
        (Some(marker), Some(chain)) => Some(
            strip_preload_entry(chain.as_slice(), marker.as_slice()),
        ),
        _ => None,
    }
}

/// One step of an intercepted call.
#[derive(Debug)]
pub enum CallAction {
    /// Set this option on the request handle through the real option-setting
    /// entry point.  A rejected option is logged and skipped; it never stops
    /// the remaining steps.
    Apply(SetOption),
    /// Forward to the resolved original entry point with the original
    /// arguments and hand its result back unchanged.
    Delegate,
    /// The module failed to initialize: abort the process.
    Abort,
}

/// Mathematical model of `CallAction`.
pub enum CallActionV {
    Apply(SetOptionV),
    Delegate,
    Abort,
}

impl View for CallAction {
    type V = CallActionV;

    open spec fn view(&self) -> CallActionV {
        match self {
            CallAction::Apply(o) => CallActionV::Apply(o@),
            CallAction::Delegate => CallActionV::Delegate,
            CallAction::Abort => CallActionV::Abort,
        }
    }
}

/// The views of a sequence of actions.
pub open spec fn actions_view(s: Seq<CallAction>) -> Seq<CallActionV> {
    Seq::new(s.len(), |i: int| s[i]@)
}

/// The steps of a call through a ready module: apply every configured
/// option, in list order, then delegate.
pub open spec fn spec_call_plan(opts: Seq<SetOptionV>) -> Seq<CallActionV> {
    Seq::new(opts.len(), |i: int| CallActionV::Apply(opts[i])).push(CallActionV::Delegate)
}

/// The steps an intercepted entry point performs for one call: with a ready
/// module, every configured option is applied to the handle in list order
/// and the call is then delegated; with a failed module the process aborts.
pub fn call_actions(state: &Result<ShimContext, InitError>) -> (r: Vec<CallAction>)
    ensures
        match state {
            Ok(ctx) => actions_view(r@) == spec_call_plan(opts_view(ctx.options@)),
            Err(_) => actions_view(r@) == seq![CallActionV::Abort],
        },
{
    let mut plan: Vec<CallAction> = Vec::new();
    match state {
        Ok(ctx) => {
            let mut i: usize = 0;
            while i < ctx.options.len()
                invariant
                    i <= ctx.options@.len(),
                    actions_view(plan@) == Seq::new(
                        i as nat,
                        |k: int| CallActionV::Apply(opts_view(ctx.options@)[k]),
                    ),
                decreases ctx.options@.len() - i,
            {
                let ghost before = plan@;
                proof {
                    assert(actions_view(before).len() == before.len());
                    assert(before.len() == i as int);
                }
                plan.push(CallAction::Apply(ctx.options[i].clone()));
                proof {
                    assert(plan@ == before.push(plan@[i as int]));
                    assert forall|k: int| 0 <= k < i + 1 implies actions_view(plan@)[k]
                        == CallActionV::Apply(opts_view(ctx.options@)[k]) by {
                        if k < i {
                            assert(plan@[k] == before[k]);
                            assert(actions_view(before)[k] == CallActionV::Apply(
                                opts_view(ctx.options@)[k],
                            ));
                        } else {
                            assert(plan@[k]@ == CallActionV::Apply(ctx.options@[k]@));
                        }
                    }
                    assert(actions_view(plan@) =~= Seq::new(
                        (i + 1) as nat,
                        |k: int| CallActionV::Apply(opts_view(ctx.options@)[k]),
                    ));
                }
                i = i + 1;
            }
            plan.push(CallAction::Delegate);
            proof {
                assert(actions_view(plan@) =~= spec_call_plan(opts_view(ctx.options@)));
            }
        },
        Err(_) => {
            plan.push(CallAction::Abort);
            proof {
                assert(actions_view(plan@) =~= seq![CallActionV::Abort]);
            }
        },
    }
    plan
}

} // verus!
