use curl_inject_opt::error::DecodeError;
use curl_inject_opt::options::Value;
use curl_inject_opt::shim::{
    call_actions, env_bool, preload_without_self, shim_init, CallAction, InitError,
    ResolvedEntryPoints, ShimContext,
};

const ALL_RESOLVED: ResolvedEntryPoints =
    ResolvedEntryPoints { easy_perform: true, easy_setopt: true, multi_add_handle: true };

#[test]
fn init_decodes_the_environment() {
    let env = b"client-cert=/tmp/c.pem,timeout=10".to_vec();
    let ctx = shim_init(ALL_RESOLVED, Some(&env), None).unwrap();
    assert_eq!(ctx.options.len(), 2);
    assert_eq!(ctx.options[0].name, "client-cert");
    assert_eq!(ctx.options[1].name, "timeout");
    assert!(!ctx.debug);
}

#[test]
fn init_without_the_variable_sets_no_options() {
    let ctx = shim_init(ALL_RESOLVED, None, None).unwrap();
    assert!(ctx.options.is_empty());
}

#[test]
fn init_fails_when_a_symbol_is_missing() {
    let partial = ResolvedEntryPoints { easy_perform: true, easy_setopt: false, multi_add_handle: true };
    assert!(matches!(shim_init(partial, None, None), Err(InitError::MissingSymbol)));
}

#[test]
fn init_fails_on_a_corrupt_option_string() {
    let env = b"what-is-this=1".to_vec();
    match shim_init(ALL_RESOLVED, Some(&env), None) {
        Err(InitError::BadOptionString(DecodeError::UnknownOption(name))) => {
            assert_eq!(name, b"what-is-this".to_vec());
        },
        other => panic!("expected a protocol error, got {:?}", other.map(|c| c.options.len())),
    }
}

#[test]
fn debug_flag_reads_truthy_words() {
    let on = b"1".to_vec();
    let ctx = shim_init(ALL_RESOLVED, None, Some(&on)).unwrap();
    assert!(ctx.debug);
    assert!(env_bool(Some(&b"true".to_vec())));
    assert!(env_bool(Some(&b"on".to_vec())));
    assert!(env_bool(Some(&b"anything".to_vec())));
    assert!(!env_bool(Some(&b"0".to_vec())));
    assert!(!env_bool(Some(&b"false".to_vec())));
    assert!(!env_bool(Some(&b"OFF".to_vec())));
    assert!(!env_bool(None));
}

#[test]
fn no_inherit_strips_the_shim_from_the_chain() {
    let marker = b"/lib/shim.so".to_vec();
    let chain = b"/lib/shim.so:/a:/b".to_vec();
    assert_eq!(
        preload_without_self(Some(&marker), Some(&chain)),
        Some(b"/a:/b".to_vec())
    );
    assert_eq!(preload_without_self(None, Some(&chain)), None);
    assert_eq!(preload_without_self(Some(&marker), None), None);
}

/// A stub original library that records the calls made through it.
struct Recorder {
    calls: Vec<String>,
}

impl Recorder {
    fn run(&mut self, actions: &[CallAction]) {
        for action in actions {
            match action {
                CallAction::Apply(o) => {
                    let shown = match &o.value {
                        Value::Text(t) => String::from_utf8(t.clone()).unwrap(),
                        Value::Integer(n) => format!("{}", n),
                    };
                    self.calls.push(format!("setopt {} {}", o.option, shown));
                },
                CallAction::Delegate => self.calls.push("perform".to_string()),
                CallAction::Abort => self.calls.push("abort".to_string()),
            }
        }
    }
}

#[test]
fn intercepted_call_applies_options_before_delegating() {
    let env = b"client-cert=/tmp/c.pem".to_vec();
    let state: Result<ShimContext, InitError> = shim_init(ALL_RESOLVED, Some(&env), None);
    let actions = call_actions(&state);
    let mut recorder = Recorder { calls: Vec::new() };
    recorder.run(&actions);
    assert_eq!(
        recorder.calls,
        vec!["setopt 10025 /tmp/c.pem".to_string(), "perform".to_string()]
    );
}

#[test]
fn options_are_applied_in_list_order() {
    let env = b"timeout=10,verbose=1,timeout=20".to_vec();
    let state: Result<ShimContext, InitError> = shim_init(ALL_RESOLVED, Some(&env), None);
    let actions = call_actions(&state);
    let mut recorder = Recorder { calls: Vec::new() };
    recorder.run(&actions);
    assert_eq!(
        recorder.calls,
        vec![
            "setopt 155 10".to_string(),
            "setopt 41 1".to_string(),
            "setopt 155 20".to_string(),
            "perform".to_string(),
        ]
    );
}

#[test]
fn a_failed_module_aborts_instead_of_delegating() {
    let none = ResolvedEntryPoints { easy_perform: false, easy_setopt: false, multi_add_handle: false };
    let state: Result<ShimContext, InitError> = shim_init(none, None, None);
    let actions = call_actions(&state);
    let mut recorder = Recorder { calls: Vec::new() };
    recorder.run(&actions);
    assert_eq!(recorder.calls, vec!["abort".to_string()]);
}
