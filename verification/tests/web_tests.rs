use watchlock::broadcast_channel;
use watchlock::netops::{op_set_nodelay, OpState, TcpStreamResource};
use watchlock::web;

/// Standard base64 round trip through the real encoder and decoder; a
/// wrapper handing its input back unchanged would fail every case.
#[test]
fn base64_encode_decode() {
    assert_eq!(web::op_base64_encode(&vec![]), "");
    assert_eq!(web::op_base64_encode(&b"abc".to_vec()), "YWJj");
    assert_eq!(web::op_base64_encode(&b"ab".to_vec()), "YWI=");
    let decoded = web::op_base64_decode(&b"YWJj".to_vec()).unwrap();
    assert_eq!(decoded, b"abc".to_vec());
    // forgiving decoding: ASCII whitespace is ignored
    let decoded = web::op_base64_atob(&b"YW Jj".to_vec()).unwrap();
    assert_eq!(decoded, b"abc".to_vec());
    let err = web::op_base64_decode(&b"!!!".to_vec()).unwrap_err();
    assert_eq!(err.msg, "Failed to decode base64");
}

/// Label normalization goes through the real encoding table and
/// lowercases the canonical name; an unknown label is named in the
/// error message.
#[test]
fn encoding_label_normalization() {
    assert_eq!(
        web::op_encoding_normalize_label(&"utf8".to_string()).unwrap(),
        "utf-8"
    );
    assert_eq!(
        web::op_encoding_normalize_label(&"Latin1".to_string()).unwrap(),
        "windows-1252"
    );
    let err = web::op_encoding_normalize_label(&"no-such-encoding".to_string()).unwrap_err();
    assert_eq!(err, "The encoding label provided ('no-such-encoding') is invalid.");
}

/// UTF-8 byte-order marks are stripped exactly when present and not
/// ignored.
#[test]
fn utf8_bom_stripping() {
    let with_bom = vec![0xef, 0xbb, 0xbf, b'h', b'i'];
    assert_eq!(web::strip_utf8_bom(&with_bom, false), vec![b'h', b'i']);
    assert_eq!(web::strip_utf8_bom(&with_bom, true), with_bom);
    let plain = vec![b'h', b'i'];
    assert_eq!(web::strip_utf8_bom(&plain, false), plain);
}

/// The DOM exception values carry their messages and class names; an
/// error that is neither has no class name.
#[test]
fn dom_exceptions() {
    let q = web::DomExceptionQuotaExceededError::new("quota gone");
    assert_eq!(q.msg, "quota gone");
    let c = web::DomExceptionInvalidCharacterError::new("bad char");
    assert_eq!(c.msg, "bad char");
    assert_eq!(
        web::get_error_class_name(Some(web::DomExceptionKind::QuotaExceeded)),
        Some("DOMExceptionQuotaExceededError")
    );
    assert_eq!(
        web::get_error_class_name(Some(web::DomExceptionKind::InvalidCharacter)),
        Some("DOMExceptionInvalidCharacterError")
    );
    assert_eq!(web::get_error_class_name(None), None);
}

/// Each component names its declaration file.
#[test]
fn declarations() {
    assert_eq!(web::get_declaration(), "lib.deno_web.d.ts");
    assert_eq!(
        broadcast_channel::get_declaration(),
        "lib.deno_broadcast_channel.d.ts"
    );
}

/// Toggling no-delay touches exactly the named stream; an unknown id
/// is an error and changes nothing.
#[test]
fn set_nodelay() {
    let mut state = OpState {
        resources: vec![
            TcpStreamResource { rid: 3, nodelay: false },
            TcpStreamResource { rid: 7, nodelay: false },
        ],
    };
    assert!(op_set_nodelay(&mut state, 7, true).is_ok());
    assert_eq!(state.resources[0], TcpStreamResource { rid: 3, nodelay: false });
    assert_eq!(state.resources[1], TcpStreamResource { rid: 7, nodelay: true });
    assert!(op_set_nodelay(&mut state, 99, true).is_err());
    assert_eq!(state.resources.len(), 2);
}

use watchlock::noderuntime;
use watchlock::subcommand::{exit_code_for, run_with_watch, CliFailure, DenoSubcommand};

/// Script-string escaping doubles backslashes and guards single
/// quotes, and nothing else.
#[test]
fn single_quote_escaping() {
    assert_eq!(
        noderuntime::escape_for_single_quote_string(&"a'b\\c".to_string()),
        "a\\'b\\\\c"
    );
    assert_eq!(
        noderuntime::escape_for_single_quote_string(&"plain".to_string()),
        "plain"
    );
}

/// The CommonJS loader script splices the module name in escaped, so
/// a quoted module name cannot break out of the script string.
#[test]
fn cjs_loader_script() {
    let src = noderuntime::load_cjs_module_source(&"mod_a".to_string(), true, false);
    assert_eq!(
        src,
        "(function loadCjsModule(moduleName, isMain, inspectBrk) { Deno[Deno.internal].node.loadCjsModule(moduleName, isMain, inspectBrk); })('mod_a', true, false);"
    );
    let sneaky = noderuntime::load_cjs_module_source(&"a');evil('".to_string(), false, false);
    assert!(sneaky.contains("('a\\');evil(\\'', false, false);"));
    let init = noderuntime::initialize_runtime_source(&"nodeGlobal".to_string(), false, None);
    assert!(init.contains("'nodeGlobal', false, undefined"));
    assert!(init.contains("configurable: false"));
    let named = noderuntime::initialize_runtime_source(
        &"nodeGlobal".to_string(),
        true,
        Some(&"my\"cmd".to_string()),
    );
    assert!(named.contains("'nodeGlobal', true, \"my\\\"cmd\""));
}

/// The target triple's third dash-separated field alone is the
/// platform.
#[test]
fn build_os_from_triple() {
    assert_eq!(
        noderuntime::os_from_target_triple(&"x86_64-unknown-linux-gnu".to_string()).unwrap(),
        "linux"
    );
    assert_eq!(
        noderuntime::os_from_target_triple(&"x86_64-apple-darwin".to_string()).unwrap(),
        "darwin"
    );
    assert!(noderuntime::os_from_target_triple(&"wasm32".to_string()).is_none());
}

/// Watch supervision wraps only the re-runnable tools, and only when
/// watch paths are configured.
#[test]
fn watch_dispatch_decision() {
    assert!(run_with_watch(DenoSubcommand::Run, true));
    assert!(run_with_watch(DenoSubcommand::Test, true));
    assert!(run_with_watch(DenoSubcommand::Lint, true));
    assert!(!run_with_watch(DenoSubcommand::Run, false));
    assert!(!run_with_watch(DenoSubcommand::Doc, true));
    assert!(!run_with_watch(DenoSubcommand::Lsp, true));
}

/// Exit codes: zero on success, ten reserved for lockfile failures,
/// one for everything else.
#[test]
fn cli_exit_codes() {
    assert_eq!(exit_code_for(Ok(())), 0);
    assert_eq!(exit_code_for(Err(CliFailure::Lockfile)), 10);
    assert_eq!(exit_code_for(Err(CliFailure::Js)), 1);
    assert_eq!(exit_code_for(Err(CliFailure::Other)), 1);
}

/// The Node environment-variable allowlist.
#[test]
fn node_env_allowlist() {
    let v = noderuntime::node_env_var_allowlist();
    assert_eq!(v, vec!["NODE_DEBUG".to_string(), "NODE_OPTIONS".to_string()]);
}
