use omarchy_dock::hypr::dispatch::{
    close_window, exec, focus_window, focus_workspace, lua_str, move_window_to_workspace, request,
    succeeded, toggle_special, toggle_split,
};
use omarchy_dock::hypr::events::{parse, HyprEvent};
use omarchy_dock::hypr::request::{no_active_window, truncate};
use omarchy_dock::hypr::{event_socket, ipc_dir_candidates, request_socket, Address};

#[test]
fn splits_only_on_the_first_comma_so_titles_survive() {
    // A real title, which contains commas and dashes.
    let e = parse("activewindow>>code,Omarchy dock, phase 2 - Visual Studio Code");
    assert_eq!(
        e,
        Some(HyprEvent::ActiveWindow {
            class: "code".into(),
            title: "Omarchy dock, phase 2 - Visual Studio Code".into(),
        })
    );
}

#[test]
fn normalises_addresses_across_both_sources() {
    // Event stream omits `0x`; JSON includes it. Both must agree.
    let from_event = parse("closewindow>>5654d12de5b0").unwrap();
    assert_eq!(from_event, HyprEvent::CloseWindow(Address::parse("0x5654D12DE5B0")));
    assert_eq!(Address::parse("5654d12de5b0").prefixed(), "0x5654d12de5b0");
}

#[test]
fn openwindow_keeps_title_commas_but_splits_leading_fields() {
    let e = parse("openwindow>>abc123,3,kitty,a,b,c").unwrap();
    assert_eq!(
        e,
        HyprEvent::OpenWindow {
            addr: Address::parse("abc123"),
            workspace: "3".into(),
            class: "kitty".into(),
            title: "a,b,c".into(),
        }
    );
}

#[test]
fn focus_loss_and_unknown_events() {
    assert_eq!(parse("activewindowv2>>"), Some(HyprEvent::ActiveWindowAddr(None)));
    assert_eq!(parse("activelayout>>kb,Hungarian"), None);
    assert_eq!(parse("garbage without separator"), None);
}

#[test]
fn lua_literals_escape_quotes_and_backslashes() {
    assert_eq!(lua_str("plain"), "'plain'");
    assert_eq!(lua_str("it's"), "'it\\'s'");
    assert_eq!(lua_str("a\\b"), "'a\\\\b'");
    assert_eq!(lua_str(""), "''");
}

#[test]
fn every_dispatcher_names_its_window() {
    let a = Address::parse("0xABC");
    assert_eq!(focus_window(&a), "hl.dsp.focus({ window = 'address:0xabc' })");
    assert_eq!(close_window(&a), "hl.dsp.window.close({ window = 'address:0xabc' })");
    assert_eq!(
        move_window_to_workspace(&a, "3", true),
        "hl.dsp.window.move({ window = 'address:0xabc', workspace = '3', follow = true })"
    );
    assert_eq!(
        move_window_to_workspace(&a, "e+1", false),
        "hl.dsp.window.move({ window = 'address:0xabc', workspace = 'e+1', follow = false })"
    );
    assert_eq!(focus_workspace("previous"), "hl.dsp.focus({ workspace = 'previous' })");
    assert_eq!(toggle_special("scratchpad"), "hl.dsp.workspace.toggle_special('scratchpad')");
    assert_eq!(exec("kitty --title 'x'"), "hl.dsp.exec_cmd('kitty --title \\'x\\'')");
    assert_eq!(toggle_split(), "hl.dsp.layout('togglesplit')");
    assert_eq!(request("hl.dsp.layout('togglesplit')"), "/dispatch hl.dsp.layout('togglesplit')");
}

#[test]
fn only_ok_or_nothing_counts_as_success() {
    assert!(succeeded("ok"));
    assert!(succeeded(" OK\n"));
    assert!(succeeded(""));
    assert!(!succeeded("error: expected a dispatcher"));
}

#[test]
fn replies_are_trimmed_and_cut_for_error_messages() {
    assert_eq!(truncate("  short  "), "short");
    let long = "x".repeat(250);
    let cut = truncate(&long);
    assert_eq!(cut, format!("{}…", "x".repeat(200)));
    // Exactly 200 bytes is not cut.
    assert_eq!(truncate(&"y".repeat(200)), "y".repeat(200));
    // Multi-byte characters that end on byte 200.
    let wide = "é".repeat(150);
    assert_eq!(truncate(&wide), format!("{}…", "é".repeat(100)));
}

#[test]
fn an_empty_object_means_no_active_window() {
    assert!(no_active_window("{}"));
    assert!(no_active_window("  \n"));
    assert!(!no_active_window("{\"address\":\"0x1\"}"));
}

#[test]
fn sockets_live_in_the_ipc_directory() {
    assert_eq!(request_socket("/run/user/1000/hypr/abc"), "/run/user/1000/hypr/abc/.socket.sock");
    assert_eq!(event_socket("/run/user/1000/hypr/abc/"), "/run/user/1000/hypr/abc/.socket2.sock");
    assert_eq!(
        ipc_dir_candidates(Some("/run/user/1000"), "sig"),
        vec!["/run/user/1000/hypr/sig".to_string(), "/tmp/hypr/sig".to_string()]
    );
    assert_eq!(ipc_dir_candidates(None, "sig"), vec!["/tmp/hypr/sig".to_string()]);
}

/// Read a single-quoted Lua literal the way Lua does, for the few escapes
/// `lua_str` writes.
fn read_lua_literal(lit: &str) -> Option<String> {
    let body = lit.strip_prefix('\'')?.strip_suffix('\'')?;
    let mut out = String::new();
    let mut chars = body.chars();
    while let Some(c) = chars.next() {
        match c {
            '\\' => out.push(chars.next()?),
            '\'' => return None,
            c => out.push(c),
        }
    }
    Some(out)
}

#[test]
fn a_quoted_string_reads_back_unchanged() {
    for s in ["plain", "it's", "a\\b", "", "\\'", "'); os.exit() --", "end\\"] {
        assert_eq!(read_lua_literal(&lua_str(s)).as_deref(), Some(s));
    }
}

#[test]
fn the_prefixed_form_parses_back() {
    for s in ["0x5654CF797160", "5654cf797160", "  0xAbC  ", "weird name", "0x", ""] {
        let a = Address::parse(s);
        assert_eq!(Address::parse(&a.prefixed()), a);
    }
    assert_eq!(Address::parse("0xdead Beef"), Address::parse("dead Beef"));
}
