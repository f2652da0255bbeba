use omarchy_dock::integrate::{
    hook_path, looknfeel_path, menu_extension_path, omarchy_config_dir, plugin_dir,
    shell_json_path, plugin_files, PluginFiles, blur_config, blur_note, blur_reported, hook_script, hypr_block, last_significant_char,
    menu_block, plugin_change, plugin_listed, plugin_manifest, plugin_service_qml,
    remove_blur_block, remove_menu_block, splice_menu_block, PluginChange, HYPR_BEGIN, HYPR_END,
    blur_enabled_in, plugin_enabled_in, shell_json_after, NotJson,
    MENU_BEGIN, MENU_END,
};

fn wrapped(body: &str) -> String {
    format!("{MENU_BEGIN}\n{body}\n{MENU_END}")
}

#[test]
fn a_block_is_inserted_before_the_closing_brace() {
    let out = splice_menu_block("{\n}\n", "BLOCK").unwrap();
    assert!(out.contains("BLOCK"));
    // Still a single object, and the block is inside it.
    assert!(out.trim_end().ends_with('}'));
    assert!(out.find("BLOCK").unwrap() < out.rfind('}').unwrap());
}

#[test]
fn an_existing_entry_gets_a_separating_comma() {
    let existing = "{\n  \"a\": {\"label\":\"A\"}\n}\n";
    let out = splice_menu_block(existing, "BLOCK").unwrap();
    // Without the comma the file would no longer parse.
    assert!(out.contains("\"A\"},\nBLOCK"), "{out}");
}

#[test]
fn a_trailing_comma_is_not_doubled() {
    let existing = "{\n  \"a\": {\"label\":\"A\"},\n}\n";
    let out = splice_menu_block(existing, "BLOCK").unwrap();
    assert!(!out.contains(",,"), "{out}");
}

#[test]
fn an_all_comments_file_needs_no_comma() {
    // Omarchy ships the extension file as comments and an empty object.
    let existing = "{\n  // examples\n  // \"x\": {}\n}\n";
    let out = splice_menu_block(existing, "BLOCK").unwrap();
    assert!(!out.contains(",\nBLOCK"), "{out}");
    assert!(out.contains("BLOCK"));
}

#[test]
fn reinstalling_replaces_the_block_rather_than_repeating_it() {
    let first = splice_menu_block("{\n}\n", &wrapped("OLD")).unwrap();
    let second = splice_menu_block(&first, &wrapped("NEW")).unwrap();
    assert!(second.contains("NEW"));
    assert!(!second.contains("OLD"));
    assert_eq!(second.matches(MENU_BEGIN).count(), 1);
}

#[test]
fn uninstalling_restores_what_the_user_had() {
    let original = "{\n  \"a\": {\"label\":\"A\"}\n}\n";
    let installed = splice_menu_block(original, &wrapped("BLOCK")).unwrap();
    assert!(installed.contains("BLOCK"));

    let removed = remove_menu_block(&installed);
    assert!(!removed.contains("BLOCK"));
    assert!(!removed.contains(MENU_BEGIN));
    // The user's own entry survives, and no stray comma is left behind.
    assert!(removed.contains("\"a\""));
    assert!(!removed.contains("},\n\n}"), "{removed}");
}

#[test]
fn removing_from_a_file_we_never_touched_changes_nothing() {
    let original = "{\n  \"a\": {\"label\":\"A\"}\n}\n";
    assert_eq!(remove_menu_block(original), original);
}

#[test]
fn a_file_with_no_object_is_left_alone() {
    // Nothing to insert into means the file must not be guessed at.
    assert!(splice_menu_block("", "BLOCK").is_none());
    assert!(splice_menu_block("// only comments\n", "BLOCK").is_none());
}

#[test]
fn the_generated_menu_block_carries_both_markers() {
    let block = menu_block();
    assert!(block.starts_with(MENU_BEGIN));
    assert!(block.ends_with(MENU_END));
    // Every row must be reachable without the dock running, or the menu
    // would offer dead entries after a crash.
    assert!(block.contains("omarchy-dockctl"));
}

#[test]
fn comments_do_not_count_as_content_when_deciding_on_a_comma() {
    assert_eq!(last_significant_char("{\n  // \"x\": {}\n"), Some('{'));
    assert_eq!(last_significant_char("{\n  /* \"x\": {} */\n"), Some('{'));
    // A real entry does count, including one ending inside a string.
    assert_eq!(last_significant_char("{\n  \"a\": {\"label\":\"A\"}\n"), Some('}'));
    assert_eq!(last_significant_char("{\n  \"a\": \"b\"\n"), Some('"'));
    // A `//` inside a string is not a comment.
    assert_eq!(last_significant_char("{\n  \"a\": \"http://x\"\n"), Some('"'));
}

#[test]
fn a_url_in_a_description_does_not_break_the_comma() {
    let existing = "{\n  \"a\": {\"description\":\"see http://x\"}\n}\n";
    let out = splice_menu_block(existing, "BLOCK").unwrap();
    assert!(out.contains("},\nBLOCK"), "{out}");
}

#[test]
fn escapes_and_unclosed_comments_are_scanned_the_same_way() {
    // An escaped quote does not end the string.
    assert_eq!(last_significant_char("\"a\\\"b\" // c"), Some('"'));
    // `/*/` does not close the comment it opens.
    assert_eq!(last_significant_char("x /*/ y"), Some('x'));
    assert_eq!(last_significant_char("x /* y */ z"), Some('z'));
    assert_eq!(last_significant_char("  \n\t"), None);
}

#[test]
fn the_menu_block_is_exactly_its_rows() {
    let block = menu_block();
    assert_eq!(block.lines().count(), 8);
    assert!(block.contains("\n  \"dock.reload\": {"));
    assert!(block.lines().skip(1).take(6).all(|l| l.starts_with("  \"dock") && l.ends_with("},")));
}

#[test]
fn the_installed_texts() {
    assert!(hook_script().starts_with("#!/usr/bin/env bash\n"));
    assert!(hook_script().contains("  omarchy-dockctl restyle >/dev/null 2>&1 || true\n"));
    let manifest = plugin_manifest("1.2.3");
    assert!(manifest.contains("\"id\": \"omarchy-dock\""));
    assert!(manifest.contains("\"version\": \"1.2.3\""));
    assert!(manifest.ends_with("]\n}\n"));
    assert!(plugin_service_qml().contains("pkill"));
    let hypr = hypr_block();
    assert!(hypr.starts_with(HYPR_BEGIN));
    assert!(hypr.ends_with(HYPR_END));
}

#[test]
fn the_blur_rule_is_fenced_like_the_menu_block() {
    let block = hypr_block();
    let once = blur_config("source = x.lua\n\n\n", &block);
    assert_eq!(once, format!("source = x.lua\n\n{block}\n"));
    // Writing it again replaces rather than repeats.
    let twice = blur_config(&once, &block);
    assert_eq!(twice, once);
    assert_eq!(remove_blur_block(&once).unwrap(), "source = x.lua\n");
    assert_eq!(remove_blur_block("source = x.lua\n"), None);
}

#[test]
fn hyprland_config_errors_are_reported() {
    assert!(blur_note("no errors\n").starts_with("global blur on"));
    assert!(blur_note("").starts_with("global blur on"));
    assert_eq!(
        blur_note(" line 3: bad \n"),
        "Hyprland reports config errors after this: line 3: bad"
    );
    assert!(blur_reported(Some(true), None));
    assert!(!blur_reported(Some(false), Some(1)));
    assert!(blur_reported(None, Some(1)));
    assert!(!blur_reported(None, Some(0)));
    assert!(!blur_reported(None, None));
}

#[test]
fn the_plugin_switch_touches_only_its_own_entry() {
    let ids = vec![Some("bar".to_string()), None, Some("omarchy-dock".to_string())];
    assert_eq!(plugin_change(true, &ids), PluginChange::Keep);
    assert_eq!(plugin_change(false, &ids), PluginChange::Remove(2));
    assert!(plugin_listed(&ids));
    let ids = vec![Some("bar".to_string())];
    assert_eq!(plugin_change(true, &ids), PluginChange::Append);
    assert_eq!(plugin_change(false, &ids), PluginChange::Keep);
    assert!(!plugin_listed(&ids));
}

#[test]
fn uninstalling_gives_back_the_file_exactly() {
    let original = "{\n  \"a\": {\"label\":\"A\"}\n}\n";
    let installed = splice_menu_block(original, &wrapped("BLOCK")).unwrap();
    assert_eq!(remove_menu_block(&installed), original);
    // Whitespace before the brace is folded into one line break.
    let spaced = "{\n  \"a\": 1   \n\n}";
    let installed = splice_menu_block(spaced, &wrapped("BLOCK")).unwrap();
    assert_eq!(remove_menu_block(&installed), "{\n  \"a\": 1\n}");
}

#[test]
fn reinstalling_a_changed_block_equals_installing_it_once() {
    let original = "{\n  \"a\": 1\n}\n";
    let first = splice_menu_block(original, &wrapped("OLD")).unwrap();
    assert_eq!(
        splice_menu_block(&first, &wrapped("NEW")).unwrap(),
        splice_menu_block(original, &wrapped("NEW")).unwrap()
    );
}

#[test]
fn the_blur_rule_comes_out_as_it_went_in() {
    let block = hypr_block();
    let other = format!("{HYPR_BEGIN}\nold rule\n{HYPR_END}");
    let original = "source = x.lua  \n\n";
    let first = blur_config(original, &other);
    assert_eq!(blur_config(&first, &block), blur_config(original, &block));
    assert_eq!(remove_blur_block(&first).unwrap(), "source = x.lua\n");
}

#[test]
fn everything_lands_under_the_omarchy_config_dir() {
    let dir = omarchy_config_dir(Some("/home/u/.config"));
    assert_eq!(dir, "/home/u/.config/omarchy");
    assert_eq!(omarchy_config_dir(None), "./omarchy");
    assert_eq!(hook_path(&dir), "/home/u/.config/omarchy/hooks/theme-set.d/omarchy-dock");
    assert_eq!(plugin_dir(&dir), "/home/u/.config/omarchy/plugins/omarchy-dock");
    assert_eq!(menu_extension_path(&dir), "/home/u/.config/omarchy/extensions/omarchy-menu.jsonc");
    assert_eq!(shell_json_path(&dir), "/home/u/.config/omarchy/shell.json");
    assert_eq!(looknfeel_path(Some("/home/u/.config/")), "/home/u/.config/hypr/looknfeel.lua");
}

#[test]
fn disabling_the_plugin_undoes_enabling_it() {
    let before = vec![Some("bar".to_string()), None];
    assert_eq!(plugin_change(true, &before), PluginChange::Append);
    let mut after = before.clone();
    after.push(Some("omarchy-dock".to_string()));
    assert!(plugin_listed(&after));
    assert_eq!(plugin_change(true, &after), PluginChange::Keep);
    match plugin_change(false, &after) {
        PluginChange::Remove(i) => {
            after.remove(i);
        }
        other => panic!("expected a removal, got {other:?}"),
    }
    assert_eq!(after, before);
}

#[test]
fn the_users_own_trailing_comma_survives_an_install_cycle() {
    let original = "{\n  \"a\": 1,\n}\n";
    let installed = splice_menu_block(original, &wrapped("BLOCK")).unwrap();
    assert!(!installed.contains(",,"), "{installed}");
    assert_eq!(remove_menu_block(&installed), original);
    // A comma in a trailing comment is no entry's: one is added, and only
    // that one goes again.
    let commented = "{\n  \"a\": 1 // one, two,\n}\n";
    let installed = splice_menu_block(commented, &wrapped("BLOCK")).unwrap();
    assert_eq!(remove_menu_block(&installed), commented);
}

#[test]
fn a_git_checkout_of_the_plugin_is_left_to_omarchy_plugin() {
    assert_eq!(plugin_files(true, false), PluginFiles::Write);
    assert_eq!(plugin_files(false, false), PluginFiles::Remove);
    assert_eq!(plugin_files(true, true), PluginFiles::Leave);
    assert_eq!(plugin_files(false, true), PluginFiles::Leave);
}

#[test]
fn an_added_comma_never_lands_in_a_line_comment() {
    let existing = "{\n  \"a\": 1\n  // note\n}\n";
    let s = splice_menu_block(existing, "BLOCK").unwrap();
    assert_eq!(s, "{\n  \"a\": 1\n  // note\n,\nBLOCK\n}\n");
    assert_eq!(last_significant_char(&s[..s.find("BLOCK").unwrap()]), Some(','));
    assert_eq!(remove_menu_block(&splice_menu_block(existing, &wrapped("x")).unwrap()), existing);
    // After a closed block comment the comma counts where it stands.
    let s = splice_menu_block("{\n  \"a\": 1 /* c */\n}\n", "BLOCK").unwrap();
    assert_eq!(s, "{\n  \"a\": 1 /* c */,\nBLOCK\n}\n");
    assert_eq!(last_significant_char(&s[..s.find("BLOCK").unwrap()]), Some(','));
}

#[test]
fn shell_json_gets_the_plugin_entry_added_and_taken_back() {
    let original = r#"{"plugins": [{"id": "bar"}]}"#;
    assert!(!plugin_enabled_in(original));
    let on = shell_json_after(original, true).unwrap().unwrap();
    assert_eq!(
        on,
        "{\n  \"plugins\": [\n    {\n      \"id\": \"bar\"\n    },\n    {\n      \"id\": \"omarchy-dock\"\n    }\n  ]\n}\n"
    );
    assert!(plugin_enabled_in(&on));
    assert_eq!(shell_json_after(&on, true), Ok(None));
    let off = shell_json_after(&on, false).unwrap().unwrap();
    assert_eq!(off, "{\n  \"plugins\": [\n    {\n      \"id\": \"bar\"\n    }\n  ]\n}\n");
    assert!(!plugin_enabled_in(&off));
}

#[test]
fn shell_json_without_a_plugins_list_or_not_json() {
    assert_eq!(
        shell_json_after("{}", true).unwrap().unwrap(),
        "{\n  \"plugins\": [\n    {\n      \"id\": \"omarchy-dock\"\n    }\n  ]\n}\n"
    );
    assert_eq!(shell_json_after("{}", false), Ok(None));
    assert_eq!(shell_json_after("[1]", true), Ok(None));
    assert_eq!(shell_json_after(r#"{"plugins": 3}"#, true), Ok(None));
    assert_eq!(shell_json_after("not json", true), Err(NotJson));
    assert!(!plugin_enabled_in("not json"));
    assert!(!plugin_enabled_in(r#"{"plugins": [{"id": 1}]}"#));
}

#[test]
fn hyprctls_typed_answer_about_blur() {
    assert!(blur_enabled_in(br#"{"option": "decoration:blur:enabled", "int": 1, "set": true}"#));
    assert!(!blur_enabled_in(br#"{"int": 0}"#));
    assert!(blur_enabled_in(br#"{"bool": true}"#));
    assert!(!blur_enabled_in(br#"{"bool": false, "int": 1}"#));
    assert!(!blur_enabled_in(b"no such option"));
}
