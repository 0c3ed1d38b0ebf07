use linuxrpc::cli::{AddOutcome, ACTIVE_TEMPLATE, CONFIG_TEMPLATE};
use linuxrpc::config::{config_file_name, is_blank_record, ActiveConfig, Config, CONFIG_FILE};

fn strings(items: &[&str]) -> Vec<String> {
    items.iter().map(|s| s.to_string()).collect()
}

fn read(text: &str) -> Config {
    let mut c = Config::new();
    c.read_config(text);
    c
}

#[test]
fn read_config_groups_values_under_headers() {
    let c = read("[icons]\nbig\nsmall\n[messages]\nhello\n");
    assert_eq!(c.keys(), strings(&["icons", "messages"]));
    assert_eq!(c.get("icons"), Some(&strings(&["big", "small"])));
    assert_eq!(c.get("messages"), Some(&strings(&["hello"])));
    assert_eq!(c.get("player"), None);
}

#[test]
fn read_config_skips_empty_lines_and_comments() {
    let c = read("[messages]\n\n// a comment\nhi\n\n");
    assert_eq!(c.get("messages"), Some(&strings(&["hi"])));
}

#[test]
fn read_config_trims_values_but_not_headers() {
    let c = read("[messages]\n   spaced out \t\n [notaheader]\n");
    assert_eq!(c.get("messages"), Some(&strings(&["spaced out", "[notaheader]"])));
    assert!(!c.contains_key("notaheader"));
}

#[test]
fn read_config_whitespace_only_line_is_an_empty_value() {
    let c = read("[messages]\n   \n");
    assert_eq!(c.get("messages"), Some(&strings(&[""])));
}

#[test]
fn read_config_values_before_any_header_go_under_empty_key() {
    let c = read("loose\n[a]\nx\n");
    assert_eq!(c.get(""), Some(&strings(&["loose"])));
    assert_eq!(c.get("a"), Some(&strings(&["x"])));
}

#[test]
fn read_config_repeated_header_empties_the_section() {
    let c = read("[a]\nx\n[b]\ny\n[a]\nz\n");
    assert_eq!(c.get("a"), Some(&strings(&["z"])));
    assert_eq!(c.get("b"), Some(&strings(&["y"])));
    assert_eq!(c.keys(), strings(&["a", "b"]));
}

#[test]
fn read_config_handles_crlf_line_endings() {
    let c = read("[a]\r\nx\r\ny");
    assert_eq!(c.get("a"), Some(&strings(&["x", "y"])));
}

#[test]
fn read_config_empty_brackets_name_the_empty_key() {
    let c = read("[]\nv\n");
    assert_eq!(c.get(""), Some(&strings(&["v"])));
}

#[test]
fn read_config_replaces_previous_contents() {
    let mut c = read("[a]\nx\n");
    c.read_config("[b]\n");
    assert_eq!(c.keys(), strings(&["b"]));
    c.read_config("");
    assert!(c.is_empty());
}

#[test]
fn template_describes_empty_sections() {
    let c = read(CONFIG_TEMPLATE);
    assert_eq!(
        c.keys(),
        strings(&[
            "clientId",
            "icons",
            "messages",
            "default_icon",
            "default_small_icon",
            "default_icon_text",
            "default_small_text",
            "player"
        ])
    );
    for k in c.keys() {
        assert_eq!(c.get(&k), Some(&Vec::new()));
    }
}

#[test]
fn active_template_selects_nothing() {
    let c = read(ACTIVE_TEMPLATE);
    assert!(matches!(c.read_active_config(), ActiveConfig::NoneSelected));
}

#[test]
fn read_active_config_cases() {
    assert!(matches!(read("[x]\n").read_active_config(), ActiveConfig::Unset));
    match read("[active]\nwork.rpc\nother.rpc\n").read_active_config() {
        ActiveConfig::Selected(n) => assert_eq!(n, "work.rpc"),
        other => panic!("unexpected {:?}", other),
    }
}

#[test]
fn write_config_renders_sections() {
    let c = read("[a]\nx\ny\n[b]\n");
    assert_eq!(c.write_config(), "\n[a]\nx\ny\n\n[b]\n");
    assert_eq!(Config::new().write_config(), "");
}

#[test]
fn write_config_removes_carriage_returns_from_values() {
    let mut c = read("[a]\n");
    assert!(c.add_to_config("a", "x\ry".to_string()));
    assert_eq!(c.write_config(), "\n[a]\nxy\n");
}

#[test]
fn read_after_write_gives_back_the_configuration() {
    let c = read("[clientId]\n123\n[messages]\nhello there\nsecond\n[icons]\n[player]\nspotify\n");
    let text = c.write_config();
    let d = read(&text);
    assert_eq!(d.keys(), c.keys());
    for k in c.keys() {
        assert_eq!(d.get(&k), c.get(&k));
    }
}

#[test]
fn read_after_write_fails_for_unclean_values() {
    let mut c = read("[a]\n");
    assert!(c.add_to_config("a", "  padded ".to_string()));
    let d = read(&c.write_config());
    assert_eq!(d.get("a"), Some(&strings(&["padded"])));
}

#[test]
fn add_to_config_appends_to_present_key() {
    let mut c = read("[icons]\na\n");
    assert!(c.add_to_config("icons", "b".to_string()));
    assert_eq!(c.get("icons"), Some(&strings(&["a", "b"])));
}

#[test]
fn add_to_config_ignores_absent_key() {
    let mut c = read("[icons]\na\n");
    assert!(!c.add_to_config("messages", "b".to_string()));
    assert_eq!(c.keys(), strings(&["icons"]));
    assert_eq!(c.get("icons"), Some(&strings(&["a"])));
}

#[test]
fn remove_from_config_removes_every_copy() {
    let mut c = read("[m]\na\nb\na\nc\n");
    assert!(c.remove_from_config("m", strings(&["a", "c", "zzz"])));
    assert_eq!(c.get("m"), Some(&strings(&["b"])));
}

#[test]
fn remove_from_config_ignores_absent_key() {
    let mut c = read("[m]\na\n");
    assert!(!c.remove_from_config("n", strings(&["a"])));
    assert_eq!(c.get("m"), Some(&strings(&["a"])));
}

#[test]
fn swap_active_leaves_only_the_new_name() {
    let mut c = read("[active]\nold.rpc\nolder.rpc\n");
    assert!(c.swap_active("new.rpc".to_string()));
    assert_eq!(c.get("active"), Some(&strings(&["new.rpc"])));
    match c.read_active_config() {
        ActiveConfig::Selected(n) => assert_eq!(n, "new.rpc"),
        other => panic!("unexpected {:?}", other),
    }
}

#[test]
fn swap_active_without_record_changes_nothing() {
    let mut c = read("[x]\n");
    assert!(!c.swap_active("new.rpc".to_string()));
    assert_eq!(c.keys(), strings(&["x"]));
}

#[test]
fn get_configs_keeps_only_user_configs() {
    let names = strings(&["config.rpc", "work.rpc", "notes.txt", "myconfig.rpc", "game.rpc", "rpc"]);
    assert_eq!(
        Config::get_configs(&names),
        strings(&["work.rpc", "myconfig.rpc", "game.rpc"])
    );
    assert_eq!(CONFIG_FILE, "config.rpc");
}

#[test]
fn config_file_name_appends_extension() {
    assert_eq!(config_file_name("gaming"), "gaming.rpc");
}

#[test]
fn first_value_and_first_or() {
    let c = read("[a]\nx\ny\n[b]\n");
    assert_eq!(c.first_value("a"), Some("x".to_string()));
    assert_eq!(c.first_value("b"), None);
    assert_eq!(c.first_value("c"), None);
    assert_eq!(c.first_or("b", "fallback"), "fallback");
    assert_eq!(c.first_or("a", "fallback"), "x");
}

#[test]
fn edit_add_refuses_active() {
    let mut c = read("[active]\na.rpc\n");
    assert_eq!(c.edit_add("active", "b.rpc".to_string()), AddOutcome::ActiveRefused);
    assert_eq!(c.get("active"), Some(&strings(&["a.rpc"])));
}

#[test]
fn edit_add_unknown_key() {
    let mut c = read("[icons]\n");
    assert_eq!(c.edit_add("messages", "x".to_string()), AddOutcome::UnknownKey);
    assert_eq!(c.keys(), strings(&["icons"]));
}

#[test]
fn edit_add_single_setting_replaces_the_value() {
    let mut c = read("[clientId]\n1\n2\n1\n");
    assert_eq!(c.edit_add("clientId", "3".to_string()), AddOutcome::Added);
    assert_eq!(c.get("clientId"), Some(&strings(&["3"])));
    assert_eq!(c.edit_add("clientId", "3".to_string()), AddOutcome::Added);
    assert_eq!(c.get("clientId"), Some(&strings(&["3"])));
}

#[test]
fn edit_add_player_replaces_the_value() {
    let mut c = read("[player]\nspotify\n");
    assert_eq!(c.edit_add("player", "firefox".to_string()), AddOutcome::Added);
    assert_eq!(c.get("player"), Some(&strings(&["firefox"])));
}

#[test]
fn replace_values_cases() {
    let mut c = read("[a]\nx\ny\n");
    assert!(c.replace_values("a", "z".to_string()));
    assert_eq!(c.get("a"), Some(&strings(&["z"])));
    assert!(!c.replace_values("b", "z".to_string()));
    assert_eq!(c.keys(), strings(&["a"]));
}

#[test]
fn is_blank_record_cases() {
    assert!(is_blank_record("\n"));
    assert!(!is_blank_record(""));
    assert!(!is_blank_record("[active]"));
    assert!(!is_blank_record("\n\n"));
}

#[test]
fn edit_add_default_keys_are_single_settings() {
    let mut c = read("[default_icon]\nlogo\n");
    assert_eq!(c.edit_add("default_icon", "other".to_string()), AddOutcome::Added);
    assert_eq!(c.get("default_icon"), Some(&strings(&["other"])));
}

#[test]
fn edit_add_single_setting_unknown_key() {
    let mut c = read("[icons]\n");
    assert_eq!(c.edit_add("player", "x".to_string()), AddOutcome::UnknownKey);
    assert_eq!(c.keys(), strings(&["icons"]));
}

#[test]
fn edit_add_plain_key_keeps_duplicates() {
    let mut c = read("[messages]\nhi\n");
    assert_eq!(c.edit_add("messages", "hi".to_string()), AddOutcome::Added);
    assert_eq!(c.get("messages"), Some(&strings(&["hi", "hi"])));
}
