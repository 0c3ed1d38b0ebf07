use rand::rngs::StdRng;
use rand::SeedableRng;
use linuxrpc::config::Config;
use linuxrpc::rpc::{
    check_active, icon_pool_of, initial_active, message_pool_of, now_playing, ActiveCheck,
    RPCState, NO_MESSAGES_NOTICE,
};

fn strings(items: &[&str]) -> Vec<String> {
    items.iter().map(|s| s.to_string()).collect()
}

fn read(text: &str) -> Config {
    let mut c = Config::new();
    c.read_config(text);
    c
}

#[test]
fn new_takes_defaults_from_config() {
    let c = read("[default_icon]\nlogo\n[default_icon_text]\nhover\n[button1_label]\nSite\n[button1_url]\nhttps://x\n");
    let s = RPCState::new(&c, 42);
    assert_eq!(s.timestamp, 42);
    assert_eq!(s.icon, "logo");
    assert_eq!(s.icon_text, "hover");
    assert_eq!(s.small_icon, "Empty");
    assert_eq!(s.small_text, "Using Linux");
    assert_eq!(s.message, "A Simple RPC Client.");
    assert_eq!(s.music, "Loading Client...");
    assert_eq!(
        s.buttons,
        vec![("Site".to_string(), "https://x".to_string()), (String::new(), String::new())]
    );
}

#[test]
fn new_with_empty_config_uses_fallbacks() {
    let s = RPCState::new(&Config::new(), 0);
    assert_eq!(s.icon, "Empty");
    assert_eq!(s.icon_text, "Made by Sinmysize");
    assert_eq!(s.small_icon, "Empty");
    assert_eq!(s.small_text, "Using Linux");
}

#[test]
fn activity_buttons_drop_incomplete_ones() {
    let c = read("[button1_label]\nSite\n[button1_url]\nhttps://x\n[button2_label]\nOnly label\n");
    let s = RPCState::new(&c, 0);
    assert_eq!(s.activity_buttons(), vec![("Site".to_string(), "https://x".to_string())]);
}

#[test]
fn message_pool_cases() {
    assert_eq!(message_pool_of(&read("[messages]\na\nb\n")), strings(&["a", "b"]));
    assert_eq!(message_pool_of(&read("[messages]\n")), strings(&[NO_MESSAGES_NOTICE]));
    assert_eq!(message_pool_of(&read("")), strings(&[NO_MESSAGES_NOTICE]));
}

#[test]
fn icon_pool_cases() {
    assert_eq!(icon_pool_of(&read("[icons]\na\nb\n")), strings(&["a", "b"]));
    assert_eq!(icon_pool_of(&read("[icons]\n[default_icon]\nd\n")), strings(&["d"]));
    assert_eq!(icon_pool_of(&read("[icons]\n")), strings(&["Empty"]));
    assert_eq!(icon_pool_of(&read("[default_icon]\nd\n")), strings(&["d"]));
    assert_eq!(icon_pool_of(&read("")), strings(&["Empty"]));
}

#[test]
fn refresh_picks_from_the_pools() {
    let c = read("[messages]\nm1\nm2\nm3\n[icons]\ni1\ni2\n");
    let mut s = RPCState::new(&c, 7);
    for _ in 0..20 {
        assert!(s.refresh(&c, "song".to_string()));
        assert!(["m1", "m2", "m3"].contains(&s.message.as_str()));
        assert!(["i1", "i2"].contains(&s.icon.as_str()));
        assert_eq!(s.music, "song");
        assert_eq!(s.timestamp, 7);
    }
}

#[test]
fn refresh_with_single_choices_is_determined() {
    let c = read("[messages]\nonly\n[icons]\npic\n");
    let mut s = RPCState::new(&c, 0);
    assert!(s.refresh(&c, "x".to_string()));
    assert_eq!(s.message, "only");
    assert_eq!(s.icon, "pic");
}

#[test]
fn refresh_with_template_icons_shows_default_icon() {
    let c = read("[icons]\n\n[default_icon]\nlogo\n");
    let mut s = RPCState::new(&c, 0);
    assert!(s.refresh(&c, String::new()));
    assert_eq!(s.icon, "logo");
}

#[test]
fn refresh_without_messages_shows_notice() {
    let c = read("");
    let mut s = RPCState::new(&c, 0);
    assert!(s.refresh(&c, String::new()));
    assert_eq!(s.message, NO_MESSAGES_NOTICE);
    assert_eq!(s.icon, "Empty");
}

#[test]
fn now_playing_formats_artist_and_title() {
    assert_eq!(now_playing("Artist*Album*Title*123\n"), "♪ Artist - Title");
}

#[test]
fn now_playing_single_field_is_idle() {
    assert_eq!(now_playing("No players found"), "♪ No players found - ᓚᘏᗢ ᶻ z Z");
    assert_eq!(now_playing(""), "♪  - ᓚᘏᗢ ᶻ z Z");
}

#[test]
fn initial_active_cases() {
    assert_eq!(initial_active(&read("[active]\nw.rpc\n")), Some("w.rpc".to_string()));
    assert_eq!(initial_active(&read("")), Some("PLACEHOLDER".to_string()));
    assert_eq!(initial_active(&read("[active]\n")), None);
}

#[test]
fn check_active_cases() {
    let cached = "a.rpc".to_string();
    assert!(matches!(check_active(&cached, &read("[active]\na.rpc\n")), ActiveCheck::Unchanged));
    match check_active(&cached, &read("[active]\nb.rpc\n")) {
        ActiveCheck::Changed(n) => assert_eq!(n, "b.rpc"),
        other => panic!("unexpected {:?}", other),
    }
    assert!(matches!(check_active(&cached, &read("[active]\n")), ActiveCheck::Missing));
    assert!(matches!(check_active(&cached, &read("")), ActiveCheck::Missing));
}

#[test]
fn refresh_with_seeded_generator_picks_from_the_pools() {
    let c = read("[messages]\nm1\nm2\n[icons]\n\n[default_icon]\nlogo\n");
    let mut s = RPCState::new(&c, 3);
    let mut rng = StdRng::seed_from_u64(7);
    for _ in 0..10 {
        s.refresh_with(&c, "tune".to_string(), &mut rng);
        assert!(["m1", "m2"].contains(&s.message.as_str()));
        assert_eq!(s.icon, "logo");
        assert_eq!(s.music, "tune");
        assert_eq!(s.timestamp, 3);
    }
}
