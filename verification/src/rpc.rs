//! The presence shown on Discord: what it is built from and how it is refreshed.

use vstd::prelude::*;
use rand::rand_core::OsError;
use rand::rngs::{OsRng, StdRng};
use rand::seq::IndexedRandom;
use rand::SeedableRng;
use crate::config::{copy_strings, first_or, first_value_of, Config, ConfigMap};
use crate::text::{chars_of, lemma_split_nonempty, split, split_fields, string_of};

verus! {

/// Shown when the configuration has no message to show.
pub const NO_MESSAGES_NOTICE: &'static str = "Check your config! [messages] is empty!";

/// Stands for a missing picture or player name.
pub const EMPTY_NAME: &'static str = "Empty";

/// The message shown until the first refresh.
pub const INITIAL_MESSAGE: &'static str = "A Simple RPC Client.";

/// The now-playing text shown until the first refresh.
pub const INITIAL_MUSIC: &'static str = "Loading Client...";

/// The hover text of the icon when the configuration sets none.
pub const DEFAULT_ICON_TEXT: &'static str = "Made by Sinmysize";

/// The hover text of the small icon when the configuration sets none.
pub const DEFAULT_SMALL_TEXT: &'static str = "Using Linux";

/// How long the presence loop waits between refreshes, in milliseconds.
pub const REFRESH_PERIOD_MS: u64 = 10_000;

/// Stands for the active configuration when the record names none.
pub const ACTIVE_PLACEHOLDER: &'static str = "PLACEHOLDER";

/// The output format asked of `playerctl metadata`: four fields separated by `*`.
pub const PLAYERCTL_FORMAT: &'static str = "{{artist}}*{{album}}*{{title}}*{{length}}";

/// Shown in place of the title when the player reports a single field.
pub const IDLE_TITLE: &'static str = "ᓚᘏᗢ ᶻ z Z";

/// The messages to pick from: those under `messages`, or the notice when there are none.
pub open spec fn message_pool(m: ConfigMap) -> Seq<Seq<char>> {
    if m.contains_key("messages"@) && m["messages"@].len() > 0 {
        m["messages"@]
    } else {
        seq![NO_MESSAGES_NOTICE@]
    }
}

/// The icons to pick from: those under `icons`; when no icon is set (the
/// section is absent or empty), the default icon, or `Empty` without one.
pub open spec fn icon_pool(m: ConfigMap) -> Seq<Seq<char>> {
    if m.contains_key("icons"@) && m["icons"@].len() > 0 {
        m["icons"@]
    } else {
        seq![first_or(m, "default_icon"@, EMPTY_NAME@)]
    }
}

/// The now-playing text for the fields that the player reported.
pub open spec fn now_playing_text(fields: Seq<Seq<char>>) -> Seq<char> {
    "♪ "@ + fields[0] + " - "@ + if fields.len() == 1 {
        IDLE_TITLE@
    } else {
        fields[2]
    }
}

/// The generator of the rand crate that picks messages and icons.
#[verifier::external_type_specification]
#[verifier::external_body]
pub struct ExStdRng(StdRng);

/// The error of the operating system's random source, from rand_core.
#[verifier::external_type_specification]
#[verifier::external_body]
pub struct ExOsError(OsError);

/// A generator seeded from the operating system, with `SeedableRng::try_from_rng`
/// of the rand crate applied to `OsRng`. It fails when the operating system gives no
/// random bytes; whether it does rests on the machine, so nothing is promised of
/// the outcome.
#[verifier::external_body]
fn seeded_rng() -> (r: Result<StdRng, OsError>) {
    StdRng::try_from_rng(&mut OsRng)
}

/// Picks one of `items`, with `IndexedRandom::choose` of the rand crate drawing
/// from `rng`. The choice is random: the contract says only that nothing is picked
/// from an empty list and that a pick is one of the items.
#[verifier::external_body]
fn choose_one<'a>(items: &'a Vec<String>, rng: &mut StdRng) -> (r: Option<&'a String>)
    ensures
        r is None <==> items@.len() == 0,
        r matches Some(x) ==> items@.contains(*x),
{
    items.as_slice().choose(rng)
}

/// What the record of the active configuration says, compared with the name the
/// presence loop last saw.
#[derive(Debug)]
pub enum ActiveCheck {
    /// The record names no active configuration.
    Missing,
    /// The record names the configuration last seen.
    Unchanged,
    /// The record names another configuration.
    Changed(String),
}

/// The state of the presence: what is shown on Discord.
#[derive(Clone)]
pub struct RPCState {
    /// When the presence started, in seconds since the Unix epoch.
    pub timestamp: i64,
    /// The name of the large picture.
    pub icon: String,
    /// The hover text of the large picture.
    pub icon_text: String,
    /// The name of the small picture.
    pub small_icon: String,
    /// The hover text of the small picture.
    pub small_text: String,
    /// The message (the details line).
    pub message: String,
    /// What the player is playing (the state line).
    pub music: String,
    /// Labels and URLs of the two buttons.
    pub buttons: Vec<(String, String)>,
}

impl Default for RPCState {
    fn default() -> (s: Self)
        ensures
            s.timestamp == 0,
            s.icon@.len() == 0,
            s.icon_text@.len() == 0,
            s.small_icon@.len() == 0,
            s.small_text@.len() == 0,
            s.message@.len() == 0,
            s.music@.len() == 0,
            s.buttons@.len() == 0,
    {
        RPCState {
            timestamp: 0,
            icon: String::new(),
            icon_text: String::new(),
            small_icon: String::new(),
            small_text: String::new(),
            message: String::new(),
            music: String::new(),
            buttons: Vec::new(),
        }
    }
}

/// The messages to pick from.
pub fn message_pool_of(config: &Config) -> (r: Vec<String>)
    requires
        config.wf(),
    ensures
        r.deep_view() == message_pool(config@),
        r.len() > 0,
{
    let mut r: Vec<String> = Vec::new();
    match config.get("messages") {
        Some(vs) => {
            if vs.len() > 0 {
                return copy_strings(vs);
            }
        },
        None => {},
    }
    r.push(NO_MESSAGES_NOTICE.to_owned());
    assert(r.deep_view() =~= seq![NO_MESSAGES_NOTICE@]);
    r
}

/// The icons to pick from.
pub fn icon_pool_of(config: &Config) -> (r: Vec<String>)
    requires
        config.wf(),
    ensures
        r.deep_view() == icon_pool(config@),
        r.len() > 0,
{
    let mut r: Vec<String> = Vec::new();
    match config.get("icons") {
        Some(vs) => {
            if vs.len() > 0 {
                return copy_strings(vs);
            }
        },
        None => {},
    }
    r.push(config.first_or("default_icon", EMPTY_NAME));
    assert(r.deep_view() =~= seq![first_or(config@, "default_icon"@, EMPTY_NAME@)]);
    r
}

/// The name that the presence loop starts from: the first value under `active`,
/// or the placeholder when the record has no `active` section. `None` when the
/// section is there but empty, where no name can be taken.
pub fn initial_active(record: &Config) -> (r: Option<String>)
    requires
        record.wf(),
    ensures
        match r {
            Some(name) => if record@.contains_key("active"@) {
                first_value_of(record@, "active"@) == Some(name@)
            } else {
                name@ == ACTIVE_PLACEHOLDER@
            },
            None => record@.contains_key("active"@) && record@["active"@].len() == 0,
        },
{
    if record.contains_key("active") {
        record.first_value("active")
    } else {
        Some(ACTIVE_PLACEHOLDER.to_owned())
    }
}

/// Compares the configuration that the record names with `cached`, the one last seen.
pub fn check_active(cached: &String, record: &Config) -> (r: ActiveCheck)
    requires
        record.wf(),
    ensures
        match r {
            ActiveCheck::Missing => first_value_of(record@, "active"@) is None,
            ActiveCheck::Unchanged => first_value_of(record@, "active"@) == Some(cached@),
            ActiveCheck::Changed(name) => first_value_of(record@, "active"@) == Some(name@)
                && name@ != cached@,
        },
{
    match record.first_value("active") {
        None => ActiveCheck::Missing,
        Some(name) => {
            if name == *cached {
                ActiveCheck::Unchanged
            } else {
                ActiveCheck::Changed(name)
            }
        },
    }
}

/// The now-playing text for what `playerctl` printed in `PLAYERCTL_FORMAT`:
/// `♪ <artist> - <title>`, or the idle title when the player reported a single field.
/// Output with exactly two fields has no title to show and is left out.
pub fn now_playing(output: &str) -> (r: String)
    requires
        split(output@, '*').len() != 2,
    ensures
        r@ == now_playing_text(split(output@, '*')),
{
    let cs = chars_of(output);
    let fields = split_fields(&cs, '*');
    proof {
        lemma_split_nonempty(output@, '*', seq![]);
    }
    assert(fields@.len() == split(output@, '*').len());
    let mut out: Vec<char> = chars_of("♪ ");
    append_chars(&mut out, &fields[0]);
    append_chars(&mut out, &chars_of(" - "));
    if fields.len() == 1 {
        append_chars(&mut out, &chars_of(IDLE_TITLE));
    } else {
        append_chars(&mut out, &fields[2]);
    }
    assert(out@ =~= now_playing_text(split(output@, '*')));
    string_of(&out)
}

/// Appends `s` to `out`.
fn append_chars(out: &mut Vec<char>, s: &Vec<char>)
    ensures
        final(out)@ == old(out)@ + s@,
{
    let mut k: usize = 0;
    while k < s.len()
        invariant
            k <= s.len(),
            out@ == old(out)@ + s@.take(k as int),
        decreases s.len() - k,
    {
        out.push(s[k]);
        assert(s@.take(k + 1) =~= s@.take(k as int).push(s@[k as int]));
        k = k + 1;
    }
    assert(s@.take(s.len() as int) =~= s@);
}

impl RPCState {
    /// The presence a configuration starts with, begun at `timestamp`: the default
    /// pictures and hover texts of the configuration (or fallbacks), the initial
    /// message and now-playing text, and the two buttons.
    pub fn new(config: &Config, timestamp: i64) -> (s: Self)
        requires
            config.wf(),
        ensures
            s.timestamp == timestamp,
            s.icon@ == first_or(config@, "default_icon"@, EMPTY_NAME@),
            s.icon_text@ == first_or(config@, "default_icon_text"@, DEFAULT_ICON_TEXT@),
            s.small_icon@ == first_or(config@, "default_small_icon"@, EMPTY_NAME@),
            s.small_text@ == first_or(config@, "default_small_text"@, DEFAULT_SMALL_TEXT@),
            s.message@ == INITIAL_MESSAGE@,
            s.music@ == INITIAL_MUSIC@,
            s.buttons@.len() == 2,
            s.buttons@[0].0@ == first_or(config@, "button1_label"@, ""@),
            s.buttons@[0].1@ == first_or(config@, "button1_url"@, ""@),
            s.buttons@[1].0@ == first_or(config@, "button2_label"@, ""@),
            s.buttons@[1].1@ == first_or(config@, "button2_url"@, ""@),
    {
        let icon = config.first_or("default_icon", EMPTY_NAME);
        let icon_text = config.first_or("default_icon_text", DEFAULT_ICON_TEXT);
        let small_icon = config.first_or("default_small_icon", EMPTY_NAME);
        let small_text = config.first_or("default_small_text", DEFAULT_SMALL_TEXT);
        let button1 = (config.first_or("button1_label", ""), config.first_or("button1_url", ""));
        let button2 = (config.first_or("button2_label", ""), config.first_or("button2_url", ""));
        let mut buttons: Vec<(String, String)> = Vec::new();
        buttons.push(button1);
        buttons.push(button2);
        RPCState {
            timestamp,
            icon,
            icon_text,
            small_icon,
            small_text,
            message: INITIAL_MESSAGE.to_owned(),
            music: INITIAL_MUSIC.to_owned(),
            buttons,
        }
    }

    /// Picks, at random, the next message and the next icon from the configuration,
    /// and shows `music` as what is playing; every other part stays. The picks draw
    /// from a generator seeded by the operating system: when it gives no random
    /// bytes, nothing changes and `false` is returned.
    pub fn refresh(&mut self, config: &Config, music: String) -> (refreshed: bool)
        requires
            config.wf(),
        ensures
            refreshed ==> message_pool(config@).contains(final(self).message@),
            refreshed ==> icon_pool(config@).contains(final(self).icon@),
            refreshed ==> final(self).music == music,
            !refreshed ==> final(self).message == old(self).message,
            !refreshed ==> final(self).icon == old(self).icon,
            !refreshed ==> final(self).music == old(self).music,
            final(self).timestamp == old(self).timestamp,
            final(self).icon_text == old(self).icon_text,
            final(self).small_icon == old(self).small_icon,
            final(self).small_text == old(self).small_text,
            final(self).buttons == old(self).buttons,
    {
        let mut rng = match seeded_rng() {
            Ok(rng) => rng,
            Err(_) => {
                return false;
            },
        };
        self.refresh_with(config, music, &mut rng);
        true
    }

    /// Picks the next message and the next icon from the configuration with the
    /// generator `rng`, and shows `music` as what is playing; every other part stays.
    pub fn refresh_with(&mut self, config: &Config, music: String, rng: &mut StdRng)
        requires
            config.wf(),
        ensures
            message_pool(config@).contains(final(self).message@),
            icon_pool(config@).contains(final(self).icon@),
            final(self).music == music,
            final(self).timestamp == old(self).timestamp,
            final(self).icon_text == old(self).icon_text,
            final(self).small_icon == old(self).small_icon,
            final(self).small_text == old(self).small_text,
            final(self).buttons == old(self).buttons,
    {
        let messages = message_pool_of(config);
        let icons = icon_pool_of(config);
        match choose_one(&messages, rng) {
            Some(m) => {
                proof {
                    let k = choose|k: int| 0 <= k < messages@.len() && messages@[k] == *m;
                    assert(messages.deep_view()[k] == m@);
                }
                self.message = m.clone();
            },
            None => {},
        }
        match choose_one(&icons, rng) {
            Some(i) => {
                proof {
                    let k = choose|k: int| 0 <= k < icons@.len() && icons@[k] == *i;
                    assert(icons.deep_view()[k] == i@);
                }
                self.icon = i.clone();
            },
            None => {},
        }
        self.music = music;
    }

    /// The buttons to show: those whose label and URL are both set, in order.
    pub fn activity_buttons(&self) -> (r: Vec<(String, String)>)
        ensures
            r.deep_view() == self.buttons.deep_view().filter(
                |b: (Seq<char>, Seq<char>)| b.0.len() > 0 && b.1.len() > 0,
            ),
    {
        let ghost bd = self.buttons.deep_view();
        let mut r: Vec<(String, String)> = Vec::new();
        let mut j: usize = 0;
        assert(bd.take(0).filter(|b: (Seq<char>, Seq<char>)| b.0.len() > 0 && b.1.len() > 0)
            =~= Seq::<(Seq<char>, Seq<char>)>::empty());
        while j < self.buttons.len()
            invariant
                j <= self.buttons.len(),
                bd == self.buttons.deep_view(),
                r.deep_view() == bd.take(j as int).filter(
                    |b: (Seq<char>, Seq<char>)| b.0.len() > 0 && b.1.len() > 0,
                ),
            decreases self.buttons.len() - j,
        {
            assert(bd.take(j + 1).drop_last() =~= bd.take(j as int));
            assert(bd.take(j + 1).last() == bd[j as int]);
            proof {
                reveal_with_fuel(Seq::filter, 1);
            }
            let label = &self.buttons[j].0;
            let url = &self.buttons[j].1;
            if !label.as_str().is_empty() && !url.as_str().is_empty() {
                let ghost before = r.deep_view();
                r.push((label.clone(), url.clone()));
                assert(r.deep_view() =~= before.push(bd[j as int]));
            }
            j = j + 1;
        }
        assert(bd.take(self.buttons.len() as int) =~= bd);
        r
    }
}

} // verus!
