//! The configuration model: sections of values under bracketed keys.
//!
//! A configuration file is a list of lines. A line `[key]` opens the section
//! `key` (emptying it if it was seen before); every other line that is not
//! empty and does not begin with `//` is a value, trimmed of surrounding
//! whitespace, appended to the section opened last (or to the section with the
//! empty key, before any header).

use vstd::prelude::*;
use crate::text::{chars_of, copy_range, lines, remove_char, split_lines, string_of, trim, trim_chars, views};

verus! {

/// Directory of the configuration files, relative to the home directory.
pub const CONFIG_PATH: &'static str = ".config/LinuxRPC";

/// Name of the file that records which configuration is active.
pub const CONFIG_FILE: &'static str = "config.rpc";

/// The sections of a configuration, in their stored order: each a key and its values.
pub type Entries = Seq<(Seq<char>, Seq<Seq<char>>)>;

/// The mathematical content of a configuration: the values under each key.
pub type ConfigMap = Map<Seq<char>, Seq<Seq<char>>>;

/// No key occurs in two sections.
pub open spec fn keys_distinct(e: Entries) -> bool {
    forall|i: int, j: int| 0 <= i < e.len() && 0 <= j < e.len() && i != j ==> e[i].0 != e[j].0
}

/// The map from each key to its values.
pub open spec fn entries_map(e: Entries) -> ConfigMap
    decreases e.len(),
{
    if e.len() == 0 {
        Map::empty()
    } else {
        entries_map(e.drop_last()).insert(e.last().0, e.last().1)
    }
}

/// The values under `k`, or none if `k` is absent.
pub open spec fn values_of(m: ConfigMap, k: Seq<char>) -> Seq<Seq<char>> {
    if m.contains_key(k) {
        m[k]
    } else {
        seq![]
    }
}

/// A line that begins with `//`.
pub open spec fn is_comment(line: Seq<char>) -> bool {
    line.len() >= 2 && line[0] == '/' && line[1] == '/'
}

/// A line that begins with `[` and ends with `]`.
pub open spec fn is_header(line: Seq<char>) -> bool {
    line.len() >= 1 && line[0] == '[' && line.last() == ']'
}

/// The key that a header line names: what stands between its brackets.
pub open spec fn header_key(line: Seq<char>) -> Seq<char> {
    line.subrange(1, line.len() - 1)
}

/// The effect of one line on the current key and the map read so far.
pub open spec fn parse_step(key: Seq<char>, m: ConfigMap, line: Seq<char>) -> (Seq<char>, ConfigMap) {
    if line.len() == 0 || is_comment(line) {
        (key, m)
    } else if is_header(line) {
        (header_key(line), m.insert(header_key(line), seq![]))
    } else {
        (key, m.insert(key, values_of(m, key).push(trim(line))))
    }
}

/// The state of reading: the current key and the map read so far.
pub type ParseState = (Seq<char>, ConfigMap);

/// The state before any line is read: the empty key and no sections.
pub open spec fn parse_init() -> ParseState {
    (seq![], Map::empty())
}

/// The state after reading the lines `ls`, starting from `st`.
pub open spec fn run_lines(st: ParseState, ls: Seq<Seq<char>>) -> ParseState
    decreases ls.len(),
{
    if ls.len() == 0 {
        st
    } else {
        let prev = run_lines(st, ls.drop_last());
        parse_step(prev.0, prev.1, ls.last())
    }
}

/// The configuration that the text `text` describes.
pub open spec fn parse(text: Seq<char>) -> ConfigMap {
    run_lines(parse_init(), lines(text)).1
}

/// The lines that write out the values `vs`: each with `'\r'` removed, then a newline.
pub open spec fn render_values(vs: Seq<Seq<char>>) -> Seq<char>
    decreases vs.len(),
{
    if vs.len() == 0 {
        seq![]
    } else {
        render_values(vs.drop_last()) + remove_char(vs.last(), '\r') + seq!['\n']
    }
}

/// The text that writes out one section: an empty line, the header `[key]`, the values.
pub open spec fn render_section(key: Seq<char>, vs: Seq<Seq<char>>) -> Seq<char> {
    seq!['\n', '['] + key + seq![']', '\n'] + render_values(vs)
}

/// The text that writes out the sections `e`, in order.
pub open spec fn render(e: Entries) -> Seq<char>
    decreases e.len(),
{
    if e.len() == 0 {
        seq![]
    } else {
        render(e.drop_last()) + render_section(e.last().0, e.last().1)
    }
}

/// `s` ends with `suffix`.
pub open spec fn ends_with(s: Seq<char>, suffix: Seq<char>) -> bool {
    s.len() >= suffix.len() && s.subrange(s.len() - suffix.len(), s.len() as int) == suffix
}

/// `p` occurs somewhere in `s`.
pub open spec fn contains_seq(s: Seq<char>, p: Seq<char>) -> bool {
    exists|i: int| 0 <= i && i + p.len() <= s.len() && #[trigger] s.subrange(i, i + p.len()) == p
}

/// A directory entry that is a user configuration: it ends with `.rpc` and is not
/// the file that records the active configuration.
pub open spec fn is_config_name(name: Seq<char>) -> bool {
    ends_with(name, ".rpc"@) && name != CONFIG_FILE@
}

/// `vs` without the values that occur in `targets`.
pub open spec fn without(vs: Seq<Seq<char>>, targets: Seq<Seq<char>>) -> Seq<Seq<char>> {
    vs.filter(|x: Seq<char>| !targets.contains(x))
}

/// What the record of the active configuration says.
#[derive(Debug)]
pub enum ActiveConfig {
    /// The record has no `[active]` section.
    Unset,
    /// The `[active]` section holds no value: no configuration is active.
    NoneSelected,
    /// The first value of the `[active]` section: the file name of the active configuration.
    Selected(String),
}

/// The first value under `key`, if `key` is present and holds a value.
pub open spec fn first_value_of(m: ConfigMap, key: Seq<char>) -> Option<Seq<char>> {
    if m.contains_key(key) && m[key].len() > 0 {
        Some(m[key][0])
    } else {
        None
    }
}

/// The first value under `key`, or `default` when there is none.
pub open spec fn first_or(m: ConfigMap, key: Seq<char>, default: Seq<char>) -> Seq<char> {
    match first_value_of(m, key) {
        Some(v) => v,
        None => default,
    }
}

/// A key is present exactly when some section holds it.
pub proof fn lemma_entries_map_dom(e: Entries, k: Seq<char>)
    ensures
        entries_map(e).contains_key(k) <==> exists|i: int| 0 <= i < e.len() && e[i].0 == k,
    decreases e.len(),
{
    if e.len() > 0 {
        lemma_entries_map_dom(e.drop_last(), k);
        if entries_map(e.drop_last()).contains_key(k) {
            let i = choose|i: int| 0 <= i < e.drop_last().len() && e.drop_last()[i].0 == k;
            assert(e[i].0 == k);
        }
        if exists|i: int| 0 <= i < e.len() && e[i].0 == k {
            let i = choose|i: int| 0 <= i < e.len() && e[i].0 == k;
            if i < e.len() - 1 {
                assert(e.drop_last()[i].0 == k);
            }
        }
    }
}

/// With distinct keys, each section's values are what the map holds under its key.
pub proof fn lemma_entries_map_value(e: Entries, i: int)
    requires
        keys_distinct(e),
        0 <= i < e.len(),
    ensures
        entries_map(e).contains_key(e[i].0),
        entries_map(e)[e[i].0] == e[i].1,
    decreases e.len(),
{
    if i < e.len() - 1 {
        lemma_entries_map_value(e.drop_last(), i);
        assert(e.drop_last()[i] == e[i]);
    }
}

/// Replacing the values of one section replaces them in the map.
pub proof fn lemma_entries_map_update(e: Entries, i: int, v: Seq<Seq<char>>)
    requires
        keys_distinct(e),
        0 <= i < e.len(),
    ensures
        keys_distinct(e.update(i, (e[i].0, v))),
        entries_map(e.update(i, (e[i].0, v))) == entries_map(e).insert(e[i].0, v),
{
    let e2 = e.update(i, (e[i].0, v));
    let k = e[i].0;
    assert(keys_distinct(e2));
    assert forall|x: Seq<char>| entries_map(e2).contains_key(x) <==> entries_map(e).insert(k, v).contains_key(x) by {
        lemma_entries_map_dom(e, x);
        lemma_entries_map_dom(e2, x);
        if exists|j: int| 0 <= j < e.len() && e[j].0 == x {
            let j = choose|j: int| 0 <= j < e.len() && e[j].0 == x;
            assert(e2[j].0 == x);
        }
        if exists|j: int| 0 <= j < e2.len() && e2[j].0 == x {
            let j = choose|j: int| 0 <= j < e2.len() && e2[j].0 == x;
            assert(e[j].0 == x);
        }
    }
    assert forall|x: Seq<char>| #[trigger] entries_map(e2).contains_key(x) implies entries_map(e2)[x] == entries_map(e).insert(k, v)[x] by {
        lemma_entries_map_dom(e2, x);
        let j = choose|j: int| 0 <= j < e2.len() && e2[j].0 == x;
        lemma_entries_map_value(e2, j);
        if j != i {
            lemma_entries_map_value(e, j);
        }
    }
    assert(entries_map(e2) =~= entries_map(e).insert(k, v));
}

/// Appending a section with a new key adds that key to the map.
pub proof fn lemma_entries_map_push(e: Entries, k: Seq<char>, v: Seq<Seq<char>>)
    requires
        keys_distinct(e),
        forall|i: int| 0 <= i < e.len() ==> e[i].0 != k,
    ensures
        keys_distinct(e.push((k, v))),
        entries_map(e.push((k, v))) == entries_map(e).insert(k, v),
{
    assert(e.push((k, v)).drop_last() =~= e);
}

/// A configuration: sections of values, each under a key that no other section holds.
///
/// The sections keep the order in which their keys were first seen; this is the
/// order in which they are written out. They are held in a vector of distinct-key
/// sections rather than a `HashMap<String, Vec<String>>`: writing a configuration
/// out walks every section, and vstd specifies no walk of a map keyed by `String`
/// (its `StringHashMap` offers none, and of a std `HashMap` with `String` keys
/// nothing is proved). The view is the map from each key to its values.
pub struct Config {
    sections: Vec<(String, Vec<String>)>,
}

impl View for Config {
    type V = ConfigMap;

    open spec fn view(&self) -> ConfigMap {
        entries_map(self.entries())
    }
}

impl Config {
    /// The sections, in their stored order.
    pub closed spec fn entries(&self) -> Entries {
        Seq::new(
            self.sections@.len(),
            |i: int| (self.sections@[i].0@, self.sections@[i].1.deep_view()),
        )
    }

    /// The sections have distinct keys.
    pub open spec fn wf(&self) -> bool {
        keys_distinct(self.entries())
    }

    /// The index of the section that holds `key`, if any.
    fn find(&self, key: &String) -> (r: Option<usize>)
        ensures
            match r {
                Some(i) => i < self.entries().len() && self.entries()[i as int].0 == key@,
                None => forall|i: int| 0 <= i < self.entries().len() ==> self.entries()[i].0 != key@,
            },
    {
        let mut i: usize = 0;
        while i < self.sections.len()
            invariant
                i <= self.sections.len(),
                forall|j: int| 0 <= j < i ==> self.entries()[j].0 != key@,
            decreases self.sections.len() - i,
        {
            if self.sections[i].0 == *key {
                return Some(i);
            }
            i = i + 1;
        }
        None
    }

    /// Sets the values under `key` to `values`, adding the key if it is new.
    fn put(&mut self, key: String, values: Vec<String>)
        requires
            old(self).wf(),
        ensures
            final(self).wf(),
            final(self)@ == old(self)@.insert(key@, values.deep_view()),
    {
        let ghost e = self.entries();
        let ghost vv = values.deep_view();
        match self.find(&key) {
            Some(i) => {
                proof {
                    lemma_entries_map_update(e, i as int, vv);
                }
                let _ = self.sections.remove(i);
                self.sections.insert(i, (key, values));
                assert(self.entries() =~= e.update(i as int, (e[i as int].0, vv)));
            },
            None => {
                proof {
                    lemma_entries_map_push(e, key@, vv);
                }
                self.sections.push((key, values));
                assert(self.entries() =~= e.push((key@, vv)));
            },
        }
    }

    /// Appends `value` to the values under `key`, adding the key if it is new.
    fn push_value(&mut self, key: &String, value: String)
        requires
            old(self).wf(),
        ensures
            final(self).wf(),
            final(self)@ == old(self)@.insert(key@, values_of(old(self)@, key@).push(value@)),
    {
        let ghost e = self.entries();
        proof {
            lemma_entries_map_dom(e, key@);
        }
        match self.find(key) {
            Some(i) => {
                proof {
                    lemma_entries_map_value(e, i as int);
                }
                let (k, mut vals) = self.sections.remove(i);
                let ghost before = vals.deep_view();
                vals.push(value);
                assert(vals.deep_view() =~= before.push(value@));
                assert(self.entries() =~= e.remove(i as int));
                self.sections.insert(i, (k, vals));
                proof {
                    lemma_entries_map_update(e, i as int, vals.deep_view());
                }
                assert(self.entries() =~= e.update(i as int, (e[i as int].0, vals.deep_view())));
            },
            None => {
                let mut vals: Vec<String> = Vec::new();
                vals.push(value);
                assert(vals.deep_view() =~= seq![value@]);
                assert(values_of(old(self)@, key@).push(value@) =~= seq![value@]);
                self.put(key.clone(), vals);
            },
        }
    }
}

/// Appends the characters of `s` to `out`.
fn append_str(out: &mut Vec<char>, s: &str)
    ensures
        final(out)@ == old(out)@ + s@,
{
    let cs = chars_of(s);
    let mut k: usize = 0;
    while k < cs.len()
        invariant
            k <= cs.len(),
            cs@ == s@,
            out@ == old(out)@ + cs@.take(k as int),
        decreases cs.len() - k,
    {
        out.push(cs[k]);
        assert(cs@.take(k + 1) =~= cs@.take(k as int).push(cs@[k as int]));
        k = k + 1;
    }
    assert(cs@.take(cs.len() as int) =~= cs@);
}

/// Appends the characters of `s` other than `'\r'` to `out`.
fn append_without_cr(out: &mut Vec<char>, s: &str)
    ensures
        final(out)@ == old(out)@ + remove_char(s@, '\r'),
{
    let cs = chars_of(s);
    let mut k: usize = 0;
    assert(cs@.take(0).filter(|x: char| x != '\r') =~= Seq::<char>::empty());
    while k < cs.len()
        invariant
            k <= cs.len(),
            cs@ == s@,
            out@ == old(out)@ + remove_char(cs@.take(k as int), '\r'),
        decreases cs.len() - k,
    {
        let c = cs[k];
        assert(cs@.take(k + 1).drop_last() =~= cs@.take(k as int));
        assert(cs@.take(k + 1).last() == c);
        proof {
            reveal_with_fuel(Seq::filter, 1);
        }
        if c != '\r' {
            out.push(c);
        }
        assert(out@ =~= old(out)@ + remove_char(cs@.take(k + 1), '\r'));
        k = k + 1;
    }
    assert(cs@.take(cs.len() as int) =~= cs@);
}

/// Whether `s` ends with `suffix`.
fn ends_with_chars(s: &Vec<char>, suffix: &Vec<char>) -> (b: bool)
    ensures
        b == ends_with(s@, suffix@),
{
    if s.len() < suffix.len() {
        return false;
    }
    let off = s.len() - suffix.len();
    let mut k: usize = 0;
    while k < suffix.len()
        invariant
            off + suffix.len() == s.len(),
            k <= suffix.len(),
            forall|j: int| 0 <= j < k ==> s@[off + j] == suffix@[j],
        decreases suffix.len() - k,
    {
        if s[off + k] != suffix[k] {
            assert(s@.subrange(off as int, s.len() as int)[k as int] != suffix@[k as int]);
            return false;
        }
        k = k + 1;
    }
    assert(s@.subrange(off as int, s.len() as int) =~= suffix@);
    true
}

/// Whether `p` occurs in `s`.
pub(crate) fn contains_chars(s: &Vec<char>, p: &Vec<char>) -> (b: bool)
    ensures
        b == contains_seq(s@, p@),
{
    if s.len() < p.len() {
        return false;
    }
    if p.len() == 0 {
        assert(s@.subrange(0, 0 + p.len()) =~= p@);
        return true;
    }
    let last = s.len() - p.len();
    let mut i: usize = 0;
    while i <= last
        invariant
            last + p.len() == s.len(),
            p.len() >= 1,
            forall|j: int| 0 <= j < i ==> #[trigger] s@.subrange(j, j + p.len()) != p@,
        decreases last + 1 - i,
    {
        let mut k: usize = 0;
        let mut same = true;
        while k < p.len()
            invariant
                i <= last,
                last + p.len() == s.len(),
                k <= p.len(),
                same ==> forall|j: int| 0 <= j < k ==> s@[i + j] == p@[j],
                !same ==> s@.subrange(i as int, i + p.len()) != p@,
            decreases p.len() - k,
        {
            if same && s[i + k] != p[k] {
                assert(s@.subrange(i as int, i + p.len())[k as int] != p@[k as int]);
                same = false;
            }
            k = k + 1;
        }
        if same {
            assert(s@.subrange(i as int, i + p.len()) =~= p@);
            return true;
        }
        i = i + 1;
    }
    false
}

/// Whether some string of `vs` equals `x`.
fn contains_string(vs: &Vec<String>, x: &String) -> (b: bool)
    ensures
        b == vs.deep_view().contains(x@),
{
    let mut j: usize = 0;
    while j < vs.len()
        invariant
            j <= vs.len(),
            forall|i: int| 0 <= i < j ==> vs.deep_view()[i] != x@,
        decreases vs.len() - j,
    {
        if vs[j] == *x {
            assert(vs.deep_view()[j as int] == x@);
            return true;
        }
        j = j + 1;
    }
    false
}

/// A copy of `vs`, string by string.
pub(crate) fn copy_strings(vs: &Vec<String>) -> (out: Vec<String>)
    ensures
        out.deep_view() == vs.deep_view(),
{
    let mut out: Vec<String> = Vec::new();
    let mut j: usize = 0;
    while j < vs.len()
        invariant
            j <= vs.len(),
            out.deep_view() == vs.deep_view().take(j as int),
        decreases vs.len() - j,
    {
        let s = vs[j].clone();
        let ghost before = out.deep_view();
        out.push(s);
        assert(out.deep_view() =~= before.push(vs.deep_view()[j as int]));
        assert(vs.deep_view().take(j + 1) =~= vs.deep_view().take(j as int).push(
            vs.deep_view()[j as int],
        ));
        j = j + 1;
    }
    assert(vs.deep_view().take(vs.len() as int) =~= vs.deep_view());
    out
}

/// Removing from `s` every value that `t` holds, where `t` holds all of `s`, leaves nothing.
pub proof fn lemma_without_all(s: Seq<Seq<char>>, t: Seq<Seq<char>>)
    requires
        forall|i: int| 0 <= i < s.len() ==> t.contains(#[trigger] s[i]),
    ensures
        without(s, t) == Seq::<Seq<char>>::empty(),
    decreases s.len(),
{
    reveal_with_fuel(Seq::filter, 1);
    if s.len() > 0 {
        assert forall|i: int| 0 <= i < s.drop_last().len() implies t.contains(
            #[trigger] s.drop_last()[i],
        ) by {
            assert(s.drop_last()[i] == s[i]);
        }
        lemma_without_all(s.drop_last(), t);
        assert(t.contains(s[s.len() - 1]));
    }
}

impl Config {
    /// An empty configuration.
    pub fn new() -> (c: Config)
        ensures
            c.wf(),
            c@ == Map::<Seq<char>, Seq<Seq<char>>>::empty(),
            c.entries().len() == 0,
    {
        let c = Config { sections: Vec::new() };
        assert(c.entries() =~= Seq::<(Seq<char>, Seq<Seq<char>>)>::empty());
        c
    }

    /// Replaces the contents with the configuration that `text` describes.
    pub fn read_config(&mut self, text: &str)
        ensures
            final(self).wf(),
            final(self)@ == parse(text@),
    {
        self.sections = Vec::new();
        assert(self.entries() =~= Seq::<(Seq<char>, Seq<Seq<char>>)>::empty());
        let chars = chars_of(text);
        let ls = split_lines(&chars);
        let ghost lv = views(ls@);
        let mut key: String = String::new();
        let mut i: usize = 0;
        assert(lv.take(0) =~= Seq::<Seq<char>>::empty());
        assert(self@ =~= Map::<Seq<char>, Seq<Seq<char>>>::empty());
        while i < ls.len()
            invariant
                i <= ls.len(),
                lv == views(ls@),
                lv == lines(text@),
                self.wf(),
                run_lines(parse_init(), lv.take(i as int)) == (key@, self@),
            decreases ls.len() - i,
        {
            let line = &ls[i];
            assert(lv.take(i + 1).drop_last() =~= lv.take(i as int));
            assert(lv.take(i + 1).last() == line@);
            let n = line.len();
            if n == 0 || (n >= 2 && line[0] == '/' && line[1] == '/') {
            } else if line[0] == '[' && line[n - 1] == ']' {
                key = string_of(&copy_range(line, 1, n - 1));
                let empty: Vec<String> = Vec::new();
                assert(empty.deep_view() =~= Seq::<Seq<char>>::empty());
                self.put(key.clone(), empty);
            } else {
                let v = string_of(&trim_chars(line));
                self.push_value(&key, v);
            }
            i = i + 1;
        }
        assert(lv.take(ls.len() as int) =~= lv);
    }

    /// The values under `key`, if `key` is present.
    pub fn get(&self, key: &str) -> (r: Option<&Vec<String>>)
        requires
            self.wf(),
        ensures
            match r {
                Some(v) => self@.contains_key(key@) && v.deep_view() == self@[key@],
                None => !self@.contains_key(key@),
            },
    {
        let k = key.to_owned();
        proof {
            lemma_entries_map_dom(self.entries(), key@);
        }
        match self.find(&k) {
            Some(i) => {
                proof {
                    lemma_entries_map_value(self.entries(), i as int);
                }
                Some(&self.sections[i].1)
            },
            None => None,
        }
    }

    /// Whether `key` is present.
    pub fn contains_key(&self, key: &str) -> (b: bool)
        requires
            self.wf(),
        ensures
            b == self@.contains_key(key@),
    {
        self.get(key).is_some()
    }

    /// Whether the configuration holds no section.
    pub fn is_empty(&self) -> (b: bool)
        requires
            self.wf(),
        ensures
            b == (self.entries().len() == 0),
            b ==> self@ == Map::<Seq<char>, Seq<Seq<char>>>::empty(),
            !b ==> exists|k: Seq<char>| self@.contains_key(k),
    {
        proof {
            if self.entries().len() > 0 {
                lemma_entries_map_value(self.entries(), 0);
                assert(self@.contains_key(self.entries()[0].0));
            } else {
                assert(self@ =~= Map::<Seq<char>, Seq<Seq<char>>>::empty());
            }
        }
        self.sections.len() == 0
    }

    /// The keys, in the stored order of their sections.
    pub fn keys(&self) -> (r: Vec<String>)
        requires
            self.wf(),
        ensures
            r.deep_view() == self.entries().map_values(|e: (Seq<char>, Seq<Seq<char>>)| e.0),
            r.deep_view().no_duplicates(),
            forall|k: Seq<char>| self@.contains_key(k) <==> r.deep_view().contains(k),
    {
        let mut r: Vec<String> = Vec::new();
        let mut i: usize = 0;
        let ghost ks = self.entries().map_values(|e: (Seq<char>, Seq<Seq<char>>)| e.0);
        while i < self.sections.len()
            invariant
                i <= self.sections.len(),
                ks == self.entries().map_values(|e: (Seq<char>, Seq<Seq<char>>)| e.0),
                r.deep_view() == ks.take(i as int),
            decreases self.sections.len() - i,
        {
            let k = self.sections[i].0.clone();
            let ghost before = r.deep_view();
            r.push(k);
            assert(r.deep_view() =~= before.push(ks[i as int]));
            assert(ks.take(i + 1) =~= ks.take(i as int).push(ks[i as int]));
            i = i + 1;
        }
        assert(ks.take(self.sections.len() as int) =~= ks);
        assert forall|k: Seq<char>| self@.contains_key(k) <==> r.deep_view().contains(k) by {
            lemma_entries_map_dom(self.entries(), k);
            if r.deep_view().contains(k) {
                let j = choose|j: int| 0 <= j < r.deep_view().len() && r.deep_view()[j] == k;
                assert(self.entries()[j].0 == k);
            }
            if self@.contains_key(k) {
                let j = choose|j: int| 0 <= j < self.entries().len() && self.entries()[j].0 == k;
                assert(r.deep_view()[j] == k);
            }
        }
        r
    }

    /// The first value under `key`, if `key` is present and holds a value.
    pub fn first_value(&self, key: &str) -> (r: Option<String>)
        requires
            self.wf(),
        ensures
            match r {
                Some(v) => first_value_of(self@, key@) == Some(v@),
                None => first_value_of(self@, key@) is None,
            },
    {
        match self.get(key) {
            Some(vs) => {
                if vs.len() > 0 {
                    assert(vs.deep_view()[0] == vs@[0]@);
                    Some(vs[0].clone())
                } else {
                    None
                }
            },
            None => None,
        }
    }

    /// The first value under `key`, or `default` when `key` is absent or holds no value.
    pub fn first_or(&self, key: &str, default: &str) -> (r: String)
        requires
            self.wf(),
        ensures
            r@ == first_or(self@, key@, default@),
    {
        match self.first_value(key) {
            Some(v) => v,
            None => default.to_owned(),
        }
    }

    /// Appends `value` to the values under `key`. A key that is not present is
    /// left absent, nothing changes, and `false` is returned.
    pub fn add_to_config(&mut self, key: &str, value: String) -> (added: bool)
        requires
            old(self).wf(),
        ensures
            final(self).wf(),
            added == old(self)@.contains_key(key@),
            added ==> final(self)@ == old(self)@.insert(key@, old(self)@[key@].push(value@)),
            !added ==> final(self)@ == old(self)@,
    {
        let k = key.to_owned();
        if !self.contains_key(key) {
            return false;
        }
        self.push_value(&k, value);
        true
    }

    /// Removes from the values under `key` every value that equals one of `values`;
    /// the others keep their order. A key that is not present is left absent,
    /// nothing changes, and `false` is returned.
    pub fn remove_from_config(&mut self, key: &str, values: Vec<String>) -> (found: bool)
        requires
            old(self).wf(),
        ensures
            final(self).wf(),
            found == old(self)@.contains_key(key@),
            found ==> final(self)@ == old(self)@.insert(
                key@,
                without(old(self)@[key@], values.deep_view()),
            ),
            !found ==> final(self)@ == old(self)@,
    {
        let k = key.to_owned();
        let ghost e = self.entries();
        proof {
            lemma_entries_map_dom(e, key@);
        }
        match self.find(&k) {
            None => false,
            Some(i) => {
                proof {
                    lemma_entries_map_value(e, i as int);
                }
                let (sk, vals) = self.sections.remove(i);
                let ghost vd = vals.deep_view();
                let ghost td = values.deep_view();
                let mut kept: Vec<String> = Vec::new();
                let mut j: usize = 0;
                assert(vd.take(0).filter(|x: Seq<char>| !td.contains(x)) =~= Seq::<
                    Seq<char>,
                >::empty());
                while j < vals.len()
                    invariant
                        j <= vals.len(),
                        vd == vals.deep_view(),
                        td == values.deep_view(),
                        kept.deep_view() == without(vd.take(j as int), td),
                    decreases vals.len() - j,
                {
                    assert(vd.take(j + 1).drop_last() =~= vd.take(j as int));
                    assert(vd.take(j + 1).last() == vals@[j as int]@);
                    proof {
                        reveal_with_fuel(Seq::filter, 1);
                    }
                    if !contains_string(&values, &vals[j]) {
                        let ghost before = kept.deep_view();
                        kept.push(vals[j].clone());
                        assert(kept.deep_view() =~= before.push(vals@[j as int]@));
                    }
                    j = j + 1;
                }
                assert(vd.take(vals.len() as int) =~= vd);
                assert(self.entries() =~= e.remove(i as int));
                self.sections.insert(i, (sk, kept));
                proof {
                    lemma_entries_map_update(e, i as int, without(vd, td));
                }
                assert(self.entries() =~= e.update(i as int, (e[i as int].0, without(vd, td))));
                true
            },
        }
    }

    /// What the record of the active configuration says.
    pub fn read_active_config(&self) -> (r: ActiveConfig)
        requires
            self.wf(),
        ensures
            match r {
                ActiveConfig::Unset => !self@.contains_key("active"@),
                ActiveConfig::NoneSelected => self@.contains_key("active"@)
                    && self@["active"@].len() == 0,
                ActiveConfig::Selected(name) => self@.contains_key("active"@)
                    && self@["active"@].len() > 0 && name@ == self@["active"@][0],
            },
    {
        match self.get("active") {
            None => ActiveConfig::Unset,
            Some(vs) => {
                if vs.len() == 0 {
                    ActiveConfig::NoneSelected
                } else {
                    assert(vs.deep_view()[0] == vs@[0]@);
                    ActiveConfig::Selected(vs[0].clone())
                }
            },
        }
    }

    /// Makes `value` the only value under `key`: the values there are removed, then
    /// `value` is added. A key that is not present is left absent, nothing changes,
    /// and `false` is returned.
    pub fn replace_values(&mut self, key: &str, value: String) -> (found: bool)
        requires
            old(self).wf(),
        ensures
            final(self).wf(),
            found == old(self)@.contains_key(key@),
            found ==> final(self)@ == old(self)@.insert(key@, seq![value@]),
            !found ==> final(self)@ == old(self)@,
    {
        let current = match self.get(key) {
            Some(vs) => copy_strings(vs),
            None => {
                return false;
            },
        };
        let ghost cur = current.deep_view();
        proof {
            assert forall|i: int| 0 <= i < cur.len() implies cur.contains(#[trigger] cur[i]) by {}
            lemma_without_all(cur, cur);
        }
        let _ = self.remove_from_config(key, current);
        let _ = self.add_to_config(key, value);
        assert(seq![].push(value@) =~= seq![value@]);
        assert(self@ =~= old(self)@.insert(key@, seq![value@]));
        true
    }

    /// Makes `name` the only value under `active`: the values there are removed,
    /// then `name` is added. Without an `active` section nothing changes and
    /// `false` is returned.
    pub fn swap_active(&mut self, name: String) -> (swapped: bool)
        requires
            old(self).wf(),
        ensures
            final(self).wf(),
            swapped == old(self)@.contains_key("active"@),
            swapped ==> final(self)@ == old(self)@.insert("active"@, seq![name@]),
            !swapped ==> final(self)@ == old(self)@,
    {
        self.replace_values("active", name)
    }

    /// The text that writes out the configuration: for each section, in order, an
    /// empty line, the header `[key]`, then each value with `'\r'` removed, one per line.
    pub fn write_config(&self) -> (text: String)
        ensures
            text@ == render(self.entries()),
    {
        let mut out: Vec<char> = Vec::new();
        let mut i: usize = 0;
        let ghost e = self.entries();
        assert(e.take(0) =~= Seq::<(Seq<char>, Seq<Seq<char>>)>::empty());
        while i < self.sections.len()
            invariant
                i <= self.sections.len(),
                e == self.entries(),
                out@ == render(e.take(i as int)),
            decreases self.sections.len() - i,
        {
            let ghost base = out@;
            out.push('\n');
            out.push('[');
            append_str(&mut out, self.sections[i].0.as_str());
            out.push(']');
            out.push('\n');
            let vals = &self.sections[i].1;
            let ghost vd = vals.deep_view();
            let ghost head = base + seq!['\n', '['] + e[i as int].0 + seq![']', '\n'];
            assert(out@ =~= head);
            assert(vd.take(0) =~= Seq::<Seq<char>>::empty());
            assert(out@ =~= head + render_values(vd.take(0)));
            let mut j: usize = 0;
            while j < vals.len()
                invariant
                    j <= vals.len(),
                    vd == vals.deep_view(),
                    out@ == head + render_values(vd.take(j as int)),
                decreases vals.len() - j,
            {
                append_without_cr(&mut out, vals[j].as_str());
                out.push('\n');
                assert(vd.take(j + 1).drop_last() =~= vd.take(j as int));
                assert(vd.take(j + 1).last() == vals@[j as int]@);
                assert(out@ =~= head + render_values(vd.take(j + 1)));
                j = j + 1;
            }
            assert(vd.take(vals.len() as int) =~= vd);
            assert(e.take(i + 1).drop_last() =~= e.take(i as int));
            assert(e.take(i + 1).last() == e[i as int]);
            assert(out@ =~= render(e.take(i + 1)));
            i = i + 1;
        }
        assert(e.take(self.sections.len() as int) =~= e);
        string_of(&out)
    }

    /// The configurations among the directory entries `names`: those that end with
    /// `.rpc` but are not the record of the active configuration, in their order.
    pub fn get_configs(names: &Vec<String>) -> (r: Vec<String>)
        ensures
            r.deep_view() == names.deep_view().filter(|n: Seq<char>| is_config_name(n)),
    {
        let ext = chars_of(".rpc");
        let record = CONFIG_FILE.to_owned();
        let ghost nd = names.deep_view();
        let mut r: Vec<String> = Vec::new();
        let mut j: usize = 0;
        assert(nd.take(0).filter(|n: Seq<char>| is_config_name(n)) =~= Seq::<Seq<char>>::empty());
        while j < names.len()
            invariant
                j <= names.len(),
                nd == names.deep_view(),
                ext@ == ".rpc"@,
                record@ == CONFIG_FILE@,
                r.deep_view() == nd.take(j as int).filter(|n: Seq<char>| is_config_name(n)),
            decreases names.len() - j,
        {
            assert(nd.take(j + 1).drop_last() =~= nd.take(j as int));
            assert(nd.take(j + 1).last() == names@[j as int]@);
            proof {
                reveal_with_fuel(Seq::filter, 1);
            }
            let cs = chars_of(names[j].as_str());
            if ends_with_chars(&cs, &ext) && !(names[j] == record) {
                let ghost before = r.deep_view();
                r.push(names[j].clone());
                assert(r.deep_view() =~= before.push(names@[j as int]@));
            }
            j = j + 1;
        }
        assert(nd.take(names.len() as int) =~= nd);
        r
    }
}

/// Whether `text` is a single empty line: a file that names no configuration
/// and holds nothing else.
pub fn is_blank_record(text: &str) -> (b: bool)
    ensures
        b == (lines(text@) == seq![Seq::<char>::empty()]),
{
    let chars = chars_of(text);
    let ls = split_lines(&chars);
    let b = ls.len() == 1 && ls[0].len() == 0;
    proof {
        if b {
            assert(ls@[0]@ =~= Seq::<char>::empty());
            assert(views(ls@) =~= seq![Seq::<char>::empty()]);
        } else if lines(text@) == seq![Seq::<char>::empty()] {
            assert(views(ls@).len() == 1);
            assert(views(ls@)[0] == ls@[0]@);
        }
    }
    b
}

/// After a swap the record names the configuration swapped to.
pub proof fn lemma_swap_then_read(m: ConfigMap, name: Seq<char>)
    ensures
        first_value_of(m.insert("active"@, seq![name]), "active"@) == Some(name),
{
}

/// The file name of the configuration called `name`: `name` followed by `.rpc`.
pub fn config_file_name(name: &str) -> (r: String)
    ensures
        r@ == name@ + ".rpc"@,
{
    let mut out: Vec<char> = Vec::new();
    append_str(&mut out, name);
    append_str(&mut out, ".rpc");
    assert(out@ =~= name@ + ".rpc"@);
    string_of(&out)
}

} // verus!
