//! Laws of the library stated without its own spec functions on the right-hand
//! side: what reading keeps of a value line, which values removal keeps, which
//! keys hold a single setting, what the now-playing text shows, and which
//! directory entries are configurations.

use vstd::prelude::*;
use crate::cli::is_single_setting;
use crate::config::{
    contains_seq, is_comment, is_config_name, is_header, parse, parse_init,
    parse_step, run_lines, values_of, without, ConfigMap, ParseState, CONFIG_FILE,
};
use crate::roundtrip::{lemma_lines_terminated, lemma_terminated_append, lemma_terminated_single, terminated};
use crate::rpc::{now_playing_text, IDLE_TITLE};
use crate::text::{is_ws, split, split_from, strip_cr, trim, trim_end, trim_start};

verus! {

// ---------------------------------------------------------------------------
// Trimming

proof fn lemma_trim_start_shape(s: Seq<char>) -> (a: int)
    ensures
        0 <= a <= s.len(),
        trim_start(s) == s.subrange(a, s.len() as int),
        forall|i: int| 0 <= i < a ==> is_ws(#[trigger] s[i]),
        a < s.len() ==> !is_ws(s[a]),
    decreases s.len(),
{
    if s.len() > 0 && is_ws(s[0]) {
        let a1 = lemma_trim_start_shape(s.drop_first());
        assert forall|i: int| 0 <= i < a1 + 1 implies is_ws(#[trigger] s[i]) by {
            if i > 0 {
                assert(s[i] == s.drop_first()[i - 1]);
            }
        }
        assert(s.drop_first().subrange(a1, s.drop_first().len() as int) =~= s.subrange(
            a1 + 1,
            s.len() as int,
        ));
        if a1 + 1 < s.len() {
            assert(s[a1 + 1] == s.drop_first()[a1]);
        }
        a1 + 1
    } else {
        assert(s.subrange(0, s.len() as int) =~= s);
        0
    }
}

proof fn lemma_trim_end_shape(s: Seq<char>) -> (b: int)
    ensures
        0 <= b <= s.len(),
        trim_end(s) == s.subrange(0, b),
        forall|i: int| b <= i < s.len() ==> is_ws(#[trigger] s[i]),
        b > 0 ==> !is_ws(s[b - 1]),
    decreases s.len(),
{
    if s.len() > 0 && is_ws(s.last()) {
        let b1 = lemma_trim_end_shape(s.drop_last());
        assert forall|i: int| b1 <= i < s.len() implies is_ws(#[trigger] s[i]) by {
            if i < s.len() - 1 {
                assert(s[i] == s.drop_last()[i]);
            }
        }
        assert(s.drop_last().subrange(0, b1) =~= s.subrange(0, b1));
        if b1 > 0 {
            assert(s[b1 - 1] == s.drop_last()[b1 - 1]);
        }
        b1
    } else {
        assert(s.subrange(0, s.len() as int) =~= s);
        s.len() as int
    }
}

/// Whether `w` is what remains of `v` once its leading and trailing whitespace is
/// removed: a stretch `v[a..b]` with only whitespace before and after it, that is
/// empty or begins and ends with a character that is not whitespace.
pub open spec fn is_trimmed_from(w: Seq<char>, v: Seq<char>) -> bool {
    exists|a: int, b: int|
        0 <= a <= b <= v.len() && w == v.subrange(a, b) && (forall|i: int|
            0 <= i < a ==> is_ws(#[trigger] v[i])) && (forall|i: int|
            b <= i < v.len() ==> is_ws(#[trigger] v[i])) && (w.len() == 0 || (!is_ws(w[0])
            && !is_ws(w.last())))
}

proof fn lemma_trim_shape(v: Seq<char>)
    ensures
        is_trimmed_from(trim(v), v),
{
    let a = lemma_trim_start_shape(v);
    let t = v.subrange(a, v.len() as int);
    let b0 = lemma_trim_end_shape(t);
    let w = t.subrange(0, b0);
    assert(w =~= v.subrange(a, a + b0));
    assert forall|i: int| a + b0 <= i < v.len() implies is_ws(#[trigger] v[i]) by {
        assert(v[i] == t[i - a]);
    }
    if w.len() > 0 {
        assert(w[0] == v[a]);
        assert(w.last() == t[b0 - 1]);
    }
    assert(0 <= a <= a + b0 <= v.len() && w == v.subrange(a, a + b0));
}

// ---------------------------------------------------------------------------
// Reading

/// Every value in a map is empty or has no whitespace at either end.
spec fn values_trimmed(m: ConfigMap) -> bool {
    forall|k: Seq<char>, j: int|
        m.contains_key(k) && 0 <= j < m[k].len() ==> (#[trigger] m[k][j]).len() == 0 || (!is_ws(
            m[k][j][0],
        ) && !is_ws(m[k][j].last()))
}

proof fn lemma_run_trimmed(st: ParseState, ls: Seq<Seq<char>>)
    requires
        values_trimmed(st.1),
    ensures
        values_trimmed(run_lines(st, ls).1),
    decreases ls.len(),
{
    if ls.len() > 0 {
        lemma_run_trimmed(st, ls.drop_last());
        let prev = run_lines(st, ls.drop_last());
        let line = ls.last();
        let next = parse_step(prev.0, prev.1, line);
        if !(line.len() == 0 || is_comment(line)) && !is_header(line) {
            let t = trim(line);
            lemma_trim_shape(line);
            let vs = values_of(prev.1, prev.0).push(t);
            assert forall|k: Seq<char>, j: int|
                next.1.contains_key(k) && 0 <= j < next.1[k].len() implies (
            #[trigger] next.1[k][j]).len() == 0 || (!is_ws(next.1[k][j][0]) && !is_ws(
                next.1[k][j].last(),
            )) by {
                if k == prev.0 {
                    if j < vs.len() - 1 {
                        assert(prev.1.contains_key(k));
                        assert(next.1[k][j] == prev.1[k][j]);
                    }
                }
            }
        }
    }
}

/// Every value read from a text has no whitespace at either end: reading trims
/// each value line, whatever character it begins with.
pub proof fn lemma_read_values_trimmed(text: Seq<char>, k: Seq<char>, j: int)
    requires
        parse(text).contains_key(k),
        0 <= j < parse(text)[k].len(),
    ensures
        parse(text)[k][j].len() == 0 || (!is_ws(parse(text)[k][j][0]) && !is_ws(
            parse(text)[k][j].last(),
        )),
{
    assert(values_trimmed(parse_init().1));
    lemma_run_trimmed(parse_init(), crate::text::lines(text));
}

/// Reading a header line `[k]` followed by one value line `v` gives exactly the key
/// `k` holding one value: `v` with its leading and trailing whitespace removed.
pub proof fn lemma_read_one_value(k: Seq<char>, v: Seq<char>)
    requires
        !k.contains('\n'),
        !v.contains('\n'),
        v.len() > 0,
        v.last() != '\r',
        !(v.len() >= 2 && v[0] == '/' && v[1] == '/'),
        !(v[0] == '[' && v.last() == ']'),
    ensures
        ({
            let m = parse(seq!['['] + k + seq![']', '\n'] + v + seq!['\n']);
            &&& m.dom() == set![k]
            &&& m[k].len() == 1
            &&& is_trimmed_from(m[k][0], v)
        }),
{
    let h = seq!['['] + k + seq![']'];
    let ls = seq![h, v];
    lemma_terminated_append(seq![h], seq![v]);
    assert(seq![h] + seq![v] =~= ls);
    lemma_terminated_single(h);
    lemma_terminated_single(v);
    let text = seq!['['] + k + seq![']', '\n'] + v + seq!['\n'];
    assert(terminated(ls) =~= text);
    assert(!h.contains('\n')) by {
        if h.contains('\n') {
            let p = choose|p: int| 0 <= p < h.len() && h[p] == '\n';
            assert(k[p - 1] == '\n');
        }
    }
    assert forall|i: int| 0 <= i < ls.len() implies !(#[trigger] ls[i]).contains('\n') by {
        if i == 0 {
            assert(ls[0] == h);
        } else {
            assert(ls[1] == v);
        }
    }
    assert forall|i: int| 0 <= i < ls.len() implies strip_cr(#[trigger] ls[i]) == ls[i] by {
        if i == 0 {
            assert(ls[0] == h);
            assert(h.last() == ']');
        } else {
            assert(ls[1] == v);
        }
    }
    lemma_lines_terminated(ls);
    assert(crate::text::lines(text) == ls);
    assert(ls.drop_last() =~= seq![h]);
    assert(seq![h].drop_last() =~= Seq::<Seq<char>>::empty());
    assert(is_header(h));
    assert(h.subrange(1, h.len() - 1) =~= k);
    assert(run_lines(parse_init(), Seq::<Seq<char>>::empty()) == parse_init());
    assert(seq![h].last() == h);
    assert(h.len() > 0 && h[0] == '[');
    assert(!is_comment(h));
    let st1 = run_lines(parse_init(), seq![h]);
    assert(st1 == parse_step(parse_init().0, parse_init().1, h));
    assert(st1 == (k, Map::<Seq<char>, Seq<Seq<char>>>::empty().insert(k, seq![])));
    assert(!is_comment(v));
    assert(!is_header(v));
    let m = parse(text);
    assert(m == st1.1.insert(k, seq![trim(v)]));
    assert(m.dom() =~= set![k]);
    lemma_trim_shape(v);
}

// ---------------------------------------------------------------------------
// Removing values

proof fn lemma_filter_contains_iff<A>(s: Seq<A>, p: spec_fn(A) -> bool, x: A)
    ensures
        s.filter(p).contains(x) <==> s.contains(x) && p(x),
    decreases s.len(),
{
    reveal_with_fuel(Seq::filter, 1);
    if s.len() > 0 {
        lemma_filter_contains_iff(s.drop_last(), p, x);
        let f = s.drop_last().filter(p);
        if s.drop_last().contains(x) {
            let i = choose|i: int| 0 <= i < s.drop_last().len() && s.drop_last()[i] == x;
            assert(s[i] == x);
        }
        if s.contains(x) {
            let i = choose|i: int| 0 <= i < s.len() && s[i] == x;
            if i < s.len() - 1 {
                assert(s.drop_last()[i] == x);
            }
        }
        if p(s.last()) {
            assert(f.push(s.last())[f.len() as int] == s.last());
            if f.contains(x) {
                let i = choose|i: int| 0 <= i < f.len() && f[i] == x;
                assert(f.push(s.last())[i] == x);
            }
            if f.push(s.last()).contains(x) {
                let i = choose|i: int| 0 <= i < f.len() + 1 && f.push(s.last())[i] == x;
                if i < f.len() {
                    assert(f[i] == x);
                }
            }
        }
    }
}

/// After removing the values `ts` from `vs`, a value is kept exactly when `vs` held
/// it and it equals none of `ts`: a value that equals none of them is never removed.
pub proof fn lemma_remove_keeps_exactly(vs: Seq<Seq<char>>, ts: Seq<Seq<char>>, w: Seq<char>)
    ensures
        without(vs, ts).contains(w) <==> (vs.contains(w) && !ts.contains(w)),
{
    lemma_filter_contains_iff(vs, |x: Seq<char>| !ts.contains(x), w);
}

/// Removing values of which `vs` holds none leaves `vs` as it was.
pub proof fn lemma_remove_absent_values(vs: Seq<Seq<char>>, ts: Seq<Seq<char>>)
    requires
        forall|i: int| 0 <= i < vs.len() ==> !ts.contains(#[trigger] vs[i]),
    ensures
        without(vs, ts) == vs,
    decreases vs.len(),
{
    reveal_with_fuel(Seq::filter, 1);
    if vs.len() > 0 {
        assert forall|i: int| 0 <= i < vs.drop_last().len() implies !ts.contains(
            #[trigger] vs.drop_last()[i],
        ) by {
            assert(vs.drop_last()[i] == vs[i]);
        }
        lemma_remove_absent_values(vs.drop_last(), ts);
        assert(!ts.contains(vs[vs.len() - 1]));
        assert(vs.drop_last().push(vs.last()) =~= vs);
    }
}

// ---------------------------------------------------------------------------
// Single settings

/// A key holds a single setting exactly when it is `clientId` or `player`, or has
/// `default` in it; every other key (such as `icons` or `messages`) holds a list,
/// to which the prompt appends.
pub proof fn lemma_single_setting_keys(k: Seq<char>)
    ensures
        is_single_setting(k) <==> (k == "clientId"@ || k == "player"@ || exists|i: int|
            0 <= i && i + 7 <= k.len() && #[trigger] k.subrange(i, i + 7) == "default"@),
        !is_single_setting("icons"@),
        !is_single_setting("messages"@),
{
    reveal_strlit("default");
    reveal_strlit("icons");
    reveal_strlit("messages");
    reveal_strlit("clientId");
    reveal_strlit("player");
    let d = "default"@;
    assert(d.len() == 7);
    assert("icons"@ != "clientId"@ && "icons"@ != "player"@) by {
        assert("icons"@.len() == 5);
        assert("icons"@[0] != "player"@[0]);
    }
    assert(!contains_seq("icons"@, d)) by {
        assert("icons"@.len() < 7);
    }
    let m = "messages"@;
    assert(m != "clientId"@ && m != "player"@) by {
        assert(m.len() == 8);
        assert(m[0] != "clientId"@[0]);
    }
    assert(!contains_seq(m, d)) by {
        if contains_seq(m, d) {
            let i = choose|i: int| 0 <= i && i + d.len() <= m.len() && #[trigger] m.subrange(
                i,
                i + d.len(),
            ) == d;
            if i == 0 {
                assert(m.subrange(0, 7)[0] != d[0]);
            } else {
                assert(m.subrange(1, 8)[0] != d[0]);
            }
        }
    }
}

// ---------------------------------------------------------------------------
// The now-playing text

proof fn lemma_split_field(s1: Seq<char>, s2: Seq<char>, sep: char, cur: Seq<char>)
    requires
        !s1.contains(sep),
    ensures
        split_from(s1 + seq![sep] + s2, sep, cur) == seq![cur + s1] + split_from(s2, sep, seq![]),
    decreases s1.len(),
{
    let s = s1 + seq![sep] + s2;
    if s1.len() == 0 {
        assert(s.drop_first() =~= s2);
        assert(cur + s1 =~= cur);
    } else {
        assert(s[0] == s1[0]);
        assert(s1[0] != sep);
        assert(s.drop_first() =~= s1.drop_first() + seq![sep] + s2);
        assert(!s1.drop_first().contains(sep)) by {
            if s1.drop_first().contains(sep) {
                let k = choose|k: int| 0 <= k < s1.drop_first().len() && s1.drop_first()[k] == sep;
                assert(s1[k + 1] == sep);
            }
        }
        lemma_split_field(s1.drop_first(), s2, sep, cur.push(s1[0]));
        assert(cur.push(s1[0]) + s1.drop_first() =~= cur + s1);
    }
}

proof fn lemma_split_last(s: Seq<char>, sep: char, cur: Seq<char>)
    requires
        !s.contains(sep),
    ensures
        split_from(s, sep, cur) == seq![cur + s],
    decreases s.len(),
{
    if s.len() == 0 {
        assert(cur + s =~= cur);
    } else {
        assert(s[0] != sep);
        assert(!s.drop_first().contains(sep)) by {
            if s.drop_first().contains(sep) {
                let k = choose|k: int| 0 <= k < s.drop_first().len() && s.drop_first()[k] == sep;
                assert(s[k + 1] == sep);
            }
        }
        lemma_split_last(s.drop_first(), sep, cur.push(s[0]));
        assert(cur.push(s[0]) + s.drop_first() =~= cur + s);
    }
}

/// The first field of `t + rest`, when `t` holds no separator and `rest` is empty
/// or begins with one, is `t`.
proof fn lemma_split_first(t: Seq<char>, rest: Seq<char>, sep: char)
    requires
        !t.contains(sep),
        rest.len() == 0 || rest[0] == sep,
    ensures
        split_from(t + rest, sep, seq![]).len() >= 1,
        split_from(t + rest, sep, seq![])[0] == t,
{
    if rest.len() == 0 {
        assert(t + rest =~= t);
        lemma_split_last(t, sep, seq![]);
        assert(Seq::<char>::empty() + t =~= t);
    } else {
        assert(t + rest =~= t + seq![sep] + rest.drop_first());
        lemma_split_field(t, rest.drop_first(), sep, seq![]);
        assert(Seq::<char>::empty() + t =~= t);
    }
}

/// For player output `artist*album*title` followed by nothing or by more fields, the
/// now-playing text is `♪ `, the whole artist, ` - `, the whole title.
pub proof fn lemma_now_playing_shows_artist_and_title(
    artist: Seq<char>,
    album: Seq<char>,
    title: Seq<char>,
    rest: Seq<char>,
)
    requires
        !artist.contains('*'),
        !album.contains('*'),
        !title.contains('*'),
        rest.len() == 0 || rest[0] == '*',
    ensures
        now_playing_text(
            split(artist + seq!['*'] + album + seq!['*'] + title + rest, '*'),
        ) == "♪ "@ + artist + " - "@ + title,
{
    let s2 = album + seq!['*'] + title + rest;
    let s3 = title + rest;
    assert(artist + seq!['*'] + album + seq!['*'] + title + rest =~= artist + seq!['*'] + s2);
    lemma_split_field(artist, s2, '*', seq![]);
    assert(s2 =~= album + seq!['*'] + s3);
    lemma_split_field(album, s3, '*', seq![]);
    lemma_split_first(title, rest, '*');
    let tail = split_from(s3, '*', seq![]);
    let f = split(artist + seq!['*'] + album + seq!['*'] + title + rest, '*');
    assert(Seq::<char>::empty() + artist =~= artist);
    assert(Seq::<char>::empty() + album =~= album);
    assert(f == seq![artist] + (seq![album] + tail));
    assert(f.len() >= 3);
    assert(f[0] == artist);
    assert(f[2] == tail[0]);
}

/// For player output without a `*` (a single field), the now-playing text is `♪ `,
/// the whole output, ` - `, and the idle title.
pub proof fn lemma_now_playing_single_field(out: Seq<char>)
    requires
        !out.contains('*'),
    ensures
        now_playing_text(split(out, '*')) == "♪ "@ + out + " - "@ + IDLE_TITLE@,
{
    lemma_split_last(out, '*', seq![]);
    assert(Seq::<char>::empty() + out =~= out);
}

// ---------------------------------------------------------------------------
// Listing configurations

/// A directory entry is listed exactly when it is among the entries, ends with
/// `.rpc` and is not `config.rpc`; nothing else about the name matters.
pub proof fn lemma_configs_listed(names: Seq<Seq<char>>, n: Seq<char>)
    ensures
        names.filter(|x: Seq<char>| is_config_name(x)).contains(n) <==> (names.contains(n)
            && n.len() >= 4 && n.subrange(n.len() - 4, n.len() as int) == ".rpc"@ && n
            != "config.rpc"@),
{
    reveal_strlit(".rpc");
    assert(CONFIG_FILE@ == "config.rpc"@);
    lemma_filter_contains_iff(names, |x: Seq<char>| is_config_name(x), n);
    assert(is_config_name(n) <==> (n.len() >= 4 && n.subrange(n.len() - 4, n.len() as int)
        == ".rpc"@ && n != "config.rpc"@));
}

} // verus!
