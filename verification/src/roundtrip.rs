//! Reading back what was written: the text that `Config::write_config` produces
//! describes the configuration it was produced from, as long as every key and value
//! survives being written as a line.

use vstd::prelude::*;
use crate::config::{
    entries_map, lemma_entries_map_value, header_key, is_comment, is_header, parse, parse_init, parse_step, render,
    render_section, render_values, run_lines, values_of, Config, ConfigMap, Entries, ParseState,
};
use crate::text::{lines, lines_from, remove_char, strip_cr, trim};

verus! {

/// A key that fits on a header line: it holds no line break.
pub open spec fn clean_key(k: Seq<char>) -> bool {
    !k.contains('\n')
}

/// A value that reads back as itself: a non-empty line without line breaks or
/// carriage returns, without surrounding whitespace, that is neither a comment
/// nor a header.
pub open spec fn clean_value(v: Seq<char>) -> bool {
    &&& v.len() > 0
    &&& !v.contains('\n')
    &&& !v.contains('\r')
    &&& trim(v) == v
    &&& !is_comment(v)
    &&& !is_header(v)
}

/// Every key and every value of `e` is clean.
pub open spec fn clean_entries(e: Entries) -> bool {
    forall|i: int|
        0 <= i < e.len() ==> clean_key(#[trigger] e[i].0) && forall|j: int|
            0 <= j < e[i].1.len() ==> clean_value(#[trigger] e[i].1[j])
}

/// The lines `ls`, each followed by a newline.
pub open spec fn terminated(ls: Seq<Seq<char>>) -> Seq<char>
    decreases ls.len(),
{
    if ls.len() == 0 {
        seq![]
    } else {
        ls[0] + seq!['\n'] + terminated(ls.drop_first())
    }
}

/// The lines that write out one section.
pub open spec fn section_lines(k: Seq<char>, vs: Seq<Seq<char>>) -> Seq<Seq<char>> {
    seq![seq![], seq!['['] + k + seq![']']] + vs
}

/// The lines that write out the sections `e`.
pub open spec fn render_lines(e: Entries) -> Seq<Seq<char>>
    decreases e.len(),
{
    if e.len() == 0 {
        seq![]
    } else {
        render_lines(e.drop_last()) + section_lines(e.last().0, e.last().1)
    }
}

pub(crate) proof fn lemma_terminated_append(a: Seq<Seq<char>>, b: Seq<Seq<char>>)
    ensures
        terminated(a + b) == terminated(a) + terminated(b),
    decreases a.len(),
{
    if a.len() == 0 {
        assert(a + b =~= b);
    } else {
        assert((a + b).drop_first() =~= a.drop_first() + b);
        lemma_terminated_append(a.drop_first(), b);
        assert((a + b)[0] == a[0]);
        assert(terminated(a + b) =~= terminated(a) + terminated(b));
    }
}

pub(crate) proof fn lemma_terminated_single(x: Seq<char>)
    ensures
        terminated(seq![x]) == x + seq!['\n'],
{
    assert(seq![x].drop_first() =~= Seq::<Seq<char>>::empty());
    assert(terminated(Seq::<Seq<char>>::empty()) == Seq::<char>::empty());
    assert(terminated(seq![x]) =~= x + seq!['\n']);
}

proof fn lemma_lines_from_line(s1: Seq<char>, s2: Seq<char>, cur: Seq<char>)
    requires
        !s1.contains('\n'),
    ensures
        lines_from(s1 + seq!['\n'] + s2, cur) == seq![strip_cr(cur + s1)] + lines_from(
            s2,
            seq![],
        ),
    decreases s1.len(),
{
    let s = s1 + seq!['\n'] + s2;
    if s1.len() == 0 {
        assert(s =~= seq!['\n'] + s2);
        assert(s.drop_first() =~= s2);
        assert(cur + s1 =~= cur);
    } else {
        assert(s[0] == s1[0]);
        assert(s1[0] != '\n');
        assert(s.drop_first() =~= s1.drop_first() + seq!['\n'] + s2);
        assert(!s1.drop_first().contains('\n')) by {
            if s1.drop_first().contains('\n') {
                let k = choose|k: int| 0 <= k < s1.drop_first().len() && s1.drop_first()[k] == '\n';
                assert(s1[k + 1] == '\n');
            }
        }
        lemma_lines_from_line(s1.drop_first(), s2, cur.push(s1[0]));
        assert(cur.push(s1[0]) + s1.drop_first() =~= cur + s1);
    }
}

pub(crate) proof fn lemma_lines_terminated(ls: Seq<Seq<char>>)
    requires
        forall|i: int| 0 <= i < ls.len() ==> !(#[trigger] ls[i]).contains('\n'),
        forall|i: int| 0 <= i < ls.len() ==> strip_cr(#[trigger] ls[i]) == ls[i],
    ensures
        lines(terminated(ls)) == ls,
    decreases ls.len(),
{
    if ls.len() == 0 {
    } else {
        let rest = ls.drop_first();
        assert forall|i: int| 0 <= i < rest.len() implies !(#[trigger] rest[i]).contains('\n') by {
            assert(rest[i] == ls[i + 1]);
        }
        assert forall|i: int| 0 <= i < rest.len() implies strip_cr(#[trigger] rest[i])
            == rest[i] by {
            assert(rest[i] == ls[i + 1]);
        }
        lemma_lines_terminated(rest);
        assert(!ls[0].contains('\n'));
        lemma_lines_from_line(ls[0], terminated(rest), seq![]);
        assert(Seq::<char>::empty() + ls[0] =~= ls[0]);
        assert(strip_cr(ls[0]) == ls[0]);
        assert(seq![ls[0]] + rest =~= ls);
    }
}

proof fn lemma_remove_absent(v: Seq<char>, c: char)
    requires
        !v.contains(c),
    ensures
        remove_char(v, c) == v,
    decreases v.len(),
{
    reveal_with_fuel(Seq::filter, 1);
    if v.len() > 0 {
        assert(!v.drop_last().contains(c)) by {
            if v.drop_last().contains(c) {
                let k = choose|k: int| 0 <= k < v.drop_last().len() && v.drop_last()[k] == c;
                assert(v[k] == c);
            }
        }
        lemma_remove_absent(v.drop_last(), c);
        assert(v.last() != c) by {
            if v.last() == c {
                assert(v[v.len() - 1] == c);
            }
        }
        assert(v.drop_last().push(v.last()) =~= v);
    }
}

proof fn lemma_render_values(vs: Seq<Seq<char>>)
    requires
        forall|j: int| 0 <= j < vs.len() ==> !(#[trigger] vs[j]).contains('\r'),
    ensures
        render_values(vs) == terminated(vs),
    decreases vs.len(),
{
    if vs.len() > 0 {
        let init = vs.drop_last();
        assert forall|j: int| 0 <= j < init.len() implies !(#[trigger] init[j]).contains('\r') by {
            assert(init[j] == vs[j]);
        }
        lemma_render_values(init);
        lemma_remove_absent(vs.last(), '\r');
        assert(init + seq![vs.last()] =~= vs);
        lemma_terminated_append(init, seq![vs.last()]);
        lemma_terminated_single(vs.last());
        assert(render_values(vs) =~= terminated(vs));
    }
}

proof fn lemma_render_terminated(e: Entries)
    requires
        clean_entries(e),
    ensures
        render(e) == terminated(render_lines(e)),
    decreases e.len(),
{
    if e.len() > 0 {
        let init = e.drop_last();
        assert(clean_entries(init)) by {
            assert forall|i: int| 0 <= i < init.len() implies clean_key(#[trigger] init[i].0)
                && forall|j: int| 0 <= j < init[i].1.len() ==> clean_value(
                #[trigger] init[i].1[j],
            ) by {
                assert(init[i] == e[i]);
            }
        }
        lemma_render_terminated(init);
        let k = e.last().0;
        let vs = e.last().1;
        assert forall|j: int| 0 <= j < vs.len() implies !(#[trigger] vs[j]).contains('\r') by {
            assert(e[e.len() - 1] == e.last());
            assert(clean_key(e[e.len() - 1].0));
            assert(clean_value(e[e.len() - 1].1[j]));
        }
        lemma_render_values(vs);
        let h = seq!['['] + k + seq![']'];
        let sl = section_lines(k, vs);
        lemma_terminated_append(render_lines(init), sl);
        lemma_terminated_append(seq![seq![], h], vs);
        assert(seq![seq![], h].drop_first() =~= seq![h]);
        lemma_terminated_single(h);
        assert(terminated(seq![seq![], h]) =~= Seq::<char>::empty() + seq!['\n'] + (h + seq![
            '\n',
        ]));
        assert(render_section(k, vs) =~= terminated(sl));
    }
}

proof fn lemma_run_append(st: ParseState, a: Seq<Seq<char>>, b: Seq<Seq<char>>)
    ensures
        run_lines(st, a + b) == run_lines(run_lines(st, a), b),
    decreases b.len(),
{
    if b.len() == 0 {
        assert(a + b =~= a);
    } else {
        assert((a + b).drop_last() =~= a + b.drop_last());
        assert((a + b).last() == b.last());
        lemma_run_append(st, a, b.drop_last());
    }
}

proof fn lemma_run_values(k: Seq<char>, m: ConfigMap, vs: Seq<Seq<char>>)
    requires
        forall|j: int| 0 <= j < vs.len() ==> clean_value(#[trigger] vs[j]),
    ensures
        run_lines((k, m.insert(k, seq![])), vs) == (k, m.insert(k, vs)),
    decreases vs.len(),
{
    if vs.len() == 0 {
        assert(vs =~= Seq::<Seq<char>>::empty());
        assert(m.insert(k, seq![]) =~= m.insert(k, vs));
    } else {
        let init = vs.drop_last();
        assert forall|j: int| 0 <= j < init.len() implies clean_value(#[trigger] init[j]) by {
            assert(init[j] == vs[j]);
        }
        lemma_run_values(k, m, init);
        let v = vs.last();
        assert(clean_value(vs[vs.len() - 1]));
        let mm = m.insert(k, init);
        assert(values_of(mm, k) == init);
        assert(init.push(v) =~= vs);
        assert(mm.insert(k, vs) =~= m.insert(k, vs));
        assert(parse_step(k, mm, v) == (k, mm.insert(k, vs)));
    }
}

proof fn lemma_run_section(st: ParseState, k: Seq<char>, vs: Seq<Seq<char>>)
    requires
        forall|j: int| 0 <= j < vs.len() ==> clean_value(#[trigger] vs[j]),
    ensures
        run_lines(st, section_lines(k, vs)) == (k, st.1.insert(k, vs)),
{
    let h = seq!['['] + k + seq![']'];
    assert(is_header(h));
    assert(header_key(h) =~= k);
    let two = seq![seq![], h];
    assert(two.drop_last() =~= seq![Seq::<char>::empty()]);
    assert(seq![Seq::<char>::empty()].drop_last() =~= Seq::<Seq<char>>::empty());
    assert(run_lines(st, Seq::<Seq<char>>::empty()) == st);
    assert(seq![Seq::<char>::empty()].last() == Seq::<char>::empty());
    assert(run_lines(st, seq![Seq::<char>::empty()]) == parse_step(st.0, st.1, Seq::<char>::empty()));
    assert(run_lines(st, seq![Seq::<char>::empty()]) == st);
    assert(run_lines(st, two) == (k, st.1.insert(k, seq![])));
    lemma_run_append(st, two, vs);
    lemma_run_values(k, st.1, vs);
}

proof fn lemma_run_render(e: Entries)
    requires
        clean_entries(e),
    ensures
        run_lines(parse_init(), render_lines(e)).1 == entries_map(e),
    decreases e.len(),
{
    if e.len() > 0 {
        let init = e.drop_last();
        assert(clean_entries(init)) by {
            assert forall|i: int| 0 <= i < init.len() implies clean_key(#[trigger] init[i].0)
                && forall|j: int| 0 <= j < init[i].1.len() ==> clean_value(
                #[trigger] init[i].1[j],
            ) by {
                assert(init[i] == e[i]);
            }
        }
        lemma_run_render(init);
        let vs = e.last().1;
        assert forall|j: int| 0 <= j < vs.len() implies clean_value(#[trigger] vs[j]) by {
            assert(e[e.len() - 1] == e.last());
            assert(clean_key(e[e.len() - 1].0));
            assert(clean_value(e[e.len() - 1].1[j]));
        }
        lemma_run_append(parse_init(), render_lines(init), section_lines(e.last().0, vs));
        lemma_run_section(run_lines(parse_init(), render_lines(init)), e.last().0, vs);
    }
}

/// Reading back what was written gives the same configuration: the text that
/// writes out the sections `e` describes exactly the keys of `e`, each with its
/// values, when no key holds a line break and every value is clean.
pub proof fn lemma_read_after_write(e: Entries)
    requires
        clean_entries(e),
    ensures
        parse(render(e)) == entries_map(e),
{
    lemma_render_terminated(e);
    let ls = render_lines(e);
    assert forall|i: int| 0 <= i < ls.len() implies !(#[trigger] ls[i]).contains('\n')
        && strip_cr(ls[i]) == ls[i] by {
        lemma_render_lines_clean(e, i);
    }
    lemma_lines_terminated(ls);
    lemma_run_render(e);
}

/// Every key of `m` is clean and every value under it is clean.
pub open spec fn clean_map(m: ConfigMap) -> bool {
    forall|k: Seq<char>|
        #[trigger] m.contains_key(k) ==> clean_key(k) && forall|j: int|
            0 <= j < m[k].len() ==> clean_value(#[trigger] m[k][j])
}

/// The same law for a configuration: the text that `Config::write_config` returns,
/// read with `Config::read_config`, gives back the configuration, when its keys
/// and values are clean.
pub proof fn lemma_config_read_after_write(c: &Config)
    requires
        c.wf(),
        clean_map(c@),
    ensures
        parse(render(c.entries())) == c@,
{
    let e = c.entries();
    assert forall|i: int| 0 <= i < e.len() implies clean_key(#[trigger] e[i].0) && forall|j: int|
        0 <= j < e[i].1.len() ==> clean_value(#[trigger] e[i].1[j]) by {
        lemma_entries_map_value(e, i);
        assert(c@.contains_key(e[i].0));
    }
    lemma_read_after_write(e);
}

proof fn lemma_render_lines_clean(e: Entries, i: int)
    requires
        clean_entries(e),
        0 <= i < render_lines(e).len(),
    ensures
        !render_lines(e)[i].contains('\n'),
        strip_cr(render_lines(e)[i]) == render_lines(e)[i],
    decreases e.len(),
{
    let init = e.drop_last();
    assert(clean_entries(init)) by {
        assert forall|a: int| 0 <= a < init.len() implies clean_key(#[trigger] init[a].0)
            && forall|j: int| 0 <= j < init[a].1.len() ==> clean_value(
            #[trigger] init[a].1[j],
        ) by {
            assert(init[a] == e[a]);
        }
    }
    let k = e.last().0;
    let vs = e.last().1;
    let h = seq!['['] + k + seq![']'];
    let n0 = render_lines(init).len();
    assert(render_lines(e)[i] == if i < n0 {
        render_lines(init)[i]
    } else {
        section_lines(k, vs)[i - n0]
    });
    if i < n0 {
        lemma_render_lines_clean(init, i);
    } else {
        let j = i - n0;
        assert(e[e.len() - 1] == e.last());
        if j == 0 {
        } else if j == 1 {
            assert(clean_key(e[e.len() - 1].0));
            assert(!h.contains('\n')) by {
                if h.contains('\n') {
                    let p = choose|p: int| 0 <= p < h.len() && h[p] == '\n';
                    assert(k[p - 1] == '\n');
                }
            }
            assert(h.last() == ']');
        } else {
            assert(section_lines(k, vs)[j] == vs[j - 2]);
            assert(clean_value(e[e.len() - 1].1[j - 2]));
            let v = vs[j - 2];
            assert(v.last() != '\r') by {
                assert(v[v.len() - 1] == v.last());
            }
        }
    }
}

} // verus!
