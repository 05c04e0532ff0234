//! Laws of the lyrics format: the sort is stable, and a plain text line adds
//! nothing to a document.
use vstd::prelude::*;
use crate::lrc::{
    sort_lines, insert_pos, lemma_insert_pos, lemma_sort_lines, parse_lines, parse_lrc_spec,
    line_end, lemma_line_end, classify, LineKind, ParseState, stamp_len, is_meta, bad_stamp,
    lead_stamps,
};
use crate::text::{trim, lead_space, lemma_lead_space_le, lemma_trail_space_le};

verus! {

/// Texts of the lines of `s` whose time is `t`, in order.
pub open spec fn at_time(s: Seq<(int, Seq<char>)>, t: int) -> Seq<Seq<char>>
    decreases s.len(),
{
    if s.len() == 0 {
        seq![]
    } else if s.last().0 == t {
        at_time(s.drop_last(), t).push(s.last().1)
    } else {
        at_time(s.drop_last(), t)
    }
}

proof fn lemma_at_time_add(a: Seq<(int, Seq<char>)>, b: Seq<(int, Seq<char>)>, t: int)
    ensures
        at_time(a + b, t) == at_time(a, t) + at_time(b, t),
    decreases b.len(),
{
    if b.len() == 0 {
        assert(a + b =~= a);
        assert(at_time(a, t) + seq![] =~= at_time(a, t));
    } else {
        assert((a + b).drop_last() =~= a + b.drop_last());
        lemma_at_time_add(a, b.drop_last(), t);
        if b.last().0 == t {
            assert(at_time(a, t) + at_time(b.drop_last(), t).push(b.last().1) =~= (at_time(a, t)
                + at_time(b.drop_last(), t)).push(b.last().1));
        }
    }
}

proof fn lemma_at_time_later(b: Seq<(int, Seq<char>)>, t: int)
    requires
        forall|i: int| 0 <= i < b.len() ==> (#[trigger] b[i]).0 > t,
    ensures
        at_time(b, t) == Seq::<Seq<char>>::empty(),
    decreases b.len(),
{
    if b.len() > 0 {
        assert forall|i: int| 0 <= i < b.drop_last().len() implies (#[trigger] b.drop_last()[i]).0
            > t by {
            assert(b.drop_last()[i] == b[i]);
        }
        lemma_at_time_later(b.drop_last(), t);
    }
}

/// Sorting is stable: the lines of any one time keep their source order.
pub proof fn lemma_sort_lines_stable(s: Seq<(int, Seq<char>)>, t: int)
    ensures
        at_time(sort_lines(s), t) == at_time(s, t),
    decreases s.len(),
{
    if s.len() > 0 {
        let d = s.drop_last();
        let x = s.last();
        let r = sort_lines(d);
        lemma_sort_lines_stable(d, t);
        lemma_sort_lines(d);
        lemma_insert_pos(r, x.0);
        let p = insert_pos(r, x.0);
        let head = r.take(p);
        let tail = r.skip(p);
        assert(r.insert(p, x) =~= head + (seq![x] + tail));
        assert(r =~= head + tail);
        lemma_at_time_add(head, seq![x] + tail, t);
        lemma_at_time_add(seq![x], tail, t);
        lemma_at_time_add(head, tail, t);
        assert(seq![x].drop_last() =~= Seq::<(int, Seq<char>)>::empty());
        assert(seq![x].last() == x);
        assert(at_time(Seq::<(int, Seq<char>)>::empty(), t) == Seq::<Seq<char>>::empty());
        if x.0 == t {
            assert forall|i: int| 0 <= i < tail.len() implies (#[trigger] tail[i]).0 > t by {
                assert(tail[i] == r[p + i]);
            }
            lemma_at_time_later(tail, t);
            assert(at_time(seq![x], t) =~= seq![x.1]);
            assert(at_time(head, t) + (seq![x.1] + Seq::<Seq<char>>::empty()) =~= (at_time(head, t)
                + Seq::<Seq<char>>::empty()).push(x.1));
        } else {
            assert(at_time(seq![x], t) =~= Seq::<Seq<char>>::empty());
            assert(Seq::<Seq<char>>::empty() + at_time(tail, t) =~= at_time(tail, t));
        }
    }
}

proof fn lemma_plain_line_skips(l: Seq<char>)
    requires
        forall|i: int| 0 <= i < l.len() ==> l[i] != '[',
    ensures
        classify(l) == LineKind::Skip,
{
    let t = trim(l);
    lemma_lead_space_le(l);
    let a = lead_space(l) as int;
    let rest = l.subrange(a, l.len() as int);
    lemma_trail_space_le(rest);
    if t.len() > 0 {
        assert(t[0] == rest[0]);
        assert(rest[0] == l[a]);
        assert(!is_meta(t));
        assert(stamp_len(t) == 0);
        assert(!bad_stamp(t));
        assert(lead_stamps(t) == Some((Seq::<int>::empty(), t)));
    }
}

proof fn lemma_append_plain(s: Seq<char>, st: ParseState, l: Seq<char>)
    requires
        forall|i: int| 0 <= i < l.len() ==> l[i] != '[' && l[i] != '\n',
    ensures
        parse_lines(s + seq!['\n'] + l, st) == parse_lines(s, st),
    decreases s.len(),
{
    let tail = seq!['\n'] + l;
    let u = s + tail;
    assert(u =~= s + seq!['\n'] + l);
    let i = line_end(s);
    lemma_line_end_facts(s);
    assert forall|j: int| 0 <= j < i implies u[j] != '\n' by {
        assert(u[j] == s[j]);
    }
    if i < s.len() {
        assert(u[i] == s[i]);
        lemma_line_end(u, i);
        assert(u.subrange(0, i) =~= s.subrange(0, i));
        let rest = s.subrange(i + 1, s.len() as int);
        assert(u.subrange(i + 1, u.len() as int) =~= rest + tail);
        let k = classify(s.subrange(0, i));
        if !(k is Malformed) {
            lemma_append_plain(rest, crate::lrc::apply(st, k), l);
            assert(rest + tail =~= rest + seq!['\n'] + l);
            assert(parse_lines(u, st) == parse_lines(rest + tail, crate::lrc::apply(st, k)));
        }
    } else {
        assert(u[i] == '\n');
        lemma_line_end(u, i);
        assert(u.subrange(0, i) =~= s);
        assert(s.subrange(0, i) =~= s);
        assert(u.subrange(i + 1, u.len() as int) =~= l);
        assert forall|j: int| 0 <= j < l.len() implies l[j] != '\n' by {}
        lemma_line_end(l, l.len() as int);
        assert(l.subrange(0, l.len() as int) =~= l);
        lemma_plain_line_skips(l);
        let k = classify(s);
        if !(k is Malformed) {
            let st2 = crate::lrc::apply(st, k);
            assert(parse_lines(l, st2) == Some(st2));
            assert(parse_lines(u, st) == parse_lines(l, st2));
        }
    }
}

proof fn lemma_line_end_facts(s: Seq<char>)
    ensures
        0 <= line_end(s) <= s.len(),
        forall|j: int| 0 <= j < line_end(s) ==> s[j] != '\n',
        line_end(s) < s.len() ==> s[line_end(s)] == '\n',
    decreases s.len(),
{
    if s.len() > 0 && s[0] != '\n' {
        lemma_line_end_facts(s.drop_first());
        assert forall|j: int| 0 <= j < line_end(s) implies s[j] != '\n' by {
            if j > 0 {
                assert(s[j] == s.drop_first()[j - 1]);
            }
        }
    }
}

/// A line with no `[` in it (plain text such as credits) adds nothing to a
/// document: appending it leaves the parse result unchanged.
pub proof fn lemma_plain_line_adds_nothing(content: Seq<char>, line: Seq<char>)
    requires
        forall|i: int| 0 <= i < line.len() ==> line[i] != '[' && line[i] != '\n',
    ensures
        parse_lrc_spec(content + seq!['\n'] + line) == parse_lrc_spec(content),
{
    lemma_append_plain(content, crate::lrc::initial_state(), line);
}

} // verus!
