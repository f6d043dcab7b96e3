//! What the fortune-file format guarantees: how blocks become quotations,
//! when a content holds none, and where the title comes from.
use vstd::prelude::*;
use crate::loader::{
    lines, lines_from, strip_cr, run, step, scan_start, close_quote, parse_spec, is_separator,
    strip_markers, Scan, FortuneModel, TITLE_MARKER, SEPARATOR,
};
use crate::text::{is_space, is_blank, trim, trim_start, lemma_blank_trim, lemma_trim_drop_last_space};

verus! {

/// Splitting after a line break splits the lines.
proof fn lemma_lines_concat(cur: Seq<char>, x: Seq<char>, y: Seq<char>)
    requires
        x.len() > 0,
        x.last() == '\n',
    ensures
        lines_from(cur, x + y) == lines_from(cur, x) + lines(y),
    decreases x.len(),
{
    assert((x + y)[0] == x[0]);
    assert((x + y).drop_first() == x.drop_first() + y);
    if x[0] == '\n' {
        if x.len() == 1 {
            assert(x.drop_first() + y == y);
            assert(lines_from(seq![], x.drop_first()) == Seq::<Seq<char>>::empty());
        } else {
            assert(x.drop_first().last() == x.last());
            lemma_lines_concat(seq![], x.drop_first(), y);
        }
    } else {
        assert(x.drop_first().last() == x.last());
        lemma_lines_concat(cur.push(x[0]), x.drop_first(), y);
    }
}

/// A line break after text without one ends a single line.
proof fn lemma_one_line(cur: Seq<char>, x: Seq<char>)
    requires
        forall|i: int| 0 <= i < x.len() ==> #[trigger] x[i] != '\n',
    ensures
        lines_from(cur, x + seq!['\n']) == seq![strip_cr(cur + x)],
    decreases x.len(),
{
    let s = x + seq!['\n'];
    if x.len() == 0 {
        assert(s == seq!['\n']);
        assert(cur + x == cur);
        assert(s.drop_first() == Seq::<char>::empty());
        assert(lines_from(seq![], Seq::<char>::empty()) == Seq::<Seq<char>>::empty());
        assert(seq![strip_cr(cur)] + Seq::<Seq<char>>::empty() == seq![strip_cr(cur)]);
        assert(lines_from(cur, s) == seq![strip_cr(cur)] + lines_from(seq![], s.drop_first()));
    } else {
        assert(s[0] == x[0]);
        assert(x[0] != '\n');
        assert(s.drop_first() == x.drop_first() + seq!['\n']);
        assert forall|i: int| 0 <= i < x.drop_first().len() implies #[trigger] x.drop_first()[i] != '\n' by {
            assert(x.drop_first()[i] == x[i + 1]);
        }
        assert(cur.push(x[0]) + x.drop_first() == cur + x);
        lemma_one_line(cur.push(x[0]), x.drop_first());
        assert(lines_from(cur, s) == lines_from(cur.push(s[0]), s.drop_first()));
    }
}

/// A line break added after a last line that has none changes no line.
proof fn lemma_lines_end(cur: Seq<char>, s: Seq<char>)
    requires
        (cur + s).len() > 0,
        (cur + s).last() != '\n',
        (cur + s).last() != '\r',
    ensures
        lines_from(cur, s + seq!['\n']) == lines_from(cur, s),
    decreases s.len(),
{
    let x = s + seq!['\n'];
    if s.len() == 0 {
        assert(cur + s == cur);
        assert(x == seq!['\n']);
        assert(x.drop_first() == Seq::<char>::empty());
        assert(lines_from(seq![], Seq::<char>::empty()) == Seq::<Seq<char>>::empty());
        assert(cur.last() == cur[cur.len() - 1]);
        assert(strip_cr(cur) == cur);
        assert(lines_from(cur, x) == seq![strip_cr(cur)] + Seq::<Seq<char>>::empty());
    } else {
        assert(x[0] == s[0]);
        assert(x.drop_first() == s.drop_first() + seq!['\n']);
        assert((cur + s).last() == s.last());
        if s[0] == '\n' {
            let r = s.drop_first();
            assert(r.len() > 0);
            assert(Seq::<char>::empty() + r == r);
            assert(r.last() == s.last());
            lemma_lines_end(seq![], r);
        } else {
            let c = cur.push(s[0]);
            assert(c + s.drop_first() == cur + s);
            lemma_lines_end(c, s.drop_first());
        }
    }
}

/// Reading `a` and then `b` is reading `a + b`.
proof fn lemma_run_append(st: Scan, a: Seq<Seq<char>>, b: Seq<Seq<char>>)
    ensures
        run(st, a + b) == run(run(st, a), b),
    decreases b.len(),
{
    if b.len() == 0 {
        assert(a + b == a);
    } else {
        assert((a + b).drop_last() == a + b.drop_last());
        assert((a + b).last() == b.last());
        lemma_run_append(st, a, b.drop_last());
    }
}

/// Lines that are all blank or separators finish no quotation.
proof fn lemma_blank_run(ls: Seq<Seq<char>>)
    requires
        forall|k: int| 0 <= k < ls.len() ==> is_blank(#[trigger] ls[k]) || is_separator(ls[k]),
    ensures
        run(scan_start(), ls).quotes.len() == 0,
        is_blank(run(scan_start(), ls).current),
    decreases ls.len(),
{
    if ls.len() > 0 {
        let p = ls.drop_last();
        assert forall|k: int| 0 <= k < p.len() implies is_blank(#[trigger] p[k]) || is_separator(p[k]) by {
            assert(p[k] == ls[k]);
        }
        lemma_blank_run(p);
        let st = run(scan_start(), p);
        let line = ls.last();
        assert(is_blank(line) || is_separator(line)) by {
            assert(ls[ls.len() - 1] == line);
        }
        lemma_blank_trim(st.current);
        if is_blank(line) {
            lemma_blank_trim(line);
            assert(!is_separator(line)) by {
                assert(seq![crate::loader::SEPARATOR].len() == 1);
            }
            let c = st.current + line + seq!['\n'];
            assert forall|i: int| 0 <= i < c.len() implies is_space(#[trigger] c[i]) by {
                if i < st.current.len() {
                    assert(c[i] == st.current[i]);
                } else if i < st.current.len() + line.len() {
                    assert(c[i] == line[i - st.current.len()]);
                } else {
                    assert(c[i] == '\n');
                }
            }
        } else {
            assert(trim(line)[0] == crate::loader::SEPARATOR);
        }
    }
}

/// A content whose lines are all blank or separators, such as an empty
/// content or one of separators alone, holds no quotation: parsing it fails
/// as empty.
pub proof fn lemma_no_blocks_is_empty(s: Seq<char>)
    requires
        forall|k: int| 0 <= k < lines(s).len() ==> is_blank(#[trigger] lines(s)[k]) || is_separator(lines(s)[k]),
    ensures
        parse_spec(s) is None,
{
    lemma_blank_run(lines(s));
    lemma_blank_trim(run(scan_start(), lines(s)).current);
}

/// Whether the first line of `ls` begins with the title marker, white
/// space aside.
pub open spec fn has_title_line(ls: Seq<Seq<char>>) -> bool {
    ls.len() > 0 && trim(ls[0]).len() > 0 && trim(ls[0])[0] == TITLE_MARKER
}

/// Only the first line can give a title: before it no line was read, and
/// without a title line no title is found.
proof fn lemma_run_first(ls: Seq<Seq<char>>)
    ensures
        run(scan_start(), ls).first == (ls.len() == 0),
        !has_title_line(ls) ==> run(scan_start(), ls).title is None,
    decreases ls.len(),
{
    if ls.len() > 0 {
        let p = ls.drop_last();
        lemma_run_first(p);
        assert(ls[ls.len() - 1] == ls.last());
        if p.len() > 0 {
            assert(p[0] == ls[0]);
        } else {
            assert(ls.last() == ls[0]);
        }
    }
}

/// A content whose first line does not begin with `#`, white space aside,
/// has no title, whatever the lines after it hold.
pub proof fn lemma_no_title_line(s: Seq<char>)
    requires
        !has_title_line(lines(s)),
    ensures
        parse_spec(s) is Some ==> parse_spec(s)->0.title is None,
{
    lemma_run_first(lines(s));
}

/// The state after the title line: nothing read yet, and the title found.
pub open spec fn after_title(title: Option<Seq<char>>) -> Scan {
    Scan { title, quotes: seq![], current: seq![], first: false }
}

/// The quotations of the lines that follow the title line.
pub open spec fn body_quotes(rest: Seq<char>) -> Seq<Seq<char>> {
    let st = run(after_title(None), lines(rest));
    close_quote(st.quotes, st.current)
}

/// After the title line, reading lines keeps the title and does not
/// depend on it.
proof fn lemma_run_keeps_title(t: Option<Seq<char>>, ls: Seq<Seq<char>>)
    ensures
        run(after_title(t), ls) == (Scan {
            title: t,
            quotes: run(after_title(None), ls).quotes,
            current: run(after_title(None), ls).current,
            first: false,
        }),
        run(after_title(None), ls).title is None,
        !run(after_title(None), ls).first,
    decreases ls.len(),
{
    if ls.len() > 0 {
        lemma_run_keeps_title(t, ls.drop_last());
    }
}

/// A first line `# Title` gives the title, with the markers and the white
/// space around it removed, and adds nothing to the quotations: those are
/// the quotations of the lines after it.
pub proof fn lemma_title_line(l: Seq<char>, rest: Seq<char>)
    requires
        forall|i: int| 0 <= i < l.len() ==> #[trigger] l[i] != '\n',
        trim(l).len() > 0,
        trim(l)[0] == TITLE_MARKER,
    ensures
        parse_spec(l + seq!['\n'] + rest) == (if body_quotes(rest).len() > 0 {
            Some(FortuneModel { title: Some(trim(strip_markers(trim(l)))), quotes: body_quotes(rest) })
        } else {
            None
        }),
{
    let s = l + seq!['\n'] + rest;
    lemma_lines_concat(seq![], l + seq!['\n'], rest);
    lemma_one_line(seq![], l);
    assert(Seq::<char>::empty() + l == l);
    let sl = strip_cr(l);
    if l.len() > 0 && l.last() == '\r' {
        lemma_trim_drop_last_space(l);
    }
    assert(trim(sl) == trim(l));
    assert(lines(s) == seq![sl] + lines(rest));
    lemma_run_append(scan_start(), seq![sl], lines(rest));
    assert(seq![sl].drop_last() == Seq::<Seq<char>>::empty());
    assert(run(scan_start(), Seq::<Seq<char>>::empty()) == scan_start());
    assert(seq![sl].last() == sl);
    let t = Some(trim(strip_markers(trim(l))));
    assert(run(scan_start(), seq![sl]) == after_title(t));
    lemma_run_keeps_title(t, lines(rest));
}

/// The lines `ls`, each followed by a line break.
pub open spec fn joined_lines(ls: Seq<Seq<char>>) -> Seq<char>
    decreases ls.len(),
{
    if ls.len() == 0 {
        seq![]
    } else {
        joined_lines(ls.drop_last()) + ls.last() + seq!['\n']
    }
}

/// `x`, with a line break added where it does not end with one.
pub open spec fn close_text(x: Seq<char>) -> Seq<char> {
    if x.len() == 0 || x.last() == '\n' {
        x
    } else {
        x + seq!['\n']
    }
}

/// One line, put back together.
proof fn lemma_joined_one(x: Seq<char>)
    ensures
        joined_lines(seq![x]) == x + seq!['\n'],
{
    assert(seq![x].drop_last() == Seq::<Seq<char>>::empty());
    assert(seq![x].last() == x);
    assert(joined_lines(Seq::<Seq<char>>::empty()) == Seq::<char>::empty());
    assert(Seq::<char>::empty() + x == x);
}

/// Putting lines back together splits over a concatenation.
proof fn lemma_joined_append(a: Seq<Seq<char>>, b: Seq<Seq<char>>)
    ensures
        joined_lines(a + b) == joined_lines(a) + joined_lines(b),
    decreases b.len(),
{
    if b.len() == 0 {
        assert(a + b == a);
        assert(joined_lines(a) + Seq::<char>::empty() == joined_lines(a));
    } else {
        assert((a + b).drop_last() == a + b.drop_last());
        assert((a + b).last() == b.last());
        lemma_joined_append(a, b.drop_last());
    }
}

/// Without carriage returns, the lines put back together give the text,
/// with a line break at its end.
proof fn lemma_rejoin(cur: Seq<char>, s: Seq<char>)
    requires
        forall|i: int| 0 <= i < cur.len() ==> #[trigger] cur[i] != '\n' && cur[i] != '\r',
        forall|i: int| 0 <= i < s.len() ==> #[trigger] s[i] != '\r',
    ensures
        joined_lines(lines_from(cur, s)) == close_text(cur + s),
    decreases s.len(),
{
    if s.len() == 0 {
        assert(cur + s == cur);
        if cur.len() > 0 {
            assert(cur.last() == cur[cur.len() - 1]);
            assert(seq![cur].drop_last() == Seq::<Seq<char>>::empty());
            lemma_joined_one(cur);
        }
    } else {
        let r = s.drop_first();
        assert forall|i: int| 0 <= i < r.len() implies #[trigger] r[i] != '\r' by {
            assert(r[i] == s[i + 1]);
        }
        if s[0] == '\n' {
            if cur.len() > 0 {
                assert(cur.last() == cur[cur.len() - 1]);
            }
            assert(strip_cr(cur) == cur);
            lemma_rejoin(seq![], r);
            lemma_joined_append(seq![cur], lines_from(seq![], r));
            assert(seq![cur].drop_last() == Seq::<Seq<char>>::empty());
            lemma_joined_one(cur);
            assert(cur + s == cur + seq!['\n'] + r);
            assert(Seq::<char>::empty() + r == r);
            if r.len() > 0 {
                assert((cur + s).last() == r.last());
                assert(cur + seq!['\n'] + (r + seq!['\n']) == cur + s + seq!['\n']);
            } else {
                assert(cur + s == cur + seq!['\n']);
                assert((cur + s).last() == '\n');
            }
        } else {
            let c = cur.push(s[0]);
            assert forall|i: int| 0 <= i < c.len() implies #[trigger] c[i] != '\n' && c[i] != '\r' by {
                if i < cur.len() {
                    assert(c[i] == cur[i]);
                }
            }
            lemma_rejoin(c, r);
            assert(c + r == cur + s);
        }
    }
}

/// Reading lines, none of them a separator, once the first non-blank line
/// is behind, adds them to the quotation being read.
proof fn lemma_run_plain(st: Scan, ls: Seq<Seq<char>>)
    requires
        !st.first,
        forall|k: int| 0 <= k < ls.len() ==> !is_separator(#[trigger] ls[k]),
    ensures
        run(st, ls) == (Scan { title: st.title, quotes: st.quotes, current: st.current + joined_lines(ls), first: false }),
    decreases ls.len(),
{
    if ls.len() == 0 {
        assert(st.current + Seq::<char>::empty() == st.current);
    } else {
        let p = ls.drop_last();
        assert forall|k: int| 0 <= k < p.len() implies !is_separator(#[trigger] p[k]) by {
            assert(p[k] == ls[k]);
        }
        lemma_run_plain(st, p);
        assert(!is_separator(ls.last())) by {
            assert(ls[ls.len() - 1] == ls.last());
        }
        assert(st.current + joined_lines(p) + ls.last() + seq!['\n'] == st.current + joined_lines(ls));
    }
}

/// From the start, lines without a separator and without a title line add
/// up to the quotation being read.
proof fn lemma_run_block_start(ls: Seq<Seq<char>>)
    requires
        forall|k: int| 0 <= k < ls.len() ==> !is_separator(#[trigger] ls[k]),
        !has_title_line(ls),
    ensures
        run(scan_start(), ls).title is None,
        run(scan_start(), ls).quotes == Seq::<Seq<char>>::empty(),
        run(scan_start(), ls).current == joined_lines(ls),
    decreases ls.len(),
{
    lemma_run_first(ls);
    if ls.len() > 0 {
        let p = ls.drop_last();
        assert forall|k: int| 0 <= k < p.len() implies !is_separator(#[trigger] p[k]) by {
            assert(p[k] == ls[k]);
        }
        if p.len() > 0 {
            assert(p[0] == ls[0]);
        } else {
            assert(ls.last() == ls[0]);
        }
        lemma_run_block_start(p);
        lemma_run_first(p);
        let line = ls.last();
        assert(ls[ls.len() - 1] == line);
        assert(!is_separator(line));
    }
}

/// The content made of the blocks `bs`, with a separator line between each
/// two.
pub open spec fn join_blocks(bs: Seq<Seq<char>>) -> Seq<char>
    decreases bs.len(),
{
    if bs.len() == 0 {
        seq![]
    } else if bs.len() == 1 {
        bs[0]
    } else {
        join_blocks(bs.drop_last()) + seq!['\n', SEPARATOR, '\n'] + bs.last()
    }
}

/// A block that reads as one quotation: not blank, without carriage
/// returns, and without a separator line.
pub open spec fn plain_block(b: Seq<char>) -> bool {
    &&& trim(b).len() > 0
    &&& forall|i: int| 0 <= i < b.len() ==> #[trigger] b[i] != '\r'
    &&& forall|k: int| 0 <= k < lines(b + seq!['\n']).len() ==> !is_separator(#[trigger] lines(b + seq!['\n'])[k])
}

/// Each block, trimmed.
pub open spec fn trimmed_blocks(bs: Seq<Seq<char>>) -> Seq<Seq<char>> {
    bs.map_values(|b: Seq<char>| trim(b))
}

/// The state after the blocks `bs` and a final line break.
proof fn lemma_blocks_run(bs: Seq<Seq<char>>)
    requires
        bs.len() >= 1,
        forall|k: int| 0 <= k < bs.len() ==> plain_block(#[trigger] bs[k]),
        !has_title_line(lines(bs[0] + seq!['\n'])),
    ensures
        run(scan_start(), lines(join_blocks(bs) + seq!['\n'])).title is None,
        run(scan_start(), lines(join_blocks(bs) + seq!['\n'])).quotes == trimmed_blocks(bs.drop_last()),
        run(scan_start(), lines(join_blocks(bs) + seq!['\n'])).current == bs.last() + seq!['\n'],
    decreases bs.len(),
{
    let b = bs.last();
    assert(plain_block(bs[bs.len() - 1]));
    let lb = lines(b + seq!['\n']);
    assert forall|i: int| 0 <= i < (b + seq!['\n']).len() implies #[trigger] (b + seq!['\n'])[i] != '\r' by {
        if i < b.len() {
            assert((b + seq!['\n'])[i] == b[i]);
        }
    }
    lemma_rejoin(seq![], b + seq!['\n']);
    assert(Seq::<char>::empty() + (b + seq!['\n']) == b + seq!['\n']);
    assert((b + seq!['\n']).last() == '\n');
    assert(joined_lines(lb) == b + seq!['\n']);
    if bs.len() == 1 {
        assert(join_blocks(bs) == bs[0]);
        assert(plain_block(bs[0]));
        lemma_run_block_start(lb);
        assert(bs.drop_last() == Seq::<Seq<char>>::empty());
        assert(trimmed_blocks(bs.drop_last()) == Seq::<Seq<char>>::empty());
    } else {
        let p = bs.drop_last();
        assert forall|k: int| 0 <= k < p.len() implies plain_block(#[trigger] p[k]) by {
            assert(p[k] == bs[k]);
        }
        assert(p[0] == bs[0]);
        lemma_blocks_run(p);
        let xp = join_blocks(p) + seq!['\n'];
        let sep = seq![SEPARATOR, '\n'];
        assert(join_blocks(bs) + seq!['\n'] == xp + (sep + (b + seq!['\n'])));
        lemma_lines_concat(seq![], xp, sep + (b + seq!['\n']));
        lemma_lines_concat(seq![], sep, b + seq!['\n']);
        lemma_one_line(seq![], seq![SEPARATOR]);
        assert(seq![SEPARATOR] + seq!['\n'] == sep);
        assert(Seq::<char>::empty() + seq![SEPARATOR] == seq![SEPARATOR]);
        let sl = seq![SEPARATOR];
        assert(strip_cr(sl) == sl);
        assert(lines(sep) == seq![sl]);
        let la = lines(xp);
        assert(lines(join_blocks(bs) + seq!['\n']) == la + seq![sl] + lb);
        lemma_run_append(scan_start(), la + seq![sl], lb);
        lemma_run_append(scan_start(), la, seq![sl]);
        let st0 = run(scan_start(), la);
        assert(seq![sl].drop_last() == Seq::<Seq<char>>::empty());
        assert(seq![sl].last() == sl);
        assert(run(st0, Seq::<Seq<char>>::empty()) == st0);
        assert(!is_space(SEPARATOR));
        assert(trim_start(sl) == sl);
        assert(sl.last() == SEPARATOR);
        assert(crate::text::trim_end(sl) == sl);
        assert(is_separator(sl));
        let pl = p.last();
        lemma_trim_drop_last_space(pl + seq!['\n']);
        assert((pl + seq!['\n']).drop_last() == pl);
        assert(plain_block(p[p.len() - 1]));
        let st1 = run(st0, seq![sl]);
        assert(st1 == step(st0, sl));
        assert(st1.quotes == trimmed_blocks(p.drop_last()).push(trim(pl)));
        assert(trimmed_blocks(p.drop_last()).push(trim(pl)) == trimmed_blocks(p));
        assert(!st1.first);
        assert(st1.current == Seq::<char>::empty());
        assert forall|k: int| 0 <= k < lb.len() implies !is_separator(#[trigger] lb[k]) by {}
        lemma_run_plain(st1, lb);
        assert(Seq::<char>::empty() + joined_lines(lb) == joined_lines(lb));
    }
}

/// A content made of one or more blocks with a separator line between each
/// two parses to as many quotations, each its block trimmed, provided no
/// block is blank, holds a carriage return or a separator line, and the
/// first line of the first block does not begin with `#`.
pub proof fn lemma_blocks(bs: Seq<Seq<char>>)
    requires
        bs.len() >= 1,
        forall|k: int| 0 <= k < bs.len() ==> plain_block(#[trigger] bs[k]),
        !has_title_line(lines(bs[0] + seq!['\n'])),
    ensures
        parse_spec(join_blocks(bs)) == Some(FortuneModel { title: None, quotes: trimmed_blocks(bs) }),
{
    lemma_blocks_run(bs);
    let s = join_blocks(bs);
    let x = s + seq!['\n'];
    let st = run(scan_start(), lines(x));
    let b = bs.last();
    assert(plain_block(bs[bs.len() - 1]));
    let st2 = run(scan_start(), lines(s));
    if s.len() == 0 || s.last() == '\n' {
        lemma_lines_concat(seq![], seq!['\n'], Seq::<char>::empty());
        if s.len() == 0 {
            assert(x == seq!['\n']);
            assert(lines(s) == Seq::<Seq<char>>::empty());
            assert(Seq::<Seq<char>>::empty() + lines(x) == lines(x));
        } else {
            lemma_lines_concat(seq![], s, seq!['\n']);
        }
        assert(seq!['\n'] + Seq::<char>::empty() == seq!['\n']);
        lemma_one_line(seq![], Seq::<char>::empty());
        assert(Seq::<char>::empty() + Seq::<char>::empty() == Seq::<char>::empty());
        assert(lines(seq!['\n']) == seq![Seq::<char>::empty()]);
        assert(lines(Seq::<char>::empty()) == Seq::<Seq<char>>::empty());
        assert(lines(x) == lines(s) + seq![Seq::<char>::empty()]);
        let e = Seq::<char>::empty();
        assert((lines(s) + seq![e]).drop_last() == lines(s));
        assert((lines(s) + seq![e]).last() == e);
        assert(trim(e) == e);
        assert(st == step(st2, e));
        assert(st2.current + e + seq!['\n'] == b + seq!['\n']);
        assert(st2.current == b) by {
            assert(st2.current == (st2.current + e + seq!['\n']).drop_last());
            assert((b + seq!['\n']).drop_last() == b);
        }
    } else {
        assert(s.last() == b.last()) by {
            if bs.len() == 1 {
            } else {
                assert(s == join_blocks(bs.drop_last()) + seq!['\n', SEPARATOR, '\n'] + b);
            }
        }
        assert(b.last() == b[b.len() - 1]);
        assert(Seq::<char>::empty() + s == s);
        lemma_lines_end(seq![], s);
        assert(lines(x) == lines(s));
    }
    lemma_trim_drop_last_space(b + seq!['\n']);
    assert((b + seq!['\n']).drop_last() == b);
    assert(trimmed_blocks(bs.drop_last()).push(trim(b)) == trimmed_blocks(bs));
}

} // verus!
