//! The fortune-file format: an optional `# Title` line, then quotations
//! separated by lines that hold a single `%`.
use vstd::prelude::*;
use crate::text::{trim, trim_bounds, chars_of, string_of_range};

verus! {

/// A line that is nothing but this character, white space aside, ends a
/// quotation.
pub const SEPARATOR: char = '%';

/// A first line that begins with this character, white space aside, holds
/// the title.
pub const TITLE_MARKER: char = '#';

/// `l` without one trailing carriage return.
pub open spec fn strip_cr(l: Seq<char>) -> Seq<char> {
    if l.len() > 0 && l.last() == '\r' {
        l.drop_last()
    } else {
        l
    }
}

/// The lines of `s`, where `cur` holds the part of the current line read
/// so far. A line ends at `'\n'`, which it loses together with a `'\r'`
/// before it; a last line without `'\n'` is kept as it is, and an empty
/// rest after the last `'\n'` is no line.
pub open spec fn lines_from(cur: Seq<char>, s: Seq<char>) -> Seq<Seq<char>>
    decreases s.len(),
{
    if s.len() == 0 {
        if cur.len() == 0 {
            seq![]
        } else {
            seq![cur]
        }
    } else if s[0] == '\n' {
        seq![strip_cr(cur)] + lines_from(seq![], s.drop_first())
    } else {
        lines_from(cur.push(s[0]), s.drop_first())
    }
}

/// The lines of `s`, as a buffered reader hands them out.
pub open spec fn lines(s: Seq<char>) -> Seq<Seq<char>> {
    lines_from(seq![], s)
}

/// `s` without its leading title markers.
pub open spec fn strip_markers(s: Seq<char>) -> Seq<char>
    decreases s.len(),
{
    if s.len() > 0 && s[0] == TITLE_MARKER {
        strip_markers(s.drop_first())
    } else {
        s
    }
}

/// Whether a line separates two quotations.
pub open spec fn is_separator(line: Seq<char>) -> bool {
    trim(line) == seq![SEPARATOR]
}

/// What the parser knows after some lines: the title, the quotations
/// finished so far, the text of the quotation being read, and whether no
/// line was read yet.
pub struct Scan {
    pub title: Option<Seq<char>>,
    pub quotes: Seq<Seq<char>>,
    pub current: Seq<char>,
    pub first: bool,
}

/// The state before the first line.
pub open spec fn scan_start() -> Scan {
    Scan { title: None, quotes: seq![], current: seq![], first: true }
}

/// The quotations `quotes`, with `current` trimmed after them where it is
/// not blank.
pub open spec fn close_quote(quotes: Seq<Seq<char>>, current: Seq<char>) -> Seq<Seq<char>> {
    if trim(current).len() > 0 {
        quotes.push(trim(current))
    } else {
        quotes
    }
}

/// Reading one more line.
pub open spec fn step(st: Scan, line: Seq<char>) -> Scan {
    let t = trim(line);
    if st.first && t.len() > 0 && t[0] == TITLE_MARKER {
        Scan { title: Some(trim(strip_markers(t))), quotes: st.quotes, current: st.current, first: false }
    } else {
        let first = false;
        if is_separator(line) {
            Scan { title: st.title, quotes: close_quote(st.quotes, st.current), current: if trim(st.current).len() > 0 { seq![] } else { st.current }, first }
        } else {
            Scan { title: st.title, quotes: st.quotes, current: st.current + line + seq!['\n'], first }
        }
    }
}

/// Reading the lines `ls` from the state `st`.
pub open spec fn run(st: Scan, ls: Seq<Seq<char>>) -> Scan
    decreases ls.len(),
{
    if ls.len() == 0 {
        st
    } else {
        step(run(st, ls.drop_last()), ls.last())
    }
}

/// The title and quotations of a fortune file.
pub struct FortuneModel {
    pub title: Option<Seq<char>>,
    pub quotes: Seq<Seq<char>>,
}

/// What a fortune file with content `s` holds, or `None` where it holds no
/// quotation.
pub open spec fn parse_spec(s: Seq<char>) -> Option<FortuneModel> {
    let st = run(scan_start(), lines(s));
    let quotes = close_quote(st.quotes, st.current);
    if quotes.len() == 0 {
        None
    } else {
        Some(FortuneModel { title: st.title, quotes })
    }
}

/// The text of an optional string.
pub open spec fn view_opt(o: Option<String>) -> Option<Seq<char>> {
    match o {
        Some(s) => Some(s@),
        None => None,
    }
}

/// The texts of a sequence of strings.
pub open spec fn view_strings(v: Seq<String>) -> Seq<Seq<char>> {
    v.map_values(|s: String| s@)
}

/// A parsed fortune file.
#[derive(Debug)]
pub struct FortuneFile {
    pub title: Option<String>,
    pub quotes: Vec<String>,
}

impl View for FortuneFile {
    type V = FortuneModel;

    open spec fn view(&self) -> FortuneModel {
        FortuneModel { title: view_opt(self.title), quotes: view_strings(self.quotes@) }
    }
}

/// Why a fortune file could not be loaded.
#[derive(Debug, Clone, PartialEq, Eq)]
pub enum ParseError {
    /// The file could not be opened or read.
    Io(String),
    /// The file holds no quotation.
    Empty,
}

/// The message of `ParseError::Empty`.
pub open spec fn empty_message() -> Seq<char> {
    "No quotes found in the file."@
}

impl ParseError {
    /// The message that describes the error.
    pub fn message(&self) -> (r: String)
        ensures
            self is Empty ==> r@ == empty_message(),
            self is Io ==> r@ == self->Io_0@,
    {
        match self {
            ParseError::Io(m) => m.clone(),
            ParseError::Empty => "No quotes found in the file.".to_string(),
        }
    }
}

/// The ranges of the lines of `v`, as `lines` gives them.
fn split_lines(v: &Vec<char>) -> (r: Vec<(usize, usize)>)
    ensures
        r.len() == lines(v@).len(),
        forall|k: int|
            0 <= k < r.len() ==> {
                &&& (#[trigger] r[k]).0 <= r[k].1 <= v.len()
                &&& v@.subrange(r[k].0 as int, r[k].1 as int) == lines(v@)[k]
            },
{
    let ghost s = v@;
    let n = v.len();
    let mut r: Vec<(usize, usize)> = Vec::new();
    let ghost mut ls: Seq<Seq<char>> = seq![];
    let mut start: usize = 0;
    let mut i: usize = 0;
    assert(s.subrange(0, 0) == Seq::<char>::empty());
    assert(s.subrange(0, n as int) == s);
    while i < n
        invariant
            n == v.len(),
            s == v@,
            start <= i <= n,
            r.len() == ls.len(),
            forall|k: int|
                0 <= k < r.len() ==> {
                    &&& (#[trigger] r[k]).0 <= r[k].1 <= n
                    &&& s.subrange(r[k].0 as int, r[k].1 as int) == ls[k]
                },
            lines(s) == ls + lines_from(s.subrange(start as int, i as int), s.subrange(i as int, n as int)),
        decreases n - i,
    {
        let ghost cur = s.subrange(start as int, i as int);
        let ghost rest = s.subrange(i as int, n as int);
        assert(rest[0] == s[i as int]);
        assert(rest.drop_first() == s.subrange(i + 1, n as int));
        if v[i] == '\n' {
            let mut end = i;
            if end > start && v[end - 1] == '\r' {
                end = end - 1;
            }
            proof {
                assert(s.subrange(start as int, end as int) == strip_cr(cur));
                assert(s.subrange(i + 1, i + 1) == Seq::<char>::empty());
                assert(ls + lines_from(cur, rest) == ls.push(strip_cr(cur)) + lines_from(seq![], s.subrange(i + 1, n as int)));
                ls = ls.push(strip_cr(cur));
            }
            r.push((start, end));
            start = i + 1;
        } else {
            assert(cur.push(s[i as int]) == s.subrange(start as int, i + 1));
        }
        i = i + 1;
    }
    proof {
        let cur = s.subrange(start as int, n as int);
        assert(s.subrange(n as int, n as int) == Seq::<char>::empty());
        if cur.len() == 0 {
            assert(ls + seq![] == ls);
        }
    }
    if start < n {
        r.push((start, n));
        proof {
            ls = ls.push(s.subrange(start as int, n as int));
        }
    }
    proof {
        assert(lines(s) == ls);
    }
    r
}

/// Leading title markers are stripped away.
proof fn lemma_strip_markers_skip(s: Seq<char>, i: int)
    requires
        0 <= i <= s.len(),
        forall|j: int| 0 <= j < i ==> #[trigger] s[j] == TITLE_MARKER,
        i == s.len() || s[i] != TITLE_MARKER,
    ensures
        strip_markers(s) == s.subrange(i, s.len() as int),
    decreases i,
{
    if i > 0 {
        assert(s.drop_first().subrange(i - 1, s.drop_first().len() as int) == s.subrange(
            i,
            s.len() as int,
        ));
        lemma_strip_markers_skip(s.drop_first(), i - 1);
    } else {
        assert(s.subrange(0, s.len() as int) == s);
    }
}

/// Appends `v[from..to]` to `cur`.
fn append_range(cur: &mut Vec<char>, v: &Vec<char>, from: usize, to: usize)
    requires
        from <= to <= v.len(),
    ensures
        final(cur)@ == old(cur)@ + v@.subrange(from as int, to as int),
{
    let mut i = from;
    while i < to
        invariant
            from <= i <= to <= v.len(),
            cur@ == old(cur)@ + v@.subrange(from as int, i as int),
        decreases to - i,
    {
        cur.push(v[i]);
        assert(v@.subrange(from as int, i + 1) == v@.subrange(from as int, i as int).push(v@[i as int]));
        i = i + 1;
    }
}

/// The trimmed text of `cur`, where it is not blank.
fn close_current(cur: &Vec<char>) -> (r: Option<String>)
    ensures
        trim(cur@).len() > 0 ==> r is Some && r->0@ == trim(cur@),
        trim(cur@).len() == 0 ==> r is None,
{
    let (a, b) = trim_bounds(cur, 0, cur.len());
    assert(cur@.subrange(0, cur@.len() as int) == cur@);
    if a < b {
        Some(string_of_range(cur, a, b))
    } else {
        None
    }
}

impl FortuneFile {
    /// Parses the content of a fortune file: the title, if the very first
    /// line begins with `#`, and the quotations between the `%`
    /// lines, each trimmed, blank ones left out. A content with no quotation
    /// is `ParseError::Empty`.
    pub fn parse(content: &str) -> (r: Result<FortuneFile, ParseError>)
        ensures
            match parse_spec(content@) {
                Some(m) => r is Ok && r->Ok_0@ == m,
                None => r == Err::<FortuneFile, ParseError>(ParseError::Empty),
            },
    {
        let v = chars_of(content);
        let ranges = split_lines(&v);
        let ghost ls = lines(v@);
        let mut title: Option<String> = None;
        let mut quotes: Vec<String> = Vec::new();
        let mut current: Vec<char> = Vec::new();
        let mut first = true;
        let mut li: usize = 0;
        assert(ls.take(0) == Seq::<Seq<char>>::empty());
        assert(view_strings(quotes@) == Seq::<Seq<char>>::empty());
        while li < ranges.len()
            invariant
                li <= ranges.len() == ls.len(),
                ls == lines(v@),
                forall|k: int|
                    0 <= k < ranges.len() ==> {
                        &&& (#[trigger] ranges[k]).0 <= ranges[k].1 <= v.len()
                        &&& v@.subrange(ranges[k].0 as int, ranges[k].1 as int) == ls[k]
                    },
                run(scan_start(), ls.take(li as int)) == (Scan {
                    title: view_opt(title),
                    quotes: view_strings(quotes@),
                    current: current@,
                    first,
                }),
            decreases ranges.len() - li,
        {
            let (a, b) = ranges[li];
            let ghost line = ls[li as int];
            assert(line == v@.subrange(a as int, b as int));
            let ghost prev = Scan { title: view_opt(title), quotes: view_strings(quotes@), current: current@, first };
            assert(ls.take(li + 1).drop_last() == ls.take(li as int));
            assert(ls.take(li + 1).last() == line);
            let (ta, tb) = trim_bounds(&v, a, b);
            if first && ta < tb && v[ta] == '#' {
                let mut h = ta;
                while h < tb && v[h] == '#'
                    invariant
                        ta <= h <= tb <= v.len(),
                        forall|j: int| ta <= j < h ==> #[trigger] v@[j] == TITLE_MARKER,
                    decreases tb - h,
                {
                    h = h + 1;
                }
                proof {
                    let t = v@.subrange(ta as int, tb as int);
                    assert forall|j: int| 0 <= j < h - ta implies #[trigger] t[j] == TITLE_MARKER by {
                        assert(t[j] == v@[j + ta]);
                    }
                    if h < tb {
                        assert(t[h - ta] == v@[h as int]);
                    }
                    lemma_strip_markers_skip(t, h - ta);
                    assert(t.subrange(h - ta, t.len() as int) == v@.subrange(h as int, tb as int));
                    assert(t[0] == v@[ta as int]);
                }
                let (xa, xb) = trim_bounds(&v, h, tb);
                title = Some(string_of_range(&v, xa, xb));
                first = false;
                assert(step(prev, line).title == view_opt(title));
            } else {
                first = false;
                proof {
                    let t = v@.subrange(ta as int, tb as int);
                    if ta < tb {
                        assert(t[0] == v@[ta as int]);
                    }
                }
                if tb - ta == 1 && v[ta] == '%' {
                    proof {
                        assert(v@.subrange(ta as int, tb as int) =~= seq![SEPARATOR]);
                    }
                    let closed = close_current(&current);
                    match closed {
                        Some(q) => {
                            let ghost oq = quotes@;
                            let ghost qv = q@;
                            quotes.push(q);
                            current = Vec::new();
                            assert(view_strings(quotes@) == view_strings(oq).push(qv));
                            assert(current@ == Seq::<char>::empty());
                            assert(step(prev, line).quotes == view_strings(quotes@));
                            assert(step(prev, line).current == current@);
                        },
                        None => {
                            assert(step(prev, line).quotes == view_strings(quotes@));
                        },
                    }
                } else {
                    proof {
                        let t = v@.subrange(ta as int, tb as int);
                        assert(trim(line) == t);
                        if t == seq![SEPARATOR] {
                            assert(t.len() == 1);
                            assert(t[0] == v@[ta as int]);
                        }
                    }
                    append_range(&mut current, &v, a, b);
                    current.push('\n');
                    assert(step(prev, line).current == current@);
                }
            }
            assert(step(prev, line) == (Scan { title: view_opt(title), quotes: view_strings(quotes@), current: current@, first }));
            li = li + 1;
        }
        assert(ls.take(ls.len() as int) == ls);
        let last = close_current(&current);
        match last {
            Some(q) => {
                let ghost oq = quotes@;
                let ghost qv = q@;
                quotes.push(q);
                assert(view_strings(quotes@) == view_strings(oq).push(qv));
            },
            None => {},
        }
        if quotes.len() == 0 {
            Err(ParseError::Empty)
        } else {
            Ok(FortuneFile { title, quotes })
        }
    }
}

} // verus!
