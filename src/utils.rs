//! Choosing the quotation to serve: gathering the quotations of every
//! source, finding the last one served, and drawing a new one that differs
//! from it where that is possible.
use vstd::prelude::*;
use crate::loader::{FortuneFile, ParseError, view_opt, view_strings};
use crate::store::{QuoteCache, store_map};
use crate::text::{lowercase, lower_of, chars_of, trim, trim_bounds, string_of_range};

verus! {

/// Relies on `rand::random_range`: a number drawn from `0..n`. It panics on
/// an empty range, which `n > 0` rules out.
#[verifier::external_body]
pub(crate) fn random_below(n: usize) -> (r: usize)
    requires
        n > 0,
    ensures
        r < n,
{
    rand::random_range(0..n)
}

/// Whether `q` may be served after `last`.
pub open spec fn differs(q: Seq<char>, last: Option<Seq<char>>) -> bool {
    match last {
        Some(l) => q != l,
        None => true,
    }
}

/// The positions, in order, of the quotations of `qs` that differ from
/// `last`.
pub open spec fn eligible(qs: Seq<Seq<char>>, last: Option<Seq<char>>) -> Seq<int>
    decreases qs.len(),
{
    if qs.len() == 0 {
        seq![]
    } else if differs(qs.last(), last) {
        eligible(qs.drop_last(), last).push(qs.len() - 1)
    } else {
        eligible(qs.drop_last(), last)
    }
}

/// How many quotations the draw chooses from: those that differ from
/// `last`, or all of them where none does.
pub open spec fn candidate_total(qs: Seq<Seq<char>>, last: Option<Seq<char>>) -> int {
    if eligible(qs, last).len() > 0 {
        eligible(qs, last).len() as int
    } else {
        qs.len() as int
    }
}

/// The position of the quotation that the draw `draw` chooses.
pub open spec fn picked(qs: Seq<Seq<char>>, last: Option<Seq<char>>, draw: int) -> int {
    if eligible(qs, last).len() > 0 {
        eligible(qs, last)[draw]
    } else {
        draw
    }
}

/// The eligible positions are positions of quotations that differ from
/// `last`, and there is one wherever such a quotation exists.
pub proof fn lemma_eligible(qs: Seq<Seq<char>>, last: Option<Seq<char>>)
    ensures
        forall|k: int|
            0 <= k < eligible(qs, last).len() ==> 0 <= #[trigger] eligible(qs, last)[k] < qs.len()
                && differs(qs[eligible(qs, last)[k]], last),
        (exists|j: int| 0 <= j < qs.len() && differs(#[trigger] qs[j], last)) ==> eligible(qs, last).len() > 0,
    decreases qs.len(),
{
    if qs.len() > 0 {
        let p = qs.drop_last();
        lemma_eligible(p, last);
        assert forall|k: int| 0 <= k < eligible(qs, last).len() implies 0 <= #[trigger] eligible(qs, last)[k] < qs.len()
            && differs(qs[eligible(qs, last)[k]], last) by {
            if k < eligible(p, last).len() {
                assert(eligible(qs, last)[k] == eligible(p, last)[k]);
                assert(p[eligible(p, last)[k]] == qs[eligible(p, last)[k]]);
            }
        }
        if exists|j: int| 0 <= j < qs.len() && differs(#[trigger] qs[j], last) {
            let j = choose|j: int| 0 <= j < qs.len() && differs(#[trigger] qs[j], last);
            if j < qs.len() - 1 {
                assert(p[j] == qs[j]);
            }
        }
    }
}

/// The positions of the quotations that differ from `last`.
fn eligible_positions(quotes: &[String], last: &Option<String>) -> (r: Vec<usize>)
    ensures
        r.len() == eligible(view_strings(quotes@), view_opt(*last)).len(),
        forall|k: int| 0 <= k < r.len() ==> r[k] as int == #[trigger] eligible(view_strings(quotes@), view_opt(*last))[k],
{
    let ghost qs = view_strings(quotes@);
    let mut r: Vec<usize> = Vec::new();
    let mut i: usize = 0;
    assert(qs.take(0) == Seq::<Seq<char>>::empty());
    while i < quotes.len()
        invariant
            i <= quotes.len(),
            qs == view_strings(quotes@),
            r.len() == eligible(qs.take(i as int), view_opt(*last)).len(),
            forall|k: int| 0 <= k < r.len() ==> r[k] as int == #[trigger] eligible(qs.take(i as int), view_opt(*last))[k],
        decreases quotes.len() - i,
    {
        assert(qs.take(i + 1).drop_last() == qs.take(i as int));
        assert(qs.take(i + 1).last() == quotes@[i as int]@);
        let keep = match last {
            Some(l) => !(quotes[i] == *l),
            None => true,
        };
        if keep {
            r.push(i);
        }
        i = i + 1;
    }
    assert(qs.take(quotes.len() as int) == qs);
    r
}

/// How many quotations a draw chooses from, after leaving out those equal to
/// `last`: all of them where every one is equal to `last`.
pub fn candidate_count(quotes: &[String], last: &Option<String>) -> (r: usize)
    ensures
        r == candidate_total(view_strings(quotes@), view_opt(*last)),
{
    let e = eligible_positions(quotes, last);
    if e.len() > 0 {
        e.len()
    } else {
        quotes.len()
    }
}

/// The position of the quotation that the number `draw` chooses, among
/// those that differ from `last`, or among all where none does.
pub fn pick_index(quotes: &[String], last: &Option<String>, draw: usize) -> (r: usize)
    requires
        draw < candidate_total(view_strings(quotes@), view_opt(*last)),
    ensures
        r == picked(view_strings(quotes@), view_opt(*last), draw as int),
        r < quotes.len(),
        (exists|j: int| 0 <= j < quotes.len() && differs(#[trigger] quotes@[j]@, view_opt(*last)))
            ==> differs(quotes@[r as int]@, view_opt(*last)),
{
    proof {
        lemma_eligible(view_strings(quotes@), view_opt(*last));
        let qs = view_strings(quotes@);
        if exists|j: int| 0 <= j < quotes.len() && differs(#[trigger] quotes@[j]@, view_opt(*last)) {
            let j = choose|j: int| 0 <= j < quotes.len() && differs(#[trigger] quotes@[j]@, view_opt(*last));
            assert(qs[j] == quotes@[j]@);
        }
    }
    let e = eligible_positions(quotes, last);
    if e.len() > 0 {
        assert(e[draw as int] as int == eligible(view_strings(quotes@), view_opt(*last))[draw as int]);
        e[draw]
    } else {
        draw
    }
}

/// A quotation of `quotes` drawn at random among those that differ from
/// `last`, or among all where every one equals `last`.
pub fn random_nonrepeating(quotes: &[String], last: Option<String>) -> (r: &str)
    requires
        quotes.len() > 0,
    ensures
        exists|i: int| 0 <= i < quotes.len() && r@ == (#[trigger] quotes@[i])@,
        (exists|j: int| 0 <= j < quotes.len() && differs(#[trigger] quotes@[j]@, view_opt(last)))
            ==> differs(r@, view_opt(last)),
{
    let n = candidate_count(quotes, &last);
    proof {
        lemma_eligible(view_strings(quotes@), view_opt(last));
    }
    let draw = random_below(n);
    let i = pick_index(quotes, &last, draw);
    quotes[i].as_str()
}

/// A quotation of `quotes` drawn at random.
pub fn random_quote(quotes: &[String]) -> (r: &str)
    requires
        quotes.len() > 0,
    ensures
        exists|i: int| 0 <= i < quotes.len() && r@ == (#[trigger] quotes@[i])@,
{
    let i = random_below(quotes.len());
    quotes[i].as_str()
}

/// The quotations of the sources that loaded, in order.
pub open spec fn loaded_quotes(fs: Seq<Result<FortuneFile, ParseError>>) -> Seq<Seq<char>>
    decreases fs.len(),
{
    if fs.len() == 0 {
        seq![]
    } else {
        match fs.last() {
            Ok(f) => loaded_quotes(fs.drop_last()) + view_strings(f.quotes@),
            Err(_) => loaded_quotes(fs.drop_last()),
        }
    }
}

/// For each quotation of `loaded_quotes(fs)`, the position of its source.
pub open spec fn loaded_origins(fs: Seq<Result<FortuneFile, ParseError>>) -> Seq<int>
    decreases fs.len(),
{
    if fs.len() == 0 {
        seq![]
    } else {
        match fs.last() {
            Ok(f) => loaded_origins(fs.drop_last()) + Seq::new(f.quotes@.len(), |i: int| fs.len() - 1),
            Err(_) => loaded_origins(fs.drop_last()),
        }
    }
}

/// Every quotation that the sources gave, each with the position of its
/// source.
pub struct Candidates {
    pub quotes: Vec<String>,
    pub origins: Vec<usize>,
}

impl Candidates {
    /// The quotations of the sources that loaded, in source order, and the
    /// origin of each; the sources that failed give none.
    pub fn gather(loaded: &[Result<FortuneFile, ParseError>]) -> (r: Candidates)
        ensures
            view_strings(r.quotes@) == loaded_quotes(loaded@),
            r.origins.len() == r.quotes.len(),
            forall|i: int| 0 <= i < r.origins.len() ==> r.origins[i] as int == #[trigger] loaded_origins(loaded@)[i],
            loaded_origins(loaded@).len() == r.origins.len(),
    {
        let mut quotes: Vec<String> = Vec::new();
        let mut origins: Vec<usize> = Vec::new();
        let mut fi: usize = 0;
        assert(loaded@.take(0) == Seq::<Result<FortuneFile, ParseError>>::empty());
        assert(view_strings(quotes@) == Seq::<Seq<char>>::empty());
        while fi < loaded.len()
            invariant
                fi <= loaded.len(),
                view_strings(quotes@) == loaded_quotes(loaded@.take(fi as int)),
                origins.len() == quotes.len(),
                loaded_origins(loaded@.take(fi as int)).len() == origins.len(),
                forall|i: int| 0 <= i < origins.len() ==> origins[i] as int == #[trigger] loaded_origins(loaded@.take(fi as int))[i],
            decreases loaded.len() - fi,
        {
            let ghost pre = loaded@.take(fi as int);
            assert(loaded@.take(fi + 1).drop_last() == pre);
            assert(loaded@.take(fi + 1).last() == loaded@[fi as int]);
            match &loaded[fi] {
                Ok(f) => {
                    let ghost q0 = quotes@;
                    let ghost o0 = origins@;
                    let mut qi: usize = 0;
                    assert(f.quotes@.take(0) == Seq::<String>::empty());
                    assert(view_strings(f.quotes@.take(0)) == Seq::<Seq<char>>::empty());
                    assert(view_strings(quotes@) == view_strings(q0) + view_strings(f.quotes@.take(0)));
                    while qi < f.quotes.len()
                        invariant
                            qi <= f.quotes.len(),
                            fi < loaded.len(),
                            view_strings(quotes@) == view_strings(q0) + view_strings(f.quotes@.take(qi as int)),
                            origins.len() == quotes.len(),
                            origins.len() == o0.len() + qi,
                            forall|i: int| 0 <= i < o0.len() ==> origins@[i] == o0[i],
                            forall|i: int| o0.len() <= i < origins.len() ==> origins@[i] == fi,
                        decreases f.quotes.len() - qi,
                    {
                        let ghost before = quotes@;
                        quotes.push(f.quotes[qi].clone());
                        origins.push(fi);
                        assert(f.quotes@.take(qi + 1) == f.quotes@.take(qi as int).push(f.quotes@[qi as int]));
                        assert(view_strings(quotes@) == view_strings(before).push(f.quotes@[qi as int]@));
                        assert(view_strings(f.quotes@.take(qi + 1)) == view_strings(f.quotes@.take(qi as int)).push(f.quotes@[qi as int]@));
                        qi = qi + 1;
                    }
                    assert(f.quotes@.take(f.quotes.len() as int) == f.quotes@);
                    proof {
                        let lo = loaded_origins(loaded@.take(fi + 1));
                        assert(lo == loaded_origins(pre) + Seq::new(f.quotes@.len(), |i: int| fi as int));
                        assert forall|i: int| 0 <= i < origins.len() implies origins[i] as int == #[trigger] lo[i] by {
                            if i < o0.len() {
                                assert(origins@[i] == o0[i]);
                            }
                        }
                    }
                },
                Err(_) => {},
            }
            fi = fi + 1;
        }
        assert(loaded@.take(loaded.len() as int) == loaded@);
        Candidates { quotes, origins }
    }
}

/// Whether `j` is the position of the first of `keys` that `cache` holds a
/// quotation for.
pub open spec fn first_hit(cache: Map<Seq<char>, Seq<char>>, keys: Seq<Seq<char>>, j: int) -> bool {
    &&& 0 <= j < keys.len()
    &&& cache.contains_key(keys[j])
    &&& forall|k: int| 0 <= k < j ==> !cache.contains_key(#[trigger] keys[k])
}

/// The quotation last served for the first of `keys`, in order, that a
/// store file with content `store_text` holds one for; `None` where it
/// holds none for any of them.
pub fn last_served(store_text: &str, keys: &[String]) -> (r: Option<String>)
    ensures
        r is None <==> forall|k: int| 0 <= k < keys.len() ==> !store_map(store_text@).contains_key(#[trigger] keys@[k]@),
        r is Some ==> exists|j: int| first_hit(store_map(store_text@), view_strings(keys@), j) && r->0@ == store_map(store_text@)[keys@[j]@],
{
    let cache = QuoteCache::from_json(store_text);
    let mut j: usize = 0;
    while j < keys.len()
        invariant
            j <= keys.len(),
            cache.wf(),
            cache@ == store_map(store_text@),
            forall|k: int| 0 <= k < j ==> !store_map(store_text@).contains_key(#[trigger] keys@[k]@),
        decreases keys.len() - j,
    {
        match cache.get(keys[j].as_str()) {
            Some(q) => {
                proof {
                    let ks = view_strings(keys@);
                    assert forall|k: int| 0 <= k < j implies !store_map(store_text@).contains_key(#[trigger] ks[k]) by {
                        assert(ks[k] == keys@[k]@);
                    }
                    assert(first_hit(store_map(store_text@), ks, j as int));
                }
                return Some(q);
            },
            None => {},
        }
        j = j + 1;
    }
    None
}

/// The position of the first quotation of `quotes` equal to `q`.
pub fn position_of(quotes: &[String], q: &String) -> (r: Option<usize>)
    ensures
        r is Some ==> r->0 < quotes.len() && quotes@[r->0 as int]@ == q@ && forall|k: int| 0 <= k < r->0 ==> (#[trigger] quotes@[k])@ != q@,
        r is None ==> forall|k: int| 0 <= k < quotes.len() ==> (#[trigger] quotes@[k])@ != q@,
{
    let mut i: usize = 0;
    while i < quotes.len()
        invariant
            i <= quotes.len(),
            forall|k: int| 0 <= k < i ==> (#[trigger] quotes@[k])@ != q@,
        decreases quotes.len() - i,
    {
        if quotes[i] == *q {
            return Some(i);
        }
        i = i + 1;
    }
    None
}

/// Why no quotation could be served.
#[derive(Debug, Clone, Copy, PartialEq, Eq)]
pub enum ServeError {
    /// None of the sources gave a quotation.
    NoQuotes,
}

/// The quotation to serve, and the position of the source whose cache
/// entry it replaces.
pub struct Served {
    pub quote: String,
    pub source: usize,
}

/// Chooses the quotation to serve from the sources that loaded, given the
/// content of the store file and the canonical key of each source: a
/// quotation drawn among all of theirs, which differs from the one last
/// served for the first source that has one where some quotation does. The
/// source recorded is that of the first quotation equal to the one drawn.
pub fn choose_quote(loaded: &[Result<FortuneFile, ParseError>], store_text: &str, keys: &[String]) -> (r: Result<Served, ServeError>)
    ensures
        r is Err <==> loaded_quotes(loaded@).len() == 0,
        r is Ok ==> {
            let qs = loaded_quotes(loaded@);
            let s = r->Ok_0;
            exists|i: int| {
                &&& 0 <= i < qs.len()
                &&& #[trigger] qs[i] == s.quote@
                &&& forall|k: int| 0 <= k < i ==> qs[k] != s.quote@
                &&& s.source as int == loaded_origins(loaded@)[i]
            }
        },
        r is Ok ==> forall|j: int|
            #[trigger] first_hit(store_map(store_text@), view_strings(keys@), j)
                && (exists|i: int| 0 <= i < loaded_quotes(loaded@).len() && #[trigger] loaded_quotes(loaded@)[i] != store_map(store_text@)[keys@[j]@])
                ==> r->Ok_0.quote@ != store_map(store_text@)[keys@[j]@],
{
    let c = Candidates::gather(loaded);
    if c.quotes.len() == 0 {
        return Err(ServeError::NoQuotes);
    }
    let last = last_served(store_text, keys);
    let n = candidate_count(c.quotes.as_slice(), &last);
    proof {
        lemma_eligible(view_strings(c.quotes@), view_opt(last));
    }
    let draw = random_below(n);
    let i = pick_index(c.quotes.as_slice(), &last, draw);
    let quote = c.quotes[i].clone();
    let p = position_of(c.quotes.as_slice(), &quote);
    match p {
        Some(pi) => {
            let source = c.origins[pi];
            proof {
                let qs = loaded_quotes(loaded@);
                assert(qs[pi as int] == c.quotes@[pi as int]@);
                assert forall|k: int| 0 <= k < pi implies qs[k] != quote@ by {
                    assert(qs[k] == c.quotes@[k]@);
                }
                assert forall|j: int|
                    #[trigger] first_hit(store_map(store_text@), view_strings(keys@), j)
                        && (exists|x: int| 0 <= x < qs.len() && #[trigger] qs[x] != store_map(store_text@)[keys@[j]@]) implies quote@ != store_map(store_text@)[keys@[j]@] by {
                    let l = store_map(store_text@)[keys@[j]@];
                    let ks = view_strings(keys@);
                    assert(ks[j] == keys@[j]@);
                    if last is None {
                        assert(!store_map(store_text@).contains_key(keys@[j]@));
                    }
                    let lj = choose|jj: int| first_hit(store_map(store_text@), ks, jj) && last->0@ == store_map(store_text@)[keys@[jj]@];
                    if lj < j {
                        assert(ks[lj] == keys@[lj]@);
                    } else if j < lj {
                        assert(ks[j] == keys@[j]@);
                    }
                    let x = choose|x: int| 0 <= x < qs.len() && #[trigger] qs[x] != l;
                    assert(qs[x] == c.quotes@[x]@);
                    assert(differs(c.quotes@[x]@, view_opt(last)));
                }
            }
            Ok(Served { quote, source })
        },
        None => {
            proof {
                assert(c.quotes@[i as int]@ == quote@);
            }
            Err(ServeError::NoQuotes)
        },
    }
}

/// The key under which the cache records a source: its resolved path where
/// it could be resolved, else the path as it was given.
pub fn canonical_key(resolved: Option<String>, path: &str) -> (r: String)
    ensures
        resolved is Some ==> r@ == resolved->0@,
        resolved is None ==> r@ == path@,
{
    match resolved {
        Some(p) => p,
        None => path.to_string(),
    }
}

/// Whether an answer, already trimmed and lower-cased, turns the
/// initialization down.
pub fn is_refusal(answer: &str) -> (r: bool)
    ensures
        r == (answer@ == "n"@ || answer@ == "no"@),
{
    let a = answer.to_string();
    a == "n".to_string() || a == "no".to_string()
}

/// Whether the answer typed at the initialization prompt turns it down:
/// once trimmed and lower-cased, it is `n` or `no`.
pub fn declines_initialization(input: &str) -> (r: bool)
    ensures
        r == (lower_of(trim(input@)) == "n"@ || lower_of(trim(input@)) == "no"@),
{
    let v = chars_of(input);
    let (a, b) = trim_bounds(&v, 0, v.len());
    assert(v@.subrange(0, v@.len() as int) == v@);
    let trimmed = string_of_range(&v, a, b);
    let lowered = lowercase(trimmed.as_str());
    is_refusal(lowered.as_str())
}

} // verus!
